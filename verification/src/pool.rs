//! Per-host connection accounting with separate limits for HTTP/1.1 and
//! HTTP/2 hosts.

use vstd::prelude::*;

verus! {

#[derive(Debug, Clone, Copy)]
pub struct PoolConfig {
    pub per_host_limit: usize,
    pub per_host_limit_h2: usize,
    pub connect_timeout_ms: u64,
    pub read_timeout_ms: u64,
}

impl Default for PoolConfig {
    /// Six connections per HTTP/1.1 host, two per HTTP/2 host (multiplexing
    /// does the rest), 5 s connect and 30 s read timeouts.
    fn default() -> (c: PoolConfig)
        ensures
            c.per_host_limit == 6,
            c.per_host_limit_h2 == 2,
            c.connect_timeout_ms == 5000,
            c.read_timeout_ms == 30000,
    {
        PoolConfig {
            per_host_limit: 6,
            per_host_limit_h2: 2,
            connect_timeout_ms: 5000,
            read_timeout_ms: 30000,
        }
    }
}

#[derive(Debug, Clone, Copy, PartialEq, Eq, Structural)]
pub struct HostState {
    pub active_connections: usize,
    pub is_http2: bool,
}

/// The connection limit that applies to a host's protocol class.
pub open spec fn spec_limit_for(c: PoolConfig, is_http2: bool) -> usize {
    if is_http2 {
        c.per_host_limit_h2
    } else {
        c.per_host_limit
    }
}

/// Compares two byte strings.
fn bytes_eq(a: &[u8], b: &[u8]) -> (r: bool)
    ensures
        r == (a@ == b@),
{
    if a.len() != b.len() {
        proof {
            assert(a@ != b@);
        }
        return false;
    }
    let n = a.len();
    for i in 0..n
        invariant
            n == a@.len(),
            n == b@.len(),
            forall|j: int| 0 <= j < i ==> a@[j] == b@[j],
    {
        if a[i] != b[i] {
            return false;
        }
    }
    proof {
        assert(a@ =~= b@);
    }
    true
}

/// Host names and their states, kept in two parallel lists; a host appears
/// at most once.
pub struct ConnectionPool {
    config: PoolConfig,
    host_names: Vec<Vec<u8>>,
    host_states: Vec<HostState>,
}

impl ConnectionPool {
    pub closed spec fn spec_config(self) -> PoolConfig {
        self.config
    }

    pub closed spec fn hosts(self) -> Seq<Vec<u8>> {
        self.host_names@
    }

    pub closed spec fn states(self) -> Seq<HostState> {
        self.host_states@
    }

    pub open spec fn wf(self) -> bool {
        &&& self.hosts().len() == self.states().len()
        &&& forall|i: int, j: int|
            #![trigger self.hosts()[i], self.hosts()[j]]
            0 <= i < j < self.hosts().len() ==> self.hosts()[i]@ != self.hosts()[j]@
    }

    /// Whether the pool already tracks `h`.
    pub open spec fn knows(self, h: Seq<u8>) -> bool {
        exists|i: int| 0 <= i < self.hosts().len() && (#[trigger] self.hosts()[i])@ == h
    }

    /// The index tracking `h` (meaningful only when `knows(h)`).
    pub open spec fn index_of(self, h: Seq<u8>) -> int {
        choose|i: int| 0 <= i < self.hosts().len() && (#[trigger] self.hosts()[i])@ == h
    }

    pub fn new(config: PoolConfig) -> (p: ConnectionPool)
        ensures
            p.wf(),
            p.spec_config() == config,
            p.hosts().len() == 0,
    {
        ConnectionPool { config, host_names: Vec::new(), host_states: Vec::new() }
    }

    fn find(&self, host: &[u8]) -> (r: Option<usize>)
        requires
            self.wf(),
        ensures
            r matches Some(i) ==> i < self.hosts().len() && self.hosts()[i as int]@ == host@
                && self.knows(host@) && self.index_of(host@) == i,
            r is None ==> !self.knows(host@),
    {
        let n = self.host_names.len();
        for i in 0..n
            invariant
                self.wf(),
                n == self.hosts().len(),
                forall|j: int| 0 <= j < i ==> (#[trigger] self.hosts()[j])@ != host@,
        {
            if bytes_eq(self.host_names[i].as_slice(), host) {
                return Some(i);
            }
        }
        None
    }

    /// Whether a new connection to `host` would be admitted; an unknown
    /// host always is.
    pub fn can_connect(&self, host: &[u8]) -> (b: bool)
        requires
            self.wf(),
        ensures
            !self.knows(host@) ==> b,
            self.knows(host@) ==> b == ({
                let s = self.states()[self.index_of(host@)];
                s.active_connections < spec_limit_for(self.spec_config(), s.is_http2)
            }),
    {
        match self.find(host) {
            Some(i) => {
                let s = self.host_states[i];
                let limit = if s.is_http2 {
                    self.config.per_host_limit_h2
                } else {
                    self.config.per_host_limit
                };
                s.active_connections < limit
            },
            None => true,
        }
    }

    /// Admits a connection when the host is below its limit, counting it;
    /// an unknown host is first registered with the given protocol class.
    /// Returns whether the connection was admitted.
    pub fn acquire(&mut self, host: &[u8], is_http2: bool) -> (b: bool)
        requires
            old(self).wf(),
        ensures
            final(self).wf(),
            final(self).spec_config() == old(self).spec_config(),
            old(self).knows(host@) ==> ({
                let i = old(self).index_of(host@);
                let s = old(self).states()[i];
                let limit = spec_limit_for(old(self).spec_config(), s.is_http2);
                &&& final(self).hosts() == old(self).hosts()
                &&& b == (s.active_connections < limit)
                &&& (b ==> final(self).states() == old(self).states().update(
                    i,
                    (HostState {
                        active_connections: (s.active_connections + 1) as usize,
                        is_http2: s.is_http2,
                    }),
                ))
                &&& (!b ==> final(self).states() == old(self).states())
            }),
            !old(self).knows(host@) ==> ({
                let limit = spec_limit_for(old(self).spec_config(), is_http2);
                &&& b == (0 < limit)
                &&& final(self).hosts().len() == old(self).hosts().len() + 1
                &&& final(self).hosts()[old(self).hosts().len() as int]@ == host@
                &&& (forall|j: int|
                    0 <= j < old(self).hosts().len() ==> #[trigger] final(self).hosts()[j] == old(
                        self,
                    ).hosts()[j])
                &&& final(self).states() == old(self).states().push(
                    (HostState {
                        active_connections: if 0 < limit {
                            1usize
                        } else {
                            0usize
                        },
                        is_http2,
                    }),
                )
            }),
    {
        match self.find(host) {
            Some(i) => {
                let s = self.host_states[i];
                let limit = if s.is_http2 {
                    self.config.per_host_limit_h2
                } else {
                    self.config.per_host_limit
                };
                if s.active_connections < limit {
                    self.host_states.set(
                        i,
                        HostState {
                            active_connections: s.active_connections + 1,
                            is_http2: s.is_http2,
                        },
                    );
                    true
                } else {
                    false
                }
            },
            None => {
                let limit = if is_http2 {
                    self.config.per_host_limit_h2
                } else {
                    self.config.per_host_limit
                };
                let mut name: Vec<u8> = Vec::new();
                name.extend_from_slice(host);
                proof {
                    assert(name@ =~= host@);
                }
                self.host_names.push(name);
                let admitted = 0 < limit;
                self.host_states.push(
                    HostState {
                        active_connections: if admitted {
                            1
                        } else {
                            0
                        },
                        is_http2,
                    },
                );
                proof {
                    assert forall|i: int, j: int|
                        #![trigger self.hosts()[i], self.hosts()[j]]
                        0 <= i < j < self.hosts().len() implies self.hosts()[i]@ != self.hosts()[j]@
                    by {
                        if j == self.hosts().len() - 1 {
                            assert(old(self).hosts()[i] == self.hosts()[i]);
                            assert(old(self).hosts()[i]@ != host@);
                        } else {
                            assert(old(self).hosts()[i] == self.hosts()[i]);
                            assert(old(self).hosts()[j] == self.hosts()[j]);
                        }
                    }
                }
                admitted
            },
        }
    }

    /// Releases one connection of a known host, never dropping below zero;
    /// unknown hosts are ignored.
    pub fn release(&mut self, host: &[u8])
        requires
            old(self).wf(),
        ensures
            final(self).wf(),
            final(self).spec_config() == old(self).spec_config(),
            final(self).hosts() == old(self).hosts(),
            !old(self).knows(host@) ==> final(self).states() == old(self).states(),
            old(self).knows(host@) ==> ({
                let i = old(self).index_of(host@);
                let s = old(self).states()[i];
                final(self).states() == old(self).states().update(
                    i,
                    (HostState {
                        active_connections: if s.active_connections > 0 {
                            (s.active_connections - 1) as usize
                        } else {
                            0usize
                        },
                        is_http2: s.is_http2,
                    }),
                )
            }),
    {
        if let Some(i) = self.find(host) {
            let s = self.host_states[i];
            self.host_states.set(
                i,
                HostState {
                    active_connections: if s.active_connections > 0 {
                        s.active_connections - 1
                    } else {
                        0
                    },
                    is_http2: s.is_http2,
                },
            );
        }
    }

    /// Switches a known host to the HTTP/2 limit class; unknown hosts are
    /// ignored.
    pub fn set_http2(&mut self, host: &[u8])
        requires
            old(self).wf(),
        ensures
            final(self).wf(),
            final(self).spec_config() == old(self).spec_config(),
            final(self).hosts() == old(self).hosts(),
            !old(self).knows(host@) ==> final(self).states() == old(self).states(),
            old(self).knows(host@) ==> ({
                let i = old(self).index_of(host@);
                let s = old(self).states()[i];
                final(self).states() == old(self).states().update(
                    i,
                    (HostState { active_connections: s.active_connections, is_http2: true }),
                )
            }),
    {
        if let Some(i) = self.find(host) {
            let s = self.host_states[i];
            self.host_states.set(
                i,
                HostState { active_connections: s.active_connections, is_http2: true },
            );
        }
    }
}

impl Default for ConnectionPool {
    fn default() -> (p: ConnectionPool)
        ensures
            p.wf(),
            p.hosts().len() == 0,
    {
        ConnectionPool::new(PoolConfig::default())
    }
}

} // verus!
