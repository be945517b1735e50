//! The orchestrator: owns the map from download ids to transfers, turns
//! commands into state transitions, and says which events each step emits.
//! The channels carrying commands in and events out live outside the
//! library; every decision between them is made here.

use vstd::prelude::*;
use vstd::string::StrSliceExecFns;
use vstd::string::StringExecFns;
use crate::types::{DownloadId, DownloadOptions, DownloadState, SegmentState};

verus! {

/// User intent, delivered over the command bus.
#[derive(Debug, Clone)]
pub enum OrchestratorCommand {
    AddDownload { url: String, options: DownloadOptions },
    PauseDownload(DownloadId),
    ResumeDownload(DownloadId),
    CancelDownload(DownloadId),
    SetBandwidthLimit(Option<u64>),
}

/// Observable state, emitted on the event bus.
#[derive(Debug, Clone)]
pub enum DownloadEvent {
    DownloadAdded { id: DownloadId, url: String, filename: String, total_size: Option<u64> },
    ProgressUpdate { id: DownloadId, downloaded: u64, segments: Vec<SegmentState> },
    SpeedUpdate { id: DownloadId, speed: u64 },
    StateChange { id: DownloadId, state: DownloadState },
    SegmentRebalanced { id: DownloadId, old_count: usize, new_count: usize },
    Error { id: DownloadId, error: String },
    Complete { id: DownloadId, path: String, hash: String },
}

/// One owned transfer.
#[derive(Debug, Clone)]
pub struct DownloadTask {
    pub id: DownloadId,
    pub url: String,
    pub filename: String,
    pub output_path: String,
    pub total_size: Option<u64>,
    pub state: DownloadState,
}

/// The URL cut at its first query or fragment marker.
pub open spec fn cut_at_query(u: Seq<char>) -> Seq<char>
    decreases u.len(),
{
    if u.len() == 0 {
        u
    } else if u.first() == '?' || u.first() == '#' {
        Seq::empty()
    } else {
        seq![u.first()] + cut_at_query(u.drop_first())
    }
}

/// Everything after the last slash; the whole string when there is none.
pub open spec fn chars_after_last_slash(s: Seq<char>) -> Seq<char>
    decreases s.len(),
{
    if s.len() == 0 {
        s
    } else if s.last() == '/' {
        Seq::empty()
    } else {
        chars_after_last_slash(s.drop_last()).push(s.last())
    }
}

/// The filename a URL suggests: its last path segment (the part after the
/// final slash, queries and fragments ignored), or `download` when that is
/// empty.
pub open spec fn spec_default_filename(url: Seq<char>) -> Seq<char> {
    let seg = chars_after_last_slash(cut_at_query(url));
    if seg.len() == 0 {
        "download"@
    } else {
        seg
    }
}

proof fn lemma_cut_at_query_take(u: Seq<char>, c: int)
    requires
        0 <= c <= u.len(),
        forall|j: int| 0 <= j < c ==> #[trigger] u[j] != '?' && u[j] != '#',
        c < u.len() ==> u[c] == '?' || u[c] == '#',
    ensures
        cut_at_query(u) == u.take(c),
    decreases c,
{
    if c == 0 {
        if u.len() == 0 {
            assert(u.take(0) =~= u);
        } else {
            assert(u.take(0) =~= Seq::<char>::empty());
        }
    } else {
        lemma_cut_at_query_take(u.drop_first(), c - 1);
        assert(seq![u.first()] + u.drop_first().take(c - 1) =~= u.take(c));
    }
}

proof fn lemma_chars_after_last_slash_skip(s: Seq<char>, k: int)
    requires
        0 <= k < s.len(),
        s[k] == '/',
        forall|j: int| k < j < s.len() ==> s[j] != '/',
    ensures
        chars_after_last_slash(s) == s.skip(k + 1),
    decreases s.len(),
{
    if k == s.len() - 1 {
        assert(s.skip(k + 1) =~= Seq::<char>::empty());
    } else {
        lemma_chars_after_last_slash_skip(s.drop_last(), k);
        assert(s.drop_last().skip(k + 1).push(s.last()) =~= s.skip(k + 1));
    }
}

proof fn lemma_chars_after_last_slash_whole(s: Seq<char>)
    requires
        forall|j: int| 0 <= j < s.len() ==> s[j] != '/',
    ensures
        chars_after_last_slash(s) == s,
    decreases s.len(),
{
    if s.len() > 0 {
        lemma_chars_after_last_slash_whole(s.drop_last());
        assert(s.drop_last().push(s.last()) =~= s);
    } else {
        assert(chars_after_last_slash(s) =~= s);
    }
}

/// The filename a URL suggests, as an owned string.
pub fn default_filename(url: &str) -> (r: String)
    ensures
        r@ == spec_default_filename(url@),
{
    let n = url.unicode_len();
    let mut c: usize = 0;
    while c < n && url.get_char(c) != '?' && url.get_char(c) != '#'
        invariant
            n == url@.len(),
            c <= n,
            forall|j: int| 0 <= j < c ==> #[trigger] url@[j] != '?' && url@[j] != '#',
        decreases n - c,
    {
        c = c + 1;
    }
    proof {
        lemma_cut_at_query_take(url@, c as int);
    }
    let mut k: usize = c;
    while k > 0 && url.get_char(k - 1) != '/'
        invariant
            n == url@.len(),
            c <= n,
            k <= c,
            forall|j: int| k <= j < c ==> url@[j] != '/',
        decreases k,
    {
        k = k - 1;
    }
    let cut = url.substring_char(k, c);
    proof {
        let cq = cut_at_query(url@);
        assert(cq == url@.take(c as int));
        if k > 0 {
            assert forall|j: int| (k as int) <= j < cq.len() implies cq[j] != '/' by {
                assert(cq[j] == url@[j]);
            }
            assert(cq[k - 1] == url@[k - 1]);
            lemma_chars_after_last_slash_skip(cq, k - 1);
        } else {
            assert forall|j: int| 0 <= j < cq.len() implies cq[j] != '/' by {
                assert(cq[j] == url@[j]);
            }
            lemma_chars_after_last_slash_whole(cq);
        }
        assert(url@.take(c as int).skip(k as int) =~= url@.subrange(k as int, c as int));
    }
    if cut.unicode_len() == 0 {
        "download".to_owned()
    } else {
        cut.to_owned()
    }
}

/// The path a transfer writes to: the output directory, a slash, the
/// filename.
pub fn join_path(dir: &str, filename: &str) -> (r: String)
    ensures
        r@ == dir@ + "/"@ + filename@,
{
    let mut r = dir.to_owned();
    r.append("/");
    r.append(filename);
    r
}

/// The `SegmentRebalanced` event a successful rebalance pass emits: a pass
/// that split nothing emits nothing.
pub fn rebalanced_event(id: DownloadId, old_count: usize, added: usize) -> (r: Option<
    DownloadEvent,
>)
    requires
        old_count + added <= usize::MAX,
    ensures
        added == 0 ==> r is None,
        added > 0 ==> r == Some(
            DownloadEvent::SegmentRebalanced {
                id,
                old_count,
                new_count: (old_count + added) as usize,
            },
        ),
{
    if added == 0 {
        None
    } else {
        Some(DownloadEvent::SegmentRebalanced { id, old_count, new_count: old_count + added })
    }
}

/// Owns every transfer and assigns their ids, monotonically from 1.
pub struct Orchestrator {
    downloads: Vec<DownloadTask>,
    next_id: u64,
}

impl Orchestrator {
    pub closed spec fn tasks(self) -> Seq<DownloadTask> {
        self.downloads@
    }

    pub closed spec fn spec_next_id(self) -> u64 {
        self.next_id
    }

    /// Ids are unique and below the id counter.
    pub open spec fn wf(self) -> bool {
        &&& forall|i: int|
            0 <= i < self.tasks().len() ==> (#[trigger] self.tasks()[i]).id.0 < self.spec_next_id()
        &&& forall|i: int, j: int|
            #![trigger self.tasks()[i], self.tasks()[j]]
            0 <= i < j < self.tasks().len() ==> self.tasks()[i].id != self.tasks()[j].id
    }

    /// Whether some task carries `id`.
    pub open spec fn has_task(self, id: DownloadId) -> bool {
        exists|i: int| 0 <= i < self.tasks().len() && (#[trigger] self.tasks()[i]).id == id
    }

    /// The index of the task carrying `id` (meaningful only when present).
    pub open spec fn task_index(self, id: DownloadId) -> int {
        choose|i: int| 0 <= i < self.tasks().len() && (#[trigger] self.tasks()[i]).id == id
    }

    pub fn new() -> (o: Orchestrator)
        ensures
            o.wf(),
            o.tasks().len() == 0,
            o.spec_next_id() == 1,
    {
        Orchestrator { downloads: Vec::new(), next_id: 1 }
    }

    fn find_task(&self, id: DownloadId) -> (r: Option<usize>)
        requires
            self.wf(),
        ensures
            r matches Some(i) ==> i < self.tasks().len() && self.tasks()[i as int].id == id
                && self.has_task(id) && self.task_index(id) == i,
            r is None ==> !self.has_task(id),
    {
        let n = self.downloads.len();
        for i in 0..n
            invariant
                self.wf(),
                n == self.tasks().len(),
                forall|j: int| 0 <= j < i ==> (#[trigger] self.tasks()[j]).id != id,
        {
            if self.downloads[i].id.0 == id.0 {
                return Some(i);
            }
        }
        None
    }

    /// Moves the task carrying `id` to `state` and says so; an unknown id
    /// changes nothing and emits nothing.
    fn transition(&mut self, id: DownloadId, state: DownloadState, events: &mut Vec<DownloadEvent>)
        requires
            old(self).wf(),
        ensures
            final(self).wf(),
            final(self).spec_next_id() == old(self).spec_next_id(),
            !old(self).has_task(id) ==> final(self).tasks() == old(self).tasks() && final(events)@
                == old(events)@,
            old(self).has_task(id) ==> ({
                let i = old(self).task_index(id);
                &&& final(self).tasks() == old(self).tasks().update(
                    i,
                    (DownloadTask { state, ..old(self).tasks()[i] }),
                )
                &&& final(events)@.len() == old(events)@.len() + 1
                &&& final(events)@ == old(events)@.push(
                    (DownloadEvent::StateChange { id, state }),
                )
            }),
    {
        if let Some(i) = self.find_task(id) {
            let t = &self.downloads[i];
            let updated = DownloadTask {
                id: t.id,
                url: t.url.clone(),
                filename: t.filename.clone(),
                output_path: t.output_path.clone(),
                total_size: t.total_size,
                state,
            };
            proof {
                assert(updated == (DownloadTask { state, ..old(self).tasks()[i as int] }));
            }
            self.downloads.set(i, updated);
            events.push(DownloadEvent::StateChange { id, state });
        }
    }

    /// Carries out one command.
    ///
    /// Adding a download registers a fresh task in `Pending` under a fresh
    /// id — the filename taken from the options or the URL's last path
    /// segment, the output path under the options' directory — and
    /// announces it.  Pause, resume and cancel move the addressed task to
    /// `Paused`, `Downloading` and `Cancelled` and say so; an unknown id is
    /// ignored.  A cancelled transfer emits no `Complete`.  The bandwidth
    /// limit is shared state owned by the rate limiter, not by a task, so
    /// that command changes no task and emits nothing here.
    pub fn handle_command(&mut self, cmd: OrchestratorCommand) -> (events: Vec<DownloadEvent>)
        requires
            old(self).wf(),
            cmd is AddDownload ==> old(self).spec_next_id() < u64::MAX,
        ensures
            final(self).wf(),
            ({
                match cmd {
                    OrchestratorCommand::AddDownload { url, options } => {
                        let filename = match options.filename {
                            Some(f) => f@,
                            None => spec_default_filename(url@),
                        };
                        let id = DownloadId(old(self).spec_next_id());
                        &&& final(self).spec_next_id() == old(self).spec_next_id() + 1
                        &&& final(self).tasks().len() == old(self).tasks().len() + 1
                        &&& (forall|j: int|
                            0 <= j < old(self).tasks().len() ==> #[trigger] final(self).tasks()[j]
                                == old(self).tasks()[j])
                        &&& ({
                            let t = final(self).tasks().last();
                            &&& t.id == id
                            &&& t.url@ == url@
                            &&& t.filename@ == filename
                            &&& t.output_path@ == options.output_dir@ + "/"@ + filename
                            &&& t.total_size is None
                            &&& t.state == DownloadState::Pending
                        })
                        &&& events@.len() == 1
                        &&& (events@[0] matches DownloadEvent::DownloadAdded {
                            id: eid,
                            url: eurl,
                            filename: efn,
                            total_size,
                        } && eid == id && eurl@ == url@ && efn@ == filename && total_size is None)
                    },
                    OrchestratorCommand::PauseDownload(id) => final(self).transition_shape(
                        *old(self),
                        id,
                        DownloadState::Paused,
                        events@,
                    ),
                    OrchestratorCommand::ResumeDownload(id) => final(self).transition_shape(
                        *old(self),
                        id,
                        DownloadState::Downloading,
                        events@,
                    ),
                    OrchestratorCommand::CancelDownload(id) => final(self).transition_shape(
                        *old(self),
                        id,
                        DownloadState::Cancelled,
                        events@,
                    ),
                    OrchestratorCommand::SetBandwidthLimit(_) => final(self).tasks() == old(
                        self,
                    ).tasks() && final(self).spec_next_id() == old(self).spec_next_id()
                        && events@.len() == 0,
                }
            }),
    {
        let mut events: Vec<DownloadEvent> = Vec::new();
        match cmd {
            OrchestratorCommand::AddDownload { url, options } => {
                let id = DownloadId(self.next_id);
                self.next_id = self.next_id + 1;
                let filename = match options.filename {
                    Some(f) => f,
                    None => default_filename(url.as_str()),
                };
                let output_path = join_path(options.output_dir.as_str(), filename.as_str());
                let task = DownloadTask {
                    id,
                    url: url.clone(),
                    filename: filename.clone(),
                    output_path,
                    total_size: None,
                    state: DownloadState::Pending,
                };
                self.downloads.push(task);
                events.push(
                    DownloadEvent::DownloadAdded { id, url, filename, total_size: None },
                );
            },
            OrchestratorCommand::PauseDownload(id) => {
                self.transition(id, DownloadState::Paused, &mut events);
            },
            OrchestratorCommand::ResumeDownload(id) => {
                self.transition(id, DownloadState::Downloading, &mut events);
            },
            OrchestratorCommand::CancelDownload(id) => {
                self.transition(id, DownloadState::Cancelled, &mut events);
            },
            OrchestratorCommand::SetBandwidthLimit(_) => {},
        }
        events
    }

    /// The shape a pause, resume or cancel leaves behind: the addressed
    /// task moved to `state` with one `StateChange` event, or nothing at
    /// all for an unknown id.
    pub open spec fn transition_shape(
        self,
        pre: Orchestrator,
        id: DownloadId,
        state: DownloadState,
        events: Seq<DownloadEvent>,
    ) -> bool {
        &&& self.spec_next_id() == pre.spec_next_id()
        &&& (!pre.has_task(id) ==> self.tasks() == pre.tasks() && events.len() == 0)
        &&& (pre.has_task(id) ==> ({
            let i = pre.task_index(id);
            &&& self.tasks() == pre.tasks().update(
                i,
                (DownloadTask { state, ..pre.tasks()[i] }),
            )
            &&& events.len() == 1
            &&& events[0] == (DownloadEvent::StateChange { id, state })
        }))
    }

    /// A snapshot of the task carrying `id`.
    pub fn get_task(&self, id: DownloadId) -> (r: Option<&DownloadTask>)
        requires
            self.wf(),
        ensures
            !self.has_task(id) ==> r is None,
            self.has_task(id) ==> (r matches Some(t) && *t == self.tasks()[self.task_index(id)]),
    {
        match self.find_task(id) {
            Some(i) => Some(&self.downloads[i]),
            None => None,
        }
    }

    pub fn task_count(&self) -> (n: usize)
        ensures
            n == self.tasks().len(),
    {
        self.downloads.len()
    }

    /// The id the next added download will get.
    pub fn peek_next_id(&self) -> (n: u64)
        ensures
            n == self.spec_next_id(),
    {
        self.next_id
    }
}

} // verus!
