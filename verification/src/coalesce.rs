//! A write-coalescing buffer: small chunks are batched up to a capacity
//! before they are handed to the file layer in one write.

use vstd::prelude::*;

verus! {

pub struct WriteBuffer {
    data: Vec<u8>,
    capacity: usize,
}

impl WriteBuffer {
    pub closed spec fn spec_data(self) -> Seq<u8> {
        self.data@
    }

    pub closed spec fn spec_capacity(self) -> usize {
        self.capacity
    }

    pub fn new(capacity: usize) -> (b: WriteBuffer)
        ensures
            b.spec_data().len() == 0,
            b.spec_capacity() == capacity,
    {
        WriteBuffer { data: Vec::new(), capacity }
    }

    pub fn append(&mut self, data: &[u8])
        requires
            old(self).spec_data().len() + data@.len() <= usize::MAX,
        ensures
            final(self).spec_data() == old(self).spec_data() + data@,
            final(self).spec_capacity() == old(self).spec_capacity(),
    {
        self.data.extend_from_slice(data);
    }

    /// Whether adding `additional` bytes would exceed the capacity.
    pub fn would_overflow(&self, additional: usize) -> (b: bool)
        ensures
            b == (self.spec_data().len() + additional > self.spec_capacity()),
    {
        let here: u128 = self.data.len() as u128;
        here + (additional as u128) > (self.capacity as u128)
    }

    pub fn is_full(&self) -> (b: bool)
        ensures
            b == (self.spec_data().len() >= self.spec_capacity()),
    {
        self.data.len() >= self.capacity
    }

    pub fn is_empty(&self) -> (b: bool)
        ensures
            b == (self.spec_data().len() == 0),
    {
        self.data.is_empty()
    }

    pub fn len(&self) -> (n: usize)
        ensures
            n == self.spec_data().len(),
    {
        self.data.len()
    }

    pub fn data(&self) -> (d: &[u8])
        ensures
            d@ == self.spec_data(),
    {
        self.data.as_slice()
    }

    pub fn clear(&mut self)
        ensures
            final(self).spec_data().len() == 0,
            final(self).spec_capacity() == old(self).spec_capacity(),
    {
        self.data.clear();
    }

    /// Hands the buffered bytes out and leaves the buffer empty.
    pub fn take(&mut self) -> (d: Vec<u8>)
        ensures
            d@ == old(self).spec_data(),
            final(self).spec_data().len() == 0,
            final(self).spec_capacity() == old(self).spec_capacity(),
    {
        let mut taken: Vec<u8> = Vec::new();
        core::mem::swap(&mut taken, &mut self.data);
        taken
    }
}

} // verus!
