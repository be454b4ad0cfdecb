//! A growable byte queue with the three operations the connection buffers
//! need: append a suffix at the back, drain a prefix from the front, and scan
//! for a delimiter.
use vstd::prelude::*;

verus! {

/// The inbound/outbound buffer of a connection: bytes leave at the front in
/// the order they arrived at the back.
pub struct ByteQueue {
    data: Vec<u8>,
}

impl View for ByteQueue {
    type V = Seq<u8>;

    closed spec fn view(&self) -> Seq<u8> {
        self.data@
    }
}

impl ByteQueue {
    pub fn new() -> (r: ByteQueue)
        ensures
            r@ == Seq::<u8>::empty(),
    {
        ByteQueue { data: Vec::new() }
    }

    pub fn len(&self) -> (r: usize)
        ensures
            r == self@.len(),
    {
        self.data.len()
    }

    pub fn is_empty(&self) -> (r: bool)
        ensures
            r == (self@.len() == 0),
    {
        self.data.len() == 0
    }

    /// Appends the bytes of a slice at the back.
    pub fn append_suffix(&mut self, bytes: &[u8])
        ensures
            final(self)@ == old(self)@ + bytes@,
    {
        let m = bytes.len();
        let mut i: usize = 0;
        while i < m
            invariant
                i <= m,
                m == bytes@.len(),
                self.data@ == old(self)@ + bytes@.subrange(0, i as int),
            decreases m - i,
        {
            self.data.push(bytes[i]);
            i = i + 1;
            proof {
                assert(self.data@ =~= old(self)@ + bytes@.subrange(0, i as int));
            }
        }
        proof {
            assert(self.data@ =~= old(self)@ + bytes@);
        }
    }

    /// Appends the bytes of a vector at the back.
    pub fn append_vec(&mut self, bytes: &Vec<u8>)
        ensures
            final(self)@ == old(self)@ + bytes@,
    {
        self.append_suffix(bytes.as_slice());
    }

    /// Removes the first `n` bytes; the rest keep their order.
    pub fn drain_prefix(&mut self, n: usize)
        requires
            n <= old(self)@.len(),
        ensures
            final(self)@ == old(self)@.skip(n as int),
    {
        let tail = self.data.split_off(n);
        self.data = tail;
        proof {
            assert(self.data@ =~= old(self)@.skip(n as int));
        }
    }

    /// Discards everything.
    pub fn clear(&mut self)
        ensures
            final(self)@ == Seq::<u8>::empty(),
    {
        self.data.clear();
    }

    /// The position of the first occurrence of `b`, if any.
    pub fn find_byte(&self, b: u8) -> (r: Option<usize>)
        ensures
            match r {
                Some(i) => i < self@.len() && self@[i as int] == b && (forall|j: int|
                    0 <= j < i ==> self@[j] != b),
                None => forall|j: int| 0 <= j < self@.len() ==> self@[j] != b,
            },
    {
        let m = self.data.len();
        let mut i: usize = 0;
        while i < m
            invariant
                i <= m,
                m == self@.len(),
                forall|j: int| 0 <= j < i ==> self@[j] != b,
            decreases m - i,
        {
            if self.data[i] == b {
                return Some(i);
            }
            i = i + 1;
        }
        None
    }

    /// A read-only borrow of the queued bytes, front first.
    pub fn as_vec(&self) -> (r: &Vec<u8>)
        ensures
            r@ == self@,
    {
        &self.data
    }
}

} // verus!
