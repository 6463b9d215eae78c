use vstd::prelude::*;
use vstd::slice::slice_to_vec;
use crate::read::ByteSource;

verus! {

/// A byte buffer exposed as a sequential, never-failing byte source: reads
/// copy from the buffer at a cursor and advance it; once the cursor reaches
/// the end, reads yield nothing. The cursor may be repositioned arbitrarily;
/// an out-of-range cursor simply yields no further bytes.
#[derive(Clone, PartialEq, Eq, PartialOrd, Ord, Hash, Debug)]
pub struct MemRead {
    data: Vec<u8>,
    offset: usize,
}

impl MemRead {
    /// The whole underlying buffer.
    pub closed spec fn spec_data(&self) -> Seq<u8> {
        self.data@
    }

    /// The cursor: how many leading buffer bytes reads have passed over.
    pub closed spec fn spec_offset(&self) -> nat {
        self.offset as nat
    }

    /// Wraps a buffer with the cursor at its start.
    pub fn new(data: Vec<u8>) -> (r: Self)
        ensures
            r.spec_data() == data@,
            r.spec_offset() == 0,
    {
        Self::with_offset(data, 0)
    }

    /// Wraps a buffer with the cursor at a chosen position.
    pub fn with_offset(data: Vec<u8>, offset: usize) -> (r: Self)
        ensures
            r.spec_data() == data@,
            r.spec_offset() == offset as nat,
    {
        MemRead { data, offset }
    }

    /// Repositions the cursor; no bounds are enforced, an out-of-range
    /// cursor merely exhausts the source.
    pub fn set_offset(&mut self, new_offset: usize)
        ensures
            final(self).spec_data() == old(self).spec_data(),
            final(self).spec_offset() == new_offset as nat,
    {
        self.offset = new_offset;
    }
}

impl ByteSource for MemRead {
    open spec fn remaining(&self) -> Seq<u8> {
        if self.spec_offset() <= self.spec_data().len() {
            self.spec_data().skip(self.spec_offset() as int)
        } else {
            Seq::empty()
        }
    }

    open spec fn is_exact(&self) -> bool {
        true
    }

    fn read(&mut self, count: usize) -> (bytes: Vec<u8>) {
        let available: usize = if self.offset <= self.data.len() {
            self.data.len() - self.offset
        } else {
            0
        };
        let size: usize = if count <= available {
            count
        } else {
            available
        };
        let mut bytes: Vec<u8> = Vec::new();
        let mut i: usize = 0;
        while i < size
            invariant
                *self == *old(self),
                i <= size,
                self.spec_data().len() <= usize::MAX,
                size as int <= self.remaining().len(),
                self.spec_offset() + size <= self.spec_data().len() || size == 0,
                bytes@ =~= self.remaining().take(i as int),
            decreases size - i,
        {
            proof {
                assert(self.remaining()[i as int] == self.spec_data()[self.spec_offset() + i]);
            }
            bytes.push(self.data[self.offset + i]);
            i = i + 1;
        }
        self.offset = self.offset + size;
        proof {
            assert(self.remaining() =~= old(self).remaining().skip(size as int));
        }
        bytes
    }
}

/// Builds an in-memory byte source out of a plain byte buffer, placing the
/// cursor at its start.
pub trait ToMemReader: Sized {
    /// The bytes the built source will yield.
    spec fn spec_bytes(&self) -> Seq<u8>;

    fn to_mem_reader(self) -> (r: MemRead)
        ensures
            r.spec_data() == self.spec_bytes(),
            r.spec_offset() == 0,
    ;
}

impl ToMemReader for Vec<u8> {
    open spec fn spec_bytes(&self) -> Seq<u8> {
        self@
    }

    fn to_mem_reader(self) -> (r: MemRead) {
        MemRead::new(self)
    }
}

impl ToMemReader for &[u8] {
    open spec fn spec_bytes(&self) -> Seq<u8> {
        self@
    }

    fn to_mem_reader(self) -> (r: MemRead) {
        MemRead::new(slice_to_vec(self))
    }
}

} // verus!
