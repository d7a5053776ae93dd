//! Byte-addressed frame memory: zero wherever nothing was written, and
//! active up to a high-water mark kept a multiple of 32 bytes.
use vstd::prelude::*;
use crate::u256::{U256, be_value};

verus! {

/// The byte at `i`: zero beyond the active part.
pub open spec fn byte_at(m: Seq<u8>, i: int) -> u8 {
    if 0 <= i < m.len() {
        m[i]
    } else {
        0
    }
}

/// `n` rounded up to a multiple of 32.
pub open spec fn ceil32(n: nat) -> nat {
    ((n + 31) / 32 * 32) as nat
}

/// The active size after touching `len` bytes at `offset`; touching no bytes expands nothing.
pub open spec fn expanded_len(cur: nat, offset: nat, len: nat) -> nat {
    if len == 0 || ceil32(offset + len) <= cur {
        cur
    } else {
        ceil32(offset + len)
    }
}

/// The `len` bytes at `offset`.
pub open spec fn region(m: Seq<u8>, offset: nat, len: nat) -> Seq<u8> {
    Seq::new(len, |i: int| byte_at(m, offset + i))
}

/// Memory `m` after `bytes` are written at `offset`.
pub open spec fn written(m: Seq<u8>, offset: nat, bytes: Seq<u8>) -> Seq<u8> {
    Seq::new(
        expanded_len(m.len(), offset, bytes.len()),
        |i: int|
            if offset <= i < offset + bytes.len() {
                bytes[i - offset]
            } else {
                byte_at(m, i)
            },
    )
}

/// The largest offset plus length that memory accepts; a multiple of 32.
pub const MEMORY_LIMIT: usize = 0x0fff_ffe0;

pub struct Memory {
    data: Vec<u8>,
}

impl View for Memory {
    type V = Seq<u8>;

    /// The active bytes.
    closed spec fn view(&self) -> Seq<u8> {
        self.data@
    }
}

impl Memory {
    /// Well-formed: the active size is a multiple of 32 within the limit.
    pub open spec fn wf(&self) -> bool {
        self@.len() % 32 == 0 && self@.len() <= MEMORY_LIMIT
    }

    pub fn new() -> (r: Memory)
        ensures
            r@ == Seq::<u8>::empty(),
            r.wf(),
    {
        Memory { data: Vec::new() }
    }

    /// The active size in bytes.
    pub fn len(&self) -> (r: usize)
        ensures
            r == self@.len(),
    {
        self.data.len()
    }

    /// The `len` bytes at `offset`, zero where memory is not active.
    pub fn read(&self, offset: usize, len: usize) -> (r: Vec<u8>)
        requires
            offset + len <= MEMORY_LIMIT,
        ensures
            r@ == region(self@, offset as nat, len as nat),
    {
        let mut out: Vec<u8> = Vec::new();
        let mut i: usize = 0;
        while i < len
            invariant
                i <= len,
                offset + len <= MEMORY_LIMIT,
                out@ == region(self@, offset as nat, i as nat),
            decreases len - i,
        {
            let b = if offset + i < self.data.len() {
                self.data[offset + i]
            } else {
                0
            };
            out.push(b);
            i = i + 1;
            proof {
                assert(out@ =~= region(self@, offset as nat, i as nat));
            }
        }
        out
    }

    /// Makes the `len` bytes at `offset` active; none if `len` is zero.
    pub fn expand(&mut self, offset: usize, len: usize)
        requires
            old(self).wf(),
            offset + len <= MEMORY_LIMIT,
        ensures
            final(self).wf(),
            final(self)@.len() == expanded_len(old(self)@.len(), offset as nat, len as nat),
            forall|i: int| #[trigger] byte_at(final(self)@, i) == byte_at(old(self)@, i),
    {
        if len == 0 {
            return;
        }
        let target = (offset + len + 31) / 32 * 32;
        let ghost before = self.data@;
        while self.data.len() < target
            invariant
                target <= MEMORY_LIMIT,
                before.len() <= self.data@.len(),
                self.data@.len() <= target || self.data@.len() == before.len(),
                forall|i: int| #[trigger] byte_at(self.data@, i) == byte_at(before, i),
            decreases target - self.data@.len(),
        {
            let ghost prev = self.data@;
            self.data.push(0);
            proof {
                assert forall|i: int| #[trigger] byte_at(self.data@, i) == byte_at(before, i) by {
                    if i == self.data@.len() - 1 {
                        assert(byte_at(before, i) == 0);
                    } else {
                        assert(byte_at(self.data@, i) == byte_at(prev, i));
                    }
                }
            }
        }
    }

    /// Writes `bytes` at `offset`, making them active.
    pub fn write(&mut self, offset: usize, bytes: &[u8])
        requires
            old(self).wf(),
            offset + bytes@.len() <= MEMORY_LIMIT,
        ensures
            final(self).wf(),
            final(self)@ == written(old(self)@, offset as nat, bytes@),
    {
        let ghost before = self.data@;
        self.expand(offset, bytes.len());
        proof {
            assert forall|j: int| 0 <= j < self.data@.len() implies #[trigger] self.data@[j]
                == byte_at(before, j) by {
                assert(byte_at(self.data@, j) == byte_at(before, j));
            }
        }
        let mut i: usize = 0;
        while i < bytes.len()
            invariant
                i <= bytes@.len(),
                offset + bytes@.len() <= MEMORY_LIMIT,
                self.wf(),
                self.data@.len() == expanded_len(before.len(), offset as nat, bytes@.len() as nat),
                forall|j: int|
                    0 <= j < self.data@.len() ==> #[trigger] self.data@[j] == if offset <= j < offset
                        + i {
                        bytes@[j - offset]
                    } else {
                        byte_at(before, j)
                    },
            decreases bytes@.len() - i,
        {
            proof {
                assert(byte_at(self.data@, offset + i) == byte_at(before, offset + i));
            }
            self.data.set(offset + i, bytes[i]);
            i = i + 1;
        }
        proof {
            assert(self.data@ =~= written(before, offset as nat, bytes@));
        }
    }

    /// The word whose big-endian bytes stand at `offset`.
    pub fn read_word(&self, offset: usize) -> (r: U256)
        requires
            offset + 32 <= MEMORY_LIMIT,
        ensures
            r.value() == be_value(region(self@, offset as nat, 32)),
    {
        let bytes = self.read(offset, 32);
        U256::from_be_bytes(bytes.as_slice())
    }

    /// Writes the big-endian bytes of `value` at `offset`.
    pub fn write_word(&mut self, offset: usize, value: U256)
        requires
            old(self).wf(),
            offset + 32 <= MEMORY_LIMIT,
        ensures
            final(self).wf(),
            exists|b: Seq<u8>|
                b.len() == 32 && be_value(b) == value.value() && final(self)@ == written(
                    old(self)@,
                    offset as nat,
                    b,
                ),
    {
        let bytes = value.to_be_bytes();
        self.write(offset, bytes.as_slice());
    }

    /// Writes one byte at `offset`.
    pub fn write_byte(&mut self, offset: usize, value: u8)
        requires
            old(self).wf(),
            offset + 1 <= MEMORY_LIMIT,
        ensures
            final(self).wf(),
            final(self)@ == written(old(self)@, offset as nat, seq![value]),
    {
        let bytes: Vec<u8> = vec![value];
        proof {
            assert(bytes@ =~= seq![value]);
        }
        self.write(offset, bytes.as_slice());
    }
}

/// A fresh copy of a byte string.
pub(crate) fn copy_bytes(data: &[u8]) -> (r: Vec<u8>)
    ensures
        r@ == data@,
{
    let mut v: Vec<u8> = Vec::new();
    let mut i: usize = 0;
    while i < data.len()
        invariant
            i <= data@.len(),
            v@ == data@.subrange(0, i as int),
        decreases data@.len() - i,
    {
        v.push(data[i]);
        i = i + 1;
        proof {
            assert(v@ =~= data@.subrange(0, i as int));
        }
    }
    proof {
        assert(v@ =~= data@);
    }
    v
}

/// What a write leaves at each address: the written bytes in their range, the
/// old contents elsewhere.
pub proof fn lemma_written_bytes(m: Seq<u8>, offset: nat, bytes: Seq<u8>, j: int)
    ensures
        byte_at(written(m, offset, bytes), j) == if offset <= j < offset + bytes.len() {
            bytes[j - offset]
        } else {
            byte_at(m, j)
        },
{
    let w = written(m, offset, bytes);
    assert(bytes.len() > 0 ==> offset + bytes.len() <= ceil32(offset + bytes.len()));
}

/// Bytes written at an offset are read back from it.
pub proof fn lemma_write_read(m: Seq<u8>, offset: nat, bytes: Seq<u8>)
    ensures
        region(written(m, offset, bytes), offset, bytes.len()) == bytes,
{
    let w = written(m, offset, bytes);
    assert(bytes.len() > 0 ==> offset + bytes.len() <= ceil32(offset + bytes.len()));
    assert(region(w, offset, bytes.len()) =~= bytes);
}

/// A word stored at an offset is the word loaded from it.
pub proof fn lemma_store_load_word(m: Seq<u8>, offset: nat, b: Seq<u8>, x: U256)
    requires
        b.len() == 32,
        be_value(b) == x.value(),
    ensures
        be_value(region(written(m, offset, b), offset, 32)) == x.value(),
{
    lemma_write_read(m, offset, b);
}

} // verus!
