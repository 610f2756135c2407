//! The code buffer: a fixed-capacity byte region with an append-write
//! cursor and random-offset patch primitives.
//!
//! The buffer holds the machine-code image that the code generator
//! emits.  Backing it with executable pages and transferring control
//! into it is the embedding program's concern; the library only ever
//! treats it as bytes.

use vstd::prelude::*;
use crate::JitVmError;

verus! {

/// The 32-bit two's complement image of a signed displacement.
pub open spec fn spec_i32_to_u32(v: i32) -> u32 {
    if v >= 0 {
        v as u32
    } else {
        (v + 0x1_0000_0000) as u32
    }
}

/// A fixed-capacity byte buffer for generated code.
pub struct JitMemory {
    mem: Vec<u8>,
}

impl View for JitMemory {
    type V = Seq<u8>;

    closed spec fn view(&self) -> Seq<u8> {
        self.mem@
    }
}

/// A vector of `n` zero bytes.
pub fn zero_bytes(n: usize) -> (v: Vec<u8>)
    ensures
        v@ == Seq::new(n as nat, |i: int| 0u8),
{
    let mut v: Vec<u8> = Vec::new();
    let mut k: usize = 0;
    while k < n
        invariant
            k <= n,
            v@ == Seq::new(k as nat, |i: int| 0u8),
        decreases n - k,
    {
        v.push(0u8);
        k = k + 1;
        proof {
            assert(v@ =~= Seq::new(k as nat, |i: int| 0u8));
        }
    }
    v
}

impl JitMemory {
    /// Obtain a zero-filled buffer of exactly `len` bytes.  A request
    /// for zero bytes has no valid layout and is refused.
    pub fn allocate(len: usize) -> (r: Result<JitMemory, JitVmError>)
        ensures
            len == 0 <==> r is Err,
            r matches Err(e) ==> e is LayoutError,
            r matches Ok(m) ==> m@ == Seq::new(len as nat, |i: int| 0u8),
    {
        if len == 0 {
            Err(JitVmError::LayoutError)
        } else {
            Ok(JitMemory { mem: zero_bytes(len) })
        }
    }

    /// Capacity of the buffer in bytes.
    pub fn len(&self) -> (r: usize)
        ensures
            r == self@.len(),
    {
        self.mem.len()
    }

    /// Read access to the whole image, for the embedding program and for tests.
    pub fn bytes(&self) -> (r: &Vec<u8>)
        ensures
            r@ == self@,
    {
        &self.mem
    }

    /// Write `data` at the cursor and advance the cursor past it.
    pub fn write_at(&mut self, offset: &mut usize, data: &[u8])
        requires
            *old(offset) + data@.len() <= old(self)@.len(),
        ensures
            *final(offset) == *old(offset) + data@.len(),
            final(self)@ == old(self)@.subrange(0, *old(offset) as int)
                + data@
                + old(self)@.subrange(*old(offset) + data@.len(), old(self)@.len() as int),
            final(self)@.len() == old(self)@.len(),
            forall|k: int|
                0 <= k < old(self)@.len() && !(*old(offset) <= k < *old(offset) + data@.len())
                    ==> final(self)@[k] == old(self)@[k],
            forall|k: int|
                *old(offset) <= k < *old(offset) + data@.len()
                    ==> final(self)@[k] == data@[k - *old(offset)],
    {
        let ghost orig = self.mem@;
        let ghost base = *offset as int;
        let cap = self.mem.len();
        let mut i: usize = 0;
        while i < data.len()
            invariant
                i <= data@.len(),
                cap == orig.len(),
                base + data@.len() <= orig.len(),
                base == *offset as int,
                self.mem@.len() == orig.len(),
                forall|k: int| 0 <= k < orig.len() && !(base <= k < base + i) ==> self.mem@[k] == orig[k],
                forall|k: int| 0 <= k < i ==> self.mem@[base + k] == data@[k],
            decreases data@.len() - i,
        {
            self.mem.set(*offset + i, data[i]);
            i = i + 1;
        }
        *offset = *offset + data.len();
        proof {
            assert(self.mem@ =~= orig.subrange(0, base) + data@
                + orig.subrange(base + data@.len(), orig.len() as int));
        }
    }

    /// Overwrite 8 bytes at `offset` with the little-endian image of `value`.
    pub fn patch_addr_u64(&mut self, offset: usize, value: u64)
        requires
            offset + 8 <= old(self)@.len(),
        ensures
            final(self)@ == old(self)@.subrange(0, offset as int)
                + vstd::bytes::spec_u64_to_le_bytes(value)
                + old(self)@.subrange(offset + 8, old(self)@.len() as int),
            final(self)@.len() == old(self)@.len(),
    {
        proof {
            vstd::bytes::lemma_auto_spec_u64_to_from_le_bytes();
        }
        let bytes = vstd::bytes::u64_to_le_bytes(value);
        let mut cur: usize = offset;
        self.write_at(&mut cur, bytes.as_slice());
    }

    /// Overwrite 4 bytes at `offset` with the little-endian two's
    /// complement image of `value`.
    pub fn patch_addr_i32(&mut self, offset: usize, value: i32)
        requires
            offset + 4 <= old(self)@.len(),
        ensures
            final(self)@ == old(self)@.subrange(0, offset as int)
                + vstd::bytes::spec_u32_to_le_bytes(spec_i32_to_u32(value))
                + old(self)@.subrange(offset + 4, old(self)@.len() as int),
            final(self)@.len() == old(self)@.len(),
    {
        proof {
            vstd::bytes::lemma_auto_spec_u32_to_from_le_bytes();
        }
        let raw: u32 = if value >= 0 {
            value as u32
        } else {
            ((value as i64) + 0x1_0000_0000i64) as u32
        };
        assert(raw == spec_i32_to_u32(value));
        let bytes = vstd::bytes::u32_to_le_bytes(raw);
        let mut cur: usize = offset;
        self.write_at(&mut cur, bytes.as_slice());
    }
}

} // verus!
