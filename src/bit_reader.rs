//! MSB-first reading of bits from an entropy-coded byte buffer.
use vstd::prelude::*;

verus! {

/// Bit `pos` of `data`, counting from the most significant bit of byte 0.
pub open spec fn bit_at(data: Seq<u8>, pos: int) -> u8 {
    (data[pos / 8] >> ((7 - pos % 8) as u8)) & 1u8
}

/// The unsigned value of the `n` bits of `data` that start at `pos`, first bit most significant.
pub open spec fn bits_value(data: Seq<u8>, pos: int, n: nat) -> nat
    decreases n,
{
    if n == 0 {
        0
    } else {
        2 * bits_value(data, pos, (n - 1) as nat) + bit_at(data, pos + n - 1) as nat
    }
}

proof fn lemma_bit_le_one(data: Seq<u8>, pos: int)
    ensures
        bit_at(data, pos) <= 1,
{
    let b = data[pos / 8];
    let s = (7 - pos % 8) as u8;
    assert((b >> s) & 1u8 <= 1) by (bit_vector);
}

/// Reads a byte buffer bit by bit, most significant bit of each byte first.
pub struct BitReader {
    pub data: Vec<u8>,
    pub byte_idx: usize,
    pub bit_idx: usize,
}

impl BitReader {
    /// The reader stands inside the buffer, or just past its end.
    pub open spec fn wf(&self) -> bool {
        &&& self.bit_idx < 8
        &&& self.byte_idx <= self.data@.len()
        &&& self.byte_idx == self.data@.len() ==> self.bit_idx == 0
    }

    /// Number of bits consumed so far.
    pub open spec fn pos(&self) -> int {
        self.byte_idx * 8 + self.bit_idx
    }

    /// Number of bits in the buffer.
    pub open spec fn total_bits(&self) -> int {
        self.data@.len() as int * 8
    }

    /// The reader stands at the start of a byte.
    pub open spec fn is_aligned(&self) -> bool {
        self.bit_idx == 0
    }

    pub fn new(data: &Vec<u8>) -> (r: Self)
        ensures
            r.wf(),
            r.data@ == data@,
            r.pos() == 0,
    {
        BitReader { data: data.clone(), byte_idx: 0, bit_idx: 0 }
    }

    /// The next bit, or `None` at the end of the buffer.
    pub fn next_bit(&mut self) -> (r: Option<u8>)
        requires
            old(self).wf(),
        ensures
            final(self).wf(),
            final(self).data@ == old(self).data@,
            old(self).pos() < old(self).total_bits() ==> {
                &&& r == Some(bit_at(old(self).data@, old(self).pos()))
                &&& final(self).pos() == old(self).pos() + 1
            },
            old(self).pos() >= old(self).total_bits() ==> {
                &&& r is None
                &&& final(self).pos() == old(self).pos()
            },
    {
        if self.byte_idx >= self.data.len() {
            return None;
        }
        let ghost p = self.pos();
        let bit = (self.data[self.byte_idx] >> ((7 - self.bit_idx) as u8)) & 1u8;
        assert(p / 8 == self.byte_idx && p % 8 == self.bit_idx);
        self.bit_idx = self.bit_idx + 1;
        if self.bit_idx == 8 {
            self.bit_idx = 0;
            self.byte_idx = self.byte_idx + 1;
        }
        Some(bit)
    }

    /// The next `length` bits as an unsigned number, first bit most significant
    /// (the RECEIVE procedure of JPEG decoding); `None`, with nothing consumed, when fewer remain.
    pub fn next_bits(&mut self, length: u8) -> (r: Option<u16>)
        requires
            old(self).wf(),
            length <= 16,
        ensures
            final(self).wf(),
            final(self).data@ == old(self).data@,
            old(self).pos() + length <= old(self).total_bits() ==> {
                &&& r is Some
                &&& r->0 as nat == bits_value(old(self).data@, old(self).pos(), length as nat)
                &&& r->0 < vstd::arithmetic::power2::pow2(length as nat)
                &&& final(self).pos() == old(self).pos() + length
            },
            old(self).pos() + length > old(self).total_bits() ==> {
                &&& r is None
                &&& final(self).pos() == old(self).pos()
            },
    {
        let rest_bytes: usize = self.data.len() - self.byte_idx;
        if rest_bytes <= 2 && rest_bytes * 8 - self.bit_idx < length as usize {
            return None;
        }
        let ghost start = self.pos();
        proof {
            vstd::arithmetic::power2::lemma2_to64();
        }
        let mut bits: u32 = 0;
        let mut i: u8 = 0;
        while i < length
            invariant
                self.wf(),
                self.data@ == old(self).data@,
                start == old(self).pos(),
                start + length <= self.total_bits(),
                i <= length <= 16,
                self.pos() == start + i,
                bits == bits_value(self.data@, start, i as nat),
                bits < vstd::arithmetic::power2::pow2(i as nat),
            decreases length - i,
        {
            let bit = self.next_bit();
            match bit {
                Some(b) => {
                    proof {
                        lemma_bit_le_one(self.data@, start + i);
                        vstd::arithmetic::power2::lemma_pow2_unfold((i + 1) as nat);
                        vstd::arithmetic::power2::lemma2_to64();
                    }
                    bits = bits * 2 + b as u32;
                },
                None => {
                    return None;
                },
            }
            i = i + 1;
        }
        proof {
            vstd::arithmetic::power2::lemma2_to64();
            vstd::arithmetic::power2::lemma_pow2_strictly_increases(length as nat, 17);
        }
        Some(bits as u16)
    }

    /// Moves to the start of the next byte, unless already at the start of one.
    pub fn align(&mut self)
        requires
            old(self).wf(),
        ensures
            final(self).wf(),
            final(self).data@ == old(self).data@,
            final(self).is_aligned(),
            final(self).pos() == if old(self).is_aligned() {
                old(self).pos()
            } else {
                (old(self).byte_idx + 1) * 8
            },
    {
        if self.bit_idx == 0 {
            return;
        }
        let len = self.data.len();
        assert(self.byte_idx < len);
        self.bit_idx = 0;
        self.byte_idx = self.byte_idx + 1;
    }
}

/// The first `n` bits at `pos` are the first `i` of them followed by the next `n - i`.
pub proof fn lemma_bits_prefix(data: Seq<u8>, pos: int, i: nat, n: nat)
    requires
        i <= n,
    ensures
        bits_value(data, pos, n) == bits_value(data, pos, i) * vstd::arithmetic::power2::pow2(
            (n - i) as nat,
        ) + bits_value(data, pos + i, (n - i) as nat),
        bits_value(data, pos + i, (n - i) as nat) < vstd::arithmetic::power2::pow2((n - i) as nat),
    decreases n,
{
    vstd::arithmetic::power2::lemma2_to64();
    if n == i {
        assert(bits_value(data, pos + i, 0) == 0);
        assert(bits_value(data, pos, i) * 1 == bits_value(data, pos, i));
    }
    if n > i {
        lemma_bits_prefix(data, pos, i, (n - 1) as nat);
        let m = (n - 1 - i) as nat;
        let p = bits_value(data, pos, i);
        let r = bits_value(data, pos + i, m);
        let d = vstd::arithmetic::power2::pow2(m);
        lemma_bit_le_one(data, pos + n - 1);
        vstd::arithmetic::power2::lemma_pow2_unfold((m + 1) as nat);
        assert(bits_value(data, pos + i, (m + 1) as nat) == 2 * r + bit_at(data, pos + i + m));
        assert(pos + i + m == pos + n - 1);
        assert(2 * (p * d + r) == p * (2 * d) + 2 * r) by (nonlinear_arith);
        assert(bits_value(data, pos, n) == 2 * bits_value(data, pos, (n - 1) as nat) + bit_at(data, pos + n - 1));
        assert(bits_value(data, pos, (n - 1) as nat) == p * d + r);
        assert((n - i) as nat == m + 1);
        assert(vstd::arithmetic::power2::pow2((m + 1) as nat) == 2 * d);
    }
}

} // verus!
