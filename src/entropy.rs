//! Entropy decoding of baseline scans: Huffman symbols, EXTEND, and 8x8 coefficient blocks.
use vstd::prelude::*;
use vstd::arithmetic::power2::{pow2, lemma_pow2_unfold, lemma2_to64};
use crate::bit_reader::{BitReader, bit_at, bits_value, lemma_bits_prefix};
use crate::error::JpegError;
use crate::huffman::{
    HuffmanTable, count_upto, huffcode, huffsize, lemma_code_grows, lemma_code_run,
    lemma_count_upto_mono, lemma_huffsize_ordered, lemma_pow2_le16, lemma_size_of_index,
};

verus! {

/// Natural (row-major) index of the coefficient at zigzag position `k`.
pub open spec fn zigzag(k: int) -> int {
    if k == 0 {
        0
    } else if k == 1 {
        1
    } else if k == 2 {
        8
    } else if k == 3 {
        16
    } else if k == 4 {
        9
    } else if k == 5 {
        2
    } else if k == 6 {
        3
    } else if k == 7 {
        10
    } else if k == 8 {
        17
    } else if k == 9 {
        24
    } else if k == 10 {
        32
    } else if k == 11 {
        25
    } else if k == 12 {
        18
    } else if k == 13 {
        11
    } else if k == 14 {
        4
    } else if k == 15 {
        5
    } else if k == 16 {
        12
    } else if k == 17 {
        19
    } else if k == 18 {
        26
    } else if k == 19 {
        33
    } else if k == 20 {
        40
    } else if k == 21 {
        48
    } else if k == 22 {
        41
    } else if k == 23 {
        34
    } else if k == 24 {
        27
    } else if k == 25 {
        20
    } else if k == 26 {
        13
    } else if k == 27 {
        6
    } else if k == 28 {
        7
    } else if k == 29 {
        14
    } else if k == 30 {
        21
    } else if k == 31 {
        28
    } else if k == 32 {
        35
    } else if k == 33 {
        42
    } else if k == 34 {
        49
    } else if k == 35 {
        56
    } else if k == 36 {
        57
    } else if k == 37 {
        50
    } else if k == 38 {
        43
    } else if k == 39 {
        36
    } else if k == 40 {
        29
    } else if k == 41 {
        22
    } else if k == 42 {
        15
    } else if k == 43 {
        23
    } else if k == 44 {
        30
    } else if k == 45 {
        37
    } else if k == 46 {
        44
    } else if k == 47 {
        51
    } else if k == 48 {
        58
    } else if k == 49 {
        59
    } else if k == 50 {
        52
    } else if k == 51 {
        45
    } else if k == 52 {
        38
    } else if k == 53 {
        31
    } else if k == 54 {
        39
    } else if k == 55 {
        46
    } else if k == 56 {
        53
    } else if k == 57 {
        60
    } else if k == 58 {
        61
    } else if k == 59 {
        54
    } else if k == 60 {
        47
    } else if k == 61 {
        55
    } else if k == 62 {
        62
    } else {
        63
    }
}

/// Zigzag position of the coefficient at natural index `n`.
pub open spec fn unzigzag(n: int) -> int {
    if n == 0 {
        0
    } else if n == 1 {
        1
    } else if n == 2 {
        5
    } else if n == 3 {
        6
    } else if n == 4 {
        14
    } else if n == 5 {
        15
    } else if n == 6 {
        27
    } else if n == 7 {
        28
    } else if n == 8 {
        2
    } else if n == 9 {
        4
    } else if n == 10 {
        7
    } else if n == 11 {
        13
    } else if n == 12 {
        16
    } else if n == 13 {
        26
    } else if n == 14 {
        29
    } else if n == 15 {
        42
    } else if n == 16 {
        3
    } else if n == 17 {
        8
    } else if n == 18 {
        12
    } else if n == 19 {
        17
    } else if n == 20 {
        25
    } else if n == 21 {
        30
    } else if n == 22 {
        41
    } else if n == 23 {
        43
    } else if n == 24 {
        9
    } else if n == 25 {
        11
    } else if n == 26 {
        18
    } else if n == 27 {
        24
    } else if n == 28 {
        31
    } else if n == 29 {
        40
    } else if n == 30 {
        44
    } else if n == 31 {
        53
    } else if n == 32 {
        10
    } else if n == 33 {
        19
    } else if n == 34 {
        23
    } else if n == 35 {
        32
    } else if n == 36 {
        39
    } else if n == 37 {
        45
    } else if n == 38 {
        52
    } else if n == 39 {
        54
    } else if n == 40 {
        20
    } else if n == 41 {
        22
    } else if n == 42 {
        33
    } else if n == 43 {
        38
    } else if n == 44 {
        46
    } else if n == 45 {
        51
    } else if n == 46 {
        55
    } else if n == 47 {
        60
    } else if n == 48 {
        21
    } else if n == 49 {
        34
    } else if n == 50 {
        37
    } else if n == 51 {
        47
    } else if n == 52 {
        50
    } else if n == 53 {
        56
    } else if n == 54 {
        59
    } else if n == 55 {
        61
    } else if n == 56 {
        35
    } else if n == 57 {
        36
    } else if n == 58 {
        48
    } else if n == 59 {
        49
    } else if n == 60 {
        57
    } else if n == 61 {
        58
    } else if n == 62 {
        62
    } else {
        63
    }
}

/// The zigzag order is a permutation of 0..64: undoing it after applying it gives back
/// the position, and the other way round.
pub proof fn lemma_zigzag_bijection()
    ensures
        forall|k: int| 0 <= k < 64 ==> 0 <= #[trigger] zigzag(k) < 64 && unzigzag(zigzag(k)) == k,
        forall|n: int| 0 <= n < 64 ==> 0 <= #[trigger] unzigzag(n) < 64 && zigzag(unzigzag(n)) == n,
{
    assert forall|k: int| 0 <= k < 64 implies 0 <= #[trigger] zigzag(k) < 64 && unzigzag(zigzag(k)) == k by {
    }
    assert forall|n: int| 0 <= n < 64 implies 0 <= #[trigger] unzigzag(n) < 64 && zigzag(unzigzag(n)) == n by {
    }
}

/// The natural index of zigzag position `k`, from the fixed table.
pub fn zigzag_index(k: usize) -> (r: usize)
    requires
        k < 64,
    ensures
        r == zigzag(k as int),
        r < 64,
{
    match k {
        0 => 0,
        1 => 1,
        2 => 8,
        3 => 16,
        4 => 9,
        5 => 2,
        6 => 3,
        7 => 10,
        8 => 17,
        9 => 24,
        10 => 32,
        11 => 25,
        12 => 18,
        13 => 11,
        14 => 4,
        15 => 5,
        16 => 12,
        17 => 19,
        18 => 26,
        19 => 33,
        20 => 40,
        21 => 48,
        22 => 41,
        23 => 34,
        24 => 27,
        25 => 20,
        26 => 13,
        27 => 6,
        28 => 7,
        29 => 14,
        30 => 21,
        31 => 28,
        32 => 35,
        33 => 42,
        34 => 49,
        35 => 56,
        36 => 57,
        37 => 50,
        38 => 43,
        39 => 36,
        40 => 29,
        41 => 22,
        42 => 15,
        43 => 23,
        44 => 30,
        45 => 37,
        46 => 44,
        47 => 51,
        48 => 58,
        49 => 59,
        50 => 52,
        51 => 45,
        52 => 38,
        53 => 31,
        54 => 39,
        55 => 46,
        56 => 53,
        57 => 60,
        58 => 61,
        59 => 54,
        60 => 47,
        61 => 55,
        62 => 62,
        _ => 63,
    }
}

/// EXTEND of JPEG decoding: the signed value that the `s` bits `raw` stand for.
pub open spec fn extend_value(raw: int, s: nat) -> int {
    if s == 0 {
        0
    } else if raw < pow2((s - 1) as nat) {
        raw - (pow2(s) - 1)
    } else {
        raw
    }
}

/// The `s` bits that encode `v`: the inverse of EXTEND.
pub open spec fn extend_inverse(v: int, s: nat) -> int {
    if v < 0 {
        v + pow2(s) - 1
    } else {
        v
    }
}

/// The magnitude category of `v`: the number of bits that encode it.
pub open spec fn in_category(v: int, s: nat) -> bool {
    if s == 0 {
        v == 0
    } else {
        let a = if v < 0 { -v } else { v };
        pow2((s - 1) as nat) <= a < pow2(s)
    }
}

/// EXTEND and its inverse undo each other: every `s`-bit pattern comes back from the value
/// it decodes to, and every value of category `s` comes back from its bits.
pub proof fn lemma_extend_round_trip(raw: int, v: int, s: nat)
    requires
        s <= 16,
    ensures
        0 <= raw < pow2(s) ==> extend_inverse(extend_value(raw, s), s) == raw,
        in_category(v, s) ==> extend_value(extend_inverse(v, s), s) == v,
        in_category(v, s) ==> 0 <= extend_inverse(v, s) < pow2(s),
{
    lemma2_to64();
    if s > 0 {
        lemma_pow2_unfold(s);
    }
}

/// 2 to the power `e`, for `e` up to 16.
fn pow2_u32(e: u8) -> (r: u32)
    requires
        e <= 16,
    ensures
        r == pow2(e as nat),
{
    proof {
        lemma2_to64();
    }
    let mut r: u32 = 1;
    let mut i: u8 = 0;
    while i < e
        invariant
            i <= e <= 16,
            r == pow2(i as nat),
            r <= 65536,
        decreases e - i,
    {
        proof {
            lemma_pow2_unfold((i + 1) as nat);
            lemma_pow2_le16((i + 1) as nat);
        }
        r = r * 2;
        i = i + 1;
    }
    r
}

/// EXTEND: the signed coefficient that the `s` bits `raw` stand for.
pub fn extend(raw: u16, s: u8) -> (r: i32)
    requires
        s <= 16,
    ensures
        r == extend_value(raw as int, s as nat),
{
    if s == 0 {
        return 0;
    }
    let half = pow2_u32(s - 1);
    if (raw as u32) < half {
        let full = pow2_u32(s);
        proof {
            lemma_pow2_le16(s as nat);
        }
        raw as i32 - (full as i32 - 1)
    } else {
        raw as i32
    }
}

/// The length of the Huffman code at bit `pos`, searching lengths `i` and up: the first
/// length whose largest code is at least the bits read so far.
pub open spec fn code_length_from(t: HuffmanTable, data: Seq<u8>, pos: int, i: nat) -> Option<nat>
    decreases 17 - i,
{
    if i == 0 || i > 16 || pos + i > data.len() * 8 {
        None
    } else if t.maxcode@[i - 1] is Some && bits_value(data, pos, i) <= t.maxcode@[i - 1]->0 {
        Some(i)
    } else {
        code_length_from(t, data, pos, i + 1)
    }
}

/// The symbol whose code starts at bit `pos`, with the length of that code; `None` where
/// the bits match no code or the data ends first.
pub open spec fn decode_symbol(t: HuffmanTable, data: Seq<u8>, pos: int) -> Option<(u8, nat)> {
    match code_length_from(t, data, pos, 1) {
        None => None,
        Some(i) => {
            let code = bits_value(data, pos, i);
            let min = t.mincode@[i - 1] as int;
            let j = t.valptr@[i - 1] + code - min;
            if code >= min && j < t.huffman_values@.len() {
                Some((t.huffman_values@[j], i))
            } else {
                None
            }
        },
    }
}

/// Decodes one Huffman symbol.
pub fn next_symbol(bit_reader: &mut BitReader, hf: &HuffmanTable) -> (r: Option<u8>)
    requires
        old(bit_reader).wf(),
    ensures
        final(bit_reader).wf(),
        final(bit_reader).data@ == old(bit_reader).data@,
        match decode_symbol(*hf, old(bit_reader).data@, old(bit_reader).pos()) {
            None => r is None,
            Some((v, n)) => r == Some(v) && final(bit_reader).pos() == old(bit_reader).pos() + n,
        },
        code_length_from(*hf, old(bit_reader).data@, old(bit_reader).pos(), 1) is None && old(bit_reader).pos()
            + 17 <= old(bit_reader).total_bits() ==> final(bit_reader).pos() == old(bit_reader).pos() + 17,
{
    let ghost data = bit_reader.data@;
    let ghost p = bit_reader.pos();
    let mut code: u32 = match bit_reader.next_bit() {
        Some(b) => b as u32,
        None => {
            return None;
        },
    };
    proof {
        lemma2_to64();
        assert(bit_at(data, p) <= 1) by {
            let b = data[p / 8];
            let sh = (7 - p % 8) as u8;
            assert((b >> sh) & 1u8 <= 1) by (bit_vector);
        }
        assert(bits_value(data, p, 0) == 0);
        assert(code == bits_value(data, p, 1));
    }
    let mut i: usize = 0;
    loop
        invariant
            i < 16,
            bit_reader.wf(),
            bit_reader.data@ == data,
            data == old(bit_reader).data@,
            p == old(bit_reader).pos(),
            bit_reader.pos() == p + i + 1,
            code == bits_value(data, p, (i + 1) as nat),
            code < pow2((i + 1) as nat),
            code_length_from(*hf, data, p, 1) == code_length_from(*hf, data, p, (i + 1) as nat),
        ensures
            code_length_from(*hf, data, p, 1) == Some((i + 1) as nat),
            code <= hf.maxcode@[i as int]->0,
        decreases 16 - i,
    {
        let found = match hf.maxcode[i] {
            Some(m) => code <= m as u32,
            None => false,
        };
        if found {
            break;
        }
        assert(code_length_from(*hf, data, p, (i + 1) as nat) == code_length_from(
            *hf,
            data,
            p,
            (i + 2) as nat,
        ));
        if i == 15 {
            assert(code_length_from(*hf, data, p, 17) is None);
            let _ = bit_reader.next_bit();
            return None;
        }
        match bit_reader.next_bit() {
            Some(b) => {
                proof {
                    lemma_pow2_unfold((i + 2) as nat);
                    lemma_pow2_le16((i + 2) as nat);
                    let q = p + i + 1;
                    assert(bit_at(data, q) <= 1) by {
                        let by = data[q / 8];
                        let sh = (7 - q % 8) as u8;
                        assert((by >> sh) & 1u8 <= 1) by (bit_vector);
                    }
                }
                code = code * 2 + b as u32;
            },
            None => {
                return None;
            },
        }
        i = i + 1;
    }
    let min = hf.mincode[i] as u32;
    if code < min {
        return None;
    }
    let offset = (code - min) as usize;
    let start = hf.valptr[i];
    let len = hf.huffman_values.len();
    if start > len || offset >= len - start {
        return None;
    }
    Some(hf.huffman_values[start + offset])
}

/// RECEIVE then EXTEND: the coefficient encoded in the `s` bits at `pos`, and the position after them.
pub open spec fn receive_extend(data: Seq<u8>, pos: int, s: nat) -> Option<(int, int)> {
    if pos + s > data.len() * 8 {
        None
    } else {
        Some((extend_value(bits_value(data, pos, s) as int, s), pos + s))
    }
}

/// The DC coefficient at `pos` given the predictor `pred`, and the position after it.
pub open spec fn decode_dc(dc: HuffmanTable, data: Seq<u8>, pos: int, pred: int) -> Option<(int, int)> {
    match decode_symbol(dc, data, pos) {
        None => None,
        Some((t, n)) => if t > 11 {
            None
        } else {
            match receive_extend(data, pos + n, t as nat) {
                None => None,
                Some((diff, p)) => Some((pred + diff, p)),
            }
        },
    }
}

/// The AC coefficients from zigzag position `k` on, written into `block` (natural order):
/// the finished block, the position after its last code, and the zigzag position at which
/// the block ended (where EOB came, or 64).
pub open spec fn decode_ac(ac: HuffmanTable, data: Seq<u8>, pos: int, k: nat, block: Seq<i16>) -> Option<
    (Seq<i16>, int, nat),
>
    decreases 64 - k,
{
    if k >= 64 {
        Some((block, pos, k))
    } else {
        match decode_symbol(ac, data, pos) {
            None => None,
            Some((rs, n)) => {
                let p = pos + n;
                if rs == 0 {
                    Some((block, p, k))
                } else if rs == 0xf0 {
                    if k + 16 > 64 {
                        None
                    } else {
                        decode_ac(ac, data, p, (k + 16) as nat, block)
                    }
                } else {
                    let run = rs / 16;
                    let size = rs % 16;
                    if k + run > 63 || size > 10 {
                        None
                    } else {
                        match receive_extend(data, p, size as nat) {
                            None => None,
                            Some((v, p2)) => decode_ac(
                                ac,
                                data,
                                p2,
                                (k + run + 1) as nat,
                                block.update(zigzag(k + run), v as i16),
                            ),
                        }
                    }
                }
            },
        }
    }
}

/// One 8x8 block at `pos`, in natural order, with the position after it and the zigzag
/// position at which it ended; `None` where the data is corrupt or ends early.
#[verifier::opaque]
pub open spec fn block_decoding(
    dc: HuffmanTable,
    ac: HuffmanTable,
    data: Seq<u8>,
    pos: int,
    pred: int,
) -> Option<(Seq<i16>, int, nat)> {
    match decode_dc(dc, data, pos, pred) {
        None => None,
        Some((v, p)) => if v < i16::MIN || v > i16::MAX {
            None
        } else {
            decode_ac(ac, data, p, 1, Seq::new(64, |_i: int| 0i16).update(0, v as i16))
        },
    }
}

/// Once a block has ended, every coefficient from that zigzag position on is zero.
pub proof fn lemma_zero_after_end(ac: HuffmanTable, data: Seq<u8>, pos: int, k: nat, block: Seq<i16>)
    requires
        block.len() == 64,
        forall|m: int| k <= m < 64 ==> block[zigzag(m)] == 0,
        decode_ac(ac, data, pos, k, block) is Some,
    ensures
        ({
            let (b, _p, e) = decode_ac(ac, data, pos, k, block)->0;
            &&& b.len() == 64
            &&& k <= e
            &&& forall|m: int| e <= m < 64 ==> b[zigzag(m)] == 0
        }),
    decreases 64 - k,
{
    lemma_zigzag_bijection();
    if k < 64 {
        let (rs, n) = decode_symbol(ac, data, pos)->0;
        let p = pos + n;
        if rs == 0 {
        } else if rs == 0xf0 {
            lemma_zero_after_end(ac, data, p, (k + 16) as nat, block);
        } else {
            let run = rs / 16;
            let size = rs % 16;
            let (v, p2) = receive_extend(data, p, size as nat)->0;
            let nb = block.update(zigzag(k + run), v as i16);
            assert forall|m: int| k + run + 1 <= m < 64 implies nb[zigzag(m)] == 0 by {
                assert(zigzag(m) != zigzag(k + run)) by {
                    assert(unzigzag(zigzag(m)) == m);
                    assert(unzigzag(zigzag(k + run)) == k + run);
                }
            }
            lemma_zero_after_end(ac, data, p2, (k + run + 1) as nat, nb);
        }
    }
}

/// The block that `decode_block` returns ends with zeros from the position where it ended
/// (where its EOB came) on.
pub proof fn lemma_zero_after_eob(dc: HuffmanTable, ac: HuffmanTable, data: Seq<u8>, pos: int, pred: int)
    requires
        block_decoding(dc, ac, data, pos, pred) is Some,
    ensures
        ({
            let (b, _p, e) = block_decoding(dc, ac, data, pos, pred)->0;
            &&& b.len() == 64
            &&& 1 <= e <= 64
            &&& forall|m: int| e <= m < 64 ==> b[zigzag(m)] == 0
        }),
{
    reveal(block_decoding);
    lemma_zigzag_bijection();
    let (v, p) = decode_dc(dc, data, pos, pred)->0;
    let start = Seq::new(64, |_i: int| 0i16).update(0, v as i16);
    assert forall|m: int| 1 <= m < 64 implies start[zigzag(m)] == 0 by {
        assert(zigzag(m) != 0) by {
            assert(unzigzag(zigzag(m)) == m);
        }
    }
    lemma_zero_after_end(ac, data, p, 1, start);
    lemma_decode_ac_end(ac, data, p, 1, start);
}

proof fn lemma_decode_ac_end(ac: HuffmanTable, data: Seq<u8>, pos: int, k: nat, block: Seq<i16>)
    requires
        k <= 64,
        decode_ac(ac, data, pos, k, block) is Some,
    ensures
        ({
            let (_b, _p, e) = decode_ac(ac, data, pos, k, block)->0;
            e <= 64
        }),
    decreases 64 - k,
{
    if k < 64 {
        let (rs, n) = decode_symbol(ac, data, pos)->0;
        let p = pos + n;
        if rs == 0 {
        } else if rs == 0xf0 {
            lemma_decode_ac_end(ac, data, p, (k + 16) as nat, block);
        } else {
            let run = rs / 16;
            let size = rs % 16;
            let (v, p2) = receive_extend(data, p, size as nat)->0;
            lemma_decode_ac_end(ac, data, p2, (k + run + 1) as nat, block.update(zigzag(k + run), v as i16));
        }
    }
}

/// Decodes one 8x8 block: the DC difference added to the predictor `prev_dc`, then the AC
/// coefficients, placed in natural order.
pub fn decode_block(
    prev_dc: i16,
    bit_reader: &mut BitReader,
    dc: &HuffmanTable,
    ac: &HuffmanTable,
) -> (r: Result<[i16; 64], JpegError>)
    requires
        old(bit_reader).wf(),
    ensures
        final(bit_reader).wf(),
        final(bit_reader).data@ == old(bit_reader).data@,
        match block_decoding(*dc, *ac, old(bit_reader).data@, old(bit_reader).pos(), prev_dc as int) {
            None => r == Err::<[i16; 64], JpegError>(JpegError::BitstreamError),
            Some((b, p, _e)) => r matches Ok(block) && block@ == b && final(bit_reader).pos() == p,
        },
{
    reveal(block_decoding);
    let ghost data = bit_reader.data@;
    let ghost p0 = bit_reader.pos();
    let mut block: [i16; 64] = [0i16; 64];
    assert(block@ =~= Seq::new(64, |_i: int| 0i16));
    let t = match next_symbol(bit_reader, dc) {
        Some(t) => t,
        None => {
            return Err(JpegError::BitstreamError);
        },
    };
    if t > 11 {
        return Err(JpegError::BitstreamError);
    }
    let raw = match bit_reader.next_bits(t) {
        Some(raw) => raw,
        None => {
            return Err(JpegError::BitstreamError);
        },
    };
    let diff = extend(raw, t);
    proof {
        lemma2_to64();
        lemma_pow2_le16(t as nat);
        vstd::arithmetic::power2::lemma_pow2_pos(t as nat);
    }
    let value: i32 = prev_dc as i32 + diff;
    if value < -32768 || value > 32767 {
        return Err(JpegError::BitstreamError);
    }
    block[0] = value as i16;
    assert(block@ =~= Seq::new(64, |_i: int| 0i16).update(0, value as i16));
    let mut k: usize = 1;
    while k < 64
        invariant_except_break
            1 <= k <= 64,
            bit_reader.wf(),
            bit_reader.data@ == data,
            data == old(bit_reader).data@,
            p0 == old(bit_reader).pos(),
            block_decoding(*dc, *ac, data, p0, prev_dc as int) == decode_ac(
                *ac,
                data,
                bit_reader.pos(),
                k as nat,
                block@,
            ),
        ensures
            bit_reader.wf(),
            bit_reader.data@ == data,
            block_decoding(*dc, *ac, data, p0, prev_dc as int) == Some(
                (block@, bit_reader.pos(), k as nat),
            ),
        decreases 64 - k,
    {
        let ghost pos = bit_reader.pos();
        let rs = match next_symbol(bit_reader, ac) {
            Some(rs) => rs,
            None => {
                return Err(JpegError::BitstreamError);
            },
        };
        if rs == 0 {
            break;
        }
        if rs == 0xf0 {
            if k + 16 > 64 {
                return Err(JpegError::BitstreamError);
            }
            k = k + 16;
        } else {
            let run = (rs / 16) as usize;
            let size = rs % 16;
            if k + run > 63 || size > 10 {
                return Err(JpegError::BitstreamError);
            }
            k = k + run;
            let raw = match bit_reader.next_bits(size) {
                Some(raw) => raw,
                None => {
                    return Err(JpegError::BitstreamError);
                },
            };
            let v = extend(raw, size);
            proof {
                lemma2_to64();
                lemma_pow2_le16(size as nat);
                vstd::arithmetic::power2::lemma_pow2_pos(size as nat);
                if size > 0 {
                    vstd::arithmetic::power2::lemma_pow2_strictly_increases(size as nat, 11);
                }
            }
            let idx = zigzag_index(k);
            block[idx] = v as i16;
            k = k + 1;
        }
    }
    Ok(block)
}

/// The run of code lengths that symbol `k` falls in.
proof fn lemma_run_of(l: Seq<u8>, k: int, m: nat) -> (i: nat)
    requires
        l.len() == 16,
        m <= 16,
        0 <= k < count_upto(l, m),
    ensures
        i < m,
        count_upto(l, i) <= k < count_upto(l, i + 1),
    decreases m,
{
    if k >= count_upto(l, (m - 1) as nat) {
        (m - 1) as nat
    } else {
        lemma_run_of(l, k, (m - 1) as nat)
    }
}

/// Where the first `n - 1` lengths hold no match and length `n` does, the code has length `n`.
proof fn lemma_length_found(t: HuffmanTable, data: Seq<u8>, pos: int, i: nat, n: nat)
    requires
        1 <= i <= n <= 16,
        pos + n <= data.len() * 8,
        t.maxcode@[n - 1] is Some && bits_value(data, pos, n) <= t.maxcode@[n - 1]->0,
        forall|j: nat| i <= j < n ==> !(t.maxcode@[j - 1] is Some && bits_value(data, pos, j) <= t.maxcode@[j - 1]->0),
    ensures
        code_length_from(t, data, pos, i) == Some(n),
    decreases n - i,
{
    if i < n {
        lemma_length_found(t, data, pos, i + 1, n);
    }
}

/// Before the length of the code of symbol `k`, no length matches the bits of that code.
#[verifier::rlimit(100)]
proof fn lemma_shorter_lengths_miss(t: HuffmanTable, data: Seq<u8>, pos: int, k: nat)
    requires
        t.wf(),
        k < t.huffman_values@.len(),
        bits_value(data, pos, t.sizes()[k as int] as nat) == huffcode(t.sizes(), k),
    ensures
        forall|j: nat| 1 <= j < t.sizes()[k as int] ==> !(t.maxcode@[j - 1] is Some && bits_value(data, pos, j)
            <= t.maxcode@[j - 1]->0),
{
    let l = t.huffman_size_lengths@;
    let sizes = t.sizes();
    lemma_huffsize_ordered(l);
    let i0 = lemma_run_of(l, k as int, 16);
    lemma_size_of_index(l, 16, i0, k as int);
    let n = sizes[k as int] as nat;
    let c = huffcode(sizes, k);
    assert forall|j: nat| 1 <= j < n implies !(t.maxcode@[j - 1] is Some && bits_value(data, pos, j)
        <= t.maxcode@[j - 1]->0) by {
        if t.maxcode@[j - 1] is Some {
            let lj = l[j - 1];
            assert(t.decoder_tables_match());
            assert(lj != 0);
            let first = count_upto(l, (j - 1) as nat);
            let last = (first + lj - 1) as nat;
            assert(count_upto(l, j) == first + lj);
            lemma_count_upto_mono(l, j, (n - 1) as nat);
            assert(last < k);
            lemma_size_of_index(l, 16, (j - 1) as nat, last as int);
            lemma_code_grows(sizes, last, k);
            let h = huffcode(sizes, last);
            assert(h < pow2(j));
            lemma_pow2_le16(j);
            assert(t.maxcode@[j - 1]->0 == h);
            lemma_bits_prefix(data, pos, j, n);
            let d = pow2((n - j) as nat);
            vstd::arithmetic::power2::lemma_pow2_pos((n - j) as nat);
            let p = bits_value(data, pos, j);
            let r = bits_value(data, pos + j, (n - j) as nat);
            assert(p > h) by (nonlinear_arith)
                requires
                    c == p * d + r,
                    r < d,
                    c >= (h + 1) * d,
                    d > 0,
            ;
        }
    }
}

/// The run of lengths that symbol `k` belongs to: its length, where the run starts, and the
/// codes of the run counting up by one from its first.
proof fn lemma_run_facts(l: Seq<u8>, k: nat) -> (i0: nat)
    requires
        l.len() == 16,
        k < count_upto(l, 16),
    ensures
        i0 < 16,
        huffsize(l)[k as int] == i0 + 1,
        count_upto(l, i0) <= k < count_upto(l, i0) + l[i0 as int],
        count_upto(l, i0 + 1) == count_upto(l, i0) + l[i0 as int],
        huffcode(huffsize(l), k) == huffcode(huffsize(l), count_upto(l, i0)) + (k - count_upto(l, i0)),
        huffcode(huffsize(l), (count_upto(l, i0) + l[i0 as int] - 1) as nat) == huffcode(huffsize(l), count_upto(l, i0))
            + l[i0 as int] - 1,
        huffsize(l)[count_upto(l, i0) + l[i0 as int] - 1] == i0 + 1,
{
    let sizes = huffsize(l);
    lemma_huffsize_ordered(l);
    let i0 = lemma_run_of(l, k as int, 16);
    lemma_size_of_index(l, 16, i0, k as int);
    let first = count_upto(l, i0);
    let ln = l[i0 as int];
    let last = (first + ln - 1) as nat;
    lemma_count_upto_mono(l, i0 + 1, 16);
    assert forall|m: int| first <= m <= last implies sizes[m] == sizes[first as int] by {
        lemma_size_of_index(l, 16, i0, m);
        lemma_size_of_index(l, 16, i0, first as int);
    }
    lemma_code_run(sizes, first, (last - first) as nat);
    lemma_code_run(sizes, first, (k - first) as nat);
    lemma_size_of_index(l, 16, i0, last as int);
    i0
}

/// The code of symbol `k` lies in the decoder-table range of its own length, at offset
/// `k - valptr` from the smallest code of that length.
proof fn lemma_own_length(t: HuffmanTable, k: nat)
    requires
        t.wf(),
        k < t.huffman_values@.len(),
    ensures
        ({
            let n = t.sizes()[k as int] as nat;
            let c = huffcode(t.sizes(), k);
            &&& 1 <= n <= 16
            &&& t.maxcode@[n - 1] is Some
            &&& c <= t.maxcode@[n - 1]->0
            &&& c >= t.mincode@[n - 1]
            &&& t.valptr@[n - 1] + c - t.mincode@[n - 1] == k
        }),
{
    let l = t.huffman_size_lengths@;
    lemma_huffsize_ordered(l);
    let i0 = lemma_run_facts(l, k);
    let first = count_upto(l, i0);
    let last = (first + l[i0 as int] - 1) as nat;
    lemma_count_upto_mono(l, i0 + 1, 16);
    assert(t.huffman_size_lengths@[i0 as int] != 0);
    assert(last < t.sizes().len());
    assert(t.sizes()[last as int] == i0 + 1);
    assert(huffcode(t.sizes(), last) < pow2(i0 + 1));
    lemma_pow2_le16(i0 + 1);
}

/// The bits of the code of symbol `k` decode to symbol `k`, and take exactly its code length.
pub proof fn lemma_code_decodes(t: HuffmanTable, data: Seq<u8>, pos: int, k: nat)
    requires
        t.wf(),
        k < t.huffman_values@.len(),
        pos + t.sizes()[k as int] <= data.len() * 8,
        bits_value(data, pos, t.sizes()[k as int] as nat) == huffcode(t.sizes(), k),
    ensures
        decode_symbol(t, data, pos) == Some((t.huffman_values@[k as int], t.sizes()[k as int] as nat)),
{
    lemma_own_length(t, k);
    lemma_shorter_lengths_miss(t, data, pos, k);
    let n = t.sizes()[k as int] as nat;
    lemma_length_found(t, data, pos, 1, n);
}

/// A decoded symbol is the symbol of the code the bits begin with, and exactly that code's
/// length was read.
#[verifier::rlimit(100)]
pub proof fn lemma_decoded_has_code(t: HuffmanTable, data: Seq<u8>, pos: int)
    requires
        t.wf(),
        decode_symbol(t, data, pos) is Some,
    ensures
        ({
            let (v, n) = decode_symbol(t, data, pos)->0;
            exists|k: nat|
                k < t.huffman_values@.len() && #[trigger] t.huffman_values@[k as int] == v && t.sizes()[k as int]
                    == n && bits_value(data, pos, n) == huffcode(t.sizes(), k)
        }),
{
    let l = t.huffman_size_lengths@;
    let sizes = t.sizes();
    lemma_huffsize_ordered(l);
    let n = code_length_from(t, data, pos, 1)->0;
    lemma_length_range(t, data, pos, 1);
    let c = bits_value(data, pos, n);
    assert(t.decoder_tables_match());
    let ln = l[n - 1];
    let first = count_upto(l, (n - 1) as nat);
    let last = (first + ln - 1) as nat;
    assert(ln != 0);
    assert(count_upto(l, n) == first + ln);
    lemma_count_upto_mono(l, n, 16);
    assert forall|m: int| first <= m <= last implies sizes[m] == sizes[first as int] by {
        lemma_size_of_index(l, 16, (n - 1) as nat, m);
        lemma_size_of_index(l, 16, (n - 1) as nat, first as int);
    }
    lemma_code_run(sizes, first, (last - first) as nat);
    lemma_size_of_index(l, 16, (n - 1) as nat, last as int);
    lemma_pow2_le16(n);
    let min = t.mincode@[n - 1] as int;
    let j = first + c - min;
    assert(min == huffcode(sizes, first));
    assert(j <= last);
    lemma_code_run(sizes, first, (j - first) as nat);
    lemma_size_of_index(l, 16, (n - 1) as nat, j);
    let (v, _len) = decode_symbol(t, data, pos)->0;
    assert(t.huffman_values@[j as int] == v);
    assert(huffcode(sizes, j as nat) == c);
}

proof fn lemma_length_range(t: HuffmanTable, data: Seq<u8>, pos: int, i: nat)
    requires
        code_length_from(t, data, pos, i) is Some,
    ensures
        i <= code_length_from(t, data, pos, i)->0 <= 16,
        code_length_from(t, data, pos, i)->0 >= 1,
        ({
            let n = code_length_from(t, data, pos, i)->0;
            t.maxcode@[n - 1] is Some && bits_value(data, pos, n) <= t.maxcode@[n - 1]->0
        }),
    decreases 17 - i,
{
    if !(t.maxcode@[i - 1] is Some && bits_value(data, pos, i) <= t.maxcode@[i - 1]->0) {
        lemma_length_range(t, data, pos, i + 1);
    }
}

/// Decoding is a bijection between the codes of a table and its symbols: the code of each
/// symbol decodes to that symbol, and whatever decodes is the symbol of the code read.
pub proof fn lemma_huffman_bijection(t: HuffmanTable, data: Seq<u8>, pos: int)
    requires
        t.wf(),
    ensures
        forall|k: nat|
            k < t.huffman_values@.len() && pos + t.sizes()[k as int] <= data.len() * 8 && bits_value(
                data,
                pos,
                t.sizes()[k as int] as nat,
            ) == huffcode(t.sizes(), k) ==> #[trigger] decode_symbol(t, data, pos) == Some(
                (t.huffman_values@[k as int], t.sizes()[k as int] as nat),
            ),
        decode_symbol(t, data, pos) is Some ==> ({
            let (v, n) = decode_symbol(t, data, pos)->0;
            exists|k: nat|
                k < t.huffman_values@.len() && #[trigger] t.huffman_values@[k as int] == v && t.sizes()[k as int]
                    == n && bits_value(data, pos, n) == huffcode(t.sizes(), k)
        }),
{
    assert forall|k: nat|
        k < t.huffman_values@.len() && pos + t.sizes()[k as int] <= data.len() * 8 && bits_value(
            data,
            pos,
            t.sizes()[k as int] as nat,
        ) == huffcode(t.sizes(), k) implies #[trigger] decode_symbol(t, data, pos) == Some(
        (t.huffman_values@[k as int], t.sizes()[k as int] as nat),
    ) by {
        lemma_code_decodes(t, data, pos, k);
    }
    if decode_symbol(t, data, pos) is Some {
        lemma_decoded_has_code(t, data, pos);
    }
}

} // verus!
