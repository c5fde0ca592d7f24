//! The inverse DCT of 8x8 blocks, in fixed-point integer arithmetic.
use vstd::prelude::*;
use crate::color::{mcus_shaped, round_div};

verus! {

/// C(u) * cos((2x + 1) u pi / 16) scaled by 2^20 and rounded, for `i = 8 * x + u`;
/// C(0) = 1 / sqrt(2), C(u) = 1 otherwise.
pub open spec fn idct_cos(i: int) -> int {
    if i == 0 {
        741455
    } else if i == 1 {
        1028428
    } else if i == 2 {
        968758
    } else if i == 3 {
        871859
    } else if i == 4 {
        741455
    } else if i == 5 {
        582558
    } else if i == 6 {
        401273
    } else if i == 7 {
        204567
    } else if i == 8 {
        741455
    } else if i == 9 {
        871859
    } else if i == 10 {
        401273
    } else if i == 11 {
        -204567
    } else if i == 12 {
        -741455
    } else if i == 13 {
        -1028428
    } else if i == 14 {
        -968758
    } else if i == 15 {
        -582558
    } else if i == 16 {
        741455
    } else if i == 17 {
        582558
    } else if i == 18 {
        -401273
    } else if i == 19 {
        -1028428
    } else if i == 20 {
        -741455
    } else if i == 21 {
        204567
    } else if i == 22 {
        968758
    } else if i == 23 {
        871859
    } else if i == 24 {
        741455
    } else if i == 25 {
        204567
    } else if i == 26 {
        -968758
    } else if i == 27 {
        -582558
    } else if i == 28 {
        741455
    } else if i == 29 {
        871859
    } else if i == 30 {
        -401273
    } else if i == 31 {
        -1028428
    } else if i == 32 {
        741455
    } else if i == 33 {
        -204567
    } else if i == 34 {
        -968758
    } else if i == 35 {
        582558
    } else if i == 36 {
        741455
    } else if i == 37 {
        -871859
    } else if i == 38 {
        -401273
    } else if i == 39 {
        1028428
    } else if i == 40 {
        741455
    } else if i == 41 {
        -582558
    } else if i == 42 {
        -401273
    } else if i == 43 {
        1028428
    } else if i == 44 {
        -741455
    } else if i == 45 {
        -204567
    } else if i == 46 {
        968758
    } else if i == 47 {
        -871859
    } else if i == 48 {
        741455
    } else if i == 49 {
        -871859
    } else if i == 50 {
        401273
    } else if i == 51 {
        204567
    } else if i == 52 {
        -741455
    } else if i == 53 {
        1028428
    } else if i == 54 {
        -968758
    } else if i == 55 {
        582558
    } else if i == 56 {
        741455
    } else if i == 57 {
        -1028428
    } else if i == 58 {
        968758
    } else if i == 59 {
        -871859
    } else if i == 60 {
        741455
    } else if i == 61 {
        -582558
    } else if i == 62 {
        401273
    } else {
        -204567
    }
}

/// Entry `i` of the scaled cosine table.
pub fn idct_cos_entry(i: usize) -> (r: i64)
    requires
        i < 64,
    ensures
        r == idct_cos(i as int),
        -1048576 <= r <= 1048576,
{
    match i {
        0 => 741455,
        1 => 1028428,
        2 => 968758,
        3 => 871859,
        4 => 741455,
        5 => 582558,
        6 => 401273,
        7 => 204567,
        8 => 741455,
        9 => 871859,
        10 => 401273,
        11 => -204567,
        12 => -741455,
        13 => -1028428,
        14 => -968758,
        15 => -582558,
        16 => 741455,
        17 => 582558,
        18 => -401273,
        19 => -1028428,
        20 => -741455,
        21 => 204567,
        22 => 968758,
        23 => 871859,
        24 => 741455,
        25 => 204567,
        26 => -968758,
        27 => -582558,
        28 => 741455,
        29 => 871859,
        30 => -401273,
        31 => -1028428,
        32 => 741455,
        33 => -204567,
        34 => -968758,
        35 => 582558,
        36 => 741455,
        37 => -871859,
        38 => -401273,
        39 => 1028428,
        40 => 741455,
        41 => -582558,
        42 => -401273,
        43 => 1028428,
        44 => -741455,
        45 => -204567,
        46 => 968758,
        47 => -871859,
        48 => 741455,
        49 => -871859,
        50 => 401273,
        51 => 204567,
        52 => -741455,
        53 => 1028428,
        54 => -968758,
        55 => 582558,
        56 => 741455,
        57 => -1028428,
        58 => 968758,
        59 => -871859,
        60 => 741455,
        61 => -582558,
        62 => 401273,
        _ => -204567,
    }
}

/// The scale of the products of two table entries and a coefficient: 4 * 2^40.
pub const IDCT_SCALE: i64 = 4398046511104;

/// `v` clamped to the range of `i16`.
pub open spec fn clamp_i16(v: int) -> int {
    if v < -32768 {
        -32768
    } else if v > 32767 {
        32767
    } else {
        v
    }
}

/// The contribution of coefficient F(v, u) to sample (y, x), at scale `IDCT_SCALE`.
pub open spec fn idct_term(f: Seq<i16>, y: int, x: int, v: int, u: int) -> int {
    idct_cos(8 * y + v) * idct_cos(8 * x + u) * f[8 * v + u]
}

/// The contributions of F(v, 0..n) to sample (y, x).
pub open spec fn idct_row_sum(f: Seq<i16>, y: int, x: int, v: int, n: nat) -> int
    decreases n,
{
    if n == 0 {
        0
    } else {
        idct_row_sum(f, y, x, v, (n - 1) as nat) + idct_term(f, y, x, v, n - 1)
    }
}

/// The contributions of rows 0..n of coefficients to sample (y, x).
pub open spec fn idct_sum(f: Seq<i16>, y: int, x: int, n: nat) -> int
    decreases n,
{
    if n == 0 {
        0
    } else {
        idct_sum(f, y, x, (n - 1) as nat) + idct_row_sum(f, y, x, n - 1, 8)
    }
}

/// Sample (y, x) of the inverse DCT of the coefficients `f` (natural order): the sum of
/// C(u) C(v) F(v, u) cos((2x + 1) u pi / 16) cos((2y + 1) v pi / 16) over u and v, divided
/// by 4, with the cosine products taken from the scaled table, rounded and clamped.
pub open spec fn idct_sample(f: Seq<i16>, y: int, x: int) -> int {
    clamp_i16(round_div(idct_sum(f, y, x, 8), IDCT_SCALE as int))
}

proof fn lemma_term_bound(a: int, b: int, c: int)
    requires
        -1048576 <= a <= 1048576,
        -1048576 <= b <= 1048576,
        -32768 <= c <= 32767,
    ensures
        -36028797018963968 <= a * b * c <= 36028797018963968,
{
    assert(-1099511627776 <= a * b <= 1099511627776) by (nonlinear_arith)
        requires
            -1048576 <= a <= 1048576,
            -1048576 <= b <= 1048576,
    ;
    let ab = a * b;
    assert(-36028797018963968 <= ab * c <= 36028797018963968) by (nonlinear_arith)
        requires
            -1099511627776 <= ab <= 1099511627776,
            -32768 <= c <= 32767,
    ;
}

/// The inverse DCT of one block of dequantized coefficients (natural order), in the spatial
/// domain before the level shift.
pub fn idct_block(block: &[i16; 64]) -> (r: [i16; 64])
    ensures
        forall|y: int, x: int| 0 <= y < 8 && 0 <= x < 8 ==> #[trigger] r@[8 * y + x] == idct_sample(block@, y, x),
{
    let mut out: [i16; 64] = [0i16; 64];
    let mut y: usize = 0;
    while y < 8
        invariant
            y <= 8,
            forall|yy: int, x: int| 0 <= yy < y && 0 <= x < 8 ==> #[trigger] out@[8 * yy + x] == idct_sample(block@, yy, x),
        decreases 8 - y,
    {
        let mut x: usize = 0;
        while x < 8
            invariant
                y < 8,
                x <= 8,
                forall|yy: int, xx: int| 0 <= yy < y && 0 <= xx < 8 ==> #[trigger] out@[8 * yy + xx] == idct_sample(block@, yy, xx),
                forall|xx: int| 0 <= xx < x ==> #[trigger] out@[8 * y + xx] == idct_sample(block@, y as int, xx),
            decreases 8 - x,
        {
            let mut sum: i64 = 0;
            let mut v: usize = 0;
            while v < 8
                invariant
                    y < 8,
                    x < 8,
                    v <= 8,
                    sum == idct_sum(block@, y as int, x as int, v as nat),
                    -v * 8 * 36028797018963968 <= sum <= v * 8 * 36028797018963968,
                decreases 8 - v,
            {
                let cy = idct_cos_entry(8 * y + v);
                let mut row: i64 = 0;
                let mut u: usize = 0;
                while u < 8
                    invariant
                        y < 8,
                        x < 8,
                        v < 8,
                        u <= 8,
                        cy == idct_cos(8 * y + v),
                        -1048576 <= cy <= 1048576,
                        row == idct_row_sum(block@, y as int, x as int, v as int, u as nat),
                        -u * 36028797018963968 <= row <= u * 36028797018963968,
                    decreases 8 - u,
                {
                    let cx = idct_cos_entry(8 * x + u);
                    let f = block[8 * v + u] as i64;
                    proof {
                        lemma_term_bound(cy as int, cx as int, f as int);
                    }
                    row = row + cy * cx * f;
                    u = u + 1;
                }
                sum = sum + row;
                v = v + 1;
            }
            let half: i64 = IDCT_SCALE / 2;
            let rounded: i64 = if sum >= 0 {
                (sum + half) / IDCT_SCALE
            } else {
                -((-sum + half) / IDCT_SCALE)
            };
            let sample: i16 = if rounded < -32768 {
                -32768
            } else if rounded > 32767 {
                32767
            } else {
                rounded as i16
            };
            out[8 * y + x] = sample;
            x = x + 1;
        }
        y = y + 1;
    }
    out
}

/// `r` is `mcus` with the inverse DCT applied to every block.
pub open spec fn idct_mcus(mcus: Seq<Vec<Vec<[i16; 64]>>>, nc: nat, mcu_size: nat, r: Seq<Vec<Vec<[i16; 64]>>>) -> bool {
    &&& r.len() == mcus.len()
    &&& mcus_shaped(r, nc, mcu_size)
    &&& forall|m: int, c: int, s: int, y: int, x: int|
        0 <= m < r.len() && 0 <= c < nc && 0 <= s < mcu_size && 0 <= y < 8 && 0 <= x < 8
            ==> #[trigger] r[m]@[c]@[s]@[8 * y + x] == idct_sample(mcus[m]@[c]@[s]@, y, x)
}

/// Applies the inverse DCT to every block of every MCU.
pub fn idct(mcus: &Vec<Vec<Vec<[i16; 64]>>>, nc: usize, mcu_size: usize) -> (r: Vec<Vec<Vec<[i16; 64]>>>)
    requires
        mcus_shaped(mcus@, nc as nat, mcu_size as nat),
    ensures
        idct_mcus(mcus@, nc as nat, mcu_size as nat, r@),
{
    let mut out: Vec<Vec<Vec<[i16; 64]>>> = Vec::new();
    let mut m: usize = 0;
    while m < mcus.len()
        invariant
            m <= mcus@.len(),
            mcus_shaped(mcus@, nc as nat, mcu_size as nat),
            out@.len() == m,
            mcus_shaped(out@, nc as nat, mcu_size as nat),
            forall|mm: int, c: int, s: int, y: int, x: int|
                0 <= mm < m && 0 <= c < nc && 0 <= s < mcu_size && 0 <= y < 8 && 0 <= x < 8
                    ==> #[trigger] out@[mm]@[c]@[s]@[8 * y + x] == idct_sample(mcus@[mm]@[c]@[s]@, y, x),
        decreases mcus@.len() - m,
    {
        let mcu = &mcus[m];
        let mut shifted_mcu: Vec<Vec<[i16; 64]>> = Vec::new();
        let mut c: usize = 0;
        while c < nc
            invariant
                c <= nc,
                *mcu == mcus@[m as int],
                mcu@.len() == nc,
                forall|cc: int| 0 <= cc < nc ==> (#[trigger] mcu@[cc])@.len() == mcu_size,
                shifted_mcu@.len() == c,
                forall|cc: int| 0 <= cc < c ==> (#[trigger] shifted_mcu@[cc])@.len() == mcu_size,
                forall|cc: int, s: int, y: int, x: int|
                    0 <= cc < c && 0 <= s < mcu_size && 0 <= y < 8 && 0 <= x < 8
                        ==> #[trigger] shifted_mcu@[cc]@[s]@[8 * y + x] == idct_sample(mcu@[cc]@[s]@, y, x),
            decreases nc - c,
        {
            let mut blocks: Vec<[i16; 64]> = Vec::new();
            let mut s: usize = 0;
            while s < mcu_size
                invariant
                    c < nc,
                    mcu@.len() == nc,
                    forall|cc: int| 0 <= cc < nc ==> (#[trigger] mcu@[cc])@.len() == mcu_size,
                    s <= mcu_size,
                    blocks@.len() == s,
                    forall|ss: int, y: int, x: int|
                        0 <= ss < s && 0 <= y < 8 && 0 <= x < 8 ==> #[trigger] blocks@[ss]@[8 * y + x]
                            == idct_sample(mcu@[c as int]@[ss]@, y, x),
                decreases mcu_size - s,
            {
                let b = idct_block(&mcu[c][s]);
                blocks.push(b);
                s = s + 1;
            }
            shifted_mcu.push(blocks);
            c = c + 1;
        }
        out.push(shifted_mcu);
        m = m + 1;
    }
    out
}

} // verus!
