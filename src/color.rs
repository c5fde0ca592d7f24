//! YCbCr to RGB conversion with level shift and clamping.
use vstd::prelude::*;

verus! {

/// `n / d` rounded to the nearest integer, halves away from zero.
pub open spec fn round_div(n: int, d: int) -> int {
    if n >= 0 {
        (n + d / 2) / d
    } else {
        -((-n + d / 2) / d)
    }
}

/// `v` clamped to 0..=255.
pub open spec fn clamp_u8(v: int) -> int {
    if v < 0 {
        0
    } else if v > 255 {
        255
    } else {
        v
    }
}

/// R = Y + 1.402 Cr, rounded, shifted by 128 and clamped.
pub open spec fn red(y: int, cr: int) -> int {
    clamp_u8(y + round_div(1402 * cr, 1000) + 128)
}

/// G = Y - 0.344136 Cb - 0.714136 Cr, rounded, shifted by 128 and clamped.
pub open spec fn green(y: int, cb: int, cr: int) -> int {
    clamp_u8(y + round_div(-344136 * cb - 714136 * cr, 1000000) + 128)
}

/// B = Y + 1.772 Cb, rounded, shifted by 128 and clamped.
pub open spec fn blue(y: int, cb: int) -> int {
    clamp_u8(y + round_div(1772 * cb, 1000) + 128)
}

/// A grey sample, shifted by 128 and clamped.
pub open spec fn grey(y: int) -> int {
    clamp_u8(y + 128)
}

fn round_div_i64(n: i64, d: i64) -> (r: i64)
    requires
        d > 0,
        d <= 1_000_000,
        -4_000_000_000_000 <= n <= 4_000_000_000_000,
    ensures
        r == round_div(n as int, d as int),
{
    if n >= 0 {
        (n + d / 2) / d
    } else {
        -((-n + d / 2) / d)
    }
}

fn clamp_i64(v: i64) -> (r: i16)
    ensures
        r == clamp_u8(v as int),
{
    if v < 0 {
        0
    } else if v > 255 {
        255
    } else {
        v as i16
    }
}

/// The RGB sample of one pixel, each channel in 0..=255.
pub fn ycbcr_to_rgb(y: i16, cb: i16, cr: i16) -> (r: (i16, i16, i16))
    ensures
        r.0 == red(y as int, cr as int),
        r.1 == green(y as int, cb as int, cr as int),
        r.2 == blue(y as int, cb as int),
        0 <= r.0 <= 255,
        0 <= r.1 <= 255,
        0 <= r.2 <= 255,
{
    let y = y as i64;
    let cb = cb as i64;
    let cr = cr as i64;
    assert(-1_000_000 * 32768 <= 344136 * cb <= 1_000_000 * 32768) by (nonlinear_arith)
        requires
            -32768 <= cb <= 32767,
    ;
    assert(-1_000_000 * 32768 <= 714136 * cr <= 1_000_000 * 32768) by (nonlinear_arith)
        requires
            -32768 <= cr <= 32767,
    ;
    assert(-2000 * 32768 <= 1402 * cr <= 2000 * 32768) by (nonlinear_arith)
        requires
            -32768 <= cr <= 32767,
    ;
    assert(-2000 * 32768 <= 1772 * cb <= 2000 * 32768) by (nonlinear_arith)
        requires
            -32768 <= cb <= 32767,
    ;
    let r = clamp_i64(y + round_div_i64(1402 * cr, 1000) + 128);
    let g = clamp_i64(y + round_div_i64(0 - 344136 * cb - 714136 * cr, 1000000) + 128);
    let b = clamp_i64(y + round_div_i64(1772 * cb, 1000) + 128);
    (r, g, b)
}

/// The grey sample of one pixel, in 0..=255.
pub fn grey_level(y: i16) -> (r: i16)
    ensures
        r == grey(y as int),
        0 <= r <= 255,
{
    clamp_i64(y as i64 + 128)
}

/// Every MCU holds `nc` components of `slots` blocks.
pub open spec fn mcus_shaped(mcus: Seq<Vec<Vec<[i16; 64]>>>, nc: nat, slots: nat) -> bool {
    forall|m: int|
        0 <= m < mcus.len() ==> (#[trigger] mcus[m])@.len() == nc && forall|c: int|
            0 <= c < nc ==> (#[trigger] mcus[m]@[c])@.len() == slots
}

/// `r` is `mcus` with every pixel converted: channel `c` is `pixel_channel` of the pixel's
/// Y, Cb and Cr (its only sample where there is one component).
pub open spec fn converted_mcus(mcus: Seq<Vec<Vec<[i16; 64]>>>, nc: nat, mcu_size: nat, r: Seq<Vec<Vec<[i16; 64]>>>) -> bool {
    &&& r.len() == mcus.len()
    &&& mcus_shaped(r, nc, mcu_size)
    &&& forall|m: int, c: int, s: int, k: int|
        0 <= m < r.len() && 0 <= c < nc && 0 <= s < mcu_size && 0 <= k < 64 ==> #[trigger] r[m]@[c]@[s]@[k]
            == pixel_channel(
            nc,
            c,
            mcus[m]@[0]@[s]@[k] as int,
            mcus[m]@[if nc == 3 { 1int } else { 0int }]@[s]@[k] as int,
            mcus[m]@[if nc == 3 { 2int } else { 0int }]@[s]@[k] as int,
        )
}

/// Converts each pixel of each MCU: three components become R, G and B; one component
/// becomes a grey level. Every value is shifted by 128 and clamped to 0..=255.
pub fn ycbcr_to_rgb_mcu(mcus: &Vec<Vec<Vec<[i16; 64]>>>, total_components: u8, mcu_size: usize) -> (r: Vec<
    Vec<Vec<[i16; 64]>>,
>)
    requires
        total_components == 1 || total_components == 3,
        mcus_shaped(mcus@, total_components as nat, mcu_size as nat),
    ensures
        converted_mcus(mcus@, total_components as nat, mcu_size as nat, r@),
        forall|m: int, c: int, s: int, k: int|
            0 <= m < r@.len() && 0 <= c < total_components && 0 <= s < mcu_size && 0 <= k < 64
                ==> 0 <= #[trigger] r@[m]@[c]@[s]@[k] <= 255,
        total_components == 3 ==> forall|m: int, s: int, k: int|
            0 <= m < r@.len() && 0 <= s < mcu_size && 0 <= k < 64 ==> {
                let y = mcus@[m]@[0]@[s]@[k] as int;
                let cb = mcus@[m]@[1]@[s]@[k] as int;
                let cr = mcus@[m]@[2]@[s]@[k] as int;
                &&& #[trigger] r@[m]@[0]@[s]@[k] == red(y, cr)
                &&& r@[m]@[1]@[s]@[k] == green(y, cb, cr)
                &&& r@[m]@[2]@[s]@[k] == blue(y, cb)
            },
        total_components == 1 ==> forall|m: int, s: int, k: int|
            0 <= m < r@.len() && 0 <= s < mcu_size && 0 <= k < 64 ==> #[trigger] r@[m]@[0]@[s]@[k]
                == grey(mcus@[m]@[0]@[s]@[k] as int),
{
    let nc = total_components as usize;
    let mut out: Vec<Vec<Vec<[i16; 64]>>> = Vec::new();
    let mut m: usize = 0;
    while m < mcus.len()
        invariant
            m <= mcus@.len(),
            nc == total_components,
            nc == 1 || nc == 3,
            mcus_shaped(mcus@, nc as nat, mcu_size as nat),
            out@.len() == m,
            mcus_shaped(out@, nc as nat, mcu_size as nat),
            forall|mm: int, c: int, s: int, k: int|
                0 <= mm < m && 0 <= c < nc && 0 <= s < mcu_size && 0 <= k < 64 ==> {
                    let y = mcus@[mm]@[0]@[s]@[k] as int;
                    let cb = mcus@[mm]@[if nc == 3 { 1int } else { 0int }]@[s]@[k] as int;
                    let cr = mcus@[mm]@[if nc == 3 { 2int } else { 0int }]@[s]@[k] as int;
                    #[trigger] out@[mm]@[c]@[s]@[k] == pixel_channel(nc as nat, c, y, cb, cr)
                },
        decreases mcus@.len() - m,
    {
        let mcu = &mcus[m];
        assert(mcu@.len() == nc);
        let mut channels: Vec<Vec<[i16; 64]>> = Vec::new();
        let mut c: usize = 0;
        while c < nc
            invariant
                c <= nc,
                nc == 1 || nc == 3,
                *mcu == mcus@[m as int],
                mcu@.len() == nc,
                forall|cc: int| 0 <= cc < nc ==> (#[trigger] mcu@[cc])@.len() == mcu_size,
                channels@.len() == c,
                forall|cc: int| 0 <= cc < c ==> (#[trigger] channels@[cc])@.len() == mcu_size,
                forall|cc: int, s: int, k: int|
                    0 <= cc < c && 0 <= s < mcu_size && 0 <= k < 64 ==> {
                        let y = mcu@[0]@[s]@[k] as int;
                        let cb = mcu@[if nc == 3 { 1int } else { 0int }]@[s]@[k] as int;
                        let cr = mcu@[if nc == 3 { 2int } else { 0int }]@[s]@[k] as int;
                        #[trigger] channels@[cc]@[s]@[k] == pixel_channel(nc as nat, cc, y, cb, cr)
                    },
            decreases nc - c,
        {
            let mut blocks: Vec<[i16; 64]> = Vec::new();
            let mut s: usize = 0;
            while s < mcu_size
                invariant
                    c < nc,
                    nc == 1 || nc == 3,
                    mcu@.len() == nc,
                    forall|cc: int| 0 <= cc < nc ==> (#[trigger] mcu@[cc])@.len() == mcu_size,
                    s <= mcu_size,
                    blocks@.len() == s,
                    forall|ss: int, k: int|
                        0 <= ss < s && 0 <= k < 64 ==> {
                            let y = mcu@[0]@[ss]@[k] as int;
                            let cb = mcu@[if nc == 3 { 1int } else { 0int }]@[ss]@[k] as int;
                            let cr = mcu@[if nc == 3 { 2int } else { 0int }]@[ss]@[k] as int;
                            #[trigger] blocks@[ss]@[k] == pixel_channel(nc as nat, c as int, y, cb, cr)
                        },
                decreases mcu_size - s,
            {
                let cbi: usize = if nc == 3 { 1 } else { 0 };
                let cri: usize = if nc == 3 { 2 } else { 0 };
                let mut block: [i16; 64] = [0i16; 64];
                let mut k: usize = 0;
                while k < 64
                    invariant
                        k <= 64,
                        c < nc,
                        nc == 1 || nc == 3,
                        cbi == (if nc == 3 { 1int } else { 0int }),
                        cri == (if nc == 3 { 2int } else { 0int }),
                        mcu@.len() == nc,
                        forall|cc: int| 0 <= cc < nc ==> (#[trigger] mcu@[cc])@.len() == mcu_size,
                        s < mcu_size,
                        forall|kk: int|
                            0 <= kk < k ==> #[trigger] block@[kk] == pixel_channel(
                                nc as nat,
                                c as int,
                                mcu@[0]@[s as int]@[kk] as int,
                                mcu@[cbi as int]@[s as int]@[kk] as int,
                                mcu@[cri as int]@[s as int]@[kk] as int,
                            ),
                    decreases 64 - k,
                {
                    let y = mcu[0][s][k];
                    let v = if nc == 3 {
                        let (r, g, b) = ycbcr_to_rgb(y, mcu[1][s][k], mcu[2][s][k]);
                        if c == 0 {
                            r
                        } else if c == 1 {
                            g
                        } else {
                            b
                        }
                    } else {
                        grey_level(y)
                    };
                    block[k] = v;
                    k = k + 1;
                }
                blocks.push(block);
                s = s + 1;
            }
            channels.push(blocks);
            c = c + 1;
        }
        out.push(channels);
        m = m + 1;
    }
    proof {
        assert forall|m: int, c: int, s: int, k: int|
            0 <= m < out@.len() && 0 <= c < total_components && 0 <= s < mcu_size && 0 <= k < 64
                implies 0 <= #[trigger] out@[m]@[c]@[s]@[k] <= 255 by {
            let y = mcus@[m]@[0]@[s]@[k] as int;
            let cb = mcus@[m]@[if nc == 3 { 1int } else { 0int }]@[s]@[k] as int;
            let cr = mcus@[m]@[if nc == 3 { 2int } else { 0int }]@[s]@[k] as int;
            assert(out@[m]@[c]@[s]@[k] == pixel_channel(nc as nat, c, y, cb, cr));
        }
    }
    out
}

/// Channel `c` of a pixel of an image with `nc` components.
pub open spec fn pixel_channel(nc: nat, c: int, y: int, cb: int, cr: int) -> int {
    if nc == 3 {
        if c == 0 {
            red(y, cr)
        } else if c == 1 {
            green(y, cb, cr)
        } else {
            blue(y, cb)
        }
    } else {
        grey(y)
    }
}

} // verus!
