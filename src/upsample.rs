//! Nearest-neighbour upsampling of subsampled components to the full MCU resolution.
use vstd::prelude::*;
use crate::color::mcus_shaped;
use crate::mcu::{McuGeometry, comps_fit};
use crate::segments::FrameComponent;

verus! {

/// Sample `8 * y + x` of block `b` of the upscaled blocks of one block scaled by `hs`
/// across and `vs` down: the source sample at ((y + 8 * (b / hs)) / vs, (x + 8 * (b mod hs)) / hs).
pub open spec fn upscaled_sample(block: Seq<i16>, hs: int, vs: int, b: int, y: int, x: int) -> i16 {
    block[((y + 8 * (b / hs)) / vs) * 8 + (x + 8 * (b % hs)) / hs]
}

/// Replicates each sample of a block over an `hs` x `vs` area, giving `hs * vs` blocks in
/// row-major order that together cover 8 * hs x 8 * vs samples.
pub fn upscale_block(block: &[i16; 64], horizontal_scaling_factor: usize, vertical_scaling_factor: usize) -> (r: Vec<[i16; 64]>)
    requires
        1 <= horizontal_scaling_factor <= 4,
        1 <= vertical_scaling_factor <= 4,
    ensures
        r@.len() == horizontal_scaling_factor * vertical_scaling_factor,
        forall|b: int, y: int, x: int|
            0 <= b < r@.len() && 0 <= y < 8 && 0 <= x < 8 ==> #[trigger] r@[b]@[8 * y + x]
                == upscaled_sample(block@, horizontal_scaling_factor as int, vertical_scaling_factor as int, b, y, x),
{
    let hs = horizontal_scaling_factor;
    let vs = vertical_scaling_factor;
    assert(hs * vs <= 16) by (nonlinear_arith)
        requires
            hs <= 4,
            vs <= 4,
    ;
    let n = hs * vs;
    let mut out: Vec<[i16; 64]> = Vec::new();
    let mut b: usize = 0;
    while b < n
        invariant
            1 <= hs <= 4,
            1 <= vs <= 4,
            n == hs * vs,
            b <= n,
            out@.len() == b,
            forall|bb: int, y: int, x: int|
                0 <= bb < b && 0 <= y < 8 && 0 <= x < 8 ==> #[trigger] out@[bb]@[8 * y + x]
                    == upscaled_sample(block@, hs as int, vs as int, bb, y, x),
        decreases n - b,
    {
        let by = b / hs;
        let bx = b % hs;
        assert(by < vs) by {
            vstd::arithmetic::div_mod::lemma_fundamental_div_mod(b as int, hs as int);
            assert(by < vs) by (nonlinear_arith)
                requires
                    b == hs * by + bx,
                    0 <= bx,
                    b < hs * vs,
                    hs > 0,
            ;
        }
        let mut ub: [i16; 64] = [0i16; 64];
        let mut y: usize = 0;
        while y < 8
            invariant
                y <= 8,
                1 <= hs <= 4,
                1 <= vs <= 4,
                by == (b as int) / (hs as int),
                bx == (b as int) % (hs as int),
                by < vs,
                bx < hs,
                forall|yy: int, x: int| 0 <= yy < y && 0 <= x < 8 ==> #[trigger] ub@[8 * yy + x]
                    == upscaled_sample(block@, hs as int, vs as int, b as int, yy, x),
            decreases 8 - y,
        {
            let mut x: usize = 0;
            while x < 8
                invariant
                    y < 8,
                    x <= 8,
                    1 <= hs <= 4,
                    1 <= vs <= 4,
                    by == (b as int) / (hs as int),
                    bx == (b as int) % (hs as int),
                    by < vs,
                    bx < hs,
                    forall|yy: int, xx: int| 0 <= yy < y && 0 <= xx < 8 ==> #[trigger] ub@[8 * yy + xx]
                        == upscaled_sample(block@, hs as int, vs as int, b as int, yy, xx),
                    forall|xx: int| 0 <= xx < x ==> #[trigger] ub@[8 * y + xx]
                        == upscaled_sample(block@, hs as int, vs as int, b as int, y as int, xx),
                decreases 8 - x,
            {
                let sy = (y + 8 * by) / vs;
                let sx = (x + 8 * bx) / hs;
                assert(sy < 8) by {
                    assert(y + 8 * by < 8 * vs) by (nonlinear_arith)
                        requires
                            y < 8,
                            by < vs,
                    ;
                    vstd::arithmetic::div_mod::lemma_fundamental_div_mod((y + 8 * by) as int, vs as int);
                    assert(sy < 8) by (nonlinear_arith)
                        requires
                            y + 8 * by == vs * sy + (y + 8 * by) % (vs as int),
                            0 <= (y + 8 * by) % (vs as int),
                            y + 8 * by < 8 * vs,
                            vs > 0,
                    ;
                }
                assert(sx < 8) by {
                    assert(x + 8 * bx < 8 * hs) by (nonlinear_arith)
                        requires
                            x < 8,
                            bx < hs,
                    ;
                    vstd::arithmetic::div_mod::lemma_fundamental_div_mod((x + 8 * bx) as int, hs as int);
                    assert(sx < 8) by (nonlinear_arith)
                        requires
                            x + 8 * bx == hs * sx + (x + 8 * bx) % (hs as int),
                            0 <= (x + 8 * bx) % (hs as int),
                            x + 8 * bx < 8 * hs,
                            hs > 0,
                    ;
                }
                ub[8 * y + x] = block[sy * 8 + sx];
                x = x + 1;
            }
            y = y + 1;
        }
        out.push(ub);
        b = b + 1;
    }
    out
}

/// Sample `k` of slot `s` of a component with factors (h, v) after upsampling to the MCU
/// resolution: the component sample at (Y * v / Vmax, X * h / Hmax), where (Y, X) is the
/// position of that sample in the MCU.
pub open spec fn upsampled(comp: Seq<[i16; 64]>, g: McuGeometry, h: int, v: int, s: int, k: int) -> i16 {
    let hmax = g.max_horizontal_factor as int;
    let vmax = g.max_vertical_factor as int;
    let py = (s / hmax) * 8 + k / 8;
    let px = (s % hmax) * 8 + k % 8;
    let sy = py * v / vmax;
    let sx = px * h / hmax;
    comp[(sy / 8) * hmax + sx / 8]@[(sy % 8) * 8 + sx % 8]
}

proof fn lemma_upsample_index(hmax: int, vmax: int, h: int, v: int, s: int, k: int)
    requires
        1 <= h <= hmax <= 4,
        1 <= v <= vmax <= 4,
        0 <= s < hmax * vmax,
        0 <= k < 64,
    ensures
        ({
            let py = (s / hmax) * 8 + k / 8;
            let px = (s % hmax) * 8 + k % 8;
            let sy = py * v / vmax;
            let sx = px * h / hmax;
            &&& 0 <= (sy / 8) * hmax + sx / 8 < hmax * vmax
            &&& 0 <= (sy % 8) * 8 + sx % 8 < 64
            &&& 0 <= py < 8 * vmax
            &&& 0 <= px < 8 * hmax
        }),
{
    let qy = s / hmax;
    let qx = s % hmax;
    vstd::arithmetic::div_mod::lemma_fundamental_div_mod(s, hmax);
    assert(qy < vmax) by (nonlinear_arith)
        requires
            s == hmax * qy + qx,
            0 <= qx,
            s < hmax * vmax,
            hmax > 0,
    ;
    assert(0 <= qy) by {
        vstd::arithmetic::div_mod::lemma_div_pos_is_pos(s, hmax);
    }
    let py = qy * 8 + k / 8;
    let px = qx * 8 + k % 8;
    assert(0 <= py < 8 * vmax);
    assert(0 <= px < 8 * hmax);
    let sy = py * v / vmax;
    let sx = px * h / hmax;
    assert(0 <= py * v < 8 * vmax * v) by (nonlinear_arith)
        requires
            0 <= py < 8 * vmax,
            v >= 1,
    ;
    vstd::arithmetic::div_mod::lemma_fundamental_div_mod(py * v, vmax);
    vstd::arithmetic::div_mod::lemma_fundamental_div_mod(px * h, hmax);
    assert(0 <= px * h < 8 * hmax * h) by (nonlinear_arith)
        requires
            0 <= px < 8 * hmax,
            h >= 1,
    ;
    vstd::arithmetic::div_mod::lemma_div_pos_is_pos(py * v, vmax);
    vstd::arithmetic::div_mod::lemma_div_pos_is_pos(px * h, hmax);
    vstd::arithmetic::div_mod::lemma_mod_bound(py * v, vmax);
    vstd::arithmetic::div_mod::lemma_mod_bound(px * h, hmax);
    assert(sy * vmax < (8 * v) * vmax) by (nonlinear_arith)
        requires
            py * v == vmax * sy + (py * v) % vmax,
            0 <= (py * v) % vmax,
            py * v < 8 * vmax * v,
    ;
    vstd::arithmetic::mul::lemma_mul_strict_inequality_converse(sy, 8 * v, vmax);
    assert(sx * hmax < (8 * h) * hmax) by (nonlinear_arith)
        requires
            px * h == hmax * sx + (px * h) % hmax,
            0 <= (px * h) % hmax,
            px * h < 8 * hmax * h,
    ;
    vstd::arithmetic::mul::lemma_mul_strict_inequality_converse(sx, 8 * h, hmax);
    assert((sy / 8) * hmax + sx / 8 < hmax * vmax) by (nonlinear_arith)
        requires
            0 <= sy / 8 < v,
            0 <= sx / 8 < h,
            h <= hmax,
            v <= vmax,
    ;
}

/// `r` is `mcus` with every component brought to the MCU's full resolution.
pub open spec fn upscaled_mcus(
    mcus: Seq<Vec<Vec<[i16; 64]>>>,
    g: McuGeometry,
    comps: Seq<FrameComponent>,
    r: Seq<Vec<Vec<[i16; 64]>>>,
) -> bool {
    &&& r.len() == mcus.len()
    &&& mcus_shaped(r, comps.len(), (g.max_horizontal_factor * g.max_vertical_factor) as nat)
    &&& forall|m: int, c: int, s: int, k: int|
        0 <= m < r.len() && 0 <= c < comps.len() && 0 <= s < g.max_horizontal_factor
            * g.max_vertical_factor && 0 <= k < 64 ==> #[trigger] r[m]@[c]@[s]@[k] == upsampled(
            mcus[m]@[c]@,
            g,
            comps[c].horizontal_sample_factor as int,
            comps[c].vertical_sample_factor as int,
            s,
            k,
        )
}

/// Brings every component of every MCU to the MCU's full resolution (Hmax x Vmax blocks of
/// samples) by nearest-neighbour replication.
pub fn upscale(
    mcus: &Vec<Vec<Vec<[i16; 64]>>>,
    geometry: &McuGeometry,
    frame_components: &Vec<FrameComponent>,
) -> (r: Vec<Vec<Vec<[i16; 64]>>>)
    requires
        geometry.wf(),
        comps_fit(frame_components@, *geometry),
        mcus_shaped(
            mcus@,
            frame_components@.len(),
            (geometry.max_horizontal_factor * geometry.max_vertical_factor) as nat,
        ),
    ensures
        upscaled_mcus(mcus@, *geometry, frame_components@, r@),
{
    let hmax = geometry.max_horizontal_factor;
    let vmax = geometry.max_vertical_factor;
    assert(hmax * vmax <= 16) by (nonlinear_arith)
        requires
            hmax <= 4,
            vmax <= 4,
    ;
    let slots = hmax * vmax;
    let nc = frame_components.len();
    let ghost comps = frame_components@;
    let mut out: Vec<Vec<Vec<[i16; 64]>>> = Vec::new();
    let mut m: usize = 0;
    while m < mcus.len()
        invariant
            m <= mcus@.len(),
            comps == frame_components@,
            comps_fit(comps, *geometry),
            geometry.wf(),
            hmax == geometry.max_horizontal_factor,
            vmax == geometry.max_vertical_factor,
            slots == hmax * vmax,
            nc == comps.len(),
            mcus_shaped(mcus@, nc as nat, slots as nat),
            out@.len() == m,
            mcus_shaped(out@, nc as nat, slots as nat),
            forall|mm: int, c: int, s: int, k: int|
                0 <= mm < m && 0 <= c < nc && 0 <= s < slots && 0 <= k < 64
                    ==> #[trigger] out@[mm]@[c]@[s]@[k] == upsampled(
                    mcus@[mm]@[c]@,
                    *geometry,
                    comps[c].horizontal_sample_factor as int,
                    comps[c].vertical_sample_factor as int,
                    s,
                    k,
                ),
        decreases mcus@.len() - m,
    {
        let mcu = &mcus[m];
        let mut up_mcu: Vec<Vec<[i16; 64]>> = Vec::new();
        let mut c: usize = 0;
        while c < nc
            invariant
                c <= nc,
                comps == frame_components@,
                comps_fit(comps, *geometry),
                geometry.wf(),
                hmax == geometry.max_horizontal_factor,
                vmax == geometry.max_vertical_factor,
                slots == hmax * vmax,
                nc == comps.len(),
                *mcu == mcus@[m as int],
                mcu@.len() == nc,
                forall|cc: int| 0 <= cc < nc ==> (#[trigger] mcu@[cc])@.len() == slots,
                up_mcu@.len() == c,
                forall|cc: int| 0 <= cc < c ==> (#[trigger] up_mcu@[cc])@.len() == slots,
                forall|cc: int, s: int, k: int|
                    0 <= cc < c && 0 <= s < slots && 0 <= k < 64 ==> #[trigger] up_mcu@[cc]@[s]@[k]
                        == upsampled(
                        mcu@[cc]@,
                        *geometry,
                        comps[cc].horizontal_sample_factor as int,
                        comps[cc].vertical_sample_factor as int,
                        s,
                        k,
                    ),
            decreases nc - c,
        {
            let h = frame_components[c].horizontal_sample_factor as usize;
            let v = frame_components[c].vertical_sample_factor as usize;
            assert(1 <= comps[c as int].horizontal_sample_factor);
            let comp = &mcu[c];
            let mut blocks: Vec<[i16; 64]> = Vec::new();
            let mut s: usize = 0;
            while s < slots
                invariant
                    c < nc,
                    1 <= h <= hmax <= 4,
                    1 <= v <= vmax <= 4,
                    hmax == geometry.max_horizontal_factor,
                    vmax == geometry.max_vertical_factor,
                    slots == hmax * vmax,
                    comp@.len() == slots,
                    s <= slots,
                    blocks@.len() == s,
                    forall|ss: int, k: int|
                        0 <= ss < s && 0 <= k < 64 ==> #[trigger] blocks@[ss]@[k] == upsampled(
                            comp@,
                            *geometry,
                            h as int,
                            v as int,
                            ss,
                            k,
                        ),
                decreases slots - s,
            {
                let mut block: [i16; 64] = [0i16; 64];
                let mut k: usize = 0;
                while k < 64
                    invariant
                        s < slots,
                        1 <= h <= hmax <= 4,
                        1 <= v <= vmax <= 4,
                        hmax == geometry.max_horizontal_factor,
                        vmax == geometry.max_vertical_factor,
                        slots == hmax * vmax,
                        comp@.len() == slots,
                        k <= 64,
                        forall|kk: int| 0 <= kk < k ==> #[trigger] block@[kk] == upsampled(
                            comp@,
                            *geometry,
                            h as int,
                            v as int,
                            s as int,
                            kk,
                        ),
                    decreases 64 - k,
                {
                    proof {
                        lemma_upsample_index(hmax as int, vmax as int, h as int, v as int, s as int, k as int);
                    }
                    let py = (s / hmax) * 8 + k / 8;
                    let px = (s % hmax) * 8 + k % 8;
                    assert(py * v <= 128 && px * h <= 128) by (nonlinear_arith)
                        requires
                            py < 8 * vmax,
                            px < 8 * hmax,
                            vmax <= 4,
                            hmax <= 4,
                            v <= 4,
                            h <= 4,
                    ;
                    let sy = py * v / vmax;
                    let sx = px * h / hmax;
                    block[k] = comp[(sy / 8) * hmax + sx / 8][(sy % 8) * 8 + sx % 8];
                    k = k + 1;
                }
                blocks.push(block);
                s = s + 1;
            }
            up_mcu.push(blocks);
            c = c + 1;
        }
        out.push(up_mcu);
        m = m + 1;
    }
    out
}

} // verus!
