//! Placement of the pixels of an MCU grid into a row-major raster.
use vstd::prelude::*;
use crate::color::mcus_shaped;
use crate::mcu::McuGeometry;

verus! {

/// The MCU that holds pixel (y, x).
pub open spec fn mcu_index(g: McuGeometry, y: int, x: int) -> int {
    (y / (8 * g.max_vertical_factor as int)) * g.mcus_x + x / (8 * g.max_horizontal_factor as int)
}

/// The block slot, within its MCU, that holds pixel (y, x).
pub open spec fn slot_index(g: McuGeometry, y: int, x: int) -> int {
    ((y / 8) % (g.max_vertical_factor as int)) * g.max_horizontal_factor + (x / 8) % (
    g.max_horizontal_factor as int)
}

/// The sample, within its block, that is pixel (y, x).
pub open spec fn sample_index(y: int, x: int) -> int {
    (y % 8) * 8 + x % 8
}

/// Channel `c` of pixel (y, x) of the MCU grid.
pub open spec fn raster_sample(mcus: Seq<Vec<Vec<[i16; 64]>>>, g: McuGeometry, y: int, x: int, c: int) -> i16 {
    mcus[mcu_index(g, y, x)]@[c]@[slot_index(g, y, x)]@[sample_index(y, x)]
}

/// The position of byte `i` of a raster `width` pixels wide with `nc` channels: its row,
/// column and channel.
pub open spec fn raster_position(i: int, width: int, nc: int) -> (int, int, int) {
    ((i / nc) / width, (i / nc) % width, i % nc)
}

proof fn lemma_index_split(q: int, r: int, d: int)
    requires
        0 <= r < d,
        0 <= q,
    ensures
        (q * d + r) / d == q,
        (q * d + r) % d == r,
{
    vstd::arithmetic::div_mod::lemma_fundamental_div_mod_converse(q * d + r, d, q, r);
}

proof fn lemma_raster_index(g: McuGeometry, y: int, x: int)
    requires
        g.wf(),
        0 <= y < 8 * g.max_vertical_factor * g.mcus_y,
        0 <= x < 8 * g.max_horizontal_factor * g.mcus_x,
    ensures
        0 <= mcu_index(g, y, x) < g.mcus_x * g.mcus_y,
        0 <= slot_index(g, y, x) < g.max_horizontal_factor * g.max_vertical_factor,
        0 <= sample_index(y, x) < 64,
{
    let uv = 8 * g.max_vertical_factor as int;
    let uh = 8 * g.max_horizontal_factor as int;
    let my = y / uv;
    let mx = x / uh;
    vstd::arithmetic::div_mod::lemma_div_pos_is_pos(y, uv);
    vstd::arithmetic::div_mod::lemma_div_pos_is_pos(x, uh);
    vstd::arithmetic::div_mod::lemma_fundamental_div_mod(y, uv);
    vstd::arithmetic::div_mod::lemma_fundamental_div_mod(x, uh);
    vstd::arithmetic::div_mod::lemma_mod_bound(y, uv);
    vstd::arithmetic::div_mod::lemma_mod_bound(x, uh);
    assert(my < g.mcus_y) by (nonlinear_arith)
        requires
            y == uv * my + y % uv,
            0 <= y % uv,
            y < uv * g.mcus_y,
            uv > 0,
    ;
    assert(mx < g.mcus_x) by (nonlinear_arith)
        requires
            x == uh * mx + x % uh,
            0 <= x % uh,
            x < uh * g.mcus_x,
            uh > 0,
    ;
    assert(my * g.mcus_x + mx < g.mcus_x * g.mcus_y) by (nonlinear_arith)
        requires
            0 <= my < g.mcus_y,
            0 <= mx < g.mcus_x,
    ;
    let sy = (y / 8) % (g.max_vertical_factor as int);
    let sx = (x / 8) % (g.max_horizontal_factor as int);
    assert(sy * g.max_horizontal_factor + sx < g.max_horizontal_factor * g.max_vertical_factor)
        by (nonlinear_arith)
        requires
            0 <= sy < g.max_vertical_factor,
            0 <= sx < g.max_horizontal_factor,
    ;
}

/// `r` is the raster of the MCU grid: `height` rows of `width` pixels of `nc` channels.
pub open spec fn raster_of(mcus: Seq<Vec<Vec<[i16; 64]>>>, g: McuGeometry, nc: int, width: int, height: int, r: Seq<u8>) -> bool {
    &&& r.len() == width * height * nc
    &&& forall|i: int|
        0 <= i < r.len() ==> {
            let (y, x, c) = raster_position(i, width, nc);
            #[trigger] r[i] as int == raster_sample(mcus, g, y, x, c) as int
        }
}

/// Reads the raster out of an MCU grid: `height` rows of `width` pixels from the top,
/// `total_components` channels per pixel (R, G, B or grey); MCU padding is dropped.
#[verifier::loop_isolation(false)]
pub fn bmp_data_from_mcus(
    mcus: &Vec<Vec<Vec<[i16; 64]>>>,
    total_components: u8,
    width: u16,
    height: u16,
    geometry: &McuGeometry,
) -> (r: Vec<u8>)
    requires
        total_components == 1 || total_components == 3,
        geometry.wf(),
        width <= 8 * geometry.max_horizontal_factor * geometry.mcus_x,
        height <= 8 * geometry.max_vertical_factor * geometry.mcus_y,
        mcus@.len() == geometry.mcus_x * geometry.mcus_y,
        mcus_shaped(
            mcus@,
            total_components as nat,
            (geometry.max_horizontal_factor * geometry.max_vertical_factor) as nat,
        ),
        forall|m: int, c: int, s: int, k: int|
            0 <= m < mcus@.len() && 0 <= c < total_components && 0 <= s
                < geometry.max_horizontal_factor * geometry.max_vertical_factor && 0 <= k < 64
                ==> 0 <= #[trigger] mcus@[m]@[c]@[s]@[k] <= 255,
    ensures
        raster_of(mcus@, *geometry, total_components as int, width as int, height as int, r@),
{
    let nc = total_components as usize;
    let w = width as usize;
    let h = height as usize;
    let uh = 8 * geometry.max_horizontal_factor;
    let uv = 8 * geometry.max_vertical_factor;
    let hmax = geometry.max_horizontal_factor;
    let vmax = geometry.max_vertical_factor;
    assert(geometry.mcus_x * geometry.mcus_y <= 8192 * 8192) by (nonlinear_arith)
        requires
            geometry.mcus_x <= 8192,
            geometry.mcus_y <= 8192,
    ;
    let mut out: Vec<u8> = Vec::new();
    let mut y: usize = 0;
    while y < h
        invariant
            y <= h,
            nc == total_components,
            w == width,
            h == height,
            out@.len() == y * w * nc,
            forall|i: int|
                0 <= i < out@.len() ==> {
                    let (py, px, c) = raster_position(i, w as int, nc as int);
                    #[trigger] out@[i] as int == raster_sample(mcus@, *geometry, py, px, c) as int
                },
        decreases h - y,
    {
        let mut x: usize = 0;
        while x < w
            invariant
                y < h,
                x <= w,
                nc == total_components,
                nc == 1 || nc == 3,
                w == width,
                h == height,
                out@.len() == (y * w + x) * nc,
                forall|i: int|
                    0 <= i < out@.len() ==> {
                        let (py, px, c) = raster_position(i, w as int, nc as int);
                        #[trigger] out@[i] as int == raster_sample(mcus@, *geometry, py, px, c) as int
                    },
            decreases w - x,
        {
            proof {
                lemma_raster_index(*geometry, y as int, x as int);
                assert((y / uv) * geometry.mcus_x + x / uh == mcu_index(*geometry, y as int, x as int));
                assert(((y / 8) % vmax) * hmax + (x / 8) % hmax == slot_index(*geometry, y as int, x as int));
            }
            let m = (y / uv) * geometry.mcus_x + x / uh;
            let sy = (y / 8) % vmax;
            assert(sy * hmax <= 16) by (nonlinear_arith)
                requires
                    sy < vmax <= 4,
                    hmax <= 4,
            ;
            let slot = sy * hmax + (x / 8) % hmax;
            let k = (y % 8) * 8 + x % 8;
            let mut c: usize = 0;
            while c < nc
                invariant
                    y < h,
                    x < w,
                    c <= nc,
                    nc == 1 || nc == 3,
                    w == width,
                    m == mcu_index(*geometry, y as int, x as int),
                    slot == slot_index(*geometry, y as int, x as int),
                    k == sample_index(y as int, x as int),
                    out@.len() == (y * w + x) * nc + c,
                    forall|i: int|
                        0 <= i < out@.len() ==> {
                            let (py, px, cc) = raster_position(i, w as int, nc as int);
                            #[trigger] out@[i] as int == raster_sample(mcus@, *geometry, py, px, cc) as int
                        },
                decreases nc - c,
            {
                let v = mcus[m][c][slot][k];
                proof {
                    let i = (y * w + x) * nc + c;
                    lemma_index_split((y * w + x) as int, c as int, nc as int);
                    lemma_index_split(y as int, x as int, w as int);
                    assert(raster_position(i as int, w as int, nc as int) == (y as int, x as int, c as int));
                }
                out.push(v as u8);
                c = c + 1;
            }
            assert((y * w + x) * nc + nc == (y * w + x + 1) * nc) by (nonlinear_arith);
            x = x + 1;
        }
        assert((y * w + w) * nc == (y + 1) * w * nc) by (nonlinear_arith);
        y = y + 1;
    }
    assert(h * w * nc == width as int * height as int * total_components as int) by (nonlinear_arith)
        requires
            h == height,
            w == width,
            nc == total_components,
    ;
    out
}

} // verus!
