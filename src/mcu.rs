//! MCU geometry, and the grouping and dequantization of decoded blocks by MCU.
use vstd::prelude::*;
use crate::color::mcus_shaped;
use crate::error::JpegError;
use crate::idct::clamp_i16;
use crate::segments::{
    FrameComponent, FrameHeader, QuantizationTable, blocks_per_mcu, factors_in_range,
    lemma_blocks_per_mcu_prefix,
};

verus! {

/// The largest horizontal sampling factor of the components.
pub open spec fn max_h(comps: Seq<FrameComponent>) -> nat
    decreases comps.len(),
{
    if comps.len() == 0 {
        0
    } else {
        let rest = max_h(comps.drop_last());
        let h = comps.last().horizontal_sample_factor as nat;
        if h > rest {
            h
        } else {
            rest
        }
    }
}

/// The largest vertical sampling factor of the components.
pub open spec fn max_v(comps: Seq<FrameComponent>) -> nat
    decreases comps.len(),
{
    if comps.len() == 0 {
        0
    } else {
        let rest = max_v(comps.drop_last());
        let v = comps.last().vertical_sample_factor as nat;
        if v > rest {
            v
        } else {
            rest
        }
    }
}

/// `a / b` rounded up.
pub open spec fn ceil_div(a: nat, b: nat) -> nat {
    ((a + b - 1) / (b as int)) as nat
}

/// How a frame is cut into MCUs.
#[derive(Debug, Clone, Copy, PartialEq, Eq, Structural)]
pub struct McuGeometry {
    /// Hmax
    pub max_horizontal_factor: usize,
    /// Vmax
    pub max_vertical_factor: usize,
    /// MCUs per row of MCUs.
    pub mcus_x: usize,
    /// Rows of MCUs.
    pub mcus_y: usize,
}

impl McuGeometry {
    /// The number of MCUs in the frame.
    pub open spec fn total(&self) -> nat {
        self.mcus_x as nat * self.mcus_y as nat
    }

    /// The geometry of the frame `header` describes.
    pub open spec fn of(&self, header: FrameHeader) -> bool {
        &&& self.max_horizontal_factor == max_h(header.components@)
        &&& self.max_vertical_factor == max_v(header.components@)
        &&& self.mcus_x == ceil_div(header.total_horizontal_lines as nat, (8 * self.max_horizontal_factor) as nat)
        &&& self.mcus_y == ceil_div(header.total_vertical_lines as nat, (8 * self.max_vertical_factor) as nat)
    }

    /// Factors in 1..=4, and at most 8192 MCUs along each side.
    pub open spec fn wf(&self) -> bool {
        &&& 1 <= self.max_horizontal_factor <= 4
        &&& 1 <= self.max_vertical_factor <= 4
        &&& self.mcus_x <= 8192
        &&& self.mcus_y <= 8192
    }
}

proof fn lemma_max_bounds(comps: Seq<FrameComponent>)
    requires
        factors_in_range(comps),
    ensures
        comps.len() > 0 ==> 1 <= max_h(comps) <= 4 && 1 <= max_v(comps) <= 4,
        forall|i: int| 0 <= i < comps.len() ==> (#[trigger] comps[i]).horizontal_sample_factor <= max_h(comps)
            && comps[i].vertical_sample_factor <= max_v(comps),
    decreases comps.len(),
{
    if comps.len() > 0 {
        let rest = comps.drop_last();
        assert forall|i: int| 0 <= i < rest.len() implies 1 <= (#[trigger] rest[i]).horizontal_sample_factor <= 4
            && 1 <= rest[i].vertical_sample_factor <= 4 by {
            assert(rest[i] == comps[i]);
        }
        lemma_max_bounds(rest);
        assert forall|i: int| 0 <= i < comps.len() implies (#[trigger] comps[i]).horizontal_sample_factor
            <= max_h(comps) && comps[i].vertical_sample_factor <= max_v(comps) by {
            if i < rest.len() {
                assert(rest[i] == comps[i]);
            }
        }
    }
}

proof fn lemma_ceil_bound(w: int, u: int)
    requires
        0 <= w <= 65535,
        8 <= u <= 32,
    ensures
        (w + u - 1) / u <= 8192,
{
    let q = (w + u - 1) / u;
    vstd::arithmetic::div_mod::lemma_fundamental_div_mod(w + u - 1, u);
    vstd::arithmetic::div_mod::lemma_mod_bound(w + u - 1, u);
    assert(q * u <= w + u - 1);
    assert(q <= 8192) by (nonlinear_arith)
        requires
            q * u <= w + u - 1,
            w <= 65535,
            u >= 8,
    ;
}

/// Hmax, Vmax and the number of MCUs across and down the frame.
pub fn mcu_geometry(header: &FrameHeader) -> (r: McuGeometry)
    requires
        header.wf(),
    ensures
        r.of(*header),
        r.wf(),
        forall|i: int| 0 <= i < header.components@.len() ==>
            (#[trigger] header.components@[i]).horizontal_sample_factor <= r.max_horizontal_factor
            && header.components@[i].vertical_sample_factor <= r.max_vertical_factor,
{
    let ghost comps = header.components@;
    proof {
        lemma_max_bounds(comps);
    }
    let mut hmax: u8 = 0;
    let mut vmax: u8 = 0;
    let mut i: usize = 0;
    while i < header.components.len()
        invariant
            i <= comps.len(),
            comps == header.components@,
            hmax == max_h(comps.subrange(0, i as int)),
            vmax == max_v(comps.subrange(0, i as int)),
        decreases comps.len() - i,
    {
        assert(comps.subrange(0, i + 1).drop_last() =~= comps.subrange(0, i as int));
        let c = header.components[i];
        if c.horizontal_sample_factor > hmax {
            hmax = c.horizontal_sample_factor;
        }
        if c.vertical_sample_factor > vmax {
            vmax = c.vertical_sample_factor;
        }
        i = i + 1;
    }
    assert(comps.subrange(0, comps.len() as int) =~= comps);
    let w = header.total_horizontal_lines as usize;
    let h = header.total_vertical_lines as usize;
    let uw = 8 * hmax as usize;
    let uh = 8 * vmax as usize;
    proof {
        lemma_ceil_bound(w as int, uw as int);
        lemma_ceil_bound(h as int, uh as int);
    }
    McuGeometry {
        max_horizontal_factor: hmax as usize,
        max_vertical_factor: vmax as usize,
        mcus_x: (w + uw - 1) / uw,
        mcus_y: (h + uh - 1) / uh,
    }
}

/// Where component `c`'s blocks start within an MCU's blocks.
pub open spec fn component_offset(comps: Seq<FrameComponent>, c: int) -> nat {
    blocks_per_mcu(comps.subrange(0, c))
}

/// Slot `s` of component `c` of MCU `m`: the component's block at row `s / Hmax`, column
/// `s mod Hmax` of its Vi x Hi grid, taken from the decoded blocks, or zeros outside the grid.
pub open spec fn partitioned_block(
    blocks: Seq<[i16; 64]>,
    g: McuGeometry,
    comps: Seq<FrameComponent>,
    m: int,
    c: int,
    s: int,
) -> Seq<i16> {
    let hmax = g.max_horizontal_factor as int;
    let sy = s / hmax;
    let sx = s % hmax;
    let h = comps[c].horizontal_sample_factor as int;
    let v = comps[c].vertical_sample_factor as int;
    if sy < v && sx < h {
        blocks[m * blocks_per_mcu(comps) + component_offset(comps, c) + sy * h + sx]@
    } else {
        Seq::new(64, |_k: int| 0i16)
    }
}

/// `r` is `blocks` grouped by MCU and component, each component in Hmax * Vmax slots.
pub open spec fn partitioned_mcus(
    blocks: Seq<[i16; 64]>,
    g: McuGeometry,
    comps: Seq<FrameComponent>,
    r: Seq<Vec<Vec<[i16; 64]>>>,
) -> bool {
    &&& r.len() == g.total()
    &&& mcus_shaped(r, comps.len(), (g.max_horizontal_factor * g.max_vertical_factor) as nat)
    &&& forall|m: int, c: int, s: int|
        0 <= m < r.len() && 0 <= c < comps.len() && 0 <= s < g.max_horizontal_factor
            * g.max_vertical_factor ==> (#[trigger] r[m]@[c]@[s])@ == partitioned_block(
            blocks,
            g,
            comps,
            m,
            c,
            s,
        )
}

/// Slot `s` holds one of component `c`'s blocks: it lies within the component's Hi x Vi grid.
pub open spec fn in_grid(g: McuGeometry, comp: FrameComponent, s: int) -> bool {
    s / (g.max_horizontal_factor as int) < comp.vertical_sample_factor && s % (g.max_horizontal_factor as int)
        < comp.horizontal_sample_factor
}

/// `out` is `mcus` with every block of a component dequantized by the table of its
/// component, and zeros in the slots outside the component's grid.
pub open spec fn dequantized_mcus(
    mcus: Seq<Vec<Vec<[i16; 64]>>>,
    comps: Seq<FrameComponent>,
    tables: Seq<Option<QuantizationTable>>,
    g: McuGeometry,
    out: Seq<Vec<Vec<[i16; 64]>>>,
) -> bool {
    let mcu_size = (g.max_horizontal_factor * g.max_vertical_factor) as nat;
    &&& out.len() == mcus.len()
    &&& mcus_shaped(out, comps.len(), mcu_size)
    &&& forall|m: int, c: int, s: int, k: int|
        0 <= m < out.len() && 0 <= c < comps.len() && 0 <= s < mcu_size && 0 <= k < 64
            ==> #[trigger] out[m]@[c]@[s]@[k] == if in_grid(g, comps[c], s) {
            dequantized(
                mcus[m]@[c]@[s]@[k],
                tables[comps[c].quantization_table_selector as int]->0.elements@[k],
            )
        } else {
            0
        }
}

/// Components within the frame's factors.
pub open spec fn comps_fit(comps: Seq<FrameComponent>, g: McuGeometry) -> bool {
    &&& factors_in_range(comps)
    &&& forall|c: int|
        0 <= c < comps.len() ==> (#[trigger] comps[c]).horizontal_sample_factor <= g.max_horizontal_factor
            && comps[c].vertical_sample_factor <= g.max_vertical_factor
}

/// Groups the decoded blocks by MCU and component: each component gets Hmax * Vmax slots, its
/// Hi x Vi blocks placed at row-major positions of an Hmax-wide grid, zeros elsewhere.
pub fn partition_blocks_to_mcus(
    blocks: &Vec<[i16; 64]>,
    geometry: &McuGeometry,
    frame_components: &Vec<FrameComponent>,
) -> (r: Vec<Vec<Vec<[i16; 64]>>>)
    requires
        geometry.wf(),
        frame_components@.len() <= 4,
        comps_fit(frame_components@, *geometry),
        blocks_per_mcu(frame_components@) <= 10,
        blocks@.len() == geometry.total() * blocks_per_mcu(frame_components@),
    ensures
        partitioned_mcus(blocks@, *geometry, frame_components@, r@),
{
    let ghost comps = frame_components@;
    let bpm = blocks_per_mcu_exec(frame_components);
    let hmax = geometry.max_horizontal_factor;
    let vmax = geometry.max_vertical_factor;
    assert(hmax * vmax <= 16) by (nonlinear_arith)
        requires
            hmax <= 4,
            vmax <= 4,
    ;
    let slots = hmax * vmax;
    assert(geometry.mcus_x * geometry.mcus_y <= 8192 * 8192) by (nonlinear_arith)
        requires
            geometry.mcus_x <= 8192,
            geometry.mcus_y <= 8192,
    ;
    let total = geometry.mcus_x * geometry.mcus_y;
    assert(total * bpm <= 8192 * 8192 * 10) by (nonlinear_arith)
        requires
            total <= 8192 * 8192,
            bpm <= 10,
    ;
    let nc = frame_components.len();
    let mut mcus: Vec<Vec<Vec<[i16; 64]>>> = Vec::new();
    let mut m: usize = 0;
    while m < total
        invariant
            comps == frame_components@,
            comps_fit(comps, *geometry),
            geometry.wf(),
            nc == comps.len(),
            nc <= 4,
            hmax == geometry.max_horizontal_factor,
            vmax == geometry.max_vertical_factor,
            slots == hmax * vmax,
            bpm == blocks_per_mcu(comps),
            bpm <= 10,
            total == geometry.total(),
            total <= 8192 * 8192,
            blocks@.len() == total * bpm,
            total * bpm <= 8192 * 8192 * 10,
            m <= total,
            mcus@.len() == m,
            mcus_shaped(mcus@, nc as nat, slots as nat),
            forall|mm: int, c: int, s: int|
                0 <= mm < m && 0 <= c < nc && 0 <= s < slots ==> (#[trigger] mcus@[mm]@[c]@[s])@
                    == partitioned_block(blocks@, *geometry, comps, mm, c, s),
        decreases total - m,
    {
        let mut mcu: Vec<Vec<[i16; 64]>> = Vec::new();
        let mut offset: usize = 0;
        let mut c: usize = 0;
        while c < nc
            invariant
                comps == frame_components@,
                comps_fit(comps, *geometry),
                geometry.wf(),
                nc == comps.len(),
                nc <= 4,
                hmax == geometry.max_horizontal_factor,
                vmax == geometry.max_vertical_factor,
                slots == hmax * vmax,
                bpm == blocks_per_mcu(comps),
                bpm <= 10,
                total <= 8192 * 8192,
                blocks@.len() == total * bpm,
                total * bpm <= 8192 * 8192 * 10,
                m < total,
                c <= nc,
                offset == component_offset(comps, c as int),
                mcu@.len() == c,
                forall|cc: int| 0 <= cc < c ==> (#[trigger] mcu@[cc])@.len() == slots,
                forall|cc: int, s: int|
                    0 <= cc < c && 0 <= s < slots ==> (#[trigger] mcu@[cc]@[s])@ == partitioned_block(
                        blocks@,
                        *geometry,
                        comps,
                        m as int,
                        cc,
                        s,
                    ),
            decreases nc - c,
        {
            let h = frame_components[c].horizontal_sample_factor as usize;
            let v = frame_components[c].vertical_sample_factor as usize;
            proof {
                assert(comps.subrange(0, c + 1).drop_last() =~= comps.subrange(0, c as int));
                assert(comps.subrange(0, c + 1).last() == comps[c as int]);
                lemma_blocks_per_mcu_prefix(comps, c + 1);
                assert(1 <= comps[c as int].horizontal_sample_factor);
                assert(m * bpm + bpm <= total * bpm) by (nonlinear_arith)
                    requires
                        m < total,
                ;
                assert(h * v <= 16) by (nonlinear_arith)
                    requires
                        h <= 4,
                        v <= 4,
                ;
                assert(m * bpm <= 8192 * 8192 * 10) by (nonlinear_arith)
                    requires
                        m < total,
                        total <= 8192 * 8192,
                        bpm <= 10,
                ;
            }
            let base = m * bpm + offset;
            let mut comp: Vec<[i16; 64]> = Vec::new();
            let mut s: usize = 0;
            while s < slots
                invariant
                    comps_fit(comps, *geometry),
                    c < nc,
                    h == comps[c as int].horizontal_sample_factor,
                    v == comps[c as int].vertical_sample_factor,
                    1 <= h <= 4,
                    1 <= v <= 4,
                    1 <= hmax <= 4,
                    hmax == geometry.max_horizontal_factor,
                    slots == hmax * vmax,
                    bpm == blocks_per_mcu(comps),
                    base == m * bpm + component_offset(comps, c as int),
                    base + h * v <= total * bpm,
                    total * bpm <= 8192 * 8192 * 10,
                    nc == comps.len(),
                    blocks@.len() == total * bpm,
                    s <= slots,
                    comp@.len() == s,
                    forall|ss: int| 0 <= ss < s ==> (#[trigger] comp@[ss])@ == partitioned_block(
                        blocks@,
                        *geometry,
                        comps,
                        m as int,
                        c as int,
                        ss,
                    ),
                decreases slots - s,
            {
                let sy = s / hmax;
                let sx = s % hmax;
                if sy < v && sx < h {
                    assert(sy * h + sx < h * v) by (nonlinear_arith)
                        requires
                            sy < v,
                            sx < h,
                    ;
                    assert(sy * h <= 16) by (nonlinear_arith)
                        requires
                            sy < v <= 4,
                            h <= 4,
                    ;
                    comp.push(blocks[base + sy * h + sx]);
                } else {
                    let zero: [i16; 64] = [0i16; 64];
                    assert(zero@ =~= Seq::new(64, |_k: int| 0i16));
                    comp.push(zero);
                }
                s = s + 1;
            }
            mcu.push(comp);
            offset = offset + h * v;
            c = c + 1;
        }
        mcus.push(mcu);
        m = m + 1;
    }
    mcus
}

/// The sum of Hi * Vi over the components.
pub fn blocks_per_mcu_exec(comps: &Vec<FrameComponent>) -> (r: usize)
    requires
        comps@.len() <= 4,
        factors_in_range(comps@),
    ensures
        r == blocks_per_mcu(comps@),
{
    let mut total: usize = 0;
    let mut c: usize = 0;
    while c < comps.len()
        invariant
            c <= comps@.len() <= 4,
            factors_in_range(comps@),
            total == blocks_per_mcu(comps@.subrange(0, c as int)),
            total <= 16 * c,
        decreases comps@.len() - c,
    {
        assert(comps@.subrange(0, c + 1).drop_last() =~= comps@.subrange(0, c as int));
        let h = comps[c].horizontal_sample_factor as usize;
        let v = comps[c].vertical_sample_factor as usize;
        assert(1 <= comps@[c as int].horizontal_sample_factor);
        assert(h * v <= 16) by (nonlinear_arith)
            requires
                h <= 4,
                v <= 4,
        ;
        total = total + h * v;
        c = c + 1;
    }
    assert(comps@.subrange(0, comps@.len() as int) =~= comps@);
    total
}

/// A coefficient times its quantization step, saturated to `i16`.
pub open spec fn dequantized(coef: i16, q: u8) -> int {
    clamp_i16(coef * q)
}

/// Multiplies each coefficient by the step of the table at the same (natural) index,
/// saturating to the range of `i16`.
pub fn dequantize_block(block: &[i16; 64], qt: &QuantizationTable) -> (r: [i16; 64])
    ensures
        forall|k: int| 0 <= k < 64 ==> #[trigger] r@[k] == dequantized(block@[k], qt.elements@[k]),
{
    let mut out: [i16; 64] = [0i16; 64];
    let mut k: usize = 0;
    while k < 64
        invariant
            k <= 64,
            forall|kk: int| 0 <= kk < k ==> #[trigger] out@[kk] == dequantized(block@[kk], qt.elements@[kk]),
        decreases 64 - k,
    {
        let b = block[k] as i32;
        let q = qt.elements[k] as i32;
        assert(-32768 * 255 <= b * q <= 32767 * 255) by (nonlinear_arith)
            requires
                -32768 <= b <= 32767,
                0 <= q <= 255,
        ;
        let p = b * q;
        out[k] = if p < -32768 {
            -32768
        } else if p > 32767 {
            32767
        } else {
            p as i16
        };
        k = k + 1;
    }
    out
}

/// Every component has a table at its selector.
pub open spec fn quant_tables_defined(comps: Seq<FrameComponent>, tables: Seq<Option<QuantizationTable>>) -> bool {
    forall|c: int|
        0 <= c < comps.len() ==> (#[trigger] comps[c]).quantization_table_selector < tables.len()
            && tables[comps[c].quantization_table_selector as int] is Some
}

/// Dequantizes every block of every MCU with the table its component selects; a
/// `TableError` where a component selects no table.
pub fn dequantize(
    mcus: &Vec<Vec<Vec<[i16; 64]>>>,
    frame_components: &Vec<FrameComponent>,
    quantization_tables: &Vec<Option<QuantizationTable>>,
    geometry: &McuGeometry,
) -> (r: Result<Vec<Vec<Vec<[i16; 64]>>>, JpegError>)
    requires
        geometry.wf(),
        mcus_shaped(
            mcus@,
            frame_components@.len(),
            (geometry.max_horizontal_factor * geometry.max_vertical_factor) as nat,
        ),
    ensures
        !quant_tables_defined(frame_components@, quantization_tables@) <==> r == Err::<
            Vec<Vec<Vec<[i16; 64]>>>,
            JpegError,
        >(JpegError::TableError),
        r is Err ==> r == Err::<Vec<Vec<Vec<[i16; 64]>>>, JpegError>(JpegError::TableError),
        r matches Ok(out) ==> dequantized_mcus(
            mcus@,
            frame_components@,
            quantization_tables@,
            *geometry,
            out@,
        ),
{
    let hmax = geometry.max_horizontal_factor;
    assert(hmax * geometry.max_vertical_factor <= 16) by (nonlinear_arith)
        requires
            hmax <= 4,
            geometry.max_vertical_factor <= 4,
    ;
    let mcu_size = hmax * geometry.max_vertical_factor;
    let nc = frame_components.len();
    let mut c: usize = 0;
    while c < nc
        invariant
            c <= nc,
            nc == frame_components@.len(),
            forall|cc: int|
                0 <= cc < c ==> (#[trigger] frame_components@[cc]).quantization_table_selector
                    < quantization_tables@.len() && quantization_tables@[frame_components@[cc].quantization_table_selector as int] is Some,
        decreases nc - c,
    {
        let sel = frame_components[c].quantization_table_selector as usize;
        if sel >= quantization_tables.len() || quantization_tables[sel].is_none() {
            return Err(JpegError::TableError);
        }
        c = c + 1;
    }
    let ghost comps = frame_components@;
    let ghost tables = quantization_tables@;
    let mut out: Vec<Vec<Vec<[i16; 64]>>> = Vec::new();
    let mut m: usize = 0;
    while m < mcus.len()
        invariant
            m <= mcus@.len(),
            comps == frame_components@,
            tables == quantization_tables@,
            nc == comps.len(),
            quant_tables_defined(comps, tables),
            hmax == geometry.max_horizontal_factor,
            1 <= hmax <= 4,
            mcus_shaped(mcus@, nc as nat, mcu_size as nat),
            out@.len() == m,
            mcus_shaped(out@, nc as nat, mcu_size as nat),
            forall|mm: int, cc: int, s: int, k: int|
                0 <= mm < m && 0 <= cc < nc && 0 <= s < mcu_size && 0 <= k < 64
                    ==> #[trigger] out@[mm]@[cc]@[s]@[k] == if in_grid(*geometry, comps[cc], s) {
                    dequantized(
                        mcus@[mm]@[cc]@[s]@[k],
                        tables[comps[cc].quantization_table_selector as int]->0.elements@[k],
                    )
                } else {
                    0
                },
        decreases mcus@.len() - m,
    {
        let mcu = &mcus[m];
        let mut dq_mcu: Vec<Vec<[i16; 64]>> = Vec::new();
        let mut c: usize = 0;
        while c < nc
            invariant
                c <= nc,
                nc == comps.len(),
                comps == frame_components@,
                tables == quantization_tables@,
                quant_tables_defined(comps, tables),
                hmax == geometry.max_horizontal_factor,
                1 <= hmax <= 4,
                *mcu == mcus@[m as int],
                mcu@.len() == nc,
                forall|cc: int| 0 <= cc < nc ==> (#[trigger] mcu@[cc])@.len() == mcu_size,
                dq_mcu@.len() == c,
                forall|cc: int| 0 <= cc < c ==> (#[trigger] dq_mcu@[cc])@.len() == mcu_size,
                forall|cc: int, s: int, k: int|
                    0 <= cc < c && 0 <= s < mcu_size && 0 <= k < 64 ==> #[trigger] dq_mcu@[cc]@[s]@[k]
                        == if in_grid(*geometry, comps[cc], s) {
                        dequantized(
                            mcu@[cc]@[s]@[k],
                            tables[comps[cc].quantization_table_selector as int]->0.elements@[k],
                        )
                    } else {
                        0
                    },
            decreases nc - c,
        {
            let sel = frame_components[c].quantization_table_selector as usize;
            assert(comps[c as int].quantization_table_selector < tables.len());
            let qt = match &quantization_tables[sel] {
                Some(qt) => qt,
                None => {
                    return Err(JpegError::TableError);
                },
            };
            let mut blocks: Vec<[i16; 64]> = Vec::new();
            let mut s: usize = 0;
            while s < mcu_size
                invariant
                    c < nc,
                    mcu@.len() == nc,
                    forall|cc: int| 0 <= cc < nc ==> (#[trigger] mcu@[cc])@.len() == mcu_size,
                    s <= mcu_size,
                    hmax == geometry.max_horizontal_factor,
                    1 <= hmax <= 4,
                    c < comps.len(),
                    comps == frame_components@,
                    blocks@.len() == s,
                    forall|ss: int, k: int|
                        0 <= ss < s && 0 <= k < 64 ==> #[trigger] blocks@[ss]@[k] == if in_grid(
                            *geometry,
                            comps[c as int],
                            ss,
                        ) {
                            dequantized(mcu@[c as int]@[ss]@[k], qt.elements@[k])
                        } else {
                            0
                        },
                decreases mcu_size - s,
            {
                let fc = frame_components[c];
                if s / hmax < fc.vertical_sample_factor as usize && s % hmax
                    < fc.horizontal_sample_factor as usize {
                    let b = dequantize_block(&mcu[c][s], qt);
                    blocks.push(b);
                } else {
                    let zero = [0i16; 64];
                    assert(zero@ =~= Seq::new(64, |_k: int| 0i16));
                    blocks.push(zero);
                }
                s = s + 1;
            }
            dq_mcu.push(blocks);
            c = c + 1;
        }
        out.push(dq_mcu);
        m = m + 1;
    }
    Ok(out)
}

} // verus!
