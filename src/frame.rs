//! A parsed frame, and the decoding of its scan into coefficient blocks, MCU by MCU.
use vstd::prelude::*;
use crate::bit_reader::BitReader;
use crate::entropy::{decode_block, block_decoding};
use crate::error::JpegError;
use crate::huffman::HuffmanTable;
use crate::mcu::McuGeometry;
use crate::segments::{
    ApplicationData, ArithmeticTable, Comment, ExpandReference, FrameComponent, FrameHeader,
    NumberOfLines, QuantizationTable, RestartInterval, ScanHeader, blocks_per_mcu,
    factors_in_range,
};

verus! {

/// A scan: its header and its entropy-coded data, cut at the restart markers.
#[derive(Debug)]
pub struct Scan {
    pub scan_header: ScanHeader,
    /// The entropy-coded segments, with byte stuffing removed; the first begins after the
    /// scan header, each other one after a restart marker.
    pub entropy_coded_segments: Vec<Vec<u8>>,
    /// The number n (0..=7) of the RSTn marker that ends each segment but the last.
    pub restart_markers: Vec<u8>,
}

impl Scan {
    /// One more segment than restart markers.
    pub open spec fn wf(&self) -> bool {
        &&& self.scan_header.wf()
        &&& self.entropy_coded_segments@.len() == self.restart_markers@.len() + 1
    }
}

/// Everything a JPEG stream defines for its frame.
#[derive(Debug)]
pub struct Frame {
    pub frame_header: FrameHeader,
    pub scans: Vec<Scan>,
    pub lines: Option<NumberOfLines>,
    /// The quantization table at each destination 0..=3.
    pub quantization_tables: Vec<Option<QuantizationTable>>,
    /// The DC Huffman table at each destination 0..=3.
    pub dc_huffman_tables: Vec<Option<HuffmanTable>>,
    /// The AC Huffman table at each destination 0..=3.
    pub ac_huffman_tables: Vec<Option<HuffmanTable>>,
    pub arithmetic_tables: Vec<ArithmeticTable>,
    pub restart_interval: Option<RestartInterval>,
    pub comments: Vec<Comment>,
    pub application_data: Vec<ApplicationData>,
    pub expand_reference: Option<ExpandReference>,
}

impl Frame {
    /// A frame that no segment has filled yet: no tables, no scans.
    pub fn new() -> (r: Self)
        ensures
            r.tables_wf(),
            r.scans@.len() == 0,
            r.restart_interval is None,
            r.frame_header.components@.len() == 0,
            forall|k: int| 0 <= k < 4 ==> (#[trigger] r.dc_huffman_tables@[k]) is None,
            forall|k: int| 0 <= k < 4 ==> (#[trigger] r.ac_huffman_tables@[k]) is None,
            forall|k: int| 0 <= k < 4 ==> (#[trigger] r.quantization_tables@[k]) is None,
    {
        let mut quantization_tables: Vec<Option<QuantizationTable>> = Vec::new();
        let mut dc_huffman_tables: Vec<Option<HuffmanTable>> = Vec::new();
        let mut ac_huffman_tables: Vec<Option<HuffmanTable>> = Vec::new();
        let mut i: usize = 0;
        while i < 4
            invariant
                i <= 4,
                quantization_tables@.len() == i,
                dc_huffman_tables@.len() == i,
                ac_huffman_tables@.len() == i,
                forall|k: int| 0 <= k < i ==> (#[trigger] dc_huffman_tables@[k]) is None,
                forall|k: int| 0 <= k < i ==> (#[trigger] ac_huffman_tables@[k]) is None,
                forall|k: int| 0 <= k < i ==> (#[trigger] quantization_tables@[k]) is None,
            decreases 4 - i,
        {
            quantization_tables.push(None);
            dc_huffman_tables.push(None);
            ac_huffman_tables.push(None);
            i = i + 1;
        }
        Frame {
            frame_header: FrameHeader::empty(),
            scans: Vec::new(),
            lines: None,
            quantization_tables,
            dc_huffman_tables,
            ac_huffman_tables,
            arithmetic_tables: Vec::new(),
            restart_interval: None,
            comments: Vec::new(),
            application_data: Vec::new(),
            expand_reference: None,
        }
    }

    /// Four destinations of each kind of table, and every Huffman table well formed.
    pub open spec fn tables_wf(&self) -> bool {
        &&& self.quantization_tables@.len() == 4
        &&& self.dc_huffman_tables@.len() == 4
        &&& self.ac_huffman_tables@.len() == 4
        &&& forall|i: int| 0 <= i < 4 && (#[trigger] self.dc_huffman_tables@[i]) is Some
            ==> self.dc_huffman_tables@[i]->0.wf()
        &&& forall|i: int| 0 <= i < 4 && (#[trigger] self.ac_huffman_tables@[i]) is Some
            ==> self.ac_huffman_tables@[i]->0.wf()
    }

    /// A frame that the parser may return: a baseline header, well-formed tables and scans.
    pub open spec fn wf(&self) -> bool {
        &&& self.frame_header.wf()
        &&& self.tables_wf()
        &&& forall|i: int| 0 <= i < self.scans@.len() ==> (#[trigger] self.scans@[i]).wf()
    }

    /// MCUs per restart interval, 0 where there are no restarts.
    pub open spec fn restart_interval_mcus(&self) -> nat {
        match self.restart_interval {
            Some(ri) => ri.interval as nat,
            None => 0,
        }
    }
}

/// For each block slot of an MCU, the index of the component it belongs to: Hi * Vi slots for
/// each component in turn.
pub open spec fn mcu_layout(comps: Seq<FrameComponent>) -> Seq<usize>
    decreases comps.len(),
{
    if comps.len() == 0 {
        Seq::empty()
    } else {
        let last = comps.last();
        mcu_layout(comps.drop_last()) + Seq::new(
            last.horizontal_sample_factor as nat * last.vertical_sample_factor as nat,
            |_j: int| (comps.len() - 1) as usize,
        )
    }
}

pub proof fn lemma_mcu_layout(comps: Seq<FrameComponent>)
    ensures
        mcu_layout(comps).len() == blocks_per_mcu(comps),
        forall|w: int| 0 <= w < mcu_layout(comps).len() ==> #[trigger] mcu_layout(comps)[w] < comps.len(),
        factors_in_range(comps) && comps.len() > 0 ==> blocks_per_mcu(comps) >= 1,
    decreases comps.len(),
{
    if comps.len() > 0 {
        let rest = comps.drop_last();
        lemma_mcu_layout(rest);
        let last = comps.last();
        assert(last.horizontal_sample_factor as nat * last.vertical_sample_factor as nat >= 0)
            by (nonlinear_arith);
        if factors_in_range(comps) {
            assert(comps[comps.len() - 1] == last);
            assert(last.horizontal_sample_factor as nat * last.vertical_sample_factor as nat >= 1)
                by (nonlinear_arith)
                requires
                    last.horizontal_sample_factor >= 1,
                    last.vertical_sample_factor >= 1,
            ;
        }
    }
}

/// The state of a scan's decoding after some number of blocks: the blocks so far (natural
/// order), the DC predictor of each component, the segment being read and the bit position in it.
pub struct ScanState {
    pub blocks: Seq<Seq<i16>>,
    pub preds: Seq<i16>,
    pub segment: nat,
    pub pos: int,
}

/// Why a frame's scan cannot be decoded before any of its data is read, if it cannot.
/// This decoder handles frames with one scan over all the frame's components, in frame order
/// (one interleaved scan, or the single scan of a one-component frame); frames coded as
/// several scans are refused as unsupported.
pub open spec fn scan_setup_error(frame: Frame) -> Option<JpegError> {
    if frame.scans@.len() == 0 {
        Some(JpegError::FramingError)
    } else if frame.scans@.len() > 1 || !scan_covers_frame(frame) {
        Some(JpegError::UnsupportedFeature)
    } else if !scan_tables_defined(frame) {
        Some(JpegError::TableError)
    } else {
        None
    }
}

/// The first scan holds the frame's components, in the frame's order.
pub open spec fn scan_covers_frame(frame: Frame) -> bool {
    let sc = frame.scans@[0].scan_header.components@;
    let fc = frame.frame_header.components@;
    &&& sc.len() == fc.len()
    &&& forall|i: int| 0 <= i < sc.len() ==> (#[trigger] sc[i]).id == fc[i].id
}

/// Every component of the first scan selects defined DC and AC tables.
pub open spec fn scan_tables_defined(frame: Frame) -> bool {
    let sc = frame.scans@[0].scan_header.components@;
    forall|i: int|
        0 <= i < sc.len() ==> frame.dc_huffman_tables@[(#[trigger] sc[i]).dc_entropy_table_dest as int] is Some
            && frame.ac_huffman_tables@[sc[i].ac_entropy_table_dest as int] is Some
}

/// The state at a restart boundary before MCU `m`: the next segment, which the RSTn marker
/// with n = (m / R - 1) mod 8 must have opened, with every predictor back at 0 and reading
/// from its first bit.
pub open spec fn restart_step(frame: Frame, st: ScanState, m: nat) -> Result<ScanState, JpegError> {
    let scan = frame.scans@[0];
    let r = frame.restart_interval_mcus();
    let seg = st.segment + 1;
    if seg >= scan.entropy_coded_segments@.len() || scan.restart_markers@[st.segment as int] != ((
    m / r - 1) % 8) as u8 {
        Err(JpegError::RestartError)
    } else {
        Ok(ScanState { blocks: st.blocks, preds: Seq::new(st.preds.len(), |_i: int| 0i16), segment: seg, pos: 0 })
    }
}

/// A restart comes before block `b`: the first block of an MCU whose index is a positive
/// multiple of the restart interval.
pub open spec fn restart_due(r: nat, bpm: nat, b: nat) -> bool {
    &&& r > 0
    &&& b % bpm == 0
    &&& (b / bpm) % r == 0
    &&& b / bpm > 0
}

/// The state in which block `b` is decoded: after a restart where one is due.
pub open spec fn state_before_block(frame: Frame, layout: Seq<usize>, st: ScanState, b: nat) -> Result<
    ScanState,
    JpegError,
> {
    if restart_due(frame.restart_interval_mcus(), layout.len(), b) {
        restart_step(frame, st, b / layout.len())
    } else {
        Ok(st)
    }
}

/// Decoding block `b`, which belongs to the component that slot `b mod layout.len()` names.
#[verifier::opaque]
pub open spec fn block_step(frame: Frame, layout: Seq<usize>, st: ScanState, b: nat) -> Result<
    ScanState,
    JpegError,
> {
    match state_before_block(frame, layout, st, b) {
        Err(e) => Err(e),
        Ok(s) => {
            let scan = frame.scans@[0];
            let c = layout[(b % layout.len()) as int] as int;
            let sc = scan.scan_header.components@[c];
            let dc = frame.dc_huffman_tables@[sc.dc_entropy_table_dest as int]->0;
            let ac = frame.ac_huffman_tables@[sc.ac_entropy_table_dest as int]->0;
            match block_decoding(
                dc,
                ac,
                scan.entropy_coded_segments@[s.segment as int]@,
                s.pos,
                s.preds[c] as int,
            ) {
                None => Err(JpegError::BitstreamError),
                Some((blk, p, _e)) => Ok(
                    ScanState {
                        blocks: s.blocks.push(blk),
                        preds: s.preds.update(c, blk[0]),
                        segment: s.segment,
                        pos: p,
                    },
                ),
            }
        },
    }
}

/// The state after the first `b` blocks of the scan.
pub open spec fn scan_state(frame: Frame, layout: Seq<usize>, b: nat) -> Result<ScanState, JpegError>
    decreases b,
{
    if b == 0 {
        Ok(
            ScanState {
                blocks: Seq::empty(),
                preds: Seq::new(frame.frame_header.components@.len(), |_i: int| 0i16),
                segment: 0,
                pos: 0,
            },
        )
    } else {
        match scan_state(frame, layout, (b - 1) as nat) {
            Err(e) => Err(e),
            Ok(st) => block_step(frame, layout, st, (b - 1) as nat),
        }
    }
}

/// The natural-order coefficients of each block.
pub open spec fn blocks_view(blocks: Seq<[i16; 64]>) -> Seq<Seq<i16>> {
    blocks.map_values(|b: [i16; 64]| b@)
}

/// After `b` blocks, `b` blocks have been emitted.
pub proof fn lemma_scan_state_len(frame: Frame, layout: Seq<usize>, b: nat)
    requires
        scan_state(frame, layout, b) is Ok,
    ensures
        scan_state(frame, layout, b)->Ok_0.blocks.len() == b,
    decreases b,
{
    reveal(block_step);
    if b > 0 {
        lemma_scan_state_len(frame, layout, (b - 1) as nat);
    }
}

/// Each MCU adds exactly the sum of Hi * Vi over the components to the blocks emitted.
pub proof fn lemma_blocks_per_mcu_emitted(frame: Frame, m: nat)
    requires
        scan_state(frame, mcu_layout(frame.frame_header.components@), (m + 1) * blocks_per_mcu(
            frame.frame_header.components@,
        )) is Ok,
    ensures
        ({
            let layout = mcu_layout(frame.frame_header.components@);
            let bpm = blocks_per_mcu(frame.frame_header.components@);
            scan_state(frame, layout, (m + 1) * bpm)->Ok_0.blocks.len() - scan_state(frame, layout, m * bpm)->Ok_0.blocks.len() == bpm
        }),
{
    let layout = mcu_layout(frame.frame_header.components@);
    let bpm = blocks_per_mcu(frame.frame_header.components@);
    assert((m + 1) * bpm == m * bpm + bpm) by (nonlinear_arith);
    lemma_scan_state_ok_prefix(frame, layout, m * bpm, (m + 1) * bpm);
    lemma_scan_state_len(frame, layout, (m + 1) * bpm);
    lemma_scan_state_len(frame, layout, m * bpm);
}

pub proof fn lemma_scan_state_ok_prefix(frame: Frame, layout: Seq<usize>, a: nat, b: nat)
    requires
        a <= b,
        scan_state(frame, layout, b) is Ok,
    ensures
        scan_state(frame, layout, a) is Ok,
    decreases b - a,
{
    if a < b {
        lemma_scan_state_ok_prefix(frame, layout, (a + 1) as nat, b);
    }
}

/// At a restart boundary the block is decoded with every DC predictor at 0, from the first
/// bit of a new segment, which is byte-aligned.
pub proof fn lemma_restart_resets(frame: Frame, layout: Seq<usize>, st: ScanState, b: nat)
    requires
        layout.len() > 0,
        restart_due(frame.restart_interval_mcus(), layout.len(), b),
        state_before_block(frame, layout, st, b) is Ok,
    ensures
        ({
            let s = state_before_block(frame, layout, st, b)->Ok_0;
            &&& forall|c: int| 0 <= c < s.preds.len() ==> s.preds[c] == 0
            &&& s.preds.len() == st.preds.len()
            &&& s.pos == 0
            &&& s.pos % 8 == 0
            &&& s.segment == st.segment + 1
        }),
{
}

/// The component index of each block slot of an MCU: Hi * Vi slots per component, in turn.
pub fn block_layout(comps: &Vec<FrameComponent>) -> (r: Vec<usize>)
    requires
        comps@.len() <= 4,
        factors_in_range(comps@),
    ensures
        r@ == mcu_layout(comps@),
{
    let mut layout: Vec<usize> = Vec::new();
    let mut c: usize = 0;
    while c < comps.len()
        invariant
            c <= comps@.len() <= 4,
            factors_in_range(comps@),
            layout@ == mcu_layout(comps@.subrange(0, c as int)),
        decreases comps@.len() - c,
    {
        let h = comps[c].horizontal_sample_factor as usize;
        let v = comps[c].vertical_sample_factor as usize;
        assert(1 <= comps@[c as int].horizontal_sample_factor <= 4);
        assert(h * v <= 16) by (nonlinear_arith)
            requires
                h <= 4,
                v <= 4,
        ;
        let n = h * v;
        let ghost before = layout@;
        let mut j: usize = 0;
        while j < n
            invariant
                j <= n,
                layout@ == before + Seq::new(j as nat, |_k: int| c),
            decreases n - j,
        {
            layout.push(c);
            j = j + 1;
            assert(layout@ =~= before + Seq::new(j as nat, |_k: int| c));
        }
        let ghost pre = comps@.subrange(0, (c + 1) as int);
        assert(pre.drop_last() =~= comps@.subrange(0, c as int));
        assert(pre.last() == comps@[c as int]);
        assert(layout@ =~= mcu_layout(pre));
        c = c + 1;
    }
    assert(comps@.subrange(0, comps@.len() as int) =~= comps@);
    layout
}

proof fn lemma_div_mod_slot(m: nat, w: nat, bpm: nat)
    requires
        w < bpm,
    ensures
        ((m * bpm + w) as nat) / bpm == m,
        ((m * bpm + w) as nat) % bpm == w,
{
    vstd::arithmetic::div_mod::lemma_fundamental_div_mod_converse(
        (m * bpm + w) as int,
        bpm as int,
        m as int,
        w as int,
    );
}


/// Checks that the frame has one scan, over the frame's components in order, whose
/// Huffman tables are all defined.
pub fn check_scan_setup(frame: &Frame) -> (r: Result<(), JpegError>)
    requires
        frame.wf(),
    ensures
        match scan_setup_error(*frame) {
            Some(e) => r == Err::<(), JpegError>(e),
            None => r is Ok,
        },
{
    if frame.scans.len() == 0 {
        return Err(JpegError::FramingError);
    }
    if frame.scans.len() > 1 {
        return Err(JpegError::UnsupportedFeature);
    }
    let scan = &frame.scans[0];
    let comps = &frame.frame_header.components;
    let scomps = &scan.scan_header.components;
    assert(frame.scans@[0].wf());
    if scomps.len() != comps.len() {
        return Err(JpegError::UnsupportedFeature);
    }
    let mut i: usize = 0;
    while i < comps.len()
        invariant
            i <= comps@.len(),
            frame.scans@.len() == 1,
            scomps@.len() == comps@.len(),
            scomps@ == frame.scans@[0].scan_header.components@,
            comps@ == frame.frame_header.components@,
            forall|k: int| 0 <= k < i ==> (#[trigger] scomps@[k]).id == comps@[k].id,
        decreases comps@.len() - i,
    {
        if scomps[i].id != comps[i].id {
            assert(!scan_covers_frame(*frame)) by {
                assert(scomps@[i as int].id != comps@[i as int].id);
            }
            return Err(JpegError::UnsupportedFeature);
        }
        i = i + 1;
    }
    assert(scan_covers_frame(*frame));
    let mut t: usize = 0;
    while t < scomps.len()
        invariant
            t <= scomps@.len(),
            frame.scans@.len() == 1,
            scan_covers_frame(*frame),
            frame.tables_wf(),
            frame.scans@[0].scan_header.wf(),
            scomps@ == frame.scans@[0].scan_header.components@,
            forall|k: int|
                0 <= k < t ==> frame.dc_huffman_tables@[(#[trigger] scomps@[k]).dc_entropy_table_dest as int] is Some
                    && frame.ac_huffman_tables@[scomps@[k].ac_entropy_table_dest as int] is Some,
        decreases scomps@.len() - t,
    {
        assert(scomps@[t as int].dc_entropy_table_dest <= 3);
        if frame.dc_huffman_tables[scomps[t].dc_entropy_table_dest as usize].is_none()
            || frame.ac_huffman_tables[scomps[t].ac_entropy_table_dest as usize].is_none() {
            assert(!scan_tables_defined(*frame)) by {
                assert(scomps@[t as int] == frame.scans@[0].scan_header.components@[t as int]);
            }
            return Err(JpegError::TableError);
        }
        t = t + 1;
    }
    Ok(())
}

/// What holds of a scan's decoding between blocks: the exec state is the state `scan_state`
/// gives after `b` blocks.
pub open spec fn decoding_at(
    frame: Frame,
    lay: Seq<usize>,
    b: nat,
    seg: usize,
    reader: BitReader,
    preds: Seq<i16>,
    blocks: Seq<[i16; 64]>,
) -> bool {
    let scan = frame.scans@[0];
    &&& reader.wf()
    &&& seg < scan.entropy_coded_segments@.len()
    &&& reader.data@ == scan.entropy_coded_segments@[seg as int]@
    &&& preds.len() == frame.frame_header.components@.len()
    &&& blocks.len() == b
    &&& scan_state(frame, lay, b) == Ok::<ScanState, JpegError>(
        ScanState { blocks: blocks_view(blocks), preds, segment: seg as nat, pos: reader.pos() },
    )
}

/// Before block `m * bpm + w`: where a restart is due, checks the RSTn marker, moves to the
/// next segment and resets every predictor.
fn restart_if_due(
    frame: &Frame,
    bpm: usize,
    m: usize,
    w: usize,
    interval: usize,
    seg: &mut usize,
    reader: &mut BitReader,
    preds: &mut Vec<i16>,
    blocks: &Vec<[i16; 64]>,
) -> (r: Result<(), JpegError>)
    requires
        frame.wf(),
        scan_setup_error(*frame) is None,
        mcu_layout(frame.frame_header.components@).len() == bpm,
        w < bpm,
        interval == frame.restart_interval_mcus(),
        m * bpm + w < 8192 * 8192 * 10,
        decoding_at(*frame, mcu_layout(frame.frame_header.components@), (m * bpm + w) as nat, *old(seg), *old(reader), old(preds)@, blocks@),
    ensures
        ({
            let lay = mcu_layout(frame.frame_header.components@);
            let b = (m * bpm + w) as nat;
            let st = scan_state(*frame, lay, b)->Ok_0;
            let scan = frame.scans@[0];
            match state_before_block(*frame, lay, st, b) {
                Err(e) => r == Err::<(), JpegError>(e),
                Ok(s) => {
                    &&& r is Ok
                    &&& final(reader).wf()
                    &&& *final(seg) < scan.entropy_coded_segments@.len()
                    &&& final(reader).data@ == scan.entropy_coded_segments@[*final(seg) as int]@
                    &&& s == ScanState { blocks: blocks_view(blocks@), preds: final(preds)@, segment: *final(seg) as nat, pos: final(reader).pos() }
                },
            }
        }),
{
    let ghost lay = mcu_layout(frame.frame_header.components@);
    let ghost b: nat = (m * bpm + w) as nat;
    let ghost st = scan_state(*frame, lay, b)->Ok_0;
    proof {
        lemma_div_mod_slot(m as nat, w as nat, bpm as nat);
        assert(frame.scans@[0].wf());
    }
    let scan = &frame.scans[0];
    let nseg = scan.entropy_coded_segments.len();
    assert(*seg < nseg);
    if interval > 0 && w == 0 && m % interval == 0 && m > 0 {
        proof {
            vstd::arithmetic::div_mod::lemma_fundamental_div_mod(m as int, interval as int);
            assert(m / interval >= 1) by (nonlinear_arith)
                requires
                    m == interval * (m / interval) + m % interval,
                    m % interval == 0,
                    m > 0,
                    interval > 0,
            ;
        }
        if *seg + 1 >= nseg {
            return Err(JpegError::RestartError);
        }
        let expected = ((m / interval - 1) % 8) as u8;
        if scan.restart_markers[*seg] != expected {
            return Err(JpegError::RestartError);
        }
        *seg = *seg + 1;
        *reader = BitReader::new(&scan.entropy_coded_segments[*seg]);
        let mut z: usize = 0;
        while z < preds.len()
            invariant
                z <= preds@.len(),
                preds@.len() == old(preds)@.len(),
                forall|k: int| 0 <= k < z ==> preds@[k] == 0,
            decreases preds@.len() - z,
        {
            preds.set(z, 0);
            z = z + 1;
        }
        assert(preds@ =~= Seq::new(st.preds.len(), |_i: int| 0i16));
    }
    Ok(())
}

/// One step of the scan: the restart where one is due, then the block of slot `b mod len`.
proof fn lemma_block_step(frame: Frame, layout: Seq<usize>, st: ScanState, b: nat)
    ensures
        match state_before_block(frame, layout, st, b) {
            Err(e) => block_step(frame, layout, st, b) == Err::<ScanState, JpegError>(e),
            Ok(s) => {
                let scan = frame.scans@[0];
                let c = layout[(b % layout.len()) as int] as int;
                let sc = scan.scan_header.components@[c];
                let dc = frame.dc_huffman_tables@[sc.dc_entropy_table_dest as int]->0;
                let ac = frame.ac_huffman_tables@[sc.ac_entropy_table_dest as int]->0;
                block_step(frame, layout, st, b) == match block_decoding(
                    dc,
                    ac,
                    scan.entropy_coded_segments@[s.segment as int]@,
                    s.pos,
                    s.preds[c] as int,
                ) {
                    None => Err(JpegError::BitstreamError),
                    Some((blk, p, _e)) => Ok(
                        ScanState {
                            blocks: s.blocks.push(blk),
                            preds: s.preds.update(c, blk[0]),
                            segment: s.segment,
                            pos: p,
                        },
                    ),
                }
            },
        },
{
    reveal(block_step);
}

/// Decodes block `m * bpm + w` of the scan: the restart before it where one is due, then the
/// block of the component that slot `w` names.
#[verifier::rlimit(100)]
fn decode_slot(
    frame: &Frame,
    layout: &Vec<usize>,
    m: usize,
    w: usize,
    interval: usize,
    seg: &mut usize,
    reader: &mut BitReader,
    preds: &mut Vec<i16>,
    blocks: &mut Vec<[i16; 64]>,
) -> (r: Result<(), JpegError>)
    requires
        frame.wf(),
        scan_setup_error(*frame) is None,
        layout@ == mcu_layout(frame.frame_header.components@),
        forall|k: int| 0 <= k < layout@.len() ==> #[trigger] layout@[k] < frame.frame_header.components@.len(),
        w < layout@.len(),
        interval == frame.restart_interval_mcus(),
        m * layout@.len() + w < 8192 * 8192 * 10,
        decoding_at(*frame, layout@, (m * layout@.len() + w) as nat, *old(seg), *old(reader), old(preds)@, old(blocks)@),
    ensures
        ({
            let b = (m * layout@.len() + w) as nat;
            let st = scan_state(*frame, layout@, b)->Ok_0;
            match block_step(*frame, layout@, st, b) {
                Err(e) => r == Err::<(), JpegError>(e),
                Ok(_) => r is Ok && decoding_at(*frame, layout@, b + 1, *final(seg), *final(reader), final(preds)@, final(blocks)@),
            }
        }),
{
    let ghost lay = layout@;
    let bpm = layout.len();
    let ghost b: nat = (m * bpm + w) as nat;
    let ghost st = scan_state(*frame, lay, b)->Ok_0;
    proof {
        lemma_div_mod_slot(m as nat, w as nat, bpm as nat);
        assert(frame.scans@[0].wf());
    }
    proof {
        lemma_block_step(*frame, lay, st, b);
    }
    match restart_if_due(frame, bpm, m, w, interval, seg, reader, preds, blocks) {
        Ok(()) => {},
        Err(e) => {
            return Err(e);
        },
    }
    let ghost s = state_before_block(*frame, lay, st, b)->Ok_0;
    let scan = &frame.scans[0];
    let c = layout[w];
    let scomps = &scan.scan_header.components;
    assert(scomps@.len() == frame.frame_header.components@.len());
    let sc = &scomps[c];
    assert(scan_tables_defined(*frame));
    assert(frame.dc_huffman_tables@[scomps@[c as int].dc_entropy_table_dest as int] is Some);
    let dc = match &frame.dc_huffman_tables[sc.dc_entropy_table_dest as usize] {
        Some(t) => t,
        None => {
            return Err(JpegError::TableError);
        },
    };
    let ac = match &frame.ac_huffman_tables[sc.ac_entropy_table_dest as usize] {
        Some(t) => t,
        None => {
            return Err(JpegError::TableError);
        },
    };
    let block = match decode_block(preds[c], reader, dc, ac) {
        Ok(block) => block,
        Err(e) => {
            return Err(e);
        },
    };
    preds.set(c, block[0]);
    blocks.push(block);
    assert(blocks_view(blocks@) =~= s.blocks.push(block@));
    Ok(())
}

/// Decodes the frame's scan into coefficient blocks (natural order): MCU by MCU, and within
/// an MCU the Hi * Vi blocks of each component in turn, restarting where the restart interval
/// says.
pub fn decode_huffman_to_blocks(frame: &Frame, geometry: &McuGeometry) -> (r: Result<
    Vec<[i16; 64]>,
    JpegError,
>)
    requires
        frame.wf(),
        geometry.of(frame.frame_header),
        geometry.wf(),
    ensures
        match scan_setup_error(*frame) {
            Some(e) => r == Err::<Vec<[i16; 64]>, JpegError>(e),
            None => match scan_state(
                *frame,
                mcu_layout(frame.frame_header.components@),
                geometry.total() * blocks_per_mcu(frame.frame_header.components@),
            ) {
                Err(e) => r == Err::<Vec<[i16; 64]>, JpegError>(e),
                Ok(st) => r matches Ok(blocks) && blocks_view(blocks@) == st.blocks,
            },
        },
        r matches Ok(blocks) ==> blocks@.len() == geometry.total() * blocks_per_mcu(
            frame.frame_header.components@,
        ),
{
    match check_scan_setup(frame) {
        Ok(()) => {},
        Err(e) => {
            return Err(e);
        },
    }
    let comps = &frame.frame_header.components;
    let layout = block_layout(comps);
    let ghost lay = layout@;
    proof {
        lemma_mcu_layout(comps@);
        assert(frame.scans@[0].wf());
    }
    let bpm = layout.len();
    assert(geometry.mcus_x * geometry.mcus_y <= 8192 * 8192) by (nonlinear_arith)
        requires
            geometry.mcus_x <= 8192,
            geometry.mcus_y <= 8192,
    ;
    let total = geometry.mcus_x * geometry.mcus_y;
    let interval: usize = match &frame.restart_interval {
        Some(ri) => ri.interval as usize,
        None => 0,
    };
    let mut blocks: Vec<[i16; 64]> = Vec::new();
    let mut preds: Vec<i16> = Vec::new();
    let mut c: usize = 0;
    while c < comps.len()
        invariant
            c <= comps@.len(),
            preds@ == Seq::new(c as nat, |_i: int| 0i16),
        decreases comps@.len() - c,
    {
        preds.push(0);
        c = c + 1;
        assert(preds@ =~= Seq::new(c as nat, |_i: int| 0i16));
    }
    let scan = &frame.scans[0];
    let mut seg: usize = 0;
    let mut reader = BitReader::new(&scan.entropy_coded_segments[0]);
    assert(blocks_view(blocks@) =~= Seq::<Seq<i16>>::empty());
    let mut m: usize = 0;
    while m < total
        invariant
            frame.wf(),
            scan_setup_error(*frame) is None,
            lay == layout@,
            lay == mcu_layout(frame.frame_header.components@),
            bpm == lay.len(),
            bpm == blocks_per_mcu(frame.frame_header.components@),
            1 <= bpm <= 10,
            forall|k: int| 0 <= k < lay.len() ==> #[trigger] lay[k] < frame.frame_header.components@.len(),
            total == geometry.total(),
            total <= 8192 * 8192,
            interval == frame.restart_interval_mcus(),
            m <= total,
            decoding_at(*frame, lay, (m * bpm) as nat, seg, reader, preds@, blocks@),
        decreases total - m,
    {
        let mut w: usize = 0;
        while w < bpm
            invariant
                frame.wf(),
                scan_setup_error(*frame) is None,
                lay == layout@,
                lay == mcu_layout(frame.frame_header.components@),
                bpm == lay.len(),
                1 <= bpm <= 10,
                forall|k: int| 0 <= k < lay.len() ==> #[trigger] lay[k] < frame.frame_header.components@.len(),
                total <= 8192 * 8192,
                total == geometry.total(),
                bpm == blocks_per_mcu(frame.frame_header.components@),
                interval == frame.restart_interval_mcus(),
                m < total,
                w <= bpm,
                decoding_at(*frame, lay, (m * bpm + w) as nat, seg, reader, preds@, blocks@),
            decreases bpm - w,
        {
            proof {
                assert(m * bpm + w < 8192 * 8192 * 10) by (nonlinear_arith)
                    requires
                        m < total,
                        w < bpm,
                        total <= 8192 * 8192,
                        bpm <= 10,
                ;
            }
            let res = decode_slot(frame, &layout, m, w, interval, &mut seg, &mut reader, &mut preds, &mut blocks);
            match res {
                Ok(()) => {},
                Err(e) => {
                    proof {
                        let b = (m * bpm + w) as nat;
                        assert(m * bpm + w + 1 <= total * bpm) by (nonlinear_arith)
                            requires
                                m < total,
                                w < bpm,
                        ;
                        assert(scan_state(*frame, lay, b + 1) is Err);
                        lemma_scan_state_err_stays(*frame, lay, b + 1, (total * bpm) as nat);
                    }
                    return Err(e);
                },
            }
            w = w + 1;
        }
        assert((m + 1) * bpm == m * bpm + bpm) by (nonlinear_arith);
        m = m + 1;
    }
    Ok(blocks)
}

/// An error stays the outcome of the scan from the block where it arose.
pub proof fn lemma_scan_state_err_stays(frame: Frame, layout: Seq<usize>, a: nat, b: nat)
    requires
        a <= b,
        scan_state(frame, layout, a) is Err,
    ensures
        scan_state(frame, layout, b) == scan_state(frame, layout, a),
    decreases b - a,
{
    if a < b {
        lemma_scan_state_err_stays(frame, layout, a, (b - 1) as nat);
    }
}

} // verus!
