//! The segment framer: splits a JPEG byte stream into marker segments and scan data.
use vstd::prelude::*;
use crate::error::JpegError;
use crate::frame::{Frame, Scan};
use crate::entropy::{lemma_zigzag_bijection, unzigzag, zigzag};
use crate::huffman::{HuffmanTable, count_upto, dht_table_valid};
use crate::segments::{
    be16, frame_components, frame_header_error, scan_components, scan_header_error,
    ApplicationData, ArithmeticTable, Comment, ExpandReference, FrameHeader, NumberOfLines,
    QuantizationTable, RestartInterval, ScanHeader,
};

verus! {

/// Start of image.
pub const SOI: u8 = 0xd8;
/// End of image.
pub const EOI: u8 = 0xd9;
/// Start of scan.
pub const SOS: u8 = 0xda;
/// Define Huffman tables.
pub const DHT: u8 = 0xc4;
/// Define quantization tables.
pub const DQT: u8 = 0xdb;
/// Define restart interval.
pub const DRI: u8 = 0xdd;
/// Define number of lines.
pub const DNL: u8 = 0xdc;
/// Define hierarchical progression.
pub const DHP: u8 = 0xde;
/// Expand reference components.
pub const EXP: u8 = 0xdf;
/// Define arithmetic coding conditioning.
pub const DAC: u8 = 0xcc;
/// Comment.
pub const COM: u8 = 0xfe;
/// Temporary private use in arithmetic coding.
pub const TEM: u8 = 0x01;
/// First restart marker, RST0.
pub const RST0: u8 = 0xd0;
/// Last restart marker, RST7.
pub const RST7: u8 = 0xd7;

/// The position after the 0xFF fill bytes that start at `i`.
pub open spec fn fill_end(b: Seq<u8>, i: int) -> int
    decreases b.len() - i,
{
    if 0 <= i < b.len() && b[i] == 0xff {
        fill_end(b, i + 1)
    } else {
        i
    }
}

/// The marker at `pos`: a 0xFF, any further 0xFF bytes, then the marker code; the code and
/// the position after it.
pub open spec fn marker_at(b: Seq<u8>, pos: int) -> Result<(u8, int), JpegError> {
    if pos < 0 || pos >= b.len() || b[pos] != 0xff {
        Err(JpegError::FramingError)
    } else {
        let j = fill_end(b, pos + 1);
        if j >= b.len() {
            Err(JpegError::FramingError)
        } else {
            Ok((b[j], j + 1))
        }
    }
}

/// Reads the marker at `pos`, collapsing runs of 0xFF into one prefix.
pub fn read_marker(bytes: &Vec<u8>, pos: usize) -> (r: Result<(u8, usize), JpegError>)
    ensures
        match marker_at(bytes@, pos as int) {
            Err(e) => r == Err::<(u8, usize), JpegError>(e),
            Ok((code, next)) => r matches Ok((c, n)) && c == code && n == next,
        },
        r matches Ok((_c, n)) ==> pos < n <= bytes@.len(),
{
    if pos >= bytes.len() || bytes[pos] != 0xff {
        return Err(JpegError::FramingError);
    }
    let mut j: usize = pos + 1;
    while j < bytes.len() && bytes[j] == 0xff
        invariant
            pos < j <= bytes@.len(),
            fill_end(bytes@, pos + 1) == fill_end(bytes@, j as int),
        decreases bytes@.len() - j,
    {
        j = j + 1;
    }
    if j >= bytes.len() {
        return Err(JpegError::FramingError);
    }
    Ok((bytes[j], j + 1))
}

/// The payload of the length-prefixed segment whose length field is at `pos`, and the
/// position after it.
pub open spec fn segment_at(b: Seq<u8>, pos: int) -> Result<(Seq<u8>, int), JpegError> {
    if pos < 0 || pos + 2 > b.len() {
        Err(JpegError::FramingError)
    } else {
        let len = be16(b[pos], b[pos + 1]) as int;
        if len < 2 || pos + len > b.len() {
            Err(JpegError::FramingError)
        } else {
            Ok((b.subrange(pos + 2, pos + len), pos + len))
        }
    }
}

/// Reads a big-endian length field, which counts itself, and the payload it announces.
pub fn read_segment(bytes: &Vec<u8>, pos: usize) -> (r: Result<(Vec<u8>, usize), JpegError>)
    ensures
        match segment_at(bytes@, pos as int) {
            Err(e) => r == Err::<(Vec<u8>, usize), JpegError>(e),
            Ok((payload, next)) => r matches Ok((p, n)) && p@ == payload && n == next,
        },
        r matches Ok((p, n)) ==> pos < n <= bytes@.len() && p@.len() + 2 == n - pos,
{
    if pos >= bytes.len() || bytes.len() - pos < 2 {
        return Err(JpegError::FramingError);
    }
    let len = crate::segments::u16_from_be(bytes[pos], bytes[pos + 1]) as usize;
    if len < 2 || len > bytes.len() - pos {
        return Err(JpegError::FramingError);
    }
    let mut payload: Vec<u8> = Vec::new();
    let end = pos + len;
    let mut k: usize = pos + 2;
    while k < end
        invariant
            end == pos + len,
            pos + 2 <= k <= pos + len <= bytes@.len(),
            payload@ == bytes@.subrange(pos + 2, k as int),
        decreases pos + len - k,
    {
        payload.push(bytes[k]);
        k = k + 1;
        assert(payload@ =~= bytes@.subrange(pos + 2, k as int));
    }
    Ok((payload, pos + len))
}

/// Appends a byte to the last segment.
pub open spec fn push_last(segs: Seq<Seq<u8>>, v: u8) -> Seq<Seq<u8>> {
    segs.update(segs.len() - 1, segs.last().push(v))
}

/// The entropy-coded data from `i` on. Bytes other than 0xFF are data. A 0xFF is followed
/// by further 0xFF fill bytes and then: 0x00, which makes the 0xFF a data byte; an RSTn code,
/// which closes the segment and records n; or the code of the marker that ends the scan.
/// The result is the segments, the restart numbers, that code and the position after it.
pub open spec fn entropy_data(b: Seq<u8>, i: int, after_ff: bool, segs: Seq<Seq<u8>>, marks: Seq<u8>) -> Result<
    (Seq<Seq<u8>>, Seq<u8>, u8, int),
    JpegError,
>
    decreases b.len() - i,
{
    if i < 0 || i >= b.len() {
        Err(JpegError::FramingError)
    } else if !after_ff {
        if b[i] == 0xff {
            entropy_data(b, i + 1, true, segs, marks)
        } else {
            entropy_data(b, i + 1, false, push_last(segs, b[i]), marks)
        }
    } else if b[i] == 0xff {
        entropy_data(b, i + 1, true, segs, marks)
    } else if b[i] == 0 {
        entropy_data(b, i + 1, false, push_last(segs, 0xff), marks)
    } else if RST0 <= b[i] <= RST7 {
        entropy_data(b, i + 1, false, segs.push(Seq::empty()), marks.push((b[i] - RST0) as u8))
    } else {
        Ok((segs, marks, b[i], i + 1))
    }
}

/// Reads the entropy-coded data of a scan that starts at `pos`, removing byte stuffing and
/// cutting it at the restart markers; returns the segments, the number of each restart marker,
/// the code of the marker that follows the scan and the position after that code.
pub fn read_entropy_data(bytes: &Vec<u8>, pos: usize) -> (r: Result<(Vec<Vec<u8>>, Vec<u8>, u8, usize), JpegError>)
    ensures
        match entropy_data(bytes@, pos as int, false, seq![Seq::<u8>::empty()], Seq::empty()) {
            Err(e) => r == Err::<(Vec<Vec<u8>>, Vec<u8>, u8, usize), JpegError>(e),
            Ok((segs, marks, code, next)) => {
                &&& r is Ok
                &&& r->Ok_0.0@.len() == segs.len()
                &&& forall|k: int| 0 <= k < segs.len() ==> #[trigger] r->Ok_0.0@[k]@ == segs[k]
                &&& r->Ok_0.1@ == marks
                &&& r->Ok_0.2 == code
                &&& r->Ok_0.3 == next
            },
        },
        r matches Ok((s, m, _c, n)) ==> s@.len() == m@.len() + 1 && pos < n <= bytes@.len(),
{
    let ghost start = entropy_data(bytes@, pos as int, false, seq![Seq::<u8>::empty()], Seq::empty());
    let mut segs: Vec<Vec<u8>> = Vec::new();
    segs.push(Vec::new());
    let mut marks: Vec<u8> = Vec::new();
    let mut after_ff = false;
    let mut i: usize = pos;
    proof {
        assert(segs@.map_values(|v: Vec<u8>| v@) =~= seq![Seq::<u8>::empty()]);
    }
    while i < bytes.len()
        invariant
            segs@.len() >= 1,
            pos <= i,
            segs@.len() == marks@.len() + 1,
            start == entropy_data(bytes@, pos as int, false, seq![Seq::<u8>::empty()], Seq::empty()),
            start == entropy_data(bytes@, i as int, after_ff, segs@.map_values(|v: Vec<u8>| v@), marks@),
        decreases bytes@.len() - i,
    {
        let b = bytes[i];
        let ghost sv = segs@.map_values(|v: Vec<u8>| v@);
        if !after_ff && b != 0xff {
            let last = segs.len() - 1;
            let mut seg = segs.remove(last);
            seg.push(b);
            segs.push(seg);
            assert(segs@.map_values(|v: Vec<u8>| v@) =~= push_last(sv, b));
        } else if b == 0xff {
            after_ff = true;
        } else if after_ff && b == 0 {
            let last = segs.len() - 1;
            let mut seg = segs.remove(last);
            seg.push(0xff);
            segs.push(seg);
            after_ff = false;
            assert(segs@.map_values(|v: Vec<u8>| v@) =~= push_last(sv, 0xff));
        } else if RST0 <= b && b <= RST7 {
            segs.push(Vec::new());
            marks.push(b - RST0);
            after_ff = false;
            assert(segs@.map_values(|v: Vec<u8>| v@) =~= sv.push(Seq::empty()));
        } else {
            assert forall|k: int| 0 <= k < sv.len() implies #[trigger] segs@[k]@ == sv[k] by {}
            assert(after_ff);
            assert(start == Ok::<(Seq<Seq<u8>>, Seq<u8>, u8, int), JpegError>((sv, marks@, b, i + 1)));
            return Ok((segs, marks, b, i + 1));
        }
        i = i + 1;
    }
    Err(JpegError::FramingError)
}

/// What a frame holds of a Huffman table: its counts per length and its symbol values.
pub open spec fn huff_views(ts: Seq<Option<HuffmanTable>>) -> Seq<Option<(Seq<u8>, Seq<u8>)>> {
    ts.map_values(
        |o: Option<HuffmanTable>|
            match o {
                Some(t) => Some((t.huffman_size_lengths@, t.huffman_values@)),
                None => None,
            },
    )
}

/// What a frame holds of a quantization table: its steps in natural order.
pub open spec fn quant_views(ts: Seq<Option<QuantizationTable>>) -> Seq<Option<Seq<u8>>> {
    ts.map_values(
        |o: Option<QuantizationTable>|
            match o {
                Some(t) => Some(t.elements@),
                None => None,
            },
    )
}

/// The DC and AC tables after the tables of a DHT payload from `pos` on: each table is its
/// class and destination byte, 16 counts and as many symbol values as the counts add up to,
/// and replaces the table at its class and destination.
pub open spec fn dht_apply(
    p: Seq<u8>,
    pos: int,
    dc: Seq<Option<(Seq<u8>, Seq<u8>)>>,
    ac: Seq<Option<(Seq<u8>, Seq<u8>)>>,
) -> Result<(Seq<Option<(Seq<u8>, Seq<u8>)>>, Seq<Option<(Seq<u8>, Seq<u8>)>>), JpegError>
    decreases p.len() - pos,
{
    if pos < 0 || pos >= p.len() {
        Ok((dc, ac))
    } else if p.len() - pos < 17 {
        Err(JpegError::FramingError)
    } else {
        let n = 17 + count_upto(p.subrange(pos + 1, pos + 17), 16);
        if n > p.len() - pos {
            Err(JpegError::FramingError)
        } else {
            let chunk = p.subrange(pos, pos + n);
            if !dht_table_valid(n as u16, chunk) {
                Err(JpegError::TableError)
            } else {
                let view = Some((chunk.subrange(1, 17), chunk.subrange(17, n as int)));
                let d = (chunk[0] % 16) as int;
                if chunk[0] / 16 == 0 {
                    dht_apply(p, pos + n, dc.update(d, view), ac)
                } else {
                    dht_apply(p, pos + n, dc, ac.update(d, view))
                }
            }
        }
    }
}

/// The quantization tables after the tables of a DQT payload from `pos` on: each is its
/// precision and destination byte and 64 steps in zigzag order, and replaces the table at
/// its destination.
pub open spec fn dqt_apply(p: Seq<u8>, pos: int, q: Seq<Option<Seq<u8>>>) -> Result<Seq<Option<Seq<u8>>>, JpegError>
    decreases p.len() - pos,
{
    if pos < 0 || pos >= p.len() {
        Ok(q)
    } else if p[pos] / 16 != 0 {
        Err(JpegError::UnsupportedFeature)
    } else if p.len() - pos < 65 {
        Err(JpegError::FramingError)
    } else if p[pos] % 16 > 3 {
        Err(JpegError::TableError)
    } else {
        let steps = Seq::new(64, |n: int| p[pos + 1 + unzigzag(n)]);
        dqt_apply(p, pos + 65, q.update((p[pos] % 16) as int, Some(steps)))
    }
}

/// Builds the Huffman tables of a DHT payload, one after another, and installs each at its
/// class and destination, replacing what was there.
#[verifier::rlimit(100)]
pub fn install_dht(frame: &mut Frame, payload: &Vec<u8>) -> (r: Result<(), JpegError>)
    requires
        old(frame).tables_wf(),
    ensures
        final(frame).tables_wf(),
        final(frame).frame_header == old(frame).frame_header,
        final(frame).scans == old(frame).scans,
        final(frame).quantization_tables == old(frame).quantization_tables,
        final(frame).restart_interval == old(frame).restart_interval,
        match dht_apply(
            payload@,
            0,
            huff_views(old(frame).dc_huffman_tables@),
            huff_views(old(frame).ac_huffman_tables@),
        ) {
            Err(e) => r == Err::<(), JpegError>(e),
            Ok((dc, ac)) => r is Ok && huff_views(final(frame).dc_huffman_tables@) == dc && huff_views(
                final(frame).ac_huffman_tables@,
            ) == ac,
        },
{
    let ghost target = dht_apply(
        payload@,
        0,
        huff_views(frame.dc_huffman_tables@),
        huff_views(frame.ac_huffman_tables@),
    );
    let mut pos: usize = 0;
    while pos < payload.len()
        invariant
            frame.tables_wf(),
            frame.frame_header == old(frame).frame_header,
            frame.scans == old(frame).scans,
            frame.quantization_tables == old(frame).quantization_tables,
            frame.restart_interval == old(frame).restart_interval,
            pos <= payload@.len(),
            target == dht_apply(
                payload@,
                0,
                huff_views(old(frame).dc_huffman_tables@),
                huff_views(old(frame).ac_huffman_tables@),
            ),
            target == dht_apply(
                payload@,
                pos as int,
                huff_views(frame.dc_huffman_tables@),
                huff_views(frame.ac_huffman_tables@),
            ),
        decreases payload@.len() - pos,
    {
        if payload.len() - pos < 17 {
            return Err(JpegError::FramingError);
        }
        let ghost counts = payload@.subrange(pos + 1, pos + 17);
        let counts_end: usize = pos + 17;
        let mut n: usize = 17;
        let mut i: usize = pos + 1;
        while i < counts_end
            invariant
                pos + 1 <= i <= counts_end,
                counts_end == pos + 17,
                counts_end <= payload@.len(),
                counts == payload@.subrange(pos + 1, pos + 17),
                n == 17 + count_upto(counts, (i - pos - 1) as nat),
                17 <= n <= 17 + 255 * (i - pos - 1),
            decreases counts_end - i,
        {
            assert(counts[i - pos - 1] == payload@[i as int]);
            n = n + payload[i] as usize;
            i = i + 1;
        }
        if n > payload.len() - pos {
            return Err(JpegError::FramingError);
        }
        let end: usize = pos + n;
        let mut bytes: Vec<u8> = Vec::new();
        let mut k: usize = pos;
        while k < end
            invariant
                end == pos + n,
                pos <= k <= pos + n <= payload@.len(),
                bytes@ == payload@.subrange(pos as int, k as int),
            decreases end - k,
        {
            bytes.push(payload[k]);
            k = k + 1;
            assert(bytes@ =~= payload@.subrange(pos as int, k as int));
        }
        let mut table = HuffmanTable::empty();
        match table.build(n as u16, &bytes) {
            Ok(()) => {},
            Err(e) => {
                return Err(e);
            },
        }
        let ghost view = Some((bytes@.subrange(1, 17), bytes@.subrange(17, n as int)));
        let ghost dc0 = huff_views(frame.dc_huffman_tables@);
        let ghost ac0 = huff_views(frame.ac_huffman_tables@);
        let dest = table.destination_id as usize;
        if table.class == 0 {
            frame.dc_huffman_tables.set(dest, Some(table));
            assert(huff_views(frame.dc_huffman_tables@) =~= dc0.update(dest as int, view));
            assert(huff_views(frame.ac_huffman_tables@) =~= ac0);
        } else {
            frame.ac_huffman_tables.set(dest, Some(table));
            assert(huff_views(frame.ac_huffman_tables@) =~= ac0.update(dest as int, view));
            assert(huff_views(frame.dc_huffman_tables@) =~= dc0);
        }
        pos = pos + n;
    }
    Ok(())
}

/// Builds the quantization tables of a DQT payload, one after another, and installs each at
/// its destination; 16-bit tables are refused.
#[verifier::rlimit(100)]
pub fn install_dqt(frame: &mut Frame, payload: &Vec<u8>) -> (r: Result<(), JpegError>)
    requires
        old(frame).tables_wf(),
    ensures
        final(frame).tables_wf(),
        final(frame).frame_header == old(frame).frame_header,
        final(frame).scans == old(frame).scans,
        final(frame).dc_huffman_tables == old(frame).dc_huffman_tables,
        final(frame).ac_huffman_tables == old(frame).ac_huffman_tables,
        final(frame).restart_interval == old(frame).restart_interval,
        match dqt_apply(payload@, 0, quant_views(old(frame).quantization_tables@)) {
            Err(e) => r == Err::<(), JpegError>(e),
            Ok(q) => r is Ok && quant_views(final(frame).quantization_tables@) == q,
        },
{
    let ghost target = dqt_apply(payload@, 0, quant_views(frame.quantization_tables@));
    proof {
        lemma_zigzag_bijection();
    }
    let mut pos: usize = 0;
    while pos < payload.len()
        invariant
            frame.tables_wf(),
            frame.frame_header == old(frame).frame_header,
            frame.scans == old(frame).scans,
            frame.dc_huffman_tables == old(frame).dc_huffman_tables,
            frame.ac_huffman_tables == old(frame).ac_huffman_tables,
            frame.restart_interval == old(frame).restart_interval,
            pos <= payload@.len(),
            forall|m: int| 0 <= m < 64 ==> 0 <= #[trigger] unzigzag(m) < 64 && zigzag(unzigzag(m)) == m,
            target == dqt_apply(payload@, 0, quant_views(old(frame).quantization_tables@)),
            target == dqt_apply(payload@, pos as int, quant_views(frame.quantization_tables@)),
        decreases payload@.len() - pos,
    {
        if payload[pos] / 16 != 0 {
            return Err(JpegError::UnsupportedFeature);
        }
        if payload.len() - pos < 65 {
            return Err(JpegError::FramingError);
        }
        let end: usize = pos + 65;
        let mut bytes: Vec<u8> = Vec::new();
        let mut k: usize = pos;
        while k < end
            invariant
                end == pos + 65,
                pos <= k <= pos + 65 <= payload@.len(),
                bytes@ == payload@.subrange(pos as int, k as int),
            decreases end - k,
        {
            bytes.push(payload[k]);
            k = k + 1;
            assert(bytes@ =~= payload@.subrange(pos as int, k as int));
        }
        let mut table = QuantizationTable::default();
        match table.build(65, &bytes) {
            Ok(()) => {},
            Err(e) => {
                return Err(e);
            },
        }
        let ghost steps = Seq::new(64, |n: int| payload@[pos + 1 + unzigzag(n)]);
        assert(table.elements@ =~= steps) by {
            assert forall|n: int| 0 <= n < 64 implies table.elements@[n] == steps[n] by {
                let k = unzigzag(n);
                assert(table.elements@[zigzag(k)] == bytes@[k + 1]);
            }
        }
        let ghost q0 = quant_views(frame.quantization_tables@);
        let dest = table.destination_id as usize;
        frame.quantization_tables.set(dest, Some(table));
        assert(quant_views(frame.quantization_tables@) =~= q0.update(dest as int, Some(steps)));
        pos = pos + 65;
    }
    Ok(())
}

/// What the segments read so far define: the SOF marker and payload, the Huffman and
/// quantization tables at each destination, the restart interval, and each scan's header
/// payload with its entropy-coded segments and restart numbers.
pub struct StreamModel {
    pub header: Option<(u8, Seq<u8>)>,
    pub dc: Seq<Option<(Seq<u8>, Seq<u8>)>>,
    pub ac: Seq<Option<(Seq<u8>, Seq<u8>)>>,
    pub quant: Seq<Option<Seq<u8>>>,
    pub restart: Option<u16>,
    pub scans: Seq<(Seq<u8>, Seq<Seq<u8>>, Seq<u8>)>,
}

/// Nothing defined yet.
pub open spec fn empty_model() -> StreamModel {
    StreamModel {
        header: None,
        dc: Seq::new(4, |_i: int| None),
        ac: Seq::new(4, |_i: int| None),
        quant: Seq::new(4, |_i: int| None),
        restart: None,
        scans: Seq::empty(),
    }
}

/// A start-of-frame code: SOF0 to SOF15, leaving out DHT, JPG and DAC.
pub open spec fn is_sof(code: u8) -> bool {
    0xc0 <= code <= 0xcf && code != DHT && code != 0xc8 && code != DAC
}

/// What a length-prefixed segment other than SOS adds to what was defined before.
pub open spec fn segment_effect(code: u8, payload: Seq<u8>, m: StreamModel) -> Result<StreamModel, JpegError> {
    if is_sof(code) {
        if m.header is Some {
            Err(JpegError::FramingError)
        } else {
            match frame_header_error(payload.len() as u16, code, payload) {
                Some(e) => Err(e),
                None => Ok(StreamModel { header: Some((code, payload)), ..m }),
            }
        }
    } else if code == DHT {
        match dht_apply(payload, 0, m.dc, m.ac) {
            Err(e) => Err(e),
            Ok((dc, ac)) => Ok(StreamModel { dc, ac, ..m }),
        }
    } else if code == DQT {
        match dqt_apply(payload, 0, m.quant) {
            Err(e) => Err(e),
            Ok(quant) => Ok(StreamModel { quant, ..m }),
        }
    } else if code == DRI {
        if payload.len() != 2 {
            Err(JpegError::FramingError)
        } else {
            Ok(StreamModel { restart: Some(be16(payload[0], payload[1])), ..m })
        }
    } else if code == DNL {
        if payload.len() != 2 {
            Err(JpegError::FramingError)
        } else {
            Ok(m)
        }
    } else if code == EXP {
        if payload.len() != 1 {
            Err(JpegError::FramingError)
        } else {
            Ok(m)
        }
    } else if code == DAC {
        if payload.len() < 2 {
            Err(JpegError::FramingError)
        } else {
            Ok(m)
        }
    } else {
        Ok(m)
    }
}

/// The segment walk from the marker `code`, whose code byte ends just before `pos`: SOI and
/// TEM stand alone; RSTn and the reserved codes below 0xC0 are refused outside a scan; DHP is
/// refused; every other marker carries a length-prefixed payload, and SOS is followed by
/// entropy-coded data; EOI ends the walk, which needs a frame header by then.
pub open spec fn walk(b: Seq<u8>, pos: int, code: u8, m: StreamModel) -> Result<StreamModel, JpegError>
    decreases b.len() - pos,
{
    if pos < 0 || pos > b.len() {
        Err(JpegError::FramingError)
    } else if code == EOI {
        if m.header is None {
            Err(JpegError::FramingError)
        } else {
            Ok(m)
        }
    } else if code == SOI || code == TEM {
        match marker_at(b, pos) {
            Err(e) => Err(e),
            Ok((c, n)) => if n <= pos || n > b.len() {
                Err(JpegError::FramingError)
            } else {
                walk(b, n, c, m)
            },
        }
    } else if (RST0 <= code && code <= RST7) || code < 0xc0 {
        Err(JpegError::FramingError)
    } else if code == DHP {
        Err(JpegError::UnsupportedFeature)
    } else {
        match segment_at(b, pos) {
            Err(e) => Err(e),
            Ok((payload, p)) => if code == SOS {
                if m.header is None {
                    Err(JpegError::FramingError)
                } else {
                    match scan_header_error(payload.len() as u16, payload) {
                        Some(e) => Err(e),
                        None => match entropy_data(b, p, false, seq![Seq::<u8>::empty()], Seq::empty()) {
                            Err(e) => Err(e),
                            Ok((segs, marks, c, n)) => if n <= pos || n > b.len() {
                                Err(JpegError::FramingError)
                            } else {
                                walk(b, n, c, StreamModel { scans: m.scans.push((payload, segs, marks)), ..m })
                            },
                        },
                    }
                }
            } else {
                match segment_effect(code, payload, m) {
                    Err(e) => Err(e),
                    Ok(m2) => match marker_at(b, p) {
                        Err(e) => Err(e),
                        Ok((c, n)) => if n <= pos || n > b.len() {
                            Err(JpegError::FramingError)
                        } else {
                            walk(b, n, c, m2)
                        },
                    },
                }
            },
        }
    }
}

/// What a JPEG stream defines: it must begin with SOI; the walk starts at the marker after it.
pub open spec fn stream_frame(b: Seq<u8>) -> Result<StreamModel, JpegError> {
    match marker_at(b, 0) {
        Err(e) => Err(e),
        Ok((c, p)) => if c != SOI {
            Err(JpegError::FramingError)
        } else {
            match marker_at(b, p) {
                Err(e) => Err(e),
                Ok((c2, p2)) => walk(b, p2, c2, empty_model()),
            }
        },
    }
}

/// The header was built from the SOF payload `payload` of marker `code`.
pub open spec fn header_built_from(h: FrameHeader, code: u8, payload: Seq<u8>) -> bool {
    &&& frame_header_error(payload.len() as u16, code, payload) is None
    &&& h.wf()
    &&& h.marker == code
    &&& h.precision == payload[0]
    &&& h.total_vertical_lines == be16(payload[1], payload[2])
    &&& h.total_horizontal_lines == be16(payload[3], payload[4])
    &&& h.total_components == payload[5]
    &&& h.components@ == frame_components(payload)
}

/// The scan was built from an SOS payload and the entropy-coded data after it.
pub open spec fn scan_built_from(s: Scan, v: (Seq<u8>, Seq<Seq<u8>>, Seq<u8>)) -> bool {
    let (hp, segs, marks) = v;
    &&& scan_header_error(hp.len() as u16, hp) is None
    &&& s.wf()
    &&& s.scan_header.components@ == scan_components(hp)
    &&& s.entropy_coded_segments@.len() == segs.len()
    &&& forall|k: int| 0 <= k < segs.len() ==> #[trigger] s.entropy_coded_segments@[k]@ == segs[k]
    &&& s.restart_markers@ == marks
}

/// The frame holds what the model says was defined.
pub open spec fn frame_matches(f: Frame, m: StreamModel) -> bool {
    &&& f.tables_wf()
    &&& huff_views(f.dc_huffman_tables@) == m.dc
    &&& huff_views(f.ac_huffman_tables@) == m.ac
    &&& quant_views(f.quantization_tables@) == m.quant
    &&& match f.restart_interval {
        Some(ri) => m.restart == Some(ri.interval),
        None => m.restart is None,
    }
    &&& m.header matches Some((code, payload)) ==> header_built_from(f.frame_header, code, payload)
    &&& f.scans@.len() == m.scans.len()
    &&& forall|i: int| 0 <= i < f.scans@.len() ==> scan_built_from(#[trigger] f.scans@[i], m.scans[i])
}

/// Splits a JPEG stream into its segments and builds the frame they describe: the frame
/// header, the tables, the restart interval and the scans with their entropy-coded data.
/// The stream must begin with SOI and reach EOI, and hold one SOF0 frame.
#[verifier::rlimit(100)]
pub fn parse_frame(bytes: &Vec<u8>) -> (r: Result<Frame, JpegError>)
    ensures
        !(marker_at(bytes@, 0) matches Ok((code, _next)) && code == SOI) ==> r == Err::<Frame, JpegError>(
            JpegError::FramingError,
        ),
        match stream_frame(bytes@) {
            Err(e) => r == Err::<Frame, JpegError>(e),
            Ok(m) => r matches Ok(f) && f.wf() && frame_matches(f, m),
        },
{
    let (first, mut pos) = match read_marker(bytes, 0) {
        Ok(m) => m,
        Err(e) => {
            return Err(e);
        },
    };
    if first != SOI {
        return Err(JpegError::FramingError);
    }
    let mut frame = Frame::new();
    let ghost mut model = empty_model();
    proof {
        assert(huff_views(frame.dc_huffman_tables@) =~= model.dc);
        assert(huff_views(frame.ac_huffman_tables@) =~= model.ac);
        assert(quant_views(frame.quantization_tables@) =~= model.quant);
    }
    let mut have_frame = false;
    let (mut code, p) = match read_marker(bytes, pos) {
        Ok(m) => m,
        Err(e) => {
            return Err(e);
        },
    };
    pos = p;
    loop
        invariant
            pos <= bytes@.len(),
            frame.tables_wf(),
            have_frame == model.header is Some,
            have_frame ==> frame.frame_header.wf(),
            forall|i: int| 0 <= i < frame.scans@.len() ==> (#[trigger] frame.scans@[i]).wf(),
            frame_matches(frame, model),
            stream_frame(bytes@) == walk(bytes@, pos as int, code, model),
            marker_at(bytes@, 0) matches Ok((c0, _n)) && c0 == SOI,
        decreases bytes@.len() - pos,
    {
        if code == EOI {
            if !have_frame {
                return Err(JpegError::FramingError);
            }
            return Ok(frame);
        }
        if code == SOI || code == TEM {
            let (c, p) = match read_marker(bytes, pos) {
                Ok(m) => m,
                Err(e) => {
                    return Err(e);
                },
            };
            code = c;
            pos = p;
            continue;
        }
        if (RST0 <= code && code <= RST7) || code < 0xc0 {
            return Err(JpegError::FramingError);
        }
        if code == DHP {
            return Err(JpegError::UnsupportedFeature);
        }
        let ghost seg_pos = pos as int;
        let (payload, p) = match read_segment(bytes, pos) {
            Ok(s) => s,
            Err(e) => {
                return Err(e);
            },
        };
        pos = p;
        assert(payload@.len() < 65536);
        let length = payload.len() as u16;
        assert(length == payload@.len());
        if code == SOS {
            if !have_frame {
                return Err(JpegError::FramingError);
            }
            let mut header = ScanHeader::empty();
            match header.build(length, &payload) {
                Ok(()) => {},
                Err(e) => {
                    return Err(e);
                },
            }
            let ghost scan_pos = pos as int;
            let (segments, markers, c, p) = match read_entropy_data(bytes, pos) {
                Ok(d) => d,
                Err(e) => {
                    return Err(e);
                },
            };
            let ghost sv = entropy_data(bytes@, scan_pos, false, seq![Seq::<u8>::empty()], Seq::empty())->Ok_0;
            let scan = Scan { scan_header: header, entropy_coded_segments: segments, restart_markers: markers };
            let ghost old_scans = frame.scans@;
            frame.scans.push(scan);
            proof {
                let (segs, marks, _c, _n) = sv;
                model = StreamModel { scans: model.scans.push((payload@, segs, marks)), ..model };
                assert(scan_built_from(frame.scans@[old_scans.len() as int], model.scans[old_scans.len() as int]));
                assert forall|i: int| 0 <= i < frame.scans@.len() implies scan_built_from(
                    #[trigger] frame.scans@[i],
                    model.scans[i],
                ) by {
                    if i < old_scans.len() {
                        assert(frame.scans@[i] == old_scans[i]);
                    }
                }
            }
            code = c;
            pos = p;
            continue;
        }
        if is_sof_code(code) {
            if have_frame {
                return Err(JpegError::FramingError);
            }
            match frame.frame_header.build(length, code, &payload) {
                Ok(()) => {},
                Err(e) => {
                    return Err(e);
                },
            }
            have_frame = true;
            proof {
                model = StreamModel { header: Some((code, payload@)), ..model };
            }
        } else if code == DHT {
            match install_dht(&mut frame, &payload) {
                Ok(()) => {},
                Err(e) => {
                    return Err(e);
                },
            }
            proof {
                let (dc, ac) = dht_apply(payload@, 0, model.dc, model.ac)->Ok_0;
                model = StreamModel { dc, ac, ..model };
            }
        } else if code == DQT {
            match install_dqt(&mut frame, &payload) {
                Ok(()) => {},
                Err(e) => {
                    return Err(e);
                },
            }
            proof {
                model = StreamModel { quant: dqt_apply(payload@, 0, model.quant)->Ok_0, ..model };
            }
        } else if code == DRI {
            let mut ri = RestartInterval { length: 0, interval: 0 };
            match ri.build(length, &payload) {
                Ok(()) => {},
                Err(e) => {
                    return Err(e);
                },
            }
            frame.restart_interval = Some(ri);
            proof {
                model = StreamModel { restart: Some(be16(payload@[0], payload@[1])), ..model };
            }
        } else if code == DNL {
            let mut lines = NumberOfLines { length: 0, total_lines: 0 };
            match lines.build(length, &payload) {
                Ok(()) => {},
                Err(e) => {
                    return Err(e);
                },
            }
            frame.lines = Some(lines);
        } else if code == EXP {
            let mut exp = ExpandReference { length: 0, expand_horizontally: 0, expand_vertically: 0 };
            match exp.build(length, &payload) {
                Ok(()) => {},
                Err(e) => {
                    return Err(e);
                },
            }
            frame.expand_reference = Some(exp);
        } else if code == DAC {
            let mut table = ArithmeticTable { length: 0, class: 0, destination_id: 0, value: 0 };
            match table.build(length, &payload) {
                Ok(()) => {},
                Err(e) => {
                    return Err(e);
                },
            }
            frame.arithmetic_tables.push(table);
        } else if code == COM {
            let mut comment = Comment { length: 0, comment_bytes: Vec::new() };
            match comment.build(length, &payload) {
                Ok(()) => {},
                Err(e) => {
                    return Err(e);
                },
            }
            frame.comments.push(comment);
        } else if 0xe0 <= code && code <= 0xef {
            let mut app = ApplicationData { marker: 0, length: 0, application_data: Vec::new() };
            match app.build(code, length, &payload) {
                Ok(()) => {},
                Err(e) => {
                    return Err(e);
                },
            }
            frame.application_data.push(app);
        }
        let (c, p) = match read_marker(bytes, pos) {
            Ok(m) => m,
            Err(e) => {
                return Err(e);
            },
        };
        code = c;
        pos = p;
    }
}

/// Whether `code` starts a frame: SOF0 to SOF15, leaving out DHT, JPG and DAC.
fn is_sof_code(code: u8) -> (r: bool)
    ensures
        r == is_sof(code),
{
    0xc0 <= code && code <= 0xcf && code != DHT && code != 0xc8 && code != DAC
}

} // verus!
