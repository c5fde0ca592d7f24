//! The marker segments of a JPEG stream, each built from its payload bytes.
use vstd::prelude::*;
use crate::error::JpegError;
use crate::entropy::{zigzag, zigzag_index, lemma_zigzag_bijection, unzigzag};

verus! {

/// Start of frame, baseline DCT.
pub const SOF0: u8 = 0xc0;

/// The big-endian number of two bytes.
pub open spec fn be16(hi: u8, lo: u8) -> u16 {
    (hi as int * 256 + lo as int) as u16
}

/// The big-endian number of two bytes.
pub fn u16_from_be(hi: u8, lo: u8) -> (r: u16)
    ensures
        r == be16(hi, lo),
        r as int == hi as int * 256 + lo as int,
{
    hi as u16 * 256 + lo as u16
}

/// One component of a frame header.
#[derive(Debug, Clone, Copy, PartialEq, Eq, Structural)]
pub struct FrameComponent {
    /// Ci
    pub id: u8,
    /// Hi
    pub horizontal_sample_factor: u8,
    /// Vi
    pub vertical_sample_factor: u8,
    /// Tqi
    pub quantization_table_selector: u8,
}

/// The component described by the three bytes at `6 + 3 * i` of a frame header.
pub open spec fn frame_component_at(data: Seq<u8>, i: int) -> FrameComponent {
    FrameComponent {
        id: data[6 + 3 * i],
        horizontal_sample_factor: data[7 + 3 * i] / 16,
        vertical_sample_factor: data[7 + 3 * i] % 16,
        quantization_table_selector: data[8 + 3 * i],
    }
}

/// Number of blocks that the components contribute to one MCU: the sum of Hi * Vi.
pub open spec fn blocks_per_mcu(comps: Seq<FrameComponent>) -> nat
    decreases comps.len(),
{
    if comps.len() == 0 {
        0
    } else {
        blocks_per_mcu(comps.drop_last()) + comps.last().horizontal_sample_factor as nat
            * comps.last().vertical_sample_factor as nat
    }
}

/// Sampling factors in 1..=4 for every component.
pub open spec fn factors_in_range(comps: Seq<FrameComponent>) -> bool {
    forall|i: int|
        0 <= i < comps.len() ==> 1 <= (#[trigger] comps[i]).horizontal_sample_factor <= 4 && 1
            <= comps[i].vertical_sample_factor <= 4
}

/// No two components share an id.
pub open spec fn ids_distinct(comps: Seq<FrameComponent>) -> bool {
    forall|i: int, j: int| 0 <= i < j < comps.len() ==> comps[i].id != comps[j].id
}

/// Every component selects one of the four quantization tables.
pub open spec fn quant_selectors_in_range(comps: Seq<FrameComponent>) -> bool {
    forall|i: int| 0 <= i < comps.len() ==> (#[trigger] comps[i]).quantization_table_selector <= 3
}

/// The components that the payload of a frame header describes.
pub open spec fn frame_components(data: Seq<u8>) -> Seq<FrameComponent> {
    Seq::new(data[5] as nat, |i: int| frame_component_at(data, i))
}

/// Why a frame header payload is refused, if it is.
pub open spec fn frame_header_error(length: u16, marker: u8, data: Seq<u8>) -> Option<JpegError> {
    if data.len() != length || data.len() < 6 || data.len() != 6 + 3 * data[5] {
        Some(JpegError::FramingError)
    } else if marker != SOF0 || data[0] != 8 || !(data[5] == 1 || data[5] == 3) {
        Some(JpegError::UnsupportedFeature)
    } else if be16(data[3], data[4]) == 0 {
        Some(JpegError::FramingError)
    } else if be16(data[1], data[2]) == 0 {
        Some(JpegError::UnsupportedFeature)
    } else if !factors_in_range(frame_components(data)) || blocks_per_mcu(frame_components(data))
        > 10 {
        Some(JpegError::UnsupportedFeature)
    } else if !quant_selectors_in_range(frame_components(data)) {
        Some(JpegError::TableError)
    } else if !ids_distinct(frame_components(data)) {
        Some(JpegError::FramingError)
    } else {
        None
    }
}

impl FrameComponent {
    /// Splits a byte into the horizontal (high nibble) and vertical (low nibble) factors.
    pub fn sample_factor(&mut self, byte: u8)
        ensures
            final(self).horizontal_sample_factor == byte / 16,
            final(self).vertical_sample_factor == byte % 16,
            final(self).id == old(self).id,
            final(self).quantization_table_selector == old(self).quantization_table_selector,
    {
        self.horizontal_sample_factor = byte / 16;
        self.vertical_sample_factor = byte % 16;
    }

    /// Reads the three bytes of a component: id, sampling factors, quantization table.
    pub fn build(&mut self, data: &Vec<u8>) -> (r: Result<(), JpegError>)
        ensures
            data@.len() != 3 <==> r == Err::<(), JpegError>(JpegError::FramingError),
            data@.len() == 3 ==> r is Ok && *final(self) == (FrameComponent {
                id: data@[0],
                horizontal_sample_factor: data@[1] / 16,
                vertical_sample_factor: data@[1] % 16,
                quantization_table_selector: data@[2],
            }),
    {
        if data.len() != 3 {
            return Err(JpegError::FramingError);
        }
        self.id = data[0];
        self.sample_factor(data[1]);
        self.quantization_table_selector = data[2];
        Ok(())
    }
}

/// The frame header of an SOF segment.
#[derive(Debug)]
pub struct FrameHeader {
    /// The SOF marker that began the frame.
    pub marker: u8,
    /// Lf, less the two bytes of the length field.
    pub length: u16,
    /// P
    pub precision: u8,
    /// Y
    pub total_vertical_lines: u16,
    /// X
    pub total_horizontal_lines: u16,
    /// Nf
    pub total_components: u8,
    pub components: Vec<FrameComponent>,
}

impl FrameHeader {
    /// A header that no segment has filled yet.
    pub fn empty() -> (r: Self)
        ensures
            r.components@.len() == 0,
            r.total_components == 0,
    {
        FrameHeader {
            marker: 0,
            length: 0,
            precision: 0,
            total_vertical_lines: 0,
            total_horizontal_lines: 0,
            total_components: 0,
            components: Vec::new(),
        }
    }

    /// A baseline frame: 8-bit samples, one or three components with sampling factors in
    /// 1..=4, at most ten blocks per MCU, and a non-empty image.
    pub open spec fn wf(&self) -> bool {
        &&& self.marker == SOF0
        &&& self.precision == 8
        &&& self.total_components == 1 || self.total_components == 3
        &&& self.components@.len() == self.total_components
        &&& self.total_horizontal_lines > 0
        &&& self.total_vertical_lines > 0
        &&& factors_in_range(self.components@)
        &&& blocks_per_mcu(self.components@) <= 10
        &&& quant_selectors_in_range(self.components@)
        &&& ids_distinct(self.components@)
    }

    /// Reads the payload of an SOF segment.
    #[verifier::loop_isolation(false)]
    pub fn build(&mut self, length: u16, marker: u8, data: &Vec<u8>) -> (r: Result<(), JpegError>)
        ensures
            match frame_header_error(length, marker, data@) {
                Some(e) => r == Err::<(), JpegError>(e),
                None => r is Ok,
            },
            r is Ok ==> {
                &&& final(self).wf()
                &&& final(self).marker == marker
                &&& final(self).length == length
                &&& final(self).precision == data@[0]
                &&& final(self).total_vertical_lines == be16(data@[1], data@[2])
                &&& final(self).total_horizontal_lines == be16(data@[3], data@[4])
                &&& final(self).total_components == data@[5]
                &&& final(self).components@ == frame_components(data@)
            },
    {
        let n = data.len();
        if n != length as usize || n < 6 || n != 6 + 3 * data[5] as usize {
            return Err(JpegError::FramingError);
        }
        if marker != SOF0 || data[0] != 8 || !(data[5] == 1 || data[5] == 3) {
            return Err(JpegError::UnsupportedFeature);
        }
        self.marker = marker;
        self.length = length;
        self.precision = data[0];
        self.total_vertical_lines = u16_from_be(data[1], data[2]);
        self.total_horizontal_lines = u16_from_be(data[3], data[4]);
        self.total_components = data[5];
        if self.total_horizontal_lines == 0 {
            return Err(JpegError::FramingError);
        }
        if self.total_vertical_lines == 0 {
            return Err(JpegError::UnsupportedFeature);
        }
        let count = data[5] as usize;
        let mut components: Vec<FrameComponent> = Vec::new();
        let mut i: usize = 0;
        while i < count
            invariant
                i <= count,
                count == data@[5],
                data@.len() == 6 + 3 * count,
                components@ == frame_components(data@).subrange(0, i as int),
            decreases count - i,
        {
            let c = FrameComponent {
                id: data[6 + 3 * i],
                horizontal_sample_factor: data[7 + 3 * i] / 16,
                vertical_sample_factor: data[7 + 3 * i] % 16,
                quantization_table_selector: data[8 + 3 * i],
            };
            components.push(c);
            i = i + 1;
            assert(components@ =~= frame_components(data@).subrange(0, i as int));
        }
        assert(components@ =~= frame_components(data@));
        let ghost comps = components@;
        let mut blocks: usize = 0;
        let mut j: usize = 0;
        while j < count
            invariant
                j <= count,
                count == comps.len(),
                comps == components@,
                forall|m: int| 0 <= m < j ==> 1 <= (#[trigger] comps[m]).horizontal_sample_factor <= 4 && 1
                    <= comps[m].vertical_sample_factor <= 4,
                blocks == blocks_per_mcu(comps.subrange(0, j as int)),
                blocks <= 10,
            decreases count - j,
        {
            let h = components[j].horizontal_sample_factor;
            let v = components[j].vertical_sample_factor;
            if h < 1 || h > 4 || v < 1 || v > 4 {
                return Err(JpegError::UnsupportedFeature);
            }
            assert(comps.subrange(0, j + 1).drop_last() =~= comps.subrange(0, j as int));
            assert(h as int * v as int <= 16) by (nonlinear_arith)
                requires
                    h <= 4,
                    v <= 4,
            ;
            blocks = blocks + h as usize * v as usize;
            if blocks > 10 {
                proof {
                    lemma_blocks_per_mcu_prefix(comps, (j + 1) as int);
                }
                return Err(JpegError::UnsupportedFeature);
            }
            j = j + 1;
        }
        assert(comps.subrange(0, count as int) =~= comps);
        let mut t: usize = 0;
        while t < count
            invariant
                t <= count,
                count == comps.len(),
                comps == components@,
                forall|m: int| 0 <= m < t ==> (#[trigger] comps[m]).quantization_table_selector <= 3,
            decreases count - t,
        {
            if components[t].quantization_table_selector > 3 {
                return Err(JpegError::TableError);
            }
            t = t + 1;
        }
        let mut a: usize = 0;
        while a < count
            invariant
                a <= count,
                count == comps.len(),
                comps == components@,
                forall|x: int, y: int| 0 <= x < y < comps.len() && x < a ==> comps[x].id != comps[y].id,
            decreases count - a,
        {
            let mut b: usize = a + 1;
            while b < count
                invariant
                    a < count,
                    a < b <= count,
                    count == comps.len(),
                    comps == components@,
                    forall|x: int, y: int| 0 <= x < y < comps.len() && x < a ==> comps[x].id != comps[y].id,
                    forall|y: int| a < y < b ==> comps[a as int].id != comps[y].id,
                decreases count - b,
            {
                if components[a].id == components[b].id {
                    return Err(JpegError::FramingError);
                }
                b = b + 1;
            }
            a = a + 1;
        }
        self.components = components;
        Ok(())
    }
}

/// The blocks of a prefix never exceed those of the whole.
pub proof fn lemma_blocks_per_mcu_prefix(comps: Seq<FrameComponent>, j: int)
    requires
        0 <= j <= comps.len(),
    ensures
        blocks_per_mcu(comps.subrange(0, j)) <= blocks_per_mcu(comps),
    decreases comps.len() - j,
{
    if j < comps.len() {
        lemma_blocks_per_mcu_prefix(comps, j + 1);
        assert(comps.subrange(0, j + 1).drop_last() =~= comps.subrange(0, j));
    } else {
        assert(comps.subrange(0, j) =~= comps);
    }
}

/// One component of a scan header.
#[derive(Debug, Clone, Copy, PartialEq, Eq, Structural)]
pub struct ScanComponent {
    /// Cs: the id of the frame component.
    pub id: u8,
    /// Td
    pub dc_entropy_table_dest: u8,
    /// Ta
    pub ac_entropy_table_dest: u8,
}

/// The component described by the two bytes at `1 + 2 * i` of a scan header.
pub open spec fn scan_component_at(data: Seq<u8>, i: int) -> ScanComponent {
    ScanComponent {
        id: data[1 + 2 * i],
        dc_entropy_table_dest: data[2 + 2 * i] / 16,
        ac_entropy_table_dest: data[2 + 2 * i] % 16,
    }
}

/// The components that the payload of a scan header describes.
pub open spec fn scan_components(data: Seq<u8>) -> Seq<ScanComponent> {
    Seq::new(data[0] as nat, |i: int| scan_component_at(data, i))
}

/// Every component selects DC and AC tables among the four destinations.
pub open spec fn entropy_selectors_in_range(comps: Seq<ScanComponent>) -> bool {
    forall|i: int|
        0 <= i < comps.len() ==> (#[trigger] comps[i]).dc_entropy_table_dest <= 3
            && comps[i].ac_entropy_table_dest <= 3
}

/// Why a scan header payload is refused, if it is.
pub open spec fn scan_header_error(length: u16, data: Seq<u8>) -> Option<JpegError> {
    if data.len() != length || data.len() < 1 || data.len() != 2 * data[0] + 4 || data[0] < 1
        || data[0] > 4 {
        Some(JpegError::FramingError)
    } else if data[2 * data[0] + 1] != 0 || data[2 * data[0] + 2] != 63 || data[2 * data[0] + 3]
        != 0 {
        Some(JpegError::UnsupportedFeature)
    } else if !entropy_selectors_in_range(scan_components(data)) {
        Some(JpegError::TableError)
    } else {
        None
    }
}

impl ScanComponent {
    /// Splits a byte into DC (high nibble) and AC (low nibble) table destinations.
    pub fn entropy_table_dest(&mut self, byte: u8)
        ensures
            final(self).dc_entropy_table_dest == byte / 16,
            final(self).ac_entropy_table_dest == byte % 16,
            final(self).id == old(self).id,
    {
        self.dc_entropy_table_dest = byte / 16;
        self.ac_entropy_table_dest = byte % 16;
    }

    /// Reads the two bytes of a scan component: id, then table destinations.
    pub fn build(&mut self, data: &Vec<u8>) -> (r: Result<(), JpegError>)
        ensures
            data@.len() != 2 <==> r == Err::<(), JpegError>(JpegError::FramingError),
            data@.len() == 2 ==> r is Ok && *final(self) == (ScanComponent {
                id: data@[0],
                dc_entropy_table_dest: data@[1] / 16,
                ac_entropy_table_dest: data@[1] % 16,
            }),
    {
        if data.len() != 2 {
            return Err(JpegError::FramingError);
        }
        self.id = data[0];
        self.entropy_table_dest(data[1]);
        Ok(())
    }
}

/// The header of an SOS segment.
#[derive(Debug)]
pub struct ScanHeader {
    /// Ls, less the two bytes of the length field.
    pub length: u16,
    /// Ns
    pub total_components: u8,
    /// Ss
    pub spectral_selection_start: u8,
    /// Se
    pub spectral_selection_end: u8,
    /// Ah
    pub successive_approximation_hi: u8,
    /// Al
    pub successive_approximation_lo: u8,
    pub components: Vec<ScanComponent>,
}

impl ScanHeader {
    /// A header that no segment has filled yet.
    pub fn empty() -> (r: Self)
        ensures
            r.components@.len() == 0,
    {
        ScanHeader {
            length: 0,
            total_components: 0,
            spectral_selection_start: 0,
            spectral_selection_end: 0,
            successive_approximation_hi: 0,
            successive_approximation_lo: 0,
            components: Vec::new(),
        }
    }

    /// A baseline scan of one to four components.
    pub open spec fn wf(&self) -> bool {
        &&& 1 <= self.components@.len() <= 4
        &&& self.components@.len() == self.total_components
        &&& entropy_selectors_in_range(self.components@)
    }

    /// Splits a byte into Ah (high nibble) and Al (low nibble).
    pub fn successive_approximation(&mut self, byte: u8)
        ensures
            final(self).successive_approximation_hi == byte / 16,
            final(self).successive_approximation_lo == byte % 16,
            final(self).length == old(self).length,
            final(self).total_components == old(self).total_components,
            final(self).spectral_selection_start == old(self).spectral_selection_start,
            final(self).spectral_selection_end == old(self).spectral_selection_end,
            final(self).components == old(self).components,
    {
        self.successive_approximation_hi = byte / 16;
        self.successive_approximation_lo = byte % 16;
    }

    /// Reads the payload of an SOS segment.
    #[verifier::loop_isolation(false)]
    pub fn build(&mut self, length: u16, data: &Vec<u8>) -> (r: Result<(), JpegError>)
        ensures
            match scan_header_error(length, data@) {
                Some(e) => r == Err::<(), JpegError>(e),
                None => r is Ok,
            },
            r is Ok ==> {
                &&& final(self).wf()
                &&& final(self).length == length
                &&& final(self).total_components == data@[0]
                &&& final(self).components@ == scan_components(data@)
                &&& final(self).spectral_selection_start == 0
                &&& final(self).spectral_selection_end == 63
                &&& final(self).successive_approximation_hi == 0
                &&& final(self).successive_approximation_lo == 0
            },
    {
        let n = data.len();
        if n != length as usize || n < 1 || n != 2 * data[0] as usize + 4 || data[0] < 1 || data[0] > 4 {
            return Err(JpegError::FramingError);
        }
        let count = data[0] as usize;
        self.length = length;
        self.total_components = data[0];
        self.spectral_selection_start = data[2 * count + 1];
        self.spectral_selection_end = data[2 * count + 2];
        self.successive_approximation(data[2 * count + 3]);
        if self.spectral_selection_start != 0 || self.spectral_selection_end != 63
            || data[2 * count + 3] != 0 {
            return Err(JpegError::UnsupportedFeature);
        }
        let mut components: Vec<ScanComponent> = Vec::new();
        let mut i: usize = 0;
        while i < count
            invariant
                i <= count,
                components@ == scan_components(data@).subrange(0, i as int),
                forall|m: int| 0 <= m < i ==> (#[trigger] components@[m]).dc_entropy_table_dest <= 3
                    && components@[m].ac_entropy_table_dest <= 3,
            decreases count - i,
        {
            let c = ScanComponent {
                id: data[1 + 2 * i],
                dc_entropy_table_dest: data[2 + 2 * i] / 16,
                ac_entropy_table_dest: data[2 + 2 * i] % 16,
            };
            if c.dc_entropy_table_dest > 3 || c.ac_entropy_table_dest > 3 {
                assert(scan_components(data@)[i as int] == c);
                return Err(JpegError::TableError);
            }
            components.push(c);
            i = i + 1;
            assert(components@ =~= scan_components(data@).subrange(0, i as int));
        }
        assert(components@ =~= scan_components(data@));
        self.components = components;
        Ok(())
    }
}

/// A quantization table of a DQT segment.
#[derive(Debug)]
pub struct QuantizationTable {
    /// Length of the table's bytes in the segment.
    pub length: u16,
    /// Pq: 0 for 8-bit entries.
    pub precision: u8,
    /// Tq
    pub destination_id: u8,
    /// Qk, in natural (row-major) order.
    pub elements: [u8; 64],
}

impl Default for QuantizationTable {
    fn default() -> (r: Self)
        ensures
            r.length == 0,
            r.precision == 0,
            r.destination_id == 0,
            forall|i: int| 0 <= i < 64 ==> r.elements@[i] == 0,
    {
        QuantizationTable { length: 0, precision: 0, destination_id: 0, elements: [0u8; 64] }
    }
}

/// Why the bytes of one table of a DQT segment are refused, if they are.
pub open spec fn quantization_table_error(length: u16, data: Seq<u8>) -> Option<JpegError> {
    if data.len() != length || data.len() != 65 {
        Some(JpegError::FramingError)
    } else if data[0] / 16 != 0 {
        Some(JpegError::UnsupportedFeature)
    } else if data[0] % 16 > 3 {
        Some(JpegError::TableError)
    } else {
        None
    }
}

impl QuantizationTable {
    /// Splits a byte into precision (high nibble) and destination (low nibble).
    pub fn precision_and_destination_id(&mut self, byte: u8)
        ensures
            final(self).precision == byte / 16,
            final(self).destination_id == byte % 16,
            final(self).length == old(self).length,
            final(self).elements == old(self).elements,
    {
        self.precision = byte / 16;
        self.destination_id = byte % 16;
    }

    /// Reads one 8-bit table: precision and destination, then 64 entries in zigzag order,
    /// which are stored in natural order.
    pub fn build(&mut self, length: u16, data: &Vec<u8>) -> (r: Result<(), JpegError>)
        ensures
            match quantization_table_error(length, data@) {
                Some(e) => r == Err::<(), JpegError>(e),
                None => r is Ok,
            },
            r is Ok ==> {
                &&& final(self).length == length
                &&& final(self).precision == 0
                &&& final(self).destination_id == data@[0] % 16
                &&& forall|k: int| 0 <= k < 64 ==> final(self).elements@[zigzag(k)] == data@[k + 1]
            },
    {
        if data.len() != length as usize || data.len() != 65 {
            return Err(JpegError::FramingError);
        }
        self.length = length;
        self.precision_and_destination_id(data[0]);
        if self.precision != 0 {
            return Err(JpegError::UnsupportedFeature);
        }
        if self.destination_id > 3 {
            return Err(JpegError::TableError);
        }
        proof {
            lemma_zigzag_bijection();
        }
        let mut k: usize = 0;
        while k < 64
            invariant
                k <= 64,
                data@.len() == 65,
                forall|m: int| 0 <= m < 64 ==> 0 <= #[trigger] zigzag(m) < 64 && unzigzag(zigzag(m)) == m,
                forall|m: int| 0 <= m < k ==> self.elements@[zigzag(m)] == data@[m + 1],
                self.length == length,
                self.precision == 0,
                self.destination_id == data@[0] % 16,
            decreases 64 - k,
        {
            let idx = zigzag_index(k);
            self.elements[idx] = data[k + 1];
            proof {
                assert forall|m: int| 0 <= m < k implies zigzag(m) != zigzag(k as int) by {
                    assert(unzigzag(zigzag(m)) == m);
                }
            }
            k = k + 1;
        }
        Ok(())
    }
}

/// A conditioning table of a DAC segment, kept as read.
#[derive(Debug)]
pub struct ArithmeticTable {
    pub length: u16,
    /// Tc
    pub class: u8,
    /// Tb
    pub destination_id: u8,
    /// Cs
    pub value: u8,
}

impl ArithmeticTable {
    /// Splits a byte into class (high nibble) and destination (low nibble).
    pub fn class_and_destination_id(&mut self, byte: u8)
        ensures
            final(self).class == byte / 16,
            final(self).destination_id == byte % 16,
            final(self).length == old(self).length,
            final(self).value == old(self).value,
    {
        self.class = byte / 16;
        self.destination_id = byte % 16;
    }

    /// Reads the two bytes of one conditioning table.
    pub fn build(&mut self, length: u16, data: &Vec<u8>) -> (r: Result<(), JpegError>)
        ensures
            (data@.len() != length || data@.len() < 2) <==> r == Err::<(), JpegError>(
                JpegError::FramingError,
            ),
            r is Err ==> r == Err::<(), JpegError>(JpegError::FramingError),
            r is Ok ==> final(self).length == length && final(self).class == data@[0] / 16
                && final(self).destination_id == data@[0] % 16 && final(self).value == data@[1],
    {
        if data.len() != length as usize || data.len() < 2 {
            return Err(JpegError::FramingError);
        }
        self.length = length;
        self.class_and_destination_id(data[0]);
        self.value = data[1];
        Ok(())
    }
}

/// The restart interval of a DRI segment.
#[derive(Debug, Clone, Copy, PartialEq, Eq, Structural)]
pub struct RestartInterval {
    pub length: u16,
    /// Ri: MCUs per restart interval; 0 for none.
    pub interval: u16,
}

impl RestartInterval {
    /// Reads the two-byte interval.
    pub fn build(&mut self, length: u16, data: &Vec<u8>) -> (r: Result<(), JpegError>)
        ensures
            (data@.len() != length || data@.len() != 2) <==> r == Err::<(), JpegError>(
                JpegError::FramingError,
            ),
            r is Err ==> r == Err::<(), JpegError>(JpegError::FramingError),
            r is Ok ==> final(self).length == length && final(self).interval == be16(data@[0], data@[1]),
    {
        if data.len() != length as usize || data.len() != 2 {
            return Err(JpegError::FramingError);
        }
        self.length = length;
        self.interval = u16_from_be(data[0], data[1]);
        Ok(())
    }
}

/// The text of a COM segment.
#[derive(Debug)]
pub struct Comment {
    pub length: u16,
    pub comment_bytes: Vec<u8>,
}

impl Comment {
    /// Keeps the payload.
    pub fn build(&mut self, length: u16, data: &Vec<u8>) -> (r: Result<(), JpegError>)
        ensures
            data@.len() != length <==> r == Err::<(), JpegError>(JpegError::FramingError),
            r is Err ==> r == Err::<(), JpegError>(JpegError::FramingError),
            r is Ok ==> final(self).length == length && final(self).comment_bytes@ == data@,
    {
        if data.len() != length as usize {
            return Err(JpegError::FramingError);
        }
        self.length = length;
        self.comment_bytes = data.clone();
        Ok(())
    }
}

/// The payload of an APPn segment.
#[derive(Debug)]
pub struct ApplicationData {
    /// The APPn marker.
    pub marker: u8,
    pub length: u16,
    pub application_data: Vec<u8>,
}

impl ApplicationData {
    /// Keeps the marker and the payload.
    pub fn build(&mut self, marker: u8, length: u16, data: &Vec<u8>) -> (r: Result<(), JpegError>)
        ensures
            data@.len() != length <==> r == Err::<(), JpegError>(JpegError::FramingError),
            r is Err ==> r == Err::<(), JpegError>(JpegError::FramingError),
            r is Ok ==> final(self).marker == marker && final(self).length == length
                && final(self).application_data@ == data@,
    {
        if data.len() != length as usize {
            return Err(JpegError::FramingError);
        }
        self.length = length;
        self.marker = marker;
        self.application_data = data.clone();
        Ok(())
    }
}

/// The number of lines of a DNL segment.
#[derive(Debug, Clone, Copy, PartialEq, Eq, Structural)]
pub struct NumberOfLines {
    pub length: u16,
    /// NL
    pub total_lines: u16,
}

impl NumberOfLines {
    /// Reads the two-byte line count.
    pub fn build(&mut self, length: u16, data: &Vec<u8>) -> (r: Result<(), JpegError>)
        ensures
            (data@.len() != length || data@.len() != 2) <==> r == Err::<(), JpegError>(
                JpegError::FramingError,
            ),
            r is Err ==> r == Err::<(), JpegError>(JpegError::FramingError),
            r is Ok ==> final(self).length == length && final(self).total_lines == be16(data@[0], data@[1]),
    {
        if data.len() != length as usize || data.len() != 2 {
            return Err(JpegError::FramingError);
        }
        self.length = length;
        self.total_lines = u16_from_be(data[0], data[1]);
        Ok(())
    }
}

/// The expansion factors of an EXP segment.
#[derive(Debug, Clone, Copy, PartialEq, Eq, Structural)]
pub struct ExpandReference {
    pub length: u16,
    /// Eh
    pub expand_horizontally: u8,
    /// Ev
    pub expand_vertically: u8,
}

impl ExpandReference {
    /// Splits a byte into horizontal (high nibble) and vertical (low nibble) expansion.
    pub fn expand_horizontally_and_vertically(&mut self, byte: u8)
        ensures
            final(self).expand_horizontally == byte / 16,
            final(self).expand_vertically == byte % 16,
            final(self).length == old(self).length,
    {
        self.expand_horizontally = byte / 16;
        self.expand_vertically = byte % 16;
    }

    /// Reads the one-byte payload.
    pub fn build(&mut self, length: u16, data: &Vec<u8>) -> (r: Result<(), JpegError>)
        ensures
            (data@.len() != length || data@.len() != 1) <==> r == Err::<(), JpegError>(
                JpegError::FramingError,
            ),
            r is Err ==> r == Err::<(), JpegError>(JpegError::FramingError),
            r is Ok ==> final(self).length == length && final(self).expand_horizontally == data@[0] / 16
                && final(self).expand_vertically == data@[0] % 16,
    {
        if data.len() != length as usize || data.len() != 1 {
            return Err(JpegError::FramingError);
        }
        self.length = length;
        self.expand_horizontally_and_vertically(data[0]);
        Ok(())
    }
}

} // verus!
