//! The decoder's entry points: from a frame, or from the bytes of a JPEG stream, to pixels.
use vstd::prelude::*;
use crate::color::{converted_mcus, ycbcr_to_rgb_mcu};
use crate::error::JpegError;
use crate::frame::{
    Frame, blocks_view, decode_huffman_to_blocks, mcu_layout, scan_setup_error, scan_state,
};
use crate::framer::{SOI, frame_matches, marker_at, parse_frame, stream_frame};
use crate::idct::{idct, idct_mcus};
use crate::mcu::{
    McuGeometry, ceil_div, dequantize, dequantized_mcus, max_h, max_v, mcu_geometry,
    partition_blocks_to_mcus, partitioned_mcus, quant_tables_defined,
};
use crate::raster::{bmp_data_from_mcus, raster_of};
use crate::segments::{FrameHeader, blocks_per_mcu};
use crate::upsample::{upscale, upscaled_mcus};

verus! {

/// A decoded image: `height` rows of `width` pixels from the top, each of `channels` bytes
/// (R, G, B, or one grey level).
#[derive(Debug)]
pub struct Image {
    pub width: u16,
    pub height: u16,
    pub channels: u8,
    pub pixels: Vec<u8>,
}

/// How the frame that `h` describes is cut into MCUs.
pub open spec fn frame_geometry(h: FrameHeader) -> McuGeometry {
    McuGeometry {
        max_horizontal_factor: max_h(h.components@) as usize,
        max_vertical_factor: max_v(h.components@) as usize,
        mcus_x: ceil_div(h.total_horizontal_lines as nat, 8 * max_h(h.components@)) as usize,
        mcus_y: ceil_div(h.total_vertical_lines as nat, 8 * max_v(h.components@)) as usize,
    }
}

/// The blocks of the frame's scan, as `scan_state` gives them after the last MCU.
pub open spec fn frame_scan(frame: Frame) -> Result<crate::frame::ScanState, JpegError> {
    let comps = frame.frame_header.components@;
    scan_state(frame, mcu_layout(comps), frame_geometry(frame.frame_header).total() * blocks_per_mcu(comps))
}

/// Each stage of decoding applied to the result of the one before: the scan's blocks, grouped
/// into MCUs, dequantized, inverse-transformed, upsampled, color-converted and laid out
/// as a raster.
pub open spec fn pipeline(
    frame: Frame,
    blocks: Seq<[i16; 64]>,
    grouped: Seq<Vec<Vec<[i16; 64]>>>,
    dequantized: Seq<Vec<Vec<[i16; 64]>>>,
    spatial: Seq<Vec<Vec<[i16; 64]>>>,
    upscaled: Seq<Vec<Vec<[i16; 64]>>>,
    converted: Seq<Vec<Vec<[i16; 64]>>>,
    pixels: Seq<u8>,
) -> bool {
    let h = frame.frame_header;
    let g = frame_geometry(h);
    let comps = h.components@;
    let slots = (g.max_horizontal_factor * g.max_vertical_factor) as nat;
    &&& blocks_view(blocks) == frame_scan(frame)->Ok_0.blocks
    &&& partitioned_mcus(blocks, g, comps, grouped)
    &&& dequantized_mcus(grouped, comps, frame.quantization_tables@, g, dequantized)
    &&& idct_mcus(dequantized, comps.len(), slots, spatial)
    &&& upscaled_mcus(spatial, g, comps, upscaled)
    &&& converted_mcus(upscaled, comps.len(), slots, converted)
    &&& raster_of(
        converted,
        g,
        comps.len() as int,
        h.total_horizontal_lines as int,
        h.total_vertical_lines as int,
        pixels,
    )
}

/// `pixels` is what the decoding stages make of the frame.
pub open spec fn decoded_pixels(frame: Frame, pixels: Seq<u8>) -> bool {
    exists|
        blocks: Seq<[i16; 64]>,
        grouped: Seq<Vec<Vec<[i16; 64]>>>,
        dequantized: Seq<Vec<Vec<[i16; 64]>>>,
        spatial: Seq<Vec<Vec<[i16; 64]>>>,
        upscaled: Seq<Vec<Vec<[i16; 64]>>>,
        converted: Seq<Vec<Vec<[i16; 64]>>>,
    | #[trigger] pipeline(frame, blocks, grouped, dequantized, spatial, upscaled, converted, pixels)
}

proof fn lemma_ceil_covers(a: nat, b: nat)
    requires
        b > 0,
    ensures
        ceil_div(a, b) * b >= a,
{
    let q = (a + b - 1) / (b as int);
    vstd::arithmetic::div_mod::lemma_fundamental_div_mod(a + b - 1, b as int);
    vstd::arithmetic::div_mod::lemma_mod_bound(a + b - 1, b as int);
    assert(q * b >= a) by (nonlinear_arith)
        requires
            a + b - 1 == b * q + (a + b - 1) % (b as int),
            (a + b - 1) % (b as int) < b,
    ;
}

/// The result of decoding `frame`: the setup error, else the scan's error, else a
/// `TableError` where a component selects no quantization table, else the image whose pixels
/// the decoding stages make of the frame.
pub open spec fn decode_outcome(frame: Frame, r: Result<Image, JpegError>) -> bool {
    &&& scan_setup_error(frame) matches Some(e) ==> r == Err::<Image, JpegError>(e)
    &&& scan_setup_error(frame) is None ==> (frame_scan(frame) matches Err(e) ==> r == Err::<Image, JpegError>(e))
    &&& scan_setup_error(frame) is None && frame_scan(frame) is Ok ==> (r is Ok <==> quant_tables_defined(
        frame.frame_header.components@,
        frame.quantization_tables@,
    ))
    &&& r is Err && scan_setup_error(frame) is None && frame_scan(frame) is Ok ==> r == Err::<Image, JpegError>(
        JpegError::TableError,
    )
    &&& r matches Ok(img) ==> {
        &&& img.width == frame.frame_header.total_horizontal_lines
        &&& img.height == frame.frame_header.total_vertical_lines
        &&& img.channels == frame.frame_header.total_components
        &&& img.pixels@.len() == img.width as int * img.height as int * img.channels as int
        &&& decoded_pixels(frame, img.pixels@)
    }
}

/// Decodes the pixels of a parsed frame: entropy decoding, grouping into MCUs,
/// dequantization, inverse DCT, upsampling, color conversion and raster assembly.
pub fn decode_frame(frame: &Frame) -> (r: Result<Image, JpegError>)
    requires
        frame.wf(),
    ensures
        decode_outcome(*frame, r),
{
    let header = &frame.frame_header;
    let geometry = mcu_geometry(header);
    assert(geometry == frame_geometry(*header));
    assert(frame_scan(*frame) == scan_state(
        *frame,
        mcu_layout(frame.frame_header.components@),
        geometry.total() * blocks_per_mcu(frame.frame_header.components@),
    ));
    let blocks = match decode_huffman_to_blocks(frame, &geometry) {
        Ok(b) => b,
        Err(e) => {
            return Err(e);
        },
    };
    let comps = &header.components;
    let nc = header.total_components;
    assert(geometry.max_horizontal_factor * geometry.max_vertical_factor <= 16) by (nonlinear_arith)
        requires
            geometry.max_horizontal_factor <= 4,
            geometry.max_vertical_factor <= 4,
    ;
    let slots = geometry.max_horizontal_factor * geometry.max_vertical_factor;
    let mcus_grouped = partition_blocks_to_mcus(&blocks, &geometry, comps);
    let mcus_dq = match dequantize(&mcus_grouped, comps, &frame.quantization_tables, &geometry) {
        Ok(m) => m,
        Err(e) => {
            return Err(e);
        },
    };
    let mcus_spatial = idct(&mcus_dq, comps.len(), slots);
    let mcus_up = upscale(&mcus_spatial, &geometry, comps);
    let mcus = ycbcr_to_rgb_mcu(&mcus_up, nc, slots);
    proof {
        lemma_ceil_covers(header.total_horizontal_lines as nat, (8 * geometry.max_horizontal_factor) as nat);
        lemma_ceil_covers(header.total_vertical_lines as nat, (8 * geometry.max_vertical_factor) as nat);
        assert(8 * geometry.max_horizontal_factor * geometry.mcus_x == geometry.mcus_x * (8 * geometry.max_horizontal_factor)) by (nonlinear_arith);
        assert(8 * geometry.max_vertical_factor * geometry.mcus_y == geometry.mcus_y * (8 * geometry.max_vertical_factor)) by (nonlinear_arith);
    }
    let ghost grouped = mcus_grouped@;
    let pixels = bmp_data_from_mcus(
        &mcus,
        nc,
        header.total_horizontal_lines,
        header.total_vertical_lines,
        &geometry,
    );
    assert(pipeline(*frame, blocks@, grouped, mcus_dq@, mcus_spatial@, mcus_up@, mcus@, pixels@));
    Ok(Image {
        width: header.total_horizontal_lines,
        height: header.total_vertical_lines,
        channels: nc,
        pixels,
    })
}

/// Decodes a baseline JPEG stream into pixels. Frames coded as several scans are refused
/// with `UnsupportedFeature` (see `scan_setup_error`).
pub fn decode(bytes: &Vec<u8>) -> (r: Result<Image, JpegError>)
    ensures
        !(marker_at(bytes@, 0) matches Ok((code, _next)) && code == SOI) ==> r == Err::<Image, JpegError>(
            JpegError::FramingError,
        ),
        r matches Ok(img) ==> {
            &&& img.channels == 1 || img.channels == 3
            &&& img.width > 0
            &&& img.height > 0
        },
        match stream_frame(bytes@) {
            Err(e) => r == Err::<Image, JpegError>(e),
            Ok(m) => exists|frame: Frame| #[trigger] frame_matches(frame, m) && frame.wf() && decode_outcome(frame, r),
        },
{
    let frame = match parse_frame(bytes) {
        Ok(f) => f,
        Err(e) => {
            return Err(e);
        },
    };
    let r = decode_frame(&frame);
    proof {
        assert(frame_matches(frame, stream_frame(bytes@)->Ok_0));
    }
    r
}

} // verus!
