use jpeg_decode::bmp::bmp_file_bytes;
use jpeg_decode::decoder::Image;
use jpeg_decode::error::JpegError;
use jpeg_decode::segments::{FrameComponent, FrameHeader, RestartInterval, ScanHeader};

#[test]
fn frame_header_fields() {
    let mut h = FrameHeader::empty();
    let data = vec![8, 0x01, 0x02, 0x00, 0x10, 3, 1, 0x22, 0, 2, 0x11, 1, 3, 0x11, 1];
    assert_eq!(h.build(15, 0xc0, &data), Ok(()));
    assert_eq!(h.total_vertical_lines, 258);
    assert_eq!(h.total_horizontal_lines, 16);
    assert_eq!(h.components.len(), 3);
    assert_eq!(
        h.components[0],
        FrameComponent { id: 1, horizontal_sample_factor: 2, vertical_sample_factor: 2, quantization_table_selector: 0 }
    );
}

#[test]
fn two_component_frame_is_unsupported() {
    let mut h = FrameHeader::empty();
    let data = vec![8, 0, 8, 0, 8, 2, 1, 0x11, 0, 2, 0x11, 0];
    assert_eq!(h.build(12, 0xc0, &data), Err(JpegError::UnsupportedFeature));
}

#[test]
fn sampling_factor_five_is_unsupported() {
    let mut h = FrameHeader::empty();
    let data = vec![8, 0, 8, 0, 8, 1, 1, 0x51, 0];
    assert_eq!(h.build(9, 0xc0, &data), Err(JpegError::UnsupportedFeature));
}

#[test]
fn frame_length_mismatch_is_a_framing_error() {
    let mut h = FrameHeader::empty();
    let data = vec![8, 0, 8, 0, 8, 1, 1, 0x11];
    assert_eq!(h.build(8, 0xc0, &data), Err(JpegError::FramingError));
}

#[test]
fn twelve_bit_precision_is_unsupported() {
    let mut h = FrameHeader::empty();
    let data = vec![12, 0, 8, 0, 8, 1, 1, 0x11, 0];
    assert_eq!(h.build(9, 0xc0, &data), Err(JpegError::UnsupportedFeature));
}

#[test]
fn scan_header_fields_and_spectral_selection() {
    let mut s = ScanHeader::empty();
    assert_eq!(s.build(8, &vec![1, 1, 0x10, 0, 63, 0]), Err(JpegError::FramingError));
    assert_eq!(s.build(6, &vec![1, 1, 0x10, 0, 63, 0]), Ok(()));
    assert_eq!(s.components[0].dc_entropy_table_dest, 1);
    assert_eq!(s.components[0].ac_entropy_table_dest, 0);
    let mut p = ScanHeader::empty();
    assert_eq!(p.build(6, &vec![1, 1, 0x00, 1, 5, 0]), Err(JpegError::UnsupportedFeature));
}

#[test]
fn restart_interval_is_big_endian() {
    let mut ri = RestartInterval { length: 0, interval: 0 };
    assert_eq!(ri.build(2, &vec![0x01, 0x02]), Ok(()));
    assert_eq!(ri.interval, 0x0102);
}

#[test]
fn bmp_rows_are_bottom_up_bgr_and_padded() {
    // 1 pixel wide, 2 high: top pixel (1, 2, 3), bottom pixel (4, 5, 6).
    let image = Image { width: 1, height: 2, channels: 3, pixels: vec![1, 2, 3, 4, 5, 6] };
    let bmp = bmp_file_bytes(&image).unwrap();
    assert_eq!(bmp.len(), 54 + 2 * 4);
    assert_eq!(&bmp[0..2], b"BM");
    assert_eq!(&bmp[2..6], &[62, 0, 0, 0]);
    assert_eq!(&bmp[10..14], &[54, 0, 0, 0]);
    assert_eq!(&bmp[18..22], &[1, 0, 0, 0]);
    assert_eq!(&bmp[22..26], &[2, 0, 0, 0]);
    assert_eq!(bmp[28], 24);
    assert_eq!(&bmp[54..62], &[6, 5, 4, 0, 3, 2, 1, 0]);
}

#[test]
fn grey_bmp_repeats_the_level() {
    let image = Image { width: 2, height: 1, channels: 1, pixels: vec![7, 9] };
    let bmp = bmp_file_bytes(&image).unwrap();
    assert_eq!(bmp.len(), 54 + 8);
    assert_eq!(&bmp[54..62], &[7, 7, 7, 9, 9, 9, 0, 0]);
}
