use jpeg_decode::bit_reader::BitReader;
use jpeg_decode::color::ycbcr_to_rgb;
use jpeg_decode::decoder::decode;
use jpeg_decode::entropy::{decode_block, extend, zigzag_index};
use jpeg_decode::error::JpegError;
use jpeg_decode::frame::decode_huffman_to_blocks;
use jpeg_decode::framer::{parse_frame, read_entropy_data};
use jpeg_decode::huffman::HuffmanTable;
use jpeg_decode::idct::idct_block;
use jpeg_decode::mcu::{dequantize, dequantize_block, mcu_geometry, McuGeometry};
use jpeg_decode::segments::{FrameComponent, QuantizationTable};
use jpeg_decode::upsample::upscale_block;

fn segment(marker: u8, payload: &[u8]) -> Vec<u8> {
    let len = payload.len() + 2;
    let mut v = vec![0xff, marker, (len >> 8) as u8, (len & 0xff) as u8];
    v.extend_from_slice(payload);
    v
}

fn dht(class_dest: u8, counts: &[u8; 16], values: &[u8]) -> Vec<u8> {
    let mut p = vec![class_dest];
    p.extend_from_slice(counts);
    p.extend_from_slice(values);
    segment(0xc4, &p)
}

fn dqt_ones(dest: u8) -> Vec<u8> {
    let mut p = vec![dest];
    p.extend_from_slice(&[1u8; 64]);
    segment(0xdb, &p)
}

fn one_code(len: usize) -> [u8; 16] {
    let mut c = [0u8; 16];
    c[len - 1] = 1;
    c
}

/// A grayscale image `width` x 8 whose DC table has symbol `dc_symbol` at code 00 and whose
/// AC table has EOB at code 0.
fn grey_stream(width: u16, dc_symbol: u8, restart: Option<u16>, scan: &[u8]) -> Vec<u8> {
    let mut v = vec![0xff, 0xd8];
    v.extend(dqt_ones(0));
    v.extend(segment(0xc0, &[8, 0, 8, (width >> 8) as u8, (width & 0xff) as u8, 1, 1, 0x11, 0]));
    v.extend(dht(0x00, &one_code(2), &[dc_symbol]));
    v.extend(dht(0x10, &one_code(1), &[0x00]));
    if let Some(r) = restart {
        v.extend(segment(0xdd, &[(r >> 8) as u8, (r & 0xff) as u8]));
    }
    v.extend(segment(0xda, &[1, 1, 0x00, 0, 63, 0]));
    v.extend_from_slice(scan);
    v.extend_from_slice(&[0xff, 0xd9]);
    v
}

fn simple_table(class_dest: u8, counts: &[u8; 16], values: &[u8]) -> HuffmanTable {
    let mut data = vec![class_dest];
    data.extend_from_slice(counts);
    data.extend_from_slice(values);
    let mut t = HuffmanTable::empty();
    t.build(data.len() as u16, &data).unwrap();
    t
}

#[test]
fn two_byte_file_has_no_frame() {
    let r = decode(&vec![0xff, 0xd8, 0xff, 0xd9]);
    assert!(matches!(r, Err(JpegError::FramingError)));
}

#[test]
fn missing_soi_is_a_framing_error() {
    assert!(matches!(decode(&vec![0x00, 0xd8, 0xff, 0xd9]), Err(JpegError::FramingError)));
}

#[test]
fn byte_stuffing_is_removed() {
    let bytes = vec![0x12, 0x34, 0xff, 0x00, 0x56, 0xff, 0xd9];
    let (segs, marks, code, next) = read_entropy_data(&bytes, 0).unwrap();
    assert_eq!(segs, vec![vec![0x12, 0x34, 0xff, 0x56]]);
    assert!(marks.is_empty());
    assert_eq!(code, 0xd9);
    assert_eq!(next, 7);
}

#[test]
fn fill_bytes_and_restart_markers_split_segments() {
    let bytes = vec![0x01, 0xff, 0xff, 0xd3, 0x02, 0xff, 0xff, 0xd9];
    let (segs, marks, code, _next) = read_entropy_data(&bytes, 0).unwrap();
    assert_eq!(segs, vec![vec![0x01], vec![0x02]]);
    assert_eq!(marks, vec![3]);
    assert_eq!(code, 0xd9);
}

#[test]
fn single_grey_block_dc_only() {
    // DC: code 00, category 3, bits 100 (diff 4); AC: EOB code 0; padded with ones.
    let img = decode(&grey_stream(8, 0x03, None, &[0b0010_0011])).unwrap();
    assert_eq!((img.width, img.height, img.channels), (8, 8, 1));
    assert_eq!(img.pixels.len(), 64);
    let corner = img.pixels[0] as i32;
    assert!((corner - 129).abs() <= 1);
    assert!(img.pixels.iter().all(|&p| p == img.pixels[0]));
}

#[test]
fn chroma_block_upsamples_to_four_blocks() {
    let block = [10i16; 64];
    let up = upscale_block(&block, 2, 2);
    assert_eq!(up.len(), 4);
    for b in up.iter() {
        assert!(b.iter().all(|&s| s == 10));
    }
}

#[test]
fn upscale_block_replicates_nearest_sample() {
    let mut block = [0i16; 64];
    for k in 0..64 {
        block[k] = k as i16;
    }
    let up = upscale_block(&block, 2, 1);
    assert_eq!(up.len(), 2);
    assert_eq!(up[0][0], 0);
    assert_eq!(up[0][1], 0);
    assert_eq!(up[0][2], 1);
    assert_eq!(up[1][0], 4);
    assert_eq!(up[1][8 * 3 + 7], 8 * 3 + 7);
}

#[test]
fn ycbcr_edges() {
    assert_eq!(ycbcr_to_rgb(0, 0, 0), (128, 128, 128));
    assert_eq!(ycbcr_to_rgb(255, 0, 0), (255, 255, 255));
}

#[test]
fn ycbcr_formula_values() {
    // R = 10 + 1.402 * 20 = 38.04, G = 10 - 0.344136 * (-30) - 0.714136 * 20 = 6.04128,
    // B = 10 + 1.772 * (-30) = -43.16
    assert_eq!(ycbcr_to_rgb(10, -30, 20), (128 + 38, 128 + 6, 128 - 43));
}

#[test]
fn rgb_values_stay_in_range() {
    for &(y, cb, cr) in [(32767i16, 32767i16, -32768i16), (-32768, -32768, 32767), (100, -200, 300)].iter() {
        let (r, g, b) = ycbcr_to_rgb(y, cb, cr);
        for v in [r, g, b].iter() {
            assert!(*v >= 0 && *v <= 255);
        }
    }
}

#[test]
fn restart_resets_predictor() {
    // Two MCUs of one block each, RST0 between them; both blocks carry diff 4.
    let stream = grey_stream(16, 0x03, Some(1), &[0b0010_0011, 0xff, 0xd0, 0b0010_0011]);
    let frame = parse_frame(&stream).unwrap();
    let geometry = mcu_geometry(&frame.frame_header);
    let blocks = decode_huffman_to_blocks(&frame, &geometry).unwrap();
    assert_eq!(blocks.len(), 2);
    assert_eq!(blocks[0][0], 4);
    assert_eq!(blocks[1][0], 4);
    let img = decode(&stream).unwrap();
    let alone = decode(&grey_stream(8, 0x03, None, &[0b0010_0011])).unwrap();
    for y in 0..8 {
        for x in 0..8 {
            assert_eq!(img.pixels[y * 16 + 8 + x], alone.pixels[y * 8 + x]);
        }
    }
}

#[test]
fn without_restart_predictor_accumulates() {
    // The same two blocks in one segment: the second DC is 4 + 4.
    let stream = grey_stream(16, 0x03, None, &[0b0010_0000, 0b1000_1111]);
    let frame = parse_frame(&stream).unwrap();
    let geometry = mcu_geometry(&frame.frame_header);
    let blocks = decode_huffman_to_blocks(&frame, &geometry).unwrap();
    assert_eq!(blocks[0][0], 4);
    assert_eq!(blocks[1][0], 8);
}

#[test]
fn missing_restart_marker_is_a_restart_error() {
    let stream = grey_stream(16, 0x03, Some(1), &[0b0010_0000, 0b1000_1111]);
    assert!(matches!(decode(&stream), Err(JpegError::RestartError)));
}

#[test]
fn wrong_restart_number_is_a_restart_error() {
    let stream = grey_stream(16, 0x03, Some(1), &[0b0010_0011, 0xff, 0xd1, 0b0010_0011]);
    assert!(matches!(decode(&stream), Err(JpegError::RestartError)));
}

#[test]
fn truncated_scan_is_a_bitstream_error() {
    let stream = grey_stream(8, 0x03, None, &[]);
    assert!(matches!(decode(&stream), Err(JpegError::BitstreamError)));
}

#[test]
fn progressive_frame_is_unsupported() {
    let mut v = vec![0xff, 0xd8];
    v.extend(segment(0xc2, &[8, 0, 8, 0, 8, 1, 1, 0x11, 0]));
    v.extend_from_slice(&[0xff, 0xd9]);
    assert!(matches!(decode(&v), Err(JpegError::UnsupportedFeature)));
}

#[test]
fn undefined_huffman_table_is_a_table_error() {
    let mut v = vec![0xff, 0xd8];
    v.extend(dqt_ones(0));
    v.extend(segment(0xc0, &[8, 0, 8, 0, 8, 1, 1, 0x11, 0]));
    v.extend(segment(0xda, &[1, 1, 0x00, 0, 63, 0]));
    v.extend_from_slice(&[0x23, 0xff, 0xd9]);
    assert!(matches!(decode(&v), Err(JpegError::TableError)));
}

#[test]
fn huffman_count_mismatch_is_a_table_error() {
    let mut t = HuffmanTable::empty();
    let mut data = vec![0x00];
    data.extend_from_slice(&one_code(2));
    data.extend_from_slice(&[1, 2]);
    assert_eq!(t.build(data.len() as u16, &data), Err(JpegError::TableError));
}

#[test]
fn oversubscribed_huffman_table_is_a_table_error() {
    let mut counts = [0u8; 16];
    counts[0] = 3;
    let mut t = HuffmanTable::empty();
    let mut data = vec![0x00];
    data.extend_from_slice(&counts);
    data.extend_from_slice(&[1, 2, 3]);
    assert_eq!(t.build(data.len() as u16, &data), Err(JpegError::TableError));
}

#[test]
fn standard_dc_table_codes() {
    let counts = [0u8, 1, 5, 1, 1, 1, 1, 1, 1, 0, 0, 0, 0, 0, 0, 0];
    let t = simple_table(0x00, &counts, &[0, 1, 2, 3, 4, 5, 6, 7, 8, 9, 10, 11]);
    let sizes = t.generate_size_table();
    assert_eq!(sizes, vec![2, 3, 3, 3, 3, 3, 4, 5, 6, 7, 8, 9]);
    let codes = t.generate_code_table(&sizes).unwrap();
    assert_eq!(codes, vec![0b00, 0b010, 0b011, 0b100, 0b101, 0b110, 0b1110, 0b11110, 0b111110, 0b1111110, 0b11111110, 0b111111110]);
    assert_eq!(t.mincode[2], 0b010);
    assert_eq!(t.maxcode[2], Some(0b110));
    assert_eq!(t.valptr[2], 1);
    assert_eq!(t.maxcode[0], None);
}

#[test]
fn each_code_decodes_to_its_symbol() {
    let counts = [0u8, 1, 5, 1, 1, 1, 1, 1, 1, 0, 0, 0, 0, 0, 0, 0];
    let values = [0u8, 1, 2, 3, 4, 5, 6, 7, 8, 9, 10, 11];
    let t = simple_table(0x00, &counts, &values);
    let sizes = t.generate_size_table();
    let codes = t.generate_code_table(&sizes).unwrap();
    for k in 0..values.len() {
        // The code, left-aligned in two bytes, followed by ones.
        let len = sizes[k] as u32;
        let word: u16 = ((codes[k] as u32) << (16 - len)) as u16 | ((1u32 << (16 - len)) - 1) as u16;
        let mut reader = BitReader::new(&vec![(word >> 8) as u8, (word & 0xff) as u8]);
        let sym = jpeg_decode::entropy::next_symbol(&mut reader, &t);
        assert_eq!(sym, Some(values[k]));
        assert_eq!(reader.byte_idx * 8 + reader.bit_idx, len as usize);
    }
}

#[test]
fn extend_examples() {
    assert_eq!(extend(0, 0), 0);
    assert_eq!(extend(0, 1), -1);
    assert_eq!(extend(1, 1), 1);
    assert_eq!(extend(0b100, 3), 4);
    assert_eq!(extend(0b011, 3), -4);
    assert_eq!(extend(0, 16), -65535);
    assert_eq!(extend(0xffff, 16), 65535);
}

#[test]
fn extend_round_trip_values() {
    for s in 1u8..=11 {
        for raw in 0u32..(1u32 << s) {
            let v = extend(raw as u16, s);
            let back = if v < 0 { v + (1i32 << s) - 1 } else { v };
            assert_eq!(back as u32, raw);
        }
    }
}

#[test]
fn zigzag_is_a_permutation() {
    let mut seen = [false; 64];
    for k in 0..64 {
        let n = zigzag_index(k);
        assert!(!seen[n]);
        seen[n] = true;
    }
    assert_eq!(zigzag_index(0), 0);
    assert_eq!(zigzag_index(2), 8);
    assert_eq!(zigzag_index(63), 63);
}

#[test]
fn coefficients_after_eob_are_zero() {
    // DC: symbol 0 (no bits); AC table: 0x01 at code 0 (one value bit), EOB at code 10.
    let dc = simple_table(0x00, &one_code(1), &[0x00]);
    let mut ac_counts = [0u8; 16];
    ac_counts[0] = 1;
    ac_counts[1] = 1;
    let ac = simple_table(0x10, &ac_counts, &[0x01, 0x00]);
    // bits: DC "0", AC 0x01 "0" + value bit "1", AC 0x01 "0" + "0", EOB "10", then ones.
    let mut reader = BitReader::new(&vec![0b0010_0101, 0xff]);
    let block = decode_block(0, &mut reader, &dc, &ac).unwrap();
    assert_eq!(block[0], 0);
    assert_eq!(block[zigzag_index(1)], 1);
    assert_eq!(block[zigzag_index(2)], -1);
    for k in 3..64 {
        assert_eq!(block[zigzag_index(k)], 0);
    }
}

#[test]
fn four_two_zero_mcu_has_six_blocks() {
    // 16x16, Y 2x2, Cb and Cr 1x1: one MCU of 4 + 1 + 1 blocks, each DC 0 and EOB.
    let mut v = vec![0xff, 0xd8];
    v.extend(dqt_ones(0));
    v.extend(segment(0xc0, &[8, 0, 16, 0, 16, 3, 1, 0x22, 0, 2, 0x11, 0, 3, 0x11, 0]));
    v.extend(dht(0x00, &one_code(1), &[0x00]));
    v.extend(dht(0x10, &one_code(1), &[0x00]));
    v.extend(segment(0xda, &[3, 1, 0x00, 2, 0x00, 3, 0x00, 0, 63, 0]));
    v.extend_from_slice(&[0x00, 0x0f, 0xff, 0xd9]);
    let frame = parse_frame(&v).unwrap();
    let geometry = mcu_geometry(&frame.frame_header);
    assert_eq!((geometry.mcus_x, geometry.mcus_y), (1, 1));
    let blocks = decode_huffman_to_blocks(&frame, &geometry).unwrap();
    assert_eq!(blocks.len(), 6);
    let img = decode(&v).unwrap();
    assert_eq!(img.channels, 3);
    assert_eq!(img.pixels.len(), 16 * 16 * 3);
    assert!(img.pixels.iter().all(|&p| p == 128));
}

#[test]
fn idct_of_dc_only_block_is_flat() {
    let mut block = [0i16; 64];
    block[0] = 80;
    let out = idct_block(&block);
    assert!(out.iter().all(|&s| s == 10));
}

#[test]
fn idct_matches_reference_within_one() {
    let mut block = [0i16; 64];
    for k in 0..64 {
        block[k] = ((k as i32 * 37) % 201 - 100) as i16;
    }
    let out = idct_block(&block);
    for y in 0..8 {
        for x in 0..8 {
            let mut sum = 0.0f64;
            for v in 0..8 {
                for u in 0..8 {
                    let cu = if u == 0 { 1.0 / 2f64.sqrt() } else { 1.0 };
                    let cv = if v == 0 { 1.0 / 2f64.sqrt() } else { 1.0 };
                    sum += cu * cv * block[v * 8 + u] as f64
                        * ((2.0 * x as f64 + 1.0) * u as f64 * std::f64::consts::PI / 16.0).cos()
                        * ((2.0 * y as f64 + 1.0) * v as f64 * std::f64::consts::PI / 16.0).cos();
                }
            }
            let reference = (sum / 4.0).round() as i32;
            assert!((out[y * 8 + x] as i32 - reference).abs() <= 1);
        }
    }
}

#[test]
fn dequantize_multiplies_and_saturates() {
    let mut qt = QuantizationTable::default();
    let mut data = vec![0x00];
    data.extend((0..64).map(|k| if k == 0 { 200 } else { 3 }));
    qt.build(65, &data).unwrap();
    let mut block = [0i16; 64];
    block[0] = 200;
    block[1] = -5;
    let out = dequantize_block(&block, &qt);
    assert_eq!(out[0], 32767);
    assert_eq!(out[1], -15);
}

#[test]
fn quantization_table_is_stored_in_natural_order() {
    let mut qt = QuantizationTable::default();
    let mut data = vec![0x02];
    data.extend(0..64u8);
    qt.build(65, &data).unwrap();
    assert_eq!(qt.destination_id, 2);
    for k in 0..64 {
        assert_eq!(qt.elements[zigzag_index(k)], k as u8);
    }
}

#[test]
fn sixteen_bit_quantization_table_is_unsupported() {
    let mut qt = QuantizationTable::default();
    let mut data = vec![0x10];
    data.extend([1u8; 64].iter());
    assert_eq!(qt.build(65, &data), Err(JpegError::UnsupportedFeature));
}

#[test]
fn bit_reader_reads_msb_first_and_aligns() {
    let mut r = BitReader::new(&vec![0b1010_0000, 0xff]);
    assert_eq!(r.next_bit(), Some(1));
    assert_eq!(r.next_bit(), Some(0));
    assert_eq!(r.next_bits(3), Some(0b100));
    r.align();
    assert_eq!((r.byte_idx, r.bit_idx), (1, 0));
    assert_eq!(r.next_bits(8), Some(0xff));
    assert_eq!(r.next_bit(), None);
    assert_eq!(r.next_bits(1), None);
}

#[test]
fn unresolved_code_consumes_seventeen_bits() {
    let mut counts = [0u8; 16];
    counts[1] = 3;
    let t = simple_table(0x00, &counts, &[0x05, 0x06, 0x07]);
    let mut reader = BitReader::new(&vec![0xff, 0xff, 0xff]);
    assert_eq!(jpeg_decode::entropy::next_symbol(&mut reader, &t), None);
    assert_eq!((reader.byte_idx, reader.bit_idx), (2, 1));
}

#[test]
fn later_segments_replace_earlier_tables() {
    let mut v = vec![0xff, 0xd8];
    v.extend(dqt_ones(0));
    let mut twos = vec![0x00];
    twos.extend_from_slice(&[2u8; 64]);
    v.extend(segment(0xdb, &twos));
    v.extend(segment(0xdd, &[0, 5]));
    v.extend(segment(0xdd, &[0, 1]));
    v.extend(segment(0xc0, &[8, 0, 8, 0, 8, 1, 1, 0x11, 0]));
    v.extend(dht(0x00, &one_code(1), &[0x04]));
    v.extend(dht(0x00, &one_code(2), &[0x03]));
    v.extend(dht(0x10, &one_code(1), &[0x00]));
    v.extend(segment(0xda, &[1, 1, 0x00, 0, 63, 0]));
    v.extend_from_slice(&[0x23, 0xff, 0xd9]);
    let frame = parse_frame(&v).unwrap();
    let q = frame.quantization_tables[0].as_ref().unwrap();
    assert!(q.elements.iter().all(|&e| e == 2));
    assert_eq!(frame.restart_interval.unwrap().interval, 1);
    let dc = frame.dc_huffman_tables[0].as_ref().unwrap();
    assert_eq!(dc.huffman_values, vec![0x03]);
    assert_eq!(dc.huffman_size_lengths, one_code(2));
    assert!(frame.dc_huffman_tables[1].is_none());
    assert_eq!(frame.scans.len(), 1);
    assert_eq!(frame.scans[0].entropy_coded_segments, vec![vec![0x23]]);
}

#[test]
fn dequantize_leaves_padding_slots_zero() {
    let mut qt = QuantizationTable::default();
    let mut data = vec![0x00];
    data.extend([3u8; 64].iter());
    qt.build(65, &data).unwrap();
    let geometry = McuGeometry { max_horizontal_factor: 2, max_vertical_factor: 1, mcus_x: 1, mcus_y: 1 };
    let comps = vec![FrameComponent { id: 1, horizontal_sample_factor: 1, vertical_sample_factor: 1, quantization_table_selector: 0 }];
    let mcus = vec![vec![vec![[1i16; 64], [5i16; 64]]]];
    let out = dequantize(&mcus, &comps, &vec![Some(qt), None, None, None], &geometry).unwrap();
    assert!(out[0][0][0].iter().all(|&s| s == 3));
    assert!(out[0][0][1].iter().all(|&s| s == 0));
}

#[test]
fn canonical_codes_are_prefix_free() {
    let counts = [0u8, 1, 5, 1, 1, 1, 1, 1, 1, 0, 0, 0, 0, 0, 0, 0];
    let t = simple_table(0x00, &counts, &[0, 1, 2, 3, 4, 5, 6, 7, 8, 9, 10, 11]);
    let sizes = t.generate_size_table();
    let codes = t.generate_code_table(&sizes).unwrap();
    for a in 0..codes.len() {
        for b in 0..codes.len() {
            if a != b && sizes[a] <= sizes[b] {
                assert_ne!(codes[b] >> (sizes[b] - sizes[a]), codes[a]);
            }
        }
    }
}
