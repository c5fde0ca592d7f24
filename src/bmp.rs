//! Serialisation of a decoded image as a 24-bit uncompressed BMP file.
use vstd::prelude::*;
use crate::decoder::Image;

verus! {

/// The four little-endian bytes of `x`.
pub open spec fn le32(x: nat) -> Seq<u8> {
    seq![(x % 256) as u8, ((x / 256) % 256) as u8, ((x / 65536) % 256) as u8, ((x / 16777216) % 256) as u8]
}

/// Bytes per stored row: three per pixel, padded to a multiple of four.
pub open spec fn bmp_row_size(width: nat) -> nat {
    3 * width + width % 4
}

/// Size of the whole file: both headers and the padded rows.
pub open spec fn bmp_file_size(width: nat, height: nat) -> nat {
    54 + bmp_row_size(width) * height
}

/// The file header and the BITMAPINFOHEADER of a 24-bit bottom-up image.
pub open spec fn bmp_header(width: nat, height: nat) -> Seq<u8> {
    seq![0x42u8, 0x4d] + le32(bmp_file_size(width, height)) + le32(0) + le32(54) + le32(40) + le32(width)
        + le32(height) + seq![1u8, 0, 24, 0] + le32(0) + le32(bmp_row_size(width) * height) + le32(0)
        + le32(0) + le32(0) + le32(0)
}

/// Byte `o` of stored row `r`: rows run from the bottom of the image up, pixels are written
/// blue, green, red (a grey level three times), and the padding is zero.
pub open spec fn bmp_pixel_byte(pixels: Seq<u8>, width: nat, height: nat, channels: nat, r: int, o: int) -> u8 {
    if o >= 3 * width {
        0
    } else {
        let x = o / 3;
        let y = height - 1 - r;
        let c = if channels == 3 { 2 - o % 3 } else { 0 };
        pixels[(y * width + x) * channels + c]
    }
}

fn push_le32(out: &mut Vec<u8>, x: u32)
    ensures
        final(out)@ == old(out)@ + le32(x as nat),
{
    out.push((x % 256) as u8);
    out.push(((x / 256) % 256) as u8);
    out.push(((x / 65536) % 256) as u8);
    out.push(((x / 16777216) % 256) as u8);
    assert(final(out)@ =~= old(out)@ + le32(x as nat));
}

proof fn lemma_index_split(q: int, r: int, d: int)
    requires
        0 <= r < d,
        0 <= q,
    ensures
        (q * d + r) / d == q,
        (q * d + r) % d == r,
{
    vstd::arithmetic::div_mod::lemma_fundamental_div_mod_converse(q * d + r, d, q, r);
}

/// The bytes of a BMP file holding the image; `None` where the file would be larger than a
/// BMP header can state (4 GiB).
pub fn bmp_file_bytes(image: &Image) -> (r: Option<Vec<u8>>)
    requires
        image.channels == 1 || image.channels == 3,
        image.pixels@.len() == image.width as int * image.height as int * image.channels as int,
    ensures
        r is None <==> bmp_file_size(image.width as nat, image.height as nat) > u32::MAX,
        r matches Some(bytes) ==> {
            let w = image.width as nat;
            let h = image.height as nat;
            let row = bmp_row_size(w);
            &&& bytes@.len() == bmp_file_size(w, h)
            &&& bytes@.subrange(0, 54) == bmp_header(w, h)
            &&& forall|i: int|
                54 <= i < bytes@.len() ==> #[trigger] bytes@[i] == bmp_pixel_byte(
                    image.pixels@,
                    w,
                    h,
                    image.channels as nat,
                    (i - 54) / row as int,
                    (i - 54) % row as int,
                )
        },
{
    let w = image.width as u64;
    let h = image.height as u64;
    let nc = image.channels as u64;
    let row = 3 * w + w % 4;
    assert(row * h <= 262140 * 65535) by (nonlinear_arith)
        requires
            row <= 262140,
            h <= 65535,
    ;
    let size = 54 + row * h;
    if size > 0xffff_ffff {
        return None;
    }
    let ghost wn = image.width as nat;
    let ghost hn = image.height as nat;
    let mut out: Vec<u8> = Vec::new();
    out.push(0x42);
    out.push(0x4d);
    push_le32(&mut out, size as u32);
    push_le32(&mut out, 0);
    push_le32(&mut out, 54);
    push_le32(&mut out, 40);
    push_le32(&mut out, w as u32);
    push_le32(&mut out, h as u32);
    out.push(1);
    out.push(0);
    out.push(24);
    out.push(0);
    push_le32(&mut out, 0);
    push_le32(&mut out, (row * h) as u32);
    push_le32(&mut out, 0);
    push_le32(&mut out, 0);
    push_le32(&mut out, 0);
    push_le32(&mut out, 0);
    assert(out@ =~= bmp_header(wn, hn));
    let ghost header = out@;
    let wu = image.width as usize;
    let hu = image.height as usize;
    let nu = image.channels as usize;
    let rowu = row as usize;
    let plen = image.pixels.len();
    let mut r: usize = 0;
    while r < hu
        invariant
            r <= hu,
            wu == wn,
            hu == hn,
            wn == image.width,
            hn == image.height,
            nu == image.channels,
            nu == 1 || nu == 3,
            rowu == bmp_row_size(wn),
            image.pixels@.len() == wn * hn * nu,
            plen == image.pixels@.len(),
            out@.len() == 54 + r * rowu,
            out@.subrange(0, 54) == header,
            header == bmp_header(wn, hn),
            forall|i: int|
                54 <= i < out@.len() ==> #[trigger] out@[i] == bmp_pixel_byte(
                    image.pixels@,
                    wn,
                    hn,
                    nu as nat,
                    (i - 54) / rowu as int,
                    (i - 54) % rowu as int,
                ),
        decreases hu - r,
    {
        let y = hu - 1 - r;
        let mut o: usize = 0;
        while o < rowu
            invariant
                r < hu,
                y == hu - 1 - r,
                o <= rowu,
                wu == wn,
                hu == hn,
                wn == image.width,
                hn == image.height,
                nu == image.channels,
                nu == 1 || nu == 3,
                rowu == bmp_row_size(wn),
                image.pixels@.len() == wn * hn * nu,
                plen == image.pixels@.len(),
                out@.len() == 54 + r * rowu + o,
                out@.subrange(0, 54) == header,
                forall|i: int|
                    54 <= i < out@.len() ==> #[trigger] out@[i] == bmp_pixel_byte(
                        image.pixels@,
                        wn,
                        hn,
                        nu as nat,
                        (i - 54) / rowu as int,
                        (i - 54) % rowu as int,
                    ),
            decreases rowu - o,
        {
            let v: u8 = if o >= 3 * wu {
                0
            } else {
                let x = o / 3;
                let c = if nu == 3 { 2 - o % 3 } else { 0 };
                proof {
                    assert(x < wn);
                    assert(y * wu + x < hn * wn) by (nonlinear_arith)
                        requires
                            y < hn,
                            x < wn,
                            wu == wn,
                    ;
                    let p = y * wu + x;
                    assert(p * nu + c < (hn * wn) * nu) by (nonlinear_arith)
                        requires
                            p < hn * wn,
                            c < nu,
                    ;
                    assert((hn * wn) * nu == wn * hn * nu) by (nonlinear_arith);
                    assert(p * nu + c < plen);
                    assert(p <= p * nu) by (nonlinear_arith)
                        requires
                            nu >= 1,
                            p >= 0,
                    ;
                    assert(y * wu <= p);
                }
                image.pixels[(y * wu + x) * nu + c]
            };
            proof {
                let i = 54 + r * rowu + o;
                lemma_index_split(r as int, o as int, rowu as int);
                assert(i - 54 == r * rowu + o);
            }
            out.push(v);
            proof {
                assert(out@.subrange(0, 54) =~= header);
            }
            o = o + 1;
        }
        assert(54 + r * rowu + rowu == 54 + (r + 1) * rowu) by (nonlinear_arith);
        r = r + 1;
    }
    assert(hu * rowu == bmp_row_size(wn) * hn) by (nonlinear_arith)
        requires
            hu == hn,
            rowu == bmp_row_size(wn),
    ;
    Some(out)
}

} // verus!
