//! Raster images as the X server takes them: pictures decoded to RGBA, bit
//! planes packed from their alpha, and the requests that turn a picture into
//! a pixmap or a clip mask.
use vstd::prelude::*;
use crate::display::{Xcb, padded_width};
use crate::xproto::{Nxcb, XRequest, Drawable, GcValues, next_handle};
use crate::ntree::{Nreq, tree_gc_values};
use crate::layout::wrap16;

verus! {

/// The alpha of pixel (`x`, `y`) of RGBA pixels `rgba`, `stride` to a row.
pub open spec fn alpha_at(rgba: Seq<u8>, stride: int, x: int, y: int) -> u8 {
    rgba[4 * (y * stride + x) + 3]
}

/// The byte made of the bits `f(base)` .. `f(base + n - 1)`, the first in
/// the lowest bit.
pub open spec fn packed(f: spec_fn(int) -> bool, base: int, n: nat) -> u8
    decreases n,
{
    if n == 0 {
        0
    } else {
        let p = packed(f, base, (n - 1) as nat);
        if f(base + n - 1) {
            p | (1u8 << ((n - 1) as u8))
        } else {
            p
        }
    }
}

proof fn lemma_bit_or(p: u8, k: u8, b: u8)
    by (bit_vector)
    requires
        k < 8,
        b < 8,
    ensures
        ((p | (1u8 << k)) >> b) & 1u8 == (if b == k {
            1u8
        } else {
            (p >> b) & 1u8
        }),
{
}

proof fn lemma_bit_zero(b: u8)
    by (bit_vector)
    requires
        b < 8,
    ensures
        (0u8 >> b) & 1u8 == 0u8,
{
}

/// Bit `b` of a packed byte is set exactly when `f` holds at `base + b`.
pub proof fn lemma_packed_bit(f: spec_fn(int) -> bool, base: int, n: nat, b: u8)
    requires
        n <= 8,
        b < 8,
    ensures
        ((packed(f, base, n) >> b) & 1u8 == 1u8) == (b < n && f(base + b)),
    decreases n,
{
    if n == 0 {
        lemma_bit_zero(b);
    } else {
        lemma_packed_bit(f, base, (n - 1) as nat, b);
        let p = packed(f, base, (n - 1) as nat);
        if f(base + n - 1) {
            lemma_bit_or(p, (n - 1) as u8, b);
        }
    }
}

proof fn lemma_byte_complement(x: u8, y: u8)
    by (bit_vector)
    requires
        ((x >> 0u8) & 1u8 == 1u8) == !((y >> 0u8) & 1u8 == 1u8),
        ((x >> 1u8) & 1u8 == 1u8) == !((y >> 1u8) & 1u8 == 1u8),
        ((x >> 2u8) & 1u8 == 1u8) == !((y >> 2u8) & 1u8 == 1u8),
        ((x >> 3u8) & 1u8 == 1u8) == !((y >> 3u8) & 1u8 == 1u8),
        ((x >> 4u8) & 1u8 == 1u8) == !((y >> 4u8) & 1u8 == 1u8),
        ((x >> 5u8) & 1u8 == 1u8) == !((y >> 5u8) & 1u8 == 1u8),
        ((x >> 6u8) & 1u8 == 1u8) == !((y >> 6u8) & 1u8 == 1u8),
        ((x >> 7u8) & 1u8 == 1u8) == !((y >> 7u8) & 1u8 == 1u8),
    ensures
        x == !y,
{
}

/// Bytes packed from opposite bits are each other's complement.
proof fn lemma_packed_complement(f: spec_fn(int) -> bool, g: spec_fn(int) -> bool, base: int)
    requires
        forall|i: int| base <= i < base + 8 ==> #[trigger] g(i) == !f(i),
    ensures
        packed(g, base, 8) == !packed(f, base, 8),
{
    let x = packed(g, base, 8);
    let y = packed(f, base, 8);
    lemma_packed_bit(g, base, 8, 0);
    lemma_packed_bit(f, base, 8, 0);
    lemma_packed_bit(g, base, 8, 1);
    lemma_packed_bit(f, base, 8, 1);
    lemma_packed_bit(g, base, 8, 2);
    lemma_packed_bit(f, base, 8, 2);
    lemma_packed_bit(g, base, 8, 3);
    lemma_packed_bit(f, base, 8, 3);
    lemma_packed_bit(g, base, 8, 4);
    lemma_packed_bit(f, base, 8, 4);
    lemma_packed_bit(g, base, 8, 5);
    lemma_packed_bit(f, base, 8, 5);
    lemma_packed_bit(g, base, 8, 6);
    lemma_packed_bit(f, base, 8, 6);
    lemma_packed_bit(g, base, 8, 7);
    lemma_packed_bit(f, base, 8, 7);
    lemma_byte_complement(x, y);
}

/// Pixel `i` of the layer tree's bit plane, rows `ipw` bits long: the pixel
/// at (`i % ipw`, `i / ipw`) of a picture `iw` wide is set when opaque
/// (alpha above 127), or, for an inverted plane, when clear (alpha below
/// 127); bits beyond the picture's width are set only in an inverted plane.
pub open spec fn plane_bit(rgba: Seq<u8>, iw: int, ipw: int, inverted: bool, i: int) -> bool {
    let x = i % ipw;
    let y = i / ipw;
    if x < iw {
        if inverted {
            alpha_at(rgba, iw, x, y) < 127
        } else {
            alpha_at(rgba, iw, x, y) > 127
        }
    } else {
        inverted
    }
}

/// The layer tree's bit plane of an `iw` x `ih` picture: rows padded to a
/// multiple of 32 bits, eight pixels to a byte.
pub open spec fn plane_bytes(rgba: Seq<u8>, iw: int, ih: int, inverted: bool) -> Seq<u8> {
    let ipw = padded_width(iw);
    Seq::new(
        (ih * ipw / 8) as nat,
        |k: int| packed(|i: int| plane_bit(rgba, iw, ipw, inverted, i), 8 * k, 8),
    )
}

/// The inverted bit plane of a picture is the complement of its plain bit
/// plane, byte for byte, when no pixel's alpha is exactly 127 (such a pixel
/// is clear in both).
pub proof fn law_inverted_plane_complements(rgba: Seq<u8>, iw: int, ih: int)
    requires
        0 <= iw,
        0 <= ih,
        rgba.len() == 4 * iw * ih,
        forall|x: int, y: int| 0 <= x < iw && 0 <= y < ih ==> alpha_at(rgba, iw, x, y) != 127,
    ensures
        plane_bytes(rgba, iw, ih, true).len() == plane_bytes(rgba, iw, ih, false).len(),
        forall|k: int|
            0 <= k < plane_bytes(rgba, iw, ih, false).len() ==> plane_bytes(rgba, iw, ih, true)[k]
                == !plane_bytes(rgba, iw, ih, false)[k],
{
    let ipw = padded_width(iw);
    assert(ipw >= iw);
    let f = |i: int| plane_bit(rgba, iw, ipw, false, i);
    let g = |i: int| plane_bit(rgba, iw, ipw, true, i);
    assert forall|k: int| 0 <= k < plane_bytes(rgba, iw, ih, false).len() implies plane_bytes(rgba, iw, ih, true)[k]
        == !plane_bytes(rgba, iw, ih, false)[k] by {
        assert(ipw > 0) by (nonlinear_arith)
            requires
                0 <= k < (ih * ipw / 8),
                ih >= 0,
                ipw >= 0,
        ;
        assert forall|i: int| 8 * k <= i < 8 * k + 8 implies #[trigger] g(i) == !f(i) by {
            let x = i % ipw;
            let y = i / ipw;
            assert(0 <= x < ipw);
            assert(y < ih) by (nonlinear_arith)
                requires
                    0 <= i < 8 * k + 8,
                    k < ih * ipw / 8,
                    ipw > 0,
                    y == i / ipw,
            ;
            assert(y >= 0) by (nonlinear_arith)
                requires
                    i >= 0,
                    ipw > 0,
                    y == i / ipw,
            ;
            if x < iw {
                assert(alpha_at(rgba, iw, x, y) != 127);
            }
        }
        lemma_packed_complement(f, g, 8 * k);
    }
}

/// Packs the layer tree's bit plane of the `iw` x `ih` RGBA picture `rgba`
/// (see `plane_bytes`).
pub fn plane_pack(rgba: &Vec<u8>, iw: u16, ih: u16, inverted: bool) -> (u: Vec<u8>)
    requires
        rgba.len() == 4 * iw * ih,
    ensures
        u@ == plane_bytes(rgba@, iw as int, ih as int, inverted),
{
    let ipw: u64 = iw as u64 + (32 - iw as u64 % 32) % 32;
    assert(ipw == padded_width(iw as int));
    assert(ipw <= 0x1_0020);
    assert(ih * ipw <= 0xffff * 0x1_0020) by (nonlinear_arith)
        requires
            ih <= 0xffff,
            ipw <= 0x1_0020,
    ;
    let n: u64 = ih as u64 * ipw;
    let ghost f = |i: int| plane_bit(rgba@, iw as int, ipw as int, inverted, i);
    let mut u: Vec<u8> = Vec::new();
    let mut k: u64 = 0;
    while k < n / 8
        invariant
            k <= n / 8,
            n == ih * ipw,
            n <= 0xffff * 0x1_0020,
            ipw == padded_width(iw as int),
            rgba.len() == 4 * iw * ih,
            f == (|i: int| plane_bit(rgba@, iw as int, ipw as int, inverted, i)),
            u@.len() == k,
            forall|q: int| 0 <= q < k ==> u@[q] == packed(f, 8 * q, 8),
        decreases n / 8 - k,
    {
        assert(ipw > 0) by (nonlinear_arith)
            requires
                n == ih * ipw,
                k < n / 8,
        ;
        let mut tb: u8 = 0;
        let mut b: u64 = 0;
        while b < 8
            invariant
                b <= 8,
                k < n / 8,
                ipw > 0,
                n == ih * ipw,
                n <= 0xffff * 0x1_0020,
                rgba.len() == 4 * iw * ih,
                f == (|i: int| plane_bit(rgba@, iw as int, ipw as int, inverted, i)),
                tb == packed(f, 8 * k, b as nat),
            decreases 8 - b,
        {
            let i: u64 = 8 * k + b;
            let x: u64 = i % ipw;
            let y: u64 = i / ipw;
            assert(y < ih) by (nonlinear_arith)
                requires
                    i < n,
                    n == ih * ipw,
                    ipw > 0,
                    y == i / ipw,
            ;
            let lit: bool = if x < iw as u64 {
                assert(4 * (y * iw + x) + 3 < 4 * iw * ih) by (nonlinear_arith)
                    requires
                        x < iw,
                        y < ih,
            ;
                let a: u8 = rgba[(4 * (y * iw as u64 + x) + 3) as usize];
                if inverted {
                    a < 127
                } else {
                    a > 127
                }
            } else {
                inverted
            };
            assert(lit == f(8 * k + b));
            if lit {
                tb = tb | (1u8 << (b as u8));
            }
            b += 1;
        }
        u.push(tb);
        k += 1;
    }
    assert(u@ =~= plane_bytes(rgba@, iw as int, ih as int, inverted));
    u
}

/// Pixel `i` of the window tree's bit plane, rows `pw` bits long: the pixel
/// one step further on, at ((`i` + 1) % `pw`, (`i` + 1) / `pw`), is set when
/// it lies in the `w` x `h` picture (`stride` pixels to a row) and is opaque.
pub open spec fn tree_bit(rgba: Seq<u8>, stride: int, w: int, h: int, pw: int, i: int) -> bool {
    let p = i + 1;
    let x = p % pw;
    let y = p / pw;
    x < w && y < h && alpha_at(rgba, stride, x, y) > 127
}

/// The window tree's bit plane of `count` pixels: a zero byte first, then
/// one byte for each group of eight pixels that starts before the last byte
/// boundary (the pixels after it are left out).
pub open spec fn tree_plane_bytes(rgba: Seq<u8>, stride: int, w: int, h: int, pw: int, count: int) -> Seq<u8> {
    Seq::new(
        if count > 0 {
            ((count + 7) / 8) as nat
        } else {
            0
        },
        |k: int|
            if k == 0 {
                0u8
            } else {
                packed(|i: int| tree_bit(rgba, stride, w, h, pw, i), 8 * (k - 1), 8)
            },
    )
}

/// Packs the window tree's bit plane (see `tree_plane_bytes`) of the `w` x
/// `h` top left of the RGBA picture `rgba`, `stride` pixels to a row.
pub fn tree_pack(rgba: &Vec<u8>, stride: u32, w: u16, h: u16, count: i16) -> (u: Vec<u8>)
    requires
        w <= stride,
        rgba.len() >= 4 * stride * h,
        padded_width(w as int) <= 0xffff,
        count <= padded_width(w as int) * h,
    ensures
        u@ == tree_plane_bytes(rgba@, stride as int, w as int, h as int, padded_width(w as int), count as int),
{
    let pw: u64 = w as u64 + (32 - w as u64 % 32) % 32;
    assert(pw == padded_width(w as int));
    let ghost f = |i: int| tree_bit(rgba@, stride as int, w as int, h as int, pw as int, i);
    let mut u: Vec<u8> = Vec::new();
    if count <= 0 {
        assert(u@ =~= tree_plane_bytes(rgba@, stride as int, w as int, h as int, pw as int, count as int));
        return u;
    }
    let c: u64 = count as u64;
    assert(pw > 0) by (nonlinear_arith)
        requires
            0 < c <= pw * h,
    ;
    u.push(0u8);
    let mut k: u64 = 1;
    while k < (c + 7) / 8
        invariant
            1 <= k <= (c + 7) / 8,
            0 < c <= pw * h,
            c <= 0x7fff,
            pw > 0,
            pw == padded_width(w as int),
            w <= stride,
            rgba.len() >= 4 * stride * h,
            f == (|i: int| tree_bit(rgba@, stride as int, w as int, h as int, pw as int, i)),
            u@.len() == k,
            u@[0] == 0u8,
            forall|q: int| 1 <= q < k ==> u@[q] == packed(f, 8 * (q - 1), 8),
        decreases (c + 7) / 8 - k,
    {
        let mut tb: u8 = 0;
        let mut b: u64 = 0;
        while b < 8
            invariant
                b <= 8,
                1 <= k < (c + 7) / 8,
                c <= 0x7fff,
                pw > 0,
                w <= stride,
                rgba.len() >= 4 * stride * h,
                f == (|i: int| tree_bit(rgba@, stride as int, w as int, h as int, pw as int, i)),
                tb == packed(f, 8 * (k - 1), b as nat),
            decreases 8 - b,
        {
            let p: u64 = 8 * (k - 1) + b + 1;
            let x: u64 = p % pw;
            let y: u64 = p / pw;
            let lit: bool = if x < w as u64 && y < h as u64 {
                assert(4 * (y * stride + x) + 3 < 4 * stride * h) by (nonlinear_arith)
                    requires
                        x < w,
                        w <= stride,
                        y < h,
                ;
                assert(4 * (y * stride + x) + 3 <= 4 * 0xffff_ffffu64 * 0xffff) by (nonlinear_arith)
                    requires
                        x < w,
                        w <= stride,
                        y < h,
                        stride <= 0xffff_ffffu64,
                        h <= 0xffff,
                ;
                rgba[(4 * (y * stride as u64 + x) + 3) as usize] > 127
            } else {
                false
            };
            assert(lit == f(8 * (k - 1) + b));
            if lit {
                tb = tb | (1u8 << (b as u8));
            }
            b += 1;
        }
        u.push(tb);
        k += 1;
    }
    assert(u@ =~= tree_plane_bytes(rgba@, stride as int, w as int, h as int, pw as int, count as int));
    u
}

/// What `image::load_from_memory` decodes `bytes` to, converted to 8-bit
/// RGBA: the pixels row by row, the width and the height; nothing when the
/// bytes are no picture that the crate reads.
pub uninterp spec fn decoded_rgba(bytes: Seq<u8>) -> Option<(Seq<u8>, u32, u32)>;

/// `image::load_from_memory(bytes)`, then `to_rgba8`, `dimensions` and
/// `into_raw`: claimed to give `decoded_rgba(bytes)`, nothing on a decoding
/// error.
#[verifier::external_body]
fn load_rgba(bytes: &Vec<u8>) -> (r: Option<(Vec<u8>, u32, u32)>)
    ensures
        match r {
            Some(t) => decoded_rgba(bytes@) == Some((t.0@, t.1, t.2)),
            None => decoded_rgba(bytes@) is None,
        },
{
    match image::load_from_memory(bytes.as_slice()) {
        Ok(img) => {
            let rgba = img.to_rgba8();
            let (w, h) = rgba.dimensions();
            Some((rgba.into_raw(), w, h))
        },
        Err(_) => None,
    }
}

/// The `w` x `h` RGBA picture `rgba` scaled with the triangle filter to
/// cover `nw` x `nh`, then cropped to it around the centre, as
/// `DynamicImage::resize_to_fill` does, in 8-bit RGBA.
pub uninterp spec fn filled_rgba(rgba: Seq<u8>, w: u32, h: u32, nw: u32, nh: u32) -> Seq<u8>;

/// `RgbaImage::from_raw(w, h, rgba)`, `DynamicImage::resize_to_fill(nw, nh,
/// FilterType::Triangle)`, then `to_rgba8` and `into_raw`: claimed to give
/// `filled_rgba(rgba, w, h, nw, nh)` for a buffer of exactly `w` x `h`
/// pixels, both sizes above zero.
#[verifier::external_body]
fn fill_rgba(rgba: &Vec<u8>, w: u32, h: u32, nw: u32, nh: u32) -> (r: Vec<u8>)
    requires
        rgba.len() == 4 * w * h,
        w > 0,
        h > 0,
    ensures
        r@ == filled_rgba(rgba@, w, h, nw, nh),
{
    match image::RgbaImage::from_raw(w, h, rgba.clone()) {
        Some(buf) => image::DynamicImage::ImageRgba8(buf).resize_to_fill(
            nw,
            nh,
            image::imageops::FilterType::Triangle,
        ).to_rgba8().into_raw(),
        None => Vec::new(),
    }
}

proof fn lemma_mul4(a: int, b: int)
    by (nonlinear_arith)
    ensures
        4 * (a * b) == 4 * a * b,
{
}

/// The picture `png` decoded to RGBA with its width and height, when its
/// pixels fill exactly that size.
pub open spec fn png_pixels(png: Seq<u8>) -> Option<(Seq<u8>, u32, u32)> {
    match decoded_rgba(png) {
        Some(t) => if t.0.len() == 4 * t.1 * t.2 {
            Some(t)
        } else {
            None
        },
        None => None,
    }
}

/// Decodes the picture `png` to RGBA (see `png_pixels`).
pub fn decode_png(png: &Vec<u8>) -> (r: Option<(Vec<u8>, u32, u32)>)
    ensures
        r is None <==> png_pixels(png@) is None,
        r matches Some(t) ==> png_pixels(png@) == Some((t.0@, t.1, t.2)),
{
    match load_rgba(png) {
        Some((p, w, h)) => {
            assert(w * h <= 0xffff_ffffu128 * 0xffff_ffffu128) by (nonlinear_arith)
                requires
                    w <= 0xffff_ffffu32,
                    h <= 0xffff_ffffu32,
            ;
            if p.len() as u128 == 4 * (w as u128 * h as u128) {
                assert(p@.len() == 4 * w * h) by (nonlinear_arith)
                    requires
                        p@.len() == 4 * (w * h),
                ;
                Some((p, w, h))
            } else {
                proof {
                    lemma_mul4(w as int, h as int);
                }
                None
            }
        },
        None => None,
    }
}

/// The picture `png` decoded and made to fill `iw` x `ih` (see
/// `filled_rgba`): nothing when it cannot be decoded, is empty, is narrower
/// or lower (in 16 bits) than `2 * pad`, or when the filled picture does not
/// have that size.
pub open spec fn png_fill(png: Seq<u8>, pad: u16, iw: u16, ih: u16) -> Option<Seq<u8>> {
    match png_pixels(png) {
        Some(t) => {
            if t.1 > 0 && t.2 > 0 && 2 * pad <= t.1 as u16 && 2 * pad <= t.2 as u16 {
                let f = filled_rgba(t.0, t.1, t.2, iw as u32, ih as u32);
                if f.len() == 4 * iw * ih {
                    Some(f)
                } else {
                    None
                }
            } else {
                None
            }
        },
        None => None,
    }
}

/// Decodes the picture `png` and makes it fill `iw` x `ih` (see `png_fill`).
pub fn fill_png(png: &Vec<u8>, pad: u16, iw: u16, ih: u16) -> (r: Option<Vec<u8>>)
    ensures
        r is None <==> png_fill(png@, pad, iw, ih) is None,
        r matches Some(f) ==> png_fill(png@, pad, iw, ih) == Some(f@),
{
    match decode_png(png) {
        Some((p, w, h)) => {
            if w > 0 && h > 0 && 2 * (pad as u32) <= (w as u16) as u32 && 2 * (pad as u32) <= (h as u16) as u32 {
                let f = fill_rgba(&p, w, h, iw as u32, ih as u32);
                assert(iw * ih <= 0xffffu64 * 0xffffu64) by (nonlinear_arith)
                    requires
                        iw <= 0xffffu16,
                        ih <= 0xffffu16,
                ;
                if f.len() as u64 == 4 * (iw as u64 * ih as u64) {
                    assert(f@.len() == 4 * iw * ih) by (nonlinear_arith)
                        requires
                            f@.len() == 4 * (iw * ih),
                    ;
                    Some(f)
                } else {
                    proof {
                        lemma_mul4(iw as int, ih as int);
                    }
                    None
                }
            } else {
                None
            }
        },
        None => None,
    }
}

/// `r` puts an image with the given place, size, depth and bytes.
pub open spec fn is_put_image(
    r: XRequest,
    drawable: Drawable,
    gc: u32,
    width: u16,
    height: u16,
    dst_x: i16,
    dst_y: i16,
    depth: u8,
    data: Seq<u8>,
) -> bool {
    r matches XRequest::PutImage { drawable: d, gc: g, width: w, height: h, dst_x: x, dst_y: y, depth: dp, data: b }
        && d == drawable && g == gc && w == width && h == height && x == dst_x && y == dst_y && dp == depth
        && b@ == data
}

/// The graphics context values of a layer's bit plane, drawing in `fg` on `bg`.
pub open spec fn plane_gc(fg: u32, bg: u32) -> GcValues {
    GcValues {
        foreground: Some(fg),
        background: Some(bg),
        graphics_exposures: Some(false),
        clip_mask: None,
    }
}

/// `after` is `before` with the requests that make the bit plane `pix`:
/// an `nw` x `nh` plane one bit deep (rows padded to 32 bits) on
/// `drawable`, a graphics context on it that clears (sets, when inverted),
/// the whole plane filled with it, the plane of the picture `pixels` (see
/// `plane_bytes`) put inside a frame of `pad`, and the context freed.
pub open spec fn mask_queued(
    before: Seq<XRequest>,
    after: Seq<XRequest>,
    pix: u32,
    drawable: Drawable,
    pixels: Seq<u8>,
    pad: u16,
    inverted: bool,
    nw: i16,
    nh: i16,
) -> bool {
    let width = nw as u16;
    let height = nh as u16;
    let iw = (width - 2 * pad) as u16;
    let ih = (height - 2 * pad) as u16;
    let gc = next_handle(pix);
    let fg: u32 = if inverted { 1 } else { 0 };
    let bg: u32 = if inverted { 0 } else { 1 };
    let n = before.len() as int;
    &&& after.len() == n + 5
    &&& after.take(n + 3) == before.push(
        XRequest::CreatePixmap {
            pid: pix,
            drawable,
            width: padded_width(width as int) as u16,
            height,
            depth: 1,
        },
    ).push(
        XRequest::CreateGc {
            cid: gc,
            drawable: Drawable::Pixmap(pix),
            values: plane_gc(fg, bg),
            checked: false,
        },
    ).push(XRequest::FillRectangle { drawable: Drawable::Pixmap(pix), gc, x: 0, y: 0, width, height })
    &&& is_put_image(
        after[n + 3],
        Drawable::Pixmap(pix),
        gc,
        iw,
        ih,
        pad as i16,
        pad as i16,
        1,
        plane_bytes(pixels, iw as int, ih as int, inverted),
    )
    &&& after[n + 4] == XRequest::FreeGc { gc }
}

/// `after` is `before` with the requests that make the picture `pix`: an
/// `nw` x `nh` pixmap 24 bits deep on `drawable`, a graphics context on it,
/// the image `data` (`iw` x `ih`, at (`x`, `y`), `depth` deep) put on it,
/// and the context freed.
pub open spec fn image_queued(
    before: Seq<XRequest>,
    after: Seq<XRequest>,
    pix: u32,
    drawable: Drawable,
    nw: i16,
    nh: i16,
    iw: u16,
    ih: u16,
    x: i16,
    y: i16,
    depth: u8,
    data: Seq<u8>,
) -> bool {
    let gc = next_handle(pix);
    let n = before.len() as int;
    &&& after.len() == n + 4
    &&& after.take(n + 2) == before.push(
        XRequest::CreatePixmap { pid: pix, drawable, width: nw as u16, height: nh as u16, depth: 24 },
    ).push(
        XRequest::CreateGc {
            cid: gc,
            drawable: Drawable::Pixmap(pix),
            values: plane_gc(1, 0),
            checked: false,
        },
    )
    &&& is_put_image(after[n + 2], Drawable::Pixmap(pix), gc, iw, ih, x, y, depth, data)
    &&& after[n + 3] == XRequest::FreeGc { gc }
}

impl Xcb {
    /// The bit plane of the `nw - 2 * pad` x `nh - 2 * pad` picture `pixels`
    /// (already filled to that size) inside a frame of `pad` (see
    /// `mask_queued`).
    pub fn mask_from_pixels(
        &mut self,
        drawable: Drawable,
        pixels: &Vec<u8>,
        pad: u16,
        inverted: bool,
        nw: i16,
        nh: i16,
    ) -> (pix: u32)
        requires
            2 * pad <= nw as u16,
            2 * pad <= nh as u16,
            padded_width(nw as u16 as int) <= 0xffff,
            pixels.len() == 4 * (nw as u16 - 2 * pad) * (nh as u16 - 2 * pad),
        ensures
            mask_queued(old(self).pending@, final(self).pending@, pix, drawable, pixels@, pad, inverted, nw, nh),
            pix == old(self).next_id,
            final(self).next_id == next_handle(next_handle(pix)),
            final(self).same_setup(old(self)),
    {
        let width = nw as u16;
        let height = nh as u16;
        let iw = width - 2 * pad;
        let ih = height - 2 * pad;
        let paddedw = width + (32 - width % 32) % 32;
        let pix = self.new_id();
        self.request(XRequest::CreatePixmap { pid: pix, drawable, width: paddedw, height, depth: 1 });
        let u = plane_pack(pixels, iw, ih, inverted);
        let (fg, bg): (u32, u32) = if inverted {
            (1, 0)
        } else {
            (0, 1)
        };
        let gc = self.new_gc(Drawable::Pixmap(pix), fg, bg);
        let d = Drawable::Pixmap(pix);
        self.rect(gc, d, 0, 0, width, height);
        let ghost s3 = self.pending@;
        self.request(
            XRequest::PutImage {
                drawable: d,
                gc,
                width: iw,
                height: ih,
                dst_x: pad as i16,
                dst_y: pad as i16,
                depth: 1,
                data: u,
            },
        );
        self.drop_gc(gc);
        assert(self.pending@.take(s3.len() as int) =~= s3);
        pix
    }

    /// The bit plane of the picture `png` made to fill `nw - 2 * pad` x
    /// `nh - 2 * pad` (see `png_fill` and `mask_queued`); nothing, and no
    /// request, when the picture cannot be used.
    pub fn mask_from_file(
        &mut self,
        drawable: Drawable,
        png: &Vec<u8>,
        pad: u16,
        inverted: bool,
        nw: i16,
        nh: i16,
    ) -> (r: Option<u32>)
        requires
            2 * pad <= nw as u16,
            2 * pad <= nh as u16,
            padded_width(nw as u16 as int) <= 0xffff,
        ensures
            ({
                let filled = png_fill(png@, pad, (nw as u16 - 2 * pad) as u16, (nh as u16 - 2 * pad) as u16);
                &&& r is Some <==> filled is Some
                &&& r is None ==> *final(self) == *old(self)
                &&& r matches Some(pix) ==> {
                    &&& pix == old(self).next_id
                    &&& final(self).next_id == next_handle(next_handle(pix))
                    &&& mask_queued(
                        old(self).pending@,
                        final(self).pending@,
                        pix,
                        drawable,
                        filled->0,
                        pad,
                        inverted,
                        nw,
                        nh,
                    )
                }
            }),
            final(self).same_setup(old(self)),
    {
        let iw = nw as u16 - 2 * pad;
        let ih = nh as u16 - 2 * pad;
        match fill_png(png, pad, iw, ih) {
            Some(f) => Some(self.mask_from_pixels(drawable, &f, pad, inverted, nw, nh)),
            None => None,
        }
    }

    /// An `nw` x `nh` pixmap 24 bits deep with the RGBA picture `pixels` put
    /// at its top left as if it had that size (see `image_queued`).
    pub fn new_img_from(&mut self, drawable: Drawable, pixels: Vec<u8>, nw: i16, nh: i16) -> (pix: u32)
        ensures
            image_queued(
                old(self).pending@,
                final(self).pending@,
                pix,
                drawable,
                nw,
                nh,
                nw as u16,
                nh as u16,
                0,
                0,
                old(self).depth,
                pixels@,
            ),
            pix == old(self).next_id,
            final(self).next_id == next_handle(next_handle(pix)),
            final(self).same_setup(old(self)),
    {
        let width = nw as u16;
        let height = nh as u16;
        let pix = self.new_id();
        self.request(XRequest::CreatePixmap { pid: pix, drawable, width, height, depth: 24 });
        let igc = self.new_gc(Drawable::Pixmap(pix), 1, 0);
        let ghost s2 = self.pending@;
        let depth = self.depth;
        self.request(
            XRequest::PutImage {
                drawable: Drawable::Pixmap(pix),
                gc: igc,
                width,
                height,
                dst_x: 0,
                dst_y: 0,
                depth,
                data: pixels,
            },
        );
        self.drop_gc(igc);
        assert(self.pending@.take(s2.len() as int) =~= s2);
        pix
    }

    /// The picture `png` made to fill `nw - 2 * pad` x `nh - 2 * pad` (see
    /// `png_fill`) in a new pixmap (see `new_img_from`); nothing, and no
    /// request, when the picture cannot be used.
    pub fn new_img(&mut self, drawable: Drawable, png: &Vec<u8>, pad: u16, nw: i16, nh: i16) -> (r: Option<u32>)
        requires
            2 * pad <= nw as u16,
            2 * pad <= nh as u16,
        ensures
            ({
                let filled = png_fill(png@, pad, (nw as u16 - 2 * pad) as u16, (nh as u16 - 2 * pad) as u16);
                &&& r is Some <==> filled is Some
                &&& r is None ==> *final(self) == *old(self)
                &&& r matches Some(pix) ==> {
                    &&& pix == old(self).next_id
                    &&& final(self).next_id == next_handle(next_handle(pix))
                    &&& image_queued(
                        old(self).pending@,
                        final(self).pending@,
                        pix,
                        drawable,
                        nw,
                        nh,
                        nw as u16,
                        nh as u16,
                        0,
                        0,
                        old(self).depth,
                        filled->0,
                    )
                }
            }),
            final(self).same_setup(old(self)),
    {
        let iw = nw as u16 - 2 * pad;
        let ih = nh as u16 - 2 * pad;
        match fill_png(png, pad, iw, ih) {
            Some(f) => Some(self.new_img_from(drawable, f, nw, nh)),
            None => None,
        }
    }

    /// An `nw` x `nh` pixmap 24 bits deep with the `nw - 2 * pad` x
    /// `nh - 2 * pad` RGBA picture `pixels` put inside a frame of `pad` (see
    /// `image_queued`).
    pub fn img_from_pixels(&mut self, drawable: Drawable, pixels: Vec<u8>, pad: u16, nw: i16, nh: i16) -> (pix: u32)
        requires
            2 * pad <= nw as u16,
            2 * pad <= nh as u16,
        ensures
            image_queued(
                old(self).pending@,
                final(self).pending@,
                pix,
                drawable,
                nw,
                nh,
                (nw as u16 - 2 * pad) as u16,
                (nh as u16 - 2 * pad) as u16,
                pad as i16,
                pad as i16,
                old(self).depth,
                pixels@,
            ),
            pix == old(self).next_id,
            final(self).next_id == next_handle(next_handle(pix)),
            final(self).same_setup(old(self)),
    {
        let width = nw as u16;
        let height = nh as u16;
        let iw = width - 2 * pad;
        let ih = height - 2 * pad;
        let pix = self.new_id();
        self.request(XRequest::CreatePixmap { pid: pix, drawable, width, height, depth: 24 });
        let igc = self.new_gc(Drawable::Pixmap(pix), 1, 0);
        let ghost s2 = self.pending@;
        let depth = self.depth;
        self.request(
            XRequest::PutImage {
                drawable: Drawable::Pixmap(pix),
                gc: igc,
                width: iw,
                height: ih,
                dst_x: pad as i16,
                dst_y: pad as i16,
                depth,
                data: pixels,
            },
        );
        self.drop_gc(igc);
        assert(self.pending@.take(s2.len() as int) =~= s2);
        pix
    }
}

/// `after` is `before` with the window tree's requests for the picture
/// `pix`: a `width` x `height` pixmap `pdepth` deep on `drawable`, a
/// graphics context on it (see `Nreq::new_gc`), and the image `data`, of
/// the same size and `depth` deep, put at its top left.
pub open spec fn tree_image_queued(
    before: Seq<XRequest>,
    after: Seq<XRequest>,
    pix: u32,
    drawable: Drawable,
    width: u16,
    height: u16,
    pdepth: u8,
    depth: u8,
    data: Seq<u8>,
) -> bool {
    let n = before.len() as int;
    &&& after.len() == n + 3
    &&& after.take(n + 2) == before.push(
        XRequest::CreatePixmap { pid: pix, drawable, width, height, depth: pdepth },
    ).push(
        XRequest::CreateGc {
            cid: next_handle(pix),
            drawable: Drawable::Pixmap(pix),
            values: tree_gc_values(),
            checked: false,
        },
    )
    &&& is_put_image(after[n + 2], Drawable::Pixmap(pix), next_handle(pix), width, height, 0, 0, depth, data)
}

/// A `w` x `h` picture fits the window tree's bit plane: its padded rows
/// and their product with the height stay within 16 bits.
pub open spec fn tree_mask_fits(w: u32, h: u32) -> bool {
    &&& padded_width(w as u16 as int) <= 0xffff
    &&& padded_width(w as u16 as int) * (h as u16) <= 0xffff
}

/// The window tree's bit plane of the `w` x `h` RGBA picture `rgba` (sizes
/// taken in 16 bits), counting `(h * padded w) as i16` pixels.
pub open spec fn tree_mask_bytes(rgba: Seq<u8>, w: u32, h: u32) -> Seq<u8> {
    let width = w as u16;
    let height = h as u16;
    let pw = padded_width(width as int);
    tree_plane_bytes(rgba, w as int, width as int, height as int, pw, wrap16((height * pw) as u16) as int)
}

impl Nreq {
    /// The window tree's bit plane of the `w` x `h` RGBA picture `rgba`, in
    /// a one-bit-deep pixmap on the connection's drawable (see
    /// `tree_mask_bytes` and `tree_image_queued`).
    #[verifier::spinoff_prover]
    pub fn new_mask_from(ctx: &mut Nxcb, rgba: &Vec<u8>, w: u32, h: u32) -> (pix: u32)
        requires
            rgba.len() == 4 * w * h,
            tree_mask_fits(w, h),
        ensures
            pix == old(ctx).next_id,
            final(ctx).next_id == next_handle(next_handle(pix)),
            tree_image_queued(
                old(ctx).pending@,
                final(ctx).pending@,
                pix,
                old(ctx).drawable,
                padded_width(w as u16 as int) as u16,
                h as u16,
                1,
                1,
                tree_mask_bytes(rgba@, w, h),
            ),
            final(ctx).same_setup(old(ctx)),
            final(ctx).gc == old(ctx).gc,
            final(ctx).drawable == old(ctx).drawable,
    {
        let width = w as u16;
        let height = h as u16;
        let paddedw = width + (32 - width % 32) % 32;
        assert(paddedw == padded_width(width as int));
        let pix = ctx.new_id();
        let drawable = ctx.drawable;
        ctx.request(XRequest::CreatePixmap { pid: pix, drawable, width: paddedw, height, depth: 1 });
        assert(4 * w * height <= 4 * w * h) by (nonlinear_arith)
            requires
                height <= h,
        ;
        let prod: u16 = height * paddedw;
        let count = prod as i16;
        assert(count == wrap16(prod) && count <= prod) by (bit_vector)
            requires
                count == prod as i16,
        ;
        assert(height * paddedw == padded_width(width as int) * height) by (nonlinear_arith)
            requires
                paddedw == padded_width(width as int),
        ;
        let u = tree_pack(rgba, w, width, height, count);
        let gc = Self::new_gc(ctx, Drawable::Pixmap(pix));
        let ghost s2 = ctx.pending@;
        ctx.request(
            XRequest::PutImage {
                drawable: Drawable::Pixmap(pix),
                gc,
                width: paddedw,
                height,
                dst_x: 0,
                dst_y: 0,
                depth: 1,
                data: u,
            },
        );
        assert(ctx.pending@.take(s2.len() as int) =~= s2);
        pix
    }

    /// The window tree's bit plane of the picture `png` (see
    /// `new_mask_from`); nothing, and no request, when it cannot be decoded
    /// or does not fit.
    pub fn new_mask(ctx: &mut Nxcb, png: &Vec<u8>) -> (r: Option<u32>)
        ensures
            r is Some <==> (png_pixels(png@) matches Some(t) && tree_mask_fits(t.1, t.2)),
            r is None ==> *final(ctx) == *old(ctx),
            r matches Some(pix) ==> ({
                let t = png_pixels(png@)->0;
                &&& pix == old(ctx).next_id
                &&& tree_image_queued(
                    old(ctx).pending@,
                    final(ctx).pending@,
                    pix,
                    old(ctx).drawable,
                    padded_width(t.1 as u16 as int) as u16,
                    t.2 as u16,
                    1,
                    1,
                    tree_mask_bytes(t.0, t.1, t.2),
                )
            }),
            final(ctx).same_setup(old(ctx)),
    {
        match decode_png(png) {
            Some((p, w, h)) => {
                let width = w as u16;
                let height = h as u16;
                let paddedw: u32 = width as u32 + (32 - width as u32 % 32) % 32;
                if paddedw > 0xffff {
                    return None;
                }
                assert(paddedw * height <= 0xffff * 0xffff) by (nonlinear_arith)
                    requires
                        paddedw <= 0xffff,
                        height <= 0xffff,
                ;
                if paddedw * height as u32 <= 0xffff {
                    Some(Self::new_mask_from(ctx, &p, w, h))
                } else {
                    None
                }
            },
            None => None,
        }
    }

    /// The `w` x `h` RGBA picture `rgba` in a pixmap 24 bits deep on the
    /// connection's drawable (sizes taken in 16 bits; see `tree_image_queued`).
    pub fn new_img_from(ctx: &mut Nxcb, rgba: Vec<u8>, w: u32, h: u32) -> (pix: u32)
        ensures
            pix == old(ctx).next_id,
            final(ctx).next_id == next_handle(next_handle(pix)),
            tree_image_queued(
                old(ctx).pending@,
                final(ctx).pending@,
                pix,
                old(ctx).drawable,
                w as u16,
                h as u16,
                24,
                old(ctx).depth,
                rgba@,
            ),
            final(ctx).same_setup(old(ctx)),
            final(ctx).gc == old(ctx).gc,
            final(ctx).drawable == old(ctx).drawable,
    {
        let width = w as u16;
        let height = h as u16;
        let pix = ctx.new_id();
        let drawable = ctx.drawable;
        ctx.request(XRequest::CreatePixmap { pid: pix, drawable, width, height, depth: 24 });
        let gc = Self::new_gc(ctx, Drawable::Pixmap(pix));
        let ghost s2 = ctx.pending@;
        let depth = ctx.depth;
        ctx.request(
            XRequest::PutImage {
                drawable: Drawable::Pixmap(pix),
                gc,
                width,
                height,
                dst_x: 0,
                dst_y: 0,
                depth,
                data: rgba,
            },
        );
        assert(ctx.pending@.take(s2.len() as int) =~= s2);
        pix
    }

    /// The picture `png` in a pixmap 24 bits deep (see `new_img_from`);
    /// nothing, and no request, when it cannot be decoded.
    pub fn new_img(ctx: &mut Nxcb, png: &Vec<u8>) -> (r: Option<u32>)
        ensures
            r is Some <==> png_pixels(png@) is Some,
            r is None ==> *final(ctx) == *old(ctx),
            r matches Some(pix) ==> ({
                let t = png_pixels(png@)->0;
                &&& pix == old(ctx).next_id
                &&& tree_image_queued(
                    old(ctx).pending@,
                    final(ctx).pending@,
                    pix,
                    old(ctx).drawable,
                    t.1 as u16,
                    t.2 as u16,
                    24,
                    old(ctx).depth,
                    t.0,
                )
            }),
            final(ctx).same_setup(old(ctx)),
    {
        match decode_png(png) {
            Some((p, w, h)) => Some(Self::new_img_from(ctx, p, w, h)),
            None => None,
        }
    }
}

/// A picture of the window tree kept in a pixmap, with its size.
pub struct Nsprite {
    pub pix: u32,
    pub width: u16,
    pub height: u16,
}

impl Nsprite {
    /// The picture `png` in a pixmap of the connection's depth (see
    /// `Nreq::new_pixmap`), its pixels put with the connection's graphics
    /// context; nothing, and no request, when it cannot be decoded.
    pub fn new(ctx: &mut Nxcb, png: &Vec<u8>) -> (r: Option<Nsprite>)
        ensures
            r is Some <==> png_pixels(png@) is Some,
            r is None ==> *final(ctx) == *old(ctx),
            r matches Some(sp) ==> ({
                let t = png_pixels(png@)->0;
                let n = old(ctx).pending@.len() as int;
                &&& sp.pix == old(ctx).next_id
                &&& sp.width == t.1 as u16
                &&& sp.height == t.2 as u16
                &&& final(ctx).next_id == next_handle(sp.pix)
                &&& final(ctx).pending@.len() == n + 2
                &&& final(ctx).pending@[n] == XRequest::CreatePixmap {
                    pid: sp.pix,
                    drawable: old(ctx).drawable,
                    width: sp.width,
                    height: sp.height,
                    depth: old(ctx).depth,
                }
                &&& final(ctx).pending@.take(n) == old(ctx).pending@
                &&& is_put_image(
                    final(ctx).pending@[n + 1],
                    Drawable::Pixmap(sp.pix),
                    old(ctx).gc,
                    sp.width,
                    sp.height,
                    0,
                    0,
                    old(ctx).depth,
                    t.0,
                )
            }),
            final(ctx).same_setup(old(ctx)),
            final(ctx).gc == old(ctx).gc,
            final(ctx).drawable == old(ctx).drawable,
    {
        match decode_png(png) {
            Some((p, w, h)) => {
                let width = w as u16;
                let height = h as u16;
                let ghost s0 = ctx.pending@;
                let pix = Nreq::new_pixmap(ctx, width, height);
                let gc = ctx.gc;
                let depth = ctx.depth;
                ctx.request(
                    XRequest::PutImage {
                        drawable: Drawable::Pixmap(pix),
                        gc,
                        width,
                        height,
                        dst_x: 0,
                        dst_y: 0,
                        depth,
                        data: p,
                    },
                );
                assert(ctx.pending@.take(s0.len() as int) =~= s0);
                Some(Nsprite { pix, width, height })
            },
            None => None,
        }
    }

    /// Copies the whole picture to the top left of `win`.
    pub fn dump(&self, ctx: &mut Nxcb, win: u32)
        ensures
            final(ctx).pending@ == old(ctx).pending@.push(
                XRequest::CopyArea {
                    src: Drawable::Pixmap(self.pix),
                    dst: Drawable::Window(win),
                    gc: old(ctx).gc,
                    src_x: 0,
                    src_y: 0,
                    dst_x: 0,
                    dst_y: 0,
                    width: self.width,
                    height: self.height,
                },
            ),
            final(ctx).next_id == old(ctx).next_id,
            final(ctx).same_setup(old(ctx)),
    {
        let gc = ctx.gc;
        ctx.copy(gc, Drawable::Pixmap(self.pix), Drawable::Window(win), 0, 0, 0, 0, self.width, self.height);
    }
}

} // verus!
