//! The pixels of an X11 screen image (`GetImage` on the root window) as an
//! RGBA image.
use vstd::prelude::*;
use image::{Rgba, RgbaImage};

verus! {

/// An RGBA image of the `image` crate (`RgbaImage`), held whole. Verus does
/// not take the declaration of `ImageBuffer` (the bounds on its pixel type),
/// so the image sits in a private field hidden from Verus, and what it holds
/// is described by [`rgba_samples`] and [`rgba_dimensions`].
#[verifier::external_body]
pub struct RgbaPixels {
    image: RgbaImage,
}

/// The samples of an RGBA image: 4 bytes (red, green, blue, alpha) per
/// pixel, row after row.
pub uninterp spec fn rgba_samples(img: RgbaPixels) -> Seq<u8>;

/// The width and height of an RGBA image.
pub uninterp spec fn rgba_dimensions(img: RgbaPixels) -> (u32, u32);

/// `RgbaImage::new(width, height)`: an image of that size whose samples
/// are all 0 (`ImageBuffer::new` fills its buffer with zeros).
#[verifier::external_body]
fn new_rgba_image(width: u32, height: u32) -> (img: RgbaPixels)
    requires
        width * height * 4 <= usize::MAX,
    ensures
        rgba_dimensions(img) == (width, height),
        rgba_samples(img) == Seq::new((width * height * 4) as nat, |i: int| 0u8),
{
    RgbaPixels { image: RgbaImage::new(width, height) }
}

/// `img.put_pixel(x, y, Rgba([r, g, b, a]))`: the 4 samples of the pixel
/// (x, y), at `(y * width + x) * 4`, become r, g, b, a; the size and the
/// other samples stay. It panics out of the image, which `requires` rules
/// out.
#[verifier::external_body]
fn put_rgba_pixel(img: &mut RgbaPixels, x: u32, y: u32, r: u8, g: u8, b: u8, a: u8)
    requires
        x < rgba_dimensions(*old(img)).0,
        y < rgba_dimensions(*old(img)).1,
    ensures
        rgba_dimensions(*final(img)) == rgba_dimensions(*old(img)),
        rgba_samples(*final(img)) == ({
            let i = (y * rgba_dimensions(*old(img)).0 + x) * 4;
            rgba_samples(*old(img)).update(i, r).update(i + 1, g).update(i + 2, b).update(i + 3, a)
        }),
{
    img.image.put_pixel(x, y, Rgba([r, g, b, a]));
}

impl RgbaPixels {
    /// `RgbaImage::width`.
    #[verifier::external_body]
    pub fn width(&self) -> (w: u32)
        ensures
            w == rgba_dimensions(*self).0,
    {
        self.image.width()
    }

    /// `RgbaImage::height`.
    #[verifier::external_body]
    pub fn height(&self) -> (h: u32)
        ensures
            h == rgba_dimensions(*self).1,
    {
        self.image.height()
    }

    /// `RgbaImage::get_pixel(x, y)`: the 4 samples of the pixel (x, y). It
    /// panics out of the image, which `requires` rules out.
    #[verifier::external_body]
    pub fn get_pixel(&self, x: u32, y: u32) -> (p: [u8; 4])
        requires
            x < rgba_dimensions(*self).0,
            y < rgba_dimensions(*self).1,
        ensures
            p@ == rgba_samples(*self).subrange(
                (y * rgba_dimensions(*self).0 + x) * 4,
                (y * rgba_dimensions(*self).0 + x) * 4 + 4,
            ),
    {
        self.image.get_pixel(x, y).0
    }

    /// `RgbaImage::into_raw`: the samples, to hand the image to an encoder.
    #[verifier::external_body]
    pub fn into_raw(self) -> (v: Vec<u8>)
        ensures
            v@ == rgba_samples(self),
    {
        self.image.into_raw()
    }
}

/// Channel `c` (0 red, 1 green, 2 blue, 3 alpha) of the `i`-th pixel of
/// the raw buffer: 32-bit pixels, BGRX when the server is LSB first, XRGB
/// when MSB first; alpha is always opaque.
pub open spec fn converted_sample(data: Seq<u8>, msb_first: bool, i: int, c: int) -> u8 {
    if c == 3 {
        255
    } else if msb_first {
        data[4 * i + 1 + c]
    } else {
        data[4 * i + 2 - c]
    }
}

/// Number of pixels read from the raw buffer: the whole ones it holds, at
/// most `width * height`; bytes beyond that are ignored.
pub open spec fn converted_pixels(data: Seq<u8>, width: int, height: int) -> int {
    if data.len() / 4 < width * height {
        (data.len() / 4) as int
    } else {
        width * height
    }
}

/// The image of `width` by `height` pixels read from the raw buffer; the
/// pixels that the buffer does not hold stay transparent black.
pub open spec fn spec_rgba_samples(data: Seq<u8>, width: int, height: int, msb_first: bool) -> Seq<u8> {
    Seq::new(
        (width * height * 4) as nat,
        |j: int|
            if j / 4 < converted_pixels(data, width, height) {
                converted_sample(data, msb_first, j / 4, j % 4)
            } else {
                0u8
            },
    )
}

/// Converts the raw buffer of the X server (32 bits per pixel, BGRX or
/// XRGB depending on the server's byte order) to an RGBA image.
pub fn to_rgba_image(data: &[u8], width: u16, height: u16, msb_first: bool) -> (img: RgbaPixels)
    requires
        width * height * 4 <= usize::MAX,
    ensures
        rgba_dimensions(img) == (width as u32, height as u32),
        rgba_samples(img) == spec_rgba_samples(data@, width as int, height as int, msb_first),
{
    let w = width as u32;
    let h = height as u32;
    assert(w * h <= 65535 * 65535) by (nonlinear_arith)
        requires
            w <= 65535,
            h <= 65535,
    ;
    let mut img = new_rgba_image(w, h);
    let total = w * h;
    let n: u32 = if ((data.len() / 4) as u64) < (total as u64) { (data.len() / 4) as u32 } else { total };
    assert(n == converted_pixels(data@, w as int, h as int));
    assert(data@.len() == data.len());
    let mut i: u32 = 0;
    while i < n
        invariant
            i <= n,
            n == converted_pixels(data@, w as int, h as int),
            n <= total,
            total == w * h,
            w == width,
            h == height,
            4 * n <= data@.len(),
            data@.len() <= usize::MAX,
            rgba_dimensions(img) == (w, h),
            rgba_samples(img).len() == total * 4,
            forall|j: int|
                0 <= j < total * 4 ==> #[trigger] rgba_samples(img)[j] == if j / 4 < i {
                    converted_sample(data@, msb_first, j / 4, j % 4)
                } else {
                    0u8
                },
        decreases n - i,
    {
        let x = i % w;
        let y = i / w;
        proof {
            vstd::arithmetic::div_mod::lemma_fundamental_div_mod(i as int, w as int);
            vstd::arithmetic::div_mod::lemma_mod_pos_bound(i as int, w as int);
            vstd::arithmetic::div_mod::lemma_div_pos_is_pos(i as int, w as int);
            assert(y < h) by {
                if y >= h {
                    vstd::arithmetic::mul::lemma_mul_inequality(h as int, y as int, w as int);
                    vstd::arithmetic::mul::lemma_mul_is_commutative(w as int, y as int);
                    vstd::arithmetic::mul::lemma_mul_is_commutative(w as int, h as int);
                }
            }
            vstd::arithmetic::mul::lemma_mul_is_commutative(w as int, y as int);
            assert(y * w + x == i);
        }
        let base = 4 * (i as usize);
        let (r, g, b) = if msb_first {
            (data[base + 1], data[base + 2], data[base + 3])
        } else {
            (data[base + 2], data[base + 1], data[base])
        };
        let ghost before = rgba_samples(img);
        put_rgba_pixel(&mut img, x, y, r, g, b, 255);
        proof {
            assert forall|j: int| 0 <= j < total * 4 implies #[trigger] rgba_samples(img)[j] == if j / 4 < i + 1 {
                converted_sample(data@, msb_first, j / 4, j % 4)
            } else {
                0u8
            } by {
                if 4 * i <= j < 4 * i + 4 {
                    assert(j / 4 == i);
                } else {
                    assert(rgba_samples(img)[j] == before[j]);
                }
            }
        }
        i = i + 1;
    }
    proof {
        assert(rgba_samples(img) =~= spec_rgba_samples(data@, width as int, height as int, msb_first));
    }
    img
}

} // verus!
