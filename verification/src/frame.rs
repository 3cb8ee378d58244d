//! RGB images as plain values, and their resampling.
use vstd::prelude::*;

verus! {

/// A row-major RGB image (3 bytes per pixel). The pixel buffer holds at
/// least `3 · width · height` bytes.
pub struct RgbFrame {
    width: u32,
    height: u32,
    data: Vec<u8>,
}

/// The pixels of `image::imageops::resize` with `FilterType::Triangle`
/// applied to an RGB image of `width`×`height` with buffer `pixels`,
/// resampled to `new_width`×`new_height`; a function of its arguments.
pub uninterp spec fn triangle_resized(
    pixels: Seq<u8>,
    width: u32,
    height: u32,
    new_width: u32,
    new_height: u32,
) -> Seq<u8>;

/// `image::imageops::resize(.., FilterType::Triangle)` on the RGB image
/// buffer with these pixels and dimensions. Claimed: the result is the
/// named resampling of the arguments and holds exactly
/// `3 · new_width · new_height` bytes (the image crate allocates the output
/// with `ImageBuffer::new(new_width, new_height)` on every path). The
/// buffer conversions cannot fail: `ImageBuffer::from_raw` accepts a buffer
/// of at least `3 · width · height` bytes, and the sizes that
/// `ImageBuffer::new` computes, the largest being `4 · width · new_height`
/// for the intermediate single-precision RGBA image, fit in `usize`.
#[verifier::external_body]
fn resize_pixels(pixels: &[u8], width: u32, height: u32, new_width: u32, new_height: u32) -> (r: Vec<
    u8,
>)
    requires
        3 * width * height <= pixels@.len(),
        4 * width * new_height <= usize::MAX,
        3 * new_width * new_height <= usize::MAX,
    ensures
        r@ == triangle_resized(pixels@, width, height, new_width, new_height),
        r@.len() == 3 * new_width * new_height,
{
    let img = image::ImageBuffer::<image::Rgb<u8>, &[u8]>::from_raw(width, height, pixels).unwrap();
    image::imageops::resize(&img, new_width, new_height, image::imageops::FilterType::Triangle).into_raw()
}

impl RgbFrame {
    #[verifier::type_invariant]
    spec fn holds_all_pixels(self) -> bool {
        3 * self.width * self.height <= self.data@.len()
    }

    pub closed spec fn width_of(&self) -> u32 {
        self.width
    }

    pub closed spec fn height_of(&self) -> u32 {
        self.height
    }

    pub closed spec fn pixels(&self) -> Seq<u8> {
        self.data@
    }

    /// An image of `width`×`height` over `data`, when `data` holds at least
    /// `3 · width · height` bytes (extra bytes are kept and ignored).
    pub fn from_raw(width: u32, height: u32, data: Vec<u8>) -> (r: Option<RgbFrame>)
        ensures
            r is Some <==> 3 * width * height <= data@.len(),
            r matches Some(f) ==> f.width_of() == width && f.height_of() == height && f.pixels()
                == data@,
    {
        let w: u128 = width as u128;
        let h: u128 = height as u128;
        assert(3 * w * h <= 3 * 0xFFFF_FFFF * 0xFFFF_FFFF) by (nonlinear_arith)
            requires
                w <= 0xFFFF_FFFF,
                h <= 0xFFFF_FFFF,
        ;
        let need: u128 = 3 * w * h;
        if need <= data.len() as u128 {
            Some(RgbFrame { width, height, data })
        } else {
            None
        }
    }

    pub fn width(&self) -> (w: u32)
        ensures
            w == self.width_of(),
    {
        self.width
    }

    pub fn height(&self) -> (h: u32)
        ensures
            h == self.height_of(),
    {
        self.height
    }

    pub fn as_raw(&self) -> (p: &[u8])
        ensures
            p@ == self.pixels(),
            3 * self.width_of() * self.height_of() <= p@.len(),
    {
        proof {
            use_type_invariant(self);
        }
        self.data.as_slice()
    }

    pub fn into_raw(self) -> (v: Vec<u8>)
        ensures
            v@ == self.pixels(),
    {
        self.data
    }

    /// Resamples the image to `new_width`×`new_height` with a triangle
    /// (bilinear) filter.
    pub fn resize(&self, new_width: u32, new_height: u32) -> (r: RgbFrame)
        requires
            4 * self.width_of() * new_height <= usize::MAX,
            3 * new_width * new_height <= usize::MAX,
        ensures
            r.width_of() == new_width,
            r.height_of() == new_height,
            r.pixels() == triangle_resized(
                self.pixels(),
                self.width_of(),
                self.height_of(),
                new_width,
                new_height,
            ),
            r.pixels().len() == 3 * new_width * new_height,
    {
        proof {
            use_type_invariant(self);
        }
        let data = resize_pixels(self.data.as_slice(), self.width, self.height, new_width, new_height);
        RgbFrame { width: new_width, height: new_height, data }
    }
}

} // verus!
