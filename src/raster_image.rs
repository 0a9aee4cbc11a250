use vstd::prelude::*;
use image::{ImageBuffer, Rgb, RgbImage};

verus! {

/// An `image::RgbImage`, which Verus sees only through the names and
/// wrappers below.
#[verifier::external_body]
pub struct RgbCanvas {
    img: RgbImage,
}

/// The pixels of an RGB image, row-major: pixel (x, y) is at y * width + x.
pub uninterp spec fn image_pixels(img: RgbCanvas) -> Seq<[u8; 3]>;

/// The (width, height) of an RGB image.
pub uninterp spec fn image_size(img: RgbCanvas) -> (nat, nat);

/// Relies on `ImageBuffer::from_pixel`: a width x height image with every
/// pixel `color`. It panics only when the byte count overflows `usize`.
#[verifier::external_body]
pub(crate) fn image_filled(width: u32, height: u32, color: [u8; 3]) -> (r: RgbCanvas)
    requires
        width <= 4096,
        height <= 4096,
    ensures
        image_size(r) == (width as nat, height as nat),
        image_pixels(r).len() == width * height,
        forall|k: int| 0 <= k < image_pixels(r).len() ==> #[trigger] image_pixels(r)[k] == color,
{
    RgbCanvas { img: ImageBuffer::from_pixel(width, height, Rgb(color)) }
}

/// Relies on `ImageBuffer::get_pixel`: the pixel at (x, y); it panics
/// outside the image.
#[verifier::external_body]
pub(crate) fn image_get(img: &RgbCanvas, x: u32, y: u32) -> (r: [u8; 3])
    requires
        x < image_size(*img).0,
        y < image_size(*img).1,
    ensures
        r == image_pixels(*img)[y * image_size(*img).0 + x],
{
    img.img.get_pixel(x, y).0
}

/// Relies on `ImageBuffer::put_pixel`: sets the pixel at (x, y) and nothing
/// else; it panics outside the image.
#[verifier::external_body]
pub(crate) fn image_put(img: &mut RgbCanvas, x: u32, y: u32, color: [u8; 3])
    requires
        x < image_size(*old(img)).0,
        y < image_size(*old(img)).1,
    ensures
        image_size(*final(img)) == image_size(*old(img)),
        image_pixels(*final(img)) == image_pixels(*old(img)).update(
            y * image_size(*old(img)).0 + x,
            color,
        ),
{
    img.img.put_pixel(x, y, Rgb(color))
}

/// Relies on `ImageBuffer::into_raw`: the subpixels, three per pixel, in
/// pixel order.
#[verifier::external_body]
pub(crate) fn image_into_raw(img: RgbCanvas) -> (r: Vec<u8>)
    ensures
        r@.len() == 3 * image_pixels(img).len(),
        forall|k: int, c: int|
            0 <= k < image_pixels(img).len() && 0 <= c < 3 ==> #[trigger] r@[3 * k + c]
                == image_pixels(img)[k][c],
{
    img.img.into_raw()
}

} // verus!
