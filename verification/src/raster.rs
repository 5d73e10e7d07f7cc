//! Encoded pixels laid out as an 8-bit RGB image of the `image` crate.

use crate::canvas::{pixel_index, Canvas};
use vstd::prelude::*;

verus! {

/// An 8-bit RGB image, ready to be written to a file.
#[verifier::external_body]
pub struct Raster {
    pub image: image::ImageBuffer<image::Rgb<u8>, Vec<u8>>,
}

/// The pixels of the image, row after row, each as red, green and blue.
pub uninterp spec fn raster_pixels(raster: Raster) -> Seq<(u8, u8, u8)>;

/// The width of the image in pixels.
pub uninterp spec fn raster_width(raster: Raster) -> nat;

/// The height of the image in pixels.
pub uninterp spec fn raster_height(raster: Raster) -> nat;

/// `image::ImageBuffer::new`: an image of `width` by `height` pixels whose
/// bytes are all zero. It panics where the three bytes of every pixel are
/// more than a vector holds.
#[verifier::external_body]
fn new_raster(width: u32, height: u32) -> (raster: Raster)
    requires
        3 * width * height <= isize::MAX,
    ensures
        raster_width(raster) == width,
        raster_height(raster) == height,
        raster_pixels(raster) == Seq::new((width * height) as nat, |i: int| (0u8, 0u8, 0u8)),
{
    Raster { image: image::ImageBuffer::new(width, height) }
}

/// `image::ImageBuffer::put_pixel` with an `image::Rgb`: the pixel in column
/// `x` of row `y` becomes `rgb`, and nothing else changes. It panics where
/// `x` is not less than the width or `y` not less than the height.
#[verifier::external_body]
fn put_rgb(raster: &mut Raster, x: u32, y: u32, rgb: (u8, u8, u8))
    requires
        x < raster_width(*old(raster)),
        y < raster_height(*old(raster)),
    ensures
        raster_width(*final(raster)) == raster_width(*old(raster)),
        raster_height(*final(raster)) == raster_height(*old(raster)),
        raster_pixels(*final(raster)) == raster_pixels(*old(raster)).update(
            pixel_index(raster_width(*old(raster)) as int, x as int, y as int),
            rgb,
        ),
{
    raster.image.put_pixel(x, y, image::Rgb([rgb.0, rgb.1, rgb.2]))
}

/// The image of `width` by `height` pixels that holds `pixels` row after row.
pub fn to_raster(width: u32, height: u32, pixels: &Vec<(u8, u8, u8)>) -> (raster: Raster)
    requires
        pixels@.len() == width * height,
        width * height <= u32::MAX,
        3 * width * height <= isize::MAX,
    ensures
        raster_width(raster) == width,
        raster_height(raster) == height,
        raster_pixels(raster) == pixels@,
{
    let mut raster = new_raster(width, height);
    let size: u32 = width * height;
    let mut idx: u32 = 0;
    while idx < size
        invariant
            idx <= size,
            size == width * height,
            pixels@.len() == size,
            raster_width(raster) == width,
            raster_height(raster) == height,
            raster_pixels(raster).len() == size,
            forall|k: int| 0 <= k < idx ==> raster_pixels(raster)[k] == pixels@[k],
        decreases size - idx,
    {
        proof {
            if width == 0 {
                assert(width * height == 0);
            }
        }
        let (x, y) = Canvas::get_xy(width, idx);
        assert(y < height) by (nonlinear_arith)
            requires
                x + y * width == idx,
                idx < width * height,
                x >= 0,
                width > 0,
        ;
        put_rgb(&mut raster, x, y, pixels[idx as usize]);
        idx = idx + 1;
    }
    assert(raster_pixels(raster) =~= pixels@);
    raster
}

} // verus!
