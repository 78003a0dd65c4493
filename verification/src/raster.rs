use crate::error::TransformError;
use image::DynamicImage;
use vstd::prelude::*;

verus! {

/// `image::DynamicImage`, carried through as an opaque value. What it holds is
/// spoken of through the three names below, and nothing of it is proved here.
#[verifier::external_type_specification]
#[verifier::external_body]
pub struct ExDynamicImage(image::DynamicImage);

/// The number of pixel columns of an image, as `DynamicImage::width` reports it.
pub uninterp spec fn image_width(image: DynamicImage) -> nat;

/// The number of pixel rows of an image, as `DynamicImage::height` reports it.
pub uninterp spec fn image_height(image: DynamicImage) -> nat;

/// The pixels of an image row by row from the top left, each as the red, green
/// and blue bytes that `get_pixel` yields once its alpha is dropped.
pub uninterp spec fn image_pixels(image: DynamicImage) -> Seq<[u8; 3]>;

/// The first `count` pixels that a flat buffer of bytes holds, three bytes to a
/// pixel in the order red, green, blue.
pub open spec fn packed(bytes: Seq<u8>, count: int) -> Seq<[u8; 3]> {
    Seq::new(count as nat, |i: int| [bytes[3 * i], bytes[3 * i + 1], bytes[3 * i + 2]])
}

/// Calls `DynamicImage::width`. Taken on trust: the result is the width of the
/// image.
#[verifier::external_body]
pub(crate) fn width_of(image: &DynamicImage) -> (w: u32)
    ensures
        w == image_width(*image),
{
    image.width()
}

/// Calls `DynamicImage::height`. Taken on trust: the result is the height of
/// the image, and the image has one pixel for each pair of a column and a row.
#[verifier::external_body]
pub(crate) fn height_of(image: &DynamicImage) -> (h: u32)
    ensures
        h == image_height(*image),
        image_pixels(*image).len() == image_width(*image) * h,
{
    image.height()
}

/// Calls `GenericImageView::get_pixel` and `Pixel::to_rgb` for the pixel in
/// column `x` of row `y`. The position must lie inside the image, outside of it
/// the call panics. Taken on trust: the result is the pixel that stands at
/// `y * width + x` when the image is read row by row.
#[verifier::external_body]
fn rgb_at(image: &DynamicImage, x: u32, y: u32) -> (p: [u8; 3])
    requires
        x < image_width(*image),
        y < image_height(*image),
    ensures
        p == image_pixels(*image)[y * image_width(*image) + x],
{
    image::Pixel::to_rgb(&image::GenericImageView::get_pixel(image, x, y)).0
}

/// Calls `ImageBuffer::from_raw` for an 8-bit RGB image over `bytes`, three to a
/// pixel, row by row, and wraps the buffer as `DynamicImage::ImageRgb8`. Taken on
/// trust: the container accepts the bytes exactly when three times the width is
/// a machine size and the bytes cover every pixel; the image then has the given
/// width and height, and its pixels are the bytes three by three, surplus bytes
/// left aside.
#[verifier::external_body]
fn rgb8_image(width: u32, height: u32, bytes: Vec<u8>) -> (r: Option<DynamicImage>)
    ensures
        r is Some <==> (3 * width <= usize::MAX && 3 * width * height <= bytes@.len()),
        r matches Some(image) ==> (image_width(image) == width && image_height(image) == height),
        r matches Some(image) ==> image_pixels(image) == packed(bytes@, width * height),
{
    image::RgbImage::from_raw(width, height, bytes).map(DynamicImage::ImageRgb8)
}

/// The pixels of an image as a flat buffer in raster order.
pub fn img_to_rgb(image: &DynamicImage) -> (pixels: Vec<[u8; 3]>)
    ensures
        pixels@ == image_pixels(*image),
{
    let width: u32 = width_of(image);
    let height: u32 = height_of(image);
    let mut pixels: Vec<[u8; 3]> = Vec::new();
    let mut y: u32 = 0;
    while y < height
        invariant
            y <= height,
            width == image_width(*image),
            height == image_height(*image),
            image_pixels(*image).len() == width * height,
            pixels@ == image_pixels(*image).take(y * width),
        decreases height - y,
    {
        let mut x: u32 = 0;
        while x < width
            invariant
                x <= width,
                y < height,
                width == image_width(*image),
                height == image_height(*image),
                image_pixels(*image).len() == width * height,
                pixels@ == image_pixels(*image).take(y * width + x),
            decreases width - x,
        {
            proof {
                assert(y * width + x < width * height) by (nonlinear_arith)
                    requires
                        x < width,
                        y < height,
                ;
            }
            let p = rgb_at(image, x, y);
            pixels.push(p);
            x = x + 1;
        }
        proof {
            assert((y + 1) * width == y * width + width) by (nonlinear_arith);
        }
        y = y + 1;
    }
    proof {
        assert(height * width == width * height) by (nonlinear_arith);
        assert(pixels@ =~= image_pixels(*image));
    }
    pixels
}

/// The bytes of a pixel buffer, three to a pixel in the order red, green, blue.
pub fn flatten(pixels: &Vec<[u8; 3]>) -> (bytes: Vec<u8>)
    ensures
        bytes@.len() == 3 * pixels@.len(),
        packed(bytes@, pixels@.len() as int) == pixels@,
{
    let mut bytes: Vec<u8> = Vec::new();
    let mut i: usize = 0;
    while i < pixels.len()
        invariant
            i <= pixels@.len(),
            bytes@.len() == 3 * i,
            forall|k: int, c: int|
                0 <= k < i && 0 <= c < 3 ==> bytes@[3 * k + c] == #[trigger] pixels@[k][c],
        decreases pixels@.len() - i,
    {
        let p = pixels[i];
        bytes.push(p[0]);
        bytes.push(p[1]);
        bytes.push(p[2]);
        i = i + 1;
    }
    proof {
        let packed = packed(bytes@, pixels@.len() as int);
        assert forall|k: int| 0 <= k < pixels@.len() implies packed[k] == pixels@[k] by {
            assert(forall|c: int| 0 <= c < 3 ==> packed[k][c] == pixels@[k][c]);
            assert(packed[k] =~= pixels@[k]);
        }
        assert(packed =~= pixels@);
    }
    bytes
}

/// Lays a pixel buffer out as an 8-bit RGB image of the given width and height,
/// row by row from the top left. The buffer must hold exactly one pixel for each
/// position of the image.
pub fn rgb_to_img(width: u32, height: u32, pixels: &Vec<[u8; 3]>) -> (r: Result<
    DynamicImage,
    TransformError,
>)
    ensures
        r is Err <==> width * height != pixels@.len() || 3 * width > usize::MAX,
        r matches Err(e) ==> e == (if width * height != pixels@.len() {
            TransformError::DimensionMismatch
        } else {
            TransformError::ImageTooLarge
        }),
        r matches Ok(image) ==> image_width(image) == width && image_height(image) == height
            && image_pixels(image) == pixels@,
{
    proof {
        assert(width * height <= 0xffff_ffff * 0xffff_ffff) by (nonlinear_arith)
            requires
                width <= 0xffff_ffff,
                height <= 0xffff_ffff,
        ;
    }
    let area: u64 = width as u64 * height as u64;
    if area != pixels.len() as u64 {
        return Err(TransformError::DimensionMismatch);
    }
    let bytes = flatten(pixels);
    proof {
        assert(3 * width * height == 3 * (width * height)) by (nonlinear_arith);
    }
    match rgb8_image(width, height, bytes) {
        Some(image) => Ok(image),
        None => Err(TransformError::ImageTooLarge),
    }
}

} // verus!
