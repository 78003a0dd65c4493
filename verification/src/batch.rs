use crate::error::TransformError;
use crate::extrema::{accumulate, area, larger_of, lowered, raised, Differential, MinMaxImg};
use crate::raster::{
    height_of, image_height, image_pixels, image_width, img_to_rgb, rgb_to_img, width_of,
};
use crate::laws::extrema_enclose_batch;
use crate::transform::{
    between, decode_pixels, decoded, encode_pixels, encoded, inverted,
};
use image::DynamicImage;
use vstd::prelude::*;

verus! {

/// The number of positions of an image.
pub open spec fn image_area(image: DynamicImage) -> nat {
    image_width(image) * image_height(image)
}

/// Whether image `k` is the first of the largest images of a batch, and holds
/// at least one pixel.
pub open spec fn is_first_largest(images: Seq<DynamicImage>, k: int) -> bool {
    &&& 0 <= k < images.len()
    &&& image_area(images[k]) > 0
    &&& forall|j: int|
        0 <= j < images.len() ==> image_area(#[trigger] images[j]) <= image_area(images[k])
    &&& forall|j: int| 0 <= j < k ==> image_area(#[trigger] images[j]) < image_area(images[k])
}

/// Whether no image of a batch holds a pixel.
pub open spec fn all_empty(images: Seq<DynamicImage>) -> bool {
    forall|j: int| 0 <= j < images.len() ==> image_area(#[trigger] images[j]) == 0
}

/// Get largest image from a vector of images: the width and height of the first
/// image that no other exceeds in area, or (0, 0) where no image holds a pixel.
pub fn get_largest_image(images: &Vec<DynamicImage>) -> (r: (usize, usize))
    ensures
        (all_empty(images@) && r == (0usize, 0usize)) || (exists|k: int|
            #[trigger] is_first_largest(images@, k) && r.0 == image_width(images@[k]) && r.1
                == image_height(images@[k])),
{
    let mut best: (usize, usize) = (0, 0);
    let ghost mut first: int = -1;
    let mut i: usize = 0;
    while i < images.len()
        invariant
            i <= images@.len(),
            -1 <= first < i,
            first == -1 ==> best == (0usize, 0usize) && all_empty(images@.take(i as int)),
            first >= 0 ==> is_first_largest(images@.take(i as int), first) && best.0
                == image_width(images@[first]) && best.1 == image_height(images@[first]),
        decreases images@.len() - i,
    {
        let width = width_of(&images[i]);
        let height = height_of(&images[i]);
        let next = (width as usize, height as usize);
        let ghost before = images@.take(i as int);
        let ghost now = images@.take(i + 1);
        proof {
            assert(forall|j: int| 0 <= j < i ==> now[j] == before[j]);
            assert(now[i as int] == images@[i as int]);
            assert(area(next) == image_area(images@[i as int]));
            if first >= 0 {
                assert(area(best) == image_area(images@[first]));
                assert(before[first] == images@[first]);
            }
        }
        let chosen = larger_of(best, next);
        proof {
            if area(best) < area(next) {
                first = i as int;
            } else if first == -1 {
                assert forall|j: int| 0 <= j < now.len() implies image_area(#[trigger] now[j])
                    == 0 by {
                    if j < i {
                        assert(image_area(before[j]) == 0);
                    } else {
                        assert(best.0 * best.1 == 0) by (nonlinear_arith)
                            requires
                                best.0 == 0,
                        ;
                    }
                }
            }
        }
        best = chosen;
        i = i + 1;
    }
    proof {
        assert(images@.take(i as int) =~= images@);
    }
    best
}

/// The pixel buffers of the images of a batch.
pub open spec fn batch_pixels(images: Seq<DynamicImage>) -> Seq<Seq<[u8; 3]>> {
    Seq::new(images.len(), |k: int| image_pixels(images[k]))
}

/// The minimum buffer of `len` positions after the first `count` images of a
/// batch were taken in.
pub open spec fn batch_min(batch: Seq<Seq<[u8; 3]>>, len: nat, count: int) -> Seq<[u8; 3]>
    decreases count,
{
    if count <= 0 {
        Seq::new(len, |i: int| Differential::Min.neutral())
    } else {
        lowered(batch_min(batch, len, count - 1), batch[count - 1])
    }
}

/// The maximum buffer of `len` positions after the first `count` images of a
/// batch were taken in.
pub open spec fn batch_max(batch: Seq<Seq<[u8; 3]>>, len: nat, count: int) -> Seq<[u8; 3]>
    decreases count,
{
    if count <= 0 {
        Seq::new(len, |i: int| Differential::Max.neutral())
    } else {
        raised(batch_max(batch, len, count - 1), batch[count - 1])
    }
}

/// Whether one of the first `count` images of a batch has more than `len` pixels.
pub open spec fn overlong(batch: Seq<Seq<[u8; 3]>>, len: nat, count: int) -> bool {
    exists|k: int| 0 <= k < count && (#[trigger] batch[k]).len() > len
}

/// Get minimum and maximum images from a given vector of images. Both buffers
/// have `max_pixels` positions. An image with more pixels than that is refused.
pub fn get_minmax(images: &Vec<DynamicImage>, max_pixels: usize) -> (r: Result<
    (MinMaxImg, MinMaxImg),
    TransformError,
>)
    ensures
        r is Err <==> overlong(batch_pixels(images@), max_pixels as nat, images@.len() as int),
        r matches Err(e) ==> e == TransformError::ExtremaTooShort,
        r matches Ok(pair) ==> pair.0@ == batch_min(
            batch_pixels(images@),
            max_pixels as nat,
            images@.len() as int,
        ) && pair.1@ == batch_max(batch_pixels(images@), max_pixels as nat, images@.len() as int),
        r matches Ok(pair) ==> forall|k: int, i: int|
            0 <= k < images@.len() && 0 <= i < image_pixels(images@[k]).len() ==> between(
                pair.0@[i],
                pair.1@[i],
                #[trigger] image_pixels(images@[k])[i],
            ),
{
    let mut min = MinMaxImg::new(max_pixels, Differential::Min);
    let mut max = MinMaxImg::new(max_pixels, Differential::Max);
    let ghost batch = batch_pixels(images@);
    let mut k: usize = 0;
    while k < images.len()
        invariant
            k <= images@.len(),
            batch == batch_pixels(images@),
            !overlong(batch, max_pixels as nat, k as int),
            min@ == batch_min(batch, max_pixels as nat, k as int),
            max@ == batch_max(batch, max_pixels as nat, k as int),
            min@.len() == max_pixels,
            max@.len() == max_pixels,
        decreases images@.len() - k,
    {
        let pixels = img_to_rgb(&images[k]);
        proof {
            assert(batch[k as int] == pixels@);
        }
        if pixels.len() > max_pixels {
            return Err(TransformError::ExtremaTooShort);
        }
        accumulate(&mut min, &mut max, &pixels);
        k = k + 1;
    }
    proof {
        assert forall|k: int, i: int|
            0 <= k < images@.len() && 0 <= i < image_pixels(images@[k]).len() implies between(
            min@[i],
            max@[i],
            #[trigger] image_pixels(images@[k])[i],
        ) by {
            assert(batch[k].len() <= max_pixels);
            extrema_enclose_batch(batch, max_pixels as nat, images@.len() as int, k, i);
        }
    }
    Ok((min, max))
}

/// Why an image cannot be transformed against a pair of extrema buffers, if it
/// cannot: the buffers are held against the image first, then each visited
/// position is looked at, then the container is asked for the result.
pub open spec fn refusal(min: Seq<[u8; 3]>, max: Seq<[u8; 3]>, image: DynamicImage) -> Option<
    TransformError,
> {
    let count = image_pixels(image).len();
    if count > min.len() || count > max.len() {
        Some(TransformError::ExtremaTooShort)
    } else if inverted(min, max, count as int) {
        Some(TransformError::InvertedExtrema)
    } else if 3 * image_width(image) > usize::MAX {
        Some(TransformError::ImageTooLarge)
    } else {
        None
    }
}

/// Encodes one image against the extrema: the result has the dimensions of the
/// source, and its pixels are the distances that the toggle rule selects,
/// starting from a fresh state.
pub fn encode_image(min: &MinMaxImg, max: &MinMaxImg, image: &DynamicImage) -> (r: Result<
    DynamicImage,
    TransformError,
>)
    ensures
        r is Err <==> refusal(min@, max@, *image) is Some,
        r matches Err(e) ==> refusal(min@, max@, *image) == Some(e),
        r matches Ok(out) ==> image_width(out) == image_width(*image) && image_height(out)
            == image_height(*image) && image_pixels(out) == encoded(
            min@,
            max@,
            image_pixels(*image),
        ),
{
    let width = width_of(image);
    let height = height_of(image);
    let pixels = img_to_rgb(image);
    if pixels.len() > min.len() || pixels.len() > max.len() {
        return Err(TransformError::ExtremaTooShort);
    }
    match encode_pixels(min, max, &pixels) {
        Ok(out) => rgb_to_img(width, height, &out),
        Err(e) => Err(e),
    }
}

/// Decodes one transformed image against the extrema: the result has the
/// dimensions of the source, and its pixels are rebuilt by the inverse of the
/// toggle rule, starting from a fresh state.
pub fn decode_image(min: &Vec<[u8; 3]>, max: &Vec<[u8; 3]>, image: &DynamicImage) -> (r: Result<
    DynamicImage,
    TransformError,
>)
    ensures
        r is Err <==> refusal(min@, max@, *image) is Some,
        r matches Err(e) ==> refusal(min@, max@, *image) == Some(e),
        r matches Ok(out) ==> image_width(out) == image_width(*image) && image_height(out)
            == image_height(*image) && image_pixels(out) == decoded(
            min@,
            max@,
            image_pixels(*image),
        ),
{
    let width = width_of(image);
    let height = height_of(image);
    let pixels = img_to_rgb(image);
    if pixels.len() > min.len() || pixels.len() > max.len() {
        return Err(TransformError::ExtremaTooShort);
    }
    match decode_pixels(min, max, &pixels) {
        Ok(out) => rgb_to_img(width, height, &out),
        Err(e) => Err(e),
    }
}

/// Whether image `k` is the first image of a batch that cannot be transformed.
pub open spec fn is_first_refused(
    min: Seq<[u8; 3]>,
    max: Seq<[u8; 3]>,
    images: Seq<DynamicImage>,
    k: int,
) -> bool {
    &&& 0 <= k < images.len()
    &&& refusal(min, max, images[k]) is Some
    &&& forall|j: int| 0 <= j < k ==> refusal(min, max, #[trigger] images[j]) is None
}

/// Whether one of the first `count` images of a batch cannot be transformed.
pub open spec fn any_refused(
    min: Seq<[u8; 3]>,
    max: Seq<[u8; 3]>,
    images: Seq<DynamicImage>,
    count: int,
) -> bool {
    exists|k: int| 0 <= k < count && refusal(min, max, #[trigger] images[k]) is Some
}

/// Encodes images using the provided min and max images. Every image is encoded
/// on its own, from a fresh state; the first image that cannot be transformed
/// ends the batch with its error.
pub fn encode(min: &MinMaxImg, max: &MinMaxImg, images: &Vec<DynamicImage>) -> (r: Result<
    Vec<DynamicImage>,
    TransformError,
>)
    ensures
        r is Err <==> any_refused(min@, max@, images@, images@.len() as int),
        r matches Err(e) ==> exists|k: int|
            #[trigger] is_first_refused(min@, max@, images@, k) && refusal(
                min@,
                max@,
                images@[k],
            ) == Some(e),
        r matches Ok(out) ==> out@.len() == images@.len() && forall|k: int|
            0 <= k < images@.len() ==> image_width(#[trigger] out@[k]) == image_width(images@[k])
                && image_height(out@[k]) == image_height(images@[k]) && image_pixels(out@[k])
                == encoded(min@, max@, image_pixels(images@[k])),
{
    let mut out: Vec<DynamicImage> = Vec::new();
    let mut i: usize = 0;
    while i < images.len()
        invariant
            i <= images@.len(),
            out@.len() == i,
            !any_refused(min@, max@, images@, i as int),
            forall|k: int|
                0 <= k < i ==> image_width(#[trigger] out@[k]) == image_width(images@[k])
                    && image_height(out@[k]) == image_height(images@[k]) && image_pixels(out@[k])
                    == encoded(min@, max@, image_pixels(images@[k])),
        decreases images@.len() - i,
    {
        match encode_image(min, max, &images[i]) {
            Ok(new) => {
                out.push(new);
            },
            Err(e) => {
                proof {
                    assert(refusal(min@, max@, images@[i as int]) is Some);
                    assert(is_first_refused(min@, max@, images@, i as int));
                }
                return Err(e);
            },
        }
        i = i + 1;
    }
    Ok(out)
}

/// Decodes a vector of images using the min and max pixel vectors. Every image
/// is decoded on its own, from a fresh state; the first image that cannot be
/// transformed ends the batch with its error.
pub fn decode(min: &Vec<[u8; 3]>, max: &Vec<[u8; 3]>, images: &Vec<DynamicImage>) -> (r: Result<
    Vec<DynamicImage>,
    TransformError,
>)
    ensures
        r is Err <==> any_refused(min@, max@, images@, images@.len() as int),
        r matches Err(e) ==> exists|k: int|
            #[trigger] is_first_refused(min@, max@, images@, k) && refusal(
                min@,
                max@,
                images@[k],
            ) == Some(e),
        r matches Ok(out) ==> out@.len() == images@.len() && forall|k: int|
            0 <= k < images@.len() ==> image_width(#[trigger] out@[k]) == image_width(images@[k])
                && image_height(out@[k]) == image_height(images@[k]) && image_pixels(out@[k])
                == decoded(min@, max@, image_pixels(images@[k])),
{
    let mut out: Vec<DynamicImage> = Vec::new();
    let mut i: usize = 0;
    while i < images.len()
        invariant
            i <= images@.len(),
            out@.len() == i,
            !any_refused(min@, max@, images@, i as int),
            forall|k: int|
                0 <= k < i ==> image_width(#[trigger] out@[k]) == image_width(images@[k])
                    && image_height(out@[k]) == image_height(images@[k]) && image_pixels(out@[k])
                    == decoded(min@, max@, image_pixels(images@[k])),
        decreases images@.len() - i,
    {
        match decode_image(min, max, &images[i]) {
            Ok(new) => {
                out.push(new);
            },
            Err(e) => {
                proof {
                    assert(refusal(min@, max@, images@[i as int]) is Some);
                    assert(is_first_refused(min@, max@, images@, i as int));
                }
                return Err(e);
            },
        }
        i = i + 1;
    }
    Ok(out)
}

} // verus!
