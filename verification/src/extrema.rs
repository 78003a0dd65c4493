use crate::channel::{abs_diff, distance};
use crate::error::TransformError;
use crate::raster::{image_height, image_pixels, image_width, rgb_to_img};
use image::DynamicImage;
use vstd::prelude::*;

verus! {

/// Selection of min or max image
#[derive(Clone, Copy, Debug, PartialEq, Eq, Structural)]
pub enum Differential {
    Min,
    Max,
}

/// The smaller of two bytes.
pub open spec fn least(a: u8, b: u8) -> u8 {
    if b < a {
        b
    } else {
        a
    }
}

/// The larger of two bytes.
pub open spec fn greatest(a: u8, b: u8) -> u8 {
    if b > a {
        b
    } else {
        a
    }
}

/// The channel-wise minimum of two pixels.
pub open spec fn lower(a: [u8; 3], b: [u8; 3]) -> [u8; 3] {
    [least(a[0], b[0]), least(a[1], b[1]), least(a[2], b[2])]
}

/// The channel-wise maximum of two pixels.
pub open spec fn upper(a: [u8; 3], b: [u8; 3]) -> [u8; 3] {
    [greatest(a[0], b[0]), greatest(a[1], b[1]), greatest(a[2], b[2])]
}

/// The channel-wise absolute difference of two pixels.
pub open spec fn distances(a: [u8; 3], b: [u8; 3]) -> [u8; 3] {
    [distance(a[0], b[0]) as u8, distance(a[1], b[1]) as u8, distance(a[2], b[2]) as u8]
}

impl Differential {
    /// The pixel an extrema buffer of this kind starts from: it yields to any
    /// pixel that is held against it.
    pub open spec fn neutral(self) -> [u8; 3] {
        match self {
            Differential::Min => [255u8, 255u8, 255u8],
            Differential::Max => [0u8, 0u8, 0u8],
        }
    }
}

/// contains a vector of rgb values and the amount of pixels
pub struct MinMaxImg {
    pixels: usize,
    rgb: Vec<[u8; 3]>,
}

impl View for MinMaxImg {
    type V = Seq<[u8; 3]>;

    closed spec fn view(&self) -> Seq<[u8; 3]> {
        self.rgb@
    }
}

impl MinMaxImg {
    #[verifier::type_invariant]
    spec fn counted(&self) -> bool {
        self.pixels == self.rgb@.len()
    }

    /// A buffer of `pixels` positions, each at the neutral pixel of `variant`.
    pub fn new(pixels: usize, variant: Differential) -> (r: Self)
        ensures
            r@ == Seq::new(pixels as nat, |i: int| variant.neutral()),
    {
        let rgb = match variant {
            Differential::Min => vec![[255, 255, 255]; pixels],
            Differential::Max => vec![[0, 0, 0]; pixels],
        };
        proof {
            assert forall|i: int| 0 <= i < pixels implies rgb@[i] == variant.neutral() by {
                assert(rgb@[i] =~= variant.neutral());
            }
            assert(rgb@ =~= Seq::new(pixels as nat, |i: int| variant.neutral()));
        }
        MinMaxImg { pixels, rgb }
    }

    /// A buffer that holds the given pixels.
    pub fn from_pixels(rgb: Vec<[u8; 3]>) -> (r: Self)
        ensures
            r@ == rgb@,
    {
        MinMaxImg { pixels: rgb.len(), rgb }
    }

    /// The number of positions.
    pub fn len(&self) -> (n: usize)
        ensures
            n == self@.len(),
    {
        proof {
            use_type_invariant(self);
        }
        self.pixels
    }

    /// The pixels, position by position.
    pub fn rgb(&self) -> (r: &Vec<[u8; 3]>)
        ensures
            r@ == self@,
    {
        &self.rgb
    }

    /// Lowers each channel at `index` to that of `pxl` where `pxl` lies below it.
    pub fn min(&mut self, pxl: [u8; 3], index: usize)
        requires
            index < old(self)@.len(),
        ensures
            final(self)@ == old(self)@.update(index as int, lower(old(self)@[index as int], pxl)),
    {
        proof {
            use_type_invariant(&*self);
        }
        if pxl[0] < self.rgb[index][0] {
            self.rgb[index][0] = pxl[0];
        }
        if pxl[1] < self.rgb[index][1] {
            self.rgb[index][1] = pxl[1];
        }
        if pxl[2] < self.rgb[index][2] {
            self.rgb[index][2] = pxl[2];
        }
        proof {
            let lowered = lower(old(self)@[index as int], pxl);
            assert(self@[index as int] =~= lowered);
            assert(self@ =~= old(self)@.update(index as int, lowered));
        }
    }

    /// Raises each channel at `index` to that of `pxl` where `pxl` lies above it.
    pub fn max(&mut self, pxl: [u8; 3], index: usize)
        requires
            index < old(self)@.len(),
        ensures
            final(self)@ == old(self)@.update(index as int, upper(old(self)@[index as int], pxl)),
    {
        proof {
            use_type_invariant(&*self);
        }
        if pxl[0] > self.rgb[index][0] {
            self.rgb[index][0] = pxl[0];
        }
        if pxl[1] > self.rgb[index][1] {
            self.rgb[index][1] = pxl[1];
        }
        if pxl[2] > self.rgb[index][2] {
            self.rgb[index][2] = pxl[2];
        }
        proof {
            let raised = upper(old(self)@[index as int], pxl);
            assert(self@[index as int] =~= raised);
            assert(self@ =~= old(self)@.update(index as int, raised));
        }
    }

    /// The channel-wise absolute difference between the pixel at `index` and `pxl`.
    pub fn difference(&self, pxl: [u8; 3], index: usize) -> (d: [u8; 3])
        requires
            index < self@.len(),
        ensures
            d == distances(self@[index as int], pxl),
    {
        [
            abs_diff(self.rgb[index][0], pxl[0]),
            abs_diff(self.rgb[index][1], pxl[1]),
            abs_diff(self.rgb[index][2], pxl[2]),
        ]
    }

    /// Lays the buffer out as an image of the given width and height, ready to be
    /// written through a lossless codec. Dimensions that do not multiply to the
    /// number of positions are refused.
    pub fn save(&self, width: u32, height: u32) -> (r: Result<DynamicImage, TransformError>)
        ensures
            r is Err <==> width * height != self@.len() || 3 * width > usize::MAX,
            r matches Err(e) ==> e == (if width * height != self@.len() {
                TransformError::DimensionMismatch
            } else {
                TransformError::ImageTooLarge
            }),
            r matches Ok(image) ==> image_width(image) == width && image_height(image) == height
                && image_pixels(image) == self@,
    {
        proof {
            use_type_invariant(self);
            assert(width * height <= 0xffff_ffff * 0xffff_ffff) by (nonlinear_arith)
                requires
                    width <= 0xffff_ffff,
                    height <= 0xffff_ffff,
            ;
        }
        if width as u64 * height as u64 == self.pixels as u64 {
            rgb_to_img(width, height, &self.rgb)
        } else {
            Err(TransformError::DimensionMismatch)
        }
    }
}

/// A minimum buffer after one image was taken in: each position that the image
/// covers is lowered to the pixel of the image, the others stay.
pub open spec fn lowered(buffer: Seq<[u8; 3]>, pixels: Seq<[u8; 3]>) -> Seq<[u8; 3]> {
    Seq::new(
        buffer.len(),
        |i: int|
            if i < pixels.len() {
                lower(buffer[i], pixels[i])
            } else {
                buffer[i]
            },
    )
}

/// A maximum buffer after one image was taken in: each position that the image
/// covers is raised to the pixel of the image, the others stay.
pub open spec fn raised(buffer: Seq<[u8; 3]>, pixels: Seq<[u8; 3]>) -> Seq<[u8; 3]> {
    Seq::new(
        buffer.len(),
        |i: int|
            if i < pixels.len() {
                upper(buffer[i], pixels[i])
            } else {
                buffer[i]
            },
    )
}

/// Takes the pixels of one image into a pair of extrema buffers, position by
/// position along the shared linear index.
pub fn accumulate(min: &mut MinMaxImg, max: &mut MinMaxImg, pixels: &Vec<[u8; 3]>)
    requires
        pixels@.len() <= old(min)@.len(),
        pixels@.len() <= old(max)@.len(),
    ensures
        final(min)@ == lowered(old(min)@, pixels@),
        final(max)@ == raised(old(max)@, pixels@),
{
    let mut i: usize = 0;
    while i < pixels.len()
        invariant
            i <= pixels@.len(),
            pixels@.len() <= old(min)@.len(),
            pixels@.len() <= old(max)@.len(),
            min@ == lowered(old(min)@, pixels@.take(i as int)),
            max@ == raised(old(max)@, pixels@.take(i as int)),
        decreases pixels@.len() - i,
    {
        min.min(pixels[i], i);
        max.max(pixels[i], i);
        proof {
            assert(min@ =~= lowered(old(min)@, pixels@.take(i + 1)));
            assert(max@ =~= raised(old(max)@, pixels@.take(i + 1)));
        }
        i = i + 1;
    }
    proof {
        assert(pixels@.take(i as int) =~= pixels@);
    }
}

/// The area of an image of the given width and height.
pub open spec fn area(dimensions: (usize, usize)) -> int {
    dimensions.0 * dimensions.1
}

/// The larger of two images by area, given as width and height; the first of
/// them where neither is larger.
pub fn larger_of(best: (usize, usize), next: (usize, usize)) -> (r: (usize, usize))
    ensures
        r == (if area(best) < area(next) {
            next
        } else {
            best
        }),
{
    proof {
        assert(best.0 * best.1 <= usize::MAX * usize::MAX) by (nonlinear_arith)
            requires
                best.0 <= usize::MAX,
                best.1 <= usize::MAX,
        ;
        assert(next.0 * next.1 <= usize::MAX * usize::MAX) by (nonlinear_arith)
            requires
                next.0 <= usize::MAX,
                next.1 <= usize::MAX,
        ;
        assert(usize::MAX * usize::MAX <= u128::MAX) by (nonlinear_arith)
            requires
                usize::MAX <= 0xffff_ffff_ffff_ffff,
        ;
    }
    if (best.0 as u128) * (best.1 as u128) < (next.0 as u128) * (next.1 as u128) {
        next
    } else {
        best
    }
}

} // verus!
