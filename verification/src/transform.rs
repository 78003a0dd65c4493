use crate::channel::{emitted, process_color_decode, process_color_encode, restored, toggled};
use crate::error::TransformError;
use crate::extrema::{distances, MinMaxImg};
use vstd::prelude::*;

verus! {

/// Which extremum each of the three channels refers to: `true` selects the
/// maximum, `false` the minimum. One state lives for one pass over one image.
#[derive(Clone, Copy, Debug)]
pub struct ToggleState {
    pub use_max: [bool; 3],
}

/// Whether in every channel the lower extremum lies at or below the upper one.
pub open spec fn ordered(lo: [u8; 3], hi: [u8; 3]) -> bool {
    lo[0] <= hi[0] && lo[1] <= hi[1] && lo[2] <= hi[2]
}

/// Whether every channel of `pixel` lies between the two extrema.
pub open spec fn between(lo: [u8; 3], hi: [u8; 3], pixel: [u8; 3]) -> bool {
    forall|c: int| 0 <= c < 3 ==> lo[c] <= #[trigger] pixel[c] <= hi[c]
}

impl ToggleState {
    /// The state at the start of an image: every channel refers to the minimum.
    pub open spec fn fresh() -> ToggleState {
        ToggleState { use_max: [false, false, false] }
    }

    /// The pixel the encoder emits in this state for a source pixel at the
    /// distances `d_min` and `d_max` from the two extrema.
    pub open spec fn emits(self, d_min: [u8; 3], d_max: [u8; 3]) -> [u8; 3] {
        [
            emitted(self.use_max[0], d_min[0], d_max[0]),
            emitted(self.use_max[1], d_min[1], d_max[1]),
            emitted(self.use_max[2], d_min[2], d_max[2]),
        ]
    }

    /// The pixel the decoder rebuilds in this state from the distances `d`.
    pub open spec fn restores(self, lo: [u8; 3], hi: [u8; 3], d: [u8; 3]) -> [u8; 3] {
        [
            restored(self.use_max[0], lo[0], hi[0], d[0]),
            restored(self.use_max[1], lo[1], hi[1], d[1]),
            restored(self.use_max[2], lo[2], hi[2], d[2]),
        ]
    }

    /// The state that follows this one once the distances `d` have been emitted
    /// or read at a position with the extrema `lo` and `hi`.
    pub open spec fn after(self, lo: [u8; 3], hi: [u8; 3], d: [u8; 3]) -> ToggleState {
        ToggleState {
            use_max: [
                toggled(self.use_max[0], lo[0], hi[0], d[0]),
                toggled(self.use_max[1], lo[1], hi[1], d[1]),
                toggled(self.use_max[2], lo[2], hi[2], d[2]),
            ],
        }
    }

    /// The state at the start of an image.
    pub fn new() -> (s: Self)
        ensures
            s == ToggleState::fresh(),
    {
        let s = ToggleState { use_max: [false, false, false] };
        proof {
            assert(s.use_max =~= ToggleState::fresh().use_max);
        }
        s
    }

    /// Encodes one pixel and moves the state on. `d_min` and `d_max` hold the
    /// distances of the source pixel to the extrema `min` and `max` of its
    /// position. Inverted extrema are refused and leave the state as it was.
    pub fn encode(&mut self, min: [u8; 3], max: [u8; 3], d_min: [u8; 3], d_max: [u8; 3]) -> (r:
        Result<[u8; 3], TransformError>)
        ensures
            r is Err <==> !ordered(min, max),
            r matches Err(e) ==> e == TransformError::InvertedExtrema && *final(self) == *old(self),
            r matches Ok(out) ==> out == old(self).emits(d_min, d_max) && *final(self) == old(
                self,
            ).after(min, max, out),
    {
        if max[0] < min[0] || max[1] < min[1] || max[2] < min[2] {
            return Err(TransformError::InvertedExtrema);
        }
        let mut out: [u8; 3] = [0, 0, 0];
        let mut j: usize = 0;
        while j < 3
            invariant
                j <= 3,
                ordered(min, max),
                forall|c: int|
                    0 <= c < j ==> out[c] == emitted(old(self).use_max[c], d_min[c], d_max[c]),
                forall|c: int|
                    0 <= c < j ==> self.use_max[c] == toggled(
                        old(self).use_max[c],
                        min[c],
                        max[c],
                        out[c],
                    ),
                forall|c: int| j <= c < 3 ==> self.use_max[c] == old(self).use_max[c],
            decreases 3 - j,
        {
            match process_color_encode(
                &mut self.use_max[j],
                min[j],
                max[j],
                (d_min[j], d_max[j]),
                &mut out[j],
            ) {
                Ok(()) => {},
                Err(e) => {
                    return Err(e);
                },
            }
            j = j + 1;
        }
        proof {
            assert(out =~= old(self).emits(d_min, d_max));
            assert(self.use_max =~= old(self).after(min, max, out).use_max);
        }
        Ok(out)
    }

    /// Decodes one pixel from the distances `difference` and moves the state on.
    /// `min` and `max` are the extrema of its position. Inverted extrema are
    /// refused and leave the state as it was.
    pub fn decode(&mut self, min: [u8; 3], max: [u8; 3], difference: [u8; 3]) -> (r: Result<
        [u8; 3],
        TransformError,
    >)
        ensures
            r is Err <==> !ordered(min, max),
            r matches Err(e) ==> e == TransformError::InvertedExtrema && *final(self) == *old(self),
            r matches Ok(out) ==> out == old(self).restores(min, max, difference) && *final(self)
                == old(self).after(min, max, difference),
    {
        if max[0] < min[0] || max[1] < min[1] || max[2] < min[2] {
            return Err(TransformError::InvertedExtrema);
        }
        let mut out: [u8; 3] = [0, 0, 0];
        let mut j: usize = 0;
        while j < 3
            invariant
                j <= 3,
                ordered(min, max),
                forall|c: int|
                    0 <= c < j ==> out[c] == restored(
                        old(self).use_max[c],
                        min[c],
                        max[c],
                        difference[c],
                    ),
                forall|c: int|
                    0 <= c < j ==> self.use_max[c] == toggled(
                        old(self).use_max[c],
                        min[c],
                        max[c],
                        difference[c],
                    ),
                forall|c: int| j <= c < 3 ==> self.use_max[c] == old(self).use_max[c],
            decreases 3 - j,
        {
            match process_color_decode(
                &mut self.use_max[j],
                min[j],
                max[j],
                difference[j],
                &mut out[j],
            ) {
                Ok(()) => {},
                Err(e) => {
                    return Err(e);
                },
            }
            j = j + 1;
        }
        proof {
            assert(out =~= old(self).restores(min, max, difference));
            assert(self.use_max =~= old(self).after(min, max, difference).use_max);
        }
        Ok(out)
    }
}

/// The state in which the encoder reaches position `i` of the source pixels
/// `src`: fresh at the start of the image, and carried from pixel to pixel.
pub open spec fn encoder_state(
    min: Seq<[u8; 3]>,
    max: Seq<[u8; 3]>,
    src: Seq<[u8; 3]>,
    i: int,
) -> ToggleState
    decreases i,
{
    if i <= 0 {
        ToggleState::fresh()
    } else {
        let before = encoder_state(min, max, src, i - 1);
        before.after(min[i - 1], max[i - 1], encoded_pixel(before, min[i - 1], max[i - 1], src[i - 1]))
    }
}

/// The pixel the encoder emits in `state` for the source pixel `pixel` at a
/// position with the extrema `lo` and `hi`.
pub open spec fn encoded_pixel(state: ToggleState, lo: [u8; 3], hi: [u8; 3], pixel: [u8; 3]) -> [
    u8;
    3
] {
    state.emits(distances(lo, pixel), distances(hi, pixel))
}

/// The transformed image of the source pixels `src` under the extrema `min` and
/// `max`: position by position the distances to the extrema that the state selects.
pub open spec fn encoded(min: Seq<[u8; 3]>, max: Seq<[u8; 3]>, src: Seq<[u8; 3]>) -> Seq<[u8; 3]> {
    Seq::new(
        src.len(),
        |i: int| encoded_pixel(encoder_state(min, max, src, i), min[i], max[i], src[i]),
    )
}

/// The state in which the decoder reaches position `i` of the transformed
/// pixels `enc`: fresh at the start of the image, and carried from pixel to pixel.
pub open spec fn decoder_state(
    min: Seq<[u8; 3]>,
    max: Seq<[u8; 3]>,
    enc: Seq<[u8; 3]>,
    i: int,
) -> ToggleState
    decreases i,
{
    if i <= 0 {
        ToggleState::fresh()
    } else {
        decoder_state(min, max, enc, i - 1).after(min[i - 1], max[i - 1], enc[i - 1])
    }
}

/// The image that the decoder rebuilds from the transformed pixels `enc` under
/// the extrema `min` and `max`.
pub open spec fn decoded(min: Seq<[u8; 3]>, max: Seq<[u8; 3]>, enc: Seq<[u8; 3]>) -> Seq<[u8; 3]> {
    Seq::new(
        enc.len(),
        |i: int| decoder_state(min, max, enc, i).restores(min[i], max[i], enc[i]),
    )
}

/// Whether at one of the first `count` positions some channel has its maximum
/// below its minimum.
pub open spec fn inverted(min: Seq<[u8; 3]>, max: Seq<[u8; 3]>, count: int) -> bool {
    exists|i: int| 0 <= i < count && !#[trigger] ordered(min[i], max[i])
}

/// Encodes the pixels of one image, from a fresh state and in raster order,
/// against extrema buffers that cover every position of the image.
pub fn encode_pixels(min: &MinMaxImg, max: &MinMaxImg, pixels: &Vec<[u8; 3]>) -> (r: Result<
    Vec<[u8; 3]>,
    TransformError,
>)
    requires
        pixels@.len() <= min@.len(),
        pixels@.len() <= max@.len(),
    ensures
        r is Err <==> inverted(min@, max@, pixels@.len() as int),
        r matches Err(e) ==> e == TransformError::InvertedExtrema,
        r matches Ok(out) ==> out@ == encoded(min@, max@, pixels@),
{
    let mut state = ToggleState::new();
    let mut out: Vec<[u8; 3]> = Vec::new();
    let mut i: usize = 0;
    while i < pixels.len()
        invariant
            i <= pixels@.len(),
            pixels@.len() <= min@.len(),
            pixels@.len() <= max@.len(),
            state == encoder_state(min@, max@, pixels@, i as int),
            out@ == encoded(min@, max@, pixels@).take(i as int),
            !inverted(min@, max@, i as int),
        decreases pixels@.len() - i,
    {
        let pixel = pixels[i];
        let d_min = min.difference(pixel, i);
        let d_max = max.difference(pixel, i);
        match state.encode(min.rgb()[i], max.rgb()[i], d_min, d_max) {
            Ok(new_pixel) => {
                out.push(new_pixel);
            },
            Err(e) => {
                proof {
                    assert(!ordered(min@[i as int], max@[i as int]));
                }
                return Err(e);
            },
        }
        proof {
            assert(ordered(min@[i as int], max@[i as int]));
            assert(out@ =~= encoded(min@, max@, pixels@).take(i + 1));
        }
        i = i + 1;
    }
    proof {
        assert(out@ =~= encoded(min@, max@, pixels@));
    }
    Ok(out)
}

/// Decodes the pixels of one transformed image, from a fresh state and in raster
/// order, against extrema buffers that cover every position of the image.
pub fn decode_pixels(min: &Vec<[u8; 3]>, max: &Vec<[u8; 3]>, pixels: &Vec<[u8; 3]>) -> (r: Result<
    Vec<[u8; 3]>,
    TransformError,
>)
    requires
        pixels@.len() <= min@.len(),
        pixels@.len() <= max@.len(),
    ensures
        r is Err <==> inverted(min@, max@, pixels@.len() as int),
        r matches Err(e) ==> e == TransformError::InvertedExtrema,
        r matches Ok(out) ==> out@ == decoded(min@, max@, pixels@),
{
    let mut state = ToggleState::new();
    let mut out: Vec<[u8; 3]> = Vec::new();
    let mut i: usize = 0;
    while i < pixels.len()
        invariant
            i <= pixels@.len(),
            pixels@.len() <= min@.len(),
            pixels@.len() <= max@.len(),
            state == decoder_state(min@, max@, pixels@, i as int),
            out@ == decoded(min@, max@, pixels@).take(i as int),
            !inverted(min@, max@, i as int),
        decreases pixels@.len() - i,
    {
        match state.decode(min[i], max[i], pixels[i]) {
            Ok(new_pixel) => {
                out.push(new_pixel);
            },
            Err(e) => {
                proof {
                    assert(!ordered(min@[i as int], max@[i as int]));
                }
                return Err(e);
            },
        }
        proof {
            assert(ordered(min@[i as int], max@[i as int]));
            assert(out@ =~= decoded(min@, max@, pixels@).take(i + 1));
        }
        i = i + 1;
    }
    proof {
        assert(out@ =~= decoded(min@, max@, pixels@));
    }
    Ok(out)
}

} // verus!
