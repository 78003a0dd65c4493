use crate::error::TransformError;
use vstd::prelude::*;

verus! {

/// The threshold of one channel at one position: half the width of the interval
/// between the two extrema, rounded down.
pub open spec fn middle(lo: u8, hi: u8) -> int {
    (hi - lo) / 2
}

/// The absolute difference of two bytes.
pub open spec fn distance(a: u8, b: u8) -> int {
    if a >= b {
        a - b
    } else {
        b - a
    }
}

/// The value the encoder emits: the distance to the extremum that the toggle selects.
pub open spec fn emitted(use_max: bool, d_min: u8, d_max: u8) -> u8 {
    if use_max {
        d_max
    } else {
        d_min
    }
}

/// The toggle after a value `d` was emitted or read: it flips exactly when `d`
/// lies above the threshold, and the flip takes effect from the next pixel on.
pub open spec fn toggled(use_max: bool, lo: u8, hi: u8, d: u8) -> bool {
    if d > middle(lo, hi) {
        !use_max
    } else {
        use_max
    }
}

/// The value the decoder rebuilds from a distance `d`: `hi - d` held at 0 when the
/// toggle selects the maximum, `lo + d` held at 255 when it selects the minimum.
pub open spec fn restored(use_max: bool, lo: u8, hi: u8, d: u8) -> u8 {
    if use_max {
        if d > hi {
            0u8
        } else {
            (hi - d) as u8
        }
    } else {
        if lo + d > 255 {
            255u8
        } else {
            (lo + d) as u8
        }
    }
}

/// The absolute difference of two bytes.
pub fn abs_diff(a: u8, b: u8) -> (d: u8)
    ensures
        d == distance(a, b),
{
    if a >= b {
        a - b
    } else {
        b - a
    }
}

/// Encodes one channel of one pixel. `color` holds the distances of the source
/// value to the minimum and to the maximum, in that order. The distance to the
/// selected extremum is written to `pxl`, and the toggle flips for the next pixel
/// when that distance lies above the threshold. Inverted extrema are refused and
/// leave both untouched.
pub fn process_color_encode(
    use_max: &mut bool,
    min: u8,
    max: u8,
    color: (u8, u8),
    pxl: &mut u8,
) -> (r: Result<(), TransformError>)
    ensures
        r is Err <==> max < min,
        r matches Err(e) ==> e == TransformError::InvertedExtrema && *final(use_max) == *old(
            use_max,
        ) && *final(pxl) == *old(pxl),
        r is Ok ==> *final(pxl) == emitted(*old(use_max), color.0, color.1)
            && *final(use_max) == toggled(*old(use_max), min, max, *final(pxl)),
{
    if max < min {
        return Err(TransformError::InvertedExtrema);
    }
    let middle: u8 = (max - min) / 2;
    if *use_max {
        *pxl = color.1;
        if color.1 > middle {
            *use_max = false;
        }
    } else {
        *pxl = color.0;
        if color.0 > middle {
            *use_max = true;
        }
    }
    Ok(())
}

/// Decodes one channel of one pixel from the distance `difference`. The rebuilt
/// value is written to `pxl`, held at 0 or 255 where the distance leads out of
/// the byte range, and the toggle flips for the next pixel when the distance lies
/// above the threshold. Inverted extrema are refused and leave both untouched.
pub fn process_color_decode(
    use_max: &mut bool,
    min: u8,
    max: u8,
    difference: u8,
    pxl: &mut u8,
) -> (r: Result<(), TransformError>)
    ensures
        r is Err <==> max < min,
        r matches Err(e) ==> e == TransformError::InvertedExtrema && *final(use_max) == *old(
            use_max,
        ) && *final(pxl) == *old(pxl),
        r is Ok ==> *final(pxl) == restored(*old(use_max), min, max, difference)
            && *final(use_max) == toggled(*old(use_max), min, max, difference),
{
    if max < min {
        return Err(TransformError::InvertedExtrema);
    }
    let middle: u8 = (max - min) / 2;
    let new: u8 = if *use_max {
        match max.checked_sub(difference) {
            Some(res) => res,
            None => 0,
        }
    } else {
        match min.checked_add(difference) {
            Some(res) => res,
            None => 255,
        }
    };
    *pxl = new;
    if difference > middle {
        *use_max = !*use_max;
    }
    Ok(())
}

} // verus!
