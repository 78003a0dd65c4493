use crate::batch::{batch_max, batch_min};
use crate::channel::{distance, emitted, middle, restored, toggled};
use crate::extrema::{lowered, raised};
use crate::transform::{
    between, decoded, decoder_state, encoded, encoded_pixel, encoder_state, ToggleState,
};
use vstd::prelude::*;

verus! {

/// Whether every pixel of `src` lies between the extrema of its position.
pub open spec fn bounded(min: Seq<[u8; 3]>, max: Seq<[u8; 3]>, src: Seq<[u8; 3]>) -> bool {
    forall|i: int| 0 <= i < src.len() ==> between(min[i], max[i], #[trigger] src[i])
}

/// A value between its extrema comes back from the distance that was emitted
/// for it, whichever extremum the toggle selects.
pub proof fn channel_round_trip(use_max: bool, lo: u8, hi: u8, value: u8)
    requires
        lo <= value <= hi,
    ensures
        restored(
            use_max,
            lo,
            hi,
            emitted(use_max, distance(lo, value) as u8, distance(hi, value) as u8),
        ) == value,
{
}

/// In the state that selects the maximum, a distance above the maximum is
/// rebuilt as 0.
pub proof fn saturates_at_zero(lo: u8, hi: u8, difference: u8)
    requires
        difference > hi,
    ensures
        restored(true, lo, hi, difference) == 0,
{
}

/// In the state that selects the minimum, a distance that leads above 255 is
/// rebuilt as 255.
pub proof fn saturates_at_full(lo: u8, hi: u8, difference: u8)
    requires
        lo + difference > 255,
    ensures
        restored(false, lo, hi, difference) == 255,
{
}

/// Where the two extrema coincide the threshold is 0, a value between them is
/// emitted as 0 from the state that selects the minimum, and that state stays.
pub proof fn coinciding_extrema_keep_min(bound: u8, value: u8)
    requires
        bound <= value <= bound,
    ensures
        middle(bound, bound) == 0,
        emitted(false, distance(bound, value) as u8, distance(bound, value) as u8) == 0,
        !toggled(false, bound, bound, 0),
{
}

/// A pixel between its extrema comes back from the pixel that was emitted for
/// it, and encoder and decoder move on to the same state.
pub proof fn pixel_round_trip(state: ToggleState, lo: [u8; 3], hi: [u8; 3], pixel: [u8; 3])
    requires
        between(lo, hi, pixel),
    ensures
        state.restores(lo, hi, encoded_pixel(state, lo, hi, pixel)) == pixel,
{
    let sent = encoded_pixel(state, lo, hi, pixel);
    let back = state.restores(lo, hi, sent);
    assert forall|c: int| 0 <= c < 3 implies back[c] == pixel[c] by {
        assert(lo[c] <= pixel[c] <= hi[c]);
        channel_round_trip(state.use_max[c], lo[c], hi[c], pixel[c]);
    }
    assert(back =~= pixel);
}

/// The decoder reaches every position of a transformed image in the state in
/// which the encoder reached it.
pub proof fn states_in_lockstep(min: Seq<[u8; 3]>, max: Seq<[u8; 3]>, src: Seq<[u8; 3]>, i: int)
    requires
        0 <= i <= src.len(),
    ensures
        decoder_state(min, max, encoded(min, max, src), i) == encoder_state(min, max, src, i),
    decreases i,
{
    if i > 0 {
        states_in_lockstep(min, max, src, i - 1);
    }
}

/// Round trip: decoding the encoding of an image whose pixels all lie between
/// the extrema gives the image back exactly.
pub proof fn round_trip(min: Seq<[u8; 3]>, max: Seq<[u8; 3]>, src: Seq<[u8; 3]>)
    requires
        src.len() <= min.len(),
        src.len() <= max.len(),
        bounded(min, max, src),
    ensures
        decoded(min, max, encoded(min, max, src)) == src,
{
    let enc = encoded(min, max, src);
    let dec = decoded(min, max, enc);
    assert forall|i: int| 0 <= i < src.len() implies dec[i] == src[i] by {
        states_in_lockstep(min, max, src, i);
        assert(between(min[i], max[i], src[i]));
        pixel_round_trip(encoder_state(min, max, src, i), min[i], max[i], src[i]);
    }
    assert(dec =~= src);
}

/// Toggle determinism: two runs of the encoder over the same pixel stream and
/// the same extrema emit the same pixels.
pub proof fn replay_is_deterministic(
    min: Seq<[u8; 3]>,
    max: Seq<[u8; 3]>,
    src: Seq<[u8; 3]>,
    first: Seq<[u8; 3]>,
    second: Seq<[u8; 3]>,
)
    requires
        first == encoded(min, max, src),
        second == encoded(min, max, src),
    ensures
        first == second,
{
}

/// What the encoder has emitted up to a position depends on the pixels up to
/// that position alone: two streams that share their first `count` pixels share
/// the states up to there and the first `count` emitted pixels.
pub proof fn encoding_follows_the_stream(
    min: Seq<[u8; 3]>,
    max: Seq<[u8; 3]>,
    one: Seq<[u8; 3]>,
    other: Seq<[u8; 3]>,
    count: int,
)
    requires
        0 <= count <= one.len(),
        count <= other.len(),
        one.take(count) == other.take(count),
    ensures
        encoder_state(min, max, one, count) == encoder_state(min, max, other, count),
        encoded(min, max, one).take(count) == encoded(min, max, other).take(count),
    decreases count,
{
    if count > 0 {
        assert(one.take(count - 1) =~= one.take(count).take(count - 1));
        assert(other.take(count - 1) =~= other.take(count).take(count - 1));
        encoding_follows_the_stream(min, max, one, other, count - 1);
        assert(one[count - 1] == one.take(count)[count - 1]);
        assert(other[count - 1] == other.take(count)[count - 1]);
        let a = encoded(min, max, one).take(count);
        let b = encoded(min, max, other).take(count);
        assert forall|i: int| 0 <= i < count implies a[i] == b[i] by {
            if i < count - 1 {
                assert(a[i] == encoded(min, max, one).take(count - 1)[i]);
                assert(b[i] == encoded(min, max, other).take(count - 1)[i]);
            }
        }
        assert(a =~= b);
    } else {
        assert(encoded(min, max, one).take(count) =~= encoded(min, max, other).take(count));
    }
}

/// Continuity within an image: the state starts fresh, and at every position the
/// encoder hands the state on to the next pixel as the emitted pixel leaves it.
pub proof fn encoder_carries_state(min: Seq<[u8; 3]>, max: Seq<[u8; 3]>, src: Seq<[u8; 3]>, i: int)
    requires
        0 <= i < src.len(),
    ensures
        encoder_state(min, max, src, 0) == ToggleState::fresh(),
        encoder_state(min, max, src, i + 1) == encoder_state(min, max, src, i).after(
            min[i],
            max[i],
            encoded(min, max, src)[i],
        ),
{
}

/// Continuity within an image: the state starts fresh, and at every position the
/// decoder hands the state on to the next pixel as the pixel it read leaves it.
pub proof fn decoder_carries_state(min: Seq<[u8; 3]>, max: Seq<[u8; 3]>, enc: Seq<[u8; 3]>, i: int)
    requires
        0 <= i < enc.len(),
    ensures
        decoder_state(min, max, enc, 0) == ToggleState::fresh(),
        decoder_state(min, max, enc, i + 1) == decoder_state(min, max, enc, i).after(
            min[i],
            max[i],
            enc[i],
        ),
{
}

/// A channel whose extrema coincide at every position up to `i`, under pixels
/// that lie between them, still refers to the minimum at position `i`.
pub proof fn flat_channel_stays_on_min(
    min: Seq<[u8; 3]>,
    max: Seq<[u8; 3]>,
    src: Seq<[u8; 3]>,
    c: int,
    i: int,
)
    requires
        0 <= c < 3,
        0 <= i <= src.len(),
        forall|j: int|
            0 <= j < i ==> (#[trigger] min[j])[c] == max[j][c] && min[j][c] == src[j][c],
    ensures
        !encoder_state(min, max, src, i).use_max[c],
        forall|j: int| 0 <= j < i ==> (#[trigger] encoded(min, max, src)[j])[c] == 0,
    decreases i,
{
    if i > 0 {
        flat_channel_stays_on_min(min, max, src, c, i - 1);
        let j = i - 1;
        assert(min[j][c] == max[j][c] && min[j][c] == src[j][c]);
        coinciding_extrema_keep_min(min[j][c], src[j][c]);
    }
}

/// Extrema correctness: after any number of images of a batch were taken in,
/// every pixel of every one of them lies between the two buffers at its position.
pub proof fn extrema_enclose_batch(batch: Seq<Seq<[u8; 3]>>, len: nat, count: int, k: int, i: int)
    requires
        0 <= k < count <= batch.len(),
        0 <= i < batch[k].len(),
        i < len,
    ensures
        between(batch_min(batch, len, count)[i], batch_max(batch, len, count)[i], batch[k][i]),
    decreases count,
{
    if k < count - 1 {
        extrema_enclose_batch(batch, len, count - 1, k, i);
        batch_len(batch, len, count - 1);
    } else {
        batch_len(batch, len, count - 1);
    }
}

/// Both buffers keep the length they were made with.
pub proof fn batch_len(batch: Seq<Seq<[u8; 3]>>, len: nat, count: int)
    ensures
        batch_min(batch, len, count).len() == len,
        batch_max(batch, len, count).len() == len,
    decreases count,
{
    if count > 0 {
        batch_len(batch, len, count - 1);
    }
}

/// The extrema hold only values that were seen: a channel of the minimum buffer
/// is 255, and one of the maximum buffer 0, unless some image of the batch has
/// that very value at that position.
pub proof fn extrema_are_attained(batch: Seq<Seq<[u8; 3]>>, len: nat, count: int, i: int, c: int)
    requires
        0 <= count <= batch.len(),
        0 <= i < len,
        0 <= c < 3,
    ensures
        batch_min(batch, len, count)[i][c] == 255 || exists|k: int|
            0 <= k < count && i < (#[trigger] batch[k]).len() && batch[k][i][c] == batch_min(
                batch,
                len,
                count,
            )[i][c],
        batch_max(batch, len, count)[i][c] == 0 || exists|k: int|
            0 <= k < count && i < (#[trigger] batch[k]).len() && batch[k][i][c] == batch_max(
                batch,
                len,
                count,
            )[i][c],
    decreases count,
{
    if count > 0 {
        extrema_are_attained(batch, len, count - 1, i, c);
        batch_len(batch, len, count - 1);
        let last = batch[count - 1];
        let lo = batch_min(batch, len, count)[i][c];
        let lo_before = batch_min(batch, len, count - 1)[i][c];
        let hi = batch_max(batch, len, count)[i][c];
        let hi_before = batch_max(batch, len, count - 1)[i][c];
        if lo != 255 {
            if lo == lo_before {
                let k = choose|k: int|
                    0 <= k < count - 1 && i < (#[trigger] batch[k]).len() && batch[k][i][c]
                        == lo_before;
                assert(0 <= k < count && i < batch[k].len() && batch[k][i][c] == lo);
            } else {
                assert(i < last.len() && last[i][c] == lo);
            }
        }
        if hi != 0 {
            if hi == hi_before {
                let k = choose|k: int|
                    0 <= k < count - 1 && i < (#[trigger] batch[k]).len() && batch[k][i][c]
                        == hi_before;
                assert(0 <= k < count && i < batch[k].len() && batch[k][i][c] == hi);
            } else {
                assert(i < last.len() && last[i][c] == hi);
            }
        }
    }
}

/// Every image of a batch comes back exactly from its encoding under the
/// extrema that were accumulated over that batch.
pub proof fn batch_round_trip(batch: Seq<Seq<[u8; 3]>>, len: nat, k: int)
    requires
        0 <= k < batch.len(),
        batch[k].len() <= len,
    ensures
        ({
            let min = batch_min(batch, len, batch.len() as int);
            let max = batch_max(batch, len, batch.len() as int);
            decoded(min, max, encoded(min, max, batch[k])) == batch[k]
        }),
{
    let min = batch_min(batch, len, batch.len() as int);
    let max = batch_max(batch, len, batch.len() as int);
    batch_len(batch, len, batch.len() as int);
    assert forall|i: int| 0 <= i < batch[k].len() implies between(
        min[i],
        max[i],
        #[trigger] batch[k][i],
    ) by {
        extrema_enclose_batch(batch, len, batch.len() as int, k, i);
    }
    round_trip(min, max, batch[k]);
}

/// The order in which two images are taken in does not matter to either buffer.
pub proof fn accumulation_commutes(buffer: Seq<[u8; 3]>, one: Seq<[u8; 3]>, other: Seq<[u8; 3]>)
    ensures
        lowered(lowered(buffer, one), other) == lowered(lowered(buffer, other), one),
        raised(raised(buffer, one), other) == raised(raised(buffer, other), one),
{
    let a = lowered(lowered(buffer, one), other);
    let b = lowered(lowered(buffer, other), one);
    assert forall|i: int| 0 <= i < buffer.len() implies a[i] == b[i] by {
        assert(a[i] =~= b[i]);
    }
    assert(a =~= b);
    let c = raised(raised(buffer, one), other);
    let d = raised(raised(buffer, other), one);
    assert forall|i: int| 0 <= i < buffer.len() implies c[i] == d[i] by {
        assert(c[i] =~= d[i]);
    }
    assert(c =~= d);
}

/// Taking the same image in a second time changes neither buffer.
pub proof fn accumulation_is_idempotent(buffer: Seq<[u8; 3]>, pixels: Seq<[u8; 3]>)
    ensures
        lowered(lowered(buffer, pixels), pixels) == lowered(buffer, pixels),
        raised(raised(buffer, pixels), pixels) == raised(buffer, pixels),
{
    let a = lowered(lowered(buffer, pixels), pixels);
    let b = lowered(buffer, pixels);
    assert forall|i: int| 0 <= i < buffer.len() implies a[i] == b[i] by {
        assert(a[i] =~= b[i]);
    }
    assert(a =~= b);
    let c = raised(raised(buffer, pixels), pixels);
    let d = raised(buffer, pixels);
    assert forall|i: int| 0 <= i < buffer.len() implies c[i] == d[i] by {
        assert(c[i] =~= d[i]);
    }
    assert(c =~= d);
}

} // verus!
