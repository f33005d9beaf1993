//! What holds of an audio source and of the shape of its sound.

use crate::source::{
    at_least_one, chunk, chunk_count, frame_count, is_shape_of, jump_target, mixed_from, mixed_in,
    samples_per_frame, shows_window, stop_cmds, track_of_choice, usable_track, windowed,
    AudioSourceView, CachedSoundShape, OutputInfo, PlayerCmd, PlayerState, ScanError,
};
use crate::track::SongView;
use vstd::prelude::*;

verus! {

// ---------------------------------------------------------------------------
// Transport
// ---------------------------------------------------------------------------

/// A source that has not been opened stands at the beginning of its song and
/// has no output.
pub proof fn law_fresh_source(song: SongView, agc_enabled: bool)
    ensures
        ({
            let source = AudioSourceView::fresh(song, agc_enabled);
            &&& source.song == song
            &&& source.elapsed_micros == 0
            &&& source.agc_enabled == agc_enabled
            &&& source.player is None
            &&& source.sample_rate is None
            &&& source.channels is None
        }),
{
}

/// Opening a source changes nothing but what it is to find: the decoder's rate
/// and channels and a running output, or, where that failed, the rate of the
/// shape if there is one.
pub proof fn law_opening_finds(
    source: AudioSourceView,
    shape_rate: Option<u32>,
    output: Option<OutputInfo>,
)
    ensures
        ({
            let after = source.synced(shape_rate, output);
            &&& after.song == source.song
            &&& after.elapsed_micros == source.elapsed_micros
            &&& after.agc_enabled == source.agc_enabled
            &&& output is Some ==> after.sample_rate == Some(output->0.sample_rate)
                && after.channels == Some(output->0.channels) && after.player == Some(
                PlayerState { paused: false, empty: false },
            )
            &&& output is None ==> after.channels == source.channels && after.player
                == source.player
            &&& output is None && shape_rate is Some ==> after.sample_rate == shape_rate
            &&& output is None && shape_rate is None ==> after.sample_rate == source.sample_rate
        }),
{
}

/// A source is playing where its output is not paused, paused where it is, and
/// at its end where the output has nothing left. Without an output it is
/// neither playing nor paused, and at its end.
pub proof fn law_state_is_of_output(source: AudioSourceView)
    ensures
        source.player is None ==> !source.playing() && !source.paused() && source.ended(),
        source.player matches Some(state) ==> source.paused() == state.paused && source.playing()
            == !state.paused && source.ended() == state.empty,
{
}

/// Pausing and resuming set the one thing, and only where there is an output.
pub proof fn law_pausing_is_all(source: AudioSourceView, paused: bool)
    ensures
        source.player is None ==> source.with_paused(paused) == source,
        source.player matches Some(state) ==> source.with_paused(paused) == (AudioSourceView {
            player: Some(PlayerState { paused, empty: state.empty }),
            ..source
        }),
{
}

/// Stopping pauses what is there and goes back to the beginning.
pub proof fn law_stopped_at_beginning(source: AudioSourceView)
    ensures
        ({
            let after = source.stopped();
            &&& after.elapsed_micros == 0
            &&& after.player is Some <==> source.player is Some
            &&& source.player matches Some(state) ==> after.player == Some(
                PlayerState { paused: true, empty: state.empty },
            )
            &&& after == (AudioSourceView {
                elapsed_micros: after.elapsed_micros,
                player: after.player,
                ..source
            })
        }),
{
}

/// What stops an output is a pause and then a jump to the beginning.
pub proof fn law_stopping_commands(cmds: Seq<PlayerCmd>, attached: bool)
    ensures
        stop_cmds(cmds, attached) && attached ==> cmds.len() == 2 && cmds[0] == PlayerCmd::Pause && (
        cmds[1] matches PlayerCmd::Seek(position) && position.nanos() == 0),
        stop_cmds(cmds, attached) && !attached ==> cmds.len() == 0,
{
}

/// A jump goes as far as it is told: forward to the sum, unless that is longer
/// than `u64::MAX` seconds and a fraction, and back to the difference, unless
/// that is before the beginning.
pub proof fn law_jump_goes_as_far(elapsed: u64, offset: nat)
    ensures
        elapsed * 1000 + offset <= 18446744073709551615999999999 ==> jump_target(
            elapsed,
            offset,
            true,
        ) - elapsed * 1000 == offset,
        elapsed * 1000 + offset > 18446744073709551615999999999 ==> jump_target(
            elapsed,
            offset,
            true,
        ) == 18446744073709551615999999999,
        offset <= elapsed * 1000 ==> jump_target(elapsed, offset, false) + offset == elapsed
            * 1000,
        offset > elapsed * 1000 ==> jump_target(elapsed, offset, false) == 0,
{
}

// ---------------------------------------------------------------------------
// Shape
// ---------------------------------------------------------------------------

/// The sample is mixed from the samples of the frame `i`: `width` of them, or
/// those that are left.
pub open spec fn mixes_frame<T, F: Fn(&[T]) -> T>(
    mix: F,
    interleaved: Seq<T>,
    width: int,
    i: int,
    sample: T,
) -> bool {
    exists|slice: &[T]|
        {
            &&& #[trigger] mix.ensures((slice,), sample)
            &&& slice@.len() == if (i + 1) * width <= interleaved.len() {
                width
            } else {
                interleaved.len() - i * width
            }
            &&& forall|k: int|
                0 <= k < slice@.len() ==> #[trigger] slice@[k] == interleaved[i * width + k]
        }
}

/// Each sample of the mix comes of the next samples of the sound, one for each
/// channel, or of those that are left; together they are all samples.
pub proof fn law_mix_takes_every_sample<T, F: Fn(&[T]) -> T>(
    before: Seq<T>,
    interleaved: Seq<T>,
    channels: usize,
    mix: F,
    after: Seq<T>,
)
    requires
        mixed_in(before, interleaved, channels, mix, after),
    ensures
        ({
            let width = if channels == 0 {
                1int
            } else {
                channels as int
            };
            let frames = after.len() - before.len();
            &&& frames >= 0
            &&& frames * width >= interleaved.len()
            &&& frames > 0 ==> (frames - 1) * width < interleaved.len()
            &&& forall|j: int| 0 <= j < before.len() ==> #[trigger] after[j] == before[j]
            &&& forall|j: int|
                before.len() <= j < after.len() ==> mixes_frame(
                    mix,
                    interleaved,
                    width,
                    j - before.len(),
                    #[trigger] after[j],
                )
        }),
{
    let w = at_least_one(channels);
    let width = w as int;
    let len = interleaved.len();
    let frames = after.len() - before.len();
    assert(frames == chunk_count(len, w));
    assert(frames * width >= len && (frames > 0 ==> (frames - 1) * width < len))
        by (nonlinear_arith)
        requires
            width >= 1,
            width == w,
            frames == (len + w - 1) as nat / w,
    ;
    assert forall|j: int| 0 <= j < before.len() implies #[trigger] after[j] == before[j] by {
        assert(after.take(before.len() as int)[j] == before[j]);
    }
    assert forall|j: int| before.len() <= j < after.len() implies mixes_frame(
        mix,
        interleaved,
        width,
        j - before.len(),
        #[trigger] after[j],
    ) by {
        let i = j - before.len();
        assert(mixed_from(mix, chunk(interleaved, w, j - before.len()), after[j]));
        let slice = choose|slice: &[T]|
            slice@ == chunk(interleaved, w, i) && #[trigger] mix.ensures((slice,), after[j]);
        assert(0 <= i * width <= len && (i + 1) * width == i * width + width) by (nonlinear_arith)
            requires
                0 <= i < frames,
                width >= 1,
                (frames - 1) * width < len,
        ;
        assert(slice@.len() == if (i + 1) * width <= interleaved.len() {
            width
        } else {
            interleaved.len() - i * width
        });
        assert(forall|k: int|
            0 <= k < slice@.len() ==> #[trigger] slice@[k] == interleaved[i * width + k]);
    }
}

/// There is a frame for every whole sixtieth of a second of the sound; below
/// sixty samples a second, for every sample.
pub proof fn law_frames_are_counted(sample_rate: u32, len: nat)
    ensures
        sample_rate < 60 ==> frame_count(sample_rate, len) == len,
        sample_rate >= 60 ==> {
            let step = (sample_rate / 60) as int;
            &&& frame_count(sample_rate, len) * step <= len
            &&& len < (frame_count(sample_rate, len) + 1) * step
        },
{
    let step = (sample_rate / 60) as int;
    if sample_rate >= 60 {
        let count = frame_count(sample_rate, len) as int;
        assert(step >= 1);
        assert(count * step <= len && len < (count + 1) * step) by (nonlinear_arith)
            requires
                step >= 1,
                count == len as int / step,
        ;
    }
}

/// A frame begins where its sixtieth of a second does and has 1024 points: the
/// samples from there on, and silence after the last. Its first 32 points are
/// blended with its last 32, one with one, so that the outline closes.
pub proof fn law_frames_show_samples<T: Copy, F: Fn(usize, T, T) -> T>(
    shape: CachedSoundShape<T>,
    sample_rate: u32,
    samples: Seq<T>,
    zero: T,
    blend: F,
    f: int,
)
    requires
        is_shape_of(shape, sample_rate, samples, zero, blend),
        0 <= f < shape.frames@.len(),
    ensures
        shape.sample_rate == sample_rate,
        shape.total_frames == shape.frames@.len(),
        shape.frames@.len() == frame_count(sample_rate, samples.len()),
        ({
            let points = shape.frames@[f].displacements@;
            let start = f * (sample_rate / 60);
            let sample = |i: int|
                if start + i < samples.len() {
                    samples[start + i]
                } else {
                    zero
                };
            &&& points.len() == 1024
            &&& forall|i: int| 32 <= i < 1024 ==> #[trigger] points[i] == sample(i)
            &&& forall|i: int|
                0 <= i < 32 ==> blend.ensures(
                    (i as usize, sample(i), sample(992 + i)),
                    #[trigger] points[i],
                )
        }),
{
    let points = shape.frames@[f].displacements@;
    let start = f * samples_per_frame(sample_rate);
    assert(shows_window(points, samples, zero, blend, start));
    assert forall|i: int| 32 <= i < 1024 implies #[trigger] points[i] == (if start + i
        < samples.len() {
        samples[start + i]
    } else {
        zero
    }) by {
        assert(points[i] == windowed(samples, zero, start, i));
    }
    assert forall|i: int| 0 <= i < 32 implies blend.ensures(
        (
            i as usize,
            if start + i < samples.len() {
                samples[start + i]
            } else {
                zero
            },
            if start + (992 + i) < samples.len() {
                samples[start + (992 + i)]
            } else {
                zero
            },
        ),
        #[trigger] points[i],
    ) by {
        assert(blend.ensures(
            (
                i as usize,
                windowed(samples, zero, start, i),
                windowed(samples, zero, start, 1024 - 32 + i),
            ),
            points[i],
        ));
    }
}

/// The default track is chosen before the first of a known codec, and that
/// before the first of any; there is none only where there is none of the
/// three.
pub proof fn law_track_is_chosen<E>(
    default_track: Option<u32>,
    known_track: Option<u32>,
    first_track: Option<u32>,
    has_params: bool,
)
    ensures
        ({
            let chosen = usable_track::<E>(default_track, known_track, first_track, has_params);
            let none = default_track is None && known_track is None && first_track is None;
            &&& chosen == Err::<u32, ScanError<E>>(ScanError::<E>::NoTrack) <==> none
            &&& chosen == Err::<u32, ScanError<E>>(ScanError::<E>::NoCodecParams) <==> !none && !has_params
            &&& !none && has_params && default_track is Some ==> chosen == Ok::<u32, ScanError<E>>(
                default_track->0,
            )
            &&& !none && has_params && default_track is None && known_track is Some ==> chosen
                == Ok::<u32, ScanError<E>>(known_track->0)
            &&& !none && has_params && default_track is None && known_track is None ==> chosen
                == Ok::<u32, ScanError<E>>(first_track->0)
        }),
        track_of_choice(default_track, known_track, first_track) == match default_track {
            Some(id) => Some(id),
            None => match known_track {
                Some(id) => Some(id),
                None => first_track,
            },
        },
{
}

} // verus!
