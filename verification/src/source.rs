//! An audio source: the transport of one song, and the shape of its sound.

use crate::time::Duration;
use crate::track::{Song, SongView};
use vstd::prelude::*;
use vstd::slice::slice_subrange;

verus! {

/// Points on the outline of one visual frame.
pub const POINTS_PER_FRAME: usize = 1024;

/// Frames that trail behind the current one.
pub const NUM_TRAIL_FRAMES: usize = 5;

/// Visual frames for one second of sound.
pub const TARGET_FPS: u32 = 60;

/// Points at the seam of the outline that are blended into its end.
pub const BLEND_LEN: usize = 32;

// ---------------------------------------------------------------------------
// Transport
// ---------------------------------------------------------------------------

/// What is known of the output that plays a source.
#[derive(Clone, Copy, Debug, PartialEq, Eq, Structural)]
pub struct PlayerState {
    pub paused: bool,
    /// Nothing is left to play.
    pub empty: bool,
}

/// What the decoder of a source says of it.
#[derive(Clone, Copy, Debug, PartialEq, Eq, Structural)]
pub struct OutputInfo {
    pub sample_rate: u32,
    pub channels: u16,
}

/// What is to be done to the output.
#[derive(Clone, Copy, Debug, PartialEq, Eq, Structural)]
pub enum PlayerCmd {
    Play,
    Pause,
    Seek(Duration),
    /// Let go of the output.
    Detach,
}

/// The source of one song. Its output, once there is one, is described by
/// `player`; whoever runs it keeps that and `elapsed_micros` up to date.
pub struct AudioSource {
    pub song: Song,
    pub elapsed_micros: u64,
    pub agc_enabled: bool,
    pub player: Option<PlayerState>,
    pub sample_rate: Option<u32>,
    pub channels: Option<u16>,
}

#[verifier::ext_equal]
pub struct AudioSourceView {
    pub song: SongView,
    pub elapsed_micros: u64,
    pub agc_enabled: bool,
    pub player: Option<PlayerState>,
    pub sample_rate: Option<u32>,
    pub channels: Option<u16>,
}

impl View for AudioSource {
    type V = AudioSourceView;

    open spec fn view(&self) -> AudioSourceView {
        AudioSourceView {
            song: self.song@,
            elapsed_micros: self.elapsed_micros,
            agc_enabled: self.agc_enabled,
            player: self.player,
            sample_rate: self.sample_rate,
            channels: self.channels,
        }
    }
}

impl AudioSourceView {
    /// A source that has not been opened.
    pub open spec fn fresh(song: SongView, agc_enabled: bool) -> AudioSourceView {
        AudioSourceView {
            song,
            elapsed_micros: 0,
            agc_enabled,
            player: None,
            sample_rate: None,
            channels: None,
        }
    }

    /// The source after an attempt to open it. The scan of its shape may have
    /// found a sample rate; the decoder's overrides it.
    pub open spec fn synced(
        self,
        shape_rate: Option<u32>,
        output: Option<OutputInfo>,
    ) -> AudioSourceView {
        match output {
            Some(info) => AudioSourceView {
                sample_rate: Some(info.sample_rate),
                channels: Some(info.channels),
                player: Some(PlayerState { paused: false, empty: false }),
                ..self
            },
            None => AudioSourceView {
                sample_rate: if shape_rate is Some {
                    shape_rate
                } else {
                    self.sample_rate
                },
                ..self
            },
        }
    }

    pub open spec fn with_paused(self, paused: bool) -> AudioSourceView {
        match self.player {
            Some(player) => AudioSourceView {
                player: Some(PlayerState { paused, ..player }),
                ..self
            },
            None => self,
        }
    }

    pub open spec fn paused(self) -> bool {
        self.player is Some && self.player->0.paused
    }

    pub open spec fn playing(self) -> bool {
        self.player is Some && !self.player->0.paused
    }

    pub open spec fn ended(self) -> bool {
        self.player is Some ==> self.player->0.empty
    }

    /// Paused, at the beginning.
    pub open spec fn stopped(self) -> AudioSourceView {
        AudioSourceView { elapsed_micros: 0, ..self.with_paused(true) }
    }
}

/// Where a jump by `offset` from `elapsed` microseconds leads, in nanoseconds:
/// not before the beginning, and not past the longest span.
pub open spec fn jump_target(elapsed: u64, offset: nat, forward: bool) -> nat {
    let current = elapsed as nat * 1000;
    if forward {
        if current + offset <= crate::time::MAX_NANOS {
            current + offset
        } else {
            crate::time::MAX_NANOS as nat
        }
    } else if current >= offset {
        (current - offset) as nat
    } else {
        0
    }
}

/// The commands that stop an output: none where there is no output.
pub open spec fn stop_cmds(cmds: Seq<PlayerCmd>, attached: bool) -> bool {
    if attached {
        &&& cmds.len() == 2
        &&& cmds[0] == PlayerCmd::Pause
        &&& cmds[1] matches PlayerCmd::Seek(position) && position.nanos() == 0
    } else {
        cmds.len() == 0
    }
}

impl AudioSource {
    pub fn new(song: Song, agc_enabled: bool) -> (source: AudioSource)
        ensures
            source@ == AudioSourceView::fresh(song@, agc_enabled),
    {
        AudioSource {
            song,
            elapsed_micros: 0,
            agc_enabled,
            player: None,
            sample_rate: None,
            channels: None,
        }
    }

    /// Takes in what came of opening the source: the sample rate that the scan
    /// of its shape found, and what the decoder said once an output was open.
    /// Whether the source can be played.
    pub fn sync(&mut self, shape_rate: Option<u32>, output: Option<OutputInfo>) -> (ready: bool)
        ensures
            final(self)@ == old(self)@.synced(shape_rate, output),
            ready == (output is Some),
    {
        if let Some(rate) = shape_rate {
            self.sample_rate = Some(rate);
        }
        match output {
            Some(info) => {
                self.sample_rate = Some(info.sample_rate);
                self.channels = Some(info.channels);
                self.player = Some(PlayerState { paused: false, empty: false });
                true
            },
            None => false,
        }
    }

    pub fn elapsed(&self) -> (elapsed: Duration)
        ensures
            elapsed.nanos() == self.elapsed_micros * 1000,
    {
        Duration::from_micros(self.elapsed_micros)
    }

    /// Resumes the output, where there is one.
    pub fn play(&mut self) -> (cmd: Option<PlayerCmd>)
        ensures
            final(self)@ == old(self)@.with_paused(false),
            cmd == if old(self).player is Some {
                Some(PlayerCmd::Play)
            } else {
                None
            },
    {
        match self.player {
            Some(player) => {
                self.player = Some(PlayerState { paused: false, empty: player.empty });
                Some(PlayerCmd::Play)
            },
            None => None,
        }
    }

    /// Pauses the output, where there is one.
    pub fn pause(&mut self) -> (cmd: Option<PlayerCmd>)
        ensures
            final(self)@ == old(self)@.with_paused(true),
            cmd == if old(self).player is Some {
                Some(PlayerCmd::Pause)
            } else {
                None
            },
    {
        match self.player {
            Some(player) => {
                self.player = Some(PlayerState { paused: true, empty: player.empty });
                Some(PlayerCmd::Pause)
            },
            None => None,
        }
    }

    /// Resumes what is paused, and pauses what is not.
    pub fn toggle_play_pause(&mut self) -> (cmd: Option<PlayerCmd>)
        ensures
            final(self)@ == old(self)@.with_paused(!old(self)@.paused()),
            cmd == if old(self).player is None {
                None
            } else if old(self)@.paused() {
                Some(PlayerCmd::Play)
            } else {
                Some(PlayerCmd::Pause)
            },
    {
        match self.player {
            Some(player) => {
                if player.paused {
                    self.play()
                } else {
                    self.pause()
                }
            },
            None => None,
        }
    }

    /// Pauses the output and takes it back to the beginning.
    pub fn stop(&mut self) -> (cmds: Vec<PlayerCmd>)
        ensures
            final(self)@ == old(self)@.stopped(),
            stop_cmds(cmds@, old(self).player is Some),
    {
        let mut cmds: Vec<PlayerCmd> = Vec::new();
        if let Some(cmd) = self.pause() {
            cmds.push(cmd);
            cmds.push(PlayerCmd::Seek(Duration::from_secs(0)));
        }
        self.elapsed_micros = 0;
        cmds
    }

    pub fn is_playing(&self) -> (playing: bool)
        ensures
            playing == self@.playing(),
    {
        match self.player {
            Some(player) => !player.paused,
            None => false,
        }
    }

    pub fn is_paused(&self) -> (paused: bool)
        ensures
            paused == self@.paused(),
    {
        match self.player {
            Some(player) => player.paused,
            None => false,
        }
    }

    /// Whether nothing is left to play; so it is where there is no output.
    pub fn has_ended(&self) -> (ended: bool)
        ensures
            ended == self@.ended(),
    {
        match self.player {
            Some(player) => player.empty,
            None => true,
        }
    }

    /// The jump to `position` that the output is to attempt, where there is
    /// one. [`AudioSource::finish_seek`] takes in what came of it.
    pub fn seek(&self, position: Duration) -> (cmd: Option<PlayerCmd>)
        ensures
            cmd == if self.player is Some {
                Some(PlayerCmd::Seek(position))
            } else {
                None
            },
    {
        match self.player {
            Some(_) => Some(PlayerCmd::Seek(position)),
            None => None,
        }
    }

    /// Takes in what came of a jump to `position`. A jump that failed leaves
    /// the source where it was; without an output there is nothing to fail.
    pub fn finish_seek<E>(&mut self, position: Duration, attempt: Result<(), E>) -> (outcome: Result<
        (),
        E,
    >)
        ensures
            old(self).player is None ==> outcome is Ok && final(self)@ == old(self)@,
            old(self).player is Some && attempt is Err ==> outcome == attempt && final(self)@
                == old(self)@,
            old(self).player is Some && attempt is Ok ==> outcome is Ok && final(self)@ == (
            AudioSourceView {
                elapsed_micros: ((position.nanos() / 1000) % 0x1_0000_0000_0000_0000) as u64,
                ..old(self)@
            }),
    {
        if self.player.is_none() {
            return Ok(());
        }
        match attempt {
            Ok(_) => {
                self.elapsed_micros = position.micros();
                Ok(())
            },
            Err(error) => Err(error),
        }
    }

    /// The jump by `offset`, forward or back, that the output is to attempt.
    pub fn seek_relative(&self, offset: Duration, forward: bool) -> (cmd: Option<PlayerCmd>)
        ensures
            self.player is None <==> cmd is None,
            cmd matches Some(c) ==> (c matches PlayerCmd::Seek(target) && target.nanos()
                == jump_target(self.elapsed_micros, offset.nanos(), forward)),
    {
        let current = self.elapsed();
        let target = if forward {
            current.saturating_add(offset)
        } else {
            current.saturating_sub(offset)
        };
        self.seek(target)
    }

    pub fn duration(&self) -> (duration: Duration)
        ensures
            duration == self.song.duration,
    {
        self.song.duration
    }

    pub fn set_agc_enabled(&mut self, enabled: bool)
        ensures
            final(self)@ == (AudioSourceView { agc_enabled: enabled, ..old(self)@ }),
    {
        self.agc_enabled = enabled;
    }

    pub fn is_agc_enabled(&self) -> (enabled: bool)
        ensures
            enabled == self.agc_enabled,
    {
        self.agc_enabled
    }

    pub fn sample_rate(&self) -> (rate: Option<u32>)
        ensures
            rate == self.sample_rate,
    {
        self.sample_rate
    }

    pub fn channels(&self) -> (channels: Option<u16>)
        ensures
            channels == self.channels,
    {
        self.channels
    }

    /// Stops, lets go of the output and turns the gain control back on.
    pub fn reset(&mut self) -> (cmds: Vec<PlayerCmd>)
        ensures
            final(self)@ == (AudioSourceView {
                elapsed_micros: 0,
                player: None,
                agc_enabled: true,
                ..old(self)@
            }),
            cmds@.len() > 0 && cmds@.last() == PlayerCmd::Detach,
            stop_cmds(cmds@.drop_last(), old(self).player is Some),
    {
        let mut cmds = self.stop();
        let ghost before: Seq<PlayerCmd> = cmds@;
        self.player = None;
        self.agc_enabled = true;
        cmds.push(PlayerCmd::Detach);
        assert(cmds@.drop_last() =~= before);
        cmds
    }
}

/// A jump back undoes a jump forward of the same length, where neither meets
/// an end and the position is a whole number of microseconds.
pub proof fn law_seek_back_undoes_forward(elapsed: u64, offset: nat)
    requires
        offset % 1000 == 0,
        elapsed * 1000 + offset <= u64::MAX * 1000,
    ensures
        jump_target(
            (jump_target(elapsed, offset, true) / 1000) as u64,
            offset,
            false,
        ) == elapsed * 1000,
{
}

/// What is toggled twice is as it was.
pub proof fn law_toggle_twice(source: AudioSourceView)
    ensures
        ({
            let once = source.with_paused(!source.paused());
            once.with_paused(!once.paused()) == source
        }),
{
}

// ---------------------------------------------------------------------------
// Shape
// ---------------------------------------------------------------------------

/// One frame of the outline that follows the sound.
pub struct VisualFrame<T> {
    pub displacements: Vec<T>,
}

/// The outline of a whole song, frame by frame. `T` is the type of a sample.
pub struct CachedSoundShape<T> {
    pub sample_rate: u32,
    pub total_frames: usize,
    pub frames: Vec<VisualFrame<T>>,
}

/// How many chunks of `channels` samples there are; the last may be short.
pub open spec fn chunk_count(len: nat, channels: nat) -> nat {
    (len + channels - 1) as nat / channels
}

/// The chunk at `i`.
pub open spec fn chunk<T>(samples: Seq<T>, channels: nat, i: int) -> Seq<T> {
    samples.subrange(
        i * channels,
        if (i + 1) * channels <= samples.len() {
            (i + 1) * channels
        } else {
            samples.len() as int
        },
    )
}

/// `mix` makes `mixed` of these samples.
pub open spec fn mixed_from<T, F: Fn(&[T]) -> T>(mix: F, samples: Seq<T>, mixed: T) -> bool {
    exists|slice: &[T]| slice@ == samples && #[trigger] mix.ensures((slice,), mixed)
}

/// Zero channels count as one.
pub open spec fn at_least_one(channels: usize) -> nat {
    if channels == 0 {
        1
    } else {
        channels as nat
    }
}

/// `after` is `before` with one sample more for every frame of `interleaved`,
/// mixed from the samples of its channels by `mix`.
pub open spec fn mixed_in<T, F: Fn(&[T]) -> T>(
    before: Seq<T>,
    interleaved: Seq<T>,
    channels: usize,
    mix: F,
    after: Seq<T>,
) -> bool {
    &&& after.len() == before.len() + chunk_count(interleaved.len(), at_least_one(channels))
    &&& after.take(before.len() as int) == before
    &&& forall|j: int|
        before.len() <= j < after.len() ==> mixed_from(
            mix,
            chunk(interleaved, at_least_one(channels), j - before.len()),
            #[trigger] after[j],
        )
}

/// Appends one sample to `mono` for every frame of `interleaved`, mixed from
/// the samples of its channels by `mix`.
pub fn mix_down<T, F: Fn(&[T]) -> T>(
    mono: &mut Vec<T>,
    interleaved: &Vec<T>,
    channels: usize,
    mix: F,
)
    requires
        forall|samples: &[T]| #[trigger] mix.requires((samples,)),
    ensures
        mixed_in(old(mono)@, interleaved@, channels, mix, final(mono)@),
{
    let width: usize = if channels == 0 {
        1
    } else {
        channels
    };
    let ghost kept: Seq<T> = mono@;
    let ghost w: nat = width as nat;
    let ghost total: nat = chunk_count(interleaved@.len(), w);
    let mut start: usize = 0;
    let ghost mut done: int = 0;
    proof {
        assert(total * w >= interleaved@.len() && (interleaved@.len() > 0 ==> (total - 1) * w
            < interleaved@.len()) && (interleaved@.len() == 0 ==> total == 0)) by (nonlinear_arith)
            requires
                w >= 1,
                total == (interleaved@.len() + w - 1) as nat / w,
        ;
        assert(mono@.take(kept.len() as int) =~= kept);
    }
    while start < interleaved.len()
        invariant
            width >= 1,
            w == width,
            total == chunk_count(interleaved@.len(), w),
            total * w >= interleaved@.len(),
            interleaved@.len() > 0 ==> (total - 1) * w < interleaved@.len(),
            interleaved@.len() == 0 ==> total == 0,
            0 <= done <= total,
            start == if done * w <= interleaved@.len() {
                done * w
            } else {
                interleaved@.len() as int
            },
            start == interleaved@.len() ==> done == total,
            mono@.len() == kept.len() + done,
            mono@.take(kept.len() as int) == kept,
            forall|samples: &[T]| #[trigger] mix.requires((samples,)),
            forall|j: int|
                kept.len() <= j < mono@.len() ==> mixed_from(
                    mix,
                    chunk(interleaved@, w, j - kept.len()),
                    #[trigger] mono@[j],
                ),
        decreases interleaved@.len() - start,
    {
        let end: usize = if interleaved.len() - start <= width {
            interleaved.len()
        } else {
            start + width
        };
        proof {
            assert((done + 1) * w == done * w + w) by (nonlinear_arith);
            assert(done < total) by (nonlinear_arith)
                requires
                    done * w < interleaved@.len(),
                    total * w >= interleaved@.len(),
                    w >= 1,
            ;
        }
        let samples: &[T] = slice_subrange(interleaved.as_slice(), start, end);
        let ghost before: Seq<T> = mono@;
        mono.push(mix(samples));
        proof {
            assert(samples@ == chunk(interleaved@, w, done));
            assert(mono@.take(kept.len() as int) =~= before.take(kept.len() as int));
            assert(mixed_from(mix, samples@, mono@.last()));
            assert forall|j: int| kept.len() <= j < mono@.len() implies mixed_from(
                mix,
                chunk(interleaved@, w, j - kept.len()),
                #[trigger] mono@[j],
            ) by {
                if j < before.len() {
                    assert(mono@[j] == before[j]);
                }
            }
            if end == interleaved@.len() {
                assert(done + 1 == total) by (nonlinear_arith)
                    requires
                        (done + 1) * w >= interleaved@.len(),
                        (total - 1) * w < interleaved@.len(),
                        done < total,
                        w >= 1,
                ;
            }
            done = done + 1;
        }
        start = end;
    }
}

/// Samples from one visual frame to the next.
pub open spec fn samples_per_frame(sample_rate: u32) -> nat {
    (sample_rate / TARGET_FPS) as nat
}

/// How many frames `len` samples make.
pub open spec fn frame_count(sample_rate: u32, len: nat) -> nat {
    len / if samples_per_frame(sample_rate) == 0 {
        1
    } else {
        samples_per_frame(sample_rate)
    }
}

/// The sample at `i` of the window that starts at `start`, or silence past the
/// end.
pub open spec fn windowed<T>(samples: Seq<T>, zero: T, start: int, i: int) -> T {
    if start + i < samples.len() {
        samples[start + i]
    } else {
        zero
    }
}

/// `frame` shows the window that starts at `start`: sample for sample, but for
/// the first [`BLEND_LEN`] points, each blended with its counterpart at the
/// end.
pub open spec fn shows_window<T, F: Fn(usize, T, T) -> T>(
    frame: Seq<T>,
    samples: Seq<T>,
    zero: T,
    blend: F,
    start: int,
) -> bool {
    &&& frame.len() == POINTS_PER_FRAME
    &&& forall|i: int|
        BLEND_LEN <= i < POINTS_PER_FRAME ==> #[trigger] frame[i] == windowed(
            samples,
            zero,
            start,
            i,
        )
    &&& forall|i: int|
        0 <= i < BLEND_LEN ==> blend.ensures(
            (
                i as usize,
                windowed(samples, zero, start, i),
                windowed(samples, zero, start, POINTS_PER_FRAME - BLEND_LEN + i),
            ),
            #[trigger] frame[i],
        )
}

/// `shape` is the outline of the sound: a frame for every sixtieth of a second,
/// each of which shows the samples from there on.
pub open spec fn is_shape_of<T: Copy, F: Fn(usize, T, T) -> T>(
    shape: CachedSoundShape<T>,
    sample_rate: u32,
    samples: Seq<T>,
    zero: T,
    blend: F,
) -> bool {
    &&& shape.wf()
    &&& shape.sample_rate == sample_rate
    &&& shape.total_frames == frame_count(sample_rate, samples.len())
    &&& forall|f: int|
        0 <= f < shape.total_frames ==> shows_window(
            (#[trigger] shape.frames@[f]).displacements@,
            samples,
            zero,
            blend,
            f * samples_per_frame(sample_rate),
        )
}

fn cut_frame<T: Copy, F: Fn(usize, T, T) -> T>(
    samples: &Vec<T>,
    zero: T,
    blend: &F,
    start: usize,
) -> (frame: VisualFrame<T>)
    requires
        start <= samples@.len(),
        forall|i: usize, head: T, tail: T|
            i < BLEND_LEN ==> #[trigger] blend.requires((i, head, tail)),
    ensures
        shows_window(frame.displacements@, samples@, zero, *blend, start as int),
{
    let mut window: Vec<T> = Vec::new();
    let mut i: usize = 0;
    while i < POINTS_PER_FRAME
        invariant
            i <= POINTS_PER_FRAME,
            start <= samples@.len(),
            window@.len() == i,
            forall|j: int| 0 <= j < i ==> #[trigger] window@[j] == windowed(
                samples@,
                zero,
                start as int,
                j,
            ),
        decreases POINTS_PER_FRAME - i,
    {
        if i < samples.len() - start {
            window.push(samples[start + i]);
        } else {
            window.push(zero);
        }
        i = i + 1;
    }
    i = 0;
    while i < BLEND_LEN
        invariant
            i <= BLEND_LEN,
            start <= samples@.len(),
            window@.len() == POINTS_PER_FRAME,
            forall|i: usize, head: T, tail: T|
                i < BLEND_LEN ==> #[trigger] blend.requires((i, head, tail)),
            forall|j: int| i <= j < POINTS_PER_FRAME ==> #[trigger] window@[j] == windowed(
                samples@,
                zero,
                start as int,
                j,
            ),
            forall|j: int|
                0 <= j < i ==> blend.ensures(
                    (
                        j as usize,
                        windowed(samples@, zero, start as int, j),
                        windowed(samples@, zero, start as int, POINTS_PER_FRAME - BLEND_LEN + j),
                    ),
                    #[trigger] window@[j],
                ),
        decreases BLEND_LEN - i,
    {
        let head: T = window[i];
        let tail: T = window[POINTS_PER_FRAME - BLEND_LEN + i];
        window[i] = blend(i, head, tail);
        i = i + 1;
    }
    VisualFrame { displacements: window }
}

impl<T: Copy> CachedSoundShape<T> {
    /// Every frame has all its points.
    pub open spec fn whole_frames(self) -> bool {
        forall|f: int|
            0 <= f < self.frames@.len() ==> (#[trigger] self.frames@[f]).displacements@.len()
                == POINTS_PER_FRAME
    }

    /// Every frame is whole, and they are counted.
    pub open spec fn wf(self) -> bool {
        self.total_frames == self.frames@.len() && self.whole_frames()
    }

    /// The shape of a sound: a frame for every sixtieth of a second, each of
    /// which shows the samples from there on, closed into a loop by `blend`.
    pub fn from_samples<F: Fn(usize, T, T) -> T>(
        sample_rate: u32,
        samples: &Vec<T>,
        zero: T,
        blend: F,
    ) -> (shape: CachedSoundShape<T>)
        requires
            forall|i: usize, head: T, tail: T|
                i < BLEND_LEN ==> #[trigger] blend.requires((i, head, tail)),
        ensures
            is_shape_of(shape, sample_rate, samples@, zero, blend),
    {
        let step: usize = (sample_rate / TARGET_FPS) as usize;
        let divisor: usize = if step == 0 {
            1
        } else {
            step
        };
        let total: usize = samples.len() / divisor;
        let mut frames: Vec<VisualFrame<T>> = Vec::new();
        let mut start: usize = 0;
        let mut f: usize = 0;
        proof {
            assert(total * step <= samples@.len()) by (nonlinear_arith)
                requires
                    total == samples@.len() / divisor as nat,
                    divisor >= 1,
                    step <= divisor,
            ;
        }
        while f < total
            invariant
                f <= total,
                total * step <= samples@.len(),
                step == samples_per_frame(sample_rate),
                start == f * step,
                frames@.len() == f,
                forall|i: usize, head: T, tail: T|
                    i < BLEND_LEN ==> #[trigger] blend.requires((i, head, tail)),
                forall|g: int|
                    0 <= g < f ==> shows_window(
                        (#[trigger] frames@[g]).displacements@,
                        samples@,
                        zero,
                        blend,
                        g * samples_per_frame(sample_rate),
                    ),
            decreases total - f,
        {
            proof {
                assert(f * step + step <= samples@.len()) by (nonlinear_arith)
                    requires
                        f < total,
                        total * step <= samples@.len(),
                ;
                assert((f + 1) * step == f * step + step) by (nonlinear_arith);
                assert(samples.len() == samples@.len());
            }
            frames.push(cut_frame(samples, zero, &blend, start));
            start = start + step;
            f = f + 1;
        }
        CachedSoundShape { sample_rate, total_frames: frames.len(), frames }
    }

    /// The frame at a time of `whole_frames` frames and a fraction: between it
    /// and the next one by `lerp`, both held at the last frame. There is none
    /// where the shape is empty.
    pub fn get_interpolated_frame_at_time<F: Fn(T, T) -> T>(
        &self,
        whole_frames: usize,
        lerp: F,
    ) -> (frame: Option<VisualFrame<T>>)
        requires
            self.whole_frames(),
            forall|a: T, b: T| #[trigger] lerp.requires((a, b)),
        ensures
            frame is None <==> self.frames@.len() == 0,
            frame matches Some(shown) ==> {
                let last = self.frames@.len() - 1;
                let first = if whole_frames < last {
                    whole_frames as int
                } else {
                    last
                };
                let second = if first < last {
                    first + 1
                } else {
                    last
                };
                &&& shown.displacements@.len() == POINTS_PER_FRAME
                &&& forall|i: int|
                    0 <= i < POINTS_PER_FRAME ==> lerp.ensures(
                        (
                            self.frames@[first].displacements@[i],
                            self.frames@[second].displacements@[i],
                        ),
                        #[trigger] shown.displacements@[i],
                    )
            },
    {
        if self.frames.len() == 0 {
            return None;
        }
        let last: usize = self.frames.len() - 1;
        let first: usize = if whole_frames < last {
            whole_frames
        } else {
            last
        };
        let second: usize = if first < last {
            first + 1
        } else {
            last
        };
        let f0 = &self.frames[first].displacements;
        let f1 = &self.frames[second].displacements;
        let mut displacements: Vec<T> = Vec::new();
        let mut i: usize = 0;
        while i < POINTS_PER_FRAME
            invariant
                i <= POINTS_PER_FRAME,
                f0@.len() == POINTS_PER_FRAME,
                f1@.len() == POINTS_PER_FRAME,
                displacements@.len() == i,
                forall|a: T, b: T| #[trigger] lerp.requires((a, b)),
                forall|j: int|
                    0 <= j < i ==> lerp.ensures(
                        (f0@[j], f1@[j]),
                        #[trigger] displacements@[j],
                    ),
            decreases POINTS_PER_FRAME - i,
        {
            displacements.push(lerp(f0[i], f1[i]));
            i = i + 1;
        }
        Some(VisualFrame { displacements })
    }
}

// ---------------------------------------------------------------------------
// Scan
// ---------------------------------------------------------------------------

/// The sample rate of a track that names none.
pub const DEFAULT_SAMPLE_RATE: u32 = 44100;

/// What came of the next packet of a file.
pub enum Packet<T, E> {
    /// It belongs to another track.
    Foreign,
    Decoded { channels: usize, interleaved: Vec<T> },
    /// It is damaged.
    Damaged,
    /// Decoding cannot go on.
    Failed(E),
    /// There is none any more.
    End,
}

/// How a scan goes on.
pub enum ScanStep<E> {
    More,
    Done,
    Failed(E),
}

/// Why a file cannot be scanned.
pub enum ScanError<E> {
    NoTrack,
    NoCodecParams,
    /// It cannot be opened, recognised or decoded.
    Unreadable(E),
}

impl<E> ScanError<E> {
    /// What is said of the error; an error from outside speaks for itself.
    pub fn words(&self) -> (words: Option<&'static str>)
        ensures
            match self {
                ScanError::NoTrack => words is Some && words->0@ == "No audio track found"@,
                ScanError::NoCodecParams => words is Some && words->0@
                    == "No audio codec params found"@,
                ScanError::Unreadable(_) => words is None,
            },
    {
        match self {
            ScanError::NoTrack => Some("No audio track found"),
            ScanError::NoCodecParams => Some("No audio codec params found"),
            ScanError::Unreadable(_) => None,
        }
    }
}

/// What is known of a file that was opened and recognised.
pub struct Probed<E> {
    /// The audio track that the file names as its own.
    pub default_track: Option<u32>,
    /// The first audio track whose codec is known.
    pub known_track: Option<u32>,
    /// The first audio track.
    pub first_track: Option<u32>,
    /// The track of choice has parameters of an audio codec.
    pub has_params: bool,
    /// The sample rate that the parameters name.
    pub sample_rate: Option<u32>,
    /// What came of making a decoder by the parameters.
    pub decoder: Result<(), E>,
}

/// The track of choice: the default one, failing that the first with a known
/// codec, failing that the first.
pub open spec fn track_of_choice(
    default_track: Option<u32>,
    known_track: Option<u32>,
    first_track: Option<u32>,
) -> Option<u32> {
    if default_track is Some {
        default_track
    } else if known_track is Some {
        known_track
    } else {
        first_track
    }
}

/// The track of choice.
pub fn pick_track(
    default_track: Option<u32>,
    known_track: Option<u32>,
    first_track: Option<u32>,
) -> (track: Option<u32>)
    ensures
        track == track_of_choice(default_track, known_track, first_track),
{
    if default_track.is_some() {
        default_track
    } else if known_track.is_some() {
        known_track
    } else {
        first_track
    }
}

/// The track of choice, with parameters to decode it by.
pub open spec fn usable_track<E>(
    default_track: Option<u32>,
    known_track: Option<u32>,
    first_track: Option<u32>,
    has_params: bool,
) -> Result<u32, ScanError<E>> {
    match track_of_choice(default_track, known_track, first_track) {
        None => Err(ScanError::NoTrack),
        Some(id) => if has_params {
            Ok(id)
        } else {
            Err(ScanError::NoCodecParams)
        },
    }
}

/// The track that is to be scanned. There is none where the file has no audio
/// track, or the one of choice has no codec parameters.
pub fn choose_track<E>(
    default_track: Option<u32>,
    known_track: Option<u32>,
    first_track: Option<u32>,
    has_params: bool,
) -> (track: Result<u32, ScanError<E>>)
    ensures
        track == usable_track::<E>(default_track, known_track, first_track, has_params),
{
    match pick_track(default_track, known_track, first_track) {
        None => Err(ScanError::NoTrack),
        Some(id) => if has_params {
            Ok(id)
        } else {
            Err(ScanError::NoCodecParams)
        },
    }
}

/// The scan of one track of a file, packet by packet.
pub struct ShapeScan<T> {
    pub track_id: u32,
    pub sample_rate: u32,
    /// The sound so far, in one channel.
    pub mono: Vec<T>,
}

impl<T: Copy> ShapeScan<T> {
    pub fn new(track_id: u32, sample_rate: Option<u32>) -> (scan: ShapeScan<T>)
        ensures
            scan.track_id == track_id,
            scan.sample_rate == match sample_rate {
                Some(rate) => rate,
                None => DEFAULT_SAMPLE_RATE,
            },
            scan.mono@.len() == 0,
    {
        let rate: u32 = match sample_rate {
            Some(rate) => rate,
            None => DEFAULT_SAMPLE_RATE,
        };
        ShapeScan { track_id, sample_rate: rate, mono: Vec::new() }
    }

    /// Begins the scan of a file, with what came of opening and recognising
    /// it.
    pub fn open<E>(file: Result<Probed<E>, E>) -> (scan: Result<ShapeScan<T>, ScanError<E>>)
        ensures
            match file {
                Err(error) => scan == Err::<ShapeScan<T>, _>(ScanError::Unreadable(error)),
                Ok(probed) => match usable_track::<E>(
                    probed.default_track,
                    probed.known_track,
                    probed.first_track,
                    probed.has_params,
                ) {
                    Err(error) => scan == Err::<ShapeScan<T>, _>(error),
                    Ok(id) => match probed.decoder {
                        Err(error) => scan == Err::<ShapeScan<T>, _>(ScanError::Unreadable(error)),
                        Ok(_) => {
                            &&& scan is Ok
                            &&& scan->Ok_0.track_id == id
                            &&& scan->Ok_0.sample_rate == match probed.sample_rate {
                                Some(rate) => rate,
                                None => DEFAULT_SAMPLE_RATE,
                            }
                            &&& scan->Ok_0.mono@.len() == 0
                        },
                    },
                },
            },
    {
        match file {
            Err(error) => Err(ScanError::Unreadable(error)),
            Ok(probed) => match choose_track::<E>(
                probed.default_track,
                probed.known_track,
                probed.first_track,
                probed.has_params,
            ) {
                Err(error) => Err(error),
                Ok(id) => match probed.decoder {
                    Err(error) => Err(ScanError::Unreadable(error)),
                    Ok(_) => Ok(ShapeScan::new(id, probed.sample_rate)),
                },
            },
        }
    }

    /// Whether a packet of that track is to be decoded.
    pub fn wants(&self, track_id: u32) -> (wanted: bool)
        ensures
            wanted == (track_id == self.track_id),
    {
        track_id == self.track_id
    }

    /// Takes in the next packet: its sound is mixed down by `mix`. Packets of
    /// other tracks and damaged ones are passed over.
    pub fn take<E, F: Fn(&[T]) -> T>(&mut self, packet: Packet<T, E>, mix: F) -> (step: ScanStep<E>)
        requires
            forall|samples: &[T]| #[trigger] mix.requires((samples,)),
        ensures
            final(self).track_id == old(self).track_id,
            final(self).sample_rate == old(self).sample_rate,
            match packet {
                Packet::Foreign => step is More && final(self).mono == old(self).mono,
                Packet::Decoded { channels, interleaved } => step is More && mixed_in(
                    old(self).mono@,
                    interleaved@,
                    channels,
                    mix,
                    final(self).mono@,
                ),
                Packet::Damaged => step is More && final(self).mono == old(self).mono,
                Packet::Failed(error) => step == ScanStep::Failed(error) && final(self).mono
                    == old(self).mono,
                Packet::End => step is Done && final(self).mono == old(self).mono,
            },
    {
        match packet {
            Packet::Foreign => ScanStep::More,
            Packet::Decoded { channels, interleaved } => {
                mix_down(&mut self.mono, &interleaved, channels, mix);
                ScanStep::More
            },
            Packet::Damaged => ScanStep::More,
            Packet::Failed(error) => ScanStep::Failed(error),
            Packet::End => ScanStep::Done,
        }
    }

    /// The shape of what was scanned.
    pub fn finish<F: Fn(usize, T, T) -> T>(&self, zero: T, blend: F) -> (shape: CachedSoundShape<T>)
        requires
            forall|i: usize, head: T, tail: T|
                i < BLEND_LEN ==> #[trigger] blend.requires((i, head, tail)),
        ensures
            is_shape_of(shape, self.sample_rate, self.mono@, zero, blend),
    {
        CachedSoundShape::from_samples(self.sample_rate, &self.mono, zero, blend)
    }
}

} // verus!
