use orchestre::source::{
    choose_track, mix_down, pick_track, AudioSource, CachedSoundShape, OutputInfo, Packet,
    PlayerCmd, PlayerState, Probed, ScanError, ScanStep, ShapeScan, VisualFrame, BLEND_LEN, DEFAULT_SAMPLE_RATE, NUM_TRAIL_FRAMES, POINTS_PER_FRAME,
    TARGET_FPS,
};
use orchestre::time::Duration;
use orchestre::track::Song;

fn source() -> AudioSource {
    let song = Song {
        id: 1,
        title: "Title".to_string(),
        file_path: "/music/1.flac".to_string(),
        duration: Duration::from_secs(200),
        artists: vec![],
        album: None,
        created_at: 0,
        track: None,
    };
    AudioSource::new(song, false)
}

fn opened() -> AudioSource {
    let mut source = source();
    assert!(source.sync(Some(44100), Some(OutputInfo { sample_rate: 48000, channels: 2 })));
    source
}

#[test]
fn a_new_source_has_no_output() {
    let mut source = source();
    assert!(!source.is_playing() && !source.is_paused() && source.has_ended());
    assert_eq!(source.elapsed(), Duration::from_secs(0));
    assert_eq!(source.duration(), Duration::from_secs(200));
    assert_eq!(source.sample_rate(), None);
    assert_eq!(source.channels(), None);
    assert!(!source.is_agc_enabled());
    assert_eq!(source.play(), None);
    assert_eq!(source.pause(), None);
    assert_eq!(source.toggle_play_pause(), None);
    assert_eq!(source.seek(Duration::from_secs(3)), None);
    assert_eq!(source.seek_relative(Duration::from_secs(3), true), None);
    assert_eq!(source.finish_seek::<u8>(Duration::from_secs(3), Err(1)), Ok(()));
    assert_eq!(source.elapsed_micros, 0);
    assert!(source.stop().is_empty());
}

#[test]
fn opening_takes_the_rate_of_the_decoder() {
    let source = opened();
    assert_eq!(source.sample_rate(), Some(48000));
    assert_eq!(source.channels(), Some(2));
    assert!(source.is_playing() && !source.has_ended());
}

#[test]
fn a_failed_opening_keeps_the_rate_of_the_shape() {
    let mut source = source();
    assert!(!source.sync(Some(44100), None));
    assert_eq!(source.sample_rate(), Some(44100));
    assert_eq!(source.channels(), None);
    assert!(!source.sync(None, None));
    assert_eq!(source.sample_rate(), Some(44100));
    assert!(source.player.is_none());
}

#[test]
fn toggling_twice_is_nothing() {
    let mut source = opened();
    assert_eq!(source.toggle_play_pause(), Some(PlayerCmd::Pause));
    assert!(source.is_paused() && !source.is_playing());
    assert_eq!(source.toggle_play_pause(), Some(PlayerCmd::Play));
    assert!(!source.is_paused() && source.is_playing());
    assert_eq!(source.pause(), Some(PlayerCmd::Pause));
    assert_eq!(source.play(), Some(PlayerCmd::Play));
}

#[test]
fn stop_pauses_at_the_beginning() {
    let mut source = opened();
    source.elapsed_micros = 1234;
    assert_eq!(
        source.stop(),
        vec![PlayerCmd::Pause, PlayerCmd::Seek(Duration::from_secs(0))]
    );
    assert!(source.is_paused());
    assert_eq!(source.elapsed_micros, 0);
}

#[test]
fn reset_lets_go_of_the_output() {
    let mut source = opened();
    source.elapsed_micros = 1234;
    assert_eq!(
        source.reset(),
        vec![
            PlayerCmd::Pause,
            PlayerCmd::Seek(Duration::from_secs(0)),
            PlayerCmd::Detach
        ]
    );
    assert!(source.player.is_none() && source.is_agc_enabled());
    assert_eq!(source.elapsed_micros, 0);
    assert_eq!(source.sample_rate(), Some(48000));
    assert_eq!(source.reset(), vec![PlayerCmd::Detach]);
}

#[test]
fn an_empty_output_has_ended() {
    let mut source = opened();
    source.player = Some(PlayerState { paused: false, empty: true });
    assert!(source.has_ended() && source.is_playing());
}

#[test]
fn the_gain_control_can_be_set() {
    let mut source = opened();
    source.set_agc_enabled(true);
    assert!(source.is_agc_enabled());
    source.set_agc_enabled(false);
    assert!(!source.is_agc_enabled());
}

#[test]
fn a_jump_moves_only_where_it_worked() {
    let mut source = opened();
    let there = Duration::from_secs(7);
    assert_eq!(source.seek(there), Some(PlayerCmd::Seek(there)));
    assert_eq!(source.finish_seek(there, Err("no")), Err("no"));
    assert_eq!(source.elapsed(), Duration::from_secs(0));
    assert_eq!(source.finish_seek::<&str>(there, Ok(())), Ok(()));
    assert_eq!(source.elapsed(), there);
}

#[test]
fn a_jump_back_undoes_a_jump_forward() {
    let mut source = opened();
    source.elapsed_micros = 30000000;
    let ten = Duration::from_secs(10);
    assert_eq!(
        source.seek_relative(ten, true),
        Some(PlayerCmd::Seek(Duration::from_secs(40)))
    );
    let _ = source.finish_seek::<()>(Duration::from_secs(40), Ok(()));
    assert_eq!(
        source.seek_relative(ten, false),
        Some(PlayerCmd::Seek(Duration::from_secs(30)))
    );
    assert_eq!(
        source.seek_relative(Duration::from_secs(100), false),
        Some(PlayerCmd::Seek(Duration::from_secs(0)))
    );
    let longest = Duration::new(u64::MAX, 999999999);
    assert_eq!(source.seek_relative(longest, true), Some(PlayerCmd::Seek(longest)));
}

#[test]
fn channels_are_mixed_down() {
    let mut mono = vec![9.0f32];
    let mix = |chunk: &[f32]| chunk.iter().sum::<f32>() / 2.0;
    mix_down(&mut mono, &vec![1.0, 3.0, 2.0, 4.0, 8.0], 2, mix);
    assert_eq!(mono, vec![9.0, 2.0, 3.0, 4.0]);
    let mut single = Vec::new();
    mix_down(&mut single, &vec![1, 2, 3], 0, |chunk: &[i32]| chunk.len() as i32 * 10 + chunk[0]);
    assert_eq!(single, vec![11, 12, 13]);
    mix_down(&mut single, &vec![], 2, |_: &[i32]| 0);
    assert_eq!(single, vec![11, 12, 13]);
}

#[test]
fn a_shape_has_a_frame_for_every_sixtieth_of_a_second() {
    assert_eq!((POINTS_PER_FRAME, NUM_TRAIL_FRAMES, TARGET_FPS, BLEND_LEN), (1024, 5, 60, 32));
    let samples: Vec<i64> = (1..=1500).collect();
    let blend = |i: usize, head: i64, tail: i64| head * 100000 + tail * 100 + i as i64;
    let shape = CachedSoundShape::from_samples(6000, &samples, 0, blend);
    assert_eq!(shape.total_frames, 15);
    assert_eq!(shape.frames.len(), 15);
    assert_eq!(shape.sample_rate, 6000);
    let third = &shape.frames[2].displacements;
    assert_eq!(third.len(), 1024);
    assert_eq!(third[32], 233);
    assert_eq!(third[1023], 1224);
    assert_eq!(third[5], 206 * 100000 + (201 + 992 + 5) * 100 + 5);
    let last = &shape.frames[14].displacements;
    assert_eq!(last[99], 1500);
    assert_eq!(last[100], 0);
    assert_eq!(last[0], 1401 * 100000);
}

#[test]
fn a_shape_of_a_low_rate_has_a_frame_for_every_sample() {
    let shape = CachedSoundShape::from_samples(30, &vec![5, 6, 7], 0, |_, head: i32, _| head);
    assert_eq!(shape.total_frames, 3);
    for frame in &shape.frames {
        assert_eq!(frame.displacements[..4], [5, 6, 7, 0]);
    }
}

#[test]
fn silence_has_no_frames() {
    let shape = CachedSoundShape::from_samples(44100, &vec![], 0, |_, head: i32, _| head);
    assert_eq!(shape.total_frames, 0);
    assert!(shape.get_interpolated_frame_at_time(3, |a, _| a).is_none());
}

#[test]
fn frames_are_interpolated_and_held_at_the_end() {
    let frame = |v: i32| VisualFrame { displacements: vec![v; POINTS_PER_FRAME] };
    let shape = CachedSoundShape {
        sample_rate: 44100,
        total_frames: 3,
        frames: vec![frame(10), frame(20), frame(30)],
    };
    let between = |a: i32, b: i32| a * 1000 + b;
    let at = |n: usize| shape.get_interpolated_frame_at_time(n, between).unwrap().displacements;
    assert_eq!(at(0), vec![10020; POINTS_PER_FRAME]);
    assert_eq!(at(1), vec![20030; POINTS_PER_FRAME]);
    assert_eq!(at(2), vec![30030; POINTS_PER_FRAME]);
    assert_eq!(at(50), vec![30030; POINTS_PER_FRAME]);
}

#[test]
fn a_scan_passes_over_what_it_cannot_use() {
    let mut scan: ShapeScan<i32> = ShapeScan::new(4, None);
    assert_eq!(scan.sample_rate, DEFAULT_SAMPLE_RATE);
    assert!(scan.wants(4) && !scan.wants(5));
    let sum = |chunk: &[i32]| chunk.iter().sum::<i32>();
    assert!(matches!(scan.take::<(), _>(Packet::Foreign, sum), ScanStep::More));
    assert!(matches!(scan.take::<(), _>(Packet::Damaged, sum), ScanStep::More));
    let decoded = Packet::Decoded { channels: 2, interleaved: vec![1, 2, 3, 4] };
    assert!(matches!(scan.take::<(), _>(decoded, sum), ScanStep::More));
    assert_eq!(scan.mono, vec![3, 7]);
    assert!(matches!(scan.take(Packet::Failed("broken"), sum), ScanStep::Failed("broken")));
    assert!(matches!(scan.take::<(), _>(Packet::End, sum), ScanStep::Done));
    assert_eq!(scan.mono, vec![3, 7]);
}

#[test]
fn a_scan_ends_in_a_shape() {
    let mut scan: ShapeScan<i32> = ShapeScan::new(0, Some(120));
    let first = |chunk: &[i32]| chunk[0];
    let decoded = Packet::Decoded { channels: 1, interleaved: vec![1, 2, 3, 4, 5] };
    let _ = scan.take::<(), _>(decoded, first);
    let shape = scan.finish(0, |_, head, _| head);
    assert_eq!(shape.total_frames, 2);
    assert_eq!(shape.sample_rate, 120);
    assert_eq!(shape.frames[1].displacements[..4], [3, 4, 5, 0]);
}

#[test]
fn the_track_is_the_default_or_the_first_that_is_known() {
    assert_eq!(pick_track(Some(1), Some(2), Some(3)), Some(1));
    assert_eq!(pick_track(None, Some(2), Some(3)), Some(2));
    assert_eq!(pick_track(None, None, Some(3)), Some(3));
    assert_eq!(pick_track(None, None, None), None);
    assert!(matches!(choose_track::<()>(None, Some(2), None, true), Ok(2)));
    assert!(matches!(choose_track::<()>(None, Some(2), None, false), Err(ScanError::NoCodecParams)));
    assert!(matches!(choose_track::<()>(None, None, None, true), Err(ScanError::NoTrack)));
}

fn probed(first_track: Option<u32>, has_params: bool, decoder: Result<(), u8>) -> Probed<u8> {
    Probed {
        default_track: None,
        known_track: None,
        first_track,
        has_params,
        sample_rate: Some(8000),
        decoder,
    }
}

#[test]
fn a_scan_begins_with_a_readable_track_only() {
    let open = |file: Result<Probed<u8>, u8>| ShapeScan::<i32>::open(file);
    assert!(matches!(open(Err(7)), Err(ScanError::Unreadable(7))));
    let no_track = open(Ok(probed(None, true, Ok(())))).err().unwrap();
    assert_eq!(no_track.words(), Some("No audio track found"));
    let no_params = open(Ok(probed(Some(4), false, Ok(())))).err().unwrap();
    assert_eq!(no_params.words(), Some("No audio codec params found"));
    let no_decoder = open(Ok(probed(Some(4), true, Err(9)))).err().unwrap();
    assert!(matches!(no_decoder, ScanError::Unreadable(9)));
    assert_eq!(no_decoder.words(), None);
    let scan = open(Ok(probed(Some(4), true, Ok(())))).ok().unwrap();
    assert_eq!((scan.track_id, scan.sample_rate), (4, 8000));
    assert!(scan.mono.is_empty());
}

#[test]
fn the_count_of_frames_is_not_consulted() {
    let shape = CachedSoundShape {
        sample_rate: 44100,
        total_frames: 0,
        frames: vec![VisualFrame { displacements: vec![3; POINTS_PER_FRAME] }],
    };
    let shown = shape.get_interpolated_frame_at_time(9, |a: i32, b: i32| a + b).unwrap();
    assert_eq!(shown.displacements, vec![6; POINTS_PER_FRAME]);
}
