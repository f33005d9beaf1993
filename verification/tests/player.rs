use orchestre::audio::{Action, LoopMode, MusicPlayer, QueueItem, QueueKind};
use orchestre::source::{OutputInfo, PlayerState};
use orchestre::time::Duration;
use orchestre::track::{Id, MusicCollection, Song};

const OUTPUT: OutputInfo = OutputInfo { sample_rate: 48000, channels: 2 };

fn song(id: Id) -> Song {
    Song {
        id,
        title: format!("song {id}"),
        file_path: format!("/music/{id}.flac"),
        duration: Duration::from_secs(180),
        artists: vec![id % 3],
        album: None,
        created_at: id,
        track: None,
    }
}

fn collection(ids: std::ops::Range<Id>) -> MusicCollection {
    let mut collection = MusicCollection::new();
    for id in ids {
        collection.songs.insert(id, song(id));
    }
    collection
}

fn queued(ids: std::ops::Range<Id>) -> MusicPlayer {
    let mut player = MusicPlayer::new();
    for id in ids {
        player.enqueue(id);
    }
    player
}

fn song_ids(items: &[QueueItem]) -> Vec<Id> {
    items.iter().map(|item| item.song_id).collect()
}

fn upcoming(player: &MusicPlayer) -> Vec<Id> {
    song_ids(&player.queue(QueueKind::Normal))
}

/// Opens what the action asks for; the song's identity.
fn perform(player: &mut MusicPlayer, action: Action) -> Option<Id> {
    match action {
        Action::Load(request) => {
            let id = request.song.id;
            assert!(player.finish_load(request, Some(44100), Some(OUTPUT)));
            Some(id)
        }
        _ => None,
    }
}

fn advance(player: &mut MusicPlayer, collection: &MusicCollection) -> Option<Id> {
    let (_, action) = player.next(collection);
    perform(player, action)
}

fn end_song(player: &mut MusicPlayer) {
    let song = player.playing_song.as_mut().unwrap();
    song.source.player = Some(PlayerState { paused: false, empty: true });
}

fn playing(player: &MusicPlayer) -> Option<Id> {
    player.playing_song.as_ref().map(|song| song.song_id)
}

#[test]
fn a_new_player_is_empty() {
    let player = MusicPlayer::new();
    assert!(player.playback_queue.is_empty() && player.override_queue.is_empty());
    assert!(player.order.is_empty() && player.history.is_empty());
    assert_eq!(player.cursor, 0);
    assert!(player.playing_song.is_none() && player.orchestra.is_none());
    assert!(player.loop_mode == LoopMode::Off && !player.is_shuffled);
    assert_eq!(LoopMode::default(), LoopMode::Off);
}

#[test]
fn entries_have_random_identities() {
    let a = QueueItem::new(5);
    let b = QueueItem::new(5);
    assert_eq!(a.song_id, 5);
    assert_ne!(a.queue_id, b.queue_id);
    for id in [a.queue_id, b.queue_id] {
        let uuid = uuid::Uuid::from_u128(id);
        assert_eq!(uuid.get_version_num(), 4);
        assert_eq!(uuid.get_variant(), uuid::Variant::RFC4122);
    }
}

#[test]
fn enqueued_tracks_come_last() {
    let mut player = queued(1..4);
    assert_eq!(upcoming(&player), vec![1, 2, 3]);
    player.enqueue(9);
    assert_eq!(upcoming(&player), vec![1, 2, 3, 9]);
    assert_eq!(player.order, vec![0, 1, 2, 3]);
    let item = QueueItem { queue_id: 77, song_id: 4 };
    player.append(item);
    assert_eq!(player.playback_queue[4], item);
}

#[test]
fn next_walks_the_queue() {
    let songs = collection(1..4);
    let mut player = queued(1..4);
    assert_eq!(advance(&mut player, &songs), Some(1));
    assert_eq!(upcoming(&player), vec![2, 3]);
    assert_eq!(advance(&mut player, &songs), Some(2));
    assert_eq!(upcoming(&player), vec![3]);
    assert_eq!(song_ids(&player.history), vec![1]);
    assert_eq!(advance(&mut player, &songs), Some(3));
    assert_eq!(upcoming(&player), Vec::<Id>::new());
    let (more, action) = player.next(&songs);
    assert!(!more && matches!(action, Action::Idle));
    assert_eq!(playing(&player), None);
    assert_eq!(song_ids(&player.history), vec![1, 2, 3]);
}

#[test]
fn a_track_inserted_plays_next() {
    let songs = collection(1..9);
    let mut player = queued(1..4);
    advance(&mut player, &songs);
    player.enqueue_next(7);
    player.enqueue_next(8);
    assert_eq!(song_ids(&player.queue(QueueKind::Override)), vec![8, 7]);
    assert_eq!(advance(&mut player, &songs), Some(8));
    assert!(player.playing_song.as_ref().unwrap().qorigin == QueueKind::Override);
    assert_eq!(upcoming(&player), vec![1, 2, 3]);
    assert_eq!(advance(&mut player, &songs), Some(7));
    assert_eq!(song_ids(&player.history), vec![1]);
    assert_eq!(advance(&mut player, &songs), Some(1));
}

#[test]
fn a_song_that_is_not_in_the_collection_is_not_opened() {
    let songs = collection(1..2);
    let mut player = queued(1..3);
    advance(&mut player, &songs);
    let (more, action) = player.next(&songs);
    assert!(more && matches!(action, Action::Idle));
    assert_eq!(player.cursor, 1);
    assert_eq!(playing(&player), Some(1));
}

#[test]
fn a_song_that_cannot_be_opened_changes_nothing() {
    let songs = collection(1..3);
    let mut player = queued(1..3);
    advance(&mut player, &songs);
    let (_, action) = player.next(&songs);
    let Action::Load(request) = action else { panic!("nothing to open") };
    assert!(!player.finish_load(request, Some(44100), None));
    assert_eq!(playing(&player), Some(1));
}

#[test]
fn a_loaded_song_plays() {
    let songs = collection(1..2);
    let mut player = queued(1..2);
    let (_, action) = player.next(&songs);
    let Action::Load(request) = action else { panic!("nothing to open") };
    assert_eq!(request.song.file_path, "/music/1.flac");
    let queue_id = request.item.queue_id;
    assert!(player.finish_load(request, Some(44100), Some(OUTPUT)));
    let song = player.playing_song.as_ref().unwrap();
    assert_eq!(song.queue_id, queue_id);
    assert!(song.source.is_playing() && song.source.is_agc_enabled());
    assert_eq!(song.source.sample_rate(), Some(48000));
    assert_eq!(song.source.channels(), Some(2));
    assert_eq!(song.source.duration(), Duration::from_secs(180));
}

#[test]
fn previous_undoes_next() {
    let songs = collection(1..4);
    let mut player = queued(1..4);
    advance(&mut player, &songs);
    advance(&mut player, &songs);
    player.playing_song.as_mut().unwrap().source.elapsed_micros = 4999999;
    let action = player.previous(&songs);
    assert_eq!(perform(&mut player, action), Some(1));
    assert_eq!(player.cursor, 0);
    assert!(player.history.is_empty());
    assert_eq!(upcoming(&player), vec![2, 3]);
}

#[test]
fn previous_rewinds_a_song_well_under_way() {
    let songs = collection(1..4);
    let mut player = queued(1..4);
    advance(&mut player, &songs);
    advance(&mut player, &songs);
    player.playing_song.as_mut().unwrap().source.elapsed_micros = 5000001;
    assert!(matches!(player.previous(&songs), Action::Rewind));
    player.finish_rewind::<()>(Err(()));
    assert_eq!(player.playing_song.as_ref().unwrap().source.elapsed_micros, 5000001);
    player.finish_rewind::<()>(Ok(()));
    assert_eq!(player.playing_song.as_ref().unwrap().source.elapsed_micros, 0);
    assert_eq!(playing(&player), Some(2));
    player.playing_song.as_mut().unwrap().source.elapsed_micros = 5000000;
    assert!(matches!(player.previous(&songs), Action::Load(_)));
}

#[test]
fn previous_rewinds_the_first_song() {
    let songs = collection(1..4);
    let mut player = queued(1..4);
    assert!(matches!(player.previous(&songs), Action::Idle));
    advance(&mut player, &songs);
    assert!(matches!(player.previous(&songs), Action::Rewind));
}

#[test]
fn previous_leaves_an_override_for_the_current_track() {
    let songs = collection(1..9);
    let mut player = queued(1..4);
    advance(&mut player, &songs);
    player.enqueue_next(8);
    advance(&mut player, &songs);
    let action = player.previous(&songs);
    assert_eq!(perform(&mut player, action), Some(1));
    assert_eq!(song_ids(&player.history), vec![1]);
}

#[test]
fn remove_takes_from_the_specified_queue() {
    let mut player = queued(1..4);
    player.enqueue_next(8);
    player.enqueue_next(9);
    assert_eq!(player.remove(1, QueueKind::Override).map(|i| i.song_id), Some(8));
    assert_eq!(song_ids(&player.override_queue), vec![9]);
    assert_eq!(player.remove(1, QueueKind::Override), None);
    assert_eq!(player.playback_queue.len(), 3);
    assert_eq!(player.remove(0, QueueKind::Normal).map(|i| i.song_id), Some(1));
    assert_eq!(song_ids(&player.playback_queue), vec![2, 3]);
    assert_eq!(player.order, vec![0, 1]);
    assert_eq!(upcoming(&player), vec![2, 3]);
    assert_eq!(player.remove(2, QueueKind::Normal), None);
}

#[test]
fn clearing_keeps_the_active_song() {
    let songs = collection(1..9);
    let mut player = queued(1..4);
    advance(&mut player, &songs);
    player.enqueue_next(8);
    player.clear_queue();
    assert_eq!(playing(&player), Some(1));
    assert!(player.playback_queue.is_empty() && player.override_queue.is_empty());
    assert!(player.order.is_empty() && player.history.is_empty());
    assert_eq!(player.cursor, 0);
    player.enqueue(5);
    assert_eq!(upcoming(&player), Vec::<Id>::new());
}

#[test]
fn update_waits_for_the_end() {
    let songs = collection(1..4);
    let mut player = queued(1..4);
    assert!(matches!(player.update(&songs), Action::Idle));
    advance(&mut player, &songs);
    assert!(matches!(player.update(&songs), Action::Idle));
    assert_eq!(player.cursor, 0);
    end_song(&mut player);
    let action = player.update(&songs);
    assert_eq!(perform(&mut player, action), Some(2));
}

#[test]
fn the_loop_over_a_track_repeats_it() {
    let songs = collection(1..4);
    let mut player = queued(1..4);
    player.set_loop_mode(LoopMode::Track);
    advance(&mut player, &songs);
    end_song(&mut player);
    let action = player.update(&songs);
    assert_eq!(perform(&mut player, action), Some(1));
    assert!(player.history.is_empty());
    assert_eq!(player.cursor, 0);
}

#[test]
fn the_loop_over_the_queue_starts_again() {
    let songs = collection(1..3);
    let mut player = queued(1..3);
    player.set_loop_mode(LoopMode::Queue);
    advance(&mut player, &songs);
    advance(&mut player, &songs);
    end_song(&mut player);
    let action = player.update(&songs);
    assert_eq!(perform(&mut player, action), Some(1));
    assert_eq!(player.cursor, 0);
    assert_eq!(song_ids(&player.history), vec![1, 2]);
}

#[test]
fn without_a_loop_the_end_of_the_queue_is_the_end() {
    let songs = collection(1..2);
    let mut player = queued(1..2);
    advance(&mut player, &songs);
    end_song(&mut player);
    assert!(matches!(player.update(&songs), Action::Idle));
    assert_eq!(playing(&player), None);
}

#[test]
fn play_by_id_jumps_and_remembers_what_it_skips() {
    let songs = collection(1..6);
    let mut player = queued(1..6);
    advance(&mut player, &songs);
    let target = player.playback_queue[3].queue_id;
    let (found, action) = player.play_by_id(target, QueueKind::Normal, &songs);
    assert!(found);
    assert_eq!(perform(&mut player, action), Some(4));
    assert_eq!(player.cursor, 3);
    assert_eq!(song_ids(&player.history), vec![1, 2, 3]);
    let back = player.playback_queue[1].queue_id;
    let (found, action) = player.play_by_id(back, QueueKind::Normal, &songs);
    assert!(found);
    assert_eq!(perform(&mut player, action), Some(2));
    assert_eq!(song_ids(&player.history), vec![1, 2, 3]);
}

#[test]
fn play_by_id_takes_an_override_out() {
    let songs = collection(1..9);
    let mut player = queued(1..3);
    player.enqueue_next(7);
    player.enqueue_next(8);
    let target = player.override_queue[1].queue_id;
    let (found, action) = player.play_by_id(target, QueueKind::Override, &songs);
    assert!(found);
    assert_eq!(perform(&mut player, action), Some(7));
    assert_eq!(song_ids(&player.override_queue), vec![8]);
}

#[test]
fn play_by_id_finds_nothing_under_another_identity() {
    let songs = collection(1..3);
    let mut player = queued(1..3);
    for kind in [QueueKind::Normal, QueueKind::Override] {
        let (found, action) = player.play_by_id(0, kind, &songs);
        assert!(!found && matches!(action, Action::Idle));
    }
    assert_eq!(player.cursor, 0);
}

#[test]
fn shuffling_keeps_the_song_that_plays_first() {
    let songs = collection(1..13);
    for _ in 0..20 {
        let mut player = queued(1..13);
        for _ in 0..5 {
            advance(&mut player, &songs);
        }
        player.set_shuffle(true, &songs);
        assert_eq!(player.cursor, 0);
        assert_eq!(player.order[0], 4);
        let mut sorted = player.order.clone();
        sorted.sort();
        assert_eq!(sorted, (0..12).collect::<Vec<usize>>());
        assert!(player.is_shuffled);
    }
}

#[test]
fn shuffling_changes_the_order() {
    let songs = collection(1..31);
    let mut player = queued(1..31);
    player.set_shuffle(true, &songs);
    let first = player.order.clone();
    let mut other = false;
    for _ in 0..10 {
        player.set_shuffle(false, &songs);
        assert_eq!(player.order, (0..30).collect::<Vec<usize>>());
        player.set_shuffle(true, &songs);
        other = other || player.order != first;
    }
    assert!(other);
}

#[test]
fn shuffling_on_and_off_restores_the_queue() {
    let songs = collection(1..13);
    let mut player = queued(1..13);
    for _ in 0..5 {
        advance(&mut player, &songs);
    }
    player.set_shuffle(true, &songs);
    player.set_shuffle(false, &songs);
    assert_eq!(player.order, (0..12).collect::<Vec<usize>>());
    assert_eq!(player.cursor, 4);
    assert!(!player.is_shuffled);
}

#[test]
fn unshuffling_keeps_the_current_track() {
    let songs = collection(1..13);
    let mut player = queued(1..13);
    player.set_shuffle(true, &songs);
    advance(&mut player, &songs);
    advance(&mut player, &songs);
    let current = playing(&player);
    player.set_shuffle(false, &songs);
    assert_eq!(Some(player.playback_queue[player.cursor].song_id), current);
}

#[test]
fn shuffling_twice_changes_nothing() {
    let songs = collection(1..13);
    let mut player = queued(1..13);
    player.set_shuffle(true, &songs);
    let order = player.order.clone();
    player.set_shuffle(true, &songs);
    assert_eq!(player.order, order);
}

#[test]
fn shuffling_an_empty_queue_only_sets_the_mode() {
    let songs = collection(1..3);
    let mut player = MusicPlayer::new();
    player.set_shuffle(true, &songs);
    assert!(player.is_shuffled && player.order.is_empty());
    assert_eq!(player.cursor, 0);
}

#[test]
fn a_step_back_after_a_jump_leads_to_the_track_before() {
    let songs = collection(1..6);
    let mut player = queued(1..6);
    advance(&mut player, &songs);
    let target = player.playback_queue[3].queue_id;
    let (_, action) = player.play_by_id(target, QueueKind::Normal, &songs);
    perform(&mut player, action);
    assert_eq!(player.playing_song.as_ref().unwrap().queue_id, target);
    let action = player.previous(&songs);
    assert_eq!(perform(&mut player, action), Some(3));
    assert_eq!(player.cursor, 2);
}

#[test]
fn an_insertion_can_be_undone() {
    let mut player = queued(1..3);
    player.enqueue_next(8);
    let before = player.override_queue.clone();
    player.enqueue_next(9);
    assert_eq!(player.remove(0, QueueKind::Override).map(|i| i.song_id), Some(9));
    assert_eq!(player.override_queue, before);
}

#[test]
fn a_shuffled_queue_plays_every_track_once() {
    let songs = collection(1..21);
    let mut player = queued(1..21);
    player.set_shuffle(true, &songs);
    let expected = upcoming(&player);
    let mut heard = Vec::new();
    while let Some(id) = advance(&mut player, &songs) {
        heard.push(id);
    }
    assert_eq!(heard, expected);
    heard.sort();
    assert_eq!(heard, (1..21).collect::<Vec<Id>>());
}

#[test]
fn a_removed_track_leaves_the_shuffled_queue() {
    let songs = collection(1..13);
    for index in 0..12 {
        let mut player = queued(1..13);
        player.set_shuffle(true, &songs);
        let removed = player.playback_queue[index];
        let mut expected = upcoming(&player);
        expected.retain(|&id| id != removed.song_id);
        assert_eq!(player.remove(index, QueueKind::Normal), Some(removed));
        assert_eq!(upcoming(&player), expected);
        let (found, _) = player.play_by_id(removed.queue_id, QueueKind::Normal, &songs);
        assert!(!found);
        let mut heard = Vec::new();
        while let Some(id) = advance(&mut player, &songs) {
            heard.push(id);
        }
        assert_eq!(heard, expected);
        player.set_shuffle(false, &songs);
        assert_eq!(player.order, (0..11).collect::<Vec<usize>>());
    }
}

#[test]
fn a_removal_keeps_the_current_track_and_what_follows() {
    let songs = collection(1..6);
    for index in 0..5 {
        let mut player = queued(1..6);
        for _ in 0..3 {
            advance(&mut player, &songs);
        }
        let mut expected = upcoming(&player);
        expected.retain(|&id| id != index as Id + 1);
        player.remove(index, QueueKind::Normal);
        assert_eq!(upcoming(&player), expected);
        assert_eq!(playing(&player), Some(3));
        if index != 2 {
            assert_eq!(player.playback_queue[player.order[player.cursor]].song_id, 3);
        }
        assert_eq!(advance(&mut player, &songs), expected.first().copied());
    }
}

#[test]
fn a_removal_moves_the_cursor_exactly() {
    let songs = collection(1..4);
    let mut player = queued(1..4);
    player.cursor = 2;
    player.remove(0, QueueKind::Normal);
    assert_eq!((player.cursor, player.order.clone()), (1, vec![0, 1]));
    player.remove(1, QueueKind::Normal);
    assert_eq!((player.cursor, player.order.clone()), (1, vec![0]));
    assert_eq!(upcoming(&player), Vec::<Id>::new());
    let (more, _) = player.next(&songs);
    assert!(!more);
    player.enqueue(3);
    assert_eq!(upcoming(&player), vec![3]);
}

#[test]
fn the_first_track_plays_on_when_it_is_removed() {
    let songs = collection(1..4);
    let mut player = queued(1..4);
    advance(&mut player, &songs);
    player.remove(0, QueueKind::Normal);
    assert_eq!(playing(&player), Some(1));
    assert_eq!((player.cursor, player.order.clone()), (0, vec![0, 1]));
    while let Some(id) = advance(&mut player, &songs) {
        assert_ne!(id, 1);
    }
}

#[test]
fn the_only_track_can_be_removed() {
    let songs = collection(1..2);
    let mut player = queued(1..2);
    player.remove(0, QueueKind::Normal);
    assert!(player.order.is_empty() && player.playback_queue.is_empty());
    let (more, action) = player.next(&songs);
    assert!(!more && matches!(action, Action::Idle));
}
