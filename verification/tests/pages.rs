use orchestre::album::{
    chevron_message, get_artist_links, hover_message, key_message, render, render_if_complete,
    render_latest, song_pill, songs_section, span_message, AlbumMsg, AlbumState, ArtistLink, ArtistSpan, Leading,
};
use orchestre::audio::{Action, MusicPlayer};
use orchestre::commands::{GlobalPlayerCmd, LoopEvent, LoopStep, PlayerMsg, HEARTBEAT_MILLIS};
use orchestre::library::{
    sort_collection, sort_listing, FilterTag, LibraryState, Order, SortMetric,
};
use orchestre::shared::SharedOrchestra;
use orchestre::source::{OutputInfo, PlayerState};
use orchestre::supervisor::{
    folder_picked, index_ready, sort_songs, storage_for, transition, update, update_with, AppMsg, Effect,
    LandingMsg, LandingState, LibraryMsg, Motion, MuCommand, OrchestraMsg, Page, PageTransition,
    Supervisor, Theme, TRANSITION_MILLIS,
};
use orchestre::time::Duration;
use orchestre::track::{
    Album, Artist, Cover, Id, MusicCollection, Orchestra, ReleaseDate, Song, Swatch,
};

fn song(id: Id, title: &str, created_at: u64, artists: Vec<Id>, track: Option<u32>) -> Song {
    Song {
        id,
        title: title.to_string(),
        file_path: format!("/music/{id}.flac"),
        duration: Duration::from_secs(60 + id),
        artists,
        album: Some(1),
        created_at,
        track,
    }
}

fn orchestra() -> Orchestra {
    let mut c = MusicCollection::new();
    for s in [
        song(1, "beta", 30, vec![1, 2], Some(2)),
        song(2, "Alpha", 10, vec![2], Some(1)),
        song(3, "gamma", 20, vec![], None),
        song(4, "Delta", 40, vec![9, 3], Some(2)),
    ] {
        c.songs.insert(s.id, s);
    }
    for (id, name) in [(1, "Ana"), (2, "Bj\u{f6}rk"), (3, "Cid")] {
        c.artists.insert(id, Artist { id, name: name.to_string() });
    }
    c.covers.insert(
        5,
        Cover {
            path: "/covers/5.png".to_string(),
            swatches: vec![
                Swatch { red: 1, green: 2, blue: 3 },
                Swatch { red: 4, green: 5, blue: 6 },
            ],
        },
    );
    c.covers.insert(0, Cover { path: "/covers/none.png".to_string(), swatches: vec![] });
    c.albums.insert(
        7,
        Album {
            id: 7,
            name: "Album".to_string(),
            artist: Some(1),
            cover: Some(5),
            date: Some(ReleaseDate { year: 1994 }),
            genres: vec!["Jazz".to_string(), "  ".to_string(), "Pop ".to_string()],
            songs: vec![1, 4, 8, 3, 2],
        },
    );
    c.albums.insert(
        8,
        Album {
            id: 8,
            name: "Bare".to_string(),
            artist: Some(2),
            cover: None,
            date: None,
            genres: vec![],
            songs: vec![],
        },
    );
    c.albums.insert(
        9,
        Album {
            id: 9,
            name: "Nobody's".to_string(),
            artist: None,
            cover: None,
            date: Some(ReleaseDate { year: 0 }),
            genres: vec![],
            songs: vec![],
        },
    );
    Orchestra { collection: c }
}

fn shared(orchestra: Orchestra) -> SharedOrchestra {
    match index_ready(orchestra) {
        AppMsg::Orchestra(OrchestraMsg::Ready(shared)) => shared,
        _ => panic!("not ready"),
    }
}

fn titles(songs: &[Song]) -> Vec<&str> {
    songs.iter().map(|s| s.title.as_str()).collect()
}

// Album page

#[test]
fn artist_links_tile_the_text() {
    let o = orchestra();
    let (text, spans) = get_artist_links(o.get_song(&1).unwrap(), &o);
    assert_eq!(text, "Ana, Bj\u{f6}rk");
    assert_eq!(
        spans,
        vec![
            ArtistSpan { start: 0, end: 3, link: ArtistLink::Link(1) },
            ArtistSpan { start: 3, end: 5, link: ArtistLink::Separator },
            ArtistSpan { start: 5, end: 11, link: ArtistLink::Link(2) },
        ]
    );
    assert_eq!(text.len(), 11);
    assert_eq!(&text[5..11], "Bj\u{f6}rk");
}

#[test]
fn artists_that_are_not_known_are_passed_over() {
    let o = orchestra();
    let (text, spans) = get_artist_links(o.get_song(&4).unwrap(), &o);
    assert_eq!(text, "Cid");
    assert_eq!(spans, vec![ArtistSpan { start: 0, end: 3, link: ArtistLink::Link(3) }]);
    let (text, spans) = get_artist_links(o.get_song(&3).unwrap(), &o);
    assert!(text.is_empty() && spans.is_empty());
}

#[test]
fn a_pill_shows_a_number_or_the_play_icon() {
    let o = orchestra();
    let s = o.get_song(&1).unwrap();
    let pill = song_pill(s, None, &o, 8);
    assert!(matches!(&pill.leading, Leading::Number(n) if n == "9"));
    assert!(!pill.is_hovered);
    assert_eq!(pill.title, "beta");
    assert_eq!(pill.artist_names, "Ana, Bj\u{f6}rk");
    assert_eq!(pill.artist_links.len(), 3);
    assert_eq!(pill.duration, Duration::from_secs(61));
    let hovered = song_pill(s, Some(1), &o, 8);
    assert!(hovered.is_hovered && matches!(hovered.leading, Leading::PlayIcon));
    let other = song_pill(s, Some(2), &o, 0);
    assert!(matches!(&other.leading, Leading::Number(n) if n == "1"));
}

#[test]
fn songs_are_listed_by_track() {
    let o = orchestra();
    let state = AlbumState { album_id: 7, hovered_song_id: Some(2) };
    let pills = songs_section(&state, &o, o.get_album(&7).unwrap());
    let ids: Vec<Id> = pills.iter().map(|p| p.id).collect();
    assert_eq!(ids, vec![3, 2, 1, 4]);
    assert!(matches!(&pills[0].leading, Leading::Number(n) if n == "1"));
    assert!(matches!(pills[1].leading, Leading::PlayIcon));
    assert!(matches!(&pills[3].leading, Leading::Number(n) if n == "4"));
}

#[test]
fn the_page_shows_the_album() {
    let o = orchestra();
    let state = AlbumState { album_id: 7, hovered_song_id: None };
    let page = render(&state, &o);
    assert_eq!(page.title, "Album");
    assert_eq!(page.artist_name, "Ana");
    assert_eq!(page.release_date, "1994");
    assert_eq!(page.genres, vec!["Jazz", "Pop "]);
    assert_eq!(page.cover_path, "/covers/5.png");
    assert_eq!(page.swatch, Some(Swatch { red: 1, green: 2, blue: 3 }));
    assert_eq!(page.songs.len(), 4);
}

#[test]
fn an_album_without_a_cover_has_the_default_one() {
    let o = orchestra();
    let page = render_if_complete(&AlbumState { album_id: 8, hovered_song_id: None }, &o).unwrap();
    assert_eq!(page.cover_path, "/covers/none.png");
    assert_eq!(page.swatch, None);
    assert_eq!(page.release_date, "Unknown Year");
    assert!(page.genres.is_empty() && page.songs.is_empty());
}

#[test]
fn a_year_of_zero_is_unknown() {
    let mut o = orchestra();
    let mut album = o.collection.albums.remove(&9).unwrap();
    album.artist = Some(3);
    o.collection.albums.insert(9, album);
    let page = render(&AlbumState { album_id: 9, hovered_song_id: None }, &o);
    assert_eq!(page.release_date, "Unknown Year");
}

#[test]
fn there_is_no_page_without_album_artist_or_cover() {
    let mut o = orchestra();
    assert!(render_if_complete(&AlbumState { album_id: 6, hovered_song_id: None }, &o).is_none());
    assert!(render_if_complete(&AlbumState { album_id: 9, hovered_song_id: None }, &o).is_none());
    o.collection.covers.remove(&0);
    assert!(render_if_complete(&AlbumState { album_id: 8, hovered_song_id: None }, &o).is_none());
    o.collection.artists.remove(&1);
    assert!(render_if_complete(&AlbumState { album_id: 7, hovered_song_id: None }, &o).is_none());
}

#[test]
fn the_latest_collection_is_shown() {
    let handle = shared(orchestra());
    let page = render_latest(&AlbumState { album_id: 7, hovered_song_id: None }, &handle).unwrap();
    assert_eq!(page.title, "Album");
    assert!(render_latest(&AlbumState { album_id: 1, hovered_song_id: None }, &handle).is_none());
}

#[test]
fn album_events_have_messages() {
    assert_eq!(span_message(ArtistLink::Separator), None);
    assert_eq!(span_message(ArtistLink::Link(4)), Some(AlbumMsg::ClickArtist(4)));
    assert_eq!(hover_message(6, true), AlbumMsg::HoverSong(6));
    assert_eq!(hover_message(6, false), AlbumMsg::HoverSongQuit);
    assert_eq!(chevron_message(), AlbumMsg::GotoLibrary);
    assert_eq!(key_message(true), Some(AlbumMsg::GotoLibrary));
    assert_eq!(key_message(false), None);
    assert_eq!(AlbumState::default(), AlbumState { album_id: 0, hovered_song_id: None });
}

// Library page

#[test]
fn the_library_sorts_by_date_and_title() {
    let o = orchestra();
    let sorted = |metric, order| sort_collection(&o.collection, metric, order);
    let by_date = sorted(SortMetric::ByDate, Order::Asc);
    assert_eq!(titles(&by_date), vec!["Alpha", "gamma", "beta", "Delta"]);
    let by_title = sorted(SortMetric::ByTitle, Order::Asc);
    assert_eq!(titles(&by_title), vec!["Alpha", "beta", "Delta", "gamma"]);
    let down = sorted(SortMetric::ByTitle, Order::Desc);
    assert_eq!(titles(&down), vec!["gamma", "Delta", "beta", "Alpha"]);
    assert!(sort_collection(&MusicCollection::new(), SortMetric::ByDate, Order::Asc).is_empty());
}

#[test]
fn songs_that_rank_alike_stay_in_order() {
    let songs = vec![
        song(1, "same", 5, vec![], None),
        song(2, "SAME", 5, vec![], None),
        song(3, "other", 5, vec![], None),
    ];
    let ids = |metric, order| -> Vec<Id> {
        sort_listing(&songs, metric, order).iter().map(|s| s.id).collect()
    };
    assert_eq!(ids(SortMetric::ByTitle, Order::Asc), vec![3, 1, 2]);
    assert_eq!(ids(SortMetric::ByTitle, Order::Desc), vec![1, 2, 3]);
    assert_eq!(ids(SortMetric::ByDate, Order::Asc), vec![2, 3, 1]);
    assert_eq!(ids(SortMetric::ByDate, Order::Desc), vec![1, 3, 2]);
}

#[test]
fn a_listing_does_not_depend_on_the_order_of_the_collection() {
    let forward = sort_collection(&orchestra().collection, SortMetric::ByDate, Order::Asc);
    for _ in 0..10 {
        let again = sort_collection(&orchestra().collection, SortMetric::ByDate, Order::Asc);
        assert_eq!(titles(&again), titles(&forward));
    }
}

#[test]
fn the_library_starts_with_songs_by_date() {
    let state = LibraryState::default();
    assert_eq!(state.active_filter.tag, FilterTag::Songs);
    assert_eq!(state.active_filter.order, Order::Asc);
    assert_eq!(state.active_filter.metric, SortMetric::ByDate);
    assert!(state.sorted_songs.is_empty() && state.hovered_song.is_none());
    assert_eq!(state.list_run_offset, 0);
}

// Supervisor

fn ready() -> Supervisor {
    let mut state = Supervisor::new();
    let effects = update(&mut state, index_ready(orchestra()), false);
    assert_eq!(effects.len(), 1);
    assert!(matches!(effects[0], Effect::Player(GlobalPlayerCmd::SetOrchestra(_))));
    state
}

fn library(state: &mut Supervisor, msg: LibraryMsg) -> Vec<Effect> {
    update(state, AppMsg::Library(msg), false)
}

#[test]
fn the_program_starts_on_the_landing_page() {
    let state = Supervisor::new();
    assert_eq!(state.current_page, Page::Landing);
    assert_eq!(state.progress, Duration::from_secs(0));
    assert_eq!(state.theme, Theme::Light);
    assert!(state.orchestra.is_none());
    let landing = LandingState::default();
    assert!(landing.log.is_none() && landing.error.is_none() && !landing.is_indexing);
    assert!(landing.music_dir.is_empty());
}

#[test]
fn a_collection_that_is_ready_is_listed() {
    let state = ready();
    assert_eq!(state.current_page, Page::Library);
    assert!(state.landing.is_indexing && state.landing.log.is_none());
    assert!(state.orchestra.is_some());
    assert_eq!(titles(&state.library.sorted_songs), vec!["Alpha", "gamma", "beta", "Delta"]);
}

#[test]
fn indexing_is_logged() {
    let mut state = Supervisor::new();
    state.landing.is_indexing = true;
    let msg = AppMsg::Orchestra(OrchestraMsg::Indexing("/music/a.flac".to_string()));
    assert!(update(&mut state, msg, false).is_empty());
    assert_eq!(state.landing.log.as_deref(), Some("+ /music/a.flac"));
    assert!(update(&mut state, AppMsg::Orchestra(OrchestraMsg::NeedIndexing), false).is_empty());
    assert!(!state.landing.is_indexing);
}

#[test]
fn indexing_starts_in_a_directory_only() {
    let mut state = Supervisor::new();
    state.landing.music_dir = "/music".to_string();
    let effects = update(&mut state, AppMsg::Landing(LandingMsg::StartIndexing), false);
    assert!(effects.is_empty() && !state.landing.is_indexing);
    assert_eq!(
        state.landing.error.as_deref(),
        Some("Directory does not exist or is invalid")
    );
    let effects = update(&mut state, AppMsg::Landing(LandingMsg::StartIndexing), true);
    assert!(
        matches!(&effects[..], [Effect::Mu(MuCommand::StartIndexing(dir))] if dir == "/music")
    );
    assert!(state.landing.is_indexing && state.landing.error.is_none());
}

#[test]
fn a_folder_can_be_picked() {
    let mut state = Supervisor::new();
    state.landing.error = Some("old".to_string());
    let effects = update(&mut state, AppMsg::Landing(LandingMsg::PickFolder), false);
    assert!(matches!(&effects[..], [Effect::Mu(MuCommand::PickFolder)]));
    assert!(update(&mut state, folder_picked("/other".to_string()), false).is_empty());
    assert_eq!(state.landing.music_dir, "/other");
    assert!(state.landing.error.is_none());
}

#[test]
fn the_filter_of_songs_sorts_them() {
    let mut state = ready();
    library(&mut state, LibraryMsg::SetSortMetric(SortMetric::ByTitle));
    assert_eq!(titles(&state.library.sorted_songs), vec!["Alpha", "beta", "Delta", "gamma"]);
    library(&mut state, LibraryMsg::SetFilterOrder(Order::Desc));
    assert_eq!(titles(&state.library.sorted_songs), vec!["gamma", "Delta", "beta", "Alpha"]);
    library(&mut state, LibraryMsg::SetFilterTag(FilterTag::Albums));
    library(&mut state, LibraryMsg::SetFilterOrder(Order::Asc));
    library(&mut state, LibraryMsg::SetSortMetric(SortMetric::ByDate));
    assert_eq!(titles(&state.library.sorted_songs), vec!["gamma", "Delta", "beta", "Alpha"]);
    library(&mut state, LibraryMsg::SetFilterTag(FilterTag::Songs));
    assert_eq!(titles(&state.library.sorted_songs), vec!["Alpha", "gamma", "beta", "Delta"]);
}

#[test]
fn without_a_collection_nothing_is_sorted() {
    let mut state = Supervisor::new();
    library(&mut state, LibraryMsg::SetFilterOrder(Order::Desc));
    assert!(state.library.sorted_songs.is_empty());
    assert_eq!(state.library.active_filter.order, Order::Desc);
    sort_songs(&mut state, None);
    assert!(state.library.sorted_songs.is_empty());
    sort_songs(&mut state, Some(&orchestra().collection));
    assert_eq!(titles(&state.library.sorted_songs), vec!["Delta", "beta", "gamma", "Alpha"]);
}

#[test]
fn an_album_is_opened_and_left() {
    let mut state = ready();
    library(&mut state, LibraryMsg::HoverSong(3));
    library(&mut state, LibraryMsg::SetListRunOffset(12));
    assert!(library(&mut state, LibraryMsg::ClickAlbum(7)).is_empty());
    assert_eq!(state.current_page, Page::Album);
    assert_eq!(state.album_page, AlbumState { album_id: 7, hovered_song_id: None });
    update(&mut state, AppMsg::AlbumPage(AlbumMsg::HoverSong(2)), false);
    assert_eq!(state.album_page.hovered_song_id, Some(2));
    update(&mut state, AppMsg::AlbumPage(AlbumMsg::HoverSongQuit), false);
    assert_eq!(state.album_page.hovered_song_id, None);
    update(&mut state, AppMsg::AlbumPage(AlbumMsg::GotoLibrary), false);
    assert_eq!(state.current_page, Page::Library);
    assert_eq!(state.library.hovered_song, Some(3));
    assert_eq!(state.library.list_run_offset, 12);
}

#[test]
fn a_click_on_an_artist_shows_them() {
    let mut state = ready();
    let effects = library(&mut state, LibraryMsg::ClickArtist(2));
    assert!(
        matches!(&effects[..], [Effect::ShowArtist(Some(a))] if a.id == 2 && a.name == "Bj\u{f6}rk")
    );
    let effects = update(&mut state, AppMsg::AlbumPage(AlbumMsg::ClickArtist(3)), false);
    assert!(matches!(&effects[..], [Effect::ShowArtist(Some(a))] if a.name == "Cid"));
    let o = orchestra();
    let msg = AppMsg::AlbumPage(AlbumMsg::ClickArtist(99));
    let effects = update_with(&mut state, msg, false, Some(&o.collection));
    assert!(matches!(&effects[..], [Effect::ShowArtist(None)]));
}

#[test]
fn progress_is_what_the_player_says() {
    let mut state = Supervisor::new();
    let tick = PlayerMsg::Tick(Duration::from_secs(42));
    assert!(update(&mut state, AppMsg::Player(tick), false).is_empty());
    assert_eq!(state.progress, Duration::from_secs(42));
}

#[test]
fn pages_have_their_transitions() {
    assert_eq!(TRANSITION_MILLIS, 220);
    let slide = PageTransition::Asymmetric {
        enter: Motion::SlideInBottom,
        exit: Motion::Stationary,
    };
    let leave = PageTransition::Asymmetric {
        enter: Motion::FadeIn,
        exit: Motion::SlideOutBottom,
    };
    for to in [Page::Landing, Page::Library, Page::Album] {
        assert_eq!(transition(Page::Landing, to), PageTransition::Fade);
        assert_eq!(transition(Page::Album, to), leave);
    }
    assert_eq!(transition(Page::Library, Page::Album), slide);
    assert_eq!(transition(Page::Library, Page::Landing), PageTransition::Fade);
    assert_eq!(transition(Page::Library, Page::Library), PageTransition::Fade);
}

// Player commands

fn load(player: &mut MusicPlayer, action: Action) -> Option<Id> {
    match action {
        Action::Load(request) => {
            let id = request.song.id;
            let output = OutputInfo { sample_rate: 44100, channels: 1 };
            player.finish_load(request, None, Some(output));
            Some(id)
        }
        _ => None,
    }
}

#[test]
fn a_song_played_from_the_library_plays() {
    let mut state = Supervisor::new();
    let mut player = MusicPlayer::new();
    let mut played = Vec::new();
    let mut effects = update(&mut state, index_ready(orchestra()), false);
    effects.extend(library(&mut state, LibraryMsg::Play(4)));
    effects.extend(library(&mut state, LibraryMsg::Play(2)));
    for effect in effects {
        if let Effect::Player(cmd) = effect {
            let action = player.handle_cmd(cmd);
            played.extend(load(&mut player, action));
        }
    }
    assert_eq!(played, vec![4, 2]);
    assert_eq!(player.playback_queue.len(), 1);
}

#[test]
fn a_paused_song_goes_on_instead() {
    let mut player = MusicPlayer::new();
    player.handle_cmd(GlobalPlayerCmd::SetOrchestra(shared(orchestra())));
    player.handle_cmd(GlobalPlayerCmd::EnqueueMany(vec![1, 2]));
    let action = player.handle_cmd(GlobalPlayerCmd::Play);
    assert_eq!(load(&mut player, action), Some(1));
    player.playing_song.as_mut().unwrap().source.pause();
    assert!(player.wait().is_none());
    player.handle_cmd(GlobalPlayerCmd::ClearQueue);
    player.handle_cmd(GlobalPlayerCmd::Enqueue(2));
    assert!(matches!(player.handle_cmd(GlobalPlayerCmd::Play), Action::Resume));
    assert!(player.playing_song.as_ref().unwrap().source.is_playing());
    assert_eq!(player.playing_song.as_ref().unwrap().song_id, 1);
}

#[test]
fn without_a_collection_nothing_is_played() {
    let mut player = MusicPlayer::new();
    player.handle_cmd(GlobalPlayerCmd::EnqueueMany(vec![1, 2]));
    assert!(matches!(player.handle_cmd(GlobalPlayerCmd::Play), Action::Idle));
    assert!(matches!(player.handle_cmd(GlobalPlayerCmd::Next), Action::Idle));
    assert_eq!(player.cursor, 0);
}

#[test]
fn commands_walk_the_queue() {
    let mut player = MusicPlayer::new();
    player.handle_cmd(GlobalPlayerCmd::SetOrchestra(shared(orchestra())));
    player.handle_cmd(GlobalPlayerCmd::EnqueueMany(vec![3, 1]));
    let action = player.handle_cmd(GlobalPlayerCmd::Next);
    assert_eq!(load(&mut player, action), Some(3));
    let action = player.handle_cmd(GlobalPlayerCmd::Next);
    assert_eq!(load(&mut player, action), Some(1));
    assert!(matches!(player.handle_cmd(GlobalPlayerCmd::Next), Action::Idle));
    assert!(player.playing_song.is_none());
}

#[test]
fn the_loop_beats_while_a_song_plays() {
    let mut player = MusicPlayer::new();
    assert!(player.wait().is_none());
    player.handle_cmd(GlobalPlayerCmd::SetOrchestra(shared(orchestra())));
    player.handle_cmd(GlobalPlayerCmd::EnqueueMany(vec![3, 1]));
    let step = player.step(LoopEvent::Command(GlobalPlayerCmd::Play));
    let LoopStep::Continue { tick: None, action } = step else { panic!("no step") };
    assert_eq!(load(&mut player, action), Some(3));
    assert_eq!(player.wait(), Some(Duration::from_millis(HEARTBEAT_MILLIS)));
    assert_eq!(HEARTBEAT_MILLIS, 500);
    player.playing_song.as_mut().unwrap().source.elapsed_micros = 1500000;
    let LoopStep::Continue { tick, action } = player.step(LoopEvent::Timeout) else {
        panic!("no step")
    };
    assert_eq!(tick, Some(PlayerMsg::Tick(Duration::from_millis(1500))));
    assert!(matches!(action, Action::Idle));
    player.playing_song.as_mut().unwrap().source.player =
        Some(PlayerState { paused: false, empty: true });
    let LoopStep::Continue { action, .. } = player.step(LoopEvent::Timeout) else {
        panic!("no step")
    };
    assert_eq!(load(&mut player, action), Some(1));
    assert!(matches!(player.step(LoopEvent::Disconnected), LoopStep::Stop));
}

#[test]
fn a_step_takes_the_collection_that_it_is_given() {
    let mut player = MusicPlayer::new();
    player.enqueue(2);
    let o = orchestra();
    let step = player.step_with(LoopEvent::Command(GlobalPlayerCmd::Play), Some(&o.collection));
    let LoopStep::Continue { action, .. } = step else { panic!("no step") };
    assert_eq!(load(&mut player, action), Some(2));
    let LoopStep::Continue { tick, action } = player.step_with(LoopEvent::Timeout, None) else {
        panic!("no step")
    };
    assert!(tick.is_some() && matches!(action, Action::Idle));
}

#[test]
fn a_step_is_refused_where_an_entry_is_missing() {
    let mut player = MusicPlayer::new();
    let (play, next) = (
        LoopEvent::Command(GlobalPlayerCmd::Play),
        LoopEvent::Command(GlobalPlayerCmd::Next),
    );
    player.enqueue(1);
    assert!(player.can_step(&play) && player.can_step(&next));
    player.order = vec![1];
    assert!(!player.can_step(&play) && !player.can_step(&next));
    assert!(player.can_step(&LoopEvent::Timeout) && player.can_step(&LoopEvent::Disconnected));
    assert!(player.can_step(&LoopEvent::Command(GlobalPlayerCmd::ClearQueue)));
    player.enqueue_next(2);
    assert!(player.can_step(&next));
}

#[test]
fn the_collection_that_comes_last_is_listed() {
    let mut state = ready();
    let mut o = Orchestra { collection: MusicCollection::new() };
    o.collection.songs.insert(50, song(50, "New", 1, vec![], None));
    update(&mut state, index_ready(o), false);
    assert_eq!(titles(&state.library.sorted_songs), vec!["New"]);
    library(&mut state, LibraryMsg::SetFilterOrder(Order::Desc));
    assert_eq!(titles(&state.library.sorted_songs), vec!["New"]);
}

#[test]
fn a_message_is_taken_with_the_storage_that_it_brings() {
    let state = Supervisor::new();
    assert!(storage_for(&state, &AppMsg::Orchestra(OrchestraMsg::NeedIndexing)).is_none());
    assert!(storage_for(&state, &index_ready(orchestra())).is_some());
    assert!(storage_for(&ready(), &AppMsg::Library(LibraryMsg::HoverSong(1))).is_some());
}
