//! What the pages show, and what every message makes of them.

use crate::album::{
    are_artist_spans, artist_text, byte_len, has_page, is_album_page, is_artist_span, is_song_list,
    is_song_pill, lemma_artist_text_step, lemma_encode_concat, lemma_looked_up_step,
    lemma_separator_len, looked_up, release_text, shown_genres, texts, tracks, AlbumMsg, AlbumPage,
    AlbumState, ArtistLink, ArtistSpan, ByTrack, Leading, SongPill,
};
use crate::commands::{GlobalPlayerCmd, PlayerMsg};
use crate::library::{is_sorted_collection, ActiveFilter, FilterTag, Order, SortMetric};
use crate::shared::SharedOrchestra;
use crate::sort::{is_stable_sort, law_stable_sort_rises};
use crate::supervisor::{
    asked_artist, effects_of, storage_read, transition_between, AppMsg, EffectView, LandingMsg,
    LandingView, LibraryMsg, LibraryView, Motion, OrchestraMsg, Page, PageTransition,
    SupervisorView,
};
use crate::text::{
    is_white_space_code, law_blank_is_white, law_decimal_reads_back,
    law_signed_decimal_reads_back, number_of, signed_decimal,
};
use crate::track::{Artist, Id, MusicCollection, Orchestra, ReleaseDate, SongView};
use vstd::prelude::*;
use vstd::utf8::*;

verus! {

// ---------------------------------------------------------------------------
// Album page
// ---------------------------------------------------------------------------

/// Looking up one key more adds its entry where there is one, and else nothing.
pub proof fn law_lookup_passes_over_unknown<V>(ids: Seq<Id>, id: Id, map: Map<Id, V>)
    ensures
        looked_up(Seq::<Id>::empty(), map).len() == 0,
        map.contains_key(id) ==> looked_up(ids.push(id), map) == looked_up(ids, map).push(map[id]),
        !map.contains_key(id) ==> looked_up(ids.push(id), map) == looked_up(ids, map),
{
    let more = ids.push(id);
    lemma_looked_up_step(more, map, ids.len() as int);
    assert(more.take(ids.len() as int) =~= ids);
    assert(more.take(ids.len() as int + 1) =~= more);
}

/// The names of artists stand with a comma and a space between two of them.
pub proof fn law_names_are_joined(artists: Seq<Artist>, artist: Artist)
    ensures
        artist_text(Seq::<Artist>::empty()).len() == 0,
        artists.len() == 0 ==> artist_text(artists.push(artist)) == artist.name@,
        artists.len() > 0 ==> artist_text(artists.push(artist)) == artist_text(artists).push(
            ',',
        ).push(' ') + artist.name@,
{
    lemma_artist_text_step(artists, artist);
    if artists.len() > 0 {
        assert(artist_text(artists) + seq![',', ' '] =~= artist_text(artists).push(',').push(' '));
    }
}

/// The text of the first artists is what the text of all begins with.
proof fn lemma_text_begins(artists: Seq<Artist>, k: int) -> (rest: Seq<char>)
    requires
        0 <= k <= artists.len(),
    ensures
        artist_text(artists) == artist_text(artists.take(k)) + rest,
        0 < k < artists.len() ==> rest.len() >= 2 && rest[0] == ',' && rest[1] == ' ',
    decreases artists.len(),
{
    if k == artists.len() {
        assert(artists.take(k) =~= artists);
        assert(artist_text(artists) =~= artist_text(artists) + Seq::<char>::empty());
        Seq::empty()
    } else {
        let fewer = artists.drop_last();
        let rest = lemma_text_begins(fewer, k);
        assert(fewer.take(k) =~= artists.take(k));
        assert(artists =~= fewer.push(artists.last()));
        lemma_artist_text_step(fewer, artists.last());
        if fewer.len() == 0 {
            assert(artist_text(artists.take(k)).len() == 0);
            assert(artist_text(artists) =~= artist_text(artists.take(k)) + artists.last().name@);
            artists.last().name@
        } else {
            let more = rest + seq![',', ' '] + artists.last().name@;
            assert(artist_text(artists) =~= artist_text(artists.take(k)) + more);
            if k == fewer.len() {
                assert(artists.take(k) =~= fewer);
                assert(artist_text(fewer).len() == (artist_text(fewer) + rest).len());
                assert(rest.len() == 0);
            }
            more
        }
    }
}

/// Every link covers the bytes of the name of the artist that it leads to, and
/// every separator those of a comma and a space; links and separators come in
/// turn, and there is a link for every artist.
pub proof fn law_links_cover_names(spans: Seq<ArtistSpan>, artists: Seq<Artist>, i: int)
    requires
        are_artist_spans(spans, artists),
        0 <= i < spans.len(),
    ensures
        spans.len() == 2 * artists.len() - 1,
        ({
            let bytes = encode_utf8(artist_text(artists));
            let span = spans[i];
            &&& span.start <= span.end <= bytes.len()
            &&& i % 2 == 0 ==> span.link == ArtistLink::Link(artists[i / 2].id) && bytes.subrange(
                span.start as int,
                span.end as int,
            ) == encode_utf8(artists[i / 2].name@)
            &&& i % 2 == 1 ==> span.link == ArtistLink::Separator && bytes.subrange(
                span.start as int,
                span.end as int,
            ) == encode_utf8(seq![',', ' '])
        }),
{
    let k = i / 2;
    let bytes = encode_utf8(artist_text(artists));
    let span = spans[i];
    let upto = artists.take(k + 1);
    assert(is_artist_span(span, artists, i));
    let rest = lemma_text_begins(artists, k + 1);
    lemma_encode_concat(artist_text(upto), rest);
    if i % 2 == 0 {
        assert(upto =~= artists.take(k).push(artists[k]));
        lemma_artist_text_step(artists.take(k), artists[k]);
        let name = artists[k].name@;
        if k == 0 {
            assert(artist_text(upto) =~= name);
            assert(bytes.subrange(0, byte_len(name) as int) =~= encode_utf8(name));
        } else {
            let head = artist_text(artists.take(k)) + seq![',', ' '];
            lemma_encode_concat(head, name);
            lemma_encode_concat(artist_text(artists.take(k)), seq![',', ' ']);
            lemma_separator_len();
            assert(upto.drop_last() =~= artists.take(k));
            assert(span.start == byte_len(head));
            assert(bytes.subrange(span.start as int, span.end as int) =~= encode_utf8(name));
        }
    } else {
        let tail = rest.skip(2);
        assert(rest =~= seq![',', ' '] + tail);
        lemma_encode_concat(seq![',', ' '], tail);
        lemma_separator_len();
        assert(bytes.subrange(span.start as int, span.end as int) =~= encode_utf8(
            seq![',', ' '],
        ));
    }
}

/// A pill shows the song that it is for: the icon while the pointer is over
/// that song, and else the song's place in the list, counted from one.
pub proof fn law_pill_shows_song(
    pill: SongPill,
    song: SongView,
    hovered: Option<Id>,
    artists: Map<Id, Artist>,
    index: int,
)
    requires
        is_song_pill(pill, song, hovered, artists, index),
        index >= 0,
    ensures
        pill.id == song.id,
        pill.title@ == song.title,
        pill.duration == song.duration,
        hovered == Some(song.id) ==> pill.is_hovered && pill.leading is PlayIcon,
        hovered != Some(song.id) ==> !pill.is_hovered && (pill.leading matches Leading::Number(n)
            && number_of(n@) == index + 1 && n@.len() > 0 && (n@[0] != '0')),
        pill.artist_names@ == artist_text(looked_up(song.artists, artists)),
        are_artist_spans(pill.artist_links@, looked_up(song.artists, artists)),
{
    law_decimal_reads_back((index + 1) as nat);
    if pill.leading is Number && pill.leading->Number_0@.len() == 1 {
        let digits = pill.leading->Number_0@;
        assert(number_of(digits.drop_last()) == 0);
    }
}

/// A song comes before another by its track number; one without a number comes
/// before all that have one.
pub open spec fn track_before(a: Option<u32>, b: Option<u32>) -> bool {
    match b {
        Some(y) => match a {
            Some(x) => x < y,
            None => true,
        },
        None => false,
    }
}

/// The list shows every song of the album that the collection has, once, and
/// by track number; songs of one number stand in the album's order.
pub proof fn law_songs_stand_by_track(
    pills: Seq<SongPill>,
    ids: Seq<Id>,
    hovered: Option<Id>,
    orchestra: Orchestra,
) -> (p: Seq<usize>)
    requires
        is_song_list(pills, ids, hovered, orchestra),
    ensures
        ({
            let songs = looked_up(ids, orchestra.collection.songs@);
            &&& pills.len() == songs.len()
            &&& p.len() == songs.len()
            &&& p.no_duplicates()
            &&& forall|i: int|
                0 <= i < p.len() ==> #[trigger] p[i] < songs.len() && is_song_pill(
                    pills[i],
                    songs[p[i] as int]@,
                    hovered,
                    orchestra.collection.artists@,
                    i,
                )
            &&& forall|i: int, j: int|
                #![trigger p[i], p[j]]
                0 <= i < j < p.len() ==> {
                    let (a, b) = (songs[p[i] as int].track, songs[p[j] as int].track);
                    !track_before(b, a) && (!track_before(a, b) ==> p[i] < p[j])
                }
        }),
{
    let songs = looked_up(ids, orchestra.collection.songs@);
    let p = choose|p: Seq<usize>| #[trigger]
        is_stable_sort(tracks(songs), ByTrack, p) && pills.len() == p.len() && (forall|i: int|
            0 <= i < pills.len() ==> is_song_pill(
                #[trigger] pills[i],
                songs[p[i] as int]@,
                hovered,
                orchestra.collection.artists@,
                i,
            ));
    law_stable_sort_rises(tracks(songs), ByTrack, p);
    assert forall|i: int| 0 <= i < p.len() implies #[trigger] p[i] < songs.len() && is_song_pill(
        pills[i],
        songs[p[i] as int]@,
        hovered,
        orchestra.collection.artists@,
        i,
    ) by {
        assert(p[i] < tracks(songs).len());
    }
    assert forall|i: int, j: int|
        #![trigger p[i], p[j]]
        0 <= i < j < p.len() implies {
        let (a, b) = (songs[p[i] as int].track, songs[p[j] as int].track);
        !track_before(b, a) && (!track_before(a, b) ==> p[i] < p[j])
    } by {
        assert(p[i] < songs.len() && p[j] < songs.len());
        assert(tracks(songs)[p[i] as int] == songs[p[i] as int].track);
        assert(tracks(songs)[p[j] as int] == songs[p[j] as int].track);
    }
    p
}

/// A year that is known is written in digits; no date, and the year zero, are
/// said to be unknown.
pub proof fn law_year_is_written(date: Option<ReleaseDate>)
    ensures
        date is None || date->0.year == 0 ==> release_text(date) == seq![
            'U', 'n', 'k', 'n', 'o', 'w', 'n', ' ', 'Y', 'e', 'a', 'r',
        ],
        date is Some && date->0.year > 0 ==> number_of(release_text(date)) == date->0.year
            && release_text(date)[0] != '0',
        date is Some && date->0.year < 0 ==> release_text(date)[0] == '-' && number_of(
            release_text(date).drop_first(),
        ) == -date->0.year,
{
    reveal_strlit("Unknown Year");
    assert("Unknown Year"@ =~= seq![
        'U', 'n', 'k', 'n', 'o', 'w', 'n', ' ', 'Y', 'e', 'a', 'r',
    ]);
    if date is Some && date->0.year != 0 {
        let n = date->0.year as int;
        law_signed_decimal_reads_back(n);
        if n > 0 {
            law_decimal_reads_back(n as nat);
            if signed_decimal(n).len() == 1 {
                assert(number_of(signed_decimal(n).drop_last()) == 0);
            }
        }
    }
}

/// A genre is shown, as it is written, unless it is nothing but white space.
pub proof fn law_blank_genres_are_left_out(genres: Seq<Seq<char>>, genre: Seq<char>)
    ensures
        shown_genres(Seq::<Seq<char>>::empty()).len() == 0,
        (forall|i: int| 0 <= i < genre.len() ==> is_white_space_code(#[trigger] genre[i] as int))
            ==> shown_genres(genres.push(genre)) == shown_genres(genres),
        !(forall|i: int| 0 <= i < genre.len() ==> is_white_space_code(#[trigger] genre[i] as int))
            ==> shown_genres(genres.push(genre)) == shown_genres(genres).push(genre),
{
    reveal(Seq::filter);
    law_blank_is_white(genre);
    assert(genres.push(genre).drop_last() =~= genres);
}

/// There is a page where the collection has the album, the cover that the album
/// names, or the one of number zero where it names none, and the artist that it
/// names.
pub proof fn law_page_needs_album_cover_artist(album_id: Id, orchestra: Orchestra)
    ensures
        ({
            let c = orchestra.collection;
            let album = c.albums@[album_id];
            has_page(album_id, orchestra) <==> {
                &&& c.albums@.contains_key(album_id)
                &&& album.cover is Some ==> c.covers@.contains_key(album.cover->0)
                &&& album.cover is None ==> c.covers@.contains_key(0)
                &&& album.artist is Some
                &&& c.artists@.contains_key(album.artist->0)
            }
        }),
{
}

/// The page shows the album of its state: its name, its artist's name, the
/// picture and the first colour of its cover, its year, genres and songs.
pub proof fn law_page_shows_album(page: AlbumPage, state: AlbumState, orchestra: Orchestra)
    requires
        is_album_page(page, state, orchestra),
    ensures
        ({
            let c = orchestra.collection;
            let album = c.albums@[state.album_id];
            let cover = c.covers@[if album.cover is Some {
                album.cover->0
            } else {
                0
            }];
            &&& page.title@ == album.name@
            &&& page.artist_name@ == c.artists@[album.artist->0].name@
            &&& page.cover_path@ == cover.path@
            &&& page.swatch is Some <==> cover.swatches@.len() > 0
            &&& page.swatch is Some ==> page.swatch->0 == cover.swatches@[0]
            &&& page.release_date@ == release_text(album.date)
            &&& texts(page.genres@) == shown_genres(texts(album.genres@))
            &&& is_song_list(page.songs@, album.songs@, state.hovered_song_id, orchestra)
        }),
{
}

// ---------------------------------------------------------------------------
// Messages
// ---------------------------------------------------------------------------

/// From the album page the album slides out and the other page fades in. To
/// the album page from the library the album slides in over a library that
/// stands still. All other changes of page are a fade.
pub proof fn law_pages_change(from: Page, to: Page)
    ensures
        from == Page::Album ==> transition_between(from, to) == (PageTransition::Asymmetric {
            enter: Motion::FadeIn,
            exit: Motion::SlideOutBottom,
        }),
        from == Page::Library && to == Page::Album ==> transition_between(from, to) == (
        PageTransition::Asymmetric { enter: Motion::SlideInBottom, exit: Motion::Stationary }),
        from == Page::Landing || (from == Page::Library && to != Page::Album)
            ==> transition_between(from, to) == PageTransition::Fade,
{
}

/// A collection that is ready is kept and leads to the library; the landing
/// page forgets its log and counts as indexing. Only the landing page hears
/// that indexing is needed, or of a file that is indexed.
pub proof fn law_indexer_messages(
    state: SupervisorView,
    shared: SharedOrchestra,
    file_path: String,
)
    ensures
        ({
            let after = state.after_orchestra(OrchestraMsg::Ready(shared));
            &&& after.orchestra == Some(shared)
            &&& after.current_page == Page::Library
            &&& after.landing.log is None
            &&& after.landing.is_indexing
            &&& after.landing.error == state.landing.error
            &&& after.landing.music_dir == state.landing.music_dir
            &&& after.library == state.library
            &&& after.album_page == state.album_page
            &&& after.progress == state.progress
            &&& after.theme == state.theme
        }),
        ({
            let after = state.after_orchestra(OrchestraMsg::NeedIndexing);
            &&& !after.landing.is_indexing
            &&& after == (SupervisorView {
                landing: LandingView {
                    is_indexing: after.landing.is_indexing,
                    ..state.landing
                },
                ..state
            })
        }),
        ({
            let after = state.after_orchestra(OrchestraMsg::Indexing(file_path));
            &&& after.landing.log == Some(seq!['+', ' '] + file_path@)
            &&& after == (SupervisorView {
                landing: LandingView { log: after.landing.log, ..state.landing },
                ..state
            })
        }),
{
    reveal_strlit("+ ");
    assert("+ "@ =~= seq!['+', ' ']);
}

/// Indexing starts where the folder is a directory, which takes an error back;
/// otherwise there is an error and nothing starts. A folder that was picked is
/// taken, and takes an error back.
pub proof fn law_landing_messages(state: SupervisorView, folder: String)
    ensures
        ({
            let after = state.after_landing(LandingMsg::StartIndexing, true);
            &&& after.landing.is_indexing
            &&& after.landing.error is None
            &&& after == (SupervisorView {
                landing: LandingView { is_indexing: true, error: None, ..state.landing },
                ..state
            })
        }),
        ({
            let after = state.after_landing(LandingMsg::StartIndexing, false);
            &&& after.landing.error == Some("Directory does not exist or is invalid"@)
            &&& after == (SupervisorView {
                landing: LandingView { error: after.landing.error, ..state.landing },
                ..state
            })
        }),
        forall|exists_dir: bool|
            {
                let after = #[trigger] state.after_landing(
                    LandingMsg::FolderPicked(folder),
                    exists_dir,
                );
                &&& after.landing.music_dir == folder@
                &&& after.landing.error is None
                &&& after == (SupervisorView {
                    landing: LandingView { music_dir: folder@, error: None, ..state.landing },
                    ..state
                })
            },
        forall|exists_dir: bool| #[trigger]
            state.after_landing(LandingMsg::PickFolder, exists_dir) == state,
{
}

/// A message of the library page sets the one thing that it names.
pub proof fn law_library_messages(
    state: SupervisorView,
    id: Id,
    tag: FilterTag,
    order: Order,
    metric: SortMetric,
    offset: usize,
)
    ensures
        ({
            let after = state.after_library(LibraryMsg::HoverSong(id));
            &&& after.library.hovered_song == Some(id)
            &&& after == (SupervisorView {
                library: LibraryView {
                    hovered_song: after.library.hovered_song,
                    ..state.library
                },
                ..state
            })
        }),
        ({
            let filter = state.library.active_filter;
            &&& state.after_library(LibraryMsg::SetFilterTag(tag)).library.active_filter == (
            ActiveFilter { tag, order: filter.order, metric: filter.metric })
            &&& state.after_library(LibraryMsg::SetFilterOrder(order)).library.active_filter == (
            ActiveFilter { tag: filter.tag, order, metric: filter.metric })
            &&& state.after_library(LibraryMsg::SetSortMetric(metric)).library.active_filter == (
            ActiveFilter { tag: filter.tag, order: filter.order, metric })
        }),
        forall|msg: LibraryMsg|
            msg is SetFilterTag || msg is SetFilterOrder || msg is SetSortMetric ==> {
                let after = #[trigger] state.after_library(msg);
                after == (SupervisorView {
                    library: LibraryView {
                        active_filter: after.library.active_filter,
                        ..state.library
                    },
                    ..state
                })
            },
        ({
            let after = state.after_library(LibraryMsg::ClickAlbum(id));
            &&& after.current_page == Page::Album
            &&& after.album_page.album_id == id
            &&& after.album_page.hovered_song_id is None
            &&& after == (SupervisorView {
                current_page: after.current_page,
                album_page: after.album_page,
                ..state
            })
        }),
        ({
            let after = state.after_library(LibraryMsg::SetListRunOffset(offset));
            &&& after.library.list_run_offset == offset
            &&& after == (SupervisorView {
                library: LibraryView { list_run_offset: offset, ..state.library },
                ..state
            })
        }),
        state.after_library(LibraryMsg::ClickArtist(id)) == state,
        state.after_library(LibraryMsg::Play(id)) == state,
{
}

/// A message of the album page leads back to the library, or says which song
/// the pointer is over.
pub proof fn law_album_messages(state: SupervisorView, id: Id)
    ensures
        ({
            let after = state.after_album(AlbumMsg::GotoLibrary);
            after.current_page == Page::Library && after == (SupervisorView {
                current_page: Page::Library,
                ..state
            })
        }),
        ({
            let after = state.after_album(AlbumMsg::HoverSong(id));
            &&& after.album_page.hovered_song_id == Some(id)
            &&& after.album_page.album_id == state.album_page.album_id
            &&& after == (SupervisorView { album_page: after.album_page, ..state })
        }),
        ({
            let after = state.after_album(AlbumMsg::HoverSongQuit);
            &&& after.album_page.hovered_song_id is None
            &&& after.album_page.album_id == state.album_page.album_id
            &&& after == (SupervisorView { album_page: after.album_page, ..state })
        }),
        state.after_album(AlbumMsg::ClickArtist(id)) == state,
{
}

/// A message is for the page that it comes from; the player's tells how far the
/// song is.
pub proof fn law_messages_reach_their_page(
    state: SupervisorView,
    music_dir_exists: bool,
    orchestra_msg: OrchestraMsg,
    landing_msg: LandingMsg,
    library_msg: LibraryMsg,
    album_msg: AlbumMsg,
    progress: crate::time::Duration,
)
    ensures
        state.after(AppMsg::Orchestra(orchestra_msg), music_dir_exists) == state.after_orchestra(
            orchestra_msg,
        ),
        state.after(AppMsg::Landing(landing_msg), music_dir_exists) == state.after_landing(
            landing_msg,
            music_dir_exists,
        ),
        state.after(AppMsg::Library(library_msg), music_dir_exists) == state.after_library(
            library_msg,
        ),
        state.after(AppMsg::AlbumPage(album_msg), music_dir_exists) == state.after_album(
            album_msg,
        ),
        state.after(AppMsg::Player(PlayerMsg::Tick(progress)), music_dir_exists) == (
        SupervisorView { progress, ..state }),
{
}

/// The list of songs is sorted anew when a collection comes and when the filter
/// of a list of songs is set, by the filter as it is then; otherwise, and
/// without a collection, it stays as it was. It is all that sorting changes.
pub proof fn law_list_is_sorted_when_asked(
    state: SupervisorView,
    msg: AppMsg,
    music_dir_exists: bool,
    snapshot: Option<MusicCollection>,
    after: SupervisorView,
)
    requires
        state.is_updated(msg, music_dir_exists, snapshot, after),
    ensures
        ({
            let plain = state.after(msg, music_dir_exists);
            let comes = msg matches AppMsg::Orchestra(OrchestraMsg::Ready(_));
            let filter_set = match msg {
                AppMsg::Library(LibraryMsg::SetFilterTag(_)) => true,
                AppMsg::Library(LibraryMsg::SetFilterOrder(_)) => true,
                AppMsg::Library(LibraryMsg::SetSortMetric(_)) => true,
                _ => false,
            };
            let sorts = comes || (filter_set && plain.library.active_filter.tag
                == FilterTag::Songs);
            &&& after == (SupervisorView {
                library: LibraryView {
                    sorted_songs: after.library.sorted_songs,
                    ..plain.library
                },
                ..plain
            })
            &&& sorts && snapshot is Some ==> is_sorted_collection(
                snapshot->0,
                plain.library.active_filter.metric,
                plain.library.active_filter.order,
                after.library.sorted_songs,
            )
            &&& !sorts || snapshot is None ==> after.library.sorted_songs
                == state.library.sorted_songs
        }),
{
}

/// What messages ask for: the player is told of a collection that is ready, and
/// to play a song it is told to clear its queue, to queue the song and to play;
/// the indexer is told to index the folder, if it is a directory, and to have
/// one picked; an artist that was clicked is shown as the collection has them;
/// nothing else is asked for.
pub proof fn law_messages_ask(
    state: SupervisorView,
    music_dir_exists: bool,
    snapshot: Option<MusicCollection>,
    shared: SharedOrchestra,
    id: Id,
)
    ensures
        effects_of(
            state,
            AppMsg::Orchestra(OrchestraMsg::Ready(shared)),
            music_dir_exists,
            snapshot,
        ) == seq![EffectView::Player(GlobalPlayerCmd::SetOrchestra(shared))],
        effects_of(state, AppMsg::Library(LibraryMsg::Play(id)), music_dir_exists, snapshot)
            == seq![
            EffectView::Player(GlobalPlayerCmd::ClearQueue),
            EffectView::Player(GlobalPlayerCmd::Enqueue(id)),
            EffectView::Player(GlobalPlayerCmd::Play),
        ],
        effects_of(state, AppMsg::Landing(LandingMsg::StartIndexing), true, snapshot) == seq![
            EffectView::StartIndexing(state.landing.music_dir),
        ],
        effects_of(state, AppMsg::Landing(LandingMsg::StartIndexing), false, snapshot).len() == 0,
        effects_of(state, AppMsg::Landing(LandingMsg::PickFolder), music_dir_exists, snapshot)
            == seq![EffectView::PickFolder],
        ({
            let artists = snapshot->0.artists@;
            let shown = seq![
                EffectView::ShowArtist(
                    if artists.contains_key(id) {
                        Some((artists[id].id, artists[id].name@))
                    } else {
                        None
                    },
                ),
            ];
            &&& effects_of(
                state,
                AppMsg::Library(LibraryMsg::ClickArtist(id)),
                music_dir_exists,
                snapshot,
            ) == shown
            &&& effects_of(
                state,
                AppMsg::AlbumPage(AlbumMsg::ClickArtist(id)),
                music_dir_exists,
                snapshot,
            ) == shown
        }),
        forall|msg: AppMsg|
            match msg {
                AppMsg::Orchestra(m) => !(m is Ready),
                AppMsg::Landing(m) => m is FolderPicked,
                AppMsg::Library(m) => !(m is Play) && !(m is ClickArtist),
                AppMsg::AlbumPage(m) => !(m is ClickArtist),
                AppMsg::Player(_) => true,
            } ==> (#[trigger] effects_of(state, msg, music_dir_exists, snapshot)).len() == 0,
{
}

/// A message is taken with the collection that it brings, and else with the one
/// that is there.
pub proof fn law_storage_is_of_message(state: SupervisorView, msg: AppMsg, shared: SharedOrchestra)
    ensures
        storage_read(state, AppMsg::Orchestra(OrchestraMsg::Ready(shared))) == Some(shared),
        !(msg matches AppMsg::Orchestra(OrchestraMsg::Ready(_))) ==> storage_read(state, msg)
            == state.orchestra,
        asked_artist(msg) is Some <==> (msg matches AppMsg::Library(LibraryMsg::ClickArtist(_))) || (
        msg matches AppMsg::AlbumPage(AlbumMsg::ClickArtist(_))),
{
}

} // verus!
