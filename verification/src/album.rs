//! The album page: what it shows of an album, and what its events mean.

use crate::shared::{snapshots, SharedOrchestra};
use crate::sort::{is_stable_sort, stable_sort, SortOrder};
use crate::text::{blank, decimal, decimal_text, is_blank, signed_decimal, signed_decimal_text};
use crate::time::Duration;
use crate::track::{Album, Artist, Id, Orchestra, ReleaseDate, Song, SongView, Swatch};
use vstd::prelude::*;
use vstd::string::*;
use vstd::utf8::*;

verus! {

#[derive(Clone, Copy, Debug, PartialEq, Eq, Structural)]
pub enum AlbumMsg {
    GotoLibrary,
    ClickArtist(Id),
    HoverSong(Id),
    HoverSongQuit,
}

#[derive(Clone, Copy, Debug, PartialEq, Eq, Structural)]
pub struct AlbumState {
    pub album_id: Id,
    pub hovered_song_id: Option<Id>,
}

impl Default for AlbumState {
    fn default() -> (state: AlbumState)
        ensures
            state.album_id == 0,
            state.hovered_song_id is None,
    {
        AlbumState { album_id: 0, hovered_song_id: None }
    }
}

/// The entries of a map under these keys, in their order; keys that it does
/// not have are passed over.
pub open spec fn looked_up<V>(ids: Seq<Id>, map: Map<Id, V>) -> Seq<V> {
    ids.filter_map(
        |id: Id|
            if map.contains_key(id) {
                Some(map[id])
            } else {
                None
            },
    )
}

pub proof fn lemma_looked_up_step<V>(ids: Seq<Id>, map: Map<Id, V>, i: int)
    requires
        0 <= i < ids.len(),
    ensures
        looked_up(ids.take(i + 1), map) == if map.contains_key(ids[i]) {
            looked_up(ids.take(i), map).push(map[ids[i]])
        } else {
            looked_up(ids.take(i), map)
        },
{
    let f = |id: Id|
        if map.contains_key(id) {
            Some(map[id])
        } else {
            None
        };
    ids.lemma_filter_map_take_succ(f, i);
    assert(looked_up(ids.take(i + 1), map) =~= if map.contains_key(ids[i]) {
        looked_up(ids.take(i), map).push(map[ids[i]])
    } else {
        looked_up(ids.take(i), map)
    });
}

// ---------------------------------------------------------------------------
// Artist links
// ---------------------------------------------------------------------------

/// What a stretch of the artists' names stands for.
#[derive(Clone, Copy, Debug, PartialEq, Eq, Structural)]
pub enum ArtistLink {
    Link(Id),
    Separator,
}

/// A stretch of text, in bytes.
#[derive(Clone, Copy, Debug, PartialEq, Eq, Structural)]
pub struct ArtistSpan {
    pub start: usize,
    pub end: usize,
    pub link: ArtistLink,
}

/// The length of a text in UTF-8.
pub open spec fn byte_len(text: Seq<char>) -> nat {
    encode_utf8(text).len()
}

/// The names of the artists, with a comma and a space between two of them.
pub open spec fn artist_text(artists: Seq<Artist>) -> Seq<char>
    decreases artists.len(),
{
    if artists.len() == 0 {
        Seq::empty()
    } else if artists.len() == 1 {
        artists[0].name@
    } else {
        artist_text(artists.drop_last()) + seq![',', ' '] + artists.last().name@
    }
}

/// Where the part of the text begins that the last artist adds.
pub open spec fn last_name_start(artists: Seq<Artist>) -> nat {
    if artists.len() <= 1 {
        0
    } else {
        byte_len(artist_text(artists.drop_last())) + 2
    }
}

/// The stretch at `i`: names and separators in turn.
pub open spec fn is_artist_span(span: ArtistSpan, artists: Seq<Artist>, i: int) -> bool {
    let upto = artists.take(i / 2 + 1);
    if i % 2 == 0 {
        &&& span.link == ArtistLink::Link(artists[i / 2].id)
        &&& span.start == last_name_start(upto)
        &&& span.end == last_name_start(upto) + byte_len(artists[i / 2].name@)
    } else {
        &&& span.link == ArtistLink::Separator
        &&& span.start == byte_len(artist_text(upto))
        &&& span.end == byte_len(artist_text(upto)) + 2
    }
}

/// One stretch for every name, and one for every separator between two names.
pub open spec fn are_artist_spans(spans: Seq<ArtistSpan>, artists: Seq<Artist>) -> bool {
    &&& spans.len() == if artists.len() == 0 {
        0
    } else {
        2 * artists.len() - 1
    }
    &&& forall|i: int| 0 <= i < spans.len() ==> is_artist_span(#[trigger] spans[i], artists, i)
}

pub proof fn lemma_encode_concat(a: Seq<char>, b: Seq<char>)
    ensures
        encode_utf8(a + b) == encode_utf8(a) + encode_utf8(b),
    decreases a.len(),
{
    if a.len() == 0 {
        assert(a + b =~= b);
        assert(encode_utf8(a) + encode_utf8(b) =~= encode_utf8(b));
    } else {
        lemma_encode_concat(a.drop_first(), b);
        assert((a + b).drop_first() =~= a.drop_first() + b);
        assert((a + b)[0] == a[0]);
        assert(encode_utf8(a + b) =~= encode_utf8(a) + encode_utf8(b));
    }
}

pub proof fn lemma_separator_len()
    ensures
        byte_len(seq![',', ' ']) == 2,
{
    let s = seq![',', ' '];
    assert(is_ascii_chars(s));
    is_ascii_chars_encode_utf8(s);
}

/// The text of one more artist.
pub proof fn lemma_artist_text_step(artists: Seq<Artist>, artist: Artist)
    ensures
        artist_text(artists.push(artist)) == if artists.len() == 0 {
            artist.name@
        } else {
            artist_text(artists) + seq![',', ' '] + artist.name@
        },
        byte_len(artist_text(artists.push(artist))) == last_name_start(artists.push(artist))
            + byte_len(artist.name@),
{
    let all = artists.push(artist);
    assert(all.drop_last() =~= artists);
    if artists.len() > 0 {
        lemma_encode_concat(artist_text(artists) + seq![',', ' '], artist.name@);
        lemma_encode_concat(artist_text(artists), seq![',', ' ']);
        lemma_separator_len();
    }
}

/// The stretches of fewer artists are those of more.
proof fn lemma_span_kept(span: ArtistSpan, artists: Seq<Artist>, artist: Artist, i: int)
    requires
        0 <= i < 2 * artists.len(),
        is_artist_span(span, artists, i),
    ensures
        is_artist_span(span, artists.push(artist), i),
{
    assert(artists.push(artist).take(i / 2 + 1) =~= artists.take(i / 2 + 1));
    assert(artists.push(artist)[i / 2] == artists[i / 2]);
}

fn text_len(text: &String) -> (len: usize)
    ensures
        len == byte_len(text@),
{
    text.as_str().as_bytes().len()
}

/// The names of a song's artists as one text, and the stretches of it that
/// link to them.
pub fn get_artist_links(song: &Song, orchestra: &Orchestra) -> (links: (String, Vec<ArtistSpan>))
    ensures
        links.0@ == artist_text(looked_up(song.artists@, orchestra.collection.artists@)),
        are_artist_spans(
            links.1@,
            looked_up(song.artists@, orchestra.collection.artists@),
        ),
{
    let ghost map = orchestra.collection.artists@;
    let mut text = String::new();
    let mut spans: Vec<ArtistSpan> = Vec::new();
    let mut i: usize = 0;
    let mut first: bool = true;
    assert(looked_up(song.artists@.take(0), map) =~= Seq::empty());
    while i < song.artists.len()
        invariant
            i <= song.artists@.len(),
            map == orchestra.collection.artists@,
            first == (looked_up(song.artists@.take(i as int), map).len() == 0),
            text@ == artist_text(looked_up(song.artists@.take(i as int), map)),
            are_artist_spans(spans@, looked_up(song.artists@.take(i as int), map)),
        decreases song.artists@.len() - i,
    {
        let ghost done: Seq<Artist> = looked_up(song.artists@.take(i as int), map);
        proof {
            lemma_looked_up_step(song.artists@, map, i as int);
        }
        if let Some(artist) = orchestra.get_artist(&song.artists[i]) {
            let ghost more: Seq<Artist> = done.push(*artist);
            let ghost old_spans: Seq<ArtistSpan> = spans@;
            proof {
                lemma_artist_text_step(done, *artist);
                assert(more.drop_last() =~= done);
                assert(more.take(done.len() as int) =~= done);
                assert(more.take(done.len() as int + 1) =~= more);
                assert forall|j: int| 0 <= j < old_spans.len() implies is_artist_span(
                    #[trigger] old_spans[j],
                    more,
                    j,
                ) by {
                    lemma_span_kept(old_spans[j], done, *artist, j);
                }
            }
            if !first {
                let start: usize = text_len(&text);
                text.append(", ");
                let end: usize = text_len(&text);
                spans.push(ArtistSpan { start, end, link: ArtistLink::Separator });
                proof {
                    reveal_strlit(", ");
                    assert(", "@ =~= seq![',', ' ']);
                    lemma_encode_concat(artist_text(done), seq![',', ' ']);
                    lemma_separator_len();
                    let j = 2 * done.len() - 1;
                    assert(j / 2 + 1 == done.len());
                    assert(j % 2 == 1);
                    assert(is_artist_span(spans@[j], more, j));
                }
            } else {
                assert(encode_utf8(text@).len() == 0);
            }
            let start: usize = text_len(&text);
            text.append(artist.name.as_str());
            let end: usize = text_len(&text);
            spans.push(ArtistSpan { start, end, link: ArtistLink::Link(artist.id) });
            proof {
                assert(text@ =~= artist_text(more));
                let j = 2 * done.len() as int;
                assert(j / 2 == done.len());
                assert(j % 2 == 0);
                assert(more[done.len() as int] == *artist);
                assert(is_artist_span(spans@[j], more, j));
                assert forall|l: int| 0 <= l < spans@.len() implies is_artist_span(
                    #[trigger] spans@[l],
                    more,
                    l,
                ) by {
                    if l < old_spans.len() {
                        assert(spans@[l] == old_spans[l]);
                    }
                }
            }
            first = false;
        }
        i = i + 1;
    }
    assert(song.artists@.take(i as int) =~= song.artists@);
    (text, spans)
}

/// The stretches cover the text from its first byte to its last, each
/// beginning where the one before ends.
pub proof fn law_spans_tile_text(spans: Seq<ArtistSpan>, artists: Seq<Artist>)
    requires
        are_artist_spans(spans, artists),
        artists.len() > 0,
    ensures
        spans[0].start == 0,
        forall|i: int|
            #![trigger spans[i]]
            0 <= i < spans.len() - 1 ==> spans[i].end == spans[i + 1].start,
        spans.last().end == byte_len(artist_text(artists)),
{
    assert(is_artist_span(spans[0], artists, 0));
    assert forall|i: int|
        #![trigger spans[i]]
        0 <= i < spans.len() - 1 implies spans[i].end == spans[i + 1].start by {
        assert(is_artist_span(spans[i], artists, i));
        assert(is_artist_span(spans[i + 1], artists, i + 1));
        let k = i / 2;
        if i % 2 == 0 {
            assert((i + 1) / 2 == k);
            assert(artists.take(k + 1) =~= artists.take(k).push(artists[k]));
            lemma_artist_text_step(artists.take(k), artists[k]);
        } else {
            assert((i + 1) / 2 == k + 1);
            assert(artists.take(k + 2).drop_last() =~= artists.take(k + 1));
        }
    }
    let last = spans.len() - 1;
    assert(is_artist_span(spans[last], artists, last));
    let k = artists.len() - 1;
    assert(last / 2 == k);
    assert(artists.take(k + 1) =~= artists);
    assert(artists =~= artists.take(k).push(artists[k]));
    lemma_artist_text_step(artists.take(k), artists[k]);
}

// ---------------------------------------------------------------------------
// Songs
// ---------------------------------------------------------------------------

/// What stands before a song's title.
#[derive(Debug)]
pub enum Leading {
    /// The icon that plays the song, while the pointer is over it.
    PlayIcon,
    /// The song's place in the list.
    Number(String),
}

/// One song in the list.
#[derive(Debug)]
pub struct SongPill {
    pub id: Id,
    pub is_hovered: bool,
    pub leading: Leading,
    pub title: String,
    pub artist_names: String,
    pub artist_links: Vec<ArtistSpan>,
    pub duration: Duration,
}

/// What the list shows of a song at `index`, with the pointer over `hovered`.
pub open spec fn is_song_pill(
    pill: SongPill,
    song: SongView,
    hovered: Option<Id>,
    artists: Map<Id, Artist>,
    index: int,
) -> bool {
    let credited = looked_up(song.artists, artists);
    &&& pill.id == song.id
    &&& pill.is_hovered == (hovered == Some(song.id))
    &&& match pill.leading {
        Leading::PlayIcon => pill.is_hovered,
        Leading::Number(text) => !pill.is_hovered && text@ == decimal((index + 1) as nat),
    }
    &&& pill.title@ == song.title
    &&& pill.artist_names@ == artist_text(credited)
    &&& are_artist_spans(pill.artist_links@, credited)
    &&& pill.duration == song.duration
}

pub fn song_pill(song: &Song, hsid: Option<Id>, orchestra: &Orchestra, index: usize) -> (pill:
    SongPill)
    requires
        index < usize::MAX,
    ensures
        is_song_pill(pill, song@, hsid, orchestra.collection.artists@, index as int),
{
    let is_hovered = match hsid {
        Some(id) => id == song.id,
        None => false,
    };
    let (artist_names, artist_links) = get_artist_links(song, orchestra);
    let leading = if is_hovered {
        Leading::PlayIcon
    } else {
        Leading::Number(decimal_text((index + 1) as u64))
    };
    SongPill {
        id: song.id,
        is_hovered,
        leading,
        title: song.title.clone(),
        artist_names,
        artist_links,
        duration: song.duration,
    }
}

/// The order of track numbers: a song without one comes first.
#[derive(Clone, Copy, Debug, PartialEq, Eq, Structural)]
pub struct ByTrack;

impl SortOrder<Option<u32>> for ByTrack {
    open spec fn le(&self, a: Option<u32>, b: Option<u32>) -> bool {
        match (a, b) {
            (None, _) => true,
            (Some(_), None) => false,
            (Some(x), Some(y)) => x <= y,
        }
    }

    proof fn total(&self, a: Option<u32>, b: Option<u32>) {
    }

    proof fn transitive(&self, a: Option<u32>, b: Option<u32>, c: Option<u32>) {
    }

    fn ranks_before(&self, a: &Option<u32>, b: &Option<u32>) -> (before: bool) {
        match (*a, *b) {
            (None, _) => true,
            (Some(_), None) => false,
            (Some(x), Some(y)) => x <= y,
        }
    }
}

/// The track numbers of songs.
pub open spec fn tracks(songs: Seq<Song>) -> Seq<Option<u32>> {
    songs.map_values(|s: Song| s.track)
}

/// The songs of an album that the collection has, by track number, each with
/// what the list shows of it.
pub open spec fn is_song_list(
    pills: Seq<SongPill>,
    ids: Seq<Id>,
    hovered: Option<Id>,
    orchestra: Orchestra,
) -> bool {
    let songs = looked_up(ids, orchestra.collection.songs@);
    exists|positions: Seq<usize>| #[trigger]
        is_stable_sort(tracks(songs), ByTrack, positions) && pills.len() == positions.len() && (
        forall|i: int|
            0 <= i < pills.len() ==> is_song_pill(
                #[trigger] pills[i],
                songs[positions[i] as int]@,
                hovered,
                orchestra.collection.artists@,
                i,
            ))
}

/// The list of an album's songs, by track number; songs of one number stay in
/// the album's order.
pub fn songs_section(state: &AlbumState, orchestra: &Orchestra, album: &Album) -> (pills: Vec<
    SongPill,
>)
    ensures
        is_song_list(pills@, album.songs@, state.hovered_song_id, *orchestra),
{
    let ghost map = orchestra.collection.songs@;
    let ghost all = looked_up(album.songs@, map);
    let mut found: Vec<&Song> = Vec::new();
    let mut keys: Vec<Option<u32>> = Vec::new();
    let mut i: usize = 0;
    assert(looked_up(album.songs@.take(0), map) =~= Seq::empty());
    while i < album.songs.len()
        invariant
            i <= album.songs@.len(),
            map == orchestra.collection.songs@,
            found@.len() == looked_up(album.songs@.take(i as int), map).len(),
            forall|j: int|
                0 <= j < found@.len() ==> *(#[trigger] found@[j]) == looked_up(
                    album.songs@.take(i as int),
                    map,
                )[j],
            keys@ == tracks(looked_up(album.songs@.take(i as int), map)),
        decreases album.songs@.len() - i,
    {
        proof {
            lemma_looked_up_step(album.songs@, map, i as int);
        }
        if let Some(song) = orchestra.get_song(&album.songs[i]) {
            let ghost done: Seq<Song> = looked_up(album.songs@.take(i as int), map);
            found.push(song);
            keys.push(song.track);
            assert(tracks(done.push(*song)) =~= tracks(done).push(song.track));
        }
        i = i + 1;
    }
    assert(album.songs@.take(i as int) =~= album.songs@);
    let positions = stable_sort(&keys, &ByTrack);
    let mut pills: Vec<SongPill> = Vec::new();
    let mut k: usize = 0;
    while k < positions.len()
        invariant
            k <= positions@.len(),
            positions@.len() == found@.len() == all.len(),
            forall|j: int| 0 <= j < found@.len() ==> *(#[trigger] found@[j]) == all[j],
            forall|j: int| 0 <= j < positions@.len() ==> #[trigger] positions@[j] < found@.len(),
            pills@.len() == k,
            forall|j: int|
                0 <= j < k ==> is_song_pill(
                    #[trigger] pills@[j],
                    all[positions@[j] as int]@,
                    state.hovered_song_id,
                    orchestra.collection.artists@,
                    j,
                ),
        decreases positions@.len() - k,
    {
        assert(positions@[k as int] < found@.len());
        let pill = song_pill(found[positions[k]], state.hovered_song_id, orchestra, k);
        pills.push(pill);
        k = k + 1;
    }
    assert(is_stable_sort(tracks(all), ByTrack, positions@));
    pills
}

// ---------------------------------------------------------------------------
// The page
// ---------------------------------------------------------------------------

/// Everything that the page shows.
#[derive(Debug)]
pub struct AlbumPage {
    pub title: String,
    pub artist_name: String,
    pub release_date: String,
    pub genres: Vec<String>,
    pub cover_path: String,
    /// The colour that the page is drawn in; the theme's own without one.
    pub swatch: Option<Swatch>,
    pub songs: Vec<SongPill>,
}

/// The year of a release, or that it is not known.
pub open spec fn release_text(date: Option<ReleaseDate>) -> Seq<char> {
    match date {
        Some(d) => if d.year != 0 {
            signed_decimal(d.year as int)
        } else {
            "Unknown Year"@
        },
        None => "Unknown Year"@,
    }
}

/// The contents of a list of texts.
pub open spec fn texts(list: Seq<String>) -> Seq<Seq<char>> {
    list.map_values(|s: String| s@)
}

/// The genres that have something written in them.
pub open spec fn shown_genres(genres: Seq<Seq<char>>) -> Seq<Seq<char>> {
    genres.filter(|g: Seq<char>| !is_blank(g))
}

/// Which cover an album has.
pub open spec fn cover_of(album: Album) -> Id {
    match album.cover {
        Some(id) => id,
        None => 0,
    }
}

/// The collection has the album that the page is about, its cover and its
/// artist.
pub open spec fn has_page(album_id: Id, orchestra: Orchestra) -> bool {
    let album = orchestra.collection.albums@[album_id];
    &&& orchestra.collection.albums@.contains_key(album_id)
    &&& orchestra.collection.covers@.contains_key(cover_of(album))
    &&& album.artist is Some
    &&& orchestra.collection.artists@.contains_key(album.artist->0)
}

/// What the page shows.
pub open spec fn is_album_page(page: AlbumPage, state: AlbumState, orchestra: Orchestra) -> bool {
    let album = orchestra.collection.albums@[state.album_id];
    let cover = orchestra.collection.covers@[cover_of(album)];
    &&& page.title@ == album.name@
    &&& page.artist_name@ == orchestra.collection.artists@[album.artist->0].name@
    &&& page.release_date@ == release_text(album.date)
    &&& texts(page.genres@) == shown_genres(texts(album.genres@))
    &&& page.cover_path@ == cover.path@
    &&& page.swatch == if cover.swatches@.len() > 0 {
        Some(cover.swatches@[0])
    } else {
        None
    }
    &&& is_song_list(page.songs@, album.songs@, state.hovered_song_id, orchestra)
}

fn release_date(date: Option<ReleaseDate>) -> (text: String)
    ensures
        text@ == release_text(date),
{
    match date {
        Some(d) => if d.year != 0 {
            signed_decimal_text(d.year)
        } else {
            "Unknown Year".to_owned()
        },
        None => "Unknown Year".to_owned(),
    }
}

fn genres_shown(genres: &Vec<String>) -> (shown: Vec<String>)
    ensures
        texts(shown@) == shown_genres(texts(genres@)),
{
    let mut shown: Vec<String> = Vec::new();
    let mut i: usize = 0;
    let ghost all: Seq<Seq<char>> = texts(genres@);
    proof {
        reveal(Seq::filter);
        assert(texts(shown@) =~= shown_genres(all.take(0)));
    }
    while i < genres.len()
        invariant
            i <= genres@.len(),
            all == texts(genres@),
            texts(shown@) == shown_genres(all.take(i as int)),
        decreases genres@.len() - i,
    {
        let ghost before: Seq<String> = shown@;
        proof {
            reveal(Seq::filter);
            assert(all.take(i + 1).drop_last() =~= all.take(i as int));
            assert(all.take(i + 1).last() == genres@[i as int]@);
        }
        if !blank(genres[i].as_str()) {
            let genre = genres[i].clone();
            shown.push(genre);
            assert(texts(shown@) =~= texts(before).push(genre@));
        }
        i = i + 1;
    }
    assert(all.take(i as int) =~= all);
    shown
}

/// The page of the album in `state`.
pub fn render(state: &AlbumState, orchestra: &Orchestra) -> (page: AlbumPage)
    requires
        has_page(state.album_id, *orchestra),
    ensures
        is_album_page(page, *state, *orchestra),
{
    let album = orchestra.get_album(&state.album_id).unwrap();
    let cover_id: Id = match album.cover {
        Some(id) => id,
        None => 0,
    };
    let cover = orchestra.get_cover(&cover_id).unwrap();
    let artist_id: Id = album.artist.unwrap();
    let artist = orchestra.get_artist(&artist_id).unwrap();
    let swatch = if cover.swatches.len() > 0 {
        Some(cover.swatches[0])
    } else {
        None
    };
    AlbumPage {
        title: album.name.clone(),
        artist_name: artist.name.clone(),
        release_date: release_date(album.date),
        genres: genres_shown(&album.genres),
        cover_path: cover.path.clone(),
        swatch,
        songs: songs_section(state, orchestra, album),
    }
}

/// What `page` is, where the collection was `orchestra`.
pub open spec fn is_page_of(page: Option<AlbumPage>, state: AlbumState, orchestra: Orchestra) -> bool {
    match page {
        Some(p) => has_page(state.album_id, orchestra) && is_album_page(p, state, orchestra),
        None => !has_page(state.album_id, orchestra),
    }
}

/// The page of the album in `state`, where the collection has what it takes.
pub fn render_if_complete(state: &AlbumState, orchestra: &Orchestra) -> (page: Option<AlbumPage>)
    ensures
        is_page_of(page, *state, *orchestra),
{
    if let Some(album) = orchestra.get_album(&state.album_id) {
        let cover_id: Id = match album.cover {
            Some(id) => id,
            None => 0,
        };
        if let Some(artist_id) = album.artist {
            if orchestra.get_cover(&cover_id).is_some() && orchestra.get_artist(
                &artist_id,
            ).is_some() {
                return Some(render(state, orchestra));
            }
        }
    }
    None
}

/// The page of the album in `state`, of the collection as it is at the moment.
pub fn render_latest(state: &AlbumState, shared: &SharedOrchestra) -> (page: Option<AlbumPage>)
    ensures
        exists|orchestra: Orchestra|
            snapshots(*shared).contains(orchestra) && #[trigger] is_page_of(
                page,
                *state,
                orchestra,
            ),
{
    let orchestra = shared.load();
    let page = render_if_complete(state, &orchestra);
    assert(is_page_of(page, *state, *orchestra));
    page
}

// ---------------------------------------------------------------------------
// Events
// ---------------------------------------------------------------------------

/// What a click on a stretch of the artists' names means.
pub fn span_message(link: ArtistLink) -> (msg: Option<AlbumMsg>)
    ensures
        msg == match link {
            ArtistLink::Separator => None,
            ArtistLink::Link(id) => Some(AlbumMsg::ClickArtist(id)),
        },
{
    match link {
        ArtistLink::Separator => None,
        ArtistLink::Link(id) => Some(AlbumMsg::ClickArtist(id)),
    }
}

/// What the pointer means that enters a song, or leaves it.
pub fn hover_message(id: Id, entered: bool) -> (msg: AlbumMsg)
    ensures
        msg == if entered {
            AlbumMsg::HoverSong(id)
        } else {
            AlbumMsg::HoverSongQuit
        },
{
    if entered {
        AlbumMsg::HoverSong(id)
    } else {
        AlbumMsg::HoverSongQuit
    }
}

/// What a click on the chevron means: it leads back to the library.
pub fn chevron_message() -> (msg: AlbumMsg)
    ensures
        msg == AlbumMsg::GotoLibrary,
{
    AlbumMsg::GotoLibrary
}

/// What a key means: the escape key leads back to the library.
pub fn key_message(is_escape: bool) -> (msg: Option<AlbumMsg>)
    ensures
        msg == if is_escape {
            Some(AlbumMsg::GotoLibrary)
        } else {
            None
        },
{
    if is_escape {
        Some(AlbumMsg::GotoLibrary)
    } else {
        None
    }
}

} // verus!
