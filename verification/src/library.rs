//! The library page: its filter, and the songs in the order that it asks for.

use crate::sort::{
    arranged, belongs_before, is_stable_sort, law_stable_sort_rises, law_stable_sort_unique,
    lemma_arrangement_holds, stable_sort, SortOrder,
};
use crate::text::{
    codes, folded, law_folded_at_first_difference, law_lex_antisymmetric,
    law_lex_at_first_difference, lemma_lex_total, lemma_lex_transitive, lex_before,
    lex_before_folded, lex_le, precedes, small_codes,
};
use crate::track::{Id, MusicCollection, Song, SongView};
use std::sync::Arc;
use vstd::prelude::*;
use vstd::std_specs::iter::IteratorSpec;

verus! {

/// What the page lists.
#[derive(Clone, Copy, Debug, PartialEq, Eq, Structural)]
pub enum FilterTag {
    Songs,
    Albums,
    Artists,
}

#[derive(Clone, Copy, Debug, PartialEq, Eq, Structural)]
pub enum Order {
    Asc,
    Desc,
}

/// What songs are sorted by.
#[derive(Clone, Copy, Debug, PartialEq, Eq, Structural)]
pub enum SortMetric {
    ByDate,
    ByTitle,
}

#[derive(Clone, Copy, Debug, PartialEq, Eq, Structural)]
pub struct ActiveFilter {
    pub tag: FilterTag,
    pub order: Order,
    pub metric: SortMetric,
}

pub struct LibraryState {
    pub hovered_song: Option<Id>,
    pub active_filter: ActiveFilter,
    pub sorted_songs: Arc<Vec<Song>>,
    pub list_run_offset: usize,
}

impl Default for LibraryState {
    fn default() -> (state: LibraryState)
        ensures
            state.hovered_song is None,
            state.active_filter == (ActiveFilter {
                tag: FilterTag::Songs,
                order: Order::Asc,
                metric: SortMetric::ByDate,
            }),
            state.sorted_songs@.len() == 0,
            state.list_run_offset == 0,
    {
        LibraryState {
            hovered_song: None,
            active_filter: ActiveFilter {
                tag: FilterTag::Songs,
                order: Order::Asc,
                metric: SortMetric::ByDate,
            },
            sorted_songs: Arc::new(Vec::new()),
            list_run_offset: 0,
        }
    }
}

/// The order of songs by the metric: by date, those of one date by title; or
/// by title, capitals counting as small letters.
pub open spec fn metric_le(metric: SortMetric, a: SongView, b: SongView) -> bool {
    match metric {
        SortMetric::ByDate => a.created_at < b.created_at || (a.created_at == b.created_at
            && lex_le(a.title, b.title)),
        SortMetric::ByTitle => lex_le(folded(a.title), folded(b.title)),
    }
}

/// How the page orders songs.
#[derive(Clone, Copy, Debug, PartialEq, Eq, Structural)]
pub struct SongOrder {
    pub metric: SortMetric,
    pub order: Order,
}

impl SongOrder {
    fn metric_before(&self, a: &Song, b: &Song) -> (before: bool)
        ensures
            before == metric_le(self.metric, a@, b@),
    {
        match self.metric {
            SortMetric::ByDate => {
                if a.created_at == b.created_at {
                    lex_before(a.title.as_str(), b.title.as_str())
                } else {
                    a.created_at < b.created_at
                }
            },
            SortMetric::ByTitle => lex_before_folded(a.title.as_str(), b.title.as_str()),
        }
    }
}

proof fn lemma_metric_total(metric: SortMetric, a: SongView, b: SongView)
    ensures
        metric_le(metric, a, b) || metric_le(metric, b, a),
{
    lemma_lex_total(a.title, b.title);
    lemma_lex_total(folded(a.title), folded(b.title));
}

proof fn lemma_metric_transitive(metric: SortMetric, a: SongView, b: SongView, c: SongView)
    requires
        metric_le(metric, a, b),
        metric_le(metric, b, c),
    ensures
        metric_le(metric, a, c),
{
    match metric {
        SortMetric::ByDate => {
            if a.created_at == b.created_at && b.created_at == c.created_at {
                lemma_lex_transitive(a.title, b.title, c.title);
            }
        },
        SortMetric::ByTitle => {
            lemma_lex_transitive(folded(a.title), folded(b.title), folded(c.title));
        },
    }
}

impl SortOrder<Song> for SongOrder {
    open spec fn le(&self, a: Song, b: Song) -> bool {
        match self.order {
            Order::Asc => metric_le(self.metric, a@, b@),
            Order::Desc => metric_le(self.metric, b@, a@),
        }
    }

    proof fn total(&self, a: Song, b: Song) {
        lemma_metric_total(self.metric, a@, b@);
    }

    proof fn transitive(&self, a: Song, b: Song, c: Song) {
        match self.order {
            Order::Asc => {
                lemma_metric_transitive(self.metric, a@, b@, c@);
            },
            Order::Desc => {
                lemma_metric_transitive(self.metric, c@, b@, a@);
            },
        }
    }

    fn ranks_before(&self, a: &Song, b: &Song) -> (before: bool) {
        match self.order {
            Order::Asc => self.metric_before(a, b),
            Order::Desc => self.metric_before(b, a),
        }
    }
}

/// The contents of a list of songs.
pub open spec fn song_views(songs: Seq<Song>) -> Seq<SongView> {
    songs.map_values(|s: Song| s@)
}

/// `sorted` is the stable sort of `songs` by the metric, in the direction of
/// the order.
pub open spec fn is_sorted_listing(
    songs: Seq<Song>,
    metric: SortMetric,
    order: Order,
    sorted: Seq<SongView>,
) -> bool {
    exists|positions: Seq<usize>| #[trigger]
        is_stable_sort(songs, (SongOrder { metric, order }), positions) && sorted == arranged(
            song_views(songs),
            positions,
        )
}

/// Sorts songs by the metric, in the direction of the order. Songs that rank
/// alike stay in the order in which they came.
pub fn sort_listing(songs: &Vec<Song>, metric: SortMetric, order: Order) -> (sorted: Vec<Song>)
    ensures
        is_sorted_listing(songs@, metric, order, song_views(sorted@)),
{
    let by = SongOrder { metric, order };
    let positions = stable_sort(songs, &by);
    let mut sorted: Vec<Song> = Vec::new();
    let mut i: usize = 0;
    let ghost target: Seq<SongView> = arranged(song_views(songs@), positions@);
    while i < positions.len()
        invariant
            i <= positions@.len(),
            is_stable_sort(songs@, by, positions@),
            target == arranged(song_views(songs@), positions@),
            song_views(sorted@) == target.take(i as int),
        decreases positions@.len() - i,
    {
        let ghost before: Seq<Song> = sorted@;
        assert(positions@[i as int] < songs@.len());
        let song = songs[positions[i]].clone();
        sorted.push(song);
        assert(song_views(sorted@) =~= song_views(before).push(song@));
        assert(target.take(i + 1) =~= target.take(i as int).push(target[i as int]));
        i = i + 1;
    }
    assert(target.take(i as int) =~= target);
    sorted
}

/// `ids` lists the songs of the collection, in some order.
pub open spec fn enumerates(collection: MusicCollection, ids: Seq<Id>) -> bool {
    ids.no_duplicates() && ids.to_set() == collection.songs@.dom()
}

/// `songs` holds every song of the collection once, in some order.
pub open spec fn lists_collection(collection: MusicCollection, songs: Seq<Song>) -> bool {
    exists|ids: Seq<Id>| #[trigger]
        enumerates(collection, ids) && songs.len() == ids.len() && (forall|i: int|
            0 <= i < ids.len() ==> (#[trigger] songs[i])@ == collection.songs@[ids[i]]@)
}

/// `sorted` is the collection's songs, sorted; those that rank alike come in
/// any order.
pub open spec fn is_sorted_collection(
    collection: MusicCollection,
    metric: SortMetric,
    order: Order,
    sorted: Seq<SongView>,
) -> bool {
    exists|songs: Seq<Song>| #[trigger]
        lists_collection(collection, songs) && is_sorted_listing(songs, metric, order, sorted)
}

/// All songs of the collection, in no particular order.
fn all_songs(collection: &MusicCollection) -> (songs: Vec<Song>)
    ensures
        lists_collection(*collection, songs@),
{
    broadcast use vstd::std_specs::hash::group_hash_axioms;

    let mut songs: Vec<Song> = Vec::new();
    let ghost mut ids: Seq<Id> = Seq::empty();
    for id in iter: collection.songs.keys()
        invariant
            iter.seq() == vstd::std_specs::hash::spec_keys_iter(&collection.songs).remaining(),
            ids.len() == iter.index(),
            songs@.len() == iter.index(),
            forall|j: int| 0 <= j < iter.index() ==> #[trigger] ids[j] == *iter.seq()[j],
            forall|j: int|
                0 <= j < iter.index() ==> (#[trigger] songs@[j])@ == collection.songs@[ids[j]]@,
    {
        if let Some(song) = collection.get_song(id) {
            songs.push(song.clone());
        }
        proof {
            ids = ids.push(*id);
        }
    }
    proof {
        let keys = vstd::std_specs::hash::spec_keys_iter(&collection.songs).remaining();
        assert(ids =~= keys.unref());
        assert forall|i: int, j: int| 0 <= i < j < ids.len() implies ids[i] != ids[j] by {
            assert(keys[i] != keys[j]);
        }
        assert(enumerates(*collection, ids));
    }
    songs
}

/// All songs of the collection, sorted.
pub fn sort_collection(collection: &MusicCollection, metric: SortMetric, order: Order) -> (sorted:
    Vec<Song>)
    ensures
        is_sorted_collection(*collection, metric, order, song_views(sorted@)),
{
    let songs = all_songs(collection);
    let sorted = sort_listing(&songs, metric, order);
    assert(lists_collection(*collection, songs@));
    sorted
}

/// No two of the songs rank alike.
pub open spec fn no_ties(songs: Seq<Song>, metric: SortMetric) -> bool {
    forall|i: int, j: int|
        #![trigger songs[i], songs[j]]
        0 <= i < songs.len() && 0 <= j < songs.len() && i != j ==> !(metric_le(
            metric,
            songs[i]@,
            songs[j]@,
        ) && metric_le(metric, songs[j]@, songs[i]@))
}

/// Where no two songs rank alike, the descending order is the ascending one
/// read backwards.
pub proof fn law_orders_mirror(
    songs: Seq<Song>,
    metric: SortMetric,
    ascending: Seq<usize>,
    descending: Seq<usize>,
)
    requires
        no_ties(songs, metric),
        is_stable_sort(songs, (SongOrder { metric, order: Order::Asc }), ascending),
        is_stable_sort(songs, (SongOrder { metric, order: Order::Desc }), descending),
    ensures
        descending == ascending.reverse(),
{
    let p = ascending.reverse();
    let n = ascending.len();
    let up = SongOrder { metric, order: Order::Asc };
    let down = SongOrder { metric, order: Order::Desc };
    assert forall|a: int, b: int|
        #![trigger p[a], p[b]]
        0 <= a < b < p.len() implies belongs_before(songs, down, p[a], p[b]) by {
        assert(p[a] == ascending[n - 1 - a] && p[b] == ascending[n - 1 - b]);
        assert(belongs_before(songs, up, ascending[n - 1 - b], ascending[n - 1 - a]));
        assert(p[a] != p[b]);
        let (x, y) = (songs[p[a] as int], songs[p[b] as int]);
        assert(metric_le(metric, y@, x@));
    }
    assert(p.no_duplicates());
    law_stable_sort_unique(songs, down, p, descending);
}

/// No two songs of the collection rank alike.
pub open spec fn no_tied_songs(collection: MusicCollection, metric: SortMetric) -> bool {
    forall|i: Id, j: Id|
        #![trigger collection.songs@[i], collection.songs@[j]]
        collection.songs@.contains_key(i) && collection.songs@.contains_key(j) && i != j ==> !(
        metric_le(metric, collection.songs@[i]@, collection.songs@[j]@) && metric_le(
            metric,
            collection.songs@[j]@,
            collection.songs@[i]@,
        ))
}

/// `ids` lists the songs of the collection in rising order.
spec fn ascends(collection: MusicCollection, by: SongOrder, ids: Seq<Id>) -> bool {
    &&& enumerates(collection, ids)
    &&& forall|a: int, b: int|
        #![trigger ids[a], ids[b]]
        0 <= a < b < ids.len() ==> by.le(collection.songs@[ids[a]], collection.songs@[ids[b]])
}

/// A sorted listing names the songs by their identities in rising order.
proof fn lemma_listing_ascends(
    collection: MusicCollection,
    metric: SortMetric,
    order: Order,
    sorted: Seq<SongView>,
) -> (listed: Seq<Id>)
    requires
        is_sorted_collection(collection, metric, order, sorted),
        collection.songs@.len() <= usize::MAX,
    ensures
        ascends(collection, (SongOrder { metric, order }), listed),
        sorted == listed.map_values(|id: Id| collection.songs@[id]@),
{
    let by = SongOrder { metric, order };
    let songs = choose|songs: Seq<Song>| #[trigger]
        lists_collection(collection, songs) && is_sorted_listing(songs, metric, order, sorted);
    let ids = choose|ids: Seq<Id>| #[trigger]
        enumerates(collection, ids) && songs.len() == ids.len() && (forall|i: int|
            0 <= i < ids.len() ==> (#[trigger] songs[i])@ == collection.songs@[ids[i]]@);
    let positions = choose|positions: Seq<usize>| #[trigger]
        is_stable_sort(songs, by, positions) && sorted == arranged(song_views(songs), positions);
    let listed = arranged(ids, positions);
    ids.unique_seq_to_set();
    assert(ids.len() <= usize::MAX);
    assert forall|a: int, b: int|
        #![trigger listed[a], listed[b]]
        0 <= a < b < listed.len() implies listed[a] != listed[b] && by.le(
        collection.songs@[listed[a]],
        collection.songs@[listed[b]],
    ) by {
        assert(positions[a] < ids.len() && positions[b] < ids.len());
        assert(belongs_before(songs, by, positions[a], positions[b]));
        assert(songs[positions[a] as int]@ == collection.songs@[ids[positions[a] as int]]@);
        assert(songs[positions[b] as int]@ == collection.songs@[ids[positions[b] as int]]@);
    }
    assert forall|id: Id| listed.contains(id) <==> ids.contains(id) by {
        if ids.contains(id) {
            let x = ids.index_of(id);
            lemma_arrangement_holds(positions, ids.len(), x as usize);
            let a = positions.index_of(x as usize);
            assert(listed[a] == id);
        }
        if listed.contains(id) {
            let a = listed.index_of(id);
            assert(positions[a] < ids.len());
        }
    }
    assert(listed.to_set() =~= ids.to_set());
    assert forall|a: int| 0 <= a < sorted.len() implies sorted[a]
        == collection.songs@[#[trigger] listed[a]]@ by {
        assert(positions[a] < ids.len());
        assert(songs[positions[a] as int]@ == collection.songs@[ids[positions[a] as int]]@);
    }
    assert(sorted =~= listed.map_values(|id: Id| collection.songs@[id]@));
    listed
}

proof fn lemma_ascending_unique(
    collection: MusicCollection,
    by: SongOrder,
    p: Seq<Id>,
    q: Seq<Id>,
    k: int,
)
    requires
        no_tied_songs(collection, by.metric),
        ascends(collection, by, p),
        ascends(collection, by, q),
        p.len() == q.len(),
        0 <= k <= p.len(),
    ensures
        p.take(k) == q.take(k),
    decreases k,
{
    if k > 0 {
        let j = k - 1;
        lemma_ascending_unique(collection, by, p, q, j);
        assert forall|i: int| 0 <= i < j implies p[i] == q[i] by {
            assert(p.take(j)[i] == q.take(j)[i]);
        }
        assert(p.to_set().contains(p[j]) && q.to_set().contains(q[j]));
        assert(q.contains(p[j]) && p.contains(q[j]));
        let m = q.index_of(p[j]);
        let l = p.index_of(q[j]);
        if p[j] != q[j] {
            assert(m > j && l > j);
            assert(by.le(collection.songs@[q[j]], collection.songs@[q[m]]));
            assert(by.le(collection.songs@[p[j]], collection.songs@[p[l]]));
            assert(collection.songs@.contains_key(p[j]) && collection.songs@.contains_key(q[j]));
        }
        assert(p.take(k) =~= q.take(k));
    }
}

/// Where no two songs rank alike, the sorted listing of a collection is
/// determined: in whatever order the collection hands its songs out, the
/// listing is the same.
pub proof fn law_listing_determined(
    collection: MusicCollection,
    metric: SortMetric,
    order: Order,
    first: Seq<SongView>,
    second: Seq<SongView>,
)
    requires
        no_tied_songs(collection, metric),
        collection.songs@.len() <= usize::MAX,
        is_sorted_collection(collection, metric, order, first),
        is_sorted_collection(collection, metric, order, second),
    ensures
        first == second,
{
    let p = lemma_listing_ascends(collection, metric, order, first);
    let q = lemma_listing_ascends(collection, metric, order, second);
    p.unique_seq_to_set();
    q.unique_seq_to_set();
    lemma_ascending_unique(collection, (SongOrder { metric, order }), p, q, p.len() as int);
    assert(p.take(p.len() as int) =~= p);
    assert(q.take(q.len() as int) =~= q);
}

/// One song comes before another: of an earlier date, or of the same date and
/// by its title; or by its title, ASCII capitals taken as small letters.
pub open spec fn comes_before(metric: SortMetric, a: SongView, b: SongView) -> bool {
    match metric {
        SortMetric::ByDate => a.created_at < b.created_at || (a.created_at == b.created_at
            && precedes(codes(a.title), codes(b.title))),
        SortMetric::ByTitle => precedes(small_codes(a.title), small_codes(b.title)),
    }
}

/// The songs stand in the direction of the order.
pub open spec fn runs(metric: SortMetric, order: Order, first: SongView, second: SongView) -> bool {
    match order {
        Order::Asc => !comes_before(metric, second, first),
        Order::Desc => !comes_before(metric, first, second),
    }
}

/// Neither song comes before the other.
pub open spec fn ranks_alike(metric: SortMetric, a: SongView, b: SongView) -> bool {
    !comes_before(metric, a, b) && !comes_before(metric, b, a)
}

/// Songs are ranked by their dates, or at the first place where their titles
/// differ; by title, two rank alike only if their titles are the same but for
/// ASCII capitals.
pub proof fn law_metric_ranks(metric: SortMetric, a: SongView, b: SongView)
    ensures
        metric_le(metric, a, b) <==> !comes_before(metric, b, a),
        metric == SortMetric::ByTitle && ranks_alike(metric, a, b) ==> small_codes(a.title)
            == small_codes(b.title),
        metric == SortMetric::ByDate && ranks_alike(metric, a, b) ==> a.created_at == b.created_at
            && codes(a.title) == codes(b.title),
{
    law_lex_at_first_difference(a.title, b.title);
    law_lex_at_first_difference(b.title, a.title);
    law_folded_at_first_difference(a.title, b.title);
    law_folded_at_first_difference(b.title, a.title);
    let (x, y) = (folded(a.title), folded(b.title));
    if lex_le(x, y) && lex_le(y, x) {
        law_lex_antisymmetric(x, y);
        law_lex_at_first_difference(x, y);
        assert(small_codes(a.title) =~= codes(x));
        assert(small_codes(b.title) =~= codes(y));
    }
    if lex_le(a.title, b.title) && lex_le(b.title, a.title) {
        law_lex_antisymmetric(a.title, b.title);
    }
}

/// A sorted listing has every song once, in the direction of the order; songs
/// that rank alike stand in the order in which they came.
pub proof fn law_listing_runs(
    songs: Seq<Song>,
    metric: SortMetric,
    order: Order,
    sorted: Seq<SongView>,
) -> (p: Seq<usize>)
    requires
        is_sorted_listing(songs, metric, order, sorted),
    ensures
        sorted.len() == songs.len(),
        p.len() == songs.len(),
        p.no_duplicates(),
        forall|i: int|
            0 <= i < p.len() ==> #[trigger] p[i] < songs.len() && sorted[i] == songs[p[i] as int]@,
        forall|i: int, j: int|
            #![trigger p[i], p[j]]
            0 <= i < j < p.len() ==> runs(metric, order, sorted[i], sorted[j]) && (ranks_alike(
                metric,
                sorted[i],
                sorted[j],
            ) ==> p[i] < p[j]),
{
    let by = SongOrder { metric, order };
    let p = choose|p: Seq<usize>| #[trigger]
        is_stable_sort(songs, by, p) && sorted == arranged(song_views(songs), p);
    law_stable_sort_rises(songs, by, p);
    assert forall|i: int| 0 <= i < p.len() implies #[trigger] p[i] < songs.len() && sorted[i]
        == songs[p[i] as int]@ by {}
    assert forall|i: int, j: int|
        #![trigger p[i], p[j]]
        0 <= i < j < p.len() implies runs(metric, order, sorted[i], sorted[j]) && (ranks_alike(
        metric,
        sorted[i],
        sorted[j],
    ) ==> p[i] < p[j]) by {
        law_metric_ranks(metric, sorted[i], sorted[j]);
        law_metric_ranks(metric, sorted[j], sorted[i]);
        assert(by.le(songs[p[i] as int], songs[p[j] as int]));
    }
    p
}

/// The listing of a collection has every song of it once, in the direction of
/// the order.
pub proof fn law_collection_listing_runs(
    collection: MusicCollection,
    metric: SortMetric,
    order: Order,
    sorted: Seq<SongView>,
) -> (listed: Seq<Id>)
    requires
        is_sorted_collection(collection, metric, order, sorted),
        collection.songs@.len() <= usize::MAX,
    ensures
        listed.no_duplicates(),
        forall|id: Id| #[trigger] listed.contains(id) <==> collection.songs@.contains_key(id),
        sorted.len() == listed.len(),
        forall|i: int|
            0 <= i < sorted.len() ==> #[trigger] sorted[i] == collection.songs@[listed[i]]@,
        forall|i: int, j: int|
            #![trigger sorted[i], sorted[j]]
            0 <= i < j < sorted.len() ==> runs(metric, order, sorted[i], sorted[j]),
{
    let listed = lemma_listing_ascends(collection, metric, order, sorted);
    assert forall|id: Id| #[trigger] listed.contains(id) <==> collection.songs@.contains_key(
        id,
    ) by {
        assert(listed.to_set().contains(id) <==> listed.contains(id));
    }
    assert forall|i: int, j: int|
        #![trigger sorted[i], sorted[j]]
        0 <= i < j < sorted.len() implies runs(metric, order, sorted[i], sorted[j]) by {
        assert((SongOrder { metric, order }).le(
            collection.songs@[listed[i]],
            collection.songs@[listed[j]],
        ));
        law_metric_ranks(metric, sorted[i], sorted[j]);
        law_metric_ranks(metric, sorted[j], sorted[i]);
    }
    listed
}

} // verus!
