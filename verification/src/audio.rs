//! The music player: its queues, the order in which they play, and the
//! transitions from song to song.

use crate::shared::SharedOrchestra;
use crate::shuffle::{
    balanced_shuffle, cluster_key, cluster_of, count_up, counting, is_balanced,
    law_balanced_is_permutation, lemma_counting_is_arrangement, ClusterKey,
};
use crate::sort::{arranged, is_arrangement, lemma_arrangement_holds};
use crate::source::{AudioSource, AudioSourceView, OutputInfo};
use crate::time::Duration;
use crate::track::{Id, MusicCollection, Song, SongView};
use vstd::prelude::*;

verus! {

/// The 128 bits of the UUID of a queue entry.
pub type QueueId = u128;

/// The bits have the form of a random UUID: version 4, and the variant of
/// RFC 9562.
pub open spec fn is_random_uuid(bits: u128) -> bool {
    (bits >> 76) & 0xf == 4 && (bits >> 62) & 0x3 == 2
}

/// `uuid::Uuid::new_v4`, as the number that `Uuid::as_u128` gives: a random
/// UUID. Beyond its version and variant nothing is claimed of it.
#[verifier::external_body]
fn random_queue_id() -> (bits: u128)
    ensures
        is_random_uuid(bits),
{
    uuid::Uuid::new_v4().as_u128()
}

/// An entry of a queue.
#[derive(Clone, Copy, Debug, PartialEq, Eq, Structural)]
pub struct QueueItem {
    pub queue_id: QueueId,
    pub song_id: Id,
}

impl QueueItem {
    /// A new entry for the song, with a random identity.
    pub fn new(song_id: Id) -> (item: QueueItem)
        ensures
            item.song_id == song_id,
            is_random_uuid(item.queue_id),
    {
        QueueItem { queue_id: random_queue_id(), song_id }
    }
}

/// The two queues: the one that plays in order, and the one that goes first.
#[derive(Clone, Copy, Debug, PartialEq, Eq, Structural)]
pub enum QueueKind {
    Normal,
    Override,
}

#[derive(Clone, Copy, Debug, PartialEq, Eq, Structural)]
pub enum LoopMode {
    Off,
    Track,
    Queue,
}

impl Default for LoopMode {
    fn default() -> (mode: LoopMode)
        ensures
            mode == LoopMode::Off,
    {
        LoopMode::Off
    }
}

pub struct PlayingSong {
    pub queue_id: QueueId,
    pub song_id: Id,
    pub qorigin: QueueKind,
    pub source: AudioSource,
}

#[verifier::ext_equal]
pub struct PlayingSongView {
    pub queue_id: QueueId,
    pub song_id: Id,
    pub qorigin: QueueKind,
    pub source: AudioSourceView,
}

impl View for PlayingSong {
    type V = PlayingSongView;

    open spec fn view(&self) -> PlayingSongView {
        PlayingSongView {
            queue_id: self.queue_id,
            song_id: self.song_id,
            qorigin: self.qorigin,
            source: self.source@,
        }
    }
}

impl PlayingSongView {
    /// The entry that is playing.
    pub open spec fn item(self) -> QueueItem {
        QueueItem { queue_id: self.queue_id, song_id: self.song_id }
    }
}

/// A song that is to be opened and played.
pub struct LoadRequest {
    pub item: QueueItem,
    pub qorigin: QueueKind,
    pub song: Song,
}

#[verifier::ext_equal]
pub struct LoadRequestView {
    pub item: QueueItem,
    pub qorigin: QueueKind,
    pub song: SongView,
}

impl View for LoadRequest {
    type V = LoadRequestView;

    open spec fn view(&self) -> LoadRequestView {
        LoadRequestView { item: self.item, qorigin: self.qorigin, song: self.song@ }
    }
}

/// What a transition asks of the output.
pub enum Action {
    Idle,
    /// Resume the song that is paused.
    Resume,
    /// Take the song that is playing back to its beginning;
    /// [`MusicPlayer::finish_rewind`] takes in what came of it.
    Rewind,
    /// Open a song; [`MusicPlayer::finish_load`] takes in what came of it.
    Load(LoadRequest),
}

#[verifier::ext_equal]
pub enum ActionView {
    Idle,
    Resume,
    Rewind,
    Load(LoadRequestView),
}

impl View for Action {
    type V = ActionView;

    open spec fn view(&self) -> ActionView {
        match self {
            Action::Idle => ActionView::Idle,
            Action::Resume => ActionView::Resume,
            Action::Rewind => ActionView::Rewind,
            Action::Load(request) => ActionView::Load(request@),
        }
    }
}

pub struct MusicPlayer {
    pub playback_queue: Vec<QueueItem>,
    pub override_queue: Vec<QueueItem>,
    /// Positions in the playback queue, in the order in which they play.
    pub order: Vec<usize>,
    /// The place in `order` of the current track.
    pub cursor: usize,
    pub playing_song: Option<PlayingSong>,
    pub history: Vec<QueueItem>,
    pub loop_mode: LoopMode,
    pub is_shuffled: bool,
    pub orchestra: Option<SharedOrchestra>,
}

#[verifier::ext_equal]
pub struct PlayerView {
    pub playback_queue: Seq<QueueItem>,
    pub override_queue: Seq<QueueItem>,
    pub order: Seq<usize>,
    pub cursor: usize,
    pub playing_song: Option<PlayingSongView>,
    pub history: Seq<QueueItem>,
    pub loop_mode: LoopMode,
    pub is_shuffled: bool,
    pub orchestra: Option<SharedOrchestra>,
}

impl View for MusicPlayer {
    type V = PlayerView;

    open spec fn view(&self) -> PlayerView {
        PlayerView {
            playback_queue: self.playback_queue@,
            override_queue: self.override_queue@,
            order: self.order@,
            cursor: self.cursor,
            playing_song: match self.playing_song {
                Some(song) => Some(song@),
                None => None,
            },
            history: self.history@,
            loop_mode: self.loop_mode,
            is_shuffled: self.is_shuffled,
            orchestra: self.orchestra,
        }
    }
}

/// The attempt to play an entry: nothing where its song is not in the
/// collection.
pub open spec fn load(
    item: QueueItem,
    qorigin: QueueKind,
    collection: MusicCollection,
) -> ActionView {
    match collection.song(item.song_id) {
        Some(song) => ActionView::Load(LoadRequestView { item, qorigin, song }),
        None => ActionView::Idle,
    }
}

/// The clusters of the entries at these positions of a queue.
pub open spec fn clusters_of(
    queue: Seq<QueueItem>,
    positions: Seq<usize>,
    collection: MusicCollection,
) -> Seq<ClusterKey> {
    positions.map_values(|i: usize| cluster_of(queue[i as int].song_id, collection))
}

/// The numbers below `n` but for `c`.
pub open spec fn all_but(n: nat, c: usize) -> Seq<usize> {
    counting(n).filter(|i: usize| i != c)
}

/// The number of a position once the one at `index` is gone.
pub open spec fn renumbered(i: usize, index: usize) -> usize {
    if i > index {
        (i - 1) as usize
    } else {
        i
    }
}

/// The positions but for `index`, in the order that they have.
pub open spec fn all_others(order: Seq<usize>, index: usize) -> Seq<usize> {
    order.filter(|i: usize| i != index)
}

/// An order of positions once the one at `index` is gone: the others in the
/// order that they had, those after it renumbered.
pub open spec fn closed_up(order: Seq<usize>, index: usize) -> Seq<usize> {
    all_others(order, index).map_values(|i: usize| renumbered(i, index))
}

/// Within the first five seconds a step back leads to the song before.
pub const REWIND_AFTER_MICROS: u64 = 5000000;

impl PlayerView {
    /// The order lists every position of the playback queue once, and the
    /// cursor stands on it or at its end.
    pub open spec fn wf(self) -> bool {
        &&& is_arrangement(self.order, self.playback_queue.len())
        &&& self.cursor <= self.order.len()
    }

    /// The place `pos` of the order names an entry.
    pub open spec fn names_entry(self, pos: int) -> bool {
        self.order[pos] < self.playback_queue.len()
    }

    /// The entry at the place `pos` of the order.
    pub open spec fn item_at(self, pos: int) -> QueueItem {
        self.playback_queue[self.order[pos] as int]
    }

    /// A song of the playback queue is playing.
    pub open spec fn normal_playing(self) -> bool {
        self.playing_song is Some && self.playing_song->0.qorigin == QueueKind::Normal
    }

    /// The place in the order that comes next.
    pub open spec fn next_cursor(self) -> int {
        if self.normal_playing() {
            self.cursor + 1
        } else {
            self.cursor as int
        }
    }

    /// Where the part of the order begins that is still to play.
    pub open spec fn upcoming_start(self) -> int {
        if self.next_cursor() <= self.order.len() {
            self.next_cursor()
        } else {
            self.order.len() as int
        }
    }

    /// The entries of the playback queue that are still to play.
    pub open spec fn upcoming(self) -> Seq<QueueItem> {
        Seq::new(
            (self.order.len() - self.upcoming_start()) as nat,
            |i: int| self.item_at(self.upcoming_start() + i),
        )
    }

    /// With a song of the playback queue that is playing put on the history.
    pub open spec fn remembered(self) -> PlayerView {
        if self.normal_playing() {
            PlayerView { history: self.history.push(self.playing_song->0.item()), ..self }
        } else {
            self
        }
    }

    /// With more entries at the end of the playback queue.
    pub open spec fn appended(self, items: Seq<QueueItem>) -> PlayerView {
        PlayerView {
            playback_queue: self.playback_queue + items,
            order: self.order + Seq::new(
                items.len(),
                |i: int| (self.playback_queue.len() + i) as usize,
            ),
            ..self
        }
    }

    /// With an entry inserted to play next.
    pub open spec fn inserted(self, item: QueueItem) -> PlayerView {
        PlayerView { override_queue: self.override_queue.insert(0, item), ..self }
    }

    /// How many places before the cursor name another entry than the one at
    /// `index`.
    pub open spec fn kept_before(self, index: usize) -> nat {
        closed_up(
            self.order.take(
                if self.cursor <= self.order.len() {
                    self.cursor as int
                } else {
                    self.order.len() as int
                },
            ),
            index,
        ).len()
    }

    /// The cursor stands on the entry at `index`.
    pub open spec fn cursor_on(self, index: usize) -> bool {
        self.cursor < self.order.len() && self.order[self.cursor as int] == index
    }

    /// Where the cursor stands once the entry at `index` is gone: still on the
    /// current track. Where that is the one that goes, the cursor stands on the
    /// track after it, or at the end of the order if there is none; but while
    /// a song of the playback queue plays, on the track before it, if there is
    /// one, so that the track after it is the next.
    pub open spec fn cursor_without(self, index: usize) -> usize {
        let kept = self.kept_before(index);
        if self.cursor_on(index) && self.normal_playing() && kept > 0 {
            (kept - 1) as usize
        } else {
            kept as usize
        }
    }

    /// Without the entry at `index` of the playback queue.
    pub open spec fn without(self, index: usize) -> PlayerView {
        PlayerView {
            playback_queue: self.playback_queue.remove(index as int),
            order: closed_up(self.order, index),
            cursor: self.cursor_without(index),
            ..self
        }
    }

    /// Without anything queued or remembered.
    pub open spec fn cleared(self) -> PlayerView {
        PlayerView {
            playback_queue: Seq::empty(),
            override_queue: Seq::empty(),
            order: Seq::empty(),
            history: Seq::empty(),
            cursor: 0,
            ..self
        }
    }

    /// A step to the next song can be taken: the place that it reads names an
    /// entry.
    pub open spec fn next_ready(self) -> bool {
        self.override_queue.len() == 0 ==> {
            &&& self.next_cursor() <= usize::MAX
            &&& self.next_cursor() < self.order.len() ==> self.names_entry(self.next_cursor())
        }
    }

    /// The step to the next song, whether there was one, and what it asks for.
    /// The override queue goes first; at the end of the order nothing plays.
    pub open spec fn next(self, collection: MusicCollection) -> (PlayerView, bool, ActionView) {
        if self.override_queue.len() > 0 {
            (
                PlayerView {
                    override_queue: self.override_queue.drop_first(),
                    ..self.remembered()
                },
                true,
                load(self.override_queue[0], QueueKind::Override, collection),
            )
        } else if self.next_cursor() < self.order.len() {
            (
                PlayerView { cursor: self.next_cursor() as usize, ..self.remembered() },
                true,
                load(self.item_at(self.next_cursor()), QueueKind::Normal, collection),
            )
        } else {
            (PlayerView { playing_song: None, ..self.remembered() }, false, ActionView::Idle)
        }
    }

    /// What takes the song that is playing back to its beginning.
    pub open spec fn rewind(self) -> ActionView {
        if self.playing_song is Some && self.playing_song->0.source.player is Some {
            ActionView::Rewind
        } else {
            ActionView::Idle
        }
    }

    /// The song has been playing too long for a step back to leave it.
    pub open spec fn well_under_way(self) -> bool {
        self.playing_song is Some && self.playing_song->0.source.elapsed_micros
            > REWIND_AFTER_MICROS
    }

    /// A song of the override queue is playing.
    pub open spec fn override_playing(self) -> bool {
        self.playing_song is Some && self.playing_song->0.qorigin == QueueKind::Override
    }

    pub open spec fn previous_ready(self) -> bool {
        !self.well_under_way() && self.override_playing() && self.cursor < self.order.len()
            ==> self.names_entry(self.cursor as int)
    }

    /// The step back. A song that is well under way, or that has none before
    /// it, begins again; one of the override queue gives way to the current
    /// track.
    pub open spec fn previous(self, collection: MusicCollection) -> (PlayerView, ActionView) {
        if self.well_under_way() {
            (self, self.rewind())
        } else if self.override_playing() {
            (
                self,
                if self.cursor < self.order.len() {
                    load(self.item_at(self.cursor as int), QueueKind::Normal, collection)
                } else {
                    ActionView::Idle
                },
            )
        } else if self.history.len() == 0 {
            (self, self.rewind())
        } else {
            (
                PlayerView {
                    history: self.history.drop_last(),
                    cursor: if self.cursor > 0 {
                        (self.cursor - 1) as usize
                    } else {
                        0
                    },
                    ..self
                },
                load(self.history.last(), QueueKind::Normal, collection),
            )
        }
    }

    /// A song is playing and has come to its end.
    pub open spec fn has_ended(self) -> bool {
        self.playing_song is Some && self.playing_song->0.source.ended()
    }

    pub open spec fn update_ready(self) -> bool {
        self.has_ended() && self.loop_mode != LoopMode::Track ==> {
            &&& self.next_ready()
            &&& self.loop_mode == LoopMode::Queue && self.override_queue.len() == 0
                && self.next_cursor() >= self.order.len() && self.order.len() > 0
                ==> self.names_entry(0)
        }
    }

    /// What follows when a song has come to its end: the same song, the next
    /// one, or the first one again, as the loop mode says.
    pub open spec fn update(self, collection: MusicCollection) -> (PlayerView, ActionView) {
        if !self.has_ended() {
            (self, ActionView::Idle)
        } else if self.loop_mode == LoopMode::Track {
            (
                self,
                load(self.playing_song->0.item(), self.playing_song->0.qorigin, collection),
            )
        } else {
            let (stepped, more, action) = self.next(collection);
            if !more && self.loop_mode == LoopMode::Queue && self.order.len() > 0 {
                (
                    PlayerView { cursor: 0, ..stepped },
                    load(self.item_at(0), QueueKind::Normal, collection),
                )
            } else {
                (stepped, action)
            }
        }
    }

    pub open spec fn play_ready(self) -> bool {
        !(self.playing_song is Some && self.playing_song->0.source.paused()) && self.cursor
            < self.order.len() ==> self.names_entry(self.cursor as int)
    }

    /// A song that is paused goes on; otherwise the current track starts.
    pub open spec fn play(self, collection: MusicCollection) -> (PlayerView, ActionView) {
        if self.playing_song is Some && self.playing_song->0.source.paused() {
            (
                PlayerView {
                    playing_song: Some(
                        PlayingSongView {
                            source: self.playing_song->0.source.with_paused(false),
                            ..self.playing_song->0
                        },
                    ),
                    ..self
                },
                ActionView::Resume,
            )
        } else if self.cursor < self.order.len() {
            (self, load(self.item_at(self.cursor as int), QueueKind::Normal, collection))
        } else {
            (self, ActionView::Idle)
        }
    }

    /// `pos` is the first place in the order whose entry has that identity.
    pub open spec fn found_at(self, queue_id: QueueId, pos: int) -> bool {
        &&& 0 <= pos < self.order.len()
        &&& self.item_at(pos).queue_id == queue_id
        &&& forall|p: int| 0 <= p < pos ==> (#[trigger] self.item_at(p)).queue_id != queue_id
    }

    /// A search of the order for that identity comes to no place that names no
    /// entry: before each such place there is one with the identity.
    pub open spec fn search_ready(self, queue_id: QueueId) -> bool {
        forall|p: int|
            0 <= p < self.order.len() && !self.names_entry(p) ==> exists|q: int|
                0 <= q < p && self.names_entry(q) && (#[trigger] self.item_at(q)).queue_id
                    == queue_id
    }

    /// The entries from the cursor up to the place `pos`.
    pub open spec fn skipped(self, pos: int) -> Seq<QueueItem> {
        Seq::new((pos - self.cursor) as nat, |i: int| self.item_at(self.cursor + i))
    }

    /// The jump to the place `pos`. Where a song of the playback queue is
    /// playing, what the jump passes over goes on the history.
    pub open spec fn jumped(self, pos: int) -> PlayerView {
        PlayerView {
            cursor: pos as usize,
            history: if self.normal_playing() && pos > self.cursor {
                self.history + self.skipped(pos)
            } else {
                self.history
            },
            ..self
        }
    }

    /// `index` is the first place in the override queue with that identity.
    pub open spec fn overrides_at(self, queue_id: QueueId, index: int) -> bool {
        &&& 0 <= index < self.override_queue.len()
        &&& self.override_queue[index].queue_id == queue_id
        &&& forall|p: int| 0 <= p < index ==> (#[trigger] self.override_queue[p]).queue_id
            != queue_id
    }

    /// The clusters of the entries at these positions of the playback queue.
    pub open spec fn clusters(
        self,
        positions: Seq<usize>,
        collection: MusicCollection,
    ) -> Seq<ClusterKey> {
        clusters_of(self.playback_queue, positions, collection)
    }

    /// `order` is a balanced order of these positions of the playback queue.
    pub open spec fn is_balanced_order(
        self,
        positions: Seq<usize>,
        collection: MusicCollection,
        order: Seq<usize>,
    ) -> bool {
        exists|p: Seq<usize>| #[trigger]
            is_balanced(self.clusters(positions, collection), p) && order == arranged(positions, p)
    }

    /// The positions of the playback queue but for one.
    pub open spec fn others(self, current: usize) -> Seq<usize> {
        all_but(self.playback_queue.len(), current)
    }

    /// `after` is this player with shuffling turned on or off.
    pub open spec fn shuffle_set(
        self,
        enabled: bool,
        collection: MusicCollection,
        after: PlayerView,
    ) -> bool {
        let n = self.playback_queue.len();
        if self.is_shuffled == enabled {
            after == self
        } else if n == 0 {
            after == (PlayerView { is_shuffled: enabled, order: Seq::empty(), cursor: 0, ..self })
        } else if !enabled {
            after == (PlayerView {
                is_shuffled: false,
                order: counting(n),
                cursor: if self.cursor < self.order.len() {
                    self.order[self.cursor as int]
                } else {
                    0
                },
                ..self
            })
        } else if self.normal_playing() && self.cursor < self.order.len() {
            let current = self.order[self.cursor as int];
            &&& after == (PlayerView { is_shuffled: true, order: after.order, cursor: 0, ..self })
            &&& after.order.len() > 0 && after.order[0] == current
            &&& self.is_balanced_order(
                self.others(current),
                collection,
                after.order.drop_first(),
            )
        } else {
            &&& after == (PlayerView { is_shuffled: true, order: after.order, cursor: 0, ..self })
            &&& self.is_balanced_order(counting(n), collection, after.order)
        }
    }

    /// The player after an attempt to open a song; it plays if that worked.
    pub open spec fn loaded(
        self,
        request: LoadRequestView,
        shape_rate: Option<u32>,
        output: Option<OutputInfo>,
    ) -> PlayerView {
        if output is Some {
            PlayerView {
                playing_song: Some(
                    PlayingSongView {
                        queue_id: request.item.queue_id,
                        song_id: request.item.song_id,
                        qorigin: request.qorigin,
                        source: AudioSourceView::fresh(request.song, true).synced(
                            shape_rate,
                            output,
                        ),
                    },
                ),
                ..self
            }
        } else {
            self
        }
    }
}

/// The attempt to play an entry.
fn load_and_play(item: QueueItem, qorigin: QueueKind, collection: &MusicCollection) -> (action:
    Action)
    ensures
        action@ == load(item, qorigin, *collection),
{
    match collection.get_song(&item.song_id) {
        Some(song) => Action::Load(LoadRequest { item, qorigin, song: song.clone() }),
        None => Action::Idle,
    }
}

impl MusicPlayer {
    /// A player with nothing in it.
    pub fn new() -> (player: MusicPlayer)
        ensures
            player@ == (PlayerView {
                playback_queue: Seq::empty(),
                override_queue: Seq::empty(),
                order: Seq::empty(),
                cursor: 0,
                playing_song: None,
                history: Seq::empty(),
                loop_mode: LoopMode::Off,
                is_shuffled: false,
                orchestra: None,
            }),
            player@.wf(),
    {
        MusicPlayer {
            playback_queue: Vec::new(),
            override_queue: Vec::new(),
            order: Vec::new(),
            cursor: 0,
            playing_song: None,
            history: Vec::new(),
            loop_mode: LoopMode::default(),
            is_shuffled: false,
            orchestra: None,
        }
    }

    /// Appends an entry to the end of the playback queue.
    pub fn append(&mut self, item: QueueItem)
        ensures
            final(self)@ == old(self)@.appended(seq![item]),
            old(self)@.wf() ==> final(self)@.wf(),
    {
        let idx: usize = self.playback_queue.len();
        self.playback_queue.push(item);
        self.order.push(idx);
        proof {
            assert(self@ =~= old(self)@.appended(seq![item]));
        }
    }

    /// Appends a track to the end of the playback queue.
    pub fn enqueue(&mut self, song_id: Id)
        ensures
            exists|item: QueueItem|
                item.song_id == song_id && is_random_uuid(item.queue_id) && final(self)@
                    == #[trigger] old(self)@.appended(seq![item]),
            old(self)@.wf() ==> final(self)@.wf(),
    {
        let item = QueueItem::new(song_id);
        self.append(item);
    }

    /// Inserts a track directly after the currently playing item.
    pub fn enqueue_next(&mut self, song_id: Id)
        ensures
            exists|item: QueueItem|
                item.song_id == song_id && is_random_uuid(item.queue_id) && final(self)@
                    == #[trigger] old(self)@.inserted(item),
            old(self)@.wf() ==> final(self)@.wf(),
    {
        let item = QueueItem::new(song_id);
        self.override_queue.insert(0, item);
        assert(self@ =~= old(self)@.inserted(item));
    }

    /// Removes a track at a specific index from the specified queue. What is
    /// left plays in the order that it had.
    pub fn remove(&mut self, index: usize, qkind: QueueKind) -> (removed: Option<QueueItem>)
        ensures
            match qkind {
                QueueKind::Normal => if index < old(self).playback_queue@.len() {
                    &&& removed == Some(old(self).playback_queue@[index as int])
                    &&& final(self)@ == old(self)@.without(index)
                } else {
                    removed is None && final(self)@ == old(self)@
                },
                QueueKind::Override => if index < old(self).override_queue@.len() {
                    &&& removed == Some(old(self).override_queue@[index as int])
                    &&& final(self)@ == (PlayerView {
                        override_queue: old(self)@.override_queue.remove(index as int),
                        ..old(self)@
                    })
                } else {
                    removed is None && final(self)@ == old(self)@
                },
            },
            old(self)@.wf() ==> final(self)@.wf(),
    {
        match qkind {
            QueueKind::Normal => {
                if index < self.playback_queue.len() {
                    self.close_up(index);
                    let item = self.playback_queue.remove(index);
                    assert(self@ =~= old(self)@.without(index));
                    proof {
                        if old(self)@.wf() {
                            lemma_without_wf(old(self)@, index);
                        }
                    }
                    Some(item)
                } else {
                    None
                }
            },
            QueueKind::Override => {
                if index < self.override_queue.len() {
                    Some(self.override_queue.remove(index))
                } else {
                    None
                }
            },
        }
    }

    /// Takes the position `index` out of the order, and moves the cursor along.
    fn close_up(&mut self, index: usize)
        ensures
            final(self)@ == (PlayerView {
                order: closed_up(old(self)@.order, index),
                cursor: old(self)@.cursor_without(index),
                ..old(self)@
            }),
    {
        let ghost order = self.order@;
        let on_cursor: bool = self.cursor < self.order.len() && self.order[self.cursor] == index;
        let mut closed: Vec<usize> = Vec::new();
        let mut kept: usize = 0;
        let mut p: usize = 0;
        proof {
            reveal(Seq::filter);
            assert(closed_up(order.take(0), index) =~= Seq::empty());
        }
        while p < self.order.len()
            invariant
                p <= self.order@.len(),
                order == self.order@,
                *self == *old(self),
                closed@ == closed_up(order.take(p as int), index),
                kept <= closed@.len(),
                p <= self.cursor ==> kept == closed@.len(),
                p > self.cursor ==> kept == closed_up(order.take(self.cursor as int), index).len(),
            decreases self.order@.len() - p,
        {
            let position: usize = self.order[p];
            proof {
                lemma_closed_up_step(order, index, p as int);
            }
            if position != index {
                closed.push(if position > index {
                    position - 1
                } else {
                    position
                });
            }
            if p < self.cursor {
                kept = closed.len();
            }
            p = p + 1;
        }
        assert(order.take(p as int) =~= order);
        assert(kept == old(self)@.kept_before(index));
        let cursor: usize = if on_cursor && self.is_playing_from(QueueKind::Normal) && kept > 0 {
            kept - 1
        } else {
            kept
        };
        self.order = closed;
        self.cursor = cursor;
    }

    /// Clears upcoming tracks without stopping the active song.
    pub fn clear_queue(&mut self)
        ensures
            final(self)@ == old(self)@.cleared(),
            final(self)@.wf(),
    {
        self.override_queue.clear();
        self.playback_queue.clear();
        self.order.clear();
        self.history.clear();
        self.cursor = 0;
    }

    pub fn set_loop_mode(&mut self, mode: LoopMode)
        ensures
            final(self)@ == (PlayerView { loop_mode: mode, ..old(self)@ }),
            old(self)@.wf() ==> final(self)@.wf(),
    {
        self.loop_mode = mode;
    }

    /// Whether a song of that queue is playing.
    fn is_playing_from(&self, qkind: QueueKind) -> (playing: bool)
        ensures
            playing == (self@.playing_song is Some && self@.playing_song->0.qorigin == qkind),
    {
        match &self.playing_song {
            Some(song) => song.qorigin == qkind,
            None => false,
        }
    }

    /// Puts a song of the playback queue that is playing on the history.
    fn remember(&mut self)
        ensures
            final(self)@ == old(self)@.remembered(),
    {
        if let Some(song) = &self.playing_song {
            if song.qorigin == QueueKind::Normal {
                let item = QueueItem { queue_id: song.queue_id, song_id: song.song_id };
                self.history.push(item);
            }
        }
    }

    /// Transitions to the next song in queue. Whether there was one, and what
    /// is to be opened.
    pub fn next(&mut self, collection: &MusicCollection) -> (step: (bool, Action))
        requires
            old(self)@.next_ready(),
        ensures
            final(self)@ == old(self)@.next(*collection).0,
            step.0 == old(self)@.next(*collection).1,
            step.1@ == old(self)@.next(*collection).2,
            old(self)@.wf() ==> final(self)@.wf(),
    {
        self.remember();
        if !self.override_queue.is_empty() {
            let item = self.override_queue.remove(0);
            assert(self@.override_queue =~= old(self)@.override_queue.drop_first());
            return (true, load_and_play(item, QueueKind::Override, collection));
        }
        let next_cursor: usize = if self.is_playing_from(QueueKind::Normal) {
            self.cursor + 1
        } else {
            self.cursor
        };
        if next_cursor < self.order.len() {
            self.cursor = next_cursor;
            let actual_idx: usize = self.order[self.cursor];
            let item = self.playback_queue[actual_idx];
            (true, load_and_play(item, QueueKind::Normal, collection))
        } else {
            self.playing_song = None;
            (false, Action::Idle)
        }
    }

    /// Starts the track at the cursor.
    pub(crate) fn play_current(&self, collection: &MusicCollection) -> (action: Action)
        requires
            self.cursor < self.order@.len() ==> self@.names_entry(self.cursor as int),
        ensures
            action@ == if self.cursor < self.order@.len() {
                load(self@.item_at(self.cursor as int), QueueKind::Normal, *collection)
            } else {
                ActionView::Idle
            },
    {
        if self.cursor < self.order.len() {
            let actual_idx: usize = self.order[self.cursor];
            let item = self.playback_queue[actual_idx];
            load_and_play(item, QueueKind::Normal, collection)
        } else {
            Action::Idle
        }
    }

    /// What takes the song that is playing back to its beginning.
    fn rewind(&self) -> (action: Action)
        ensures
            action@ == self@.rewind(),
    {
        match &self.playing_song {
            Some(song) => match song.source.seek(Duration::from_secs(0)) {
                Some(_) => Action::Rewind,
                None => Action::Idle,
            },
            None => Action::Idle,
        }
    }

    /// Takes a step back.
    pub fn previous(&mut self, collection: &MusicCollection) -> (action: Action)
        requires
            old(self)@.previous_ready(),
        ensures
            final(self)@ == old(self)@.previous(*collection).0,
            action@ == old(self)@.previous(*collection).1,
            old(self)@.wf() ==> final(self)@.wf(),
    {
        if let Some(song) = &self.playing_song {
            if song.source.elapsed().exceeds(&Duration::from_micros(REWIND_AFTER_MICROS)) {
                return self.rewind();
            }
        }
        if self.is_playing_from(QueueKind::Override) {
            return self.play_current(collection);
        }
        match self.history.pop() {
            None => self.rewind(),
            Some(prev_item) => {
                if self.cursor > 0 {
                    self.cursor = self.cursor - 1;
                }
                assert(self@.history =~= old(self)@.history.drop_last());
                load_and_play(prev_item, QueueKind::Normal, collection)
            },
        }
    }

    /// What is still to play of a queue.
    pub fn queue(&self, qkind: QueueKind) -> (items: Vec<QueueItem>)
        requires
            qkind == QueueKind::Normal ==> self@.next_cursor() <= usize::MAX,
            qkind == QueueKind::Normal ==> forall|p: int|
                self@.upcoming_start() <= p < self.order@.len() ==> #[trigger] self@.names_entry(p),
        ensures
            items@ == match qkind {
                QueueKind::Normal => self@.upcoming(),
                QueueKind::Override => self@.override_queue,
            },
    {
        let mut items: Vec<QueueItem> = Vec::new();
        match qkind {
            QueueKind::Normal => {
                let next_cursor: usize = if self.is_playing_from(QueueKind::Normal) {
                    self.cursor + 1
                } else {
                    self.cursor
                };
                let start: usize = if next_cursor <= self.order.len() {
                    next_cursor
                } else {
                    self.order.len()
                };
                let mut pos: usize = start;
                while pos < self.order.len()
                    invariant
                        start == self@.upcoming_start(),
                        start <= pos <= self.order@.len(),
                        forall|p: int|
                            start <= p < self.order@.len() ==> #[trigger] self@.names_entry(p),
                        items@ == self@.upcoming().take(pos - start),
                    decreases self.order@.len() - pos,
                {
                    assert(self@.names_entry(pos as int));
                    items.push(self.playback_queue[self.order[pos]]);
                    assert(self@.upcoming().take(pos + 1 - start) =~= self@.upcoming().take(
                        pos - start,
                    ).push(self@.item_at(pos as int)));
                    pos = pos + 1;
                }
                assert(self@.upcoming().take(self.order@.len() - start) =~= self@.upcoming());
            },
            QueueKind::Override => {
                let mut i: usize = 0;
                while i < self.override_queue.len()
                    invariant
                        i <= self.override_queue@.len(),
                        items@ == self.override_queue@.take(i as int),
                    decreases self.override_queue@.len() - i,
                {
                    items.push(self.override_queue[i]);
                    assert(self.override_queue@.take(i + 1) =~= self.override_queue@.take(
                        i as int,
                    ).push(self.override_queue@[i as int]));
                    i = i + 1;
                }
                assert(self.override_queue@.take(i as int) =~= self.override_queue@);
            },
        }
        items
    }

    /// Goes on to what follows once the song has come to its end.
    pub fn update(&mut self, collection: &MusicCollection) -> (action: Action)
        requires
            old(self)@.update_ready(),
        ensures
            final(self)@ == old(self)@.update(*collection).0,
            action@ == old(self)@.update(*collection).1,
            old(self)@.wf() ==> final(self)@.wf(),
    {
        match &self.playing_song {
            None => {
                return Action::Idle;
            },
            Some(song) => {
                if !song.source.has_ended() {
                    return Action::Idle;
                }
                if self.loop_mode == LoopMode::Track {
                    let item = QueueItem { queue_id: song.queue_id, song_id: song.song_id };
                    return load_and_play(item, song.qorigin, collection);
                }
            },
        }
        let (more, action) = self.next(collection);
        if !more && self.loop_mode == LoopMode::Queue && !self.order.is_empty() {
            self.cursor = 0;
            let actual_idx: usize = self.order[0];
            let item = self.playback_queue[actual_idx];
            return load_and_play(item, QueueKind::Normal, collection);
        }
        action
    }

    /// Plays the entry of that identity. Whether it was found, and what is to
    /// be opened.
    pub fn play_by_id(
        &mut self,
        queue_id: QueueId,
        qkind: QueueKind,
        collection: &MusicCollection,
    ) -> (step: (bool, Action))
        requires
            qkind == QueueKind::Normal ==> old(self)@.search_ready(queue_id),
        ensures
            match qkind {
                QueueKind::Normal => if step.0 {
                    exists|pos: int| #[trigger]
                        old(self)@.found_at(queue_id, pos) && final(self)@ == old(self)@.jumped(pos)
                            && step.1@ == load(
                            old(self)@.item_at(pos),
                            QueueKind::Normal,
                            *collection,
                        )
                } else {
                    &&& forall|pos: int| !(#[trigger] old(self)@.found_at(queue_id, pos))
                    &&& final(self)@ == old(self)@
                    &&& step.1@ == ActionView::Idle
                },
                QueueKind::Override => if step.0 {
                    exists|index: int| #[trigger]
                        old(self)@.overrides_at(queue_id, index) && final(self)@ == (PlayerView {
                            override_queue: old(self)@.override_queue.remove(index),
                            ..old(self)@
                        }) && step.1@ == load(
                            old(self)@.override_queue[index],
                            QueueKind::Override,
                            *collection,
                        )
                } else {
                    &&& forall|index: int| !(#[trigger] old(self)@.overrides_at(queue_id, index))
                    &&& final(self)@ == old(self)@
                    &&& step.1@ == ActionView::Idle
                },
            },
            old(self)@.wf() ==> final(self)@.wf(),
    {
        match qkind {
            QueueKind::Normal => {
                let mut pos: usize = 0;
                while pos < self.order.len()
                    invariant_except_break
                        self@ == old(self)@,
                        pos <= self.order@.len(),
                        self@.search_ready(queue_id),
                        forall|p: int|
                            0 <= p < pos ==> self@.names_entry(p) && (#[trigger] self@.item_at(
                                p,
                            )).queue_id != queue_id,
                    ensures
                        self@ == old(self)@,
                        pos <= self.order@.len(),
                        forall|p: int|
                            0 <= p < pos ==> self@.names_entry(p) && (#[trigger] self@.item_at(
                                p,
                            )).queue_id != queue_id,
                        pos < self.order@.len() ==> self@.names_entry(pos as int)
                            && self@.found_at(queue_id, pos as int),
                    decreases self.order@.len() - pos,
                {
                    assert(self@.names_entry(pos as int)) by {
                        if !self@.names_entry(pos as int) {
                            let q = choose|q: int|
                                0 <= q < pos && self@.names_entry(q) && (#[trigger] self@.item_at(
                                    q,
                                )).queue_id == queue_id;
                            assert(self@.item_at(q).queue_id != queue_id);
                        }
                    }
                    if self.playback_queue[self.order[pos]].queue_id == queue_id {
                        assert(self@.item_at(pos as int).queue_id == queue_id);
                        break;
                    }
                    assert(self@.item_at(pos as int).queue_id != queue_id);
                    pos = pos + 1;
                }
                if pos >= self.order.len() {
                    assert forall|p: int| !(#[trigger] self@.found_at(queue_id, p)) by {
                        if 0 <= p < self.order@.len() {
                            assert(self@.item_at(p).queue_id != queue_id);
                        }
                    }
                    return (false, Action::Idle);
                }
                let item = self.playback_queue[self.order[pos]];
                if self.is_playing_from(QueueKind::Normal) && pos > self.cursor {
                    assert forall|p: int| self.cursor <= p < pos implies #[trigger] self@.names_entry(
                        p,
                    ) by {
                        assert(self@.item_at(p).queue_id != queue_id);
                    }
                    self.remember_skipped(pos);
                }
                self.cursor = pos;
                assert(self@ =~= old(self)@.jumped(pos as int));
                (true, load_and_play(item, QueueKind::Normal, collection))
            },
            QueueKind::Override => {
                let mut index: usize = 0;
                while index < self.override_queue.len() && self.override_queue[index].queue_id
                    != queue_id
                    invariant
                        self@ == old(self)@,
                        index <= self.override_queue@.len(),
                        forall|p: int|
                            0 <= p < index ==> (#[trigger] self.override_queue@[p]).queue_id
                                != queue_id,
                    decreases self.override_queue@.len() - index,
                {
                    index = index + 1;
                }
                if index >= self.override_queue.len() {
                    return (false, Action::Idle);
                }
                assert(self@.overrides_at(queue_id, index as int));
                let item = self.override_queue.remove(index);
                (true, load_and_play(item, QueueKind::Override, collection))
            },
        }
    }

    /// Puts the entries from the cursor up to the place `pos` on the history.
    fn remember_skipped(&mut self, pos: usize)
        requires
            old(self).cursor <= pos <= old(self).order@.len(),
            forall|p: int|
                old(self).cursor <= p < pos ==> #[trigger] old(self)@.names_entry(p),
        ensures
            final(self)@ == (PlayerView {
                history: old(self)@.history + old(self)@.skipped(pos as int),
                ..old(self)@
            }),
    {
        let mut p: usize = self.cursor;
        assert(self@.history + self@.skipped(p as int) =~= self@.history);
        while p < pos
            invariant
                old(self).cursor <= p <= pos <= old(self).order@.len(),
                forall|p: int|
                    old(self).cursor <= p < pos ==> #[trigger] old(self)@.names_entry(p),
                self@ == (PlayerView {
                    history: old(self)@.history + old(self)@.skipped(p as int),
                    ..old(self)@
                }),
            decreases pos - p,
        {
            assert(old(self)@.names_entry(p as int));
            let entry = self.playback_queue[self.order[p]];
            self.history.push(entry);
            p = p + 1;
            assert(self@ =~= (PlayerView {
                history: old(self)@.history + old(self)@.skipped(p as int),
                ..old(self)@
            }));
        }
    }

    /// Takes in what came of opening a song: it plays if that worked, and if
    /// not everything stays as it was. Whether it plays.
    pub fn finish_load(
        &mut self,
        request: LoadRequest,
        shape_rate: Option<u32>,
        output: Option<OutputInfo>,
    ) -> (playing: bool)
        ensures
            final(self)@ == old(self)@.loaded(request@, shape_rate, output),
            playing == (output is Some),
            old(self)@.wf() ==> final(self)@.wf(),
    {
        let mut source = AudioSource::new(request.song, true);
        if source.sync(shape_rate, output) {
            let _ = source.play();
            self.playing_song = Some(
                PlayingSong {
                    queue_id: request.item.queue_id,
                    song_id: request.item.song_id,
                    qorigin: request.qorigin,
                    source,
                },
            );
            true
        } else {
            false
        }
    }

    /// Takes in what came of taking the song back to its beginning.
    pub fn finish_rewind<E>(&mut self, attempt: Result<(), E>)
        ensures
            final(self)@ == if old(self)@.rewind() == ActionView::Rewind && attempt is Ok {
                PlayerView {
                    playing_song: Some(
                        PlayingSongView {
                            source: AudioSourceView {
                                elapsed_micros: 0,
                                ..old(self)@.playing_song->0.source
                            },
                            ..old(self)@.playing_song->0
                        },
                    ),
                    ..old(self)@
                }
            } else {
                old(self)@
            },
            old(self)@.wf() ==> final(self)@.wf(),
    {
        if let Some(song) = &mut self.playing_song {
            let _ = song.source.finish_seek(Duration::from_secs(0), attempt);
        }
    }
}

/// One place more to close up.
pub proof fn lemma_closed_up_step(order: Seq<usize>, index: usize, p: int)
    requires
        0 <= p < order.len(),
    ensures
        closed_up(order.take(p + 1), index) == if order[p] != index {
            closed_up(order.take(p), index).push(renumbered(order[p], index))
        } else {
            closed_up(order.take(p), index)
        },
{
    reveal(Seq::filter);
    assert(order.take(p + 1).drop_last() =~= order.take(p));
    assert(order.take(p + 1).last() == order[p]);
    if order[p] != index {
        assert(closed_up(order.take(p + 1), index) =~= closed_up(order.take(p), index).push(
            renumbered(order[p], index),
        ));
    }
}

/// What is closed up in two parts is closed up as a whole.
pub proof fn lemma_closed_up_concat(a: Seq<usize>, b: Seq<usize>, index: usize)
    ensures
        closed_up(a + b, index) == closed_up(a, index) + closed_up(b, index),
{
    Seq::filter_distributes_over_add(a, b, |i: usize| i != index);
    assert(closed_up(a + b, index) =~= closed_up(a, index) + closed_up(b, index));
}

/// Where `index` is named once, at `k`, the others are all but that place.
proof fn lemma_others_is_removal(order: Seq<usize>, k: int)
    requires
        order.no_duplicates(),
        0 <= k < order.len(),
    ensures
        all_others(order, order[k]) == order.remove(k),
{
    let index = order[k];
    let (a, b) = (order.take(k), order.skip(k + 1));
    assert(order =~= order.take(k + 1) + b);
    assert(order.take(k + 1).drop_last() =~= a);
    assert(!a.contains(index)) by {
        if a.contains(index) {
            assert(order[a.index_of(index)] == order[k]);
        }
    }
    assert(!b.contains(index)) by {
        if b.contains(index) {
            assert(order[b.index_of(index) + k + 1] == order[k]);
        }
    }
    lemma_all_kept(a, index);
    lemma_all_kept(b, index);
    Seq::filter_distributes_over_add(order.take(k + 1), b, |i: usize| i != index);
    assert(all_others(order.take(k + 1), index) == a) by {
        reveal(Seq::filter);
    }
    assert(a + b =~= order.remove(k));
}

/// One position out of a whole order leaves a whole order of one fewer.
pub proof fn lemma_closed_up_arrangement(order: Seq<usize>, n: nat, index: usize)
    requires
        is_arrangement(order, n),
        index < n,
    ensures
        is_arrangement(closed_up(order, index), (n - 1) as nat),
{
    lemma_arrangement_holds(order, n, index);
    let k = order.index_of(index);
    let rest = order.remove(k);
    let closed = closed_up(order, index);
    lemma_others_is_removal(order, k);
    assert forall|i: int| 0 <= i < rest.len() implies #[trigger] rest[i] != index && rest[i]
        < n by {
        if i < k {
            assert(order[i] != order[k]);
        } else {
            assert(order[i + 1] != order[k]);
        }
    }
    assert forall|i: int| 0 <= i < closed.len() implies #[trigger] closed[i] < n - 1 by {
        assert(closed[i] == renumbered(rest[i], index));
    }
    assert forall|i: int, j: int|
        0 <= i < closed.len() && 0 <= j < closed.len() && i != j implies closed[i]
        != closed[j] by {
        assert(closed[i] == renumbered(rest[i], index));
        assert(closed[j] == renumbered(rest[j], index));
        assert(rest[i] != rest[j]);
    }
}

/// An order that does not name `index` loses nothing to it.
pub proof fn lemma_all_kept(order: Seq<usize>, index: usize)
    requires
        !order.contains(index),
    ensures
        all_others(order, index) == order,
    decreases order.len(),
{
    reveal(Seq::filter);
    if order.len() > 0 {
        assert forall|i: usize| order.drop_last().contains(i) implies order.contains(i) by {
            let j = order.drop_last().index_of(i);
            assert(order[j] == i);
        }
        lemma_all_kept(order.drop_last(), index);
        assert(order.contains(order.last()));
        assert(order =~= order.drop_last().push(order.last()));
    }
    assert(all_others(order, index) =~= order);
}

/// The others are positions of the order, and none of them is `index`.
pub proof fn lemma_others_named(order: Seq<usize>, index: usize)
    ensures
        forall|p: int|
            0 <= p < all_others(order, index).len() ==> #[trigger] all_others(order, index)[p]
                != index && order.contains(all_others(order, index)[p]),
    decreases order.len(),
{
    reveal(Seq::filter);
    if order.len() > 0 {
        let (rest, others) = (order.drop_last(), all_others(order, index));
        lemma_others_named(rest, index);
        assert forall|p: int| 0 <= p < others.len() implies #[trigger] others[p] != index
            && order.contains(others[p]) by {
            if p < all_others(rest, index).len() {
                assert(others[p] == all_others(rest, index)[p]);
                let j = rest.index_of(others[p]);
                assert(order[j] == others[p]);
            } else {
                assert(others[p] == order[order.len() - 1]);
            }
        }
    }
}

/// A player whose order is whole has one without the entry at `index` too.
pub proof fn lemma_without_wf(player: PlayerView, index: usize)
    requires
        player.wf(),
        index < player.playback_queue.len(),
    ensures
        player.without(index).wf(),
{
    let (head, tail) = (
        player.order.take(player.cursor as int),
        player.order.skip(player.cursor as int),
    );
    lemma_closed_up_arrangement(player.order, player.playback_queue.len(), index);
    assert(player.order =~= head + tail);
    lemma_closed_up_concat(head, tail, index);
    head.lemma_filter_len(|i: usize| i != index);
}

/// The numbers below `n` but for `c`: none twice, and only one short of `n` of
/// them where `c` is among them.
proof fn lemma_others(n: nat, c: usize)
    requires
        n <= usize::MAX,
    ensures
        ({
            let rest = all_but(n, c);
            &&& rest.len() == if c < n {
                n - 1
            } else {
                n as int
            }
            &&& rest.no_duplicates()
            &&& forall|i: int| 0 <= i < rest.len() ==> #[trigger] rest[i] < n && rest[i] != c
        }),
    decreases n,
{
    reveal(Seq::filter);
    if n > 0 {
        let m = (n - 1) as nat;
        lemma_others(m, c);
        assert(counting(n).drop_last() =~= counting(m));
        let before = all_but(m, c);
        let rest = all_but(n, c);
        if m as usize != c {
            assert(rest =~= before.push(m as usize));
        }
    }
}

/// What an arrangement makes of distinct items is as long and distinct.
proof fn lemma_arranged_distinct(items: Seq<usize>, p: Seq<usize>)
    requires
        items.no_duplicates(),
        is_arrangement(p, items.len()),
    ensures
        arranged(items, p).len() == items.len(),
        arranged(items, p).no_duplicates(),
        forall|i: int|
            0 <= i < items.len() ==> items.contains(#[trigger] arranged(items, p)[i]),
{
    let out = arranged(items, p);
    assert forall|i: int| 0 <= i < items.len() implies items.contains(#[trigger] out[i]) by {
        assert(p[i] < items.len());
    }
    assert forall|i: int, j: int| 0 <= i < j < out.len() implies out[i] != out[j] by {
        assert(p[i] < items.len());
        assert(p[j] < items.len());
        assert(p[i] != p[j]);
    }
}

/// Turning the shuffle on or off keeps the order an order.
proof fn lemma_shuffle_set_wf(
    before: PlayerView,
    enabled: bool,
    collection: MusicCollection,
    after: PlayerView,
)
    requires
        before.shuffle_set(enabled, collection, after),
        before.wf(),
        before.playback_queue.len() <= usize::MAX,
    ensures
        after.wf(),
{
    let n = before.playback_queue.len();
    if before.is_shuffled == enabled || n == 0 {
    } else if !enabled {
        lemma_counting_is_arrangement(n);
        if before.cursor < before.order.len() {
            assert(before.order[before.cursor as int] < n);
        }
    } else if before.normal_playing() && before.cursor < before.order.len() {
        let current = before.order[before.cursor as int];
        assert(current < n);
        let others = before.others(current);
        lemma_others(n, current);
        let keys = before.clusters(others, collection);
        let p = choose|p: Seq<usize>| #[trigger]
            is_balanced(keys, p) && after.order.drop_first() == arranged(others, p);
        law_balanced_is_permutation(keys, p);
        lemma_arranged_distinct(others, p);
        let tail = after.order.drop_first();
        assert(after.order =~= seq![current] + tail);
        assert forall|i: int| 0 <= i < n implies #[trigger] after.order[i] < n by {
            if i > 0 {
                assert(tail[i - 1] == after.order[i]);
                assert(others.contains(tail[i - 1]));
            }
        }
        assert forall|i: int, j: int| 0 <= i < j < n implies after.order[i] != after.order[j] by {
            assert(tail[j - 1] == after.order[j]);
            assert(others.contains(tail[j - 1]));
            if i > 0 {
                assert(tail[i - 1] == after.order[i]);
            }
        }
    } else {
        let keys = before.clusters(counting(n), collection);
        let p = choose|p: Seq<usize>| #[trigger]
            is_balanced(keys, p) && after.order == arranged(counting(n), p);
        law_balanced_is_permutation(keys, p);
        assert(after.order =~= p) by {
            assert forall|i: int| 0 <= i < p.len() implies after.order[i] == p[i] by {
                assert(p[i] < n);
            }
        }
    }
}

impl MusicPlayer {
    /// The clusters of the entries at these positions of the playback queue.
    fn cluster_keys(&self, positions: &Vec<usize>, collection: &MusicCollection) -> (keys: Vec<
        ClusterKey,
    >)
        requires
            forall|i: int|
                0 <= i < positions@.len() ==> #[trigger] positions@[i] < self.playback_queue@.len(),
        ensures
            keys@ == self@.clusters(positions@, *collection),
    {
        let mut keys: Vec<ClusterKey> = Vec::new();
        let mut i: usize = 0;
        let ghost target: Seq<ClusterKey> = self@.clusters(positions@, *collection);
        while i < positions.len()
            invariant
                i <= positions@.len(),
                forall|i: int|
                    0 <= i < positions@.len() ==> #[trigger] positions@[i]
                        < self.playback_queue@.len(),
                target == self@.clusters(positions@, *collection),
                keys@ == target.take(i as int),
            decreases positions@.len() - i,
        {
            let song_id: Id = self.playback_queue[positions[i]].song_id;
            keys.push(cluster_key(song_id, collection));
            assert(target.take(i + 1) =~= target.take(i as int).push(target[i as int]));
            i = i + 1;
        }
        assert(target.take(i as int) =~= target);
        keys
    }

    /// The positions of the playback queue but for one.
    fn other_positions(&self, current: usize) -> (positions: Vec<usize>)
        ensures
            positions@ == self@.others(current),
            forall|i: int|
                0 <= i < positions@.len() ==> #[trigger] positions@[i] < self.playback_queue@.len(),
    {
        let n: usize = self.playback_queue.len();
        let mut positions: Vec<usize> = Vec::new();
        let mut i: usize = 0;
        proof {
            reveal(Seq::filter);
        }
        assert(all_but(0, current) =~= Seq::empty());
        while i < n
            invariant
                i <= n,
                positions@ == all_but(i as nat, current),
            decreases n - i,
        {
            if i != current {
                positions.push(i);
            }
            proof {
                reveal(Seq::filter);
                assert(counting((i + 1) as nat).drop_last() =~= counting(i as nat));
            }
            i = i + 1;
        }
        proof {
            lemma_others(n as nat, current);
        }
        positions
    }

    /// Turns shuffling on or off. Where it is turned on, a song of the playback
    /// queue that is playing comes first and the rest follows in a balanced
    /// order; where it is turned off, the chronological order is restored and
    /// the cursor put on the active track.
    pub fn set_shuffle(&mut self, enabled: bool, collection: &MusicCollection)
        ensures
            old(self)@.shuffle_set(enabled, *collection, final(self)@),
            old(self)@.wf() ==> final(self)@.wf(),
    {
        if self.is_shuffled == enabled {
            return;
        }
        self.is_shuffled = enabled;
        if self.playback_queue.is_empty() {
            self.order.clear();
            self.cursor = 0;
            return;
        }
        let n: usize = self.playback_queue.len();
        if enabled {
            if self.is_playing_from(QueueKind::Normal) && self.cursor < self.order.len() {
                let current: usize = self.order[self.cursor];
                let remaining = self.other_positions(current);
                let keys = self.cluster_keys(&remaining, collection);
                let mut shuffled = balanced_shuffle(&remaining, &keys);
                let ghost tail: Seq<usize> = shuffled@;
                let mut new_order: Vec<usize> = Vec::new();
                new_order.push(current);
                new_order.append(&mut shuffled);
                self.order = new_order;
                self.cursor = 0;
                assert(self@.order.drop_first() =~= tail);
                assert(keys@ == old(self)@.clusters(remaining@, *collection));
                assert(old(self)@.is_balanced_order(remaining@, *collection, tail));
            } else {
                let all_indices = count_up(n);
                let keys = self.cluster_keys(&all_indices, collection);
                self.order = balanced_shuffle(&all_indices, &keys);
                self.cursor = 0;
                assert(keys@ == old(self)@.clusters(all_indices@, *collection));
                assert(old(self)@.is_balanced_order(all_indices@, *collection, self@.order));
            }
            assert(self@ =~= (PlayerView {
                is_shuffled: true,
                order: self@.order,
                cursor: 0,
                ..old(self)@
            }));
        } else {
            let current: usize = if self.cursor < self.order.len() {
                self.order[self.cursor]
            } else {
                0
            };
            self.order = count_up(n);
            self.cursor = current;
        }
        proof {
            assert(old(self)@.shuffle_set(enabled, *collection, self@));
            if old(self)@.wf() {
                lemma_shuffle_set_wf(old(self)@, enabled, *collection, self@);
            }
        }
    }
}

} // verus!
