//! What every operation does to a player: what it changes, what it leaves, and
//! what it asks for.

use crate::audio::{
    lemma_all_kept, lemma_closed_up_concat, lemma_closed_up_step, load, renumbered, ActionView,
    LoadRequestView, LoopMode, PlayerView, PlayingSongView, QueueId, QueueItem, QueueKind,
};
use crate::commands::{
    cmd_outcome, enqueued, is_heartbeat, step_outcome, GlobalPlayerCmd, LoopEvent, LoopStep,
    PlayerMsg,
};
use crate::laws::law_remove_keeps_order;
use crate::shared::SharedOrchestra;
use crate::shuffle::{law_balanced_is_permutation, law_balanced_spreads_keys, spreads_keys};
use crate::source::{AudioSourceView, OutputInfo, PlayerState};
use crate::track::{Id, MusicCollection};
use vstd::prelude::*;

verus! {

/// An entry is opened where the collection has its song, with that song.
pub proof fn law_known_song_is_opened(item: QueueItem, qorigin: QueueKind, collection: MusicCollection)
    ensures
        collection.songs@.contains_key(item.song_id) ==> load(item, qorigin, collection)
            == ActionView::Load(
            LoadRequestView { item, qorigin, song: collection.songs@[item.song_id]@ },
        ),
        !collection.songs@.contains_key(item.song_id) ==> load(item, qorigin, collection)
            == ActionView::Idle,
{
}

/// The history with the song on it that is playing, if it is one of the
/// playback queue.
pub open spec fn grown_history(player: PlayerView) -> Seq<QueueItem> {
    match player.playing_song {
        Some(song) => match song.qorigin {
            QueueKind::Normal => player.history + seq![
                QueueItem { queue_id: song.queue_id, song_id: song.song_id },
            ],
            QueueKind::Override => player.history,
        },
        None => player.history,
    }
}

/// The place after the one that plays: after the cursor while a song of the
/// playback queue plays, and otherwise at the cursor.
pub open spec fn following_place(player: PlayerView) -> int {
    match player.playing_song {
        Some(song) => match song.qorigin {
            QueueKind::Normal => player.cursor + 1,
            QueueKind::Override => player.cursor as int,
        },
        None => player.cursor as int,
    }
}

/// An order is whole where it names every position of the queue once and the
/// cursor is not past its end.
pub proof fn law_whole_order(player: PlayerView)
    ensures
        player.wf() <==> {
            &&& player.order.len() == player.playback_queue.len()
            &&& forall|i: int, j: int|
                #![trigger player.order[i], player.order[j]]
                0 <= i < j < player.order.len() ==> player.order[i] != player.order[j]
            &&& forall|i: int|
                0 <= i < player.order.len() ==> #[trigger] player.order[i]
                    < player.playback_queue.len()
            &&& player.cursor <= player.order.len()
        },
{
    if player.wf() {
        assert forall|i: int| 0 <= i < player.order.len() implies #[trigger] player.order[i]
            < player.playback_queue.len() by {}
    }
}

// ---------------------------------------------------------------------------
// Forward
// ---------------------------------------------------------------------------

/// A step that takes an inserted track takes the first of them, and leaves
/// everything but them and the history as it was.
pub proof fn law_step_takes_inserted(player: PlayerView, collection: MusicCollection)
    requires
        player.override_queue.len() > 0,
    ensures
        ({
            let (after, more, action) = player.next(collection);
            &&& more
            &&& action == load(player.override_queue[0], QueueKind::Override, collection)
            &&& seq![player.override_queue[0]] + after.override_queue == player.override_queue
            &&& after.history == grown_history(player)
            &&& after.playback_queue == player.playback_queue
            &&& after.order == player.order
            &&& after.cursor == player.cursor
            &&& after.playing_song == player.playing_song
            &&& after.loop_mode == player.loop_mode
            &&& after.is_shuffled == player.is_shuffled
            &&& after.orchestra == player.orchestra
        }),
{
    let after = player.next(collection).0;
    assert(seq![player.override_queue[0]] + after.override_queue =~= player.override_queue);
    assert(after.history =~= grown_history(player));
}

/// Where nothing was inserted, a step goes on to the following place of the
/// order: it opens the entry there, and leaves everything but the cursor and
/// the history as it was.
pub proof fn law_step_goes_on(player: PlayerView, collection: MusicCollection)
    requires
        player.override_queue.len() == 0,
        following_place(player) < player.order.len() <= usize::MAX,
    ensures
        ({
            let (after, more, action) = player.next(collection);
            let position = player.order[following_place(player)];
            &&& more
            &&& action == load(
                player.playback_queue[position as int],
                QueueKind::Normal,
                collection,
            )
            &&& after.cursor == following_place(player)
            &&& after.history == grown_history(player)
            &&& after.playback_queue == player.playback_queue
            &&& after.override_queue == player.override_queue
            &&& after.order == player.order
            &&& after.playing_song == player.playing_song
            &&& after.loop_mode == player.loop_mode
            &&& after.is_shuffled == player.is_shuffled
            &&& after.orchestra == player.orchestra
        }),
{
    assert(player.next(collection).0.history =~= grown_history(player));
}

/// At the end of everything queued a step asks for nothing and nothing plays;
/// the cursor and the queues stay.
pub proof fn law_step_past_the_end(player: PlayerView, collection: MusicCollection)
    requires
        player.override_queue.len() == 0,
        following_place(player) >= player.order.len(),
    ensures
        ({
            let (after, more, action) = player.next(collection);
            &&& !more
            &&& action == ActionView::Idle
            &&& after.playing_song is None
            &&& after.history == grown_history(player)
            &&& after.cursor == player.cursor
            &&& after.playback_queue == player.playback_queue
            &&& after.override_queue == player.override_queue
            &&& after.order == player.order
            &&& after.loop_mode == player.loop_mode
            &&& after.is_shuffled == player.is_shuffled
            &&& after.orchestra == player.orchestra
        }),
{
    assert(player.next(collection).0.history =~= grown_history(player));
}

/// An inserted track does not move the queue: once it has played, the queue
/// goes on at the cursor, with the track that it interrupted.
pub proof fn law_inserted_track_leaves_queue(
    player: PlayerView,
    collection: MusicCollection,
    request: LoadRequestView,
    shape_rate: Option<u32>,
    output: OutputInfo,
)
    requires
        player.override_queue.len() == 1,
        player.next(collection).2 == ActionView::Load(request),
        player.cursor < player.order.len(),
    ensures
        ({
            let there = player.next(collection).0.loaded(request, shape_rate, Some(output));
            let position = player.order[player.cursor as int];
            let (after, more, action) = there.next(collection);
            &&& more
            &&& after.cursor == player.cursor
            &&& action == load(
                player.playback_queue[position as int],
                QueueKind::Normal,
                collection,
            )
        }),
{
}

// ---------------------------------------------------------------------------
// The end of a song
// ---------------------------------------------------------------------------

/// The song that is playing has come to its end: its output has nothing left,
/// or there is none.
pub open spec fn song_is_over(player: PlayerView) -> bool {
    match player.playing_song {
        Some(song) => match song.source.player {
            Some(state) => state.empty,
            None => true,
        },
        None => false,
    }
}

/// Before the end of a song, and where none plays, nothing happens.
pub proof fn law_update_waits(player: PlayerView, collection: MusicCollection)
    requires
        !song_is_over(player),
    ensures
        player.update(collection) == (player, ActionView::Idle),
{
}

/// At the end of a song, but in the loop over one track, the player goes on as
/// a step to the next song does, as long as there is something to go on to.
pub proof fn law_update_goes_on(player: PlayerView, collection: MusicCollection)
    requires
        song_is_over(player),
        player.loop_mode != LoopMode::Track,
        player.override_queue.len() > 0 || following_place(player) < player.order.len(),
    ensures
        player.update(collection).0 == player.next(collection).0,
        player.update(collection).1 == player.next(collection).2,
{
}

/// In the loop over one track the song that has ended is opened again, from
/// the queue that it came from, and nothing changes.
pub proof fn law_update_repeats(player: PlayerView, collection: MusicCollection)
    requires
        song_is_over(player),
        player.loop_mode == LoopMode::Track,
    ensures
        player.update(collection).0 == player,
        player.update(collection).1 == load(
            QueueItem {
                queue_id: player.playing_song->0.queue_id,
                song_id: player.playing_song->0.song_id,
            },
            player.playing_song->0.qorigin,
            collection,
        ),
{
}

/// After the last song, the loop over the queue goes back to the first place of
/// the order; without a loop nothing plays.
pub proof fn law_update_after_the_last(player: PlayerView, collection: MusicCollection)
    requires
        song_is_over(player),
        player.loop_mode != LoopMode::Track,
        player.override_queue.len() == 0,
        following_place(player) >= player.order.len(),
    ensures
        ({
            let (after, action) = player.update(collection);
            let again = player.loop_mode == LoopMode::Queue && player.order.len() > 0;
            &&& after.playing_song is None
            &&& after.cursor == if again {
                0
            } else {
                player.cursor
            }
            &&& action == if again {
                load(
                    player.playback_queue[player.order[0] as int],
                    QueueKind::Normal,
                    collection,
                )
            } else {
                ActionView::Idle
            }
            &&& after.history == grown_history(player)
            &&& after.playback_queue == player.playback_queue
            &&& after.override_queue == player.override_queue
            &&& after.order == player.order
            &&& after.loop_mode == player.loop_mode
            &&& after.is_shuffled == player.is_shuffled
            &&& after.orchestra == player.orchestra
        }),
{
    assert(player.update(collection).0.history =~= grown_history(player));
}

// ---------------------------------------------------------------------------
// Back
// ---------------------------------------------------------------------------

/// What takes a song back to its beginning: an output that is there.
pub open spec fn back_to_beginning(player: PlayerView) -> ActionView {
    match player.playing_song {
        Some(song) => match song.source.player {
            Some(_) => ActionView::Rewind,
            None => ActionView::Idle,
        },
        None => ActionView::Idle,
    }
}

/// A song that has been playing for more than five seconds begins again.
pub proof fn law_back_rewinds(player: PlayerView, collection: MusicCollection)
    requires
        player.playing_song is Some,
        player.playing_song->0.source.elapsed_micros > 5000000,
    ensures
        player.previous(collection) == (player, back_to_beginning(player)),
{
}

/// An inserted track that has just begun gives way to the track at the cursor,
/// and the player stays as it was.
pub proof fn law_back_from_inserted(player: PlayerView, collection: MusicCollection)
    requires
        player.playing_song is Some,
        player.playing_song->0.source.elapsed_micros <= 5000000,
        player.playing_song->0.qorigin == QueueKind::Override,
    ensures
        player.previous(collection).0 == player,
        player.cursor < player.order.len() ==> player.previous(collection).1 == load(
            player.playback_queue[player.order[player.cursor as int] as int],
            QueueKind::Normal,
            collection,
        ),
        player.cursor >= player.order.len() ==> player.previous(collection).1 == ActionView::Idle,
{
}

/// Where nothing is on the history, a song of the playback queue begins again.
pub proof fn law_back_without_history(player: PlayerView, collection: MusicCollection)
    requires
        player.playing_song is Some ==> player.playing_song->0.qorigin == QueueKind::Normal,
        player.history.len() == 0,
    ensures
        player.previous(collection) == (player, back_to_beginning(player)),
{
}

/// Otherwise a step back opens the last song of the history, which leaves it,
/// and moves the cursor one place back; nothing else changes.
pub proof fn law_back_through_history(player: PlayerView, collection: MusicCollection)
    requires
        player.playing_song is Some ==> player.playing_song->0.qorigin == QueueKind::Normal
            && player.playing_song->0.source.elapsed_micros <= 5000000,
        player.history.len() > 0,
    ensures
        ({
            let (after, action) = player.previous(collection);
            let last = player.history[player.history.len() - 1];
            &&& action == load(last, QueueKind::Normal, collection)
            &&& after.history.push(last) == player.history
            &&& player.cursor > 0 ==> after.cursor == player.cursor - 1
            &&& player.cursor == 0 ==> after.cursor == 0
            &&& after.playback_queue == player.playback_queue
            &&& after.override_queue == player.override_queue
            &&& after.order == player.order
            &&& after.playing_song == player.playing_song
            &&& after.loop_mode == player.loop_mode
            &&& after.is_shuffled == player.is_shuffled
            &&& after.orchestra == player.orchestra
        }),
{
    let after = player.previous(collection).0;
    assert(after.history.push(player.history[player.history.len() - 1]) =~= player.history);
}

/// An inserted track and a step back lead to the track that played before it.
pub proof fn law_inserted_and_back(
    player: PlayerView,
    collection: MusicCollection,
    request: LoadRequestView,
    shape_rate: Option<u32>,
    output: OutputInfo,
)
    requires
        player.override_queue.len() > 0,
        player.next(collection).2 == ActionView::Load(request),
        player.cursor < player.order.len(),
    ensures
        ({
            let there = player.next(collection).0.loaded(request, shape_rate, Some(output));
            let position = player.order[player.cursor as int];
            &&& there.previous(collection).0 == there
            &&& there.previous(collection).1 == load(
                player.playback_queue[position as int],
                QueueKind::Normal,
                collection,
            )
        }),
{
}

// ---------------------------------------------------------------------------
// Play and jumps
// ---------------------------------------------------------------------------

/// A song that is paused goes on where it was: only its output is no longer
/// paused.
pub proof fn law_play_resumes(player: PlayerView, collection: MusicCollection)
    requires
        player.playing_song is Some,
        player.playing_song->0.source.player is Some,
        player.playing_song->0.source.player->0.paused,
    ensures
        ({
            let (song, state) = (
                player.playing_song->0,
                player.playing_song->0.source.player->0,
            );
            let (after, action) = player.play(collection);
            &&& action == ActionView::Resume
            &&& after == (PlayerView {
                playing_song: Some(
                    PlayingSongView {
                        source: AudioSourceView {
                            player: Some(PlayerState { paused: false, empty: state.empty }),
                            ..song.source
                        },
                        ..song
                    },
                ),
                ..player
            })
        }),
{
}

/// Where no song is paused, the track at the cursor is opened.
pub proof fn law_play_starts(player: PlayerView, collection: MusicCollection)
    requires
        player.playing_song is Some && player.playing_song->0.source.player is Some
            ==> !player.playing_song->0.source.player->0.paused,
    ensures
        player.play(collection).0 == player,
        player.cursor < player.order.len() ==> player.play(collection).1 == load(
            player.playback_queue[player.order[player.cursor as int] as int],
            QueueKind::Normal,
            collection,
        ),
        player.cursor >= player.order.len() ==> player.play(collection).1 == ActionView::Idle,
{
}

/// A search by identity finds the first place of the order whose entry has it.
pub proof fn law_search_finds_first(player: PlayerView, queue_id: QueueId, pos: int)
    ensures
        player.found_at(queue_id, pos) <==> {
            &&& 0 <= pos < player.order.len()
            &&& player.playback_queue[player.order[pos] as int].queue_id == queue_id
            &&& forall|p: int|
                0 <= p < pos ==> player.playback_queue[(#[trigger] player.order[p]) as int].queue_id
                    != queue_id
        },
{
    if !player.found_at(queue_id, pos) && 0 <= pos < player.order.len() && player.item_at(
        pos,
    ).queue_id == queue_id {
        let p = choose|p: int|
            0 <= p < pos && (#[trigger] player.item_at(p)).queue_id == queue_id;
        assert(player.playback_queue[player.order[p] as int].queue_id == queue_id);
    }
    if player.found_at(queue_id, pos) {
        assert forall|p: int| 0 <= p < pos implies player.playback_queue[(
        #[trigger] player.order[p]) as int].queue_id != queue_id by {
            assert(player.item_at(p).queue_id != queue_id);
        }
    }
}

/// A search of the inserted tracks finds the first that has the identity.
pub proof fn law_search_finds_first_inserted(player: PlayerView, queue_id: QueueId, index: int)
    ensures
        player.overrides_at(queue_id, index) <==> {
            &&& 0 <= index < player.override_queue.len()
            &&& player.override_queue[index].queue_id == queue_id
            &&& forall|p: int|
                0 <= p < index ==> (#[trigger] player.override_queue[p]).queue_id != queue_id
        },
{
}

/// A jump moves the cursor to its target. Forward, while a song of the playback
/// queue plays, it puts the tracks from the old place up to the new one on the
/// history; otherwise the history stays. Nothing else changes.
pub proof fn law_jump_remembers(player: PlayerView, pos: int)
    requires
        0 <= pos < player.order.len() <= usize::MAX,
    ensures
        ({
            let after = player.jumped(pos);
            let forward = player.playing_song is Some && player.playing_song->0.qorigin
                == QueueKind::Normal && pos > player.cursor;
            let added = if forward {
                pos - player.cursor
            } else {
                0
            };
            &&& after.cursor == pos
            &&& after.history.len() == player.history.len() + added
            &&& after.history.take(player.history.len() as int) == player.history
            &&& forall|i: int|
                0 <= i < added ==> #[trigger] after.history[player.history.len() + i]
                    == player.playback_queue[player.order[player.cursor + i] as int]
            &&& after.playback_queue == player.playback_queue
            &&& after.override_queue == player.override_queue
            &&& after.order == player.order
            &&& after.playing_song == player.playing_song
            &&& after.loop_mode == player.loop_mode
            &&& after.is_shuffled == player.is_shuffled
            &&& after.orchestra == player.orchestra
        }),
{
    let after = player.jumped(pos);
    assert(after.history.take(player.history.len() as int) =~= player.history);
}

// ---------------------------------------------------------------------------
// Queues
// ---------------------------------------------------------------------------

/// What is upcoming are the entries of the order from the following place on.
pub proof fn law_upcoming_follows(player: PlayerView)
    requires
        player.order.len() <= usize::MAX,
    ensures
        player.upcoming().len() == if following_place(player) < player.order.len() {
            player.order.len() - following_place(player)
        } else {
            0
        },
        forall|i: int|
            0 <= i < player.upcoming().len() ==> #[trigger] player.upcoming()[i]
                == player.playback_queue[player.order[following_place(player) + i] as int],
{
}

/// What is appended goes to the end of the playback queue and of the order, one
/// after the other; nothing else changes.
pub proof fn law_appended_at_the_end(player: PlayerView, items: Seq<QueueItem>)
    requires
        player.playback_queue.len() + items.len() <= usize::MAX,
    ensures
        ({
            let after = player.appended(items);
            &&& after.playback_queue == player.playback_queue + items
            &&& after.order.len() == player.order.len() + items.len()
            &&& after.order.take(player.order.len() as int) == player.order
            &&& forall|i: int|
                0 <= i < items.len() ==> #[trigger] after.order[player.order.len() + i]
                    == player.playback_queue.len() + i
            &&& after.override_queue == player.override_queue
            &&& after.cursor == player.cursor
            &&& after.playing_song == player.playing_song
            &&& after.history == player.history
            &&& after.loop_mode == player.loop_mode
            &&& after.is_shuffled == player.is_shuffled
            &&& after.orchestra == player.orchestra
        }),
{
    assert(player.appended(items).order.take(player.order.len() as int) =~= player.order);
}

/// Clearing empties both queues, the order and the history and puts the cursor
/// at the beginning; nothing else changes.
pub proof fn law_cleared_of_everything(player: PlayerView)
    ensures
        ({
            let after = player.cleared();
            &&& after.playback_queue.len() == 0
            &&& after.override_queue.len() == 0
            &&& after.order.len() == 0
            &&& after.history.len() == 0
            &&& after.cursor == 0
            &&& after.playing_song == player.playing_song
            &&& after.loop_mode == player.loop_mode
            &&& after.is_shuffled == player.is_shuffled
            &&& after.orchestra == player.orchestra
        }),
{
}

/// A removal takes out the one entry and the one place `k` of the order that
/// names it: the place `q` then has the entry that it had, or from `k` on the
/// one that came after. The cursor keeps its track.
pub proof fn law_removal_closes_gap(player: PlayerView, index: usize, k: int)
    requires
        player.wf(),
        0 <= k < player.order.len(),
        player.order[k] == index,
    ensures
        ({
            let after = player.without(index);
            &&& after.playback_queue == player.playback_queue.take(index as int)
                + player.playback_queue.skip(index + 1)
            &&& after.order.len() == player.order.len() - 1
            &&& forall|q: int|
                0 <= q < after.order.len() ==> (#[trigger] after.order[q])
                    < after.playback_queue.len() && after.playback_queue[after.order[q] as int]
                    == player.playback_queue[player.order[if q < k {
                    q
                } else {
                    q + 1
                }] as int]
            &&& k < player.cursor ==> after.cursor == player.cursor - 1
            &&& k > player.cursor ==> after.cursor == player.cursor
            &&& k == player.cursor ==> after.cursor == if player.playing_song is Some
                && player.playing_song->0.qorigin == QueueKind::Normal && k > 0 {
                k - 1
            } else {
                k
            }
            &&& after.override_queue == player.override_queue
            &&& after.playing_song == player.playing_song
            &&& after.history == player.history
            &&& after.loop_mode == player.loop_mode
            &&& after.is_shuffled == player.is_shuffled
            &&& after.orchestra == player.orchestra
        }),
{
    let after = player.without(index);
    let (order, cursor) = (player.order, player.cursor as int);
    let (a, b) = (order.take(k), order.skip(k + 1));
    assert(order =~= order.take(k + 1) + b);
    lemma_closed_up_step(order, index, k);
    lemma_closed_up_concat(order.take(k + 1), b, index);
    assert(!a.contains(index)) by {
        if a.contains(index) {
            assert(order[a.index_of(index)] == order[k]);
        }
    }
    assert(!b.contains(index)) by {
        if b.contains(index) {
            assert(order[b.index_of(index) + k + 1] == order[k]);
        }
    }
    lemma_all_kept(a, index);
    lemma_all_kept(b, index);
    law_remove_keeps_order(player, index);
    assert(after.playback_queue =~= player.playback_queue.take(index as int)
        + player.playback_queue.skip(index + 1));
    assert forall|q: int| 0 <= q < after.order.len() implies (#[trigger] after.order[q])
        < after.playback_queue.len() && after.playback_queue[after.order[q] as int]
        == player.playback_queue[player.order[if q < k {
        q
    } else {
        q + 1
    }] as int] by {
        let old = order[if q < k {
            q
        } else {
            q + 1
        }];
        assert(old != index && old < player.playback_queue.len());
        assert(after.order[q] == renumbered(old, index));
    }
    if k < cursor {
        let rest = order.subrange(k + 1, cursor);
        assert(order.take(cursor) =~= order.take(k + 1) + rest);
        lemma_closed_up_concat(order.take(k + 1), rest, index);
        assert(!rest.contains(index)) by {
            if rest.contains(index) {
                assert(order[rest.index_of(index) + k + 1] == order[k]);
            }
        }
        lemma_all_kept(rest, index);
        assert(order[cursor - 1] == order[cursor - 1]);
        if cursor < order.len() {
            assert(order[cursor] != order[k]);
        }
    } else {
        let head = order.take(cursor);
        assert(!head.contains(index)) by {
            if head.contains(index) {
                assert(order[head.index_of(index)] == order[k]);
            }
        }
        lemma_all_kept(head, index);
        if cursor < k {
            assert(order[cursor] != order[k]);
        }
    }
}

/// A song that was opened plays from its beginning, as the entry that was asked
/// for and with the gain control on; nothing else changes. Where it could not
/// be opened everything stays.
pub proof fn law_opened_song_plays(
    player: PlayerView,
    request: LoadRequestView,
    shape_rate: Option<u32>,
    output: Option<OutputInfo>,
)
    ensures
        output is None ==> player.loaded(request, shape_rate, output) == player,
        output matches Some(info) ==> {
            let after = player.loaded(request, shape_rate, output);
            let song = after.playing_song->0;
            &&& after == (PlayerView { playing_song: after.playing_song, ..player })
            &&& after.playing_song is Some
            &&& song.queue_id == request.item.queue_id
            &&& song.song_id == request.item.song_id
            &&& song.qorigin == request.qorigin
            &&& song.source.song == request.song
            &&& song.source.elapsed_micros == 0
            &&& song.source.agc_enabled
            &&& song.source.player == Some(PlayerState { paused: false, empty: false })
            &&& song.source.sample_rate == Some(info.sample_rate)
            &&& song.source.channels == Some(info.channels)
        },
{
}

// ---------------------------------------------------------------------------
// Shuffle
// ---------------------------------------------------------------------------

/// Turning the shuffle off restores the chronological order, with the cursor on
/// the track that it stood on; nothing else changes.
pub proof fn law_unshuffled_is_chronological(
    player: PlayerView,
    collection: MusicCollection,
    after: PlayerView,
)
    requires
        player.shuffle_set(false, collection, after),
        player.is_shuffled,
        player.playback_queue.len() <= usize::MAX,
    ensures
        !after.is_shuffled,
        after.order.len() == player.playback_queue.len(),
        forall|i: int| 0 <= i < after.order.len() ==> #[trigger] after.order[i] == i,
        player.playback_queue.len() > 0 && player.cursor < player.order.len() ==> after.cursor
            == player.order[player.cursor as int],
        player.playback_queue.len() == 0 || player.cursor >= player.order.len() ==> after.cursor
            == 0,
        after == (PlayerView {
            is_shuffled: after.is_shuffled,
            order: after.order,
            cursor: after.cursor,
            ..player
        }),
{
}

/// Turning the shuffle on puts every track into the order once; a track of the
/// playback queue that plays comes first and stays current, and the others
/// follow so that the artists take turns. Nothing else changes.
pub proof fn law_shuffled_takes_turns(
    player: PlayerView,
    collection: MusicCollection,
    after: PlayerView,
)
    requires
        player.shuffle_set(true, collection, after),
        !player.is_shuffled,
        2 < player.playback_queue.len() <= usize::MAX,
        !(player.playing_song is Some && player.playing_song->0.qorigin == QueueKind::Normal
            && player.cursor < player.order.len()),
    ensures
        after.is_shuffled,
        after.cursor == 0,
        after == (PlayerView {
            is_shuffled: after.is_shuffled,
            order: after.order,
            cursor: after.cursor,
            ..player
        }),
        crate::sort::is_arrangement(after.order, player.playback_queue.len()),
        spreads_keys(
            Seq::new(
                player.playback_queue.len(),
                |i: int| crate::shuffle::cluster_of(player.playback_queue[i].song_id, collection),
            ),
            after.order,
        ),
{
    let n = player.playback_queue.len();
    let all = crate::shuffle::counting(n);
    let keys = player.clusters(all, collection);
    let p = choose|p: Seq<usize>| #[trigger]
        crate::shuffle::is_balanced(keys, p) && after.order == crate::sort::arranged(all, p);
    law_balanced_is_permutation(keys, p);
    law_balanced_spreads_keys(keys, p);
    assert(after.order =~= p);
    assert(keys =~= Seq::new(
        n,
        |i: int| crate::shuffle::cluster_of(player.playback_queue[i].song_id, collection),
    ));
}

/// While a track of the playback queue plays, the shuffle puts it first and
/// keeps it current; the others follow so that the artists take turns.
pub proof fn law_shuffled_behind_current(
    player: PlayerView,
    collection: MusicCollection,
    after: PlayerView,
) -> (others: Seq<usize>)
    requires
        player.shuffle_set(true, collection, after),
        !player.is_shuffled,
        player.wf(),
        3 < player.playback_queue.len() <= usize::MAX,
        player.playing_song is Some,
        player.playing_song->0.qorigin == QueueKind::Normal,
        player.cursor < player.order.len(),
    ensures
        after.is_shuffled,
        after.cursor == 0,
        after == (PlayerView {
            is_shuffled: after.is_shuffled,
            order: after.order,
            cursor: after.cursor,
            ..player
        }),
        after.order.len() == player.playback_queue.len(),
        after.order[0] == player.order[player.cursor as int],
        others.len() == player.playback_queue.len() - 1,
        forall|i: int|
            0 <= i < others.len() ==> #[trigger] others[i] == if i
                < player.order[player.cursor as int] {
                i
            } else {
                i + 1
            },
        exists|p: Seq<usize>|
            {
                &&& after.order.skip(1) == Seq::new(p.len(), |i: int| others[p[i] as int])
                &&& #[trigger] crate::sort::is_arrangement(p, others.len())
                &&& spreads_keys(
                    Seq::new(
                        others.len(),
                        |i: int|
                            crate::shuffle::cluster_of(
                                player.playback_queue[others[i] as int].song_id,
                                collection,
                            ),
                    ),
                    p,
                )
            },
{
    let n = player.playback_queue.len();
    let current = player.order[player.cursor as int];
    let others = player.others(current);
    assert(current < n);
    lemma_others_counted(n, current);
    let keys = player.clusters(others, collection);
    let p = choose|p: Seq<usize>| #[trigger]
        crate::shuffle::is_balanced(keys, p) && after.order.drop_first()
            == crate::sort::arranged(others, p);
    law_balanced_is_permutation(keys, p);
    law_balanced_spreads_keys(keys, p);
    assert(after.order.drop_first().len() == p.len());
    assert(after.order.skip(1) =~= Seq::new(p.len(), |i: int| others[p[i] as int]));
    assert(keys =~= Seq::new(
        others.len(),
        |i: int|
            crate::shuffle::cluster_of(
                player.playback_queue[others[i] as int].song_id,
                collection,
            ),
    ));
    assert(crate::sort::is_arrangement(p, others.len()));
    others
}

/// The numbers but for one, in order.
proof fn lemma_others_counted(n: nat, c: usize)
    requires
        n <= usize::MAX,
    ensures
        crate::audio::all_but(n, c).len() == if c < n {
            n - 1
        } else {
            n as int
        },
        forall|i: int|
            0 <= i < crate::audio::all_but(n, c).len() ==> #[trigger] crate::audio::all_but(
                n,
                c,
            )[i] == if i < c {
                i
            } else {
                i + 1
            },
    decreases n,
{
    reveal(Seq::filter);
    let all = crate::shuffle::counting(n);
    if n > 0 {
        let m = (n - 1) as nat;
        lemma_others_counted(m, c);
        assert(all.drop_last() =~= crate::shuffle::counting(m));
    }
}

// ---------------------------------------------------------------------------
// Commands
// ---------------------------------------------------------------------------

/// The command that brings a collection has the player keep it, and changes
/// nothing else.
pub proof fn law_collection_is_kept(
    before: PlayerView,
    shared: SharedOrchestra,
    snapshot: Option<MusicCollection>,
    after: PlayerView,
    action: ActionView,
)
    requires
        cmd_outcome(before, GlobalPlayerCmd::SetOrchestra(shared), snapshot, after, action),
    ensures
        after.orchestra == Some(shared),
        after == (PlayerView { orchestra: after.orchestra, ..before }),
        action == ActionView::Idle,
{
}

/// Songs that are queued by command come to the end of the queue, in their
/// order; nothing plays because of it.
pub proof fn law_queued_by_command(
    before: PlayerView,
    ids: Seq<Id>,
    snapshot: Option<MusicCollection>,
    after: PlayerView,
    action: ActionView,
    cmd: GlobalPlayerCmd,
)
    requires
        cmd == GlobalPlayerCmd::Enqueue(ids[0]) && ids.len() == 1 || (cmd
            matches GlobalPlayerCmd::EnqueueMany(list) && list@ == ids),
        cmd_outcome(before, cmd, snapshot, after, action),
        before.playback_queue.len() + ids.len() <= usize::MAX,
    ensures
        action == ActionView::Idle,
        after.playback_queue.len() == before.playback_queue.len() + ids.len(),
        after.playback_queue.take(before.playback_queue.len() as int) == before.playback_queue,
        forall|i: int|
            0 <= i < ids.len() ==> (#[trigger] after.playback_queue[before.playback_queue.len()
                + i]).song_id == ids[i],
        after.order.len() == before.order.len() + ids.len(),
        after.order.take(before.order.len() as int) == before.order,
        forall|i: int|
            0 <= i < ids.len() ==> #[trigger] after.order[before.order.len() + i]
                == before.playback_queue.len() + i,
        after == (PlayerView {
            playback_queue: after.playback_queue,
            order: after.order,
            ..before
        }),
{
    if cmd is Enqueue {
        assert(ids =~= seq![ids[0]]);
    }
    assert(enqueued(before, ids, after));
    let items = choose|items: Seq<QueueItem>|
        {
            &&& items.len() == ids.len()
            &&& forall|i: int|
                0 <= i < ids.len() ==> (#[trigger] items[i]).song_id == ids[i]
                    && crate::audio::is_random_uuid(items[i].queue_id)
            &&& after == #[trigger] before.appended(items)
        };
    law_appended_at_the_end(before, items);
    assert(after.playback_queue.take(before.playback_queue.len() as int)
        =~= before.playback_queue);
    assert forall|i: int| 0 <= i < ids.len() implies (
    #[trigger] after.playback_queue[before.playback_queue.len() + i]).song_id == ids[i] by {
        assert(after.playback_queue[before.playback_queue.len() + i] == items[i]);
    }
}

/// The other commands are a clearing, a play and a step to the next song;
/// without a collection a play and a step do nothing.
pub proof fn law_commands_do_as_named(
    before: PlayerView,
    cmd: GlobalPlayerCmd,
    snapshot: Option<MusicCollection>,
    after: PlayerView,
    action: ActionView,
)
    requires
        cmd_outcome(before, cmd, snapshot, after, action),
    ensures
        cmd is ClearQueue ==> after == before.cleared() && action == ActionView::Idle,
        (cmd is Play || cmd is Next) && snapshot is None ==> after == before && action
            == ActionView::Idle,
        cmd is Play && snapshot is Some ==> after == before.play(snapshot->0).0 && action
            == before.play(snapshot->0).1,
        cmd is Next && snapshot is Some ==> after == before.next(snapshot->0).0 && action
            == before.next(snapshot->0).2,
{
}

/// A turn of the loop serves the command that came. Where none came in time,
/// it tells how far the song is, if there is one, and goes on if the song has
/// ended. Where none will come, it stops.
pub proof fn law_loop_serves(
    before: PlayerView,
    event: LoopEvent,
    snapshot: Option<MusicCollection>,
    after: PlayerView,
    step: LoopStep,
)
    requires
        step_outcome(before, event, snapshot, after, step),
    ensures
        event matches LoopEvent::Command(cmd) ==> (step matches LoopStep::Continue { tick, action }
            && tick is None && cmd_outcome(before, cmd, snapshot, after, action@)),
        event is Disconnected ==> step is Stop && after == before,
        event is Timeout ==> (step matches LoopStep::Continue { tick, action } && {
            &&& before.playing_song is None <==> tick is None
            &&& tick matches Some(PlayerMsg::Tick(elapsed)) ==> elapsed.nanos()
                == before.playing_song->0.source.elapsed_micros * 1000
            &&& snapshot is Some ==> after == before.update(snapshot->0).0 && action@
                == before.update(snapshot->0).1
            &&& snapshot is None ==> after == before && action@ == ActionView::Idle
        }),
{
    if event is Timeout {
        assert(step matches LoopStep::Continue { tick, action } && is_heartbeat(before, tick));
    }
}

} // verus!
