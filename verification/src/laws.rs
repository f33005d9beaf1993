//! What holds of the player and of the pages across their operations.

use crate::album::AlbumMsg;
use crate::audio::{
    all_others, closed_up, lemma_all_kept, lemma_closed_up_concat, lemma_closed_up_step,
    lemma_others_named, lemma_without_wf, load, renumbered, ActionView, LoadRequestView, LoopMode, PlayerView, PlayingSongView,
    QueueId, QueueItem, QueueKind, REWIND_AFTER_MICROS,
};
use crate::commands::{cmd_outcome, cmd_ready, GlobalPlayerCmd};
use crate::shuffle::counting;
use crate::source::{AudioSourceView, OutputInfo};
use crate::supervisor::{
    effects_of, AppMsg, EffectView, LibraryMsg, Page, SupervisorView,
};
use crate::track::{Id, MusicCollection};
use vstd::prelude::*;

verus! {

/// A player whose order is whole can take every step.
pub proof fn law_whole_order_is_ready(player: PlayerView, queue_id: QueueId)
    requires
        player.wf(),
        player.order.len() < usize::MAX,
    ensures
        player.next_ready(),
        player.previous_ready(),
        player.update_ready(),
        player.play_ready(),
        player.search_ready(queue_id),
        player.next_cursor() <= usize::MAX,
        forall|p: int|
            player.upcoming_start() <= p < player.order.len() ==> #[trigger] player.names_entry(p),
{
    assert forall|p: int| 0 <= p < player.order.len() implies #[trigger] player.names_entry(p) by {
        assert(player.order[p] < player.playback_queue.len());
    }
}

/// A track that is inserted after the current one is what plays next, whatever
/// was queued before; after it the rest comes as it would have.
pub proof fn law_inserted_track_plays_next(
    player: PlayerView,
    item: QueueItem,
    collection: MusicCollection,
)
    ensures
        ({
            let (after, more, action) = player.inserted(item).next(collection);
            &&& more
            &&& action == load(item, QueueKind::Override, collection)
            &&& after.override_queue == player.override_queue
        }),
{
    assert(player.override_queue.insert(0, item).drop_first() =~= player.override_queue);
}

/// Where nothing overrides it, the first of the upcoming entries plays next,
/// and once it plays the others are upcoming.
pub proof fn law_next_plays_first_upcoming(
    player: PlayerView,
    collection: MusicCollection,
    request: LoadRequestView,
    shape_rate: Option<u32>,
    output: Option<OutputInfo>,
)
    requires
        player.override_queue.len() == 0,
        player.upcoming().len() > 0,
        player.order.len() <= usize::MAX,
        player.next(collection).2 == ActionView::Load(request),
        output is Some,
    ensures
        player.next(collection).1,
        player.next(collection).2 == load(player.upcoming()[0], QueueKind::Normal, collection),
        player.next(collection).0.loaded(request, shape_rate, output).upcoming()
            == player.upcoming().drop_first(),
{
    let after = player.next(collection).0.loaded(request, shape_rate, output);
    assert(player.next_cursor() < player.order.len());
    assert(after.normal_playing());
    assert(after.upcoming() =~= player.upcoming().drop_first());
}

/// The player after a step forward, with what it asks for opened.
pub open spec fn stepped(
    player: PlayerView,
    collection: MusicCollection,
    output: OutputInfo,
) -> PlayerView {
    let (after, _, action) = player.next(collection);
    match action {
        ActionView::Load(request) => after.loaded(request, None, Some(output)),
        _ => after,
    }
}

/// The player after `n` steps forward.
pub open spec fn walked(
    player: PlayerView,
    collection: MusicCollection,
    output: OutputInfo,
    n: nat,
) -> PlayerView
    decreases n,
{
    if n == 0 {
        player
    } else {
        stepped(walked(player, collection, output, (n - 1) as nat), collection, output)
    }
}

/// Step by step every upcoming track plays, in its order and once, and the
/// tracks that have played are on the history.
pub proof fn law_queue_plays_in_order(
    player: PlayerView,
    collection: MusicCollection,
    output: OutputInfo,
    n: nat,
)
    requires
        player.override_queue.len() == 0,
        player.order.len() <= usize::MAX,
        player.playing_song is None,
        n <= player.upcoming().len(),
        forall|i: int|
            0 <= i < player.upcoming().len() ==> collection.song(
                (#[trigger] player.upcoming()[i]).song_id,
            ) is Some,
    ensures
        ({
            let after = walked(player, collection, output, n);
            &&& after.upcoming() == player.upcoming().skip(n as int)
            &&& n > 0 ==> after.playing_song is Some && after.playing_song->0.item()
                == player.upcoming()[n - 1]
            &&& n > 0 ==> after.history == player.history + player.upcoming().take(n - 1)
        }),
{
    let all = player.upcoming();
    if n == 0 {
        assert(all.skip(0) =~= all);
    } else {
        lemma_walk(player, collection, output, n);
    }
}

proof fn lemma_walk(
    player: PlayerView,
    collection: MusicCollection,
    output: OutputInfo,
    n: nat,
)
    requires
        player.override_queue.len() == 0,
        player.order.len() <= usize::MAX,
        player.playing_song is None,
        0 < n <= player.upcoming().len(),
        forall|i: int|
            0 <= i < player.upcoming().len() ==> collection.song(
                (#[trigger] player.upcoming()[i]).song_id,
            ) is Some,
    ensures
        ({
            let after = walked(player, collection, output, n);
            &&& after == (PlayerView {
                cursor: (player.cursor + n - 1) as usize,
                playing_song: after.playing_song,
                history: player.history + player.upcoming().take(n - 1),
                ..player
            })
            &&& after.normal_playing()
            &&& after.playing_song->0.item() == player.upcoming()[n - 1]
            &&& after.upcoming() == player.upcoming().skip(n as int)
        }),
    decreases n,
{
    let all = player.upcoming();
    let before = walked(player, collection, output, (n - 1) as nat);
    let after = walked(player, collection, output, n);
    if n == 1 {
        assert(before == player);
        assert(all.take(0) =~= Seq::empty());
        assert(player.history + all.take(0) =~= player.history);
    } else {
        lemma_walk(player, collection, output, (n - 1) as nat);
        assert(player.history + all.take(n - 1) =~= (player.history + all.take(n - 2)).push(
            all[n - 2],
        ));
    }
    assert(before.item_at(before.next_cursor()) == all[n - 1]);
    assert(collection.song(all[n - 1].song_id) is Some);
    assert(after =~= (PlayerView {
        cursor: (player.cursor + n - 1) as usize,
        playing_song: after.playing_song,
        history: player.history + all.take(n - 1),
        ..player
    }));
    assert(after.upcoming() =~= all.skip(n as int));
}

/// After a jump forward through the playback queue a step back leads to the
/// track before the one that was jumped to, as if all between had played.
pub proof fn law_previous_after_jump(
    player: PlayerView,
    queue_id: QueueId,
    pos: int,
    collection: MusicCollection,
    request: LoadRequestView,
    shape_rate: Option<u32>,
    output: Option<OutputInfo>,
    elapsed_micros: u64,
)
    requires
        player.normal_playing(),
        player.found_at(queue_id, pos),
        player.cursor < pos <= usize::MAX,
        load(player.item_at(pos), QueueKind::Normal, collection) == ActionView::Load(request),
        output is Some,
        elapsed_micros <= REWIND_AFTER_MICROS,
    ensures
        ({
            let there = heard(
                player.jumped(pos).loaded(request, shape_rate, output),
                elapsed_micros,
            );
            let (back, action) = there.previous(collection);
            &&& there.playing_song->0.queue_id == queue_id
            &&& action == load(player.item_at(pos - 1), QueueKind::Normal, collection)
            &&& back.cursor == pos - 1
        }),
{
    let skipped = player.skipped(pos);
    assert(skipped.last() == player.item_at(pos - 1));
    assert((player.history + skipped).last() == skipped.last());
}

/// To remove a track that was just inserted is to undo the insertion.
pub proof fn law_remove_undoes_insert(player: PlayerView, item: QueueItem)
    ensures
        player.inserted(item).override_queue[0] == item,
        player.inserted(item).override_queue.remove(0) == player.override_queue,
        player.inserted(item) == (PlayerView {
            override_queue: player.inserted(item).override_queue,
            ..player
        }),
{
    assert(player.inserted(item).override_queue.remove(0) =~= player.override_queue);
}

/// The entries of a queue at these positions.
pub open spec fn entries(queue: Seq<QueueItem>, positions: Seq<usize>) -> Seq<QueueItem> {
    positions.map_values(|i: usize| queue[i as int])
}

/// Closing a queue up leaves every other entry under its new number.
proof fn lemma_entries_kept(queue: Seq<QueueItem>, positions: Seq<usize>, index: usize)
    requires
        index < queue.len(),
        forall|p: int| 0 <= p < positions.len() ==> #[trigger] positions[p] < queue.len(),
    ensures
        entries(queue.remove(index as int), closed_up(positions, index)) == entries(
            queue,
            all_others(positions, index),
        ),
{
    let closed = closed_up(positions, index);
    let kept = all_others(positions, index);
    lemma_others_named(positions, index);
    assert forall|p: int| 0 <= p < kept.len() implies queue.remove(
        index as int,
    )[#[trigger] closed[p] as int] == queue[kept[p] as int] by {
        assert(kept[p] != index);
        assert(positions.contains(kept[p]));
        assert(closed[p] == renumbered(kept[p], index));
    }
    assert(entries(queue.remove(index as int), closed) =~= entries(queue, kept));
}

/// What is left of the playback queue after a removal plays in the order that
/// it had, and the track that was removed is not to come.
pub proof fn law_remove_keeps_order(player: PlayerView, index: usize)
    requires
        player.wf(),
        index < player.playback_queue.len(),
    ensures
        ({
            let after = player.without(index);
            &&& after.wf()
            &&& entries(after.playback_queue, after.order) == entries(
                player.playback_queue,
                all_others(player.order, index),
            )
            &&& player.playback_queue.no_duplicates() ==> !after.upcoming().contains(
                player.playback_queue[index as int],
            )
        }),
{
    let after = player.without(index);
    lemma_without_wf(player, index);
    lemma_entries_kept(player.playback_queue, player.order, index);
    if player.playback_queue.no_duplicates() && after.upcoming().contains(
        player.playback_queue[index as int],
    ) {
        let i = after.upcoming().index_of(player.playback_queue[index as int]);
        let x = after.order[after.upcoming_start() + i];
        assert(x < after.playback_queue.len());
        assert(after.playback_queue[x as int] == player.playback_queue[if x < index {
            x as int
        } else {
            x + 1
        }]);
    }
}

/// A removal from the playback queue takes nothing else from what is upcoming.
/// Left out is the very first track while it plays: the track after it then
/// counts as the current one.
pub proof fn law_remove_keeps_upcoming(player: PlayerView, index: usize)
    requires
        player.wf(),
        index < player.playback_queue.len(),
        player.order.len() < usize::MAX,
        player.normal_playing() && player.cursor_on(index) ==> player.cursor > 0,
    ensures
        player.upcoming() == entries(
            player.playback_queue,
            player.order.skip(player.upcoming_start()),
        ),
        player.without(index).upcoming() == entries(
            player.playback_queue,
            all_others(player.order.skip(player.upcoming_start()), index),
        ),
{
    let after = player.without(index);
    let (start, cursor) = (player.upcoming_start(), player.cursor as int);
    let (head, tail) = (player.order.take(start), player.order.skip(start));
    let current = player.order.take(cursor);
    lemma_without_wf(player, index);
    assert(player.upcoming() =~= entries(player.playback_queue, tail));
    assert(player.order =~= head + tail);
    lemma_closed_up_concat(head, tail, index);
    if cursor < player.order.len() {
        lemma_closed_up_step(player.order, index, cursor);
        if player.cursor_on(index) {
            assert(!current.contains(index)) by {
                if current.contains(index) {
                    let p = current.index_of(index);
                    assert(player.order[p] == player.order[cursor]);
                }
            }
            lemma_all_kept(current, index);
        }
    }
    assert(after.upcoming_start() == closed_up(head, index).len());
    assert(after.order.skip(after.upcoming_start()) =~= closed_up(tail, index));
    lemma_entries_kept(player.playback_queue, tail, index);
    assert(after.upcoming() =~= entries(after.playback_queue, closed_up(tail, index)));
}

/// Where nothing is queued any more a step ends the playing; in the loop over
/// the queue its first track starts again.
pub proof fn law_end_of_queue(player: PlayerView, collection: MusicCollection)
    requires
        player.override_queue.len() == 0,
        player.upcoming().len() == 0,
    ensures
        !player.next(collection).1,
        player.next(collection).0.playing_song is None,
        player.next(collection).2 == ActionView::Idle,
        player.has_ended() && player.loop_mode == LoopMode::Queue && player.order.len() > 0 ==> {
            let (after, action) = player.update(collection);
            &&& after.cursor == 0
            &&& action == load(player.item_at(0), QueueKind::Normal, collection)
        },
{
    assert(player.upcoming_start() == player.order.len());
}

/// The player once so much of its song has been played.
pub open spec fn heard(player: PlayerView, elapsed_micros: u64) -> PlayerView {
    match player.playing_song {
        Some(song) => PlayerView {
            playing_song: Some(
                PlayingSongView {
                    source: AudioSourceView { elapsed_micros, ..song.source },
                    ..song
                },
            ),
            ..player
        },
        None => player,
    }
}

/// A step back undoes a step forward through the playback queue, while the
/// song that it led to is not well under way: it asks for the song that was
/// playing before, and queues, cursor and history are as they were.
pub proof fn law_previous_undoes_next(
    player: PlayerView,
    collection: MusicCollection,
    request: LoadRequestView,
    shape_rate: Option<u32>,
    output: Option<OutputInfo>,
    elapsed_micros: u64,
)
    requires
        player.normal_playing(),
        player.override_queue.len() == 0,
        player.cursor + 1 < player.order.len() <= usize::MAX,
        player.next(collection).2 == ActionView::Load(request),
        output is Some,
        elapsed_micros <= REWIND_AFTER_MICROS,
    ensures
        ({
            let there = heard(
                player.next(collection).0.loaded(request, shape_rate, output),
                elapsed_micros,
            );
            let (back, action) = there.previous(collection);
            &&& action == load(player.playing_song->0.item(), QueueKind::Normal, collection)
            &&& back == (PlayerView { playing_song: there.playing_song, ..player })
        }),
{
    let there = heard(
        player.next(collection).0.loaded(request, shape_rate, output),
        elapsed_micros,
    );
    let back = there.previous(collection).0;
    assert(there.history.drop_last() =~= player.history);
    assert(back =~= (PlayerView { playing_song: there.playing_song, ..player }));
}

/// What is appended to the queue comes last of what is upcoming. Left out is a
/// song that goes on playing after its queue was cleared: the cursor then
/// stands on the place of the new entry, which counts as the current one.
pub proof fn law_appended_comes_last(player: PlayerView, item: QueueItem)
    requires
        player.wf(),
        player.order.len() < usize::MAX,
        player.normal_playing() ==> player.cursor < player.order.len(),
    ensures
        player.appended(seq![item]).upcoming() == player.upcoming().push(item),
{
    let after = player.appended(seq![item]);
    assert forall|p: int| 0 <= p < player.order.len() implies #[trigger] after.item_at(p)
        == player.item_at(p) by {
        assert(player.order[p] < player.playback_queue.len());
    }
    assert(after.item_at(player.order.len() as int) == item);
    assert(after.upcoming() =~= player.upcoming().push(item));
}

/// Clearing the queue leaves the active song alone and nothing upcoming.
pub proof fn law_cleared_keeps_song(player: PlayerView)
    ensures
        player.cleared().playing_song == player.playing_song,
        player.cleared().upcoming().len() == 0,
        player.cleared().override_queue.len() == 0,
        player.cleared().wf(),
{
}

/// Turning the shuffle on keeps the track that is playing current, and turning
/// it off keeps the current track current.
pub proof fn law_shuffle_keeps_current(
    player: PlayerView,
    enabled: bool,
    collection: MusicCollection,
    after: PlayerView,
)
    requires
        player.shuffle_set(enabled, collection, after),
        player.cursor < player.order.len(),
        player.names_entry(player.cursor as int),
        player.playback_queue.len() <= usize::MAX,
        enabled ==> player.normal_playing(),
    ensures
        after.cursor < after.order.len(),
        after.item_at(after.cursor as int) == player.item_at(player.cursor as int),
{
}

/// Setting the shuffle to what it is changes nothing.
pub proof fn law_shuffle_set_twice(
    player: PlayerView,
    enabled: bool,
    collection: MusicCollection,
    once: PlayerView,
    twice: PlayerView,
)
    requires
        player.shuffle_set(enabled, collection, once),
        once.shuffle_set(enabled, collection, twice),
    ensures
        twice == once,
{
}

/// Turning the shuffle on and off again while a track of a queue in
/// chronological order plays leaves everything as it was.
pub proof fn law_shuffle_round_trip(
    player: PlayerView,
    collection: MusicCollection,
    shuffled: PlayerView,
    restored: PlayerView,
)
    requires
        !player.is_shuffled,
        player.normal_playing(),
        player.order == counting(player.playback_queue.len()),
        player.playback_queue.len() <= usize::MAX,
        player.cursor < player.order.len(),
        player.shuffle_set(true, collection, shuffled),
        shuffled.shuffle_set(false, collection, restored),
    ensures
        restored == player,
{
    assert(restored =~= player);
}

/// A song that cannot be opened changes nothing.
pub proof fn law_failed_load_changes_nothing(
    player: PlayerView,
    request: LoadRequestView,
    shape_rate: Option<u32>,
)
    ensures
        player.loaded(request, shape_rate, None) == player,
{
}

/// In the loop over one track a song that has ended starts again, and nothing
/// else changes.
pub proof fn law_track_loop_repeats(player: PlayerView, collection: MusicCollection)
    requires
        player.has_ended(),
        player.loop_mode == LoopMode::Track,
    ensures
        player.update(collection).0 == player,
        player.update(collection).1 == load(
            player.playing_song->0.item(),
            player.playing_song->0.qorigin,
            collection,
        ),
{
}

/// To play a song from the library is to play that song and have nothing else
/// queued. Left out is a song that is paused: it goes on instead.
pub proof fn law_library_plays_song(
    state: SupervisorView,
    id: Id,
    player: PlayerView,
    collection: MusicCollection,
    cleared: PlayerView,
    queued: PlayerView,
    playing: PlayerView,
    idle: (ActionView, ActionView),
    action: ActionView,
)
    requires
        !(player.playing_song is Some && player.playing_song->0.source.paused()),
        cmd_outcome(player, GlobalPlayerCmd::ClearQueue, Some(collection), cleared, idle.0),
        cmd_outcome(cleared, GlobalPlayerCmd::Enqueue(id), Some(collection), queued, idle.1),
        cmd_outcome(queued, GlobalPlayerCmd::Play, Some(collection), playing, action),
    ensures
        effects_of(state, AppMsg::Library(LibraryMsg::Play(id)), false, None) == seq![
            EffectView::Player(GlobalPlayerCmd::ClearQueue),
            EffectView::Player(GlobalPlayerCmd::Enqueue(id)),
            EffectView::Player(GlobalPlayerCmd::Play),
        ],
        cmd_ready(player, GlobalPlayerCmd::ClearQueue),
        cmd_ready(cleared, GlobalPlayerCmd::Enqueue(id)),
        cmd_ready(queued, GlobalPlayerCmd::Play),
        playing.playback_queue.len() == 1,
        playing.playback_queue[0].song_id == id,
        playing.override_queue.len() == 0,
        playing.history.len() == 0,
        action == load(playing.playback_queue[0], QueueKind::Normal, collection),
{
}

/// An album that is looked at leaves the rest of the pages as they were.
pub proof fn law_album_and_back(state: SupervisorView, album_id: Id)
    ensures
        ({
            let there = state.after_library(LibraryMsg::ClickAlbum(album_id));
            let back = there.after_album(AlbumMsg::GotoLibrary);
            &&& there.current_page == Page::Album
            &&& there.album_page.album_id == album_id
            &&& back == (SupervisorView {
                current_page: Page::Library,
                album_page: there.album_page,
                ..state
            })
        }),
{
}

/// The pointer that has left a song is over none, and nothing else changes.
pub proof fn law_hover_and_leave(state: SupervisorView, id: Id)
    requires
        state.album_page.hovered_song_id is None,
    ensures
        state.after_album(AlbumMsg::HoverSong(id)).after_album(AlbumMsg::HoverSongQuit) == state,
{
}

} // verus!
