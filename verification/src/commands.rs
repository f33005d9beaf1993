//! The commands that reach the player, and the loop that serves them.

use crate::audio::{
    is_random_uuid, Action, ActionView, LoopMode, MusicPlayer, PlayerView, QueueItem, QueueKind,
};
use crate::shared::{is_snapshot_of, SharedOrchestra};
use crate::time::Duration;
use crate::track::{held, Id, MusicCollection};
use vstd::prelude::*;

verus! {

pub enum GlobalPlayerCmd {
    SetOrchestra(SharedOrchestra),
    Enqueue(Id),
    EnqueueMany(Vec<Id>),
    ClearQueue,
    Play,
    Next,
}

/// What the player tells the pages.
#[derive(Clone, Copy, Debug, PartialEq, Eq, Structural)]
pub enum PlayerMsg {
    /// How much of the song has been played.
    Tick(Duration),
}

/// What ends a wait of the player's loop.
pub enum LoopEvent {
    Command(GlobalPlayerCmd),
    /// Nothing came in time.
    Timeout,
    /// Nothing will come any more.
    Disconnected,
}

/// What one turn of the player's loop comes to.
pub enum LoopStep {
    Stop,
    Continue { tick: Option<PlayerMsg>, action: Action },
}

/// How long the loop waits for a command while a song is playing, in
/// milliseconds.
pub const HEARTBEAT_MILLIS: u64 = 500;

/// `after` has an entry for each of these songs at the end of the playback
/// queue, each with a random identity.
pub open spec fn enqueued(before: PlayerView, ids: Seq<Id>, after: PlayerView) -> bool {
    exists|items: Seq<QueueItem>|
        {
            &&& items.len() == ids.len()
            &&& forall|i: int|
                0 <= i < ids.len() ==> (#[trigger] items[i]).song_id == ids[i] && is_random_uuid(
                    items[i].queue_id,
                )
            &&& after == #[trigger] before.appended(items)
        }
}

/// What a command makes of the player, and what it asks for. Without a
/// collection nothing can be played.
pub open spec fn cmd_outcome(
    before: PlayerView,
    cmd: GlobalPlayerCmd,
    snapshot: Option<MusicCollection>,
    after: PlayerView,
    action: ActionView,
) -> bool {
    match cmd {
        GlobalPlayerCmd::SetOrchestra(orchestra) => {
            &&& after == (PlayerView { orchestra: Some(orchestra), ..before })
            &&& action == ActionView::Idle
        },
        GlobalPlayerCmd::Enqueue(song_id) => {
            &&& enqueued(before, seq![song_id], after)
            &&& action == ActionView::Idle
        },
        GlobalPlayerCmd::EnqueueMany(ids) => {
            &&& enqueued(before, ids@, after)
            &&& action == ActionView::Idle
        },
        GlobalPlayerCmd::ClearQueue => after == before.cleared() && action == ActionView::Idle,
        GlobalPlayerCmd::Play => match snapshot {
            Some(collection) => (after, action) == before.play(collection),
            None => after == before && action == ActionView::Idle,
        },
        GlobalPlayerCmd::Next => match snapshot {
            Some(collection) => after == before.next(collection).0 && action == before.next(
                collection,
            ).2,
            None => after == before && action == ActionView::Idle,
        },
    }
}

/// The player can take the command: what it would play is there.
pub open spec fn cmd_ready(before: PlayerView, cmd: GlobalPlayerCmd) -> bool {
    match cmd {
        GlobalPlayerCmd::Play => before.play_ready(),
        GlobalPlayerCmd::Next => before.next_ready(),
        _ => true,
    }
}

/// The tick that goes out when a wait ends without a command.
pub open spec fn is_heartbeat(before: PlayerView, tick: Option<PlayerMsg>) -> bool {
    match before.playing_song {
        Some(song) => tick matches Some(PlayerMsg::Tick(elapsed)) && elapsed.nanos()
            == song.source.elapsed_micros * 1000,
        None => tick is None,
    }
}

/// What one turn of the loop makes of the player.
pub open spec fn step_outcome(
    before: PlayerView,
    event: LoopEvent,
    snapshot: Option<MusicCollection>,
    after: PlayerView,
    step: LoopStep,
) -> bool {
    match event {
        LoopEvent::Command(cmd) => step matches LoopStep::Continue { tick, action } && tick is None
            && cmd_outcome(before, cmd, snapshot, after, action@),
        LoopEvent::Timeout => step matches LoopStep::Continue { tick, action } && is_heartbeat(
            before,
            tick,
        ) && match snapshot {
            Some(collection) => (after, action@) == before.update(collection),
            None => after == before && action@ == ActionView::Idle,
        },
        LoopEvent::Disconnected => step is Stop && after == before,
    }
}

pub open spec fn step_ready(before: PlayerView, event: LoopEvent) -> bool {
    match event {
        LoopEvent::Command(cmd) => cmd_ready(before, cmd),
        LoopEvent::Timeout => before.update_ready(),
        LoopEvent::Disconnected => true,
    }
}

impl MusicPlayer {
    /// Appends tracks to the end of the playback queue.
    fn enqueue_many(&mut self, ids: &Vec<Id>)
        ensures
            enqueued(old(self)@, ids@, final(self)@),
            old(self)@.wf() ==> final(self)@.wf(),
    {
        let ghost mut items: Seq<QueueItem> = Seq::empty();
        let mut i: usize = 0;
        assert(self@ =~= old(self)@.appended(items));
        while i < ids.len()
            invariant
                i <= ids@.len(),
                items.len() == i,
                forall|j: int|
                    0 <= j < i ==> (#[trigger] items[j]).song_id == ids@[j] && is_random_uuid(
                        items[j].queue_id,
                    ),
                self@ == old(self)@.appended(items),
                old(self)@.wf() ==> self@.wf(),
            decreases ids@.len() - i,
        {
            let item = QueueItem::new(ids[i]);
            self.append(item);
            proof {
                items = items.push(item);
                assert(self@ =~= old(self)@.appended(items));
            }
            i = i + 1;
        }
    }

    /// Plays: a song that is paused goes on, otherwise the track at the cursor
    /// starts.
    fn play(&mut self, collection: &MusicCollection) -> (action: Action)
        requires
            old(self)@.play_ready(),
        ensures
            (final(self)@, action@) == old(self)@.play(*collection),
            old(self)@.wf() ==> final(self)@.wf(),
    {
        if let Some(song) = &mut self.playing_song {
            if song.source.is_paused() {
                let _ = song.source.play();
                return Action::Resume;
            }
        }
        self.play_current(collection)
    }

    /// Takes a command, with the collection as it stands. What it asks for.
    pub fn handle_cmd_with(
        &mut self,
        cmd: GlobalPlayerCmd,
        snapshot: Option<&MusicCollection>,
    ) -> (action: Action)
        requires
            snapshot is Some ==> cmd_ready(old(self)@, cmd),
        ensures
            cmd_outcome(
                old(self)@,
                cmd,
                held(snapshot),
                final(self)@,
                action@,
            ),
            old(self)@.wf() ==> final(self)@.wf(),
    {
        match cmd {
            GlobalPlayerCmd::SetOrchestra(orchestra) => {
                self.orchestra = Some(orchestra);
                Action::Idle
            },
            GlobalPlayerCmd::Enqueue(song_id) => {
                self.enqueue(song_id);
                proof {
                    let item = choose|item: QueueItem|
                        item.song_id == song_id && is_random_uuid(item.queue_id) && self@
                            == #[trigger] old(self)@.appended(seq![item]);
                    assert(enqueued(old(self)@, seq![song_id], self@)) by {
                        let items = seq![item];
                        assert(self@ == old(self)@.appended(items));
                    }
                }
                Action::Idle
            },
            GlobalPlayerCmd::EnqueueMany(ids) => {
                self.enqueue_many(&ids);
                Action::Idle
            },
            GlobalPlayerCmd::ClearQueue => {
                self.clear_queue();
                Action::Idle
            },
            GlobalPlayerCmd::Play => match snapshot {
                Some(collection) => self.play(collection),
                None => Action::Idle,
            },
            GlobalPlayerCmd::Next => match snapshot {
                Some(collection) => {
                    let (_, action) = self.next(collection);
                    action
                },
                None => Action::Idle,
            },
        }
    }

    /// Takes a command, with the collection that the shared storage holds at
    /// the moment. What it asks for.
    pub fn handle_cmd(&mut self, cmd: GlobalPlayerCmd) -> (action: Action)
        requires
            old(self).orchestra is Some ==> cmd_ready(old(self)@, cmd),
        ensures
            exists|snapshot: Option<MusicCollection>|
                {
                    &&& snapshot is Some <==> old(self).orchestra is Some
                    &&& snapshot is Some ==> is_snapshot_of(snapshot->0, old(self).orchestra->0)
                    &&& #[trigger] cmd_outcome(
                        old(self)@,
                        cmd,
                        snapshot,
                        final(self)@,
                        action@,
                    )
                },
            old(self)@.wf() ==> final(self)@.wf(),
    {
        let loaded = match &self.orchestra {
            Some(shared) => Some(shared.load()),
            None => None,
        };
        match &loaded {
            Some(orchestra) => self.handle_cmd_with(cmd, Some(&orchestra.collection)),
            None => self.handle_cmd_with(cmd, None),
        }
    }

    /// Whether the place `pos` of the order names an entry, if it is one.
    fn place_is_named(&self, pos: usize) -> (named: bool)
        ensures
            named == (pos < self@.order.len() ==> self@.names_entry(pos as int)),
    {
        pos >= self.order.len() || self.order[pos] < self.playback_queue.len()
    }

    /// Whether a step to the next song can be taken.
    fn can_go_on(&self) -> (ready: bool)
        ensures
            ready == self@.next_ready(),
    {
        if self.override_queue.len() > 0 {
            return true;
        }
        match &self.playing_song {
            Some(song) => if song.qorigin == QueueKind::Normal {
                self.cursor < usize::MAX && self.place_is_named(self.cursor + 1)
            } else {
                self.place_is_named(self.cursor)
            },
            None => self.place_is_named(self.cursor),
        }
    }

    /// Whether the player can take the event: what the turn would read is
    /// there.
    pub fn can_step(&self, event: &LoopEvent) -> (ready: bool)
        ensures
            ready == step_ready(self@, *event),
    {
        match event {
            LoopEvent::Command(GlobalPlayerCmd::Play) => match &self.playing_song {
                Some(song) => song.source.is_paused() || self.place_is_named(self.cursor),
                None => self.place_is_named(self.cursor),
            },
            LoopEvent::Command(GlobalPlayerCmd::Next) => self.can_go_on(),
            LoopEvent::Command(_) => true,
            LoopEvent::Timeout => match &self.playing_song {
                Some(song) => {
                    if !song.source.has_ended() || self.loop_mode == LoopMode::Track {
                        true
                    } else if self.loop_mode == LoopMode::Queue && self.override_queue.len() == 0
                        && self.order.len() > 0 && self.at_end() {
                        self.can_go_on() && self.place_is_named(0)
                    } else {
                        self.can_go_on()
                    }
                },
                None => true,
            },
            LoopEvent::Disconnected => true,
        }
    }

    /// Whether the order holds nothing after the current track.
    fn at_end(&self) -> (ends: bool)
        ensures
            ends == (self@.next_cursor() >= self@.order.len()),
    {
        match &self.playing_song {
            Some(song) => if song.qorigin == QueueKind::Normal {
                self.order.len() == 0 || self.cursor >= self.order.len() - 1
            } else {
                self.cursor >= self.order.len()
            },
            None => self.cursor >= self.order.len(),
        }
    }

    /// How long the loop is to wait for a command: a heartbeat while a song is
    /// playing, and otherwise until one comes.
    pub fn wait(&self) -> (limit: Option<Duration>)
        ensures
            limit is Some <==> self@.playing_song is Some
                && self@.playing_song->0.source.playing(),
            limit matches Some(heartbeat) ==> heartbeat.nanos() == HEARTBEAT_MILLIS * 1000000,
    {
        match &self.playing_song {
            Some(song) => if song.source.is_playing() {
                Some(Duration::from_millis(HEARTBEAT_MILLIS))
            } else {
                None
            },
            None => None,
        }
    }

    /// One turn of the loop, with the collection as it stands.
    pub fn step_with(&mut self, event: LoopEvent, snapshot: Option<&MusicCollection>) -> (step:
        LoopStep)
        requires
            snapshot is Some ==> step_ready(old(self)@, event),
        ensures
            step_outcome(
                old(self)@,
                event,
                held(snapshot),
                final(self)@,
                step,
            ),
            old(self)@.wf() ==> final(self)@.wf(),
    {
        match event {
            LoopEvent::Command(cmd) => {
                let action = self.handle_cmd_with(cmd, snapshot);
                LoopStep::Continue { tick: None, action }
            },
            LoopEvent::Timeout => {
                let tick = match &self.playing_song {
                    Some(song) => Some(PlayerMsg::Tick(song.source.elapsed())),
                    None => None,
                };
                let action = match snapshot {
                    Some(collection) => self.update(collection),
                    None => Action::Idle,
                };
                LoopStep::Continue { tick, action }
            },
            LoopEvent::Disconnected => LoopStep::Stop,
        }
    }

    /// One turn of the loop, with the collection that the shared storage holds
    /// at the moment.
    pub fn step(&mut self, event: LoopEvent) -> (step: LoopStep)
        requires
            old(self).orchestra is Some ==> step_ready(old(self)@, event),
        ensures
            exists|snapshot: Option<MusicCollection>|
                {
                    &&& snapshot is Some <==> old(self).orchestra is Some
                    &&& snapshot is Some ==> is_snapshot_of(snapshot->0, old(self).orchestra->0)
                    &&& #[trigger] step_outcome(
                        old(self)@,
                        event,
                        snapshot,
                        final(self)@,
                        step,
                    )
                },
            old(self)@.wf() ==> final(self)@.wf(),
    {
        let loaded = match &self.orchestra {
            Some(shared) => Some(shared.load()),
            None => None,
        };
        match &loaded {
            Some(orchestra) => self.step_with(event, Some(&orchestra.collection)),
            None => self.step_with(event, None),
        }
    }
}

} // verus!
