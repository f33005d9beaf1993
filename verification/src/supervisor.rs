//! The supervisor: which page is shown, what the pages hold, and what every
//! message makes of them.

use crate::album::{AlbumMsg, AlbumState};
use crate::commands::{GlobalPlayerCmd, PlayerMsg};
use crate::library::{
    is_sorted_collection, song_views, sort_collection, ActiveFilter, FilterTag, LibraryState,
    Order, SortMetric,
};
use crate::shared::{is_snapshot_of, snapshots, SharedOrchestra};
use crate::time::Duration;
use crate::track::{held, Artist, Id, MusicCollection, Orchestra, SongView};
use std::sync::Arc;
use vstd::prelude::*;
use vstd::string::*;

verus! {

// ---------------------------------------------------------------------------
// Pages
// ---------------------------------------------------------------------------

#[derive(Clone, Copy, Debug, PartialEq, Eq, Structural)]
pub enum Page {
    Landing,
    Library,
    Album,
}

#[derive(Clone, Copy, Debug, PartialEq, Eq, Structural)]
pub enum Theme {
    Light,
    Dark,
}

/// How a page comes into view or leaves it.
#[derive(Clone, Copy, Debug, PartialEq, Eq, Structural)]
pub enum Motion {
    FadeIn,
    SlideInBottom,
    SlideOutBottom,
    Stationary,
}

/// How one page gives way to another.
#[derive(Clone, Copy, Debug, PartialEq, Eq, Structural)]
pub enum PageTransition {
    /// One page fades into the other.
    Fade,
    /// Each page moves in its own way.
    Asymmetric { enter: Motion, exit: Motion },
}

/// How long a transition takes, in milliseconds.
pub const TRANSITION_MILLIS: u64 = 220;

/// An album slides in over the library and slides out again; all other pages
/// fade.
pub open spec fn transition_between(from: Page, to: Page) -> PageTransition {
    if from == Page::Album {
        PageTransition::Asymmetric { enter: Motion::FadeIn, exit: Motion::SlideOutBottom }
    } else if from == Page::Library && to == Page::Album {
        PageTransition::Asymmetric { enter: Motion::SlideInBottom, exit: Motion::Stationary }
    } else {
        PageTransition::Fade
    }
}

pub fn transition(from: Page, to: Page) -> (t: PageTransition)
    ensures
        t == transition_between(from, to),
{
    match from {
        Page::Landing => PageTransition::Fade,
        Page::Library => match to {
            Page::Album => PageTransition::Asymmetric {
                enter: Motion::SlideInBottom,
                exit: Motion::Stationary,
            },
            _ => PageTransition::Fade,
        },
        Page::Album => PageTransition::Asymmetric {
            enter: Motion::FadeIn,
            exit: Motion::SlideOutBottom,
        },
    }
}

// ---------------------------------------------------------------------------
// Messages
// ---------------------------------------------------------------------------

/// What the indexer tells the pages.
pub enum OrchestraMsg {
    Ready(SharedOrchestra),
    NeedIndexing,
    /// The file that is being indexed.
    Indexing(String),
}

pub enum LandingMsg {
    StartIndexing,
    FolderPicked(String),
    PickFolder,
}

#[derive(Clone, Copy, Debug, PartialEq, Eq, Structural)]
pub enum LibraryMsg {
    HoverSong(Id),
    SetFilterTag(FilterTag),
    SetFilterOrder(Order),
    SetSortMetric(SortMetric),
    ClickArtist(Id),
    ClickAlbum(Id),
    SetListRunOffset(usize),
    Play(Id),
}

pub enum AppMsg {
    Orchestra(OrchestraMsg),
    Landing(LandingMsg),
    Library(LibraryMsg),
    AlbumPage(AlbumMsg),
    Player(PlayerMsg),
}

/// What the pages ask of the indexer.
pub enum MuCommand {
    StartIndexing(String),
    /// Let the user pick a folder, and hand it to [`folder_picked`].
    PickFolder,
}

/// What a message asks for beyond a change of the state.
pub enum Effect {
    Player(GlobalPlayerCmd),
    Mu(MuCommand),
    /// Print the artist.
    ShowArtist(Option<Artist>),
}

#[verifier::ext_equal]
pub enum EffectView {
    Player(GlobalPlayerCmd),
    StartIndexing(Seq<char>),
    PickFolder,
    ShowArtist(Option<(Id, Seq<char>)>),
}

impl View for Effect {
    type V = EffectView;

    open spec fn view(&self) -> EffectView {
        match *self {
            Effect::Player(cmd) => EffectView::Player(cmd),
            Effect::Mu(MuCommand::StartIndexing(dir)) => EffectView::StartIndexing(dir@),
            Effect::Mu(MuCommand::PickFolder) => EffectView::PickFolder,
            Effect::ShowArtist(None) => EffectView::ShowArtist(None),
            Effect::ShowArtist(Some(artist)) => EffectView::ShowArtist(
                Some((artist.id, artist.name@)),
            ),
        }
    }
}

/// The contents of a list of effects.
pub open spec fn effect_views(effects: Seq<Effect>) -> Seq<EffectView> {
    effects.map_values(|e: Effect| e@)
}

/// The message of the indexer that the collection is there.
pub fn index_ready(orchestra: Orchestra) -> (msg: AppMsg)
    ensures
        msg matches AppMsg::Orchestra(OrchestraMsg::Ready(shared)) && snapshots(shared).contains(
            orchestra,
        ),
{
    AppMsg::Orchestra(OrchestraMsg::Ready(SharedOrchestra::new(orchestra)))
}

/// The message that the user has picked a folder.
pub fn folder_picked(folder: String) -> (msg: AppMsg)
    ensures
        msg == AppMsg::Landing(LandingMsg::FolderPicked(folder)),
{
    AppMsg::Landing(LandingMsg::FolderPicked(folder))
}

// ---------------------------------------------------------------------------
// The state
// ---------------------------------------------------------------------------

pub struct LandingState {
    pub log: Option<String>,
    pub is_indexing: bool,
    pub error: Option<String>,
    pub music_dir: String,
}

impl Default for LandingState {
    fn default() -> (state: LandingState)
        ensures
            state.log is None,
            !state.is_indexing,
            state.error is None,
            state.music_dir@.len() == 0,
    {
        LandingState { log: None, is_indexing: false, error: None, music_dir: String::new() }
    }
}

pub struct Supervisor {
    pub current_page: Page,
    /// How much of the song has been played.
    pub progress: Duration,
    pub landing: LandingState,
    pub library: LibraryState,
    pub album_page: AlbumState,
    pub theme: Theme,
    pub orchestra: Option<SharedOrchestra>,
}

#[verifier::ext_equal]
pub struct LandingView {
    pub log: Option<Seq<char>>,
    pub is_indexing: bool,
    pub error: Option<Seq<char>>,
    pub music_dir: Seq<char>,
}

#[verifier::ext_equal]
pub struct LibraryView {
    pub hovered_song: Option<Id>,
    pub active_filter: ActiveFilter,
    pub sorted_songs: Seq<SongView>,
    pub list_run_offset: usize,
}

#[verifier::ext_equal]
pub struct SupervisorView {
    pub current_page: Page,
    pub progress: Duration,
    pub landing: LandingView,
    pub library: LibraryView,
    pub album_page: AlbumState,
    pub theme: Theme,
    pub orchestra: Option<SharedOrchestra>,
}

/// The contents of a text that may be missing.
pub open spec fn maybe_text(text: Option<String>) -> Option<Seq<char>> {
    match text {
        Some(t) => Some(t@),
        None => None,
    }
}

impl View for Supervisor {
    type V = SupervisorView;

    open spec fn view(&self) -> SupervisorView {
        SupervisorView {
            current_page: self.current_page,
            progress: self.progress,
            landing: LandingView {
                log: maybe_text(self.landing.log),
                is_indexing: self.landing.is_indexing,
                error: maybe_text(self.landing.error),
                music_dir: self.landing.music_dir@,
            },
            library: LibraryView {
                hovered_song: self.library.hovered_song,
                active_filter: self.library.active_filter,
                sorted_songs: song_views(self.library.sorted_songs@),
                list_run_offset: self.library.list_run_offset,
            },
            album_page: self.album_page,
            theme: self.theme,
            orchestra: self.orchestra,
        }
    }
}

impl Supervisor {
    /// The state that the program starts in: the landing page, and no
    /// collection yet.
    pub fn new() -> (state: Supervisor)
        ensures
            state@.current_page == Page::Landing,
            state@.progress.nanos() == 0,
            state@.landing == (LandingView {
                log: None,
                is_indexing: false,
                error: None,
                music_dir: Seq::empty(),
            }),
            state@.library == (LibraryView {
                hovered_song: None,
                active_filter: ActiveFilter {
                    tag: FilterTag::Songs,
                    order: Order::Asc,
                    metric: SortMetric::ByDate,
                },
                sorted_songs: Seq::empty(),
                list_run_offset: 0,
            }),
            state@.album_page == (AlbumState { album_id: 0, hovered_song_id: None }),
            state@.theme == Theme::Light,
            state@.orchestra is None,
    {
        Supervisor {
            current_page: Page::Landing,
            progress: Duration::from_secs(0),
            landing: LandingState::default(),
            library: LibraryState::default(),
            album_page: AlbumState::default(),
            theme: Theme::Light,
            orchestra: None,
        }
    }
}

// ---------------------------------------------------------------------------
// Updates
// ---------------------------------------------------------------------------

impl SupervisorView {
    pub open spec fn with_filter(self, active_filter: ActiveFilter) -> SupervisorView {
        SupervisorView { library: LibraryView { active_filter, ..self.library }, ..self }
    }

    pub open spec fn with_sorted_songs(self, sorted_songs: Seq<SongView>) -> SupervisorView {
        SupervisorView { library: LibraryView { sorted_songs, ..self.library }, ..self }
    }

    /// What a message of the indexer makes of the state.
    pub open spec fn after_orchestra(self, msg: OrchestraMsg) -> SupervisorView {
        match msg {
            OrchestraMsg::Ready(orchestra) => SupervisorView {
                landing: LandingView { log: None, is_indexing: true, ..self.landing },
                orchestra: Some(orchestra),
                current_page: Page::Library,
                ..self
            },
            OrchestraMsg::NeedIndexing => SupervisorView {
                landing: LandingView { is_indexing: false, ..self.landing },
                ..self
            },
            OrchestraMsg::Indexing(file_path) => SupervisorView {
                landing: LandingView { log: Some("+ "@ + file_path@), ..self.landing },
                ..self
            },
        }
    }

    /// What a message of the landing page makes of the state.
    pub open spec fn after_landing(self, msg: LandingMsg, music_dir_exists: bool) -> SupervisorView {
        match msg {
            LandingMsg::StartIndexing => if music_dir_exists {
                SupervisorView {
                    landing: LandingView { is_indexing: true, error: None, ..self.landing },
                    ..self
                }
            } else {
                SupervisorView {
                    landing: LandingView {
                        error: Some("Directory does not exist or is invalid"@),
                        ..self.landing
                    },
                    ..self
                }
            },
            LandingMsg::FolderPicked(folder) => SupervisorView {
                landing: LandingView { music_dir: folder@, error: None, ..self.landing },
                ..self
            },
            LandingMsg::PickFolder => self,
        }
    }

    /// What a message of the library page makes of the state, but for the list
    /// of songs.
    pub open spec fn after_library(self, msg: LibraryMsg) -> SupervisorView {
        match msg {
            LibraryMsg::HoverSong(id) => SupervisorView {
                library: LibraryView { hovered_song: Some(id), ..self.library },
                ..self
            },
            LibraryMsg::SetFilterTag(tag) => self.with_filter(
                ActiveFilter { tag, ..self.library.active_filter },
            ),
            LibraryMsg::SetFilterOrder(order) => self.with_filter(
                ActiveFilter { order, ..self.library.active_filter },
            ),
            LibraryMsg::SetSortMetric(metric) => self.with_filter(
                ActiveFilter { metric, ..self.library.active_filter },
            ),
            LibraryMsg::ClickArtist(_) => self,
            LibraryMsg::ClickAlbum(album_id) => SupervisorView {
                album_page: AlbumState { album_id, hovered_song_id: None },
                current_page: Page::Album,
                ..self
            },
            LibraryMsg::SetListRunOffset(offset) => SupervisorView {
                library: LibraryView { list_run_offset: offset, ..self.library },
                ..self
            },
            LibraryMsg::Play(_) => self,
        }
    }

    /// What a message of the album page makes of the state.
    pub open spec fn after_album(self, msg: AlbumMsg) -> SupervisorView {
        match msg {
            AlbumMsg::GotoLibrary => SupervisorView { current_page: Page::Library, ..self },
            AlbumMsg::ClickArtist(_) => self,
            AlbumMsg::HoverSong(id) => SupervisorView {
                album_page: AlbumState { hovered_song_id: Some(id), ..self.album_page },
                ..self
            },
            AlbumMsg::HoverSongQuit => SupervisorView {
                album_page: AlbumState { hovered_song_id: None, ..self.album_page },
                ..self
            },
        }
    }

    /// What a message makes of the state, but for the library's list of songs.
    pub open spec fn after(self, msg: AppMsg, music_dir_exists: bool) -> SupervisorView {
        match msg {
            AppMsg::Orchestra(m) => self.after_orchestra(m),
            AppMsg::Landing(m) => self.after_landing(m, music_dir_exists),
            AppMsg::Library(m) => self.after_library(m),
            AppMsg::AlbumPage(m) => self.after_album(m),
            AppMsg::Player(PlayerMsg::Tick(progress)) => SupervisorView { progress, ..self },
        }
    }

    /// The message has the library's list of songs sorted anew: a collection
    /// has come, or the filter of a list of songs was set.
    pub open spec fn resorts(self, msg: AppMsg) -> bool {
        match msg {
            AppMsg::Orchestra(OrchestraMsg::Ready(_)) => true,
            AppMsg::Library(LibraryMsg::SetFilterTag(tag)) => tag == FilterTag::Songs,
            AppMsg::Library(LibraryMsg::SetFilterOrder(_)) => self.library.active_filter.tag
                == FilterTag::Songs,
            AppMsg::Library(LibraryMsg::SetSortMetric(_)) => self.library.active_filter.tag
                == FilterTag::Songs,
            _ => false,
        }
    }

    /// The state `sorted` is this one, with the songs of the collection listed
    /// as the filter asks; without a collection it is this one.
    pub open spec fn is_sorted_as(
        self,
        snapshot: Option<MusicCollection>,
        sorted: SupervisorView,
    ) -> bool {
        match snapshot {
            Some(collection) => {
                &&& sorted == self.with_sorted_songs(sorted.library.sorted_songs)
                &&& is_sorted_collection(
                    collection,
                    self.library.active_filter.metric,
                    self.library.active_filter.order,
                    sorted.library.sorted_songs,
                )
            },
            None => sorted == self,
        }
    }

    /// `after` is what the message makes of this state, where the collection
    /// holds `snapshot`.
    pub open spec fn is_updated(
        self,
        msg: AppMsg,
        music_dir_exists: bool,
        snapshot: Option<MusicCollection>,
        after: SupervisorView,
    ) -> bool {
        if self.resorts(msg) {
            self.after(msg, music_dir_exists).is_sorted_as(snapshot, after)
        } else {
            after == self.after(msg, music_dir_exists)
        }
    }
}

/// What is shown of an artist.
pub open spec fn shown_artist(collection: MusicCollection, id: Id) -> EffectView {
    if collection.artists@.contains_key(id) {
        let artist = collection.artists@[id];
        EffectView::ShowArtist(Some((artist.id, artist.name@)))
    } else {
        EffectView::ShowArtist(None)
    }
}

/// The artist that a message asks about.
pub open spec fn asked_artist(msg: AppMsg) -> Option<Id> {
    match msg {
        AppMsg::Library(LibraryMsg::ClickArtist(id)) => Some(id),
        AppMsg::AlbumPage(AlbumMsg::ClickArtist(id)) => Some(id),
        _ => None,
    }
}

/// What a message asks for.
pub open spec fn effects_of(
    before: SupervisorView,
    msg: AppMsg,
    music_dir_exists: bool,
    snapshot: Option<MusicCollection>,
) -> Seq<EffectView> {
    match msg {
        AppMsg::Orchestra(OrchestraMsg::Ready(orchestra)) => seq![
            EffectView::Player(GlobalPlayerCmd::SetOrchestra(orchestra)),
        ],
        AppMsg::Landing(LandingMsg::StartIndexing) => if music_dir_exists {
            seq![EffectView::StartIndexing(before.landing.music_dir)]
        } else {
            Seq::empty()
        },
        AppMsg::Landing(LandingMsg::PickFolder) => seq![EffectView::PickFolder],
        AppMsg::Library(LibraryMsg::Play(id)) => seq![
            EffectView::Player(GlobalPlayerCmd::ClearQueue),
            EffectView::Player(GlobalPlayerCmd::Enqueue(id)),
            EffectView::Player(GlobalPlayerCmd::Play),
        ],
        _ => match asked_artist(msg) {
            Some(id) => seq![shown_artist(snapshot->0, id)],
            None => Seq::empty(),
        },
    }
}

/// Lists the songs of the collection as the filter asks; without a collection
/// the list stays as it is.
pub fn sort_songs(state: &mut Supervisor, snapshot: Option<&MusicCollection>)
    ensures
        old(state)@.is_sorted_as(
            held(snapshot),
            final(state)@,
        ),
{
    if let Some(collection) = snapshot {
        let sorted = sort_collection(
            collection,
            state.library.active_filter.metric,
            state.library.active_filter.order,
        );
        state.library.sorted_songs = Arc::new(sorted);
    }
}

fn update_orchestra(
    state: &mut Supervisor,
    msg: OrchestraMsg,
    snapshot: Option<&MusicCollection>,
) -> (effects: Vec<Effect>)
    ensures
        old(state)@.is_updated(
            AppMsg::Orchestra(msg),
            false,
            held(snapshot),
            final(state)@,
        ),
        effect_views(effects@) == effects_of(
            old(state)@,
            AppMsg::Orchestra(msg),
            false,
            None,
        ),
{
    let mut effects: Vec<Effect> = Vec::new();
    match msg {
        OrchestraMsg::Ready(orchestra) => {
            effects.push(Effect::Player(GlobalPlayerCmd::SetOrchestra(orchestra.share())));
            state.landing.log = None;
            state.landing.is_indexing = true;
            state.orchestra = Some(orchestra);
            sort_songs(state, snapshot);
            state.current_page = Page::Library;
        },
        OrchestraMsg::NeedIndexing => {
            state.landing.is_indexing = false;
        },
        OrchestraMsg::Indexing(file_path) => {
            let mut line = "+ ".to_owned();
            line.append(file_path.as_str());
            state.landing.log = Some(line);
        },
    }
    effects
}

fn update_landing(state: &mut Supervisor, msg: LandingMsg, music_dir_exists: bool) -> (effects: Vec<
    Effect,
>)
    ensures
        final(state)@ == old(state)@.after_landing(msg, music_dir_exists),
        effect_views(effects@) == effects_of(
            old(state)@,
            AppMsg::Landing(msg),
            music_dir_exists,
            None,
        ),
{
    let mut effects: Vec<Effect> = Vec::new();
    match msg {
        LandingMsg::StartIndexing => {
            if music_dir_exists {
                state.landing.is_indexing = true;
                state.landing.error = None;
                let dir = state.landing.music_dir.clone();
                effects.push(Effect::Mu(MuCommand::StartIndexing(dir)));
            } else {
                state.landing.error = Some("Directory does not exist or is invalid".to_owned());
            }
        },
        LandingMsg::FolderPicked(folder) => {
            state.landing.music_dir = folder;
            state.landing.error = None;
        },
        LandingMsg::PickFolder => {
            effects.push(Effect::Mu(MuCommand::PickFolder));
        },
    }
    effects
}

fn show_artist(collection: &MusicCollection, id: Id) -> (effect: Effect)
    ensures
        effect@ == shown_artist(*collection, id),
{
    match collection.get_artist(&id) {
        Some(artist) => Effect::ShowArtist(Some(artist.clone())),
        None => Effect::ShowArtist(None),
    }
}

fn update_library(
    state: &mut Supervisor,
    msg: LibraryMsg,
    snapshot: Option<&MusicCollection>,
) -> (effects: Vec<Effect>)
    requires
        msg is ClickArtist ==> snapshot is Some,
    ensures
        old(state)@.is_updated(
            AppMsg::Library(msg),
            false,
            held(snapshot),
            final(state)@,
        ),
        effect_views(effects@) == effects_of(
            old(state)@,
            AppMsg::Library(msg),
            false,
            held(snapshot),
        ),
{
    let mut effects: Vec<Effect> = Vec::new();
    match msg {
        LibraryMsg::HoverSong(id) => {
            state.library.hovered_song = Some(id);
        },
        LibraryMsg::SetFilterTag(tag) => {
            state.library.active_filter.tag = tag;
            if tag == FilterTag::Songs {
                sort_songs(state, snapshot);
            }
        },
        LibraryMsg::SetFilterOrder(order) => {
            state.library.active_filter.order = order;
            if state.library.active_filter.tag == FilterTag::Songs {
                sort_songs(state, snapshot);
            }
        },
        LibraryMsg::SetSortMetric(metric) => {
            state.library.active_filter.metric = metric;
            if state.library.active_filter.tag == FilterTag::Songs {
                sort_songs(state, snapshot);
            }
        },
        LibraryMsg::ClickArtist(id) => {
            if let Some(collection) = snapshot {
                effects.push(show_artist(collection, id));
            }
        },
        LibraryMsg::ClickAlbum(album_id) => {
            state.album_page = AlbumState { album_id, hovered_song_id: None };
            state.current_page = Page::Album;
        },
        LibraryMsg::SetListRunOffset(offset) => {
            state.library.list_run_offset = offset;
        },
        LibraryMsg::Play(id) => {
            effects.push(Effect::Player(GlobalPlayerCmd::ClearQueue));
            effects.push(Effect::Player(GlobalPlayerCmd::Enqueue(id)));
            effects.push(Effect::Player(GlobalPlayerCmd::Play));
        },
    }
    effects
}

fn update_album(state: &mut Supervisor, msg: AlbumMsg, snapshot: Option<&MusicCollection>) -> (
    effects: Vec<Effect>)
    requires
        msg is ClickArtist ==> snapshot is Some,
    ensures
        final(state)@ == old(state)@.after_album(msg),
        effect_views(effects@) == effects_of(
            old(state)@,
            AppMsg::AlbumPage(msg),
            false,
            held(snapshot),
        ),
{
    let mut effects: Vec<Effect> = Vec::new();
    match msg {
        AlbumMsg::GotoLibrary => {
            state.current_page = Page::Library;
        },
        AlbumMsg::ClickArtist(id) => {
            if let Some(collection) = snapshot {
                effects.push(show_artist(collection, id));
            }
        },
        AlbumMsg::HoverSong(id) => {
            state.album_page.hovered_song_id = Some(id);
        },
        AlbumMsg::HoverSongQuit => {
            state.album_page.hovered_song_id = None;
        },
    }
    effects
}

/// Takes a message, with the collection as it stands and whether the music
/// folder is a directory. What the message asks for.
pub fn update_with(
    state: &mut Supervisor,
    msg: AppMsg,
    music_dir_exists: bool,
    snapshot: Option<&MusicCollection>,
) -> (effects: Vec<Effect>)
    requires
        asked_artist(msg) is Some ==> snapshot is Some,
    ensures
        old(state)@.is_updated(msg, music_dir_exists, held(snapshot), final(state)@),
        effect_views(effects@) == effects_of(
            old(state)@,
            msg,
            music_dir_exists,
            held(snapshot),
        ),
{
    match msg {
        AppMsg::Orchestra(m) => update_orchestra(state, m, snapshot),
        AppMsg::Landing(m) => update_landing(state, m, music_dir_exists),
        AppMsg::Library(m) => update_library(state, m, snapshot),
        AppMsg::AlbumPage(m) => update_album(state, m, snapshot),
        AppMsg::Player(PlayerMsg::Tick(progress)) => {
            state.progress = progress;
            Vec::new()
        },
    }
}

/// The storage whose collection the message is taken with: the one that it
/// brings, or else the one that is there.
pub open spec fn storage_read(before: SupervisorView, msg: AppMsg) -> Option<SharedOrchestra> {
    match msg {
        AppMsg::Orchestra(OrchestraMsg::Ready(shared)) => Some(shared),
        _ => before.orchestra,
    }
}

/// The storage whose collection the message is taken with.
pub fn storage_for<'a>(state: &'a Supervisor, msg: &'a AppMsg) -> (storage: Option<
    &'a SharedOrchestra,
>)
    ensures
        match storage {
            Some(shared) => storage_read(state@, *msg) == Some(*shared),
            None => storage_read(state@, *msg) is None,
        },
{
    match msg {
        AppMsg::Orchestra(OrchestraMsg::Ready(shared)) => Some(shared),
        _ => state.orchestra.as_ref(),
    }
}

/// Takes a message, with the collection that the shared storage holds at the
/// moment and whether the music folder is a directory. What the message asks
/// for.
pub fn update(state: &mut Supervisor, msg: AppMsg, music_dir_exists: bool) -> (effects: Vec<Effect>)
    requires
        asked_artist(msg) is Some ==> old(state).orchestra is Some,
    ensures
        exists|snapshot: Option<MusicCollection>|
            {
                &&& snapshot is Some <==> storage_read(old(state)@, msg) is Some
                &&& snapshot is Some ==> is_snapshot_of(
                    snapshot->0,
                    storage_read(old(state)@, msg)->0,
                )
                &&& #[trigger] old(state)@.is_updated(
                    msg,
                    music_dir_exists,
                    snapshot,
                    final(state)@,
                )
                &&& effect_views(effects@) == effects_of(
                    old(state)@,
                    msg,
                    music_dir_exists,
                    snapshot,
                )
            },
{
    let loaded = match storage_for(state, &msg) {
        Some(shared) => Some(shared.load()),
        None => None,
    };
    match &loaded {
        Some(orchestra) => update_with(state, msg, music_dir_exists, Some(&orchestra.collection)),
        None => update_with(state, msg, music_dir_exists, None),
    }
}

} // verus!
