//! The music collection: songs, artists, albums and their covers.

use crate::time::Duration;
use std::collections::HashMap;
use vstd::prelude::*;

verus! {

/// What identifies a song, an artist, an album or a cover.
pub type Id = u64;

pub struct Song {
    pub id: Id,
    pub title: String,
    pub file_path: String,
    pub duration: Duration,
    pub artists: Vec<Id>,
    pub album: Option<Id>,
    /// When the song came into the collection, in seconds.
    pub created_at: u64,
    /// The number on the album.
    pub track: Option<u32>,
}

#[verifier::ext_equal]
pub struct SongView {
    pub id: Id,
    pub title: Seq<char>,
    pub file_path: Seq<char>,
    pub duration: Duration,
    pub artists: Seq<Id>,
    pub album: Option<Id>,
    pub created_at: u64,
    pub track: Option<u32>,
}

impl View for Song {
    type V = SongView;

    open spec fn view(&self) -> SongView {
        SongView {
            id: self.id,
            title: self.title@,
            file_path: self.file_path@,
            duration: self.duration,
            artists: self.artists@,
            album: self.album,
            created_at: self.created_at,
            track: self.track,
        }
    }
}

impl Clone for Song {
    fn clone(&self) -> (song: Song)
        ensures
            song@ == self@,
    {
        Song {
            id: self.id,
            title: self.title.clone(),
            file_path: self.file_path.clone(),
            duration: self.duration,
            artists: self.artists.clone(),
            album: self.album,
            created_at: self.created_at,
            track: self.track,
        }
    }
}

#[derive(Debug)]
pub struct Artist {
    pub id: Id,
    pub name: String,
}

impl Artist {
    /// The same artist.
    pub open spec fn same(self, other: Artist) -> bool {
        self.id == other.id && self.name@ == other.name@
    }
}

impl Clone for Artist {
    fn clone(&self) -> (artist: Artist)
        ensures
            artist.same(*self),
    {
        Artist { id: self.id, name: self.name.clone() }
    }
}

/// The day of a release; a year of zero is not known.
#[derive(Clone, Copy, Debug, PartialEq, Eq, Structural)]
pub struct ReleaseDate {
    pub year: i32,
}

pub struct Album {
    pub id: Id,
    pub name: String,
    pub artist: Option<Id>,
    pub cover: Option<Id>,
    pub date: Option<ReleaseDate>,
    pub genres: Vec<String>,
    pub songs: Vec<Id>,
}

/// A colour that stands out on a cover.
#[derive(Clone, Copy, Debug, PartialEq, Eq, Structural)]
pub struct Swatch {
    pub red: u8,
    pub green: u8,
    pub blue: u8,
}

pub struct Cover {
    pub path: String,
    /// The most prominent colour comes first.
    pub swatches: Vec<Swatch>,
}

pub struct MusicCollection {
    pub songs: HashMap<Id, Song>,
    pub artists: HashMap<Id, Artist>,
    pub albums: HashMap<Id, Album>,
    pub covers: HashMap<Id, Cover>,
}

impl MusicCollection {
    /// The song of that identity.
    pub open spec fn song(self, id: Id) -> Option<SongView> {
        if self.songs@.contains_key(id) {
            Some(self.songs@[id]@)
        } else {
            None
        }
    }

    /// A collection with nothing in it.
    pub fn new() -> (collection: MusicCollection)
        ensures
            collection.songs@ == Map::<Id, Song>::empty(),
            collection.artists@ == Map::<Id, Artist>::empty(),
            collection.albums@ == Map::<Id, Album>::empty(),
            collection.covers@ == Map::<Id, Cover>::empty(),
    {
        MusicCollection {
            songs: HashMap::new(),
            artists: HashMap::new(),
            albums: HashMap::new(),
            covers: HashMap::new(),
        }
    }

    pub fn get_song(&self, id: &Id) -> (found: Option<&Song>)
        ensures
            match found {
                Some(song) => self.songs@.contains_key(*id) && *song == self.songs@[*id],
                None => !self.songs@.contains_key(*id),
            },
    {
        broadcast use vstd::std_specs::hash::group_hash_axioms;

        self.songs.get(id)
    }

    pub fn get_artist(&self, id: &Id) -> (found: Option<&Artist>)
        ensures
            match found {
                Some(artist) => self.artists@.contains_key(*id) && *artist
                    == self.artists@[*id],
                None => !self.artists@.contains_key(*id),
            },
    {
        broadcast use vstd::std_specs::hash::group_hash_axioms;

        self.artists.get(id)
    }
}

/// The collection behind a reference that may be missing.
pub open spec fn held(snapshot: Option<&MusicCollection>) -> Option<MusicCollection> {
    match snapshot {
        Some(collection) => Some(*collection),
        None => None,
    }
}

/// A snapshot of everything that has been indexed.
pub struct Orchestra {
    pub collection: MusicCollection,
}

impl Orchestra {
    pub fn get_song(&self, id: &Id) -> (found: Option<&Song>)
        ensures
            match found {
                Some(song) => self.collection.songs@.contains_key(*id) && *song
                    == self.collection.songs@[*id],
                None => !self.collection.songs@.contains_key(*id),
            },
    {
        self.collection.get_song(id)
    }

    pub fn get_artist(&self, id: &Id) -> (found: Option<&Artist>)
        ensures
            match found {
                Some(artist) => self.collection.artists@.contains_key(*id) && *artist
                    == self.collection.artists@[*id],
                None => !self.collection.artists@.contains_key(*id),
            },
    {
        self.collection.get_artist(id)
    }

    pub fn get_album(&self, id: &Id) -> (found: Option<&Album>)
        ensures
            match found {
                Some(album) => self.collection.albums@.contains_key(*id) && *album
                    == self.collection.albums@[*id],
                None => !self.collection.albums@.contains_key(*id),
            },
    {
        broadcast use vstd::std_specs::hash::group_hash_axioms;

        self.collection.albums.get(id)
    }

    pub fn get_cover(&self, id: &Id) -> (found: Option<&Cover>)
        ensures
            match found {
                Some(cover) => self.collection.covers@.contains_key(*id) && *cover
                    == self.collection.covers@[*id],
                None => !self.collection.covers@.contains_key(*id),
            },
    {
        broadcast use vstd::std_specs::hash::group_hash_axioms;

        self.collection.covers.get(id)
    }
}

} // verus!
