//! The model behind a desktop music player: queues and playback order, the
//! balanced shuffle, the audio source's transport, the album page, and the
//! supervisor that ties the pages together.
//!
//! Everything here is a decision on plain values. Sound output, decoding,
//! windows and channels belong to the program around the library: it performs
//! the actions that the functions here return, and reports what came of them.

pub mod album;
pub mod audio;
pub mod commands;
pub mod laws;
pub mod library;
pub mod page_laws;
pub mod player_laws;
pub mod shared;
pub mod shuffle;
pub mod sort;
pub mod source;
pub mod source_laws;
pub mod supervisor;
pub mod text;
pub mod time;
pub mod track;
