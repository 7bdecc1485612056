//! A self-hosted networked jukebox: the verified core.
//!
//! This crate holds the decisions of the jukebox: how search results are
//! filtered, how durations are read, how the song queues move, where files
//! live and which platform binaries are fetched.

pub mod text;
pub mod music_info;
pub mod paths;
pub mod libs;
pub mod player;
pub mod networking;
