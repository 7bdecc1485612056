//! Decisions of the playback side: when to ask for the next song, and
//! what is shown as playing.

use vstd::prelude::*;

use super::queue::QueueCommand;
use crate::music_info::song::{Song, opt_view};

verus! {

/// The command that one poll of the player sends: `Empty` when the player
/// has nothing left to play, nothing otherwise.
pub fn poll_command(player_empty: bool) -> (r: Option<QueueCommand>)
    ensures
        player_empty ==> r == Some(QueueCommand::Empty),
        !player_empty ==> r is None,
{
    if player_empty {
        Some(QueueCommand::Empty)
    } else {
        None
    }
}

/// The audio file to play for a song: its downloaded file, if it has one.
pub fn track_to_play(song: &Song) -> (r: Option<&str>)
    ensures
        match r {
            Some(p) => opt_view(song.path) == Some(p@),
            None => song.path is None,
        },
{
    match &song.path {
        Some(p) => Some(p.as_str()),
        None => None,
    }
}

/// Records whether the next song's audio started: if it did, it becomes the
/// song shown as playing; otherwise the shown song stays.
pub fn finish_cycle(now_playing: &mut Song, next_song: Song, started: bool)
    ensures
        started ==> *final(now_playing) == next_song,
        !started ==> *final(now_playing) == *old(now_playing),
{
    if started {
        *now_playing = next_song;
    }
}

} // verus!
