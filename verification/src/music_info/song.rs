//! A song as the jukebox queues it, and the part of it that listeners see.

use vstd::prelude::*;

verus! {

/// A song found by a search, queued, downloaded or playing.
#[derive(Debug, Clone)]
pub struct Song {
    pub title: String,
    /// Length in seconds.
    pub duration: u64,
    /// Where the audio can be fetched from.
    pub link: String,
    pub channel: String,
    pub views: String,
    /// The downloaded audio file, once there is one.
    pub path: Option<String>,
}

/// The mathematical content of a `Song`.
pub struct SongView {
    pub title: Seq<char>,
    pub duration: u64,
    pub link: Seq<char>,
    pub channel: Seq<char>,
    pub views: Seq<char>,
    pub path: Option<Seq<char>>,
}

/// The view of an optional string.
pub open spec fn opt_view(o: Option<String>) -> Option<Seq<char>> {
    match o {
        Some(s) => Some(s@),
        None => None,
    }
}

impl View for Song {
    type V = SongView;

    open spec fn view(&self) -> SongView {
        SongView {
            title: self.title@,
            duration: self.duration,
            link: self.link@,
            channel: self.channel@,
            views: self.views@,
            path: opt_view(self.path),
        }
    }
}

/// The views of a sequence of songs.
pub open spec fn songs_view(s: Seq<Song>) -> Seq<SongView> {
    s.map_values(|x: Song| x@)
}

/// The song shown while nothing has been queued yet.
pub open spec fn default_song_view() -> SongView {
    SongView {
        title: "No Songs Queued"@,
        duration: 0,
        link: "No link"@,
        channel: "JUKEBOX2"@,
        views: "69420"@,
        path: None,
    }
}

impl Default for Song {
    fn default() -> (r: Song)
        ensures
            r@ == default_song_view(),
    {
        Song {
            title: String::from_str("No Songs Queued"),
            duration: 0u64,
            link: String::from_str("No link"),
            channel: String::from_str("JUKEBOX2"),
            views: String::from_str("69420"),
            path: None,
        }
    }
}

/// What a listener is told of a song: everything but where it comes from
/// and where it is stored.
pub struct SongResponse {
    pub title: String,
    pub duration: u64,
    pub channel: String,
    pub views: String,
}

impl<'a> From<&'a Song> for SongResponse {
    fn from(song: &'a Song) -> (r: SongResponse) {
        SongResponse {
            title: song.title.clone(),
            duration: song.duration,
            channel: song.channel.clone(),
            views: song.views.clone(),
        }
    }
}

impl<'a> vstd::std_specs::convert::FromSpecImpl<&'a Song> for SongResponse {
    open spec fn obeys_from_spec() -> bool {
        true
    }

    open spec fn from_spec(song: &'a Song) -> SongResponse {
        SongResponse {
            title: song.title,
            duration: song.duration,
            channel: song.channel,
            views: song.views,
        }
    }
}

} // verus!
