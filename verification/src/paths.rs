//! Where the jukebox keeps its files: paths as `/`-separated strings,
//! joined as `PathBuf::join` joins a relative path on Unix.

use vstd::prelude::*;

use crate::libs::{FFMPEG, LIBRARY_DIR, YTDLP};
use crate::player::OUTPUT_DIR;

verus! {

/// `base` joined with the relative path `seg`: a separator is put between
/// them unless `base` is empty or already ends with one.
pub open spec fn join_spec(base: Seq<char>, seg: Seq<char>) -> Seq<char> {
    if base.len() == 0 || base.last() == '/' {
        base + seg
    } else {
        base + seq!['/'] + seg
    }
}

/// Joins the relative path `seg` onto `base`.
pub fn join(base: &str, seg: &str) -> (r: String)
    ensures
        r@ == join_spec(base@, seg@),
{
    let n = base.unicode_len();
    if n == 0 || base.get_char(n - 1) == '/' {
        String::from_str(base).concat(seg)
    } else {
        proof {
            reveal_strlit("/");
        }
        let r = String::from_str(base).concat("/").concat(seg);
        assert(r@ =~= join_spec(base@, seg@));
        r
    }
}

/// The directory that holds everything of the jukebox, given the home
/// directory, the value of `XDG_DATA_HOME` if it is set, and whether the
/// host is a Mac.
pub open spec fn base_dir_spec(home: Seq<char>, xdg_data_home: Option<Seq<char>>, on_macos: bool) -> Seq<char> {
    if on_macos {
        join_spec(join_spec(join_spec(home, "Library"@), "Application Support"@), "jukebox"@)
    } else {
        match xdg_data_home {
            Some(x) => join_spec(x, "jukebox"@),
            None => join_spec(join_spec(join_spec(home, ".local"@), "share"@), "jukebox"@),
        }
    }
}

/// The base directory: `~/Library/Application Support/jukebox` on a Mac,
/// otherwise `$XDG_DATA_HOME/jukebox`, or `~/.local/share/jukebox` where
/// `XDG_DATA_HOME` is not set.
pub fn base_dir(home: &str, xdg_data_home: Option<&str>, on_macos: bool) -> (r: String)
    ensures
        r@ == base_dir_spec(home@, match xdg_data_home {
            Some(x) => Some(x@),
            None => None,
        }, on_macos),
{
    if on_macos {
        let a = join(home, "Library");
        let b = join(a.as_str(), "Application Support");
        join(b.as_str(), "jukebox")
    } else {
        match xdg_data_home {
            Some(x) => join(x, "jukebox"),
            None => {
                let a = join(home, ".local");
                let b = join(a.as_str(), "share");
                join(b.as_str(), "jukebox")
            },
        }
    }
}

/// The directory of the downloaded helper programs.
pub fn libs_dir(base: &str) -> (r: String)
    ensures
        r@ == join_spec(base@, LIBRARY_DIR@),
{
    join(base, LIBRARY_DIR)
}

/// The directory of the downloaded tracks.
pub fn output_dir(base: &str) -> (r: String)
    ensures
        r@ == join_spec(base@, OUTPUT_DIR@),
{
    join(base, OUTPUT_DIR)
}

/// The yt-dlp program.
pub fn ytdlp_exe(base: &str) -> (r: String)
    ensures
        r@ == join_spec(join_spec(base@, LIBRARY_DIR@), YTDLP@),
{
    let libs = libs_dir(base);
    join(libs.as_str(), YTDLP)
}

/// The ffmpeg program.
pub fn ffmpeg_exe(base: &str) -> (r: String)
    ensures
        r@ == join_spec(join_spec(base@, LIBRARY_DIR@), FFMPEG@),
{
    let libs = libs_dir(base);
    join(libs.as_str(), FFMPEG)
}

/// The joined path ends with the joined segment.
pub proof fn lemma_join_ends_with(base: Seq<char>, seg: Seq<char>)
    ensures
        join_spec(base, seg).len() >= seg.len(),
        join_spec(base, seg).subrange(
            join_spec(base, seg).len() - seg.len(),
            join_spec(base, seg).len() as int,
        ) == seg,
{
    let j = join_spec(base, seg);
    assert(j.subrange(j.len() - seg.len(), j.len() as int) =~= seg);
}

/// Under any base directory, the helper programs and the downloaded tracks
/// are kept in different directories, and yt-dlp and ffmpeg are different
/// files.
pub proof fn lemma_dirs_distinct(base: Seq<char>)
    ensures
        join_spec(base, LIBRARY_DIR@) != join_spec(base, OUTPUT_DIR@),
        join_spec(join_spec(base, LIBRARY_DIR@), YTDLP@) != join_spec(
            join_spec(base, LIBRARY_DIR@),
            FFMPEG@,
        ),
{
    reveal_strlit("libs");
    reveal_strlit("output");
    reveal_strlit("ytdlp");
    reveal_strlit("ffmpeg");
    let libs = join_spec(base, LIBRARY_DIR@);
    lemma_join_ends_with(base, LIBRARY_DIR@);
    lemma_join_ends_with(base, OUTPUT_DIR@);
    lemma_join_ends_with(libs, YTDLP@);
    lemma_join_ends_with(libs, FFMPEG@);
    let a = join_spec(base, LIBRARY_DIR@);
    let b = join_spec(base, OUTPUT_DIR@);
    if a == b {
        assert(a[a.len() - 1] == LIBRARY_DIR@[3]);
        assert(b[b.len() - 1] == OUTPUT_DIR@[5]);
    }
    let c = join_spec(libs, YTDLP@);
    let d = join_spec(libs, FFMPEG@);
    if c == d {
        assert(c[c.len() - 1] == YTDLP@[4]);
        assert(d[d.len() - 1] == FFMPEG@[5]);
    }
}

/// Joining onto the same base keeps different segments apart.
pub proof fn lemma_join_injective(base: Seq<char>, x: Seq<char>, y: Seq<char>)
    requires
        x != y,
    ensures
        join_spec(base, x) != join_spec(base, y),
{
    let p = if base.len() == 0 || base.last() == '/' {
        base
    } else {
        base + seq!['/']
    };
    assert(join_spec(base, x) == p + x);
    assert(join_spec(base, y) == p + y);
    if p + x == p + y {
        assert((p + x).subrange(p.len() as int, (p + x).len() as int) =~= x);
        assert((p + y).subrange(p.len() as int, (p + y).len() as int) =~= y);
    }
}

} // verus!
