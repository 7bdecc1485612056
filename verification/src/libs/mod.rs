//! The helper programs that the jukebox downloads: yt-dlp and ffmpeg.

use vstd::prelude::*;

pub mod ffmpeg;

use crate::text::{chars_eq_str, chars_of, ends_with, split_chars, split_seq, str_eq, views_of};

verus! {

/// The directory, below the base directory, that holds the helper programs.
pub const LIBRARY_DIR: &'static str = "libs";

/// The file name of the yt-dlp program.
pub const YTDLP: &'static str = "ytdlp";

/// The file name of the ffmpeg program.
pub const FFMPEG: &'static str = "ffmpeg";


/// The operating systems the jukebox runs on.
#[derive(Debug, Clone, Copy, PartialEq, Eq, Structural)]
pub enum Os {
    Linux,
    Mac,
}

/// The processor architectures the jukebox runs on.
#[derive(Debug, Clone, Copy, PartialEq, Eq, Structural)]
pub enum Arch {
    X86,
    Aarch64,
}

/// Where the helper programs for one platform are downloaded from.
pub struct BinaryUrls {
    pub os: Os,
    pub arch: Arch,
    pub ytdlp: &'static str,
    pub ffmpeg: &'static str,
    pub ytdlp_filename: &'static str,
    pub ffmpeg_filename: &'static str,
}

/// Whether `u` holds the given downloads, field by field.
pub open spec fn urls_are(
    u: BinaryUrls,
    os: Os,
    arch: Arch,
    ytdlp: Seq<char>,
    ffmpeg: Seq<char>,
    ytdlp_filename: Seq<char>,
    ffmpeg_filename: Seq<char>,
) -> bool {
    &&& u.os == os
    &&& u.arch == arch
    &&& u.ytdlp@ == ytdlp
    &&& u.ffmpeg@ == ffmpeg
    &&& u.ytdlp_filename@ == ytdlp_filename
    &&& u.ffmpeg_filename@ == ffmpeg_filename
}

/// Whether `(os, arch)` is a platform that has downloads.
pub open spec fn supported_platform(os: Seq<char>, arch: Seq<char>) -> bool {
    (os == "linux"@ || os == "macos"@) && (arch == "x86_64"@ || arch == "aarch64"@)
}

/// The downloads for a platform named as `std::env::consts::OS` and
/// `std::env::consts::ARCH` name it; any other platform is refused with
/// the message `Unsupported platform: {os} {arch}`.
pub fn get_binary_urls(os: &str, arch: &str) -> (r: Result<BinaryUrls, String>)
    ensures
        os@ == "linux"@ && arch@ == "x86_64"@ ==> r is Ok && urls_are(
            r->Ok_0,
            Os::Linux,
            Arch::X86,
            "https://github.com/yt-dlp/yt-dlp/releases/latest/download/yt-dlp_linux"@,
            "https://github.com/BtbN/FFmpeg-Builds/releases/download/latest/ffmpeg-master-latest-linux64-gpl.tar.xz"@,
            "yt-dlp"@,
            "ffmpeg-master-latest-linux64-gpl.tar.xz"@,
        ),
        os@ == "linux"@ && arch@ == "aarch64"@ ==> r is Ok && urls_are(
            r->Ok_0,
            Os::Linux,
            Arch::Aarch64,
            "https://github.com/yt-dlp/yt-dlp/releases/latest/download/yt-dlp_linux_aarch64"@,
            "https://github.com/BtbN/FFmpeg-Builds/releases/download/latest/ffmpeg-master-latest-linuxarm64-gpl.tar.xz"@,
            "yt-dlp"@,
            "ffmpeg-master-latest-linuxarm64-gpl.tar.xz"@,
        ),
        os@ == "macos"@ && arch@ == "x86_64"@ ==> r is Ok && urls_are(
            r->Ok_0,
            Os::Mac,
            Arch::X86,
            "https://github.com/yt-dlp/yt-dlp/releases/latest/download/yt-dlp_macos"@,
            "https://evermeet.cx/ffmpeg/getrelease/zip"@,
            "yt-dlp"@,
            "ffmpeg.zip"@,
        ),
        os@ == "macos"@ && arch@ == "aarch64"@ ==> r is Ok && urls_are(
            r->Ok_0,
            Os::Mac,
            Arch::Aarch64,
            "https://github.com/yt-dlp/yt-dlp/releases/latest/download/yt-dlp_macos"@,
            "https://evermeet.cx/ffmpeg/getrelease/zip"@,
            "yt-dlp"@,
            "ffmpeg.zip"@,
        ),
        !supported_platform(os@, arch@) ==> r is Err && r->Err_0@ == "Unsupported platform: "@
            + os@ + " "@ + arch@,
{
    proof {
        reveal_strlit("linux");
        reveal_strlit("macos");
        reveal_strlit("x86_64");
        reveal_strlit("aarch64");
        assert("aarch64"@.len() != "x86_64"@.len());
        assert("linux"@[0] != "macos"@[0]);
    }
    let linux = str_eq(os, "linux");
    let macos = str_eq(os, "macos");
    let x86 = str_eq(arch, "x86_64");
    let aarch64 = str_eq(arch, "aarch64");
    if linux && x86 {
        Ok(BinaryUrls {
            os: Os::Linux,
            arch: Arch::X86,
            ytdlp: "https://github.com/yt-dlp/yt-dlp/releases/latest/download/yt-dlp_linux",
            ffmpeg: "https://github.com/BtbN/FFmpeg-Builds/releases/download/latest/ffmpeg-master-latest-linux64-gpl.tar.xz",
            ytdlp_filename: "yt-dlp",
            ffmpeg_filename: "ffmpeg-master-latest-linux64-gpl.tar.xz",
        })
    } else if linux && aarch64 {
        Ok(BinaryUrls {
            os: Os::Linux,
            arch: Arch::Aarch64,
            ytdlp: "https://github.com/yt-dlp/yt-dlp/releases/latest/download/yt-dlp_linux_aarch64",
            ffmpeg: "https://github.com/BtbN/FFmpeg-Builds/releases/download/latest/ffmpeg-master-latest-linuxarm64-gpl.tar.xz",
            ytdlp_filename: "yt-dlp",
            ffmpeg_filename: "ffmpeg-master-latest-linuxarm64-gpl.tar.xz",
        })
    } else if macos && x86 {
        Ok(BinaryUrls {
            os: Os::Mac,
            arch: Arch::X86,
            ytdlp: "https://github.com/yt-dlp/yt-dlp/releases/latest/download/yt-dlp_macos",
            ffmpeg: "https://evermeet.cx/ffmpeg/getrelease/zip",
            ytdlp_filename: "yt-dlp",
            ffmpeg_filename: "ffmpeg.zip",
        })
    } else if macos && aarch64 {
        Ok(BinaryUrls {
            os: Os::Mac,
            arch: Arch::Aarch64,
            ytdlp: "https://github.com/yt-dlp/yt-dlp/releases/latest/download/yt-dlp_macos",
            ffmpeg: "https://evermeet.cx/ffmpeg/getrelease/zip",
            ytdlp_filename: "yt-dlp",
            ffmpeg_filename: "ffmpeg.zip",
        })
    } else {
        let msg = String::from_str("Unsupported platform: ").concat(os).concat(" ").concat(arch);
        Err(msg)
    }
}

/// Which helper programs are fetched when the jukebox starts.
#[derive(Debug, Clone, Copy, PartialEq, Eq, Structural)]
pub struct StartupDownloads {
    pub ffmpeg: bool,
    pub ytdlp: bool,
}

/// Decides what to fetch at start-up: ffmpeg only when it is not there yet,
/// yt-dlp on every start, so that it stays compatible with YouTube.
pub fn startup_downloads(ffmpeg_present: bool) -> (r: StartupDownloads)
    ensures
        r.ffmpeg == !ffmpeg_present,
        r.ytdlp,
{
    StartupDownloads { ffmpeg: !ffmpeg_present, ytdlp: true }
}

/// Why a download failed before anything was written.
#[derive(Debug, Clone, Copy, PartialEq, Eq, Structural)]
pub enum DownloadError {
    /// The server answered with a status outside 200..=299.
    HttpStatus(u16),
}

/// Accepts an HTTP answer whose status is a success (200 to 299) and
/// refuses any other with its status.
pub fn check_download_status(status: u16) -> (r: Result<(), DownloadError>)
    ensures
        200 <= status <= 299 ==> r is Ok,
        !(200 <= status <= 299) ==> r == Err::<(), DownloadError>(DownloadError::HttpStatus(status)),
{
    if 200 <= status && status <= 299 {
        Ok(())
    } else {
        Err(DownloadError::HttpStatus(status))
    }
}

/// Whether a zip entry name is the ffmpeg program: `ffmpeg` itself or a
/// path ending in `/ffmpeg`.
pub open spec fn is_ffmpeg_zip_name_spec(name: Seq<char>) -> bool {
    name == "ffmpeg"@ || ends_with(name, "/ffmpeg"@)
}

/// Decides whether a zip entry is the ffmpeg program.
pub fn is_ffmpeg_zip_name(name: &str) -> (r: bool)
    ensures
        r == is_ffmpeg_zip_name_spec(name@),
{
    proof {
        reveal_strlit("ffmpeg");
        reveal_strlit("/ffmpeg");
    }
    if str_eq(name, "ffmpeg") {
        return true;
    }
    let n = name.unicode_len();
    if n < 7 {
        return false;
    }
    let tail = name.substring_char(n - 7, n);
    str_eq(tail, "/ffmpeg")
}

/// The components of a `/`-separated path as `Path::components` reads
/// them for naming purposes: empty and `.` segments dropped.
pub open spec fn path_components(segs: Seq<Seq<char>>) -> Seq<Seq<char>>
    decreases segs.len(),
{
    if segs.len() == 0 {
        Seq::empty()
    } else {
        let init = path_components(segs.drop_last());
        if segs.last().len() == 0 || segs.last() == "."@ {
            init
        } else {
            init.push(segs.last())
        }
    }
}

/// Whether a tar entry path is the ffmpeg program: its file name is
/// `ffmpeg` and its parent directory ends in `bin`.
pub open spec fn is_ffmpeg_tar_path_spec(path: Seq<char>) -> bool {
    let c = path_components(split_seq(path, '/'));
    c.len() >= 2 && c.last() == "ffmpeg"@ && c[c.len() - 2] == "bin"@
}

/// Decides whether a tar entry is the ffmpeg program.
pub fn is_ffmpeg_tar_path(path: &str) -> (r: bool)
    ensures
        r == is_ffmpeg_tar_path_spec(path@),
{
    proof {
        reveal_strlit(".");
    }
    let chars = chars_of(path);
    let segs = split_chars(&chars, '/');
    let ghost sv = views_of(segs@);
    let mut comps: Vec<Vec<char>> = Vec::new();
    let mut i: usize = 0;
    while i < segs.len()
        invariant
            i <= segs.len(),
            sv == views_of(segs@),
            sv.len() == segs@.len(),
            views_of(comps@) == path_components(sv.take(i as int)),
        decreases segs.len() - i,
    {
        proof {
            assert(sv.take(i + 1).drop_last() =~= sv.take(i as int));
            assert(sv.take(i + 1).last() == segs@[i as int]@);
        }
        let seg = &segs[i];
        if seg.len() == 0 || chars_eq_str(seg, ".") {
        } else {
            comps.push(seg.clone());
            assert(views_of(comps@) =~= path_components(sv.take(i as int)).push(sv[i as int]));
        }
        i = i + 1;
    }
    assert(sv.take(segs.len() as int) =~= sv);
    let k = comps.len();
    if k < 2 {
        return false;
    }
    assert(views_of(comps@)[k - 1] == comps@[k - 1]@);
    assert(views_of(comps@)[k - 2] == comps@[k - 2]@);
    chars_eq_str(&comps[k - 1], "ffmpeg") && chars_eq_str(&comps[k - 2], "bin")
}

} // verus!
