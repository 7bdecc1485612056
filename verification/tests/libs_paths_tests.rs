use std::io::Write;

use jukebox::libs::ffmpeg::{extract_ffmpeg_tar_xz, extract_ffmpeg_zip, ExtractError};
use jukebox::libs::{
    check_download_status, get_binary_urls, startup_downloads, StartupDownloads, is_ffmpeg_tar_path, is_ffmpeg_zip_name, Arch,
    DownloadError, Os,
};
use jukebox::networking::qr::{create_qr_code, create_qr_png, QrCodeError};
use jukebox::paths::{base_dir, ffmpeg_exe, join, libs_dir, output_dir, ytdlp_exe};
use jukebox::text::{decimal_string, parse_u64_chars};

fn zip_of(entries: &[(&str, &[u8])]) -> Vec<u8> {
    let mut buf = std::io::Cursor::new(Vec::new());
    {
        let mut w = zip::ZipWriter::new(&mut buf);
        let opts = zip::write::SimpleFileOptions::default()
            .compression_method(zip::CompressionMethod::Deflated);
        for (name, data) in entries {
            w.start_file(*name, opts).unwrap();
            w.write_all(data).unwrap();
        }
        w.finish().unwrap();
    }
    buf.into_inner()
}

fn tar_xz_of(entries: &[(&str, &[u8])]) -> Vec<u8> {
    let mut builder = tar::Builder::new(Vec::new());
    for (name, data) in entries {
        let mut header = tar::Header::new_gnu();
        header.set_size(data.len() as u64);
        header.set_mode(0o755);
        header.set_cksum();
        builder.append_data(&mut header, *name, *data).unwrap();
    }
    let tar_bytes = builder.into_inner().unwrap();
    let mut enc = xz2::write::XzEncoder::new(Vec::new(), 6);
    enc.write_all(&tar_bytes).unwrap();
    enc.finish().unwrap()
}

#[test]
fn binary_urls_linux_x86() {
    let u = get_binary_urls("linux", "x86_64").unwrap();
    assert_eq!(u.os, Os::Linux);
    assert_eq!(u.arch, Arch::X86);
    assert_eq!(u.ytdlp, "https://github.com/yt-dlp/yt-dlp/releases/latest/download/yt-dlp_linux");
    assert_eq!(u.ffmpeg_filename, "ffmpeg-master-latest-linux64-gpl.tar.xz");
    assert_eq!(u.ytdlp_filename, "yt-dlp");
}

#[test]
fn binary_urls_other_platforms() {
    let u = get_binary_urls("linux", "aarch64").unwrap();
    assert_eq!(u.arch, Arch::Aarch64);
    assert_eq!(u.ytdlp, "https://github.com/yt-dlp/yt-dlp/releases/latest/download/yt-dlp_linux_aarch64");
    let m = get_binary_urls("macos", "aarch64").unwrap();
    assert_eq!(m.os, Os::Mac);
    assert_eq!(m.ffmpeg, "https://evermeet.cx/ffmpeg/getrelease/zip");
    assert_eq!(m.ffmpeg_filename, "ffmpeg.zip");
    let m = get_binary_urls("macos", "x86_64").unwrap();
    assert_eq!(m.arch, Arch::X86);
}

#[test]
fn binary_urls_unsupported() {
    match get_binary_urls("windows", "x86_64") {
        Err(msg) => assert_eq!(msg, "Unsupported platform: windows x86_64"),
        Ok(_) => panic!("windows is not supported"),
    }
    assert!(get_binary_urls("linux", "riscv64").is_err());
}

#[test]
fn download_status() {
    assert_eq!(check_download_status(200), Ok(()));
    assert_eq!(check_download_status(299), Ok(()));
    assert_eq!(check_download_status(302), Err(DownloadError::HttpStatus(302)));
    assert_eq!(check_download_status(404), Err(DownloadError::HttpStatus(404)));
}

#[test]
fn zip_entry_names() {
    assert!(is_ffmpeg_zip_name("ffmpeg"));
    assert!(is_ffmpeg_zip_name("release/ffmpeg"));
    assert!(!is_ffmpeg_zip_name("ffmpeg.exe"));
    assert!(!is_ffmpeg_zip_name("xffmpeg"));
    assert!(!is_ffmpeg_zip_name("ffmpeg/"));
    assert!(!is_ffmpeg_zip_name(""));
}

#[test]
fn tar_entry_paths() {
    assert!(is_ffmpeg_tar_path("ffmpeg-master-latest-linux64-gpl/bin/ffmpeg"));
    assert!(is_ffmpeg_tar_path("./bin/ffmpeg"));
    assert!(is_ffmpeg_tar_path("bin//ffmpeg"));
    assert!(is_ffmpeg_tar_path("a/bin/./ffmpeg"));
    assert!(is_ffmpeg_tar_path("a/bin/ffmpeg/"));
    assert!(!is_ffmpeg_tar_path("ffmpeg"));
    assert!(!is_ffmpeg_tar_path("a/bin/ffprobe"));
    assert!(!is_ffmpeg_tar_path("a/sbin/ffmpeg"));
    assert!(!is_ffmpeg_tar_path("a/bin/../ffmpeg"));
}

#[test]
fn zip_extraction_finds_first_ffmpeg() {
    let bytes = zip_of(&[
        ("readme.txt", b"hello"),
        ("dir/ffmpeg", b"BINARY-1"),
        ("ffmpeg", b"BINARY-2"),
    ]);
    assert_eq!(extract_ffmpeg_zip(bytes).unwrap(), b"BINARY-1".to_vec());
}

#[test]
fn zip_extraction_not_found() {
    let bytes = zip_of(&[("readme.txt", b"hello"), ("ffprobe", b"x")]);
    assert_eq!(extract_ffmpeg_zip(bytes), Err(ExtractError::NotFound));
}

#[test]
fn zip_extraction_rejects_garbage() {
    assert_eq!(extract_ffmpeg_zip(b"not a zip".to_vec()), Err(ExtractError::Archive));
}

#[test]
fn qr_code_is_drawn() {
    let img = create_qr_code("192.168.1.20:80").unwrap();
    assert!(img.width > 21);
    assert_eq!(img.width, img.height);
    assert_eq!(img.luma.len(), (img.width * img.height) as usize);
    assert!(img.luma.iter().any(|&p| p == 0));
    assert!(img.luma.iter().any(|&p| p == 255));
}

#[test]
fn qr_code_as_png() {
    let png = create_qr_png("192.168.1.20:80").unwrap();
    assert_eq!(&png[..8], &[0x89, b'P', b'N', b'G', 0x0d, 0x0a, 0x1a, 0x0a]);
    assert_eq!(&png[12..16], b"IHDR");
    let img = create_qr_code("192.168.1.20:80").unwrap();
    let width = u32::from_be_bytes([png[16], png[17], png[18], png[19]]);
    let height = u32::from_be_bytes([png[20], png[21], png[22], png[23]]);
    assert_eq!((width, height), (img.width, img.height));
    assert_eq!(create_qr_png(&"x".repeat(8000)), Err(QrCodeError::Encoding));
}

#[test]
fn qr_code_too_long() {
    let long = "x".repeat(8000);
    assert!(create_qr_code(&long).is_err());
}

#[test]
fn path_joining() {
    assert_eq!(join("a", "b"), "a/b");
    assert_eq!(join("a/", "b"), "a/b");
    assert_eq!(join("", "b"), "b");
    assert_eq!(join("/", "b"), "/b");
}

#[test]
fn base_directory_choices() {
    assert_eq!(base_dir("/Users/u", None, true), "/Users/u/Library/Application Support/jukebox");
    assert_eq!(base_dir("/Users/u", Some("/x"), true), "/Users/u/Library/Application Support/jukebox");
    assert_eq!(base_dir("/home/u", Some("/data"), false), "/data/jukebox");
    assert_eq!(base_dir("/home/u", None, false), "/home/u/.local/share/jukebox");
}

#[test]
fn program_and_output_paths() {
    let base = "/home/u/.local/share/jukebox";
    assert_eq!(libs_dir(base), "/home/u/.local/share/jukebox/libs");
    assert_eq!(output_dir(base), "/home/u/.local/share/jukebox/output");
    assert_eq!(ytdlp_exe(base), "/home/u/.local/share/jukebox/libs/ytdlp");
    assert_eq!(ffmpeg_exe(base), "/home/u/.local/share/jukebox/libs/ffmpeg");
}

#[test]
fn decimal_and_parse_roundtrip() {
    for n in [0u64, 7, 10, 1234, u64::MAX] {
        let s = decimal_string(n);
        assert_eq!(s, n.to_string());
        let chars: Vec<char> = s.chars().collect();
        assert_eq!(parse_u64_chars(&chars), Some(n));
    }
    let over: Vec<char> = "18446744073709551616".chars().collect();
    assert_eq!(parse_u64_chars(&over), None);
    let plus: Vec<char> = "+12".chars().collect();
    assert_eq!(parse_u64_chars(&plus), Some(12));
    let bad: Vec<char> = "1a".chars().collect();
    assert_eq!(parse_u64_chars(&bad), None);
}

#[test]
fn startup_fetches_ytdlp_always_ffmpeg_once() {
    assert_eq!(startup_downloads(false), StartupDownloads { ffmpeg: true, ytdlp: true });
    assert_eq!(startup_downloads(true), StartupDownloads { ffmpeg: false, ytdlp: true });
}

#[test]
fn tar_xz_extraction_finds_bin_ffmpeg() {
    let bytes = tar_xz_of(&[
        ("ffmpeg-master/LICENSE.txt", b"license"),
        ("ffmpeg-master/doc/ffmpeg", b"not this"),
        ("ffmpeg-master/bin/ffprobe", b"probe"),
        ("ffmpeg-master/bin/ffmpeg", b"THE-BINARY"),
        ("other/bin/ffmpeg", b"second"),
    ]);
    assert_eq!(extract_ffmpeg_tar_xz(&bytes).unwrap(), b"THE-BINARY".to_vec());
}

#[test]
fn tar_xz_extraction_not_found() {
    let bytes = tar_xz_of(&[("a/bin/ffprobe", b"p"), ("ffmpeg", b"top level")]);
    assert_eq!(extract_ffmpeg_tar_xz(&bytes), Err(ExtractError::NotFound));
}

#[test]
fn tar_xz_extraction_rejects_garbage() {
    assert_eq!(extract_ffmpeg_tar_xz(b"not xz at all"), Err(ExtractError::Archive));
}

#[test]
fn zip_extraction_first_of_two_candidates_with_stored_entries() {
    let mut buf = std::io::Cursor::new(Vec::new());
    {
        let mut w = zip::ZipWriter::new(&mut buf);
        let opts = zip::write::SimpleFileOptions::default()
            .compression_method(zip::CompressionMethod::Stored);
        w.start_file("ffmpeg", opts).unwrap();
        w.write_all(b"TOP").unwrap();
        w.finish().unwrap();
    }
    assert_eq!(extract_ffmpeg_zip(buf.into_inner()).unwrap(), b"TOP".to_vec());
}
