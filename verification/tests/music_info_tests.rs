use jukebox::music_info::song::{Song, SongResponse};
use jukebox::music_info::youtube::{
    download_args, get_innertube_api_key, get_innertube_client_version, offered_song_of,
    parse_search_results, InnerTubeConfig, InnerTubeError, SearchItem, VideoRenderer,
};
use jukebox::music_info::{
    check_song_length, duration_secs, parse_duration_to_secs, INNERTUBE_FALLBACK_KEY,
    MAX_SEARCH_RESULTS, MAX_SONG_DURATION_SECONDS,
};

fn video(length: Option<&str>, title: &str, id: Option<&str>) -> VideoRenderer {
    VideoRenderer {
        length_text: length.map(|s| s.to_string()),
        title: Some(title.to_string()),
        channel: Some(format!("{} channel", title)),
        video_id: id.map(|s| s.to_string()),
        views: Some("1,234 views".to_string()),
    }
}

#[test]
fn duration_minutes_seconds() {
    assert_eq!(parse_duration_to_secs("3:25"), 205);
    assert_eq!(parse_duration_to_secs("10:00"), 600);
    assert_eq!(parse_duration_to_secs("0:07"), 7);
}

#[test]
fn duration_hours_and_plain_seconds() {
    assert_eq!(parse_duration_to_secs("1:02:03"), 3723);
    assert_eq!(parse_duration_to_secs("45"), 45);
}

#[test]
fn duration_unreadable_fields_count_as_zero() {
    assert_eq!(parse_duration_to_secs(""), 0);
    assert_eq!(parse_duration_to_secs("abc"), 0);
    assert_eq!(parse_duration_to_secs("10:"), 600);
    assert_eq!(parse_duration_to_secs("x:30"), 30);
    assert_eq!(parse_duration_to_secs("-5"), 0);
    assert_eq!(parse_duration_to_secs("+5"), 5);
    assert_eq!(parse_duration_to_secs("+"), 0);
    // a field too large for a u64 is unreadable
    assert_eq!(parse_duration_to_secs("99999999999999999999"), 0);
}

#[test]
fn duration_overflow_is_reported() {
    assert_eq!(duration_secs("307445734561825861:0"), None);
    assert_eq!(duration_secs("307445734561825860:15"), Some(18446744073709551600 + 15));
    assert_eq!(duration_secs("2:05"), Some(125));
}

#[test]
fn song_length_counts_fields() {
    assert!(check_song_length("3:25"));
    assert!(check_song_length("59"));
    assert!(check_song_length(""));
    assert!(!check_song_length("1:02:03"));
    assert!(!check_song_length("::"));
}

#[test]
fn default_song() {
    let s = Song::default();
    assert_eq!(s.title, "No Songs Queued");
    assert_eq!(s.duration, 0);
    assert_eq!(s.link, "No link");
    assert_eq!(s.channel, "JUKEBOX2");
    assert_eq!(s.views, "69420");
    assert_eq!(s.path, None);
}

#[test]
fn song_response_leaves_out_link_and_path() {
    let s = Song {
        title: "Song".to_string(),
        duration: 180,
        link: "https://www.youtube.com/watch?v=abc".to_string(),
        channel: "Chan".to_string(),
        views: "12 views".to_string(),
        path: Some("/tmp/track_0.mp3".to_string()),
    };
    let r = SongResponse::from(&s);
    assert_eq!(r.title, "Song");
    assert_eq!(r.duration, 180);
    assert_eq!(r.channel, "Chan");
    assert_eq!(r.views, "12 views");
}

#[test]
fn api_key_is_read_from_page() {
    let html = r#"<script>ytcfg.set({"INNERTUBE_API_KEY":"AIzaKey123","INNERTUBE_CLIENT_VERSION":"2.20240101.00.00"});</script>"#;
    assert_eq!(get_innertube_api_key(html).unwrap(), "AIzaKey123");
    assert_eq!(get_innertube_client_version(html).unwrap(), "2.20240101.00.00");
}

#[test]
fn api_key_leftmost_nonempty_match() {
    let html = r#""INNERTUBE_API_KEY":"" x "INNERTUBE_API_KEY":"first" "INNERTUBE_API_KEY":"second""#;
    assert_eq!(get_innertube_api_key(html).unwrap(), "first");
}

#[test]
fn api_key_missing() {
    assert_eq!(get_innertube_api_key("<html></html>"), Err(InnerTubeError::ApiKeyNotFound));
    assert_eq!(
        get_innertube_api_key(r#""INNERTUBE_API_KEY":"unterminated"#),
        Err(InnerTubeError::ApiKeyNotFound)
    );
    assert_eq!(
        get_innertube_client_version("nothing"),
        Err(InnerTubeError::ClientVersionNotFound)
    );
}

#[test]
fn innertube_config_falls_back_to_known_key() {
    let html = r#"{"INNERTUBE_CLIENT_VERSION":"2.1"}"#;
    let c = InnerTubeConfig::new(html).unwrap();
    assert_eq!(c.api_key(), INNERTUBE_FALLBACK_KEY);
    assert_eq!(c.client_version(), "2.1");
    assert_eq!(
        c.search_url(),
        format!("https://www.youtube.com/youtubei/v1/search?key={}", INNERTUBE_FALLBACK_KEY)
    );
}

#[test]
fn innertube_config_needs_client_version() {
    let html = r#"{"INNERTUBE_API_KEY":"k"}"#;
    assert_eq!(InnerTubeConfig::new(html).unwrap_err(), InnerTubeError::ClientVersionNotFound);
}

#[test]
fn innertube_config_uses_page_key() {
    let html = r#"{"INNERTUBE_API_KEY":"key-9","INNERTUBE_CLIENT_VERSION":"2.2"}"#;
    let c = InnerTubeConfig::new(html).unwrap();
    assert_eq!(c.search_url(), "https://www.youtube.com/youtubei/v1/search?key=key-9");
}

#[test]
fn offered_song_fills_defaults() {
    let v = VideoRenderer {
        length_text: Some("4:00".to_string()),
        title: None,
        channel: None,
        video_id: None,
        views: None,
    };
    let s = offered_song_of(&v).unwrap();
    assert_eq!(s.title, "");
    assert_eq!(s.channel, "");
    assert_eq!(s.views, "");
    assert_eq!(s.duration, 240);
    assert_eq!(s.link, "https://www.youtube.com/watch?v=dQw4w9WgXcQ");
    assert_eq!(s.path, None);
}

#[test]
fn offered_song_rejects_long_or_missing_lengths() {
    assert!(offered_song_of(&video(Some("10:01"), "long", Some("a"))).is_none());
    assert!(offered_song_of(&video(Some("1:00:00"), "hour", Some("a"))).is_none());
    assert!(offered_song_of(&video(Some(""), "empty", Some("a"))).is_none());
    assert!(offered_song_of(&video(None, "none", Some("a"))).is_none());
    assert!(offered_song_of(&video(Some("307445734561825861:0"), "huge", Some("a"))).is_none());
    let ok = offered_song_of(&video(Some("10:00"), "edge", Some("xyz"))).unwrap();
    assert_eq!(ok.duration, MAX_SONG_DURATION_SECONDS);
    assert_eq!(ok.link, "https://www.youtube.com/watch?v=xyz");
    assert_eq!(ok.title, "edge");
    assert_eq!(ok.channel, "edge channel");
    assert_eq!(ok.views, "1,234 views");
}

#[test]
fn search_results_keep_order_and_skip_unplayable() {
    let sections: Vec<Vec<SearchItem>> = vec![
        vec![
            None,
            Some(video(Some("3:00"), "a", Some("1"))),
            Some(video(Some("12:00"), "too long", Some("2"))),
        ],
        vec![Some(video(Some("2:30"), "b", Some("3"))), Some(video(None, "live", Some("4")))],
    ];
    let songs = parse_search_results(&sections);
    let titles: Vec<&str> = songs.iter().map(|s| s.title.as_str()).collect();
    assert_eq!(titles, vec!["a", "b"]);
    assert_eq!(songs[0].duration, 180);
    assert_eq!(songs[1].duration, 150);
}

#[test]
fn search_results_capped_at_five_across_sections() {
    let mut first = Vec::new();
    for i in 0..4 {
        first.push(Some(video(Some("1:00"), &format!("s{}", i), Some("id"))));
    }
    let mut second = Vec::new();
    for i in 4..9 {
        second.push(Some(video(Some("1:00"), &format!("s{}", i), Some("id"))));
    }
    let songs = parse_search_results(&vec![first, second]);
    assert_eq!(songs.len(), MAX_SEARCH_RESULTS);
    let titles: Vec<&str> = songs.iter().map(|s| s.title.as_str()).collect();
    assert_eq!(titles, vec!["s0", "s1", "s2", "s3", "s4"]);
}

#[test]
fn search_results_empty_answer() {
    assert!(parse_search_results(&vec![]).is_empty());
    assert!(parse_search_results(&vec![vec![], vec![None]]).is_empty());
}

#[test]
fn ytdlp_arguments() {
    let args = download_args("https://www.youtube.com/watch?v=x", "/o/track_3.mp3", "/b/libs");
    assert_eq!(
        args,
        vec![
            "--ffmpeg-location",
            "/b/libs",
            "-x",
            "--audio-format",
            "mp3",
            "-o",
            "/o/track_3.mp3",
            "https://www.youtube.com/watch?v=x"
        ]
    );
}

#[test]
fn search_request_body_is_compact_json() {
    let c = InnerTubeConfig::new(r#""INNERTUBE_API_KEY":"k","INNERTUBE_CLIENT_VERSION":"2.2024""#).unwrap();
    assert_eq!(
        c.search_request_body("lofi beats"),
        r#"{"context":{"client":{"clientName":"WEB","clientVersion":"2.2024"}},"query":"lofi beats"}"#
    );
}

#[test]
fn search_request_body_escapes_query() {
    let c = InnerTubeConfig::new(r#""INNERTUBE_CLIENT_VERSION":"v""#).unwrap();
    let body = c.search_request_body("say \"hi\"\\ \n\t\u{1}é/");
    assert_eq!(
        body,
        "{\"context\":{\"client\":{\"clientName\":\"WEB\",\"clientVersion\":\"v\"}},\"query\":\"say \\\"hi\\\"\\\\ \\n\\t\\u0001é/\"}"
    );
    let parsed: serde_json::Value = serde_json::from_str(&body).unwrap();
    assert_eq!(parsed["query"].as_str().unwrap(), "say \"hi\"\\ \n\t\u{1}é/");
    assert_eq!(parsed["context"]["client"]["clientVersion"].as_str().unwrap(), "v");
}
