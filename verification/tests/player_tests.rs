use std::collections::VecDeque;

use jukebox::music_info::song::Song;
use jukebox::player::queue::{
    add_to_queue, finish_download, get_next_song, new_queue, next_counter, queue_responses,
    should_download, start_download, track_file_name, track_path, worker_step, QueueCommand,
    MAX_QUEUE_DEPTH,
};
use jukebox::player::sink::{finish_cycle, poll_command, track_to_play};

fn song(title: &str) -> Song {
    Song {
        title: title.to_string(),
        duration: 100,
        link: format!("https://www.youtube.com/watch?v={}", title),
        channel: "c".to_string(),
        views: "v".to_string(),
        path: None,
    }
}

fn titles(q: &VecDeque<Song>) -> Vec<String> {
    q.iter().map(|s| s.title.clone()).collect()
}

#[test]
fn queue_is_first_in_first_out() {
    let mut q = new_queue();
    assert!(q.is_empty());
    assert_eq!(add_to_queue(&mut q, song("a")), QueueCommand::Add);
    add_to_queue(&mut q, song("b"));
    assert_eq!(get_next_song(&mut q).unwrap().title, "a");
    add_to_queue(&mut q, song("c"));
    assert_eq!(get_next_song(&mut q).unwrap().title, "b");
    assert_eq!(get_next_song(&mut q).unwrap().title, "c");
    assert!(get_next_song(&mut q).is_none());
}

#[test]
fn download_allowed_only_with_room() {
    let mut q = new_queue();
    let mut dq = new_queue();
    assert!(!should_download(&q, &dq));
    q.push_back(song("a"));
    assert!(should_download(&q, &dq));
    for i in 0..(MAX_QUEUE_DEPTH + 1) {
        dq.push_back(song(&format!("d{}", i)));
    }
    assert!(!should_download(&q, &dq));
    dq.pop_front();
    assert!(should_download(&q, &dq));
}

#[test]
fn track_names_and_counter() {
    assert_eq!(track_file_name(0), "track_0.mp3");
    assert_eq!(track_file_name(10), "track_10.mp3");
    assert_eq!(track_path("/home/u/.local/share/jukebox/output", 7), "/home/u/.local/share/jukebox/output/track_7.mp3");
    assert_eq!(next_counter(0), 1);
    assert_eq!(next_counter(9), 10);
    assert_eq!(next_counter(10), 0);
    let mut c = 3;
    for _ in 0..(MAX_QUEUE_DEPTH + 1) {
        c = next_counter(c);
    }
    assert_eq!(c, 3);
}

#[test]
fn finished_download_joins_downloaded_queue() {
    let mut q = new_queue();
    q.push_back(song("a"));
    q.push_back(song("b"));
    let mut dq = new_queue();
    let mut counter = 10;
    let p = start_download(&mut q, "out", counter).unwrap();
    assert_eq!(p.song.title, "a");
    assert_eq!(p.output_path, "out/track_10.mp3");
    assert_eq!(titles(&q), vec!["b"]);
    finish_download(&mut dq, p, true, &mut counter);
    assert_eq!(counter, 0);
    assert_eq!(titles(&dq), vec!["a"]);
    assert_eq!(dq[0].path.as_deref(), Some("out/track_10.mp3"));
}

#[test]
fn failed_download_is_dropped() {
    let mut q = new_queue();
    q.push_back(song("a"));
    let mut dq = new_queue();
    let mut counter = 4;
    let p = start_download(&mut q, "out/", counter).unwrap();
    assert_eq!(p.output_path, "out/track_4.mp3");
    finish_download(&mut dq, p, false, &mut counter);
    assert_eq!(counter, 4);
    assert!(dq.is_empty());
    assert!(q.is_empty());
    assert!(start_download(&mut q, "out", 4).is_none());
}

#[test]
fn worker_add_starts_download() {
    let mut q = new_queue();
    let mut dq = new_queue();
    q.push_back(song("a"));
    let step = worker_step(QueueCommand::Add, &mut q, &mut dq, "out", 2);
    assert!(step.play.is_none());
    let d = step.download.unwrap();
    assert_eq!(d.song.title, "a");
    assert_eq!(d.output_path, "out/track_2.mp3");
    assert!(q.is_empty());
}

#[test]
fn worker_add_waits_when_downloaded_queue_full() {
    let mut q = new_queue();
    let mut dq = new_queue();
    q.push_back(song("a"));
    for i in 0..(MAX_QUEUE_DEPTH + 1) {
        dq.push_back(song(&format!("d{}", i)));
    }
    let step = worker_step(QueueCommand::Add, &mut q, &mut dq, "out", 0);
    assert!(step.play.is_none());
    assert!(step.download.is_none());
    assert_eq!(titles(&q), vec!["a"]);
    assert_eq!(dq.len(), MAX_QUEUE_DEPTH + 1);
}

#[test]
fn worker_empty_plays_next_and_downloads() {
    let mut q = new_queue();
    let mut dq = new_queue();
    q.push_back(song("r"));
    dq.push_back(song("d1"));
    dq.push_back(song("d2"));
    let step = worker_step(QueueCommand::Empty, &mut q, &mut dq, "out", 5);
    assert_eq!(step.play.unwrap().title, "d1");
    assert!(step.download.is_none());
    assert!(step.fetch_after_play);
    assert_eq!(titles(&dq), vec!["d2"]);
    // The request is only taken once the player has its song.
    assert_eq!(titles(&q), vec!["r"]);
    let p = start_download(&mut q, "out", 5).unwrap();
    assert_eq!(p.song.title, "r");
    assert_eq!(p.output_path, "out/track_5.mp3");
    assert!(q.is_empty());
}

#[test]
fn worker_empty_with_nothing_downloaded_does_nothing() {
    let mut q = new_queue();
    let mut dq = new_queue();
    q.push_back(song("r"));
    let step = worker_step(QueueCommand::Empty, &mut q, &mut dq, "out", 5);
    assert!(step.play.is_none());
    assert!(step.download.is_none());
    assert!(!step.fetch_after_play);
    assert_eq!(titles(&q), vec!["r"]);
}

#[test]
fn responses_follow_queue() {
    let mut q = new_queue();
    q.push_back(song("a"));
    q.push_back(song("b"));
    let r = queue_responses(&q);
    assert_eq!(r.len(), 2);
    assert_eq!(r[0].title, "a");
    assert_eq!(r[1].title, "b");
    assert_eq!(r[1].duration, 100);
}

#[test]
fn poll_asks_for_next_song_when_empty() {
    assert_eq!(poll_command(true), Some(QueueCommand::Empty));
    assert_eq!(poll_command(false), None);
}

#[test]
fn cycle_updates_now_playing_only_when_started() {
    let mut np = Song::default();
    let mut next = song("n");
    assert_eq!(track_to_play(&next), None);
    next.path = Some("out/track_1.mp3".to_string());
    assert_eq!(track_to_play(&next), Some("out/track_1.mp3"));
    finish_cycle(&mut np, next.clone(), false);
    assert_eq!(np.title, "No Songs Queued");
    finish_cycle(&mut np, next, true);
    assert_eq!(np.title, "n");
}

#[test]
fn worker_run_plays_in_order_and_bounds_downloaded_queue() {
    let mut q = new_queue();
    let mut dq = new_queue();
    let mut counter: usize = 0;
    let mut played: Vec<String> = Vec::new();
    // Fifteen songs are added, each followed by the worker's `Add`; the
    // download of "s3" fails.
    for i in 0..15 {
        let cmd = add_to_queue(&mut q, song(&format!("s{}", i)));
        let step = worker_step(cmd, &mut q, &mut dq, "out", counter);
        assert!(step.play.is_none());
        assert!(!step.fetch_after_play);
        if let Some(p) = step.download {
            let ok = p.song.title != "s3";
            finish_download(&mut dq, p, ok, &mut counter);
        }
        assert!(dq.len() <= MAX_QUEUE_DEPTH + 1);
        assert!(counter <= MAX_QUEUE_DEPTH);
    }
    assert_eq!(dq.len(), MAX_QUEUE_DEPTH + 1);
    assert_eq!(titles(&q), vec!["s12", "s13", "s14"]);
    let mut paths: Vec<String> = dq.iter().map(|s| s.path.clone().unwrap()).collect();
    paths.sort();
    paths.dedup();
    assert_eq!(paths.len(), MAX_QUEUE_DEPTH + 1);
    // The player then runs dry over and over.
    for _ in 0..20 {
        let step = worker_step(QueueCommand::Empty, &mut q, &mut dq, "out", counter);
        assert!(step.download.is_none());
        if let Some(s) = step.play {
            played.push(s.title);
        }
        if step.fetch_after_play {
            if let Some(p) = start_download(&mut q, "out", counter) {
                finish_download(&mut dq, p, true, &mut counter);
            }
        }
        assert!(dq.len() <= MAX_QUEUE_DEPTH + 1);
    }
    let expected: Vec<String> = (0..15)
        .filter(|i| *i != 3)
        .map(|i| format!("s{}", i))
        .collect();
    assert_eq!(played, expected);
    assert!(dq.is_empty());
    assert!(q.is_empty());
}
