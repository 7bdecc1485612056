//! The two song queues and the decisions of the queue worker.
//!
//! Listeners add songs to the request queue. The worker downloads songs
//! from its front into the downloaded queue, and hands the front of the
//! downloaded queue to the player whenever the player runs dry.

use vstd::prelude::*;

use std::collections::VecDeque;

use crate::music_info::song::{Song, SongResponse, SongView, songs_view};
use crate::paths::{join, join_spec, lemma_join_injective};
use crate::text::{decimal_seq, decimal_string, lemma_decimal_injective};

verus! {

/// How many downloaded tracks are kept ahead, besides the one being
/// fetched; track file numbers run from 0 to this value.
pub const MAX_QUEUE_DEPTH: usize = 10;

/// What the queue worker is told.
#[derive(Debug, Clone, Copy, PartialEq, Eq, Structural)]
pub enum QueueCommand {
    /// A song was added to the request queue.
    Add,
    /// The player has nothing left to play.
    Empty,
}

/// An empty queue.
pub fn new_queue() -> (r: VecDeque<Song>)
    ensures
        r@.len() == 0,
{
    VecDeque::new()
}

/// Takes the song at the front of a queue, if there is one.
pub fn get_next_song(queue: &mut VecDeque<Song>) -> (r: Option<Song>)
    ensures
        old(queue)@.len() == 0 ==> r is None && final(queue)@ == old(queue)@,
        old(queue)@.len() > 0 ==> r == Some(old(queue)@[0]) && final(queue)@
            == old(queue)@.drop_first(),
{
    let r = queue.pop_front();
    proof {
        if old(queue)@.len() > 0 {
            assert(old(queue)@.subrange(1, old(queue)@.len() as int) =~= old(queue)@.drop_first());
        }
    }
    r
}

/// Whether an added song should start downloading now: there is a
/// requested song and fewer than `MAX_QUEUE_DEPTH + 1` are downloaded.
pub open spec fn should_download_spec(requested: nat, downloaded: nat) -> bool {
    requested > 0 && downloaded < MAX_QUEUE_DEPTH + 1
}

/// Decides whether an added song should start downloading now.
pub fn should_download(queue: &VecDeque<Song>, downloaded: &VecDeque<Song>) -> (r: bool)
    ensures
        r == should_download_spec(queue@.len(), downloaded@.len()),
{
    queue.len() != 0 && downloaded.len() < MAX_QUEUE_DEPTH + 1
}

/// The file name of track number `counter`: `track_{counter}.mp3`.
pub open spec fn track_file_name_spec(counter: nat) -> Seq<char> {
    "track_"@ + decimal_seq(counter) + ".mp3"@
}

/// Names track number `counter`.
pub fn track_file_name(counter: usize) -> (r: String)
    ensures
        r@ == track_file_name_spec(counter as nat),
{
    let digits = decimal_string(counter as u64);
    String::from_str("track_").concat(digits.as_str()).concat(".mp3")
}

/// Where track number `counter` is stored.
pub fn track_path(output_dir: &str, counter: usize) -> (r: String)
    ensures
        r@ == join_spec(output_dir@, track_file_name_spec(counter as nat)),
{
    let name = track_file_name(counter);
    join(output_dir, name.as_str())
}

/// The track number after `counter`: the numbers cycle through
/// `0..=MAX_QUEUE_DEPTH`, so old track files are reused.
pub open spec fn next_counter_spec(counter: nat) -> nat {
    if counter < MAX_QUEUE_DEPTH {
        counter + 1
    } else {
        0
    }
}

/// Advances the track number.
pub fn next_counter(counter: usize) -> (r: usize)
    ensures
        r == next_counter_spec(counter as nat),
        r <= MAX_QUEUE_DEPTH,
{
    if counter < MAX_QUEUE_DEPTH {
        counter + 1
    } else {
        0
    }
}

/// A song taken from the request queue, to be stored at `output_path`.
pub struct PendingDownload {
    pub song: Song,
    pub output_path: String,
}

/// Takes the next requested song and names the file it is downloaded to.
pub fn start_download(queue: &mut VecDeque<Song>, output_dir: &str, counter: usize) -> (r: Option<
    PendingDownload,
>)
    ensures
        old(queue)@.len() == 0 ==> r is None && final(queue)@ == old(queue)@,
        old(queue)@.len() > 0 ==> r is Some && r->Some_0.song == old(queue)@[0]
            && r->Some_0.output_path@ == join_spec(
            output_dir@,
            track_file_name_spec(counter as nat),
        ) && final(queue)@ == old(queue)@.drop_first(),
{
    match get_next_song(queue) {
        Some(song) => {
            let output_path = track_path(output_dir, counter);
            Some(PendingDownload { song, output_path })
        },
        None => None,
    }
}

/// The downloaded song: the requested one, now stored at `path`.
pub open spec fn stored_song(s: SongView, path: Seq<char>) -> SongView {
    SongView { path: Some(path), ..s }
}

/// Records how a download ended. A finished download joins the back of the
/// downloaded queue with its file, and the track number advances; a failed
/// one is dropped and changes nothing.
pub fn finish_download(
    downloaded: &mut VecDeque<Song>,
    pending: PendingDownload,
    succeeded: bool,
    counter: &mut usize,
)
    ensures
        succeeded ==> songs_view(final(downloaded)@) == songs_view(old(downloaded)@).push(
            stored_song(pending.song@, pending.output_path@),
        ) && *final(counter) == next_counter_spec(*old(counter) as nat),
        !succeeded ==> final(downloaded)@ == old(downloaded)@ && *final(counter) == *old(counter),
        songs_view(final(downloaded)@) == finish_downloaded(
            songs_view(old(downloaded)@),
            pending.song@,
            pending.output_path@,
            succeeded,
        ),
        *final(counter) == finish_counter(*old(counter) as nat, succeeded),
{
    if succeeded {
        let PendingDownload { song, output_path } = pending;
        let mut song = song;
        let ghost path_view = output_path@;
        song.path = Some(output_path);
        assert(song@ == stored_song(pending.song@, path_view));
        downloaded.push_back(song);
        assert(songs_view(downloaded@) =~= songs_view(old(downloaded)@).push(
            stored_song(pending.song@, path_view),
        ));
        *counter = next_counter(*counter);
    }
}

/// Whether a command starts a download as it is handled, given how many
/// songs are requested and how many are downloaded: `Add` as
/// `should_download_spec` says. `Empty` starts none then; its download comes
/// after the player has been handed its song (`fetches_after_play`).
pub open spec fn downloads_started(command: QueueCommand, requested: nat, downloaded: nat) -> bool {
    command == QueueCommand::Add && should_download_spec(requested, downloaded)
}

/// Whether, after handling `command`, the worker goes on to take the next
/// requested song (with `start_download`) once the player has its song:
/// on `Empty`, whenever a downloaded song went to the player.
pub open spec fn fetches_after_play(command: QueueCommand, d: Seq<SongView>) -> bool {
    command == QueueCommand::Empty && d.len() > 0
}

/// Where the download numbered `counter` is stored under `output_dir`.
pub open spec fn track_path_spec(output_dir: Seq<char>, counter: nat) -> Seq<char> {
    join_spec(output_dir, track_file_name_spec(counter))
}

/// The request queue after the worker handles `command`.
pub open spec fn step_queue(command: QueueCommand, q: Seq<SongView>, d: Seq<SongView>) -> Seq<
    SongView,
> {
    if downloads_started(command, q.len(), d.len()) {
        q.drop_first()
    } else {
        q
    }
}

/// The downloaded queue after the worker handles `command`, before the
/// download it starts ends.
pub open spec fn step_downloaded(command: QueueCommand, d: Seq<SongView>) -> Seq<SongView> {
    if command == QueueCommand::Empty && d.len() > 0 {
        d.drop_first()
    } else {
        d
    }
}

/// The song the worker hands to the player for `command`, if any.
pub open spec fn step_play(command: QueueCommand, d: Seq<SongView>) -> Option<SongView> {
    if command == QueueCommand::Empty && d.len() > 0 {
        Some(d[0])
    } else {
        None
    }
}

/// The song the worker starts downloading for `command`, if any.
pub open spec fn step_download(command: QueueCommand, q: Seq<SongView>, d: Seq<SongView>) -> Option<
    SongView,
> {
    if downloads_started(command, q.len(), d.len()) {
        Some(q[0])
    } else {
        None
    }
}

/// The downloaded queue after a download of `song` to `path` ends.
pub open spec fn finish_downloaded(
    d: Seq<SongView>,
    song: SongView,
    path: Seq<char>,
    succeeded: bool,
) -> Seq<SongView> {
    if succeeded {
        d.push(stored_song(song, path))
    } else {
        d
    }
}

/// The track number after a download ends.
pub open spec fn finish_counter(counter: nat, succeeded: bool) -> nat {
    if succeeded {
        next_counter_spec(counter)
    } else {
        counter
    }
}

/// Dropping the front commutes with taking views.
pub proof fn lemma_songs_view_drop_first(s: Seq<Song>)
    requires
        s.len() > 0,
    ensures
        songs_view(s.drop_first()) == songs_view(s).drop_first(),
        songs_view(s).len() == s.len(),
        songs_view(s)[0] == s[0]@,
{
    assert(songs_view(s.drop_first()) =~= songs_view(s).drop_first());
}

/// What the worker does for one command: the song to start playing, if
/// any, the download to start, if any, and whether the next requested song
/// is to be taken once the player has been handed its song.
pub struct WorkerStep {
    pub play: Option<Song>,
    pub download: Option<PendingDownload>,
    pub fetch_after_play: bool,
}

/// Decides one command of the queue worker, taking songs from the queues.
///
/// On `Add`, the next requested song starts downloading when
/// `should_download` allows it. On `Empty`, the front of the downloaded
/// queue is handed to the player; once the player has it, the worker takes
/// the next requested song, if any, with `start_download`
/// (`fetch_after_play`). The request queue is left alone until then.
pub fn worker_step(
    command: QueueCommand,
    queue: &mut VecDeque<Song>,
    downloaded: &mut VecDeque<Song>,
    output_dir: &str,
    counter: usize,
) -> (r: WorkerStep)
    ensures
        ({
            let starts = downloads_started(command, old(queue)@.len(), old(downloaded)@.len());
            &&& starts ==> r.download is Some && r.download->Some_0.song == old(queue)@[0]
                && r.download->Some_0.output_path@ == join_spec(
                output_dir@,
                track_file_name_spec(counter as nat),
            ) && final(queue)@ == old(queue)@.drop_first()
            &&& !starts ==> r.download is None && final(queue)@ == old(queue)@
        }),
        command == QueueCommand::Add ==> r.play is None && !r.fetch_after_play
            && final(downloaded)@ == old(downloaded)@,
        command == QueueCommand::Empty ==> (if old(downloaded)@.len() > 0 {
            r.play == Some(old(downloaded)@[0]) && r.fetch_after_play && final(downloaded)@
                == old(downloaded)@.drop_first()
        } else {
            r.play is None && !r.fetch_after_play && final(downloaded)@ == old(downloaded)@
        }),
        r.fetch_after_play == fetches_after_play(command, songs_view(old(downloaded)@)),
        songs_view(final(queue)@) == step_queue(
            command,
            songs_view(old(queue)@),
            songs_view(old(downloaded)@),
        ),
        songs_view(final(downloaded)@) == step_downloaded(command, songs_view(old(downloaded)@)),
        match r.play {
            Some(s) => step_play(command, songs_view(old(downloaded)@)) == Some(s@),
            None => step_play(command, songs_view(old(downloaded)@)) is None,
        },
        match r.download {
            Some(p) => step_download(command, songs_view(old(queue)@), songs_view(old(downloaded)@))
                == Some(p.song@) && p.output_path@ == track_path_spec(output_dir@, counter as nat),
            None => step_download(
                command,
                songs_view(old(queue)@),
                songs_view(old(downloaded)@),
            ) is None,
        },
{
    proof {
        assert(songs_view(old(queue)@).len() == old(queue)@.len());
        assert(songs_view(old(downloaded)@).len() == old(downloaded)@.len());
        if old(queue)@.len() > 0 {
            lemma_songs_view_drop_first(old(queue)@);
        }
        if old(downloaded)@.len() > 0 {
            lemma_songs_view_drop_first(old(downloaded)@);
        }
    }
    match command {
        QueueCommand::Add => {
            if should_download(queue, downloaded) {
                let download = start_download(queue, output_dir, counter);
                WorkerStep { play: None, download, fetch_after_play: false }
            } else {
                WorkerStep { play: None, download: None, fetch_after_play: false }
            }
        },
        QueueCommand::Empty => {
            match get_next_song(downloaded) {
                Some(next) => WorkerStep { play: Some(next), download: None, fetch_after_play: true },
                None => WorkerStep { play: None, download: None, fetch_after_play: false },
            }
        },
    }
}

/// What listeners are shown of a queue, front first.
pub fn queue_responses(queue: &VecDeque<Song>) -> (r: Vec<SongResponse>)
    ensures
        r@.len() == queue@.len(),
        forall|i: int|
            0 <= i < queue@.len() ==> {
                &&& (#[trigger] r@[i]).title@ == queue@[i].title@
                &&& r@[i].duration == queue@[i].duration
                &&& r@[i].channel@ == queue@[i].channel@
                &&& r@[i].views@ == queue@[i].views@
            },
{
    let mut r: Vec<SongResponse> = Vec::new();
    let mut i: usize = 0;
    while i < queue.len()
        invariant
            i <= queue@.len(),
            r@.len() == i,
            forall|k: int|
                0 <= k < i ==> {
                    &&& (#[trigger] r@[k]).title@ == queue@[k].title@
                    &&& r@[k].duration == queue@[k].duration
                    &&& r@[k].channel@ == queue@[k].channel@
                    &&& r@[k].views@ == queue@[k].views@
                },
        decreases queue@.len() - i,
    {
        let resp = SongResponse::from(&queue[i]);
        r.push(resp);
        i = i + 1;
    }
    r
}

/// Adds a listener's song to the back of the request queue, and gives the
/// command that tells the queue worker about it.
pub fn add_to_queue(queue: &mut VecDeque<Song>, song: Song) -> (r: QueueCommand)
    ensures
        final(queue)@ == old(queue)@.push(song),
        r == QueueCommand::Add,
{
    queue.push_back(song);
    QueueCommand::Add
}

/// Songs leave a queue in the order they were added: after `s` is added to
/// `q`, the next song taken is the front of `q` (or `s` if `q` was empty),
/// the songs of `q` all come before `s`, and `s` comes right after them.
pub proof fn lemma_queue_fifo(q: Seq<Song>, s: Song)
    ensures
        q.push(s)[0] == (if q.len() > 0 { q[0] } else { s }),
        q.push(s).take(q.len() as int) == q,
        q.push(s)[q.len() as int] == s,
        q.len() > 0 ==> q.push(s).drop_first() == q.drop_first().push(s),
{
    assert(q.push(s).take(q.len() as int) =~= q);
    if q.len() > 0 {
        assert(q.push(s).drop_first() =~= q.drop_first().push(s));
    }
}

/// The track number after `k` downloads, starting from `counter`.
pub open spec fn advance_counter(counter: nat, k: nat) -> nat
    decreases k,
{
    if k == 0 {
        counter
    } else {
        next_counter_spec(advance_counter(counter, (k - 1) as nat))
    }
}

/// Track numbers run through `0..=MAX_QUEUE_DEPTH` in turn.
pub proof fn lemma_advance_counter(counter: nat, k: nat)
    requires
        counter <= MAX_QUEUE_DEPTH,
    ensures
        advance_counter(counter, k) == (counter + k) % (MAX_QUEUE_DEPTH as nat + 1),
    decreases k,
{
    if k > 0 {
        lemma_advance_counter(counter, (k - 1) as nat);
        lemma_mod_succ((counter + k - 1) as nat);
    }
    if k == 0 {
        lemma_small_mod(counter);
    }
}

/// Adding one steps the remainder by `MAX_QUEUE_DEPTH + 1` around its cycle.
proof fn lemma_mod_succ(x: nat)
    ensures
        (x + 1) % (MAX_QUEUE_DEPTH as nat + 1) == if x % (MAX_QUEUE_DEPTH as nat + 1)
            < MAX_QUEUE_DEPTH {
            x % (MAX_QUEUE_DEPTH as nat + 1) + 1
        } else {
            0
        },
{
    assert((x + 1) % 11 == if x % 11 < 10 { x % 11 + 1 } else { 0 }) by (nonlinear_arith);
}

/// Track files are reused in a cycle: after `MAX_QUEUE_DEPTH + 1`
/// downloads the track number is back where it started, and within a cycle
/// every download gets a file name of its own.
pub proof fn lemma_track_files_cycle(counter: nat)
    requires
        counter <= MAX_QUEUE_DEPTH,
    ensures
        advance_counter(counter, MAX_QUEUE_DEPTH as nat + 1) == counter,
        forall|i: nat, j: nat|
            i < j <= MAX_QUEUE_DEPTH ==> track_file_name_spec(#[trigger] advance_counter(counter, i))
                != track_file_name_spec(#[trigger] advance_counter(counter, j)),
{
    lemma_advance_counter(counter, MAX_QUEUE_DEPTH as nat + 1);
    lemma_small_mod(counter + MAX_QUEUE_DEPTH as nat + 1);
    assert forall|i: nat, j: nat| i < j <= MAX_QUEUE_DEPTH implies track_file_name_spec(
        #[trigger] advance_counter(counter, i),
    ) != track_file_name_spec(#[trigger] advance_counter(counter, j)) by {
        lemma_advance_counter(counter, i);
        lemma_advance_counter(counter, j);
        lemma_small_mod(counter + i);
        lemma_small_mod(counter + j);
        lemma_track_names_distinct(advance_counter(counter, i), advance_counter(counter, j));
    }
}

/// Remainders by `MAX_QUEUE_DEPTH + 1` of numbers below twice that.
proof fn lemma_small_mod(x: nat)
    requires
        x < 2 * (MAX_QUEUE_DEPTH as nat + 1),
    ensures
        x % (MAX_QUEUE_DEPTH as nat + 1) == if x < MAX_QUEUE_DEPTH as nat + 1 {
            x
        } else {
            (x - (MAX_QUEUE_DEPTH as nat + 1)) as nat
        },
{
    assert(x < 22 ==> x % 11 == if x < 11 { x } else { (x - 11) as nat }) by (nonlinear_arith);
}

/// Different track numbers name different files.
pub proof fn lemma_track_names_distinct(a: nat, b: nat)
    requires
        a != b,
    ensures
        track_file_name_spec(a) != track_file_name_spec(b),
{
    lemma_decimal_injective(a, b);
    reveal_strlit("track_");
    reveal_strlit(".mp3");
    let ta = track_file_name_spec(a);
    let tb = track_file_name_spec(b);
    if ta == tb {
        assert(ta.subrange(6, ta.len() - 4) =~= decimal_seq(a));
        assert(tb.subrange(6, tb.len() - 4) =~= decimal_seq(b));
    }
}

// ---------------------------------------------------------------------------
// The worker over a run of events.
// ---------------------------------------------------------------------------

/// What the queues hold after a run of events, as views, with the history
/// that the laws speak of.
pub struct WorkerModel {
    /// Every song listeners added, in order.
    pub added: Seq<SongView>,
    /// The request queue.
    pub queue: Seq<SongView>,
    /// The downloaded queue.
    pub downloaded: Seq<SongView>,
    /// Every song handed to the player, in order.
    pub played: Seq<SongView>,
    /// The number of the next track file.
    pub counter: nat,
    /// Whether the player was just handed a song and the worker has still to
    /// take the next requested one.
    pub fetch_pending: bool,
}

/// One thing that happens to the queues: a listener adds a song
/// (`add_to_queue`); the worker handles a command (`worker_step`), and the
/// download it starts, if any, ends as the flag says (`finish_download`);
/// or, after the player was handed its song, the worker takes the next
/// requested song (`start_download`) and its download ends as the flag says.
/// The worker handles one command at a time: a command is only taken up
/// when no fetch is pending, and a fetch only happens when one is.
pub enum WorkerEvent {
    Enqueue(SongView),
    Handle(QueueCommand, bool),
    Fetch(bool),
}

/// The queues as the jukebox starts: all empty, track number 0.
pub open spec fn initial_model() -> WorkerModel {
    WorkerModel {
        added: Seq::empty(),
        queue: Seq::empty(),
        downloaded: Seq::empty(),
        played: Seq::empty(),
        counter: 0,
        fetch_pending: false,
    }
}

/// The front of the request queue is downloaded to the next track file;
/// the download ends as `succeeded` says.
pub open spec fn download_next(m: WorkerModel, output_dir: Seq<char>, succeeded: bool) -> WorkerModel {
    WorkerModel {
        queue: m.queue.drop_first(),
        downloaded: finish_downloaded(
            m.downloaded,
            m.queue[0],
            track_path_spec(output_dir, m.counter),
            succeeded,
        ),
        counter: finish_counter(m.counter, succeeded),
        ..m
    }
}

/// The queues after one event, as the contracts of `add_to_queue`,
/// `worker_step`, `start_download` and `finish_download` say, with tracks
/// stored under `output_dir`.
pub open spec fn apply_event(m: WorkerModel, output_dir: Seq<char>, e: WorkerEvent) -> WorkerModel {
    match e {
        WorkerEvent::Enqueue(song) => WorkerModel {
            added: m.added.push(song),
            queue: m.queue.push(song),
            ..m
        },
        WorkerEvent::Handle(command, succeeded) => if m.fetch_pending {
            m
        } else {
            let q = m.queue;
            let d = m.downloaded;
            let m1 = WorkerModel {
                downloaded: step_downloaded(command, d),
                played: match step_play(command, d) {
                    Some(s) => m.played.push(s),
                    None => m.played,
                },
                fetch_pending: fetches_after_play(command, d),
                ..m
            };
            if step_download(command, q, d) is Some {
                download_next(m1, output_dir, succeeded)
            } else {
                m1
            }
        },
        WorkerEvent::Fetch(succeeded) => if !m.fetch_pending {
            m
        } else {
            let m1 = WorkerModel { fetch_pending: false, ..m };
            if m.queue.len() > 0 {
                download_next(m1, output_dir, succeeded)
            } else {
                m1
            }
        },
    }
}

/// The queues after a run of events, starting from `m`.
pub open spec fn run_events(m: WorkerModel, output_dir: Seq<char>, events: Seq<WorkerEvent>) -> WorkerModel
    decreases events.len(),
{
    if events.len() == 0 {
        m
    } else {
        apply_event(run_events(m, output_dir, events.drop_last()), output_dir, events.last())
    }
}

/// A song without its file.
pub open spec fn unpathed(s: SongView) -> SongView {
    SongView { path: None, ..s }
}

/// Songs without their files.
pub open spec fn unpathed_all(s: Seq<SongView>) -> Seq<SongView> {
    s.map_values(|x: SongView| unpathed(x))
}

/// Whether `a` is a subsequence of `b`: `b` with some songs left out.
pub open spec fn is_subseq(a: Seq<SongView>, b: Seq<SongView>) -> bool
    decreases b.len(),
{
    if a.len() == 0 {
        true
    } else if b.len() == 0 {
        false
    } else if a.last() == b.last() {
        is_subseq(a.drop_last(), b.drop_last())
    } else {
        is_subseq(a, b.drop_last())
    }
}

/// Leaving out the last song keeps a subsequence.
pub proof fn lemma_subseq_drop_last(a: Seq<SongView>, b: Seq<SongView>)
    requires
        is_subseq(a, b),
        a.len() > 0,
    ensures
        is_subseq(a.drop_last(), b),
    decreases b.len(), 0int,
{
    if a.last() == b.last() {
        if a.drop_last().len() > 0 {
            lemma_subseq_drop_last(a.drop_last(), b.drop_last());
            lemma_subseq_extend(a.drop_last(), b.drop_last(), b.last());
            assert(b.drop_last().push(b.last()) =~= b);
        }
    } else {
        lemma_subseq_drop_last(a, b.drop_last());
        if a.drop_last().len() > 0 {
            lemma_subseq_extend(a.drop_last(), b.drop_last(), b.last());
            assert(b.drop_last().push(b.last()) =~= b);
        }
    }
}

/// A subsequence stays one when the longer sequence grows.
pub proof fn lemma_subseq_extend(a: Seq<SongView>, b: Seq<SongView>, x: SongView)
    requires
        is_subseq(a, b),
    ensures
        is_subseq(a, b.push(x)),
    decreases b.len(), 1int,
{
    assert(b.push(x).drop_last() =~= b);
    if a.len() > 0 && a.last() == x {
        lemma_subseq_drop_last(a, b);
    }
}

/// Adding the same song to both keeps a subsequence.
pub proof fn lemma_subseq_push_both(a: Seq<SongView>, b: Seq<SongView>, x: SongView)
    requires
        is_subseq(a, b),
    ensures
        is_subseq(a.push(x), b.push(x)),
{
    assert(a.push(x).drop_last() =~= a);
    assert(b.push(x).drop_last() =~= b);
}

/// The slot, among the track numbers, of the `k`-th downloaded song when
/// `len` songs are downloaded and the next track number is `counter`.
pub open spec fn slot(counter: nat, len: nat, k: nat) -> nat {
    ((counter + MAX_QUEUE_DEPTH as nat + 1 - len + k) as nat) % (MAX_QUEUE_DEPTH as nat + 1)
}

/// What holds after every run from the start.
pub open spec fn worker_invariant(m: WorkerModel, output_dir: Seq<char>) -> bool {
    let prefix = m.added.subrange(0, m.added.len() - m.queue.len());
    &&& m.downloaded.len() <= MAX_QUEUE_DEPTH + 1
    &&& m.fetch_pending ==> m.downloaded.len() <= MAX_QUEUE_DEPTH
    &&& m.counter <= MAX_QUEUE_DEPTH
    &&& forall|k: int|
        0 <= k < m.downloaded.len() ==> (#[trigger] m.downloaded[k]).path == Some(
            track_path_spec(output_dir, slot(m.counter, m.downloaded.len(), k as nat)),
        )
    &&& m.queue.len() <= m.added.len()
    &&& m.added.subrange(m.added.len() - m.queue.len(), m.added.len() as int) == m.queue
    &&& is_subseq(unpathed_all(m.played + m.downloaded), unpathed_all(prefix))
}

/// Adding eleven keeps the remainder by eleven.
proof fn lemma_mod_add_period(x: nat)
    ensures
        (x + MAX_QUEUE_DEPTH as nat + 1) % (MAX_QUEUE_DEPTH as nat + 1) == x % (
        MAX_QUEUE_DEPTH as nat + 1),
{
    assert((x + 11) % 11 == x % 11) by (nonlinear_arith);
}

/// Downloading the front of the request queue, with room for one more
/// downloaded song, keeps the invariant.
proof fn lemma_download_next_keeps(m: WorkerModel, output_dir: Seq<char>, succeeded: bool)
    requires
        worker_invariant(m, output_dir),
        m.queue.len() > 0,
        m.downloaded.len() <= MAX_QUEUE_DEPTH,
        !m.fetch_pending,
    ensures
        worker_invariant(download_next(m, output_dir, succeeded), output_dir),
{
    let m2 = download_next(m, output_dir, succeeded);
    let q = m.queue;
    let d = m.downloaded;
    let c = m.counter;
    let song = q[0];
    let prefix = m.added.subrange(0, m.added.len() - m.queue.len());
    let new_prefix = m2.added.subrange(0, m2.added.len() - m2.queue.len());
    assert(m.added[m.added.len() - q.len()] == q[0]) by {
        assert(m.added.subrange(m.added.len() - q.len(), m.added.len() as int)[0] == q[0]);
    }
    assert(new_prefix =~= prefix.push(song));
    assert(m2.added.subrange(m2.added.len() - m2.queue.len(), m2.added.len() as int)
        =~= m2.queue);
    assert(unpathed_all(prefix.push(song)) =~= unpathed_all(prefix).push(unpathed(song)));
    let path = track_path_spec(output_dir, c);
    if succeeded {
        let stored = stored_song(song, path);
        assert(m2.downloaded == d.push(stored));
        assert(m2.played + m2.downloaded =~= (m.played + d).push(stored));
        assert(unpathed_all((m.played + d).push(stored)) =~= unpathed_all(m.played + d).push(
            unpathed(song),
        ));
        lemma_subseq_push_both(unpathed_all(m.played + d), unpathed_all(prefix), unpathed(song));
        let c2 = next_counter_spec(c);
        let n2 = d.len() + 1;
        assert forall|k: int| 0 <= k < m2.downloaded.len() implies (
        #[trigger] m2.downloaded[k]).path == Some(
            track_path_spec(output_dir, slot(c2, n2, k as nat)),
        ) by {
            let x = (c + MAX_QUEUE_DEPTH as nat + 1 - d.len() + k) as nat;
            if c < MAX_QUEUE_DEPTH {
                assert(slot(c2, n2, k as nat) == x % (MAX_QUEUE_DEPTH as nat + 1));
            } else {
                assert(x == (c2 + MAX_QUEUE_DEPTH as nat + 1 - n2 + k) as nat + MAX_QUEUE_DEPTH
                    as nat + 1);
                lemma_mod_add_period((c2 + MAX_QUEUE_DEPTH as nat + 1 - n2 + k) as nat);
            }
            if k < d.len() {
                assert(m2.downloaded[k] == d[k]);
                assert(slot(c, d.len(), k as nat) == x % (MAX_QUEUE_DEPTH as nat + 1));
            } else {
                assert(m2.downloaded[k] == stored);
                assert(x == c + MAX_QUEUE_DEPTH as nat + 1);
                lemma_mod_add_period(c);
                lemma_small_mod(c);
            }
        }
    } else {
        assert(m2.downloaded == d);
        lemma_subseq_extend(unpathed_all(m.played + d), unpathed_all(prefix), unpathed(song));
    }
}

/// One event keeps the invariant.
pub proof fn lemma_event_keeps_invariant(m: WorkerModel, output_dir: Seq<char>, e: WorkerEvent)
    requires
        worker_invariant(m, output_dir),
    ensures
        worker_invariant(apply_event(m, output_dir, e), output_dir),
{
    let m2 = apply_event(m, output_dir, e);
    let prefix = m.added.subrange(0, m.added.len() - m.queue.len());
    match e {
        WorkerEvent::Enqueue(song) => {
            assert(m2.added.subrange(0, m2.added.len() - m2.queue.len()) =~= prefix);
            assert(m2.added.subrange(m2.added.len() - m2.queue.len(), m2.added.len() as int)
                =~= m2.queue);
        },
        WorkerEvent::Handle(command, succeeded) => {
            if !m.fetch_pending {
                let q = m.queue;
                let d = m.downloaded;
                let len = d.len();
                let c = m.counter;
                let d1 = step_downloaded(command, d);
                let m1 = WorkerModel {
                    downloaded: d1,
                    played: match step_play(command, d) {
                        Some(s) => m.played.push(s),
                        None => m.played,
                    },
                    fetch_pending: fetches_after_play(command, d),
                    ..m
                };
                // The play step moves the front of the downloaded queue to
                // the played songs; the slots of the rest stay.
                assert(m1.played + d1 =~= m.played + d);
                assert forall|k: int| 0 <= k < d1.len() implies (#[trigger] d1[k]).path == Some(
                    track_path_spec(output_dir, slot(c, d1.len(), k as nat)),
                ) by {
                    if command == QueueCommand::Empty && len > 0 {
                        assert(d1[k] == d[k + 1]);
                        assert(slot(c, d1.len(), k as nat) == slot(c, len, (k + 1) as nat));
                    } else {
                        assert(d1[k] == d[k]);
                    }
                }
                assert(worker_invariant(m1, output_dir));
                if step_download(command, q, d) is Some {
                    lemma_download_next_keeps(m1, output_dir, succeeded);
                }
            }
        },
        WorkerEvent::Fetch(succeeded) => {
            if m.fetch_pending {
                let m1 = WorkerModel { fetch_pending: false, ..m };
                assert(worker_invariant(m1, output_dir));
                if m.queue.len() > 0 {
                    lemma_download_next_keeps(m1, output_dir, succeeded);
                }
            }
        },
    }
}

/// The worker's laws over any run of events from the start: the downloaded
/// queue never holds more than `MAX_QUEUE_DEPTH + 1` songs, and while a
/// fetch is pending it has room for one more; the track number
/// stays within `0..=MAX_QUEUE_DEPTH`; the downloaded songs all have files,
/// and no two share one; the request queue holds the last songs added, in
/// the order they were added; and the songs handed to the player, followed
/// by the downloaded ones, are the songs taken from the request queue in the
/// order they were added, with failed downloads left out (files aside).
pub proof fn lemma_worker_run(output_dir: Seq<char>, events: Seq<WorkerEvent>)
    ensures
        ({
            let m = run_events(initial_model(), output_dir, events);
            &&& m.downloaded.len() <= MAX_QUEUE_DEPTH + 1
            &&& m.fetch_pending ==> m.downloaded.len() <= MAX_QUEUE_DEPTH
            &&& m.counter <= MAX_QUEUE_DEPTH
            &&& forall|k: int| 0 <= k < m.downloaded.len() ==> (#[trigger] m.downloaded[k]).path is Some
            &&& forall|i: int, j: int|
                0 <= i < j < m.downloaded.len() ==> (#[trigger] m.downloaded[i]).path != (
                #[trigger] m.downloaded[j]).path
            &&& m.queue.len() <= m.added.len()
            &&& m.added.subrange(m.added.len() - m.queue.len(), m.added.len() as int) == m.queue
            &&& is_subseq(
                unpathed_all(m.played + m.downloaded),
                unpathed_all(m.added.subrange(0, m.added.len() - m.queue.len())),
            )
        }),
{
    lemma_worker_run_invariant(output_dir, events);
    let m = run_events(initial_model(), output_dir, events);
    assert forall|i: int, j: int| 0 <= i < j < m.downloaded.len() implies (
    #[trigger] m.downloaded[i]).path != (#[trigger] m.downloaded[j]).path by {
        let len = m.downloaded.len();
        let base = (m.counter + MAX_QUEUE_DEPTH as nat + 1 - len) as nat;
        lemma_small_mod(base + i as nat);
        lemma_small_mod(base + j as nat);
        let si = slot(m.counter, len, i as nat);
        let sj = slot(m.counter, len, j as nat);
        assert(si != sj);
        lemma_track_names_distinct(si, sj);
        lemma_join_injective(output_dir, track_file_name_spec(si), track_file_name_spec(sj));
    }
}

/// Every run from the start keeps the invariant.
pub proof fn lemma_worker_run_invariant(output_dir: Seq<char>, events: Seq<WorkerEvent>)
    ensures
        worker_invariant(run_events(initial_model(), output_dir, events), output_dir),
    decreases events.len(),
{
    if events.len() == 0 {
        let m = initial_model();
        assert(m.added.subrange(0, 0) =~= Seq::<SongView>::empty());
        assert(unpathed_all(m.played + m.downloaded) =~= Seq::<SongView>::empty());
    } else {
        lemma_worker_run_invariant(output_dir, events.drop_last());
        lemma_event_keeps_invariant(
            run_events(initial_model(), output_dir, events.drop_last()),
            output_dir,
            events.last(),
        );
    }
}

} // verus!
