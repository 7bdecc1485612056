//! What the jukebox knows of songs: durations, limits and search results.

pub mod song;
pub mod youtube;

use vstd::prelude::*;

use crate::text::{
    all_digits, chars_of, decimal_seq, digit_value, digits_value, is_digit, lemma_decimal_digits, lemma_parse_decimal_roundtrip,
    lemma_split_extend, lemma_split_two, parse_u64_chars, spec_parse_u64, split_chars, split_seq, views_of,
};

verus! {

pub const YOUTUBE_BASE_URL: &'static str = "https://www.youtube.com";

pub const YOUTUBE_SEARCH_BASE_URL: &'static str = "https://www.youtube.com/youtubei/v1/search?key=";

pub const YOUTUBE_WATCH_BASE_URL: &'static str = "https://www.youtube.com/watch?v=";

pub const INNERTUBE_FALLBACK_KEY: &'static str = "AIzaSyAReplaceWithCurrentWebKey";

/// Songs longer than this many seconds are never offered.
pub const MAX_SONG_DURATION_SECONDS: u64 = 600;

/// A duration with more `:`-separated fields than this (hours) is too long.
pub const MAX_TIME_SLICES: usize = 2;

/// A search answers with at most this many songs.
pub const MAX_SEARCH_RESULTS: usize = 5;

/// The value of one `:`-separated field of a duration: the number it spells,
/// or 0 where it spells none.
pub open spec fn field_value(field: Seq<char>) -> nat {
    match spec_parse_u64(field) {
        Some(n) => n as nat,
        None => 0,
    }
}

/// Folds fields left to right as `acc * 60 + field`.
pub open spec fn fields_value(fields: Seq<Seq<char>>) -> nat
    decreases fields.len(),
{
    if fields.len() == 0 {
        0
    } else {
        fields_value(fields.drop_last()) * 60 + field_value(fields.last())
    }
}

/// The number of seconds that a duration text such as `"3:25"` or
/// `"1:02:03"` stands for; unreadable fields count as 0.
pub open spec fn duration_value(time: Seq<char>) -> nat {
    fields_value(split_seq(time, ':'))
}

/// The number of `:`-separated fields of a duration text.
pub open spec fn time_slices(time: Seq<char>) -> nat {
    split_seq(time, ':').len()
}

/// Reads a duration text into seconds, or `None` where the number of seconds
/// does not fit in a `u64`.
pub fn duration_secs(time: &str) -> (r: Option<u64>)
    ensures
        r == (if duration_value(time@) <= u64::MAX {
            Some(duration_value(time@) as u64)
        } else {
            None::<u64>
        }),
{
    let chars = chars_of(time);
    let fields = split_chars(&chars, ':');
    let ghost fs = views_of(fields@);
    let mut acc: u64 = 0;
    let mut fits = true;
    let mut i: usize = 0;
    while i < fields.len()
        invariant
            i <= fields.len(),
            fs == views_of(fields@),
            fs.len() == fields@.len(),
            fits <==> fields_value(fs.take(i as int)) <= u64::MAX,
            fits ==> acc == fields_value(fs.take(i as int)),
        decreases fields.len() - i,
    {
        let v: u64 = match parse_u64_chars(&fields[i]) {
            Some(n) => n,
            None => 0,
        };
        proof {
            assert(fs.take(i + 1).drop_last() =~= fs.take(i as int));
            assert(fs.take(i + 1).last() == fields@[i as int]@);
            assert(v == field_value(fs.take(i + 1).last()));
        }
        if fits {
            if acc <= (u64::MAX - v) / 60 {
                acc = acc * 60 + v;
            } else {
                fits = false;
            }
        }
        i = i + 1;
    }
    assert(fs.take(fields.len() as int) =~= fs);
    if fits {
        Some(acc)
    } else {
        None
    }
}

/// The number of seconds that a duration text stands for: its
/// `:`-separated fields read as numbers (0 where unreadable) and folded as
/// `acc * 60 + field`.
pub fn parse_duration_to_secs(time: &str) -> (r: u64)
    requires
        duration_value(time@) <= u64::MAX,
    ensures
        r == duration_value(time@),
{
    match duration_secs(time) {
        Some(n) => n,
        None => 0,
    }
}

/// Whether a duration text has at most `MAX_TIME_SLICES` fields, that is,
/// it counts minutes and seconds but no hours.
pub fn check_song_length(time: &str) -> (r: bool)
    ensures
        r == (time_slices(time@) <= MAX_TIME_SLICES),
{
    let chars = chars_of(time);
    let split = split_chars(&chars, ':');
    assert(views_of(split@).len() == split@.len());
    if split.len() <= MAX_TIME_SLICES {
        return true;
    }
    false
}

/// A duration written as minutes and seconds, `m:ss`, stands for
/// `m * 60 + s` seconds, and it counts as a song length without hours.
pub proof fn lemma_minutes_seconds(m: u64, s: u64)
    ensures
        duration_value(decimal_seq(m as nat) + seq![':'] + decimal_seq(s as nat)) == m * 60 + s,
        time_slices(decimal_seq(m as nat) + seq![':'] + decimal_seq(s as nat)) == 2,
{
    let a = decimal_seq(m as nat);
    let b = decimal_seq(s as nat);
    lemma_decimal_digits(m as nat);
    lemma_decimal_digits(s as nat);
    assert forall|i: int| 0 <= i < a.len() implies a[i] != ':' by {
        assert(is_digit(a[i]));
    }
    assert forall|i: int| 0 <= i < b.len() implies b[i] != ':' by {
        assert(is_digit(b[i]));
    }
    lemma_split_two(a, b, ':');
    lemma_parse_decimal_roundtrip(m);
    lemma_parse_decimal_roundtrip(s);
    let f = seq![a, b];
    assert(f.drop_last() =~= seq![a]);
    assert(seq![a].drop_last() =~= Seq::<Seq<char>>::empty());
    assert(seq![a].last() == a);
    assert(fields_value(Seq::<Seq<char>>::empty()) == 0);
    assert(fields_value(seq![a]) == fields_value(Seq::<Seq<char>>::empty()) * 60 + field_value(a));
    assert(f.last() == b);
    assert(fields_value(f) == fields_value(seq![a]) * 60 + field_value(b));
}

/// The value of a field spelled with decimal digits only, leading zeros
/// included, is the number those digits spell.
proof fn lemma_digit_field_value(f: Seq<char>)
    requires
        f.len() > 0,
        all_digits(f),
        digits_value(f) <= u64::MAX,
    ensures
        field_value(f) == digits_value(f),
        forall|i: int| 0 <= i < f.len() ==> f[i] != ':',
{
    assert(is_digit(f[0]));
    assert forall|i: int| 0 <= i < f.len() implies f[i] != ':' by {
        assert(is_digit(f[i]));
    }
}

/// A leading zero adds nothing to the number that digits spell.
proof fn lemma_leading_zero_digits(b: Seq<char>)
    ensures
        digits_value(seq!['0'] + b) == digits_value(b),
    decreases b.len(),
{
    let z = seq!['0'] + b;
    if b.len() == 0 {
        assert(z.drop_last() =~= Seq::<char>::empty());
        assert(z.last() == '0');
        assert(digits_value(z) == digits_value(z.drop_last()) * 10 + digit_value(z.last()));
    } else {
        lemma_leading_zero_digits(b.drop_last());
        assert(z.drop_last() =~= seq!['0'] + b.drop_last());
        assert(z.last() == b.last());
        assert(digits_value(z) == digits_value(z.drop_last()) * 10 + digit_value(z.last()));
    }
}

/// A duration written `m:s` with any decimal digits, leading zeros included
/// (`4:08`, `04:8`), stands for `m * 60 + s` seconds, where `m` and `s` are
/// the numbers the two fields spell, and it counts as a length without hours.
pub proof fn lemma_minutes_seconds_digits(a: Seq<char>, b: Seq<char>)
    requires
        a.len() > 0,
        b.len() > 0,
        all_digits(a),
        all_digits(b),
        digits_value(a) <= u64::MAX,
        digits_value(b) <= u64::MAX,
    ensures
        duration_value(a + seq![':'] + b) == digits_value(a) * 60 + digits_value(b),
        time_slices(a + seq![':'] + b) == 2,
{
    lemma_digit_field_value(a);
    lemma_digit_field_value(b);
    lemma_split_two(a, b, ':');
    let f = seq![a, b];
    assert(f.drop_last() =~= seq![a]);
    assert(seq![a].drop_last() =~= Seq::<Seq<char>>::empty());
    assert(seq![a].last() == a);
    assert(fields_value(Seq::<Seq<char>>::empty()) == 0);
    assert(fields_value(seq![a]) == fields_value(Seq::<Seq<char>>::empty()) * 60 + field_value(a));
    assert(f.last() == b);
    assert(fields_value(f) == fields_value(seq![a]) * 60 + field_value(b));
}

/// Writing the seconds with a leading zero (`4:08` for `4:8`) does not
/// change the duration.
pub proof fn lemma_duration_leading_zero(a: Seq<char>, b: Seq<char>)
    requires
        a.len() > 0,
        b.len() > 0,
        all_digits(a),
        all_digits(b),
        digits_value(a) <= u64::MAX,
        digits_value(b) <= u64::MAX,
    ensures
        duration_value(a + seq![':'] + (seq!['0'] + b)) == duration_value(a + seq![':'] + b),
{
    let z = seq!['0'] + b;
    lemma_leading_zero_digits(b);
    assert forall|i: int| 0 <= i < z.len() implies is_digit(#[trigger] z[i]) by {
        if i > 0 {
            assert(z[i] == b[i - 1]);
        }
    }
    lemma_minutes_seconds_digits(a, b);
    lemma_minutes_seconds_digits(a, z);
}

/// Every digit of the seconds counts at its place: `m:bd`, for digits `b`
/// and a last digit `d`, stands for `m * 60 + b * 10 + d` seconds.
pub proof fn lemma_duration_last_digit(a: Seq<char>, b: Seq<char>, d: char)
    requires
        a.len() > 0,
        b.len() > 0,
        all_digits(a),
        all_digits(b),
        is_digit(d),
        digits_value(a) <= u64::MAX,
        digits_value(b.push(d)) <= u64::MAX,
    ensures
        duration_value(a + seq![':'] + b.push(d)) == digits_value(a) * 60 + digits_value(b) * 10
            + digit_value(d),
{
    let bd = b.push(d);
    assert(bd.drop_last() =~= b);
    assert(bd.last() == d);
    assert forall|i: int| 0 <= i < bd.len() implies is_digit(#[trigger] bd[i]) by {
        if i < b.len() {
            assert(bd[i] == b[i]);
        }
    }
    lemma_minutes_seconds_digits(a, bd);
}

/// A duration written `h:m:s` with any decimal digits stands for
/// `h * 3600 + m * 60 + s` seconds, and it has three fields (so it counts
/// hours, and no song of that length is offered).
pub proof fn lemma_hours_minutes_seconds_digits(a: Seq<char>, b: Seq<char>, c: Seq<char>)
    requires
        a.len() > 0,
        b.len() > 0,
        c.len() > 0,
        all_digits(a),
        all_digits(b),
        all_digits(c),
        digits_value(a) <= u64::MAX,
        digits_value(b) <= u64::MAX,
        digits_value(c) <= u64::MAX,
    ensures
        duration_value(a + seq![':'] + b + seq![':'] + c) == digits_value(a) * 3600
            + digits_value(b) * 60 + digits_value(c),
        time_slices(a + seq![':'] + b + seq![':'] + c) == 3,
{
    lemma_digit_field_value(a);
    lemma_digit_field_value(b);
    lemma_digit_field_value(c);
    lemma_split_two(a, b, ':');
    let ab = a + seq![':'] + b;
    let ab1 = ab + seq![':'];
    assert(ab1.drop_last() =~= ab);
    assert(ab1.last() == ':');
    assert(split_seq(ab1, ':') =~= seq![a, b, Seq::<char>::empty()]);
    lemma_split_extend(ab1, c, ':');
    assert(Seq::<char>::empty() + c =~= c);
    assert(seq![a, b, Seq::<char>::empty()].update(2, Seq::<char>::empty() + c) =~= seq![a, b, c]);
    assert(ab1 + c =~= a + seq![':'] + b + seq![':'] + c);
    let f = seq![a, b, c];
    assert(f.drop_last() =~= seq![a, b]);
    assert(seq![a, b].drop_last() =~= seq![a]);
    assert(seq![a].drop_last() =~= Seq::<Seq<char>>::empty());
    assert(fields_value(Seq::<Seq<char>>::empty()) == 0);
    assert(fields_value(seq![a]) == field_value(a));
    assert(fields_value(seq![a, b]) == fields_value(seq![a]) * 60 + field_value(b));
    assert(fields_value(f) == fields_value(seq![a, b]) * 60 + field_value(c));
}

} // verus!
