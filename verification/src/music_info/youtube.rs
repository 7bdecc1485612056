//! Talking with YouTube: the InnerTube settings of its front page, the body
//! of a search request, the songs of a search answer, and the command line
//! that downloads a song.

use vstd::prelude::*;

use super::song::{Song, SongView, songs_view};
use super::{
    check_song_length, duration_secs, duration_value, time_slices, INNERTUBE_FALLBACK_KEY,
    MAX_SEARCH_RESULTS, MAX_SONG_DURATION_SECONDS, MAX_TIME_SLICES, YOUTUBE_SEARCH_BASE_URL,
    YOUTUBE_WATCH_BASE_URL,
};

verus! {

// ---------------------------------------------------------------------------
// The InnerTube settings found in the front page.
// ---------------------------------------------------------------------------

/// `"KEY":"`, the text that introduces a quoted setting in the page.
pub open spec fn field_prefix(key: Seq<char>) -> Seq<char> {
    seq!['"'] + key + seq!['"', ':', '"']
}

/// The first index at or after `from` that holds a double quote.
pub open spec fn next_quote(h: Seq<char>, from: int) -> Option<int>
    decreases h.len() - from,
{
    if from < 0 || from >= h.len() {
        None
    } else if h[from] == '"' {
        Some(from)
    } else {
        next_quote(h, from + 1)
    }
}

/// The value of a setting whose prefix `p` starts at index `i`: the
/// characters up to the next double quote, at least one of them.
pub open spec fn field_value_at(h: Seq<char>, p: Seq<char>, i: int) -> Option<Seq<char>> {
    if 0 <= i && i + p.len() <= h.len() && h.subrange(i, i + p.len()) == p {
        match next_quote(h, i + p.len()) {
            Some(j) => if j > i + p.len() {
                Some(h.subrange(i + p.len(), j))
            } else {
                None
            },
            None => None,
        }
    } else {
        None
    }
}

/// The value of the leftmost setting with prefix `p` at or after index `i`.
pub open spec fn first_field_value(h: Seq<char>, p: Seq<char>, i: int) -> Option<Seq<char>>
    decreases h.len() - i,
{
    if i < 0 || i >= h.len() {
        None
    } else {
        match field_value_at(h, p, i) {
            Some(v) => Some(v),
            None => first_field_value(h, p, i + 1),
        }
    }
}

/// What the pattern `"KEY":"([^"]+)"` captures in `html`: the value of the
/// leftmost setting named `key`.
pub open spec fn quoted_field(html: Seq<char>, key: Seq<char>) -> Option<Seq<char>> {
    first_field_value(html, field_prefix(key), 0)
}

/// A setting name made only of ASCII capitals and underscores.
pub open spec fn is_setting_name(key: Seq<char>) -> bool {
    0 < key.len() <= 64 && forall|i: int|
        0 <= i < key.len() ==> (('A' <= #[trigger] key[i] && key[i] <= 'Z') || key[i] == '_')
}

/// Trusted: builds the regular expression `"KEY":"([^"]+)"` with
/// `regex::Regex::new` and calls `Regex::captures` on `html`, returning the
/// first capture group. The contract claims the regex crate's documented
/// leftmost-first semantics for this pattern: the match starts at the
/// leftmost position where the quoted key, a colon, a quote, one or more
/// non-quote characters and a closing quote follow, and the group is those
/// characters. That `Regex::new` accepts this fixed pattern is taken from
/// the crate's documented syntax.
#[verifier::external_body]
fn capture_quoted_field(html: &str, key: &str) -> (r: Option<String>)
    requires
        is_setting_name(key@),
    ensures
        match r {
            Some(v) => quoted_field(html@, key@) == Some(v@),
            None => quoted_field(html@, key@) is None,
        },
{
    let pattern = format!(r#""{}":"([^"]+)""#, key);
    let re = regex::Regex::new(&pattern).ok()?;
    re.captures(html).map(|caps| caps[1].to_string())
}

/// Why the InnerTube settings could not be read.
#[derive(Debug, Clone, Copy, PartialEq, Eq)]
pub enum InnerTubeError {
    /// The page names no `INNERTUBE_API_KEY`.
    ApiKeyNotFound,
    /// The page names no `INNERTUBE_CLIENT_VERSION`.
    ClientVersionNotFound,
}

/// The API key that the page names, if any.
pub fn get_innertube_api_key(html: &str) -> (r: Result<String, InnerTubeError>)
    ensures
        match r {
            Ok(v) => quoted_field(html@, "INNERTUBE_API_KEY"@) == Some(v@),
            Err(e) => quoted_field(html@, "INNERTUBE_API_KEY"@) is None
                && e == InnerTubeError::ApiKeyNotFound,
        },
{
    let key = "INNERTUBE_API_KEY";
    proof {
        reveal_strlit("INNERTUBE_API_KEY");
    }
    match capture_quoted_field(html, key) {
        Some(v) => Ok(v),
        None => Err(InnerTubeError::ApiKeyNotFound),
    }
}

/// The client version that the page names, if any.
pub fn get_innertube_client_version(html: &str) -> (r: Result<String, InnerTubeError>)
    ensures
        match r {
            Ok(v) => quoted_field(html@, "INNERTUBE_CLIENT_VERSION"@) == Some(v@),
            Err(e) => quoted_field(html@, "INNERTUBE_CLIENT_VERSION"@) is None
                && e == InnerTubeError::ClientVersionNotFound,
        },
{
    let key = "INNERTUBE_CLIENT_VERSION";
    proof {
        reveal_strlit("INNERTUBE_CLIENT_VERSION");
    }
    match capture_quoted_field(html, key) {
        Some(v) => Ok(v),
        None => Err(InnerTubeError::ClientVersionNotFound),
    }
}

/// The settings that a search request needs.
#[derive(Debug, Clone)]
pub struct InnerTubeConfig {
    api_key: String,
    client_version: String,
}

/// The mathematical content of an `InnerTubeConfig`.
pub struct InnerTubeConfigView {
    pub api_key: Seq<char>,
    pub client_version: Seq<char>,
}

impl View for InnerTubeConfig {
    type V = InnerTubeConfigView;

    closed spec fn view(&self) -> InnerTubeConfigView {
        InnerTubeConfigView { api_key: self.api_key@, client_version: self.client_version@ }
    }
}

impl InnerTubeConfig {
    /// Reads the settings from the YouTube front page `html`: the API key it
    /// names, or `INNERTUBE_FALLBACK_KEY` where it names none, and the
    /// client version it names, without which there is no configuration.
    pub fn new(html: &str) -> (r: Result<InnerTubeConfig, InnerTubeError>)
        ensures
            match quoted_field(html@, "INNERTUBE_CLIENT_VERSION"@) {
                None => r == Err::<InnerTubeConfig, InnerTubeError>(
                    InnerTubeError::ClientVersionNotFound,
                ),
                Some(version) => r is Ok && r->Ok_0@.client_version == version
                    && r->Ok_0@.api_key == match quoted_field(html@, "INNERTUBE_API_KEY"@) {
                        Some(k) => k,
                        None => INNERTUBE_FALLBACK_KEY@,
                    },
            },
    {
        let api_key = match get_innertube_api_key(html) {
            Ok(key) => key,
            Err(_) => String::from_str(INNERTUBE_FALLBACK_KEY),
        };
        let client_version = match get_innertube_client_version(html) {
            Ok(v) => v,
            Err(e) => {
                return Err(e);
            },
        };
        Ok(InnerTubeConfig { api_key, client_version })
    }

    /// The API key.
    pub fn api_key(&self) -> (r: &String)
        ensures
            r@ == self@.api_key,
    {
        &self.api_key
    }

    /// The client version.
    pub fn client_version(&self) -> (r: &String)
        ensures
            r@ == self@.client_version,
    {
        &self.client_version
    }

    /// The address that search requests are posted to.
    pub fn search_url(&self) -> (r: String)
        ensures
            r@ == YOUTUBE_SEARCH_BASE_URL@ + self@.api_key,
    {
        String::from_str(YOUTUBE_SEARCH_BASE_URL).concat(self.api_key.as_str())
    }
}


// ---------------------------------------------------------------------------
// The search request.
// ---------------------------------------------------------------------------

/// The lowercase hexadecimal digit for a value below sixteen.
pub open spec fn hex_digit(d: int) -> char {
    if d < 10 {
        ((d + '0' as int) as u32) as char
    } else {
        ((d - 10 + 'a' as int) as u32) as char
    }
}

/// How JSON writes one character inside a string: quote and backslash
/// escaped, the usual control characters by their short escapes, other
/// control characters as `\u00XX`, everything else as it is.
pub open spec fn json_escape_char(c: char) -> Seq<char> {
    if c == '"' {
        seq!['\\', '"']
    } else if c == '\\' {
        seq!['\\', '\\']
    } else if c == '\u{8}' {
        seq!['\\', 'b']
    } else if c == '\t' {
        seq!['\\', 't']
    } else if c == '\n' {
        seq!['\\', 'n']
    } else if c == '\u{c}' {
        seq!['\\', 'f']
    } else if c == '\r' {
        seq!['\\', 'r']
    } else if (c as int) < 0x20 {
        seq!['\\', 'u', '0', '0', hex_digit((c as int) / 16), hex_digit((c as int) % 16)]
    } else {
        seq![c]
    }
}

/// The escaped characters of a string, in order.
pub open spec fn json_escape(s: Seq<char>) -> Seq<char>
    decreases s.len(),
{
    if s.len() == 0 {
        Seq::empty()
    } else {
        json_escape(s.drop_last()) + json_escape_char(s.last())
    }
}

/// A string as a JSON string literal.
pub open spec fn json_quote(s: Seq<char>) -> Seq<char> {
    seq!['"'] + json_escape(s) + seq!['"']
}

/// Trusted: `serde_json::to_string` on a string slice. The contract states
/// the escaping that serde_json's compact formatter applies (its `ESCAPE`
/// table and `write_char_escape`): `"` and `\` escaped, backspace, tab, line
/// feed, form feed and carriage return by their short escapes, other
/// characters below U+0020 as `\u00` and two lowercase hex digits, all others
/// unchanged. Serializing a `str` into a `Vec` cannot fail in that source, so
/// the error arm is never taken.
#[verifier::external_body]
fn json_string_literal(s: &str) -> (r: String)
    ensures
        r@ == json_quote(s@),
{
    match serde_json::to_string(s) {
        Ok(t) => t,
        Err(_) => String::new(),
    }
}

/// The body of a search request, as the compact JSON text
/// `{"context":{"client":{"clientName":"WEB","clientVersion":V}},"query":Q}`
/// with the client version and the query as JSON strings.
pub open spec fn search_request_body_spec(client_version: Seq<char>, query: Seq<char>) -> Seq<char> {
    "{\"context\":{\"client\":{\"clientName\":\"WEB\",\"clientVersion\":"@ + json_quote(
        client_version,
    ) + "}},\"query\":"@ + json_quote(query) + "}"@
}

impl InnerTubeConfig {
    /// The JSON body of a search for `query`.
    pub fn search_request_body(&self, query: &str) -> (r: String)
        ensures
            r@ == search_request_body_spec(self@.client_version, query@),
    {
        let version = json_string_literal(self.client_version.as_str());
        let q = json_string_literal(query);
        String::from_str("{\"context\":{\"client\":{\"clientName\":\"WEB\",\"clientVersion\":")
            .concat(version.as_str())
            .concat("}},\"query\":")
            .concat(q.as_str())
            .concat("}")
    }
}

/// The value of a hexadecimal digit, in either case.
pub open spec fn hex_value(c: char) -> Option<int> {
    if '0' <= c && c <= '9' {
        Some(c as int - '0' as int)
    } else if 'a' <= c && c <= 'f' {
        Some(c as int - 'a' as int + 10)
    } else if 'A' <= c && c <= 'F' {
        Some(c as int - 'A' as int + 10)
    } else {
        None
    }
}

/// The character that a two-character JSON escape, a backslash and `e`,
/// stands for.
pub open spec fn json_short_escape(e: char) -> Option<char> {
    if e == '"' {
        Some('"')
    } else if e == '\\' {
        Some('\\')
    } else if e == '/' {
        Some('/')
    } else if e == 'b' {
        Some('\u{8}')
    } else if e == 'f' {
        Some('\u{c}')
    } else if e == 'n' {
        Some('\n')
    } else if e == 'r' {
        Some('\r')
    } else if e == 't' {
        Some('\t')
    } else {
        None
    }
}

/// The number of a character.
pub open spec fn char_code(c: char) -> int {
    c as int
}

/// The character that a `\uXXXX` escape starting at position `i` of `t`
/// stands for, where its four hexadecimal digits spell the number of a
/// character (halves of surrogate pairs are not read).
pub open spec fn json_unicode_escape(t: Seq<char>, i: int) -> Option<char> {
    if 0 <= i && i + 6 <= t.len() && t[i] == '\\' && t[i + 1] == 'u' && hex_value(t[i + 2]) is Some
        && hex_value(t[i + 3]) is Some && hex_value(t[i + 4]) is Some && hex_value(t[i + 5]) is Some {
        let v = hex_value(t[i + 2])->Some_0 * 4096 + hex_value(t[i + 3])->Some_0 * 256 + hex_value(
            t[i + 4],
        )->Some_0 * 16 + hex_value(t[i + 5])->Some_0;
        if exists|c: char| #[trigger] char_code(c) == v {
            Some(choose|c: char| #[trigger] char_code(c) == v)
        } else {
            None
        }
    } else {
        None
    }
}

/// Reads the inside of a JSON string literal from position `i` of `t` up
/// to its closing quote: the characters it stands for, and the position
/// just after the closing quote. `None` where no well-formed literal
/// follows (a bad escape, a raw control character, or no closing quote).
pub open spec fn json_read_chars(t: Seq<char>, i: int) -> Option<(Seq<char>, int)>
    decreases t.len() - i,
{
    if i < 0 || i >= t.len() {
        None
    } else if t[i] == '"' {
        Some((Seq::empty(), i + 1))
    } else if t[i] == '\\' {
        if i + 1 < t.len() && json_short_escape(t[i + 1]) is Some {
            match json_read_chars(t, i + 2) {
                Some((r, e)) => Some((seq![json_short_escape(t[i + 1])->Some_0] + r, e)),
                None => None,
            }
        } else if json_unicode_escape(t, i) is Some {
            match json_read_chars(t, i + 6) {
                Some((r, e)) => Some((seq![json_unicode_escape(t, i)->Some_0] + r, e)),
                None => None,
            }
        } else {
            None
        }
    } else if (t[i] as int) < 0x20 {
        None
    } else {
        match json_read_chars(t, i + 1) {
            Some((r, e)) => Some((seq![t[i]] + r, e)),
            None => None,
        }
    }
}

/// Reads the JSON string literal that starts at position `i` of `t`: the
/// string it stands for, and the position just after it.
pub open spec fn json_read_string(t: Seq<char>, i: int) -> Option<(Seq<char>, int)> {
    if 0 <= i < t.len() && t[i] == '"' {
        json_read_chars(t, i + 1)
    } else {
        None
    }
}

/// A character's number is never negative.
proof fn lemma_char_code_nonneg(c: char)
    ensures
        0 <= c as int,
{
}

/// A hexadecimal digit written by `hex_digit` reads back as its value.
proof fn lemma_hex_digit_value(d: int)
    requires
        0 <= d < 16,
    ensures
        hex_value(hex_digit(d)) == Some(d),
{
}

/// Escaping a string escapes its first character, then the rest.
proof fn lemma_json_escape_first(s: Seq<char>)
    requires
        s.len() > 0,
    ensures
        json_escape(s) == json_escape_char(s[0]) + json_escape(s.drop_first()),
    decreases s.len(),
{
    if s.len() == 1 {
        assert(s.drop_last() =~= Seq::<char>::empty());
        assert(s.drop_first() =~= Seq::<char>::empty());
        assert(json_escape(s.drop_last()) =~= Seq::<char>::empty());
        assert(json_escape_char(s[0]) + Seq::<char>::empty() =~= json_escape_char(s[0]));
        assert(Seq::<char>::empty() + json_escape_char(s[0]) =~= json_escape_char(s[0]));
    } else {
        lemma_json_escape_first(s.drop_last());
        assert(s.drop_last().drop_first() =~= s.drop_first().drop_last());
        assert(s.drop_first().last() == s.last());
        assert(s.drop_last()[0] == s[0]);
        assert(json_escape(s) =~= json_escape_char(s[0]) + json_escape(s.drop_first()));
    }
}

/// A JSON reader that meets an escaped string followed by a closing quote
/// reads back the string itself, and stops just after the quote.
proof fn lemma_json_read_escaped(s: Seq<char>, t: Seq<char>, k: int)
    requires
        0 <= k,
        k + json_escape(s).len() + 1 <= t.len(),
        t.subrange(k, k + json_escape(s).len() + 1) == json_escape(s) + seq!['"'],
    ensures
        json_read_chars(t, k) == Some((s, k + json_escape(s).len() + 1)),
    decreases s.len(),
{
    let es = json_escape(s);
    assert(t[k] == t.subrange(k, k + es.len() + 1)[0]);
    if s.len() == 0 {
        assert(es =~= Seq::<char>::empty());
        assert(t[k] == '"');
        assert(s =~= Seq::<char>::empty());
    } else {
        lemma_json_escape_first(s);
        let c = s[0];
        let e = json_escape_char(c);
        let rest = s.drop_first();
        let er = json_escape(rest);
        let w = e.len() as int;
        assert forall|m: int| 0 <= m < w implies t[k + m] == e[m] by {
            assert(t[k + m] == t.subrange(k, k + es.len() + 1)[m]);
            assert((es + seq!['"'])[m] == e[m]);
        }
        assert(t.subrange(k + w, k + w + er.len() + 1) =~= er + seq!['"']) by {
            assert forall|m: int| 0 <= m < er.len() + 1 implies t.subrange(
                k + w,
                k + w + er.len() + 1,
            )[m] == (er + seq!['"'])[m] by {
                assert(t[k + w + m] == t.subrange(k, k + es.len() + 1)[w + m]);
                assert((es + seq!['"'])[w + m] == (er + seq!['"'])[m]);
            }
        }
        lemma_json_read_escaped(rest, t, k + w);
        assert(seq![c] + rest =~= s);
        if c == '"' || c == '\\' || c == '\u{8}' || c == '\t' || c == '\n' || c == '\u{c}' || c
            == '\r' {
            assert(t[k] == '\\');
            assert(json_short_escape(t[k + 1]) == Some(c));
        } else if (c as int) < 0x20 {
            assert(t[k + 1] == 'u');
            assert(json_short_escape(t[k + 1]) is None);
            let h1 = (c as int) / 16;
            let h2 = (c as int) % 16;
            let ci = c as int;
            lemma_char_code_nonneg(c);
            assert(0 <= h1 < 16 && 0 <= h2 < 16) by (nonlinear_arith)
                requires
                    0 <= ci < 0x20,
                    h1 == ci / 16,
                    h2 == ci % 16,
            ;
            assert(h1 * 16 + h2 == ci) by (nonlinear_arith)
                requires
                    0 <= ci,
                    h1 == ci / 16,
                    h2 == ci % 16,
            ;
            assert(t[k + 4] == e[4] && e[4] == hex_digit(h1));
            assert(t[k + 5] == e[5] && e[5] == hex_digit(h2));
            lemma_hex_digit_value(h1);
            lemma_hex_digit_value(h2);
            assert(hex_value(t[k + 2]) == Some(0int));
            assert(hex_value(t[k + 3]) == Some(0int));
            assert(char_code(c) == c as int);
            assert(json_unicode_escape(t, k) == Some(c));
        } else {
            assert(t[k] == c);
        }
    }
}

/// The text a search body opens with, up to the client version.
pub open spec fn search_body_head() -> Seq<char> {
    "{\"context\":{\"client\":{\"clientName\":\"WEB\",\"clientVersion\":"@
}

/// The text between the client version and the query in a search body.
pub open spec fn search_body_query_key() -> Seq<char> {
    "}},\"query\":"@
}

/// Read as JSON, the body of a search gives back exactly what it was made
/// from: after its opening text comes a JSON string that reads as the
/// client version, then the `query` key, then a JSON string that reads as
/// the whole query, which ends just before the closing brace that ends the
/// body. This holds for every client version and query, whatever
/// characters they hold.
pub proof fn lemma_search_body_round_trip(client_version: Seq<char>, query: Seq<char>)
    ensures
        ({
            let b = search_request_body_spec(client_version, query);
            let h = search_body_head().len() as int;
            let key = search_body_query_key();
            &&& b.take(h) == search_body_head()
            &&& json_read_string(b, h) matches Some((v, e)) && v == client_version && b.subrange(
                e,
                e + key.len(),
            ) == key && json_read_string(b, e + key.len()) == Some((query, b.len() - 1))
            &&& b.last() == '}'
        }),
{
    reveal_strlit("}");
    let head = search_body_head();
    let key = search_body_query_key();
    let tail = "}"@;
    let qv = json_quote(client_version);
    let qq = json_quote(query);
    let b = search_request_body_spec(client_version, query);
    let h = head.len() as int;
    let ev = json_escape(client_version);
    let eq = json_escape(query);
    assert(b =~= head + qv + key + qq + tail);
    assert(b.take(h) =~= head);
    // The client version.
    assert(b[h] == '"');
    assert(b.subrange(h + 1, h + 1 + ev.len() + 1) =~= ev + seq!['"']);
    lemma_json_read_escaped(client_version, b, h + 1);
    let e = h + qv.len();
    assert(e == h + 1 + ev.len() + 1);
    assert(b.subrange(e, e + key.len()) =~= key);
    // The query.
    let k = e + key.len();
    assert(b[k] == '"');
    assert(b.subrange(k + 1, k + 1 + eq.len() + 1) =~= eq + seq!['"']);
    lemma_json_read_escaped(query, b, k + 1);
    assert(k + 1 + eq.len() + 1 == b.len() - 1);
}

// ---------------------------------------------------------------------------
// The songs of a search answer.
// ---------------------------------------------------------------------------

/// The fields of one `videoRenderer` of a search answer that the jukebox
/// reads; a field is `None` where the answer holds no string there.
#[derive(Debug, Clone)]
pub struct VideoRenderer {
    /// `lengthText.simpleText`, such as `"3:25"`.
    pub length_text: Option<String>,
    /// `title.runs[0].text`.
    pub title: Option<String>,
    /// `ownerText.runs[0].text`.
    pub channel: Option<String>,
    /// `videoId`.
    pub video_id: Option<String>,
    /// `viewCountText.simpleText`.
    pub views: Option<String>,
}

/// The mathematical content of a `VideoRenderer`.
pub struct VideoRendererView {
    pub length_text: Option<Seq<char>>,
    pub title: Option<Seq<char>>,
    pub channel: Option<Seq<char>>,
    pub video_id: Option<Seq<char>>,
    pub views: Option<Seq<char>>,
}

impl View for VideoRenderer {
    type V = VideoRendererView;

    open spec fn view(&self) -> VideoRendererView {
        VideoRendererView {
            length_text: super::song::opt_view(self.length_text),
            title: super::song::opt_view(self.title),
            channel: super::song::opt_view(self.channel),
            video_id: super::song::opt_view(self.video_id),
            views: super::song::opt_view(self.views),
        }
    }
}

/// One item of a result section: `None` where the item is no video.
pub type SearchItem = Option<VideoRenderer>;

/// The view of a search item.
pub open spec fn item_view(i: SearchItem) -> Option<VideoRendererView> {
    match i {
        Some(v) => Some(v@),
        None => None,
    }
}

/// The views of the items of one section.
pub open spec fn section_view(items: Seq<SearchItem>) -> Seq<Option<VideoRendererView>> {
    items.map_values(|i: SearchItem| item_view(i))
}

/// The views of all sections.
pub open spec fn sections_view(sections: Seq<Vec<SearchItem>>) -> Seq<
    Seq<Option<VideoRendererView>>,
> {
    sections.map_values(|sec: Vec<SearchItem>| section_view(sec@))
}

/// An optional text, or `d` where there is none.
pub open spec fn text_or(o: Option<Seq<char>>, d: Seq<char>) -> Seq<char> {
    match o {
        Some(t) => t,
        None => d,
    }
}

/// The video id used where an item names none.
pub open spec fn fallback_video_id() -> Seq<char> {
    "dQw4w9WgXcQ"@
}

/// Whether a duration text is one the jukebox plays: present, without
/// hours, and at most `MAX_SONG_DURATION_SECONDS` long.
pub open spec fn playable_length(len: Seq<char>) -> bool {
    &&& len.len() > 0
    &&& time_slices(len) <= MAX_TIME_SLICES
    &&& duration_value(len) <= MAX_SONG_DURATION_SECONDS
}

/// The song that an item offers, if it is a video of playable length.
pub open spec fn offered_song(item: Option<VideoRendererView>) -> Option<SongView> {
    match item {
        None => None,
        Some(v) => {
            let len = text_or(v.length_text, Seq::<char>::empty());
            if playable_length(len) {
                Some(
                    SongView {
                        title: text_or(v.title, Seq::<char>::empty()),
                        duration: duration_value(len) as u64,
                        link: YOUTUBE_WATCH_BASE_URL@ + text_or(v.video_id, fallback_video_id()),
                        channel: text_or(v.channel, Seq::<char>::empty()),
                        views: text_or(v.views, Seq::<char>::empty()),
                        path: None,
                    },
                )
            } else {
                None
            }
        },
    }
}

/// The songs that a run of items offers, in order.
pub open spec fn offered_songs(items: Seq<Option<VideoRendererView>>) -> Seq<SongView>
    decreases items.len(),
{
    if items.len() == 0 {
        Seq::empty()
    } else {
        let init = offered_songs(items.drop_last());
        match offered_song(items.last()) {
            Some(s) => init.push(s),
            None => init,
        }
    }
}

/// All items of all sections, section after section.
pub open spec fn all_items(sections: Seq<Seq<Option<VideoRendererView>>>) -> Seq<
    Option<VideoRendererView>,
>
    decreases sections.len(),
{
    if sections.len() == 0 {
        Seq::empty()
    } else {
        all_items(sections.drop_last()) + sections.last()
    }
}

/// The songs that a search answer yields: the first `MAX_SEARCH_RESULTS`
/// songs offered by its items, in order.
pub open spec fn search_songs(sections: Seq<Seq<Option<VideoRendererView>>>) -> Seq<SongView> {
    let all = offered_songs(all_items(sections));
    if all.len() <= MAX_SEARCH_RESULTS {
        all
    } else {
        all.take(MAX_SEARCH_RESULTS as int)
    }
}

/// The songs offered by a run of items distribute over concatenation.
pub proof fn lemma_offered_songs_concat(
    a: Seq<Option<VideoRendererView>>,
    b: Seq<Option<VideoRendererView>>,
)
    ensures
        offered_songs(a + b) == offered_songs(a) + offered_songs(b),
    decreases b.len(),
{
    if b.len() == 0 {
        assert(a + b =~= a);
        assert(offered_songs(b) =~= Seq::<SongView>::empty());
        assert(offered_songs(a) + offered_songs(b) =~= offered_songs(a));
    } else {
        lemma_offered_songs_concat(a, b.drop_last());
        assert((a + b).drop_last() =~= a + b.drop_last());
        assert((a + b).last() == b.last());
        match offered_song(b.last()) {
            Some(s) => {
                assert(offered_songs(a) + offered_songs(b) =~= (offered_songs(a)
                    + offered_songs(b.drop_last())).push(s));
            },
            None => {},
        }
    }
}

/// The song that one video offers, read from its fields.
pub fn offered_song_of(v: &VideoRenderer) -> (r: Option<Song>)
    ensures
        match r {
            Some(s) => offered_song(Some(v@)) == Some(s@),
            None => offered_song(Some(v@)) is None,
        },
{
    let len_text: &str = match &v.length_text {
        Some(t) => t.as_str(),
        None => "",
    };
    proof {
        reveal_strlit("");
    }
    assert(len_text@ == text_or(v@.length_text, Seq::<char>::empty()));
    if len_text.unicode_len() == 0 {
        return None;
    }
    if !check_song_length(len_text) {
        return None;
    }
    let duration = match duration_secs(len_text) {
        Some(d) => d,
        None => {
            return None;
        },
    };
    if duration > MAX_SONG_DURATION_SECONDS {
        return None;
    }
    let title = match &v.title {
        Some(t) => t.clone(),
        None => String::new(),
    };
    let channel = match &v.channel {
        Some(t) => t.clone(),
        None => String::new(),
    };
    let views = match &v.views {
        Some(t) => t.clone(),
        None => String::new(),
    };
    let fallback = "dQw4w9WgXcQ";
    let video_id: &str = match &v.video_id {
        Some(t) => t.as_str(),
        None => fallback,
    };
    let link = String::from_str(YOUTUBE_WATCH_BASE_URL).concat(video_id);
    let song = Song { title, duration, link, channel, views, path: None };
    assert(song@ == offered_song(Some(v@))->Some_0);
    Some(song)
}

/// The songs of a search answer, given the items of its result sections:
/// videos of playable length, in the order of the answer, at most
/// `MAX_SEARCH_RESULTS` of them.
pub fn parse_search_results(sections: &Vec<Vec<SearchItem>>) -> (r: Vec<Song>)
    ensures
        songs_view(r@) == search_songs(sections_view(sections@)),
{
    let ghost secs = sections_view(sections@);
    let mut songs: Vec<Song> = Vec::with_capacity(MAX_SEARCH_RESULTS);
    let mut i: usize = 0;
    while i < sections.len()
        invariant
            i <= sections.len(),
            secs == sections_view(sections@),
            secs.len() == sections@.len(),
            songs_view(songs@) == offered_songs(all_items(secs.take(i as int))),
            songs@.len() < MAX_SEARCH_RESULTS,
        decreases sections.len() - i,
    {
        let items = &sections[i];
        let ghost sec = secs[i as int];
        assert(sec == section_view(items@));
        let ghost before = all_items(secs.take(i as int));
        proof {
            assert(secs.take(i + 1).drop_last() =~= secs.take(i as int));
            assert(secs.take(i + 1).last() == sec);
            assert(all_items(secs.take(i + 1)) == before + sec);
        }
        let mut j: usize = 0;
        while j < items.len()
            invariant
                i < sections.len(),
                secs == sections_view(sections@),
                secs.len() == sections@.len(),
                sec == secs[i as int],
                before == all_items(secs.take(i as int)),
                all_items(secs.take(i + 1)) == before + sec,
                j <= items.len(),
                sec == section_view(items@),
                sec.len() == items@.len(),
                songs_view(songs@) == offered_songs(before + sec.take(j as int)),
                songs@.len() < MAX_SEARCH_RESULTS,
            decreases items.len() - j,
        {
            let ghost prefix = before + sec.take(j as int);
            proof {
                assert((before + sec.take(j + 1)).drop_last() =~= prefix);
                assert((before + sec.take(j + 1)).last() == sec[j as int]);
            }
            match &items[j] {
                None => {
                    assert(offered_song(sec[j as int]) is None);
                },
                Some(v) => {
                    assert(sec[j as int] == Some(v@));
                    match offered_song_of(v) {
                        None => {},
                        Some(song) => {
                            songs.push(song);
                            proof {
                                assert(songs_view(songs@) =~= offered_songs(
                                    before + sec.take(j + 1),
                                ));
                            }
                            if songs.len() >= MAX_SEARCH_RESULTS {
                                proof {
                                    let done = before + sec.take(j + 1);
                                    let rest = sec.skip(j + 1) + all_items(
                                        secs.skip(i + 1),
                                    );
                                    lemma_all_items_split(secs, i + 1);
                                    assert(before + sec =~= done + sec.skip(j + 1));
                                    assert(all_items(secs) =~= done + rest);
                                    lemma_offered_songs_concat(done, rest);
                                    assert(offered_songs(all_items(secs)).take(
                                        MAX_SEARCH_RESULTS as int,
                                    ) =~= offered_songs(done));
                                }
                                return songs;
                            }
                        },
                    }
                },
            }
            j = j + 1;
        }
        proof {
            assert(sec.take(items.len() as int) =~= sec);
            assert(all_items(secs.take(i + 1)) == before + sec);
        }
        i = i + 1;
    }
    assert(secs.take(sections.len() as int) =~= secs);
    songs
}

/// Splitting the sections splits their items.
pub proof fn lemma_all_items_split(secs: Seq<Seq<Option<VideoRendererView>>>, k: int)
    requires
        0 <= k <= secs.len(),
    ensures
        all_items(secs) == all_items(secs.take(k)) + all_items(secs.skip(k)),
    decreases secs.len(),
{
    if k == secs.len() {
        assert(secs.take(k) =~= secs);
        assert(secs.skip(k) =~= Seq::<Seq<Option<VideoRendererView>>>::empty());
        assert(all_items(secs.skip(k)) =~= Seq::<Option<VideoRendererView>>::empty());
        assert(all_items(secs) + Seq::<Option<VideoRendererView>>::empty() =~= all_items(secs));
    } else {
        lemma_all_items_split(secs.drop_last(), k);
        assert(secs.drop_last().take(k) =~= secs.take(k));
        assert(secs.skip(k).drop_last() =~= secs.drop_last().skip(k));
        assert(secs.skip(k).last() == secs.last());
        assert(all_items(secs.skip(k)) == all_items(secs.drop_last().skip(k)) + secs.last());
    }
}

/// The items of a search answer are those of its sections laid end to end:
/// every item of every section, section after section, none left out.
pub proof fn lemma_all_items_flatten(secs: Seq<Seq<Option<VideoRendererView>>>)
    ensures
        all_items(secs) == secs.flatten(),
    decreases secs.len(),
{
    if secs.len() > 0 {
        lemma_all_items_flatten(secs.drop_last());
        secs.drop_last().lemma_flatten_and_flatten_alt_are_equivalent();
    }
    secs.lemma_flatten_and_flatten_alt_are_equivalent();
}

/// The songs offered before item `j` of section `i`: by every item of the
/// sections before it and by the items before it in its own section.
pub open spec fn offered_before(secs: Seq<Seq<Option<VideoRendererView>>>, i: int, j: int) -> Seq<
    SongView,
> {
    offered_songs(secs.take(i).flatten() + secs[i].take(j))
}

#[verifier::rlimit(40)]
/// A video of playable length is among the songs of a search whenever
/// fewer than `MAX_SEARCH_RESULTS` songs are offered before it, wherever it
/// stands in its section; it comes right after those songs.
pub proof fn lemma_search_keeps_early_song(
    secs: Seq<Seq<Option<VideoRendererView>>>,
    i: int,
    j: int,
)
    requires
        0 <= i < secs.len(),
        0 <= j < secs[i].len(),
        offered_song(secs[i][j]) is Some,
        offered_before(secs, i, j).len() < MAX_SEARCH_RESULTS,
    ensures
        offered_before(secs, i, j).len() < search_songs(secs).len(),
        search_songs(secs)[offered_before(secs, i, j).len() as int] == offered_song(
            secs[i][j],
        )->Some_0,
        search_songs(secs).take(offered_before(secs, i, j).len() as int) == offered_before(
            secs,
            i,
            j,
        ),
{
    let sec = secs[i];
    let x = sec[j];
    let song = offered_song(x)->Some_0;
    lemma_all_items_flatten(secs.take(i));
    lemma_all_items_split(secs, i);
    let tail = secs.skip(i);
    lemma_all_items_split(tail, 1);
    assert(tail.take(1) =~= seq![sec]);
    assert(seq![sec].drop_last() =~= Seq::<Seq<Option<VideoRendererView>>>::empty());
    assert(seq![sec].last() == sec);
    assert(all_items(Seq::<Seq<Option<VideoRendererView>>>::empty()) =~= Seq::<
        Option<VideoRendererView>,
    >::empty());
    assert(Seq::<Option<VideoRendererView>>::empty() + sec =~= sec);
    assert(all_items(seq![sec]) =~= sec);
    let rest = all_items(tail.skip(1));
    let pre = secs.take(i).flatten() + sec.take(j);
    let one = seq![x];
    let after = sec.skip(j + 1) + rest;
    assert(sec =~= sec.take(j) + one + sec.skip(j + 1));
    assert(all_items(secs) =~= pre + (one + after));
    lemma_offered_songs_concat(pre, one + after);
    lemma_offered_songs_concat(one, after);
    assert(one.drop_last() =~= Seq::<Option<VideoRendererView>>::empty());
    assert(one.last() == x);
    assert(offered_songs(Seq::<Option<VideoRendererView>>::empty()) =~= Seq::<SongView>::empty());
    assert(offered_songs(one) =~= seq![song]);
    let all = offered_songs(all_items(secs));
    let n = offered_songs(pre).len();
    assert(all =~= offered_songs(pre) + (seq![song] + offered_songs(after)));
    assert(all[n as int] == song);
    assert(all.take(n as int) =~= offered_songs(pre));
    if all.len() > MAX_SEARCH_RESULTS {
        assert(search_songs(secs).take(n as int) =~= all.take(n as int));
    }
}

/// What every offered song satisfies: a playable length of at most
/// `MAX_SONG_DURATION_SECONDS`, no file yet, and a YouTube watch link.
pub open spec fn well_offered(s: SongView) -> bool {
    &&& s.duration <= MAX_SONG_DURATION_SECONDS
    &&& s.path is None
    &&& YOUTUBE_WATCH_BASE_URL@.is_prefix_of(s.link)
}

/// Every song that a run of items offers is well offered.
pub proof fn lemma_offered_songs_well_offered(items: Seq<Option<VideoRendererView>>)
    ensures
        forall|k: int|
            0 <= k < offered_songs(items).len() ==> well_offered(#[trigger] offered_songs(items)[k]),
    decreases items.len(),
{
    if items.len() > 0 {
        lemma_offered_songs_well_offered(items.drop_last());
        match offered_song(items.last()) {
            Some(x) => {
                let v = items.last()->Some_0;
                let id = text_or(v.video_id, fallback_video_id());
                assert((YOUTUBE_WATCH_BASE_URL@ + id).subrange(
                    0,
                    YOUTUBE_WATCH_BASE_URL@.len() as int,
                ) =~= YOUTUBE_WATCH_BASE_URL@);
                assert(well_offered(x));
                let init = offered_songs(items.drop_last());
                assert(offered_songs(items) == init.push(x));
                assert forall|k: int| 0 <= k < offered_songs(items).len() implies well_offered(
                    #[trigger] offered_songs(items)[k],
                ) by {
                    if k < init.len() {
                        assert(offered_songs(items)[k] == init[k]);
                    }
                }
            },
            None => {
                assert(offered_songs(items) == offered_songs(items.drop_last()));
            },
        }
    }
}

/// A search never yields more than `MAX_SEARCH_RESULTS` songs, and each
/// song it yields is at most ten minutes long, not yet downloaded, and
/// links to its YouTube watch page.
pub proof fn lemma_search_results_capped(sections: Seq<Seq<Option<VideoRendererView>>>)
    ensures
        search_songs(sections).len() <= MAX_SEARCH_RESULTS,
        forall|k: int|
            0 <= k < search_songs(sections).len() ==> well_offered(
                #[trigger] search_songs(sections)[k],
            ),
{
    let all = offered_songs(all_items(sections));
    lemma_offered_songs_well_offered(all_items(sections));
    assert forall|k: int|
        0 <= k < search_songs(sections).len() implies well_offered(
        #[trigger] search_songs(sections)[k],
    ) by {
        assert(search_songs(sections)[k] == all[k]);
    }
}

// ---------------------------------------------------------------------------
// Downloading a song.
// ---------------------------------------------------------------------------

/// The views of a sequence of strings.
pub open spec fn strings_view(v: Seq<String>) -> Seq<Seq<char>> {
    v.map_values(|s: String| s@)
}

/// The arguments that yt-dlp is run with to fetch `url` as an MP3 file at
/// `output_file`, converting with the ffmpeg found in `libs_dir`.
pub open spec fn download_args_spec(url: Seq<char>, output_file: Seq<char>, libs_dir: Seq<char>) -> Seq<
    Seq<char>,
> {
    seq![
        "--ffmpeg-location"@,
        libs_dir,
        "-x"@,
        "--audio-format"@,
        "mp3"@,
        "-o"@,
        output_file,
        url,
    ]
}

/// The arguments that yt-dlp is run with to download a song as MP3.
pub fn download_args(url: &str, output_file: &str, libs_dir: &str) -> (r: Vec<String>)
    ensures
        strings_view(r@) == download_args_spec(url@, output_file@, libs_dir@),
{
    let mut r: Vec<String> = Vec::new();
    r.push(String::from_str("--ffmpeg-location"));
    r.push(String::from_str(libs_dir));
    r.push(String::from_str("-x"));
    r.push(String::from_str("--audio-format"));
    r.push(String::from_str("mp3"));
    r.push(String::from_str("-o"));
    r.push(String::from_str(output_file));
    r.push(String::from_str(url));
    assert(strings_view(r@) =~= download_args_spec(url@, output_file@, libs_dir@));
    r
}

} // verus!
