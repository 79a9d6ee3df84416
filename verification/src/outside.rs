//! The calls that leave the library: what is believed here of the standard
//! library and of other crates is stated in each item's contract and proved
//! nowhere.

use crate::session::FfmpegSession;
use crate::text::{char_from, digit, has_no_line_feed, occurs_at};
use vstd::prelude::*;
use vstd::utf8::{encode_utf8, valid_utf8};

verus! {

// ---------------------------------------------------------------------------
// Strings
// ---------------------------------------------------------------------------

/// `String::push`: the character is added at the end of the string.
pub assume_specification[ String::push ](s: &mut String, c: char)
    ensures
        final(s)@ == old(s)@.push(c),
;

/// `String::from_utf8`: the text that the bytes are the UTF-8 encoding of, or
/// nothing where they are no valid UTF-8.
#[verifier::external_body]
pub(crate) fn string_from_utf8(bytes: Vec<u8>) -> (res: Option<String>)
    ensures
        res is Some <==> valid_utf8(bytes@),
        res is Some ==> encode_utf8(res->0@) == bytes@,
{
    String::from_utf8(bytes).ok()
}

/// The content of an optional string.
pub open spec fn text_of(s: Option<String>) -> Option<Seq<char>> {
    match s {
        Some(t) => Some(t@),
        None => None,
    }
}

// ---------------------------------------------------------------------------
// The key line's pattern
// ---------------------------------------------------------------------------

/// The pattern that a key line's attributes are searched for.
pub open spec fn key_pattern() -> Seq<char> {
    "URI=\"([^\"]+)\",IV=(0x[0-9a-fA-F]+)"@
}

pub open spec fn is_hex_digit(c: char) -> bool {
    let u = c as u32;
    0x30 <= u <= 0x39 || 0x41 <= u <= 0x46 || 0x61 <= u <= 0x66
}

/// Where the run of hexadecimal digits that begins at `i` ends.
pub open spec fn hex_end(s: Seq<char>, i: int) -> int
    decreases s.len() - i,
{
    if 0 <= i < s.len() && is_hex_digit(s[i]) {
        hex_end(s, i + 1)
    } else {
        i
    }
}

/// The two groups of a match of `key_pattern` that begins at `i`: the quoted
/// address, which runs to the next quote, and the initialisation vector, which
/// takes in all the digits that follow.
pub open spec fn key_match_at(s: Seq<char>, i: int) -> Option<(Seq<char>, Seq<char>)> {
    if occurs_at(s, "URI=\""@, i) {
        match char_from(s, '"', i + 5) {
            Some(j) => if i + 5 < j && occurs_at(s, "\",IV=0x"@, j) && j + 7 < hex_end(s, j + 7) {
                Some((s.subrange(i + 5, j), s.subrange(j + 5, hex_end(s, j + 7))))
            } else {
                None
            },
            None => None,
        }
    } else {
        None
    }
}

/// The groups of the first match at `i` or later.
pub open spec fn key_match_from(s: Seq<char>, i: int) -> Option<(Seq<char>, Seq<char>)>
    decreases s.len() - i,
{
    if i < 0 || i >= s.len() {
        None
    } else {
        match key_match_at(s, i) {
            Some(m) => Some(m),
            None => key_match_from(s, i + 1),
        }
    }
}

/// The groups of the first match of `key_pattern` in `s`.
pub open spec fn key_match(s: Seq<char>) -> Option<(Seq<char>, Seq<char>)> {
    key_match_from(s, 0)
}

/// `regex::Regex::captures` for `key_pattern`: the two groups of the leftmost
/// match, of which each takes in as much as it can.
#[verifier::external_body]
pub(crate) fn capture_key(pattern: &str, line: &str) -> (res: Option<(String, String)>)
    requires
        pattern@ == key_pattern(),
    ensures
        match res {
            Some(m) => key_match(line@) == Some((m.0@, m.1@)),
            None => key_match(line@) is None,
        },
{
    let re = regex::Regex::new(pattern).expect("valid key pattern");
    let caps = re.captures(line)?;
    Some((caps[1].to_string(), caps[2].to_string()))
}

// ---------------------------------------------------------------------------
// URLs
// ---------------------------------------------------------------------------

/// The serialisation of the URL that `Url::parse` makes of a text; nothing
/// where it makes none.
pub uninterp spec fn parsed_url(text: Seq<char>) -> Option<Seq<char>>;

/// The serialisation of the URL that `Url::join` makes of a reference against
/// the URL of the text `base`; nothing where there is no such URL.
pub uninterp spec fn joined_url(base: Seq<char>, reference: Seq<char>) -> Option<Seq<char>>;

/// The digit for `d` in upper case.
pub open spec fn upper_digit(d: int) -> char {
    "0123456789ABCDEF"@[d]
}

/// The bytes that form encoding leaves as they are.
pub open spec fn form_unreserved(b: u8) -> bool {
    ||| 0x30 <= b <= 0x39
    ||| 0x41 <= b <= 0x5a
    ||| 0x61 <= b <= 0x7a
    ||| b == 0x2a
    ||| b == 0x2d
    ||| b == 0x2e
    ||| b == 0x5f
}

/// The characters that form encoding leaves as they are.
pub open spec fn char_is_form_unreserved(c: char) -> bool {
    (c as u32) < 0x80 && form_unreserved(c as u8)
}

/// One byte in form encoding.
pub open spec fn form_byte(b: u8) -> Seq<char> {
    if form_unreserved(b) {
        seq![b as char]
    } else if b == 0x20 {
        seq!['+']
    } else {
        seq!['%', upper_digit(b as int / 16), upper_digit(b as int % 16)]
    }
}

/// Bytes in form encoding.
pub open spec fn form_bytes(bytes: Seq<u8>) -> Seq<char>
    decreases bytes.len(),
{
    if bytes.len() == 0 {
        seq![]
    } else {
        form_bytes(bytes.drop_last()) + form_byte(bytes.last())
    }
}

/// A text in form encoding, by its UTF-8 bytes.
pub open spec fn form_encoded(s: Seq<char>) -> Seq<char> {
    form_bytes(encode_utf8(s))
}

/// A name and its value as a part of a query.
pub open spec fn query_pair(name: Seq<char>, value: Seq<char>) -> Seq<char> {
    form_encoded(name) + "="@ + form_encoded(value)
}

/// The part of a URL before its fragment.
pub open spec fn before_fragment(url: Seq<char>) -> Seq<char> {
    match char_from(url, '#', 0) {
        Some(i) => url.take(i),
        None => url,
    }
}

/// The part of a URL before its query and its fragment.
pub open spec fn before_query(url: Seq<char>) -> Seq<char> {
    let head = before_fragment(url);
    match char_from(head, '?', 0) {
        Some(i) => head.take(i),
        None => head,
    }
}

/// What stands between a URL without its fragment and one more query pair: the
/// query's mark where there is no query, nothing where the query is empty.
pub open spec fn query_opening(head: Seq<char>) -> Seq<char> {
    match char_from(head, '?', 0) {
        Some(i) => if i + 1 == head.len() {
            ""@
        } else {
            "&"@
        },
        None => "?"@,
    }
}

/// A URL with two more pairs at the end of its query; the fragment stays.
pub open spec fn with_pairs(
    url: Seq<char>,
    first: (Seq<char>, Seq<char>),
    second: (Seq<char>, Seq<char>),
) -> Seq<char> {
    let head = before_fragment(url);
    head + query_opening(head) + query_pair(first.0, first.1) + "&"@ + query_pair(
        second.0,
        second.1,
    ) + url.skip(head.len() as int)
}

/// A text without the spaces at its end.
pub open spec fn without_trailing_spaces(s: Seq<char>) -> Seq<char>
    decreases s.len(),
{
    if s.len() > 0 && s.last() == ' ' {
        without_trailing_spaces(s.drop_last())
    } else {
        s
    }
}

/// `reqwest::Url::join` on the URL of `base`. A URL begins with its scheme, and
/// the parser takes no line feed into it. That a URL's serialisation can be parsed
/// again is an invariant of the type (`Url::check_invariants`).
#[verifier::external_body]
pub(crate) fn join_url(base: &str, reference: &str) -> (res: Option<String>)
    ensures
        text_of(res) == joined_url(base@, reference@),
        res is Some ==> parsed_url(base@) is Some,
        res matches Some(url) ==> parsed_url(url@) is Some,
        res matches Some(url) ==> url@.len() > 0 && has_no_line_feed(url@),
{
    let url = reqwest::Url::parse(base).ok()?;
    Some(url.join(reference).ok()?.to_string())
}

/// Two pairs can be added to the query of a URL. The positions at which its query
/// and its fragment begin are kept in 32 bits, and must fit.
pub open spec fn can_append(
    url: Seq<char>,
    first: (Seq<char>, Seq<char>),
    second: (Seq<char>, Seq<char>),
) -> bool {
    let head = before_fragment(url);
    &&& char_from(head, '?', 0) is None ==> head.len() <= u32::MAX
    &&& head.len() < url.len() ==> with_pairs(url, first, second).len() - (url.len() - head.len())
        <= u32::MAX
}

/// `reqwest::Url::parse`: the URL that it makes of the text.
#[verifier::external_body]
pub(crate) fn parse_url(text: &str) -> (res: Option<String>)
    ensures
        text_of(res) == parsed_url(text@),
{
    Some(reqwest::Url::parse(text).ok()?.to_string())
}

/// `reqwest::Url::query_pairs_mut` on the URL of `text`, with `append_pair`
/// called twice: the pairs follow what the query holds already, each name and
/// value in form encoding, and the fragment stays behind them. No line feed
/// comes into a URL.
#[verifier::external_body]
pub(crate) fn append_query_pairs(
    text: &str,
    first: (&str, &str),
    second: (&str, &str),
) -> (res: Option<String>)
    requires
        parsed_url(text@) matches Some(url) ==> can_append(
            url,
            (first.0@, first.1@),
            (second.0@, second.1@),
        ),
    ensures
        text_of(res) == match parsed_url(text@) {
            Some(url) => Some(with_pairs(url, (first.0@, first.1@), (second.0@, second.1@))),
            None => None,
        },
        res matches Some(url) ==> has_no_line_feed(url@),
{
    let mut url = reqwest::Url::parse(text).ok()?;
    url.query_pairs_mut().append_pair(first.0, first.1).append_pair(second.0, second.1);
    Some(url.to_string())
}

/// `reqwest::Url::set_query` and `reqwest::Url::set_fragment` on the URL of
/// `text`, both with nothing: the URL up to its query and fragment. Spaces
/// that then stand at the end, as they can where a path has no segments, are
/// taken away.
#[verifier::external_body]
pub(crate) fn bare_url(text: &str) -> (res: Option<String>)
    ensures
        text_of(res) == match parsed_url(text@) {
            Some(url) => Some(without_trailing_spaces(before_query(url))),
            None => None,
        },
{
    let mut url = reqwest::Url::parse(text).ok()?;
    url.set_query(None);
    url.set_fragment(None);
    Some(url.to_string())
}

// ---------------------------------------------------------------------------
// Signatures
// ---------------------------------------------------------------------------

/// The HMAC-SHA-256 code of a message under a key.
pub uninterp spec fn hmac_sha256_code(key: Seq<u8>, message: Seq<u8>) -> Seq<u8>;

/// The error that a key of the wrong length would be refused with.
#[verifier::external_type_specification]
#[verifier::external_body]
pub struct ExInvalidLength(hmac::digest::InvalidLength);

/// `hmac::Hmac::<sha2::Sha256>`, made with `new_from_slice`, given the message
/// with `update` and finished with `finalize`. Keys of every length are taken,
/// and the code has 32 bytes.
#[verifier::external_body]
pub(crate) fn hmac_sha256(key: &[u8], message: &[u8]) -> (res: Result<
    Vec<u8>,
    hmac::digest::InvalidLength,
>)
    ensures
        res is Ok,
        res->Ok_0@ == hmac_sha256_code(key@, message@),
        res->Ok_0@.len() == 32,
{
    let mut mac: hmac::Hmac<sha2::Sha256> = hmac::Mac::new_from_slice(key)?;
    hmac::Mac::update(&mut mac, message);
    Ok(hmac::Mac::finalize(mac).into_bytes().to_vec())
}

/// Bytes in hexadecimal notation, two digits for each.
pub open spec fn hex_bytes(bytes: Seq<u8>) -> Seq<char>
    decreases bytes.len(),
{
    if bytes.len() == 0 {
        seq![]
    } else {
        hex_bytes(bytes.drop_last()) + seq![
            digit(bytes.last() as int / 16),
            digit(bytes.last() as int % 16),
        ]
    }
}

/// `hex::encode`: two lower-case digits for each byte.
#[verifier::external_body]
pub(crate) fn hex_encode(bytes: &[u8]) -> (res: String)
    requires
        bytes@.len() * 2 <= isize::MAX,
    ensures
        res@ == hex_bytes(bytes@),
{
    hex::encode(bytes)
}

/// The character that stands for six bits in base64.
pub open spec fn base64_char(d: int) -> char {
    "ABCDEFGHIJKLMNOPQRSTUVWXYZabcdefghijklmnopqrstuvwxyz0123456789+/"@[d]
}

/// Bytes in base64: four characters for each three bytes, the last group padded.
pub open spec fn base64_text(b: Seq<u8>) -> Seq<char>
    decreases b.len(),
{
    if b.len() == 0 {
        seq![]
    } else if b.len() == 1 {
        seq![base64_char(b[0] as int / 4), base64_char(b[0] as int % 4 * 16), '=', '=']
    } else if b.len() == 2 {
        seq![
            base64_char(b[0] as int / 4),
            base64_char(b[0] as int % 4 * 16 + b[1] as int / 16),
            base64_char(b[1] as int % 16 * 4),
            '=',
        ]
    } else {
        seq![
            base64_char(b[0] as int / 4),
            base64_char(b[0] as int % 4 * 16 + b[1] as int / 16),
            base64_char(b[1] as int % 16 * 4 + b[2] as int / 64),
            base64_char(b[2] as int % 64),
        ] + base64_text(b.skip(3))
    }
}

/// `base64::Engine::encode` of `base64::engine::general_purpose::STANDARD`: the
/// standard alphabet, with padding.
#[verifier::external_body]
pub(crate) fn base64_encode(bytes: &[u8]) -> (res: String)
    requires
        bytes@.len() / 3 * 4 + 4 <= isize::MAX,
    ensures
        res@ == base64_text(bytes@),
{
    base64::Engine::encode(&base64::engine::general_purpose::STANDARD, bytes)
}

// ---------------------------------------------------------------------------
// Chance and time
// ---------------------------------------------------------------------------

/// `rand::Rng::sample` of the thread's generator on a `Uniform` over the
/// numbers below `n`: one of them.
#[verifier::external_body]
pub(crate) fn random_below(n: usize) -> (res: usize)
    requires
        n > 0,
    ensures
        res < n,
{
    rand::Rng::sample(&mut rand::thread_rng(), rand::distributions::Uniform::from(0..n))
}

/// `std::time::SystemTime::now`, as whole seconds and nanoseconds on top: those
/// since the Unix epoch, or, as the error, those that are left until it.
#[verifier::external_body]
pub(crate) fn system_time() -> (res: Result<(u64, u32), (u64, u32)>)
    ensures
        res is Ok ==> res->Ok_0.1 < 1_000_000_000,
        res is Err ==> res->Err_0.1 < 1_000_000_000,
{
    match std::time::SystemTime::now().duration_since(std::time::UNIX_EPOCH) {
        Ok(after) => Ok((after.as_secs(), after.subsec_nanos())),
        Err(e) => Err((e.duration().as_secs(), e.duration().subsec_nanos())),
    }
}

// ---------------------------------------------------------------------------
// Dates in headers
// ---------------------------------------------------------------------------

/// The date of an HTTP header for a time in seconds since the Unix epoch.
pub uninterp spec fn http_date_text(seconds: u64) -> Seq<char>;

/// The time in seconds since the Unix epoch that an HTTP header's date states;
/// nothing where it states none.
pub uninterp spec fn http_date_seconds(text: Seq<char>) -> Option<u64>;

/// The first second of the year 10000, from which on there is no HTTP date.
pub const HTTP_DATE_END: u64 = 253402300800;

/// `httpdate::fmt_http_date`. The date that it writes is read back as the same
/// time.
#[verifier::external_body]
pub(crate) fn format_http_date(seconds: u64) -> (res: String)
    requires
        seconds < HTTP_DATE_END,
    ensures
        res@ == http_date_text(seconds),
        http_date_seconds(res@) == Some(seconds),
{
    httpdate::fmt_http_date(std::time::UNIX_EPOCH + std::time::Duration::from_secs(seconds))
}

/// `httpdate::parse_http_date`.
#[verifier::external_body]
pub(crate) fn parse_http_date(text: &str) -> (res: Option<u64>)
    ensures
        res == http_date_seconds(text@),
{
    let time = httpdate::parse_http_date(text).ok()?;
    Some(time.duration_since(std::time::UNIX_EPOCH).ok()?.as_secs())
}

// ---------------------------------------------------------------------------
// JSON
// ---------------------------------------------------------------------------

/// A JSON text laid out for reading, or why the text is no JSON.
pub uninterp spec fn pretty_json_text(text: Seq<char>) -> Result<Seq<char>, Seq<char>>;

/// The contents of a result of texts.
pub open spec fn result_texts(r: Result<String, String>) -> Result<Seq<char>, Seq<char>> {
    match r {
        Ok(t) => Ok(t@),
        Err(t) => Err(t@),
    }
}

/// `serde_json::from_str` into a `serde_json::Value`, and
/// `serde_json::to_string_pretty` of that: the text laid out for reading, or the
/// message of the error. The result is only named; that it is the same JSON value
/// as the text is not stated.
#[verifier::external_body]
pub(crate) fn pretty_json(text: &str) -> (res: Result<String, String>)
    ensures
        result_texts(res) == pretty_json_text(text@),
{
    let value: serde_json::Value = serde_json::from_str(text).map_err(|e| e.to_string())?;
    serde_json::to_string_pretty(&value).map_err(|e| e.to_string())
}

// ---------------------------------------------------------------------------
// The table of sessions
// ---------------------------------------------------------------------------

/// `dashmap::DashMap`, a map that is shared between threads.
#[verifier::external_type_specification]
#[verifier::external_body]
#[verifier::reject_recursive_types(K)]
#[verifier::reject_recursive_types(V)]
#[verifier::reject_recursive_types(S)]
pub struct ExDashMap<K, V, S>(dashmap::DashMap<K, V, S>);

/// The sessions that a `DashMap` holds, by channel. The functions below change
/// the map through a unique reference, so nothing else changes it meanwhile.
pub uninterp spec fn sessions_of(map: dashmap::DashMap<usize, FfmpegSession>) -> Map<
    usize,
    FfmpegSession,
>;

/// No session for any channel.
pub open spec fn no_sessions() -> Map<usize, FfmpegSession> {
    Map::empty()
}

/// `DashMap::new`: a map that holds nothing.
#[verifier::external_body]
pub(crate) fn new_sessions() -> (res: dashmap::DashMap<usize, FfmpegSession>)
    ensures
        sessions_of(res) == no_sessions(),
{
    dashmap::DashMap::new()
}

/// `DashMap::contains_key`: whether the map holds a session for the channel.
#[verifier::external_body]
pub(crate) fn session_present(
    map: &dashmap::DashMap<usize, FfmpegSession>,
    id: usize,
) -> (res: bool)
    ensures
        res == sessions_of(*map).contains_key(id),
{
    map.contains_key(&id)
}

/// `DashMap::get`: the session that the map holds for the channel.
#[verifier::external_body]
pub(crate) fn lookup_session(
    map: &dashmap::DashMap<usize, FfmpegSession>,
    id: usize,
) -> (res: Option<FfmpegSession>)
    ensures
        res is Some <==> sessions_of(*map).contains_key(id),
        res is Some ==> res->0 == sessions_of(*map)[id],
{
    map.get(&id).map(|entry| entry.value().clone())
}

/// `DashMap::insert`: the map holds the session for the channel, in place of one
/// that it held before.
#[verifier::external_body]
pub(crate) fn insert_session(
    map: &mut dashmap::DashMap<usize, FfmpegSession>,
    id: usize,
    session: FfmpegSession,
)
    ensures
        sessions_of(*final(map)) == sessions_of(*old(map)).insert(id, session),
{
    map.insert(id, session);
}

/// `DashMap::remove`: the map holds nothing for the channel; the session that it
/// held is handed out.
#[verifier::external_body]
pub(crate) fn remove_session(
    map: &mut dashmap::DashMap<usize, FfmpegSession>,
    id: usize,
) -> (res: Option<FfmpegSession>)
    ensures
        sessions_of(*final(map)) == sessions_of(*old(map)).remove(id),
        res is Some <==> sessions_of(*old(map)).contains_key(id),
        res is Some ==> res->0 == sessions_of(*old(map))[id],
{
    map.remove(&id).map(|entry| entry.1)
}

/// A list of a map's entries: each of them once, in any order.
pub open spec fn lists(
    list: Seq<(usize, FfmpegSession)>,
    map: Map<usize, FfmpegSession>,
) -> bool {
    &&& forall|i: int|
        0 <= i < list.len() ==> map.contains_key((#[trigger] list[i]).0) && map[list[i].0]
            == list[i].1
    &&& forall|id: usize| #[trigger]
        map.contains_key(id) ==> exists|i: int| 0 <= i < list.len() && (#[trigger] list[i]).0 == id
    &&& forall|i: int, j: int|
        0 <= i < j < list.len() ==> (#[trigger] list[i]).0 != (#[trigger] list[j]).0
}

/// `DashMap::iter`: the map's entries, each of them once. Nothing is said of
/// their order.
#[verifier::external_body]
pub(crate) fn entries(map: &dashmap::DashMap<usize, FfmpegSession>) -> (res: Vec<
    (usize, FfmpegSession),
>)
    ensures
        lists(res@, sessions_of(*map)),
{
    map.iter().map(|entry| (*entry.key(), entry.value().clone())).collect()
}

} // verus!
