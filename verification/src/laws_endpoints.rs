//! What the endpoints answer, said of the characters and numbers that come in and
//! go out.

use crate::db::ChannelRow;
use crate::handlers::{
    borrowed_text, channel_list, channel_url, etag, fetch_action, is_logo_answer, is_safe_segment,
    is_text_response, label_of, logo_dir, logo_name, metrics_label, modified_text, no_store,
    quality_url, since_time, tag_is_listed, FetchAction, FileFacts, Response, UpstreamFetch,
};
use crate::laws_text::{
    all_white, law_decimal_denotes_its_number, law_hexadecimal_denotes_its_number,
    law_path_in_directory, law_search_gives_first_place, law_trimmed, lemma_stands_at, stands_at,
    value_in_base,
};
use crate::outside::{
    before_query, http_date_seconds, http_date_text, parsed_url, without_trailing_spaces,
};
use crate::text::{
    char_from, decimal, first_position, hexadecimal, is_white, lemma_char_from, lemma_find_from,
    path_in, split_at_char, trimmed,
};
use crate::upstream::{header_texts, succeeds};
use vstd::prelude::*;

verus! {

// ---------------------------------------------------------------------------
// Answers
// ---------------------------------------------------------------------------

/// The texts of headers are those of their names and values, in their order.
pub proof fn law_texts_of_headers(v: Seq<(String, String)>)
    ensures
        header_texts(v).len() == v.len(),
        forall|i: int| 0 <= i < v.len() ==> #[trigger] header_texts(v)[i] == (v[i].0@, v[i].1@),
{
}

/// An answer with a text has that status, text and those headers, and no others.
pub proof fn law_text_answers(
    r: Response,
    status: u16,
    headers: Seq<(Seq<char>, Seq<char>)>,
    text: Seq<char>,
)
    requires
        is_text_response(r, status, headers, text),
    ensures
        r.status == status,
        r.body is Text,
        r.body->Text_0@ == text,
        r.headers@.len() == headers.len(),
        forall|i: int|
            0 <= i < headers.len() ==> (#[trigger] r.headers@[i]).0@ == headers[i].0
                && r.headers@[i].1@ == headers[i].1,
{
    law_texts_of_headers(r.headers@);
    assert forall|i: int| 0 <= i < headers.len() implies (#[trigger] r.headers@[i]).0@
        == headers[i].0 && r.headers@[i].1@ == headers[i].1 by {
        assert(header_texts(r.headers@)[i] == headers[i]);
    }
}

/// What keeps an answer out of caches: three headers, for old clients and new ones.
pub proof fn law_headers_against_caching()
    ensures
        no_store().len() == 3,
        no_store()[0] == ("cache-control"@, "no-store, max-age=0"@),
        no_store()[1] == ("pragma"@, "no-cache"@),
        no_store()[2] == ("expires"@, "0"@),
{
}

/// A status tells of success where it is one of the two hundreds.
pub proof fn law_success_statuses(status: u16)
    ensures
        succeeds(status) <==> 200 <= status && status < 300,
{
}

// ---------------------------------------------------------------------------
// The list of channels
// ---------------------------------------------------------------------------

/// The list of channels starts with its header line.
pub proof fn law_empty_channel_list(host: Seq<char>, port: u16)
    ensures
        channel_list(Seq::empty(), host, port) == "#EXTM3U"@ + seq!['\n'],
{
    reveal_strlit("#EXTM3U");
    reveal_strlit("#EXTM3U\n");
    assert("#EXTM3U\n"@ =~= "#EXTM3U"@ + seq!['\n']);
}

/// Each channel adds two lines to the list: one with its number, twice its name and
/// its logo, and one with the address of its playlist.
pub proof fn law_channel_adds_its_lines(
    rows: Seq<ChannelRow>,
    row: ChannelRow,
    host: Seq<char>,
    port: u16,
)
    ensures
        channel_list(rows.push(row), host, port) == channel_list(rows, host, port)
            + "#EXTINF:-1 tvg-id=\""@ + decimal(rows.len()) + "\" tvg-name=\""@ + row.name@
            + "\" tvg-logo=\"/channel/"@ + decimal(rows.len()) + "/logo.png\","@ + row.name@
            + seq!['\n'] + ("http://"@ + host + ":"@ + decimal(port as nat) + "/channel/"@
            + decimal(rows.len()) + "/playlist.m3u8"@) + seq!['\n'],
{
    reveal_strlit("\n");
    reveal_strlit("/");
    reveal_strlit("playlist.m3u8");
    reveal_strlit("/playlist.m3u8");
    assert("\n"@ =~= seq!['\n']);
    assert("/playlist.m3u8"@ =~= "/"@ + "playlist.m3u8"@);
    assert(rows.push(row).drop_last() =~= rows);
    assert(rows.push(row).last() == row);
    let id = rows.len();
    assert(channel_url(host, port, id, "playlist.m3u8"@) =~= "http://"@ + host + ":"@ + decimal(
        port as nat,
    ) + "/channel/"@ + decimal(id) + "/playlist.m3u8"@);
    assert(channel_list(rows.push(row), host, port) =~= channel_list(rows, host, port)
        + "#EXTINF:-1 tvg-id=\""@ + decimal(id) + "\" tvg-name=\""@ + row.name@
        + "\" tvg-logo=\"/channel/"@ + decimal(id) + "/logo.png\","@ + row.name@ + seq!['\n']
        + channel_url(host, port, id, "playlist.m3u8"@) + seq!['\n']);
}

/// A channel's playlists have their addresses on this server, each with the port and
/// the channel's number in figures, and the file at the end.
pub proof fn law_addresses_of_playlists(host: Seq<char>, port: u16, id: nat, file: Seq<char>)
    ensures
        exists|p: Seq<char>, n: Seq<char>| #[trigger]
            value_in_base(p, 10) == port && #[trigger] value_in_base(n, 10) == id && channel_url(
                host,
                port,
                id,
                file,
            ) == "http://"@ + host + ":"@ + p + "/channel/"@ + n + "/"@ + file,
{
    law_decimal_denotes_its_number(port as nat);
    law_decimal_denotes_its_number(id);
}

// ---------------------------------------------------------------------------
// A channel's logo
// ---------------------------------------------------------------------------

/// A logo's file is named by the number of its channel.
pub proof fn law_logo_files(sgtid: i32, data_dir: Seq<char>)
    ensures
        sgtid >= 0 ==> logo_name(sgtid) == decimal(sgtid as nat) + ".png"@,
        sgtid < 0 ==> logo_name(sgtid) == seq!['-'] + decimal((-sgtid) as nat) + ".png"@,
        logo_dir(data_dir) == path_in(data_dir, "logos"@),
        data_dir.len() > 0 && data_dir.last() != '/' ==> logo_dir(data_dir) == data_dir
            + "/logos"@,
{
    reveal_strlit("-");
    reveal_strlit("/");
    reveal_strlit("logos");
    reveal_strlit("/logos");
    assert("-"@ =~= seq!['-']);
    assert("/logos"@ =~= "/"@ + "logos"@);
    law_path_in_directory(data_dir, "logos"@);
    if data_dir.len() > 0 && data_dir.last() != '/' {
        assert(logo_dir(data_dir) =~= data_dir + "/logos"@);
    }
}

/// A tag shows its file's size and the time of its last change, in hexadecimal
/// notation between quotes, with a hyphen between them.
pub open spec fn shows(tag: Seq<char>, size: u64, modified: u64, k: int) -> bool {
    &&& 1 < k < tag.len() - 2
    &&& tag[0] == '"'
    &&& tag[k] == '-'
    &&& tag.last() == '"'
    &&& value_in_base(tag.subrange(1, k), 16) == size
    &&& value_in_base(tag.subrange(k + 1, tag.len() - 1), 16) == modified
}

/// A tag shows its file's size and the time of its last change.
pub proof fn law_tag_shows_size_and_time(size: u64, modified: u64)
    ensures
        exists|k: int| #[trigger] shows(etag(size, modified), size, modified, k),
        forall|i: int|
            0 <= i < etag(size, modified).len() ==> #[trigger] etag(size, modified)[i] != ','
                && !is_white(etag(size, modified)[i]),
{
    reveal_strlit("\"");
    reveal_strlit("-");
    let a = hexadecimal(size as nat);
    let b = hexadecimal(modified as nat);
    let tag = etag(size, modified);
    law_hexadecimal_denotes_its_number(size as nat);
    law_hexadecimal_denotes_its_number(modified as nat);
    let k = 1 + a.len() as int;
    assert(tag.subrange(1, k) =~= a);
    assert(tag.subrange(k + 1, tag.len() - 1) =~= b);
    assert(shows(tag, size, modified, k));
    crate::handlers::lemma_hexadecimal(size as nat);
    crate::handlers::lemma_hexadecimal(modified as nat);
    assert forall|i: int| 0 <= i < tag.len() implies #[trigger] tag[i] != ',' && !is_white(
        tag[i],
    ) by {
        if i == 0 {
        } else if i < k {
            assert(tag[i] == a[i - 1]);
        } else if k < i < tag.len() - 1 {
            assert(tag[i] == b[i - k - 1]);
        }
    }
}

/// Files that differ in size or in the time of their last change have different tags.
pub proof fn law_tags_tell_files_apart(size: u64, modified: u64, size2: u64, modified2: u64)
    requires
        etag(size, modified) == etag(size2, modified2),
    ensures
        size == size2,
        modified == modified2,
{
    reveal_strlit("\"");
    reveal_strlit("-");
    let a = hexadecimal(size as nat);
    let a2 = hexadecimal(size2 as nat);
    let b = hexadecimal(modified as nat);
    let b2 = hexadecimal(modified2 as nat);
    law_hexadecimal_denotes_its_number(size as nat);
    law_hexadecimal_denotes_its_number(size2 as nat);
    law_hexadecimal_denotes_its_number(modified as nat);
    law_hexadecimal_denotes_its_number(modified2 as nat);
    let tag = etag(size, modified);
    let n = a.len() as int;
    let n2 = a2.len() as int;
    assert(tag[1 + n] == '-');
    assert(tag[1 + n2] == '-');
    if n < n2 {
        assert(tag[1 + n] == a2[n]);
    }
    if n2 < n {
        assert(tag[1 + n2] == a[n2]);
    }
    assert(tag.subrange(1, 1 + n) =~= a);
    assert(tag.subrange(1, 1 + n) =~= a2);
    assert(tag.subrange(2 + n, tag.len() - 1) =~= b);
    assert(tag.subrange(2 + n, tag.len() - 1) =~= b2);
}

/// A list of tags names a tag from `from` on: between the commas, or the ends of the
/// list, at `a` and `b` there stands the tag, and nothing else but white space.
pub open spec fn is_named_at(list: Seq<char>, tag: Seq<char>, a: int, b: int, from: int) -> bool {
    &&& 0 <= a <= from
    &&& from + tag.len() <= b <= list.len()
    &&& a == 0 || list[a - 1] == ','
    &&& b == list.len() || list[b] == ','
    &&& forall|k: int| a <= k < b ==> #[trigger] list[k] != ','
    &&& forall|k: int| a <= k < from ==> is_white(#[trigger] list[k])
    &&& forall|k: int| from + tag.len() <= k < b ==> is_white(#[trigger] list[k])
    &&& stands_at(list, tag, from)
}

/// Between which ends a piece stands.
proof fn lemma_piece_ends(s: Seq<char>, c: char, i: int) -> (ends: (int, int))
    requires
        0 <= i < split_at_char(s, c).len(),
    ensures
        0 <= ends.0 <= ends.1 <= s.len(),
        ends.0 == 0 || s[ends.0 - 1] == c,
        ends.1 == s.len() || s[ends.1] == c,
        forall|k: int| ends.0 <= k < ends.1 ==> #[trigger] s[k] != c,
        s.subrange(ends.0, ends.1) == split_at_char(s, c)[i],
    decreases s.len(),
{
    lemma_char_from(s, c, 0);
    match char_from(s, c, 0) {
        Some(p) => {
            if i == 0 {
                assert(s.subrange(0, p) =~= s.take(p));
                (0, p)
            } else {
                let rest = s.skip(p + 1);
                let ends = lemma_piece_ends(rest, c, i - 1);
                let a = ends.0 + p + 1;
                let b = ends.1 + p + 1;
                assert(s.subrange(a, b) =~= rest.subrange(ends.0, ends.1));
                assert forall|k: int| a <= k < b implies #[trigger] s[k] != c by {
                    assert(rest[k - p - 1] != c);
                }
                if ends.0 > 0 {
                    assert(rest[ends.0 - 1] == c);
                }
                if ends.1 < rest.len() {
                    assert(rest[ends.1] == c);
                }
                (a, b)
            }
        },
        None => {
            assert(s.subrange(0, s.len() as int) =~= s);
            (0, s.len() as int)
        },
    }
}

/// Which piece stands between two ends.
proof fn lemma_piece_between(s: Seq<char>, c: char, a: int, b: int) -> (i: int)
    requires
        0 <= a <= b <= s.len(),
        a == 0 || s[a - 1] == c,
        b == s.len() || s[b] == c,
        forall|k: int| a <= k < b ==> #[trigger] s[k] != c,
    ensures
        0 <= i < split_at_char(s, c).len(),
        s.subrange(a, b) == split_at_char(s, c)[i],
    decreases s.len(),
{
    lemma_char_from(s, c, 0);
    match char_from(s, c, 0) {
        Some(p) => {
            if a <= p {
                assert(a == 0);
                assert(b == p);
                assert(s.subrange(a, b) =~= s.take(p));
                0
            } else {
                let rest = s.skip(p + 1);
                if a > p + 1 {
                    assert(rest[a - p - 2] == s[a - 1]);
                }
                if b < s.len() {
                    assert(rest[b - p - 1] == s[b]);
                }
                assert forall|k: int| a - p - 1 <= k < b - p - 1 implies #[trigger] rest[k]
                    != c by {
                    assert(rest[k] == s[k + p + 1]);
                }
                let i = lemma_piece_between(rest, c, a - p - 1, b - p - 1);
                assert(s.subrange(a, b) =~= rest.subrange(a - p - 1, b - p - 1));
                i + 1
            }
        },
        None => {
            if a > 0 {
                assert(s[a - 1] != c);
            }
            assert(s.subrange(a, b) =~= s);
            0
        },
    }
}

/// What stands between white space is left by trimming.
proof fn lemma_trimmed_is(s: Seq<char>, from: int, to: int)
    requires
        0 <= from < to <= s.len(),
        !is_white(s[from]),
        !is_white(s[to - 1]),
        forall|k: int| 0 <= k < from ==> is_white(#[trigger] s[k]),
        forall|k: int| to <= k < s.len() ==> is_white(#[trigger] s[k]),
    ensures
        trimmed(s) == s.subrange(from, to),
{
    law_trimmed(s);
    let t = trimmed(s);
    let (front, tail) = choose|front: Seq<char>, tail: Seq<char>| #[trigger]
        all_white(front) && #[trigger] all_white(tail) && s == front + t + tail;
    let n = front.len() as int;
    let m = n + t.len();
    if t.len() == 0 {
        if from < n {
            assert(s[from] == front[from]);
        } else {
            assert(s[from] == tail[from - n]);
        }
    }
    assert(s[n] == t[0]);
    assert(s[m - 1] == t.last());
    if from < n {
        assert(s[from] == front[from]);
    }
    if m < to {
        assert(s[to - 1] == tail[to - 1 - m]);
    }
    assert(s.subrange(from, to) =~= t);
}

/// A list of tags is held to name a tag exactly where the tag stands in it whole,
/// alone between two commas or the list's ends, with white space round it at most.
pub proof fn law_listed_tags(list: Seq<char>, tag: Seq<char>)
    requires
        tag.len() > 0,
        !is_white(tag[0]),
        !is_white(tag.last()),
    ensures
        tag_is_listed(list, tag) <==> exists|a: int, b: int, from: int|
            is_named_at(list, tag, a, b, from),
{
    let pieces = split_at_char(list, ',');
    if tag_is_listed(list, tag) {
        let i = choose|i: int| 0 <= i < pieces.len() && trimmed(#[trigger] pieces[i]) == tag;
        let ends = lemma_piece_ends(list, ',', i);
        let (a, b) = ends;
        let piece = pieces[i];
        law_trimmed(piece);
        let (front, tail) = choose|front: Seq<char>, tail: Seq<char>| #[trigger]
            all_white(front) && #[trigger] all_white(tail) && piece == front + trimmed(piece)
                + tail;
        let from = a + front.len() as int;
        assert forall|k: int| 0 <= k < piece.len() implies list[a + k] == #[trigger] piece[k] by {
            assert(piece[k] == list.subrange(a, b)[k]);
        }
        assert forall|k: int| a <= k < from implies is_white(#[trigger] list[k]) by {
            assert(piece[k - a] == front[k - a]);
        }
        assert forall|k: int| from + tag.len() <= k < b implies is_white(#[trigger] list[k]) by {
            assert(piece[k - a] == tail[k - from - tag.len()]);
        }
        assert forall|k: int| 0 <= k < tag.len() implies list[from + k] == #[trigger] tag[k] by {
            assert(piece[front.len() + k] == tag[k]);
        }
        assert(is_named_at(list, tag, a, b, from));
    }
    if exists|a: int, b: int, from: int| is_named_at(list, tag, a, b, from) {
        let (a, b, from) = choose|a: int, b: int, from: int| is_named_at(list, tag, a, b, from);
        let i = lemma_piece_between(list, ',', a, b);
        let piece = list.subrange(a, b);
        let f = from - a;
        let t = f + tag.len();
        assert forall|k: int| 0 <= k < f implies is_white(#[trigger] piece[k]) by {
            assert(piece[k] == list[a + k]);
        }
        assert forall|k: int| t <= k < piece.len() implies is_white(#[trigger] piece[k]) by {
            assert(piece[k] == list[a + k]);
        }
        assert forall|k: int| 0 <= k < tag.len() implies piece[f + k] == #[trigger] tag[k] by {
            assert(list[from + k] == tag[k]);
        }
        assert(piece[f] == tag[0]);
        assert(piece[t - 1] == tag[tag.len() - 1]);
        lemma_trimmed_is(piece, f, t);
        assert(piece.subrange(f, t) =~= tag);
        assert(trimmed(pieces[i]) == tag);
    }
}

/// The client names the tag of this state of the file.
pub open spec fn knows_tag(list: Option<Seq<char>>, tag: Seq<char>) -> bool {
    list matches Some(l) && exists|a: int, b: int, from: int| is_named_at(l, tag, a, b, from)
}

/// A request for a logo is answered that the file has not changed exactly where the
/// client names its tag, or states a time that is not before its last change. Any
/// other client gets the file.
pub proof fn law_logo_is_sent_unless_known(
    r: Response,
    facts: FileFacts,
    list: Option<Seq<char>>,
    since: Option<u64>,
    date: Option<Seq<char>>,
    m: u64,
)
    requires
        facts.modified == Some(m),
        is_logo_answer(r, facts, list, since, date),
    ensures
        r.status == 304 <==> knows_tag(list, etag(facts.size, m)) || (since matches Some(t) && m
            <= t),
        r.status == 304 || r.status == 200,
        r.status == 304 <==> r.body is Empty,
        r.status == 200 <==> r.body is File,
{
    lemma_knows_tag(facts.size, m, list);
}

/// A client knows a tag where its list names it.
proof fn lemma_knows_tag(size: u64, m: u64, list: Option<Seq<char>>)
    ensures
        knows_tag(list, etag(size, m)) <==> (list matches Some(l) && tag_is_listed(
            l,
            etag(size, m),
        )),
{
    let tag = etag(size, m);
    law_tag_shows_size_and_time(size, m);
    assert(tag.len() > 0 && !is_white(tag[0]) && !is_white(tag[tag.len() - 1]));
    if let Some(l) = list {
        law_listed_tags(l, tag);
    }
}

/// A file whose last change is not known is always sent, with its type and how long
/// to keep it, and the date where there is one.
pub proof fn law_logo_without_time_is_sent(
    r: Response,
    facts: FileFacts,
    list: Option<Seq<char>>,
    since: Option<u64>,
    date: Option<Seq<char>>,
)
    requires
        facts.modified is None,
        is_logo_answer(r, facts, list, since, date),
    ensures
        r.status == 200,
        r.body is File,
        date is None ==> header_texts(r.headers@) == seq![
            ("content-type"@, "image/png"@),
            ("cache-control"@, "public, max-age=86400"@),
        ],
        date matches Some(d) ==> header_texts(r.headers@) == seq![
            ("last-modified"@, d),
            ("content-type"@, "image/png"@),
            ("cache-control"@, "public, max-age=86400"@),
        ],
{
}

/// An answer for a logo carries the file's tag and how long to keep it, the date
/// where there is one, and its type where the file is sent.
pub proof fn law_headers_of_logo(
    r: Response,
    facts: FileFacts,
    list: Option<Seq<char>>,
    since: Option<u64>,
    date: Option<Seq<char>>,
    m: u64,
)
    requires
        facts.modified == Some(m),
        is_logo_answer(r, facts, list, since, date),
    ensures
        date matches Some(d) ==> r.status == 304 && knows_tag(list, etag(facts.size, m))
            ==> header_texts(r.headers@) == seq![
            ("etag"@, etag(facts.size, m)),
            ("last-modified"@, d),
            ("cache-control"@, "public, max-age=86400"@),
        ],
        date matches Some(d) ==> r.status == 304 && !knows_tag(list, etag(facts.size, m))
            ==> header_texts(r.headers@) == seq![
            ("last-modified"@, d),
            ("etag"@, etag(facts.size, m)),
            ("cache-control"@, "public, max-age=86400"@),
        ],
        date is None ==> r.status == 304 ==> header_texts(r.headers@) == seq![
            ("etag"@, etag(facts.size, m)),
            ("cache-control"@, "public, max-age=86400"@),
        ],
        date matches Some(d) ==> r.status == 200 ==> header_texts(r.headers@) == seq![
            ("last-modified"@, d),
            ("etag"@, etag(facts.size, m)),
            ("content-type"@, "image/png"@),
            ("cache-control"@, "public, max-age=86400"@),
        ],
        date is None ==> r.status == 200 ==> header_texts(r.headers@) == seq![
            ("etag"@, etag(facts.size, m)),
            ("content-type"@, "image/png"@),
            ("cache-control"@, "public, max-age=86400"@),
        ],
{
    lemma_knows_tag(facts.size, m, list);
}

/// The date of a file is that of its last change, and the client's time is that of
/// its header; without the one there is no other.
pub proof fn law_dates_of_logo(facts: FileFacts, header: Option<&str>, stated: Option<Seq<char>>)
    ensures
        facts.modified matches Some(m) ==> modified_text(facts) == Some(http_date_text(m)),
        facts.modified is None ==> modified_text(facts) is None,
        stated matches Some(text) ==> since_time(stated) == http_date_seconds(text),
        stated is None ==> since_time(stated) is None,
        header matches Some(text) ==> borrowed_text(header) == Some(text@),
        header is None ==> borrowed_text(header) is None,
{
}

// ---------------------------------------------------------------------------
// A channel's files
// ---------------------------------------------------------------------------

/// A name is let through exactly where it holds no separator, and no two dots one
/// after the other.
pub proof fn law_safe_names(segment: Seq<char>)
    ensures
        is_safe_segment(segment) <==> (forall|i: int|
            0 <= i < segment.len() ==> #[trigger] segment[i] != '/' && segment[i] != '\\') && (
        forall|i: int, j: int|
            0 <= i && j == i + 1 && j < segment.len() ==> !(#[trigger] segment[i] == '.'
                && #[trigger] segment[j] == '.')),
{
    reveal_strlit("/");
    reveal_strlit("\\");
    reveal_strlit("..");
    lemma_find_from(segment, "/"@, 0);
    lemma_find_from(segment, "\\"@, 0);
    lemma_find_from(segment, ".."@, 0);
    if is_safe_segment(segment) {
        crate::handlers::law_safe_segment_stays_in_directory(segment);
    } else {
        if let Some(i) = first_position(segment, "/"@) {
            lemma_stands_at(segment, "/"@, i);
            assert(segment[i + 0] == "/"@[0]);
            assert(segment[i] == '/');
        }
        if let Some(i) = first_position(segment, "\\"@) {
            lemma_stands_at(segment, "\\"@, i);
            assert(segment[i + 0] == "\\"@[0]);
            assert(segment[i] == '\\');
        }
        if let Some(i) = first_position(segment, ".."@) {
            lemma_stands_at(segment, ".."@, i);
            assert(segment[i + 0] == ".."@[0]);
            assert(segment[i + 1] == ".."@[1]);
            assert(segment[i] == '.' && segment[i + 1] == '.');
        }
    }
}

// ---------------------------------------------------------------------------
// A channel's upstream playlist
// ---------------------------------------------------------------------------

/// The quality comes in right before the first playlist's name in an address, and
/// nothing else changes; an address without that name stays as it is.
pub proof fn law_quality_comes_in_before_playlist(url: Seq<char>, quality: Seq<char>, i: int)
    ensures
        stands_at(url, "playlist.m3u8"@, i) && (forall|j: int|
            0 <= j < i ==> !stands_at(url, "playlist.m3u8"@, j)) ==> quality_url(url, quality)
            == url.take(i) + quality + seq!['/'] + url.skip(i),
        (forall|j: int| !stands_at(url, "playlist.m3u8"@, j)) ==> quality_url(url, quality) == url,
{
    reveal_strlit("/");
    assert("/"@ =~= seq!['/']);
    law_search_gives_first_place(url, "playlist.m3u8"@, i);
}

/// Requests are counted under the URL up to its query; for what is no URL, under what
/// stands before the first question mark.
pub proof fn law_labels(url: Seq<char>, n: int)
    requires
        parsed_url(url) is None,
        0 <= n <= url.len(),
        n < url.len() ==> url[n] == '?',
        forall|k: int| 0 <= k < n ==> #[trigger] url[k] != '?',
    ensures
        metrics_label(url) == url.take(n),
        label_of(None, url) == url.take(n),
{
    lemma_char_from(url, '?', 0);
    match char_from(url, '?', 0) {
        Some(p) => {
            assert(p == n);
        },
        None => {
            assert(url.take(n) =~= url);
        },
    }
}

/// The URL that was made of an address is what its requests are counted under.
pub proof fn law_labels_of_urls(url: Seq<char>, made: Seq<char>)
    ensures
        label_of(Some(made), url) == made,
        parsed_url(url) matches Some(u) ==> metrics_label(url) == without_trailing_spaces(
            before_query(u),
        ),
{
}

/// An answer in the two hundreds is served whatever came before it. A refusal leads
/// to a new token, once. Every other answer, and none, is a failure.
pub proof fn law_answers_decide_fetch(fetch: UpstreamFetch, status: u16)
    ensures
        200 <= status < 300 ==> fetch_action(fetch, Some(status)) == FetchAction::Serve,
        status == 403 && !fetch.refreshed ==> fetch_action(fetch, Some(status))
            == FetchAction::Refresh,
        status == 403 && fetch.refreshed ==> fetch_action(fetch, Some(status))
            == FetchAction::Fail,
        (status < 200 || status >= 300) && status != 403 ==> fetch_action(fetch, Some(status))
            == FetchAction::Fail,
        fetch_action(fetch, None) == FetchAction::Fail,
{
}

/// That the token was refreshed changes what follows a refusal, and nothing else.
pub proof fn law_refresh_changes_refusals_only(
    a: UpstreamFetch,
    b: UpstreamFetch,
    status: Option<u16>,
)
    requires
        status != Some(403u16),
    ensures
        fetch_action(a, status) == fetch_action(b, status),
        fetch_action(a, status) != FetchAction::Refresh,
{
}

} // verus!
