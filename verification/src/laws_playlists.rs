//! What the rewriting of playlists is for, said of the characters of lines.

use crate::laws::{law_local_playlist_keeps_lines, lemma_hex_end, lemma_key_line_from};
use crate::laws_text::{all_white, law_trimmed, lemma_stands_at, stands_at};
use crate::outside::{
    can_append, hex_end, is_hex_digit, joined_url, key_match, key_match_at, key_match_from,
    parsed_url, text_of,
};
use crate::rewriter::{
    can_sign_line, can_sign_playlist, is_key_line, is_markup, key_line, key_line_from, key_of,
    line_address, line_with_address, local_line, local_playlist, map_line_splits, map_lines_split,
    names_media, or_unchanged, quoted_address, signed_line, signed_lines, signed_playlist,
    upstream_playlist, with_key_address,
};
use crate::text::{
    assemble, begins_with, char_from, decimal, endings_of, finishes_with, first_position,
    has_no_line_feed, lemma_char_from, lemma_first_line_feed, lemma_with_line_feeds_first, lines_of,
    trimmed, with_endings, with_line_feeds, without_return,
};
use crate::upstream::with_token;
use vstd::prelude::*;

verus! {

// ---------------------------------------------------------------------------
// The local playlist
// ---------------------------------------------------------------------------

/// A line ends in the name of a media file.
pub open spec fn ends_as_media(line: Seq<char>) -> bool {
    ||| stands_at(line, ".ts"@, line.len() - 3)
    ||| stands_at(line, ".m4s"@, line.len() - 4)
    ||| stands_at(line, ".mp4"@, line.len() - 4)
}

/// A line without the carriage return that belongs to its ending.
pub open spec fn content(line: Seq<char>) -> Seq<char> {
    if line.len() > 0 && line.last() == '\r' {
        line.take(line.len() - 1)
    } else {
        line
    }
}

/// Nothing is left of a text without white space exactly where it is all white.
proof fn lemma_blank(s: Seq<char>)
    ensures
        trimmed(s).len() == 0 <==> all_white(s),
{
    law_trimmed(s);
    let (front, tail) = choose|front: Seq<char>, tail: Seq<char>| #[trigger]
        all_white(front) && #[trigger] all_white(tail) && s == front + trimmed(s) + tail;
    if trimmed(s).len() == 0 {
        assert(s =~= front + tail);
        assert forall|i: int| 0 <= i < s.len() implies crate::text::is_white(#[trigger] s[i]) by {
            if i < front.len() {
                assert(s[i] == front[i]);
            } else {
                assert(s[i] == tail[i - front.len()]);
            }
        }
    } else if all_white(s) {
        assert(s[front.len() as int] == trimmed(s)[0]);
    }
}

/// The kinds of lines, said of their characters.
pub(crate) proof fn lemma_kinds_of_lines(line: Seq<char>)
    ensures
        begins_with(line, "#EXT-X-MAP:"@) <==> stands_at(line, "#EXT-X-MAP:"@, 0),
        is_key_line(line) <==> stands_at(line, "#EXT-X-KEY:"@, 0),
        is_markup(line) <==> (line.len() > 0 && line[0] == '#') || all_white(line),
        names_media(line) <==> ends_as_media(line),
        stands_at(line, "#EXT-X-MAP:"@, 0) ==> line.len() > 0 && line[0] == '#',
        stands_at(line, "#EXT-X-KEY:"@, 0) ==> line.len() > 0 && line[0] == '#',
        names_media(line) && !(line.len() > 0 && line[0] == '#') ==> !is_markup(line),
{
    lemma_stands_at(line, "#EXT-X-MAP:"@, 0);
    lemma_stands_at(line, "#EXT-X-KEY:"@, 0);
    lemma_stands_at(line, "#"@, 0);
    lemma_stands_at(line, ".ts"@, line.len() - 3);
    lemma_stands_at(line, ".m4s"@, line.len() - 4);
    lemma_stands_at(line, ".mp4"@, line.len() - 4);
    lemma_blank(line);
    reveal_strlit("#");
    reveal_strlit("#EXT-X-MAP:");
    reveal_strlit("#EXT-X-KEY:");
    reveal_strlit(".ts");
    reveal_strlit(".m4s");
    reveal_strlit(".mp4");
    if stands_at(line, "#"@, 0) {
        assert(line[0] == "#"@[0]);
    }
    if stands_at(line, "#EXT-X-MAP:"@, 0) {
        assert(line[0] == "#EXT-X-MAP:"@[0]);
    }
    if stands_at(line, "#EXT-X-KEY:"@, 0) {
        assert(line[0] == "#EXT-X-KEY:"@[0]);
    }
    let n = line.len() as int;
    if stands_at(line, ".ts"@, n - 3) {
        assert(line[n - 3 + 0] == ".ts"@[0]);
    }
    if stands_at(line, ".m4s"@, n - 4) {
        assert(line[n - 4 + 0] == ".m4s"@[0]);
    }
    if stands_at(line, ".mp4"@, n - 4) {
        assert(line[n - 4 + 0] == ".mp4"@[0]);
    }
}

/// A text of one line has that line.
proof fn lemma_one_line(line: Seq<char>, id: nat)
    requires
        has_no_line_feed(line),
    ensures
        line.len() > 0 ==> lines_of(line) == seq![line],
        local_playlist(line, id) == local_line(line, id),
{
    lemma_char_from(line, '\n', 0);
    let f = |l: Seq<char>| local_line(l, id);
    if line.len() > 0 {
        assert(lines_of(line) =~= seq![line]);
        let ls = lines_of(line).map_values(f);
        assert(ls =~= seq![local_line(line, id)]);
        lemma_with_line_feeds_first(ls);
        assert(ls.skip(1) =~= seq![]);
        assert(!finishes_with(line, seq!['\n'])) by {
            assert(line.subrange(line.len() - 1, line.len() as int) =~= seq![line.last()]);
            assert(seq![line.last()][0] == line.last() && seq!['\n'][0] == '\n');
        }
        assert(with_line_feeds(ls).drop_last() =~= local_line(line, id));
    } else {
        lemma_kinds_of_lines(line);
        assert(line =~= Seq::<char>::empty());
        assert(lines_of(line).map_values(f) =~= seq![]);
        assert(with_line_feeds(lines_of(line).map_values(f)) =~= seq![]);
        assert(local_playlist(line, id) =~= local_line(line, id));
    }
}

/// The local playlist is rewritten line by line: what is made of a text is what is
/// made of its first line, a line feed, and what is made of the rest.
pub proof fn law_local_playlist_goes_line_by_line(line: Seq<char>, rest: Seq<char>, id: nat)
    requires
        forall|i: int| 0 <= i < line.len() ==> #[trigger] line[i] != '\n',
    ensures
        local_playlist(line + seq!['\n'] + rest, id) == local_playlist(content(line), id)
            + seq!['\n'] + local_playlist(rest, id),
        local_playlist(Seq::empty(), id) == Seq::<char>::empty(),
{
    let text = line + seq!['\n'] + rest;
    let f = |l: Seq<char>| local_line(l, id);
    assert(text =~= line.push('\n') + rest);
    lemma_first_line_feed(line, rest);
    let n = line.len() as int;
    assert(text.take(n) =~= line);
    assert(text.skip(n + 1) =~= rest);
    assert(content(line) =~= without_return(line));
    assert(lines_of(text) == seq![content(line)] + lines_of(rest));
    let ls = lines_of(text).map_values(f);
    let tail = lines_of(rest).map_values(f);
    assert(ls =~= seq![local_line(content(line), id)] + tail);
    lemma_with_line_feeds_first(ls);
    assert(ls.skip(1) =~= tail);
    lemma_one_line(content(line), id);
    assert(text.subrange(text.len() - 1, text.len() as int) =~= seq![text.last()]);
    assert(seq![text.last()][0] == text.last() && seq!['\n'][0] == '\n');
    crate::text::lemma_with_line_feeds_last(tail);
    if rest.len() > 0 {
        assert(rest.subrange(rest.len() - 1, rest.len() as int) =~= seq![rest.last()]);
        assert(seq![rest.last()][0] == rest.last());
        assert(text.last() == rest.last());
        lemma_char_from(rest, '\n', 0);
        assert(tail.len() > 0);
        if text.last() != '\n' {
            assert(with_line_feeds(ls).drop_last() =~= local_line(content(line), id) + seq!['\n']
                + with_line_feeds(tail).drop_last());
        }
    } else {
        assert(text.last() == '\n');
        assert(tail =~= seq![]);
        assert(with_line_feeds(tail) =~= seq![]);
    }
    assert(local_playlist(text, id) =~= local_playlist(content(line), id) + seq!['\n']
        + local_playlist(rest, id));
    let none = Seq::<char>::empty();
    assert(lines_of(none).map_values(f) =~= seq![]);
    assert(local_playlist(none, id) =~= none);
}

/// A line that names a media file is served from the channel's path, whole.
pub proof fn law_media_line_becomes_local(line: Seq<char>, id: nat)
    requires
        forall|i: int| 0 <= i < line.len() ==> #[trigger] line[i] != '\n',
        line.len() > 0 && line[0] != '#',
        ends_as_media(line),
    ensures
        local_playlist(line, id) == "/channel/"@ + decimal(id) + "/"@ + line,
{
    lemma_kinds_of_lines(line);
    lemma_one_line(line, id);
}

/// Tags, comments, blank lines and lines that name no media file stay as they are.
pub proof fn law_other_line_stays(line: Seq<char>, id: nat)
    requires
        forall|i: int| 0 <= i < line.len() ==> #[trigger] line[i] != '\n',
        !stands_at(line, "#EXT-X-MAP:"@, 0),
        (line.len() > 0 && line[0] == '#') || all_white(line) || !ends_as_media(line),
    ensures
        local_playlist(line, id) == line,
{
    lemma_kinds_of_lines(line);
    lemma_one_line(line, id);
}

/// In any local playlist, tags, comments, blank lines and lines that name no media
/// file stay in their place as they are; only a carriage return before the line feed
/// goes with the line's ending. There are as many lines as before.
pub proof fn law_other_lines_stay_in_place(text: Seq<char>, id: nat, k: int)
    requires
        0 <= k < lines_of(text).len(),
        !stands_at(lines_of(text)[k], "#EXT-X-MAP:"@, 0),
        (lines_of(text)[k].len() > 0 && lines_of(text)[k][0] == '#') || all_white(lines_of(text)[k])
            || !ends_as_media(lines_of(text)[k]),
    ensures
        lines_of(local_playlist(text, id)).len() == lines_of(text).len(),
        lines_of(local_playlist(text, id))[k] == lines_of(text)[k] || lines_of(
            local_playlist(text, id),
        )[k] == content(lines_of(text)[k]),
        lines_of(text)[k].len() > 0 && lines_of(text)[k].last() != '\r' ==> lines_of(
            local_playlist(text, id),
        )[k] == lines_of(text)[k],
{
    law_local_playlist_keeps_lines(text, id);
    lemma_kinds_of_lines(lines_of(text)[k]);
    assert(content(lines_of(text)[k]) =~= without_return(lines_of(text)[k]));
}

/// In any local playlist, each line that names a media file is in its place, behind
/// the channel's path.
pub proof fn law_media_lines_become_local_in_place(text: Seq<char>, id: nat, k: int)
    requires
        0 <= k < lines_of(text).len(),
        lines_of(text)[k].len() > 0 && lines_of(text)[k][0] != '#',
        ends_as_media(lines_of(text)[k]),
    ensures
        lines_of(local_playlist(text, id))[k] == "/channel/"@ + decimal(id) + "/"@
            + lines_of(text)[k],
{
    lemma_kinds_of_lines(lines_of(text)[k]);
    crate::laws::law_local_playlist_names_local_media(text, id, k);
}

/// A map line names its file under the channel's path where the file's name is
/// quoted, whatever the quote; without an address or a second quote it stays.
pub proof fn law_map_line_becomes_local(line: Seq<char>, id: nat, start: int)
    requires
        forall|i: int| 0 <= i < line.len() ==> #[trigger] line[i] != '\n',
        stands_at(line, "#EXT-X-MAP:"@, 0),
        stands_at(line, "URI="@, start),
        forall|j: int| 0 <= j < start ==> !stands_at(line, "URI="@, j),
        start + 4 < line.len(),
    ensures
        (exists|end: int| start + 5 <= end < line.len() && #[trigger] line[end] == line[start + 4])
            ==> local_playlist(line, id) == line.take(start + 5) + ("/channel/"@ + decimal(id)
            + "/"@) + line.skip(start + 5),
        (forall|end: int| start + 5 <= end < line.len() ==> #[trigger] line[end] != line[start + 4])
            ==> local_playlist(line, id) == line,
{
    lemma_kinds_of_lines(line);
    lemma_one_line(line, id);
    crate::laws_text::law_search_gives_first_place(line, "URI="@, start);
    lemma_char_from(line, line[start + 4], start + 5);
    match char_from(line, line[start + 4], start + 5) {
        Some(end) => {
            crate::laws::law_map_line_names_local_file(line, id, start);
        },
        None => {},
    }
}

/// A map line without an address stays as it is.
pub proof fn law_map_line_without_address_stays(line: Seq<char>, id: nat)
    requires
        forall|i: int| 0 <= i < line.len() ==> #[trigger] line[i] != '\n',
        stands_at(line, "#EXT-X-MAP:"@, 0),
        forall|j: int| !stands_at(line, "URI="@, j),
    ensures
        local_playlist(line, id) == line,
{
    lemma_kinds_of_lines(line);
    lemma_one_line(line, id);
    crate::laws_text::law_search_gives_first_place(line, "URI="@, 0);
}

// ---------------------------------------------------------------------------
// The upstream playlist's key line
// ---------------------------------------------------------------------------

/// A line that carries this address and this initialisation vector, each whole and
/// between its quotes, as the key of AES-128.
pub open spec fn carries_key(line: Seq<char>, address: Seq<char>, iv: Seq<char>) -> bool {
    let n = address.len() as int;
    &&& line.len() == 38 + n + iv.len()
    &&& stands_at(line, "#EXT-X-KEY:METHOD=AES-128,URI=\""@, 0)
    &&& stands_at(line, address, 31)
    &&& stands_at(line, "\",IV=\""@, 31 + n)
    &&& stands_at(line, iv, 37 + n)
    &&& line.last() == '"'
}

/// The first line of a playlist that is a key line.
pub open spec fn is_first_key_line(ls: Seq<Seq<char>>, i: int) -> bool {
    &&& 0 <= i < ls.len()
    &&& stands_at(ls[i], "#EXT-X-KEY:"@, 0)
    &&& forall|j: int| 0 <= j < i ==> !stands_at(#[trigger] ls[j], "#EXT-X-KEY:"@, 0)
}

/// A key line carries what it is made with.
proof fn lemma_key_line_carries(address: Seq<char>, iv: Seq<char>)
    ensures
        carries_key(key_line(address, iv), address, iv),
{
    let pre = "#EXT-X-KEY:METHOD=AES-128,URI=\""@;
    let mid = "\",IV=\""@;
    reveal_strlit("#EXT-X-KEY:METHOD=AES-128,URI=\"");
    reveal_strlit("\",IV=\"");
    reveal_strlit("\"");
    let line = key_line(address, iv);
    let n = address.len() as int;
    assert(pre.len() == 31 && mid.len() == 6);
    assert forall|k: int| 0 <= k < pre.len() implies line[0 + k] == #[trigger] pre[k] by {}
    assert forall|k: int| 0 <= k < n implies line[31 + k] == #[trigger] address[k] by {}
    assert forall|k: int| 0 <= k < mid.len() implies line[31 + n + k] == #[trigger] mid[k] by {}
    assert forall|k: int| 0 <= k < iv.len() implies line[37 + n + k] == #[trigger] iv[k] by {}
}

/// Only one line carries an address and a vector.
pub proof fn law_key_line_is_fixed(a: Seq<char>, b: Seq<char>, address: Seq<char>, iv: Seq<char>)
    requires
        carries_key(a, address, iv),
        carries_key(b, address, iv),
    ensures
        a == b,
{
    let pre = "#EXT-X-KEY:METHOD=AES-128,URI=\""@;
    let mid = "\",IV=\""@;
    reveal_strlit("#EXT-X-KEY:METHOD=AES-128,URI=\"");
    reveal_strlit("\",IV=\"");
    let n = address.len() as int;
    assert forall|k: int| 0 <= k < a.len() implies a[k] == b[k] by {
        if k < 31 {
            assert(a[0 + k] == pre[k] && b[0 + k] == pre[k]);
        } else if k < 31 + n {
            assert(a[31 + (k - 31)] == address[k - 31] && b[31 + (k - 31)] == address[k - 31]);
        } else if k < 37 + n {
            let j = k - 31 - n;
            assert(a[31 + n + j] == mid[j] && b[31 + n + j] == mid[j]);
        } else if k < 37 + n + iv.len() {
            let j = k - 37 - n;
            assert(a[37 + n + j] == iv[j] && b[37 + n + j] == iv[j]);
        }
    }
    assert(a =~= b);
}

/// What is captured of a key line stands in it: the address between quotes, whole,
/// and the vector with all its digits, whatever their number.
pub proof fn law_key_is_captured_whole(line: Seq<char>, uri: Seq<char>, iv: Seq<char>)
    requires
        key_match(line) == Some((uri, iv)),
    ensures
        uri.len() > 0,
        forall|k: int| 0 <= k < uri.len() ==> #[trigger] uri[k] != '"',
        iv.len() > 2 && iv[0] == '0' && iv[1] == 'x',
        forall|k: int| 2 <= k < iv.len() ==> is_hex_digit(#[trigger] iv[k]),
        exists|p: int| #[trigger]
            stands_at(line, "URI=\""@ + uri + "\",IV="@ + iv, p) && (p + 10 + uri.len() + iv.len()
                < line.len() ==> !is_hex_digit(line[p + 10 + uri.len() + iv.len()])),
{
    lemma_captured_from(line, 0, uri, iv);
}

/// What is captured from `i` on stands there.
proof fn lemma_captured_from(s: Seq<char>, i: int, u: Seq<char>, v: Seq<char>)
    requires
        0 <= i,
        key_match_from(s, i) == Some((u, v)),
    ensures
        u.len() > 0,
        forall|k: int| 0 <= k < u.len() ==> #[trigger] u[k] != '"',
        v.len() > 2 && v[0] == '0' && v[1] == 'x',
        forall|k: int| 2 <= k < v.len() ==> is_hex_digit(#[trigger] v[k]),
        exists|p: int| #[trigger]
            stands_at(s, "URI=\""@ + u + "\",IV="@ + v, p) && (p + 10 + u.len() + v.len()
                < s.len() ==> !is_hex_digit(s[p + 10 + u.len() + v.len()])),
    decreases s.len() - i,
{
    match key_match_at(s, i) {
        Some(m) => {
            reveal_strlit("URI=\"");
            reveal_strlit("\",IV=0x");
            reveal_strlit("\",IV=");
            lemma_char_from(s, '"', i + 5);
            let j = char_from(s, '"', i + 5)->0;
            let e = hex_end(s, j + 7);
            lemma_hex_end(s, j + 7);
            lemma_stands_at(s, "URI=\""@, i);
            lemma_stands_at(s, "\",IV=0x"@, j);
            let p = "URI=\""@ + u + "\",IV="@ + v;
            assert(s[j + 5] == "\",IV=0x"@[5] && s[j + 6] == "\",IV=0x"@[6]);
            assert forall|k: int| 0 <= k < p.len() implies s[i + k] == #[trigger] p[k] by {
                if k < 5 {
                    assert(p[k] == "URI=\""@[k]);
                } else if k < 5 + u.len() {
                    assert(p[k] == u[k - 5]);
                } else if k < 10 + u.len() {
                    let q = k - 5 - u.len();
                    assert(p[k] == "\",IV="@[q]);
                    assert(s[j + q] == "\",IV=0x"@[q]);
                } else {
                    assert(p[k] == v[k - 10 - u.len()]);
                }
            }
            assert(stands_at(s, p, i));
        },
        None => {
            lemma_captured_from(s, i + 1, u, v);
        },
    }
}

/// Where the first key line of a playlist shows an address and a vector, that line
/// becomes one that carries the URL the base makes of the address, or the address
/// itself where it makes none, and the vector; the other lines stay.
pub proof fn law_key_line_is_rewritten(
    text: Seq<char>,
    base: Seq<char>,
    i: int,
    uri: Seq<char>,
    iv: Seq<char>,
    line: Seq<char>,
)
    requires
        is_first_key_line(lines_of(text), i),
        key_match(lines_of(text)[i]) == Some((uri, iv)),
        joined_url(base, uri) matches Some(url) ==> carries_key(line, url, iv),
        joined_url(base, uri) is None ==> carries_key(line, uri, iv),
    ensures
        upstream_playlist(text, base) == assemble(lines_of(text).update(i, line), text),
{
    lemma_key_of_first(text, i);
    let address = match joined_url(base, uri) {
        Some(url) => url,
        None => uri,
    };
    lemma_key_line_carries(address, iv);
    law_key_line_is_fixed(line, key_line(address, iv), address, iv);
}

/// The search for a key line ends at the first.
proof fn lemma_key_of_first(text: Seq<char>, i: int)
    requires
        is_first_key_line(lines_of(text), i),
    ensures
        key_line_from(lines_of(text), 0) == Some(i),
{
    let ls = lines_of(text);
    lemma_key_line_from(ls, 0);
    lemma_kinds_of_lines(ls[i]);
    assert(is_key_line(ls[i]));
    match key_line_from(ls, 0) {
        Some(j) => {
            lemma_kinds_of_lines(ls[j]);
            if j < i {
                assert(!stands_at(ls[j], "#EXT-X-KEY:"@, 0));
            }
        },
        None => {},
    }
}

/// A playlist without a key line, or whose first key line shows no address and
/// vector, is handed on as it is.
pub proof fn law_playlist_without_key_is_handed_on(text: Seq<char>, base: Seq<char>)
    requires
        forall|i: int|
            is_first_key_line(lines_of(text), i) ==> key_match(
                #[trigger] lines_of(text)[i],
            ) is None,
    ensures
        upstream_playlist(text, base) == text,
{
    lemma_key_line_from(lines_of(text), 0);
    if let Some(i) = key_line_from(lines_of(text), 0) {
        lemma_kinds_of_lines(lines_of(text)[i]);
        assert forall|j: int| 0 <= j < i implies !stands_at(
            #[trigger] lines_of(text)[j],
            "#EXT-X-KEY:"@,
            0,
        ) by {
            lemma_kinds_of_lines(lines_of(text)[j]);
        }
        assert(is_first_key_line(lines_of(text), i));
    }
}

// ---------------------------------------------------------------------------
// The signed playlist
// ---------------------------------------------------------------------------

/// What an address is sent as: the URL that the base makes of it, or else the
/// address, with the token and the client's id where it is a URL.
pub open spec fn is_sent_as(
    sent: Seq<char>,
    address: Seq<char>,
    base: Seq<char>,
    token: Seq<char>,
    id: Seq<char>,
) -> bool {
    let full = if joined_url(base, address) is Some {
        joined_url(base, address)->0
    } else {
        address
    };
    if parsed_url(full) is Some {
        sent == with_token(parsed_url(full)->0, token, id)
    } else {
        sent == full
    }
}

/// A quoted address stands in a line between these positions.
pub open spec fn is_quoted_at(line: Seq<char>, from: int, to: int) -> bool {
    &&& stands_at(line, "URI=\""@, from - 5)
    &&& forall|j: int| 0 <= j < from - 5 ==> !stands_at(line, "URI=\""@, j)
    &&& from < to < line.len()
    &&& line[to] == '"'
    &&& forall|j: int| from <= j < to ==> #[trigger] line[j] != '"'
}

/// Tags other than keys, comments and blank lines are not signed.
pub proof fn law_markup_is_not_signed(
    line: Seq<char>,
    base: Seq<char>,
    token: Seq<char>,
    id: Seq<char>,
)
    requires
        !stands_at(line, "#EXT-X-KEY:"@, 0),
        (line.len() > 0 && line[0] == '#') || all_white(line),
    ensures
        signed_line(line, base, token, id) == line,
{
    lemma_kinds_of_lines(line);
}

/// A line that names a file becomes what the file's address is sent as.
pub proof fn law_segment_line_is_signed(
    line: Seq<char>,
    base: Seq<char>,
    token: Seq<char>,
    id: Seq<char>,
)
    requires
        line.len() > 0 && line[0] != '#',
        !all_white(line),
    ensures
        is_sent_as(signed_line(line, base, token, id), line, base, token, id),
{
    lemma_kinds_of_lines(line);
}

/// A key line that shows an address and a vector becomes one that carries what the
/// address is sent as, and the vector.
pub proof fn law_key_line_is_signed(
    line: Seq<char>,
    base: Seq<char>,
    token: Seq<char>,
    id: Seq<char>,
    uri: Seq<char>,
    iv: Seq<char>,
    sent: Seq<char>,
)
    requires
        stands_at(line, "#EXT-X-KEY:"@, 0),
        key_match(line) == Some((uri, iv)),
        is_sent_as(sent, uri, base, token, id),
    ensures
        carries_key(signed_line(line, base, token, id), sent, iv),
{
    lemma_kinds_of_lines(line);
    lemma_key_line_carries(sent, iv);
}

/// In another key line the quoted address alone is replaced by what it is sent as.
pub proof fn law_other_key_line_is_signed_in_place(
    line: Seq<char>,
    base: Seq<char>,
    token: Seq<char>,
    id: Seq<char>,
    from: int,
    to: int,
    sent: Seq<char>,
)
    requires
        stands_at(line, "#EXT-X-KEY:"@, 0),
        key_match(line) is None,
        is_quoted_at(line, from, to),
        is_sent_as(sent, line.subrange(from, to), base, token, id),
    ensures
        signed_line(line, base, token, id) == line.take(from) + sent + line.skip(to),
{
    lemma_kinds_of_lines(line);
    lemma_quoted(line, from, to);
}

/// A key line without an address stays as it is.
pub proof fn law_key_line_without_address_stays(
    line: Seq<char>,
    base: Seq<char>,
    token: Seq<char>,
    id: Seq<char>,
)
    requires
        stands_at(line, "#EXT-X-KEY:"@, 0),
        key_match(line) is None,
        forall|from: int, to: int| !is_quoted_at(line, from, to),
    ensures
        signed_line(line, base, token, id) == line,
{
    lemma_kinds_of_lines(line);
    lemma_not_quoted(line);
}

/// The signed playlist has the signed lines in their places. They keep their own
/// endings, unless the first key line shows an address and a vector: then every line
/// ends in a line feed, and the last where it did.
pub proof fn law_signed_playlist_keeps_places_and_endings(
    text: Seq<char>,
    base: Seq<char>,
    token: Seq<char>,
    id: Seq<char>,
    signed: Seq<Seq<char>>,
)
    requires
        signed.len() == lines_of(text).len(),
        forall|k: int|
            0 <= k < signed.len() ==> #[trigger] signed[k] == signed_line(
                lines_of(text)[k],
                base,
                token,
                id,
            ),
    ensures
        (exists|i: int| #[trigger]
            is_first_key_line(lines_of(text), i) && key_match(lines_of(text)[i]) is Some)
            ==> signed_playlist(text, base, token, id) == assemble(signed, text),
        (forall|i: int| #[trigger]
            is_first_key_line(lines_of(text), i) ==> key_match(lines_of(text)[i]) is None)
            ==> signed_playlist(text, base, token, id) == with_endings(signed, endings_of(text)),
{
    assert(signed =~= signed_lines(text, base, token, id));
    if exists|i: int| #[trigger]
        is_first_key_line(lines_of(text), i) && key_match(lines_of(text)[i]) is Some {
        let i = choose|i: int| #[trigger]
            is_first_key_line(lines_of(text), i) && key_match(lines_of(text)[i]) is Some;
        lemma_key_of_first(text, i);
    }
    if forall|i: int| #[trigger]
        is_first_key_line(lines_of(text), i) ==> key_match(lines_of(text)[i]) is None {
        lemma_key_line_from(lines_of(text), 0);
        if let Some(i) = key_line_from(lines_of(text), 0) {
            lemma_kinds_of_lines(lines_of(text)[i]);
            assert forall|j: int| 0 <= j < i implies !stands_at(
                #[trigger] lines_of(text)[j],
                "#EXT-X-KEY:"@,
                0,
            ) by {
                lemma_kinds_of_lines(lines_of(text)[j]);
            }
            assert(is_first_key_line(lines_of(text), i));
        }
    }
}

// ---------------------------------------------------------------------------
// Addresses in lines
// ---------------------------------------------------------------------------

/// What was made of a text takes its place; where nothing was made, the text stays.
pub proof fn law_made_takes_place(made: Seq<char>, original: Seq<char>, s: String)
    ensures
        or_unchanged(Some(made), original) == made,
        or_unchanged(None, original) == original,
        text_of(Some(s)) == Some(s@),
        text_of(None) is None,
{
}

/// The key of a playlist is that of its first key line, or none where that line shows
/// none, even if a later one does.
pub proof fn law_key_is_first_lines(text: Seq<char>, i: int)
    requires
        is_first_key_line(lines_of(text), i),
    ensures
        key_match(lines_of(text)[i]) matches Some((uri, iv)) ==> key_of(text) == Some((i, uri, iv)),
        key_match(lines_of(text)[i]) is None ==> key_of(text) is None,
{
    lemma_key_of_first(text, i);
}

/// A playlist without a key line has no key.
pub proof fn law_no_key_line_no_key(text: Seq<char>)
    requires
        forall|i: int|
            0 <= i < lines_of(text).len() ==> !stands_at(
                #[trigger] lines_of(text)[i],
                "#EXT-X-KEY:"@,
                0,
            ),
    ensures
        key_of(text) is None,
{
    lemma_key_line_from(lines_of(text), 0);
    if let Some(i) = key_line_from(lines_of(text), 0) {
        lemma_kinds_of_lines(lines_of(text)[i]);
        assert(!stands_at(lines_of(text)[i], "#EXT-X-KEY:"@, 0));
    }
}

/// A playlist's key address is replaced in its first key line, and its vector stays:
/// by what was made, or by itself where nothing was. A playlist without a key stays.
pub proof fn law_key_address_is_placed(
    text: Seq<char>,
    made: Option<Seq<char>>,
    i: int,
    uri: Seq<char>,
    iv: Seq<char>,
    line: Seq<char>,
)
    requires
        is_first_key_line(lines_of(text), i),
        key_match(lines_of(text)[i]) == Some((uri, iv)),
        made matches Some(address) ==> carries_key(line, address, iv),
        made is None ==> carries_key(line, uri, iv),
    ensures
        with_key_address(text, made) == assemble(lines_of(text).update(i, line), text),
{
    lemma_key_of_first(text, i);
    let address = match made {
        Some(a) => a,
        None => uri,
    };
    lemma_key_line_carries(address, iv);
    law_key_line_is_fixed(line, key_line(address, iv), address, iv);
}

/// Nothing is placed where there is no key.
pub proof fn law_nothing_is_placed_without_key(text: Seq<char>, made: Option<Seq<char>>)
    requires
        key_of(text) is None,
    ensures
        with_key_address(text, made) == text,
{
}

/// Which address a line holds: a segment's line is its own address, tags and blank
/// lines hold none, and a key line holds the one that stands quoted in it.
pub proof fn law_addresses_in_lines(line: Seq<char>, from: int, to: int)
    ensures
        line.len() > 0 && line[0] != '#' && !all_white(line) ==> line_address(line) == Some(line),
        ((line.len() > 0 && line[0] == '#') || all_white(line)) && !stands_at(
            line,
            "#EXT-X-KEY:"@,
            0,
        ) ==> line_address(line) is None,
        stands_at(line, "#EXT-X-KEY:"@, 0) ==> (key_match(line) matches Some((uri, iv))
            ==> line_address(line) == Some(uri)),
        stands_at(line, "#EXT-X-KEY:"@, 0) && key_match(line) is None && is_quoted_at(
            line,
            from,
            to,
        ) ==> line_address(line) == Some(line.subrange(from, to)),
        stands_at(line, "#EXT-X-KEY:"@, 0) && key_match(line) is None && (forall|a: int, b: int|
            !is_quoted_at(line, a, b)) ==> line_address(line) is None,
{
    lemma_kinds_of_lines(line);
    if is_quoted_at(line, from, to) {
        lemma_quoted(line, from, to);
    }
    lemma_not_quoted(line);
}

/// How an address comes into a line: in a segment's line it is all, tags and blank
/// lines take none, and in a key line it stands for the one that was there.
pub proof fn law_addresses_are_placed(line: Seq<char>, uri: Seq<char>, from: int, to: int)
    ensures
        line.len() > 0 && line[0] != '#' && !all_white(line) ==> line_with_address(line, uri)
            == uri,
        ((line.len() > 0 && line[0] == '#') || all_white(line)) && !stands_at(
            line,
            "#EXT-X-KEY:"@,
            0,
        ) ==> line_with_address(line, uri) == line,
        stands_at(line, "#EXT-X-KEY:"@, 0) ==> (key_match(line) matches Some((was, iv))
            ==> carries_key(line_with_address(line, uri), uri, iv)),
        stands_at(line, "#EXT-X-KEY:"@, 0) && key_match(line) is None && is_quoted_at(
            line,
            from,
            to,
        ) ==> line_with_address(line, uri) == line.take(from) + uri + line.skip(to),
        stands_at(line, "#EXT-X-KEY:"@, 0) && key_match(line) is None && (forall|a: int, b: int|
            !is_quoted_at(line, a, b)) ==> line_with_address(line, uri) == line,
{
    lemma_kinds_of_lines(line);
    if is_quoted_at(line, from, to) {
        lemma_quoted(line, from, to);
    }
    lemma_not_quoted(line);
    if let Some((was, iv)) = key_match(line) {
        lemma_key_line_carries(uri, iv);
    }
}

/// A quoted address is found.
proof fn lemma_quoted(line: Seq<char>, from: int, to: int)
    requires
        is_quoted_at(line, from, to),
    ensures
        quoted_address(line) == Some((from, to)),
{
    crate::laws_text::law_search_gives_first_place(line, "URI=\""@, from - 5);
    crate::laws_text::law_character_search_gives_first_place(line, '"', from, to);
}

/// What is found is a quoted address.
proof fn lemma_not_quoted(line: Seq<char>)
    ensures
        quoted_address(line) matches Some((from, to)) ==> is_quoted_at(line, from, to),
{
    if let Some((from, to)) = quoted_address(line) {
        reveal_strlit("URI=\"");
        crate::laws_text::law_search_gives_first_place(line, "URI=\""@, from - 5);
        crate::laws_text::law_character_search_gives_first_place(line, '"', from, to);
    }
}

// ---------------------------------------------------------------------------
// What can be rewritten
// ---------------------------------------------------------------------------

/// A map line cannot be cut at this place, where its address is first named: behind
/// that there is nothing, or no ASCII character.
pub open spec fn cannot_be_cut_at(line: Seq<char>, start: int) -> bool {
    &&& stands_at(line, "#EXT-X-MAP:"@, 0)
    &&& stands_at(line, "URI="@, start)
    &&& forall|j: int| 0 <= j < start ==> !stands_at(line, "URI="@, j)
    &&& start + 4 == line.len() || line[start + 4] as u32 > 127
}

/// A local playlist can be rewritten exactly where every map line that names an
/// address has an ASCII character behind that.
pub proof fn law_playlists_that_can_be_rewritten(text: Seq<char>)
    ensures
        map_lines_split(text) <==> forall|k: int, start: int|
            0 <= k < lines_of(text).len() ==> !#[trigger] cannot_be_cut_at(
                lines_of(text)[k],
                start,
            ),
{
    let ls = lines_of(text);
    reveal_strlit("URI=");
    assert forall|k: int, start: int|
        0 <= k < ls.len() && map_lines_split(text) implies !#[trigger] cannot_be_cut_at(
        ls[k],
        start,
    ) by {
        lemma_kinds_of_lines(ls[k]);
        crate::laws_text::law_search_gives_first_place(ls[k], "URI="@, start);
    }
    if forall|k: int, start: int|
        0 <= k < ls.len() ==> !#[trigger] cannot_be_cut_at(ls[k], start) {
        assert forall|k: int| 0 <= k < ls.len() && begins_with(
            #[trigger] ls[k],
            "#EXT-X-MAP:"@,
        ) implies map_line_splits(ls[k]) by {
            lemma_kinds_of_lines(ls[k]);
            if let Some(start) = first_position(ls[k], "URI="@) {
                crate::laws_text::law_search_gives_first_place(ls[k], "URI="@, start);
                assert(!cannot_be_cut_at(ls[k], start));
            }
        }
    }
}

/// An address that is sent grows too long.
pub open spec fn grows_too_long(
    address: Seq<char>,
    base: Seq<char>,
    token: Seq<char>,
    id: Seq<char>,
) -> bool {
    let full = if joined_url(base, address) is Some {
        joined_url(base, address)->0
    } else {
        address
    };
    parsed_url(full) is Some && !can_append(
        parsed_url(full)->0,
        ("token"@, token),
        ("hash"@, id),
    )
}

/// An upstream playlist can be signed exactly where the address in none of its lines
/// grows too long.
pub proof fn law_playlists_that_can_be_signed(
    text: Seq<char>,
    base: Seq<char>,
    token: Seq<char>,
    id: Seq<char>,
)
    ensures
        can_sign_playlist(text, base, token, id) <==> forall|k: int|
            0 <= k < lines_of(text).len() && line_address(#[trigger] lines_of(text)[k]) is Some
                ==> !grows_too_long(line_address(lines_of(text)[k])->0, base, token, id),
{
    let ls = lines_of(text);
    if forall|k: int|
        0 <= k < ls.len() && line_address(#[trigger] ls[k]) is Some ==> !grows_too_long(
            line_address(ls[k])->0,
            base,
            token,
            id,
        ) {
        assert forall|k: int| 0 <= k < ls.len() implies can_sign_line(
            #[trigger] ls[k],
            base,
            token,
            id,
        ) by {}
    }
    if can_sign_playlist(text, base, token, id) {
        assert forall|k: int| 0 <= k < ls.len() && line_address(
            #[trigger] ls[k],
        ) is Some implies !grows_too_long(line_address(ls[k])->0, base, token, id) by {
            assert(can_sign_line(ls[k], base, token, id));
        }
    }
}

} // verus!
