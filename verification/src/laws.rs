//! What holds of the rewritten playlists as a whole.

use crate::outside::{
    before_fragment, char_is_form_unreserved, form_byte, form_bytes, form_encoded,
    form_unreserved, hex_end, is_hex_digit, joined_url, key_match, key_match_at, key_match_from,
    parsed_url, query_opening, query_pair, upper_digit,
};
use crate::rewriter::{
    channel_path, is_key_line, is_markup, key_line, key_line_from, key_of, line_address,
    line_with_address, local_line, local_playlist, names_media, or_unchanged,
    quoted_address, signed_line, signed_lines, signed_playlist, with_key_address,
};
use crate::text::{
    all_digits, begins_with, char_from, decimal, finishes_with, first_position, has_no_line_feed,
    is_decimal_digit, lemma_char_from, lemma_find_from, lemma_last_line_not_empty,
    lemma_lines_hold_no_line_feed, lemma_lines_of_assembled, lemma_lines_with_endings, lines_of,
    occurs_at, split_again, without_return,
};
use crate::upstream::with_token;
use vstd::prelude::*;
use vstd::utf8::{
    decode_utf8, encode_utf8, encode_utf8_decode_utf8, is_ascii_chars, is_ascii_chars_encode_utf8,
};

verus! {

/// Rewriting the local playlist keeps its lines: there are as many as before,
/// in the same order, and each is the rewritten form of the one that stood
/// there.
pub proof fn law_local_playlist_keeps_lines(text: Seq<char>, id: nat)
    ensures
        lines_of(local_playlist(text, id)) == split_again(
            lines_of(text).map_values(|line: Seq<char>| local_line(line, id)),
            text,
        ),
{
    let f = |line: Seq<char>| local_line(line, id);
    let ls = lines_of(text).map_values(f);
    lemma_lines_hold_no_line_feed(text);
    assert forall|k: int| 0 <= k < ls.len() implies has_no_line_feed(#[trigger] ls[k]) by {
        let line = lines_of(text)[k];
        assert(has_no_line_feed(line)) by {
            assert forall|j: int| 0 <= j < line.len() implies #[trigger] line[j] != '\n' by {
                assert(lines_of(text)[k][j] != '\n');
            }
        }
        lemma_local_line(line, id);
    }
    if ls.len() > 0 && !finishes_with(text, seq!['\n']) {
        lemma_last_line_not_empty(text);
        lemma_local_line(lines_of(text).last(), id);
    }
    lemma_lines_of_assembled(ls, text);
}

/// No line feed comes into a rewritten line, and no line disappears.
proof fn lemma_local_line(line: Seq<char>, id: nat)
    ensures
        has_no_line_feed(line) ==> has_no_line_feed(local_line(line, id)),
        line.len() > 0 ==> local_line(line, id).len() > 0,
{
    lemma_channel_path(id);
    reveal_strlit("URI=");
    let out = local_line(line, id);
    if begins_with(line, "#EXT-X-MAP:"@) {
        match first_position(line, "URI="@) {
            Some(start) => {
                lemma_find_from(line, "URI="@, 0);
                let quote = line[start + 4];
                lemma_char_from(line, quote, start + 5);
                match char_from(line, quote, start + 5) {
                    Some(end) => {
                        let a = line.take(start + 5);
                        let b = line.subrange(start + 5, end);
                        let c = line.skip(end + 1);
                        assert(out == a + channel_path(id) + b + seq![quote] + c);
                        if has_no_line_feed(line) {
                            assert(has_no_line_feed(a));
                            assert(has_no_line_feed(b));
                            assert(has_no_line_feed(c));
                            assert(line[end] != '\n');
                            assert(has_no_line_feed(seq![quote]));
                        }
                    },
                    None => {},
                }
            },
            None => {},
        }
    }
}

/// A decimal notation holds digits only.
proof fn lemma_decimal_digits(n: nat)
    ensures
        all_digits(decimal(n)),
        decimal(n).len() > 0,
    decreases n,
{
    reveal_strlit("0123456789abcdef");
    if n >= 10 {
        lemma_decimal_digits(n / 10);
    }
    assert forall|i: int| 0 <= i < decimal(n).len() implies
        is_decimal_digit(#[trigger] decimal(n)[i]) by {
        if n >= 10 && i < decimal(n / 10).len() {
            assert(decimal(n)[i] == decimal(n / 10)[i]);
        }
    }
}

/// A channel's path is one line.
proof fn lemma_channel_path(id: nat)
    ensures
        has_no_line_feed(channel_path(id)),
        channel_path(id).len() > 0,
{
    reveal_strlit("/channel/");
    reveal_strlit("/");
    lemma_decimal_digits(id);
    let d = decimal(id);
    assert forall|i: int| 0 <= i < channel_path(id).len() implies #[trigger] channel_path(id)[i]
        != '\n' by {
        if i < 9 {
            assert(channel_path(id)[i] == "/channel/"@[i]);
        } else if i < 9 + d.len() {
            assert(channel_path(id)[i] == d[i - 9]);
            assert(is_decimal_digit(d[i - 9]));
        } else {
            assert(channel_path(id)[i] == "/"@[0]);
        }
    }
}

/// Every media file that the local playlist names as a line is addressed by
/// the channel's path, followed by the name that it had.
pub proof fn law_local_playlist_names_local_media(text: Seq<char>, id: nat, k: int)
    requires
        0 <= k < lines_of(text).len(),
        !is_markup(lines_of(text)[k]),
        names_media(lines_of(text)[k]),
    ensures
        lines_of(local_playlist(text, id))[k] == channel_path(id) + lines_of(text)[k],
{
    law_local_playlist_keeps_lines(text, id);
    let line = lines_of(text)[k];
    reveal_strlit("#EXT-X-MAP:");
    reveal_strlit("#");
    if begins_with(line, "#EXT-X-MAP:"@) {
        assert(line.subrange(0, 11)[0] == "#EXT-X-MAP:"@[0]);
        assert(line.subrange(0, 1) =~= "#"@);
    }
    let out = channel_path(id) + line;
    reveal_strlit(".ts");
    reveal_strlit(".m4s");
    reveal_strlit(".mp4");
    let n = line.len() as int;
    if finishes_with(line, ".ts"@) {
        assert(line.subrange(n - 3, n)[2] == ".ts"@[2]);
    } else if finishes_with(line, ".m4s"@) {
        assert(line.subrange(n - 4, n)[3] == ".m4s"@[3]);
    } else {
        assert(line.subrange(n - 4, n)[3] == ".mp4"@[3]);
    }
    assert(line.last() != '\r');
    assert(out.last() == line.last());
    assert(without_return(out) == out);
}

// ---------------------------------------------------------------------------
// The key line
// ---------------------------------------------------------------------------

/// No quote stands in this text.
pub open spec fn has_no_quote(s: Seq<char>) -> bool {
    forall|i: int| 0 <= i < s.len() ==> #[trigger] s[i] != '"'
}

/// The digits up to the end of their run are digits.
pub(crate) proof fn lemma_hex_end(s: Seq<char>, i: int)
    requires
        0 <= i <= s.len(),
    ensures
        i <= hex_end(s, i) <= s.len(),
        forall|k: int| i <= k < hex_end(s, i) ==> is_hex_digit(#[trigger] s[k]),
        hex_end(s, i) < s.len() ==> !is_hex_digit(s[hex_end(s, i)]),
    decreases s.len() - i,
{
    if i < s.len() && is_hex_digit(s[i]) {
        lemma_hex_end(s, i + 1);
    }
}

/// What the key pattern finds, from `i` on.
proof fn lemma_key_match_from(s: Seq<char>, i: int)
    requires
        0 <= i,
    ensures
        match key_match_from(s, i) {
            Some((u, v)) => {
                &&& u.len() > 0
                &&& has_no_quote(u)
                &&& has_no_quote(v)
                &&& v.len() > 2
                &&& v[0] == '0'
                &&& has_no_line_feed(s) ==> has_no_line_feed(u) && has_no_line_feed(v)
            },
            None => forall|k: int| i <= k < s.len() ==> key_match_at(s, k) is None,
        },
    decreases s.len() - i,
{
    if i < s.len() {
        match key_match_at(s, i) {
            Some((u, v)) => {
                reveal_strlit("URI=\"");
                reveal_strlit("\",IV=0x");
                lemma_char_from(s, '"', i + 5);
                let j = char_from(s, '"', i + 5)->0;
                let e = hex_end(s, j + 7);
                lemma_hex_end(s, j + 7);
                let mark = s.subrange(j, j + 7);
                assert(mark == "\",IV=0x"@);
                assert(mark[5] == '0' && mark[6] == 'x');
                assert(u == s.subrange(i + 5, j));
                assert(v == s.subrange(j + 5, e));
                assert forall|k: int| 0 <= k < v.len() implies #[trigger] v[k] != '"' && v[k]
                    != '\n' by {
                    if k < 2 {
                        assert(v[k] == mark[k + 5]);
                    } else {
                        assert(v[k] == s[j + 5 + k]);
                        assert(is_hex_digit(s[j + 5 + k]));
                    }
                }
            },
            None => {
                lemma_key_match_from(s, i + 1);
            },
        }
    }
}

/// A key line begins as one, and ends in a quote.
proof fn lemma_key_line_shape(u: Seq<char>, v: Seq<char>)
    ensures
        is_key_line(key_line(u, v)),
        key_line(u, v).len() > 0,
        key_line(u, v).last() == '"',
{
    reveal_strlit("#EXT-X-KEY:METHOD=AES-128,URI=\"");
    reveal_strlit("#EXT-X-KEY:");
    reveal_strlit("\"");
    assert(key_line(u, v).subrange(0, 11) =~= "#EXT-X-KEY:"@);
}

/// A key line as it is written out is not found by the pattern again: its
/// vector stands in quotes.
proof fn lemma_key_line_not_matched(u: Seq<char>, v: Seq<char>)
    requires
        has_no_quote(u),
        has_no_quote(v),
        v.len() > 0,
        v[0] == '0',
    ensures
        key_match(key_line(u, v)) is None,
{
    let pre = "#EXT-X-KEY:METHOD=AES-128,URI=\""@;
    let mid = "\",IV=\""@;
    reveal_strlit("#EXT-X-KEY:METHOD=AES-128,URI=\"");
    reveal_strlit("\",IV=\"");
    reveal_strlit("\"");
    reveal_strlit("URI=\"");
    reveal_strlit("\",IV=0x");
    let s = key_line(u, v);
    let a = pre.len() - 1;
    let b = a + 1 + u.len();
    let c = b + 5;
    let d = c + 1 + v.len();
    assert(s.len() == d + 1);
    assert forall|k: int| 0 <= k < s.len() && #[trigger] s[k] == '"' implies k == a || k == b || k
        == c || k == d by {
        if k < pre.len() {
            assert(s[k] == pre[k]);
        } else if k < b {
            assert(s[k] == u[k - pre.len()]);
        } else if k < b + 6 {
            assert(s[k] == mid[k - b]);
        } else if k < d {
            assert(s[k] == v[k - c - 1]);
        }
    }
    assert(s[a] == pre[a]);
    assert(s[b] == mid[0]);
    assert(s[c] == mid[5]);
    assert(s[d] == '"');
    assert(s[b + 5] != '0');
    assert(s[c + 1] == v[0]);
    assert forall|i: int| 0 <= i < s.len() implies key_match_at(s, i) is None by {
        if occurs_at(s, "URI=\""@, i) {
            assert(s.subrange(i, i + 5)[4] == s[i + 4]);
            lemma_char_from(s, '"', i + 5);
            match char_from(s, '"', i + 5) {
                Some(j) => {
                    if occurs_at(s, "\",IV=0x"@, j) {
                        let mark = s.subrange(j, j + 7);
                        assert(mark[1] == s[j + 1]);
                        assert(mark[5] == s[j + 5]);
                        assert(mark[0] == s[j]);
                        assert(j == b);
                    }
                },
                None => {},
            }
        }
    }
    lemma_no_key_match_from(s, 0);
}

/// Where nothing matches, nothing is found.
proof fn lemma_no_key_match_from(s: Seq<char>, i: int)
    requires
        0 <= i,
        forall|k: int| i <= k < s.len() ==> key_match_at(s, k) is None,
    ensures
        key_match_from(s, i) is None,
    decreases s.len() - i,
{
    if i < s.len() {
        lemma_no_key_match_from(s, i + 1);
    }
}

/// What the first key line is.
pub(crate) proof fn lemma_key_line_from(ls: Seq<Seq<char>>, i: int)
    requires
        0 <= i,
    ensures
        match key_line_from(ls, i) {
            Some(k) => i <= k < ls.len() && is_key_line(ls[k]) && forall|j: int|
                i <= j < k ==> !is_key_line(#[trigger] ls[j]),
            None => forall|j: int| i <= j < ls.len() ==> !is_key_line(#[trigger] ls[j]),
        },
    decreases ls.len() - i,
{
    if i < ls.len() && !is_key_line(ls[i]) {
        lemma_key_line_from(ls, i + 1);
    }
}

/// Rewriting the key line settles at once: a playlist whose key address was
/// replaced is not changed by replacing it again, whatever is made of it then,
/// where the new key line does not match the pattern itself. An address that holds
/// a whole match of the pattern is the exception.
pub proof fn law_key_rewrite_settles(
    text: Seq<char>,
    made: Option<Seq<char>>,
    again: Option<Seq<char>>,
)
    requires
        made matches Some(m) ==> has_no_line_feed(m),
        key_of(text) matches Some((i, uri, iv)) ==> key_match(
            key_line(or_unchanged(made, uri), iv),
        ) is None,
    ensures
        with_key_address(with_key_address(text, made), again) == with_key_address(text, made),
{
    match key_of(text) {
        Some((i, uri, iv)) => {
            let ls = lines_of(text);
            let uri2 = or_unchanged(made, uri);
            let out = with_key_address(text, made);
            let new_lines = ls.update(i, key_line(uri2, iv));
            law_key_rewrite_keeps_lines(text, made);
            lemma_key_line_from(ls, 0);
            lemma_key_match_from(ls[i], 0);
            lemma_key_line_shape(uri2, iv);
            let outs = lines_of(out);
            assert(outs == split_again(new_lines, text));
            assert(outs[i] == key_line(uri2, iv));
            reveal_strlit("#EXT-X-KEY:");
            lemma_key_line_from(outs, 0);
            assert forall|j: int| 0 <= j < i implies !is_key_line(#[trigger] outs[j]) by {
                assert(!is_key_line(ls[j]));
                if is_key_line(outs[j]) {
                    assert(outs[j].subrange(0, 11) =~= ls[j].subrange(0, 11));
                }
            }
            assert(key_of(out) is None);
        },
        None => {},
    }
}

/// Rewriting the key line settles at once where the new address holds no quote.
pub proof fn law_key_rewrite_settles_without_quotes(
    text: Seq<char>,
    made: Option<Seq<char>>,
    again: Option<Seq<char>>,
)
    requires
        made matches Some(m) ==> has_no_quote(m) && has_no_line_feed(m),
    ensures
        with_key_address(with_key_address(text, made), again) == with_key_address(text, made),
{
    if let Some((i, uri, iv)) = key_of(text) {
        lemma_key_line_from(lines_of(text), 0);
        lemma_key_match_from(lines_of(text)[i], 0);
        lemma_key_line_not_matched(or_unchanged(made, uri), iv);
    }
    law_key_rewrite_settles(text, made, again);
}

/// Replacing the key address keeps the lines: there are as many as before, and
/// only the key line is another.
pub proof fn law_key_rewrite_keeps_lines(text: Seq<char>, made: Option<Seq<char>>)
    requires
        made matches Some(m) ==> has_no_line_feed(m),
        key_of(text) is Some,
    ensures
        ({
            let (i, uri, iv) = key_of(text)->0;
            lines_of(with_key_address(text, made)) == split_again(
                lines_of(text).update(i, key_line(or_unchanged(made, uri), iv)),
                text,
            )
        }),
{
    let (i, uri, iv) = key_of(text)->0;
    let ls = lines_of(text);
    let uri2 = or_unchanged(made, uri);
    let kl = key_line(uri2, iv);
    let new_lines = ls.update(i, kl);
    lemma_key_line_from(ls, 0);
    lemma_lines_hold_no_line_feed(text);
    assert forall|k: int| 0 <= k < ls.len() implies has_no_line_feed(#[trigger] ls[k]) by {
        assert forall|j: int| 0 <= j < ls[k].len() implies #[trigger] ls[k][j] != '\n' by {
            assert(lines_of(text)[k][j] != '\n');
        }
    }
    assert(has_no_line_feed(ls[i]));
    lemma_key_match_from(ls[i], 0);
    lemma_key_line_one_line(uri2, iv);
    assert forall|k: int| 0 <= k < new_lines.len() implies has_no_line_feed(
        #[trigger] new_lines[k],
    ) by {
        if k != i {
            assert(new_lines[k] == ls[k]);
        }
    }
    if !finishes_with(text, seq!['\n']) {
        lemma_last_line_not_empty(text);
        if i + 1 < ls.len() {
            assert(new_lines.last() == ls.last());
        } else {
            assert(new_lines.last() == kl);
        }
    }
    lemma_lines_of_assembled(new_lines, text);
}

/// A key line is one line, and is not empty.
proof fn lemma_key_line_one_line(u: Seq<char>, v: Seq<char>)
    requires
        has_no_line_feed(u),
        has_no_line_feed(v),
    ensures
        has_no_line_feed(key_line(u, v)),
        key_line(u, v).len() > 0,
{
    let pre = "#EXT-X-KEY:METHOD=AES-128,URI=\""@;
    let mid = "\",IV=\""@;
    reveal_strlit("#EXT-X-KEY:METHOD=AES-128,URI=\"");
    reveal_strlit("\",IV=\"");
    reveal_strlit("\"");
    let s = key_line(u, v);
    let b = pre.len() + u.len();
    let d = b + 6 + v.len();
    assert forall|k: int| 0 <= k < s.len() implies #[trigger] s[k] != '\n' by {
        if k < pre.len() {
            assert(s[k] == pre[k]);
        } else if k < b {
            assert(s[k] == u[k - pre.len()]);
        } else if k < b + 6 {
            assert(s[k] == mid[k - b]);
        } else if k < d {
            assert(s[k] == v[k - b - 6]);
        } else {
            assert(s[k] == "\""@[0]);
        }
    }
}

/// A line with another address in it is still one line.
pub(crate) proof fn lemma_line_with_address(line: Seq<char>, uri: Seq<char>)
    ensures
        has_no_line_feed(line) && has_no_line_feed(uri) ==> has_no_line_feed(
            line_with_address(line, uri),
        ),
        has_no_line_feed(line) ==> (line_address(line) matches Some(u) ==> has_no_line_feed(u)),
        line.len() > 0 ==> (line_address(line) matches Some(u) ==> u.len() > 0),
        line.len() > 0 && uri.len() > 0 ==> line_with_address(line, uri).len() > 0,
{
    lemma_key_match_from(line, 0);
    if is_key_line(line) {
        match key_match(line) {
            Some((u, v)) => {
                reveal_strlit("\"");
                if has_no_line_feed(line) && has_no_line_feed(uri) {
                    lemma_key_line_one_line(uri, v);
                }
            },
            None => {
                if let Some((from, to)) = quoted_address(line) {
                    reveal_strlit("URI=\"");
                    lemma_find_from(line, "URI=\""@, 0);
                    lemma_char_from(line, '"', from);
                }
            },
        }
    }
}

// ---------------------------------------------------------------------------
// Signed addresses
// ---------------------------------------------------------------------------

/// Every character is one that form encoding leaves as it is.
pub open spec fn is_plain(s: Seq<char>) -> bool {
    forall|i: int| 0 <= i < s.len() ==> char_is_form_unreserved(#[trigger] s[i])
}

/// A character's number orders it.
proof fn lemma_small_char(c: char)
    requires
        (c as u32) < 0x80,
    ensures
        '\0' <= c <= '\u{7f}',
{
}

/// Form encoding leaves a plain text as it is.
pub proof fn lemma_plain_is_unchanged(s: Seq<char>)
    requires
        is_plain(s),
    ensures
        form_encoded(s) == s,
{
    assert(is_ascii_chars(s)) by {
        assert forall|i: int| 0 <= i < s.len() implies '\0' <= #[trigger] s[i] <= '\u{7f}' by {
            assert(char_is_form_unreserved(s[i]));
            lemma_small_char(s[i]);
        }
    }
    is_ascii_chars_encode_utf8(s);
    let bytes = encode_utf8(s);
    assert forall|i: int| 0 <= i < bytes.len() implies form_byte(
        #[trigger] bytes[i],
    ) == seq![s[i]] by {
        assert(char_is_form_unreserved(s[i]));
        assert(bytes[i] == s[i] as u8);
    }
    lemma_form_bytes_unchanged(bytes, s);
}

proof fn lemma_form_bytes_unchanged(bytes: Seq<u8>, s: Seq<char>)
    requires
        bytes.len() == s.len(),
        forall|i: int|
            0 <= i < bytes.len() ==> form_byte(#[trigger] bytes[i]) == seq![s[i]],
    ensures
        form_bytes(bytes) == s,
    decreases bytes.len(),
{
    if bytes.len() > 0 {
        assert forall|i: int| 0 <= i < bytes.drop_last().len() implies form_byte(
            #[trigger] bytes.drop_last()[i],
        ) == seq![s.drop_last()[i]] by {
            assert(bytes.drop_last()[i] == bytes[i]);
        }
        lemma_form_bytes_unchanged(bytes.drop_last(), s.drop_last());
        assert(bytes.last() == bytes[bytes.len() - 1]);
        assert(form_bytes(bytes) =~= s);
    } else {
        assert(form_bytes(bytes) =~= s);
    }
}

/// The value of a hexadecimal digit in upper case.
pub open spec fn digit_value(c: char) -> int {
    let u = c as u32;
    if u <= 0x39 {
        u - 0x30
    } else {
        u - 0x37
    }
}

/// The bytes that a text in form encoding stands for.
pub open spec fn form_decoded(s: Seq<char>) -> Seq<u8>
    decreases s.len(),
{
    if s.len() == 0 {
        seq![]
    } else if s[0] == '%' && s.len() >= 3 {
        seq![(digit_value(s[1]) * 16 + digit_value(s[2])) as u8] + form_decoded(s.skip(3))
    } else if s[0] == '+' {
        seq![0x20u8] + form_decoded(s.skip(1))
    } else {
        seq![s[0] as u8] + form_decoded(s.skip(1))
    }
}

/// A character that separates the parts of a URL's query.
pub open spec fn is_separator(c: char) -> bool {
    c == '&' || c == '=' || c == '#' || c == '?'
}

/// A digit in upper case has its value, and separates nothing.
proof fn lemma_digit_value(d: int)
    requires
        0 <= d < 16,
    ensures
        digit_value(upper_digit(d)) == d,
        !is_separator(upper_digit(d)),
{
    reveal_strlit("0123456789ABCDEF");
    assert(d == 0 || d == 1 || d == 2 || d == 3 || d == 4 || d == 5 || d == 6 || d == 7 || d == 8
        || d == 9 || d == 10 || d == 11 || d == 12 || d == 13 || d == 14 || d == 15);
}

/// A byte in form encoding is read back, and holds no separator.
proof fn lemma_form_byte(b: u8, rest: Seq<char>)
    ensures
        form_decoded(form_byte(b) + rest) == seq![b] + form_decoded(rest),
        forall|i: int|
            0 <= i < form_byte(b).len() ==> !is_separator(#[trigger] form_byte(b)[i]),
{
    let s = form_byte(b) + rest;
    if form_unreserved(b) || b == 0x20 {
        assert(s.skip(1) =~= rest);
    } else {
        lemma_digit_value(b as int / 16);
        lemma_digit_value(b as int % 16);
        assert(s.skip(3) =~= rest);
        assert(s[1] == upper_digit(b as int / 16) && s[2] == upper_digit(b as int % 16));
    }
}

/// Bytes in form encoding are read back, and hold no separator.
proof fn lemma_form_bytes_decoded(bytes: Seq<u8>, rest: Seq<char>)
    ensures
        form_decoded(form_bytes(bytes) + rest) == bytes + form_decoded(rest),
        forall|i: int|
            0 <= i < form_bytes(bytes).len() ==> !is_separator(#[trigger] form_bytes(bytes)[i]),
    decreases bytes.len(),
{
    if bytes.len() == 0 {
        assert(form_bytes(bytes) + rest =~= rest);
        assert(bytes + form_decoded(rest) =~= form_decoded(rest));
    } else {
        let init = form_bytes(bytes.drop_last());
        let last = form_byte(bytes.last());
        lemma_form_byte(bytes.last(), rest);
        lemma_form_bytes_decoded(bytes.drop_last(), last + rest);
        assert(form_bytes(bytes) + rest =~= init + (last + rest));
        assert(bytes + form_decoded(rest) =~= bytes.drop_last() + (seq![bytes.last()]
            + form_decoded(rest)));
        assert forall|i: int| 0 <= i < form_bytes(bytes).len() implies !is_separator(
            #[trigger] form_bytes(bytes)[i],
        ) by {
            if i < init.len() {
                assert(form_bytes(bytes)[i] == init[i]);
            } else {
                assert(form_bytes(bytes)[i] == last[i - init.len()]);
            }
        }
    }
}

/// A text in form encoding is read back as it was, and holds no separator.
pub proof fn law_form_encoding_is_read_back(s: Seq<char>)
    ensures
        form_decoded(form_encoded(s)) == encode_utf8(s),
        decode_utf8(form_decoded(form_encoded(s))) == s,
        forall|i: int|
            0 <= i < form_encoded(s).len() ==> !is_separator(#[trigger] form_encoded(s)[i]),
{
    lemma_form_bytes_decoded(encode_utf8(s), seq![]);
    assert(form_encoded(s) + seq![] =~= form_encoded(s));
    assert(form_decoded(seq![]) =~= seq![]);
    assert(encode_utf8(s) + form_decoded(seq![]) =~= encode_utf8(s));
    encode_utf8_decode_utf8(s);
}

/// Every token and every client id stand in the signed address as the values of
/// `token` and `hash`, behind whatever query there was. Each is cut off by the next
/// separator, and reading it back gives what was put in.
pub proof fn law_token_is_read_back(url: Seq<char>, token: Seq<char>, id: Seq<char>)
    ensures
        ({
            let head = before_fragment(url);
            with_token(url, token, id) == head + query_opening(head) + "token="@ + form_encoded(
                token,
            ) + "&hash="@ + form_encoded(id) + url.skip(head.len() as int)
        }),
        decode_utf8(form_decoded(form_encoded(token))) == token,
        decode_utf8(form_decoded(form_encoded(id))) == id,
        forall|i: int|
            0 <= i < form_encoded(token).len() ==> !is_separator(#[trigger] form_encoded(token)[i]),
        forall|i: int|
            0 <= i < form_encoded(id).len() ==> !is_separator(#[trigger] form_encoded(id)[i]),
{
    reveal_strlit("token");
    reveal_strlit("hash");
    reveal_strlit("=");
    reveal_strlit("&");
    reveal_strlit("token=");
    reveal_strlit("&hash=");
    lemma_plain_is_unchanged("token"@);
    lemma_plain_is_unchanged("hash"@);
    law_form_encoding_is_read_back(token);
    law_form_encoding_is_read_back(id);
    let head = before_fragment(url);
    assert(query_pair("token"@, token) =~= "token="@ + form_encoded(token));
    assert("&"@ + query_pair("hash"@, id) =~= "&hash="@ + form_encoded(id));
    assert(with_token(url, token, id) =~= head + query_opening(head) + "token="@ + form_encoded(
        token,
    ) + "&hash="@ + form_encoded(id) + url.skip(head.len() as int));
}

/// Different tokens, or different client ids, make different signed addresses of
/// one URL.
pub proof fn law_signed_addresses_tell_tokens_apart(
    url: Seq<char>,
    token: Seq<char>,
    id: Seq<char>,
    token2: Seq<char>,
    id2: Seq<char>,
)
    requires
        with_token(url, token, id) == with_token(url, token2, id2),
    ensures
        token == token2,
        id == id2,
{
    law_token_is_read_back(url, token, id);
    law_token_is_read_back(url, token2, id2);
    reveal_strlit("&hash=");
    let head = before_fragment(url);
    let front = head + query_opening(head) + "token="@;
    let rest = url.skip(head.len() as int);
    let a = form_encoded(token);
    let b = form_encoded(token2);
    let s = with_token(url, token, id);
    assert(s =~= front + (a + "&hash="@ + form_encoded(id) + rest));
    assert(s =~= front + (b + "&hash="@ + form_encoded(id2) + rest));
    if a.len() < b.len() {
        assert(s[front.len() + a.len() as int] == '&');
        assert(s[front.len() + a.len() as int] == b[a.len() as int]);
    } else if b.len() < a.len() {
        assert(s[front.len() + b.len() as int] == '&');
        assert(s[front.len() + b.len() as int] == a[b.len() as int]);
    }
    assert(a =~= b) by {
        assert forall|k: int| 0 <= k < a.len() implies a[k] == b[k] by {
            assert(s[front.len() + k] == a[k] && s[front.len() + k] == b[k]);
        }
    }
    let c = form_encoded(id);
    let d = form_encoded(id2);
    let n = front.len() + a.len() + 6;
    assert(c.len() == d.len());
    assert(c =~= d) by {
        assert forall|k: int| 0 <= k < c.len() implies c[k] == d[k] by {
            assert(s[n + k] == c[k] && s[n + k] == d[k]);
        }
    }
}

/// A plain token and a plain client id stand in the signed address as they
/// are, as `token=` and `hash=`, behind whatever query there was.
pub proof fn law_plain_token_stands_verbatim(url: Seq<char>, token: Seq<char>, id: Seq<char>)
    requires
        is_plain(token),
        is_plain(id),
    ensures
        ({
            let head = before_fragment(url);
            with_token(url, token, id) == head + query_opening(head) + "token="@ + token
                + "&hash="@ + id + url.skip(head.len() as int)
        }),
{
    lemma_plain_is_unchanged(token);
    lemma_plain_is_unchanged(id);
    law_token_is_read_back(url, token, id);
}

/// Every line of the upstream playlist that names a file becomes the URL that the
/// base makes of it, with the token and the client's id in its query; so does the
/// address in a key line, whose initialisation vector stays. Every other line
/// stays as it is.
pub proof fn law_upstream_lines_are_absolute_and_signed(
    line: Seq<char>,
    base: Seq<char>,
    token: Seq<char>,
    id: Seq<char>,
)
    ensures
        !is_key_line(line) && is_markup(line) ==> signed_line(line, base, token, id) == line,
        is_key_line(line) && key_match(line) is None && quoted_address(line) is None ==> signed_line(
            line,
            base,
            token,
            id,
        ) == line,
        !is_key_line(line) && !is_markup(line) ==> (joined_url(base, line) matches Some(url) ==> (
        parsed_url(url) matches Some(parsed) ==> signed_line(line, base, token, id) == with_token(
            parsed,
            token,
            id,
        ))),
        is_key_line(line) ==> (key_match(line) matches Some((uri, iv)) ==> (joined_url(
            base,
            uri,
        ) matches Some(url) ==> (parsed_url(url) matches Some(parsed) ==> signed_line(
            line,
            base,
            token,
            id,
        ) == key_line(with_token(parsed, token, id), iv)))),
        is_key_line(line) && key_match(line) is None ==> (quoted_address(line) matches Some((
            from,
            to,
        )) ==> (joined_url(base, line.subrange(from, to)) matches Some(url) ==> (parsed_url(
            url,
        ) matches Some(parsed) ==> signed_line(line, base, token, id) == line.take(from)
            + with_token(parsed, token, id) + line.skip(to)))),
{
}

/// An upstream playlist that holds no address is handed on as it is, line endings
/// included.
pub proof fn law_playlist_without_addresses_is_unchanged(
    text: Seq<char>,
    base: Seq<char>,
    token: Seq<char>,
    id: Seq<char>,
)
    requires
        forall|k: int|
            0 <= k < lines_of(text).len() ==> line_address(#[trigger] lines_of(text)[k]) is None,
    ensures
        signed_playlist(text, base, token, id) == text,
{
    lemma_key_line_from(lines_of(text), 0);
    lemma_lines_with_endings(text);
    if let Some((i, uri, iv)) = key_of(text) {
        assert(line_address(lines_of(text)[i]) == Some(uri));
    }
    assert(signed_lines(text, base, token, id) =~= lines_of(text));
}

/// A map line whose file is quoted names it under the channel's path.
pub proof fn law_map_line_names_local_file(line: Seq<char>, id: nat, start: int)
    requires
        begins_with(line, "#EXT-X-MAP:"@),
        first_position(line, "URI="@) == Some(start),
        char_from(line, line[start + 4], start + 5) is Some,
    ensures
        local_line(line, id) == line.take(start + 5) + channel_path(id) + line.skip(start + 5),
{
    lemma_find_from(line, "URI="@, 0);
    lemma_char_from(line, line[start + 4], start + 5);
    assert(local_line(line, id) =~= line.take(start + 5) + channel_path(id) + line.skip(
        start + 5,
    ));
}

} // verus!
