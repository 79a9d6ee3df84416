//! Rewriting of HLS playlists: the upstream playlist that the remuxer reads, and
//! the local one that players read.

use crate::domain::Cookies;
use crate::laws::{law_key_rewrite_keeps_lines, lemma_line_with_address};
use crate::outside::{capture_key, join_url, joined_url, key_match, parsed_url, text_of};
use crate::upstream::{
    build_upstream_url_with_token, can_sign, can_sign_address, token_url, with_token,
};
use crate::text::{
    assemble, begins_with, char_from, chars_of, decimal, decimal_text, endings, endings_of,
    ends_with, finishes_with, first_position, has_no_line_feed, join_with_endings,
    lemma_last_line_not_empty, lemma_lines_hold_no_line_feed, lemma_lines_of_assembled,
    lemma_lines_of_ended_lines, lemma_lines_with_endings, lemma_text_at,
    lemma_with_line_feeds_push, lines, lines_of, part, position_of, position_of_char, split_again,
    split_at_endings, starts_with, texts, trim, trimmed, with_endings, with_line_feeds,
};
use vstd::prelude::*;

verus! {

// ---------------------------------------------------------------------------
// The local playlist
// ---------------------------------------------------------------------------

/// The path under which a channel's files are served.
pub open spec fn channel_path(id: nat) -> Seq<char> {
    "/channel/"@ + decimal(id) + "/"@
}

/// A line that names a media file.
pub open spec fn names_media(line: Seq<char>) -> bool {
    finishes_with(line, ".ts"@) || finishes_with(line, ".m4s"@) || finishes_with(line, ".mp4"@)
}

/// A comment, a tag or a blank line.
pub open spec fn is_markup(line: Seq<char>) -> bool {
    begins_with(line, "#"@) || trimmed(line).len() == 0
}

/// A map line with the channel's path before the file that it names.
pub open spec fn local_map_line(line: Seq<char>, id: nat) -> Seq<char> {
    match first_position(line, "URI="@) {
        Some(start) => {
            let quote = line[start + 4];
            match char_from(line, quote, start + 5) {
                Some(end) => line.take(start + 5) + channel_path(id) + line.subrange(
                    start + 5,
                    end,
                ) + seq![quote] + line.skip(end + 1),
                None => line,
            }
        },
        None => line,
    }
}

/// A line of the local playlist as a player gets it.
pub open spec fn local_line(line: Seq<char>, id: nat) -> Seq<char> {
    if begins_with(line, "#EXT-X-MAP:"@) {
        local_map_line(line, id)
    } else if is_markup(line) {
        line
    } else if names_media(line) {
        channel_path(id) + line
    } else {
        line
    }
}

/// The local playlist as a player gets it.
pub open spec fn local_playlist(text: Seq<char>, id: nat) -> Seq<char> {
    assemble(lines_of(text).map_values(|line: Seq<char>| local_line(line, id)), text)
}

pub open spec fn is_one_byte(c: char) -> bool {
    (c as u32) < 0x80
}

/// A map line that can be cut after the quote behind `URI=`: there is a character,
/// and it takes one byte.
pub open spec fn map_line_splits(line: Seq<char>) -> bool {
    match first_position(line, "URI="@) {
        Some(start) => start + 4 < line.len() && is_one_byte(line[start + 4]),
        None => true,
    }
}

/// Every map line of a playlist can be cut.
pub open spec fn map_lines_split(text: Seq<char>) -> bool {
    forall|i: int|
        0 <= i < lines_of(text).len() && begins_with(#[trigger] lines_of(text)[i], "#EXT-X-MAP:"@)
            ==> map_line_splits(lines_of(text)[i])
}

/// The path under which a channel's files are served.
fn channel_base(id: usize) -> (res: String)
    ensures
        res@ == channel_path(id as nat),
{
    let mut res = String::new();
    res.append("/channel/");
    res.append(decimal_text(id as u64).as_str());
    res.append("/");
    assert(res@ =~= channel_path(id as nat));
    res
}

/// Whether a map line can be cut where rewriting cuts it.
fn map_line_can_be_cut(line: &str) -> (res: bool)
    ensures
        res == map_line_splits(line@),
{
    let cs = chars_of(line);
    match position_of(&cs, &chars_of("URI=")) {
        Some(start) => {
            proof {
                reveal_strlit("URI=");
            }
            cs.len() - start > 4 && (cs[start + 4] as u32) < 0x80
        },
        None => true,
    }
}

/// Whether `rewrite_playlist_urls` takes this playlist.
pub fn can_rewrite_playlist_urls(text: &str) -> (res: bool)
    ensures
        res == map_lines_split(text@),
{
    let ls = lines(text);
    let mut i: usize = 0;
    while i < ls.len()
        invariant
            i <= ls.len(),
            texts(ls@) == lines_of(text@),
            forall|k: int|
                0 <= k < i && begins_with(#[trigger] lines_of(text@)[k], "#EXT-X-MAP:"@)
                    ==> map_line_splits(lines_of(text@)[k]),
        decreases ls.len() - i,
    {
        let line = ls[i].as_str();
        proof {
            lemma_text_at(ls@, i as int);
        }
        if starts_with(line, "#EXT-X-MAP:") && !map_line_can_be_cut(line) {
            return false;
        }
        i += 1;
    }
    true
}

/// A map line with the channel's path before the file that it names.
fn rewrite_map_line(line: &str, id: usize) -> (res: String)
    requires
        map_line_splits(line@),
    ensures
        res@ == local_map_line(line@, id as nat),
{
    let cs = chars_of(line);
    match position_of(&cs, &chars_of("URI=")) {
        Some(start) => {
            let n: usize = cs.len();
            let quote = cs[start + 4];
            match position_of_char(&cs, quote, start + 5) {
                Some(end) => {
                    let mut res = part(&cs, 0, start + 5);
                    res.append(channel_base(id).as_str());
                    res.append(part(&cs, start + 5, end).as_str());
                    res.push(quote);
                    res.append(part(&cs, end + 1, n).as_str());
                    assert(res@ =~= local_map_line(line@, id as nat));
                    res
                },
                None => line.to_owned(),
            }
        },
        None => line.to_owned(),
    }
}

/// Whether a line names a media file.
pub(crate) fn is_media_line(line: &str) -> (res: bool)
    ensures
        res == names_media(line@),
{
    ends_with(line, ".ts") || ends_with(line, ".m4s") || ends_with(line, ".mp4")
}

/// Whether a line is a comment, a tag or blank.
pub(crate) fn is_markup_line(line: &str) -> (res: bool)
    ensures
        res == is_markup(line@),
{
    starts_with(line, "#") || trim(line).as_str().is_empty()
}

/// A line of the local playlist as a player gets it.
fn rewrite_local_line(line: &str, id: usize) -> (res: String)
    requires
        begins_with(line@, "#EXT-X-MAP:"@) ==> map_line_splits(line@),
    ensures
        res@ == local_line(line@, id as nat),
{
    if starts_with(line, "#EXT-X-MAP:") {
        rewrite_map_line(line, id)
    } else if is_markup_line(line) {
        line.to_owned()
    } else if is_media_line(line) {
        let mut res = channel_base(id);
        res.append(line);
        res
    } else {
        line.to_owned()
    }
}

/// Lines put together to a text that ends in a line feed exactly where `text`
/// does.
fn assemble_lines(new_lines: &Vec<String>, text: &str) -> (res: String)
    ensures
        res@ == assemble(texts(new_lines@), text@),
{
    let mut chars: Vec<char> = Vec::new();
    let mut i: usize = 0;
    assert(texts(new_lines@).take(0) =~= seq![]);
    while i < new_lines.len()
        invariant
            i <= new_lines.len(),
            chars@ == with_line_feeds(texts(new_lines@).take(i as int)),
        decreases new_lines.len() - i,
    {
        let ghost before = texts(new_lines@).take(i as int);
        let mut line = chars_of(new_lines[i].as_str());
        proof {
            lemma_with_line_feeds_push(before, line@);
            assert(texts(new_lines@).take(i + 1) =~= before.push(line@));
        }
        chars.append(&mut line);
        chars.push('\n');
        assert(chars@ =~= with_line_feeds(texts(new_lines@).take(i + 1)));
        i += 1;
    }
    assert(texts(new_lines@).take(new_lines.len() as int) =~= texts(new_lines@));
    if !ends_with(text, "\n") {
        proof {
            reveal_strlit("\n");
            assert("\n"@ =~= seq!['\n']);
        }
        chars.pop();
    } else {
        proof {
            reveal_strlit("\n");
            assert("\n"@ =~= seq!['\n']);
        }
    }
    crate::text::string_of(&chars)
}

/// The local playlist as a player gets it: every line that names a media file
/// points to the channel's path, and so does the file of a map line.
pub fn rewrite_playlist_urls(text: &str, id: usize) -> (res: String)
    requires
        map_lines_split(text@),
    ensures
        res@ == local_playlist(text@, id as nat),
{
    let ls = lines(text);
    let mut out: Vec<String> = Vec::new();
    let mut i: usize = 0;
    let ghost mapped = lines_of(text@).map_values(|line: Seq<char>| local_line(line, id as nat));
    while i < ls.len()
        invariant
            i <= ls.len(),
            texts(ls@) == lines_of(text@),
            map_lines_split(text@),
            mapped == lines_of(text@).map_values(|line: Seq<char>| local_line(line, id as nat)),
            texts(out@) == mapped.take(i as int),
        decreases ls.len() - i,
    {
        let line = ls[i].as_str();
        proof {
            lemma_text_at(ls@, i as int);
        }
        let new_line = rewrite_local_line(line, id);
        assert(texts(out@.push(new_line)) =~= mapped.take(i + 1)) by {
            assert(texts(out@.push(new_line)) =~= texts(out@).push(new_line@));
        }
        out.push(new_line);
        i += 1;
    }
    assert(mapped.take(ls.len() as int) =~= mapped);
    assemble_lines(&out, text)
}

// ---------------------------------------------------------------------------
// The upstream playlist
// ---------------------------------------------------------------------------

/// A line that carries the key of the segments behind it.
pub open spec fn is_key_line(line: Seq<char>) -> bool {
    begins_with(line, "#EXT-X-KEY:"@)
}

/// The first key line at `i` or later.
pub open spec fn key_line_from(ls: Seq<Seq<char>>, i: int) -> Option<int>
    decreases ls.len() - i,
{
    if i < 0 || i >= ls.len() {
        None
    } else if is_key_line(ls[i]) {
        Some(i)
    } else {
        key_line_from(ls, i + 1)
    }
}

/// Where a playlist's first key line stands, and the address and the
/// initialisation vector in it.
pub open spec fn key_of(text: Seq<char>) -> Option<(int, Seq<char>, Seq<char>)> {
    match key_line_from(lines_of(text), 0) {
        Some(i) => match key_match(lines_of(text)[i]) {
            Some(m) => Some((i, m.0, m.1)),
            None => None,
        },
        None => None,
    }
}

/// A key line with this address and this initialisation vector.
pub open spec fn key_line(uri: Seq<char>, iv: Seq<char>) -> Seq<char> {
    "#EXT-X-KEY:METHOD=AES-128,URI=\""@ + uri + "\",IV=\""@ + iv + "\""@
}

/// What was made of a text; the text itself where nothing was.
pub open spec fn or_unchanged(made: Option<Seq<char>>, original: Seq<char>) -> Seq<char> {
    match made {
        Some(m) => m,
        None => original,
    }
}

/// A playlist whose key address is replaced by the one made of it. A playlist
/// without a key line, or with one that shows no address and vector, stays as
/// it is.
pub open spec fn with_key_address(text: Seq<char>, made: Option<Seq<char>>) -> Seq<char> {
    match key_of(text) {
        Some((i, uri, iv)) => assemble(
            lines_of(text).update(i, key_line(or_unchanged(made, uri), iv)),
            text,
        ),
        None => text,
    }
}

/// The upstream playlist with its key address made absolute.
pub open spec fn upstream_playlist(text: Seq<char>, base: Seq<char>) -> Seq<char> {
    match key_of(text) {
        Some((i, uri, iv)) => with_key_address(text, joined_url(base, uri)),
        None => text,
    }
}

/// Where the quoted address of a key line stands, between the quotes.
pub open spec fn quoted_address(line: Seq<char>) -> Option<(int, int)> {
    match first_position(line, "URI=\""@) {
        Some(i) => match char_from(line, '"', i + 5) {
            Some(j) => if i + 5 < j {
                Some((i + 5, j))
            } else {
                None
            },
            None => None,
        },
        None => None,
    }
}

/// The address that a line holds: a key line's, or the line itself where it is
/// a segment's. A key line holds one where it matches the pattern, or has a quoted
/// address at all.
pub open spec fn line_address(line: Seq<char>) -> Option<Seq<char>> {
    if is_key_line(line) {
        match key_match(line) {
            Some(m) => Some(m.0),
            None => match quoted_address(line) {
                Some((from, to)) => Some(line.subrange(from, to)),
                None => None,
            },
        }
    } else if is_markup(line) {
        None
    } else {
        Some(line)
    }
}

/// A line with another address in the place of its own. A key line that matches the
/// pattern is normalized; in another one only the address changes.
pub open spec fn line_with_address(line: Seq<char>, uri: Seq<char>) -> Seq<char> {
    if is_key_line(line) {
        match key_match(line) {
            Some(m) => key_line(uri, m.1),
            None => match quoted_address(line) {
                Some((from, to)) => line.take(from) + uri + line.skip(to),
                None => line,
            },
        }
    } else if is_markup(line) {
        line
    } else {
        uri
    }
}

/// An address as a signed absolute URL.
pub open spec fn signed_address(
    uri: Seq<char>,
    base: Seq<char>,
    token: Seq<char>,
    id: Seq<char>,
) -> Seq<char> {
    token_url(or_unchanged(joined_url(base, uri), uri), token, id)
}

/// A line of the upstream playlist as the remuxer gets it.
pub open spec fn signed_line(
    line: Seq<char>,
    base: Seq<char>,
    token: Seq<char>,
    id: Seq<char>,
) -> Seq<char> {
    match line_address(line) {
        Some(uri) => line_with_address(line, signed_address(uri, base, token, id)),
        None => line,
    }
}

/// The lines of the upstream playlist as the remuxer gets them.
pub open spec fn signed_lines(
    text: Seq<char>,
    base: Seq<char>,
    token: Seq<char>,
    id: Seq<char>,
) -> Seq<Seq<char>> {
    lines_of(text).map_values(|line: Seq<char>| signed_line(line, base, token, id))
}

/// The upstream playlist as the remuxer gets it. Every line keeps its ending, unless
/// the first key line is normalized: then all lines end in a mere line feed.
pub open spec fn signed_playlist(
    text: Seq<char>,
    base: Seq<char>,
    token: Seq<char>,
    id: Seq<char>,
) -> Seq<char> {
    if key_of(text) is Some {
        assemble(signed_lines(text, base, token, id), text)
    } else {
        with_endings(signed_lines(text, base, token, id), endings_of(text))
    }
}

/// A playlist's key line: where it stands and what it holds.
pub struct KeyLine {
    pub index: usize,
    pub uri: String,
    pub iv: String,
}

/// The address and the initialisation vector of a key line.
fn key_parts(line: &str) -> (res: Option<(String, String)>)
    ensures
        match res {
            Some(m) => key_match(line@) == Some((m.0@, m.1@)),
            None => key_match(line@) is None,
        },
{
    capture_key("URI=\"([^\"]+)\",IV=(0x[0-9a-fA-F]+)", line)
}

/// A playlist's first key line, where it shows an address and a vector.
pub fn find_key(text: &str) -> (res: Option<KeyLine>)
    ensures
        match res {
            Some(k) => key_of(text@) == Some((k.index as int, k.uri@, k.iv@)) && k.index < lines_of(
                text@,
            ).len(),
            None => key_of(text@) is None,
        },
{
    let ls = lines(text);
    let mut i: usize = 0;
    while i < ls.len()
        invariant
            i <= ls.len(),
            texts(ls@) == lines_of(text@),
            key_line_from(lines_of(text@), 0) == key_line_from(lines_of(text@), i as int),
        decreases ls.len() - i,
    {
        let line = ls[i].as_str();
        proof {
            lemma_text_at(ls@, i as int);
        }
        if starts_with(line, "#EXT-X-KEY:") {
            return match key_parts(line) {
                Some((uri, iv)) => Some(KeyLine { index: i, uri, iv }),
                None => None,
            };
        }
        i += 1;
    }
    None
}

/// A key line with this address and this initialisation vector.
fn key_line_text(uri: &str, iv: &str) -> (res: String)
    ensures
        res@ == key_line(uri@, iv@),
{
    let mut res = String::new();
    res.append("#EXT-X-KEY:METHOD=AES-128,URI=\"");
    res.append(uri);
    res.append("\",IV=\"");
    res.append(iv);
    res.append("\"");
    assert(res@ =~= key_line(uri@, iv@));
    res
}

/// What was made of a text; the text itself where nothing was.
pub fn made_or_unchanged(made: Option<String>, original: &str) -> (res: String)
    ensures
        res@ == or_unchanged(text_of(made), original@),
{
    match made {
        Some(m) => m,
        None => original.to_owned(),
    }
}

/// The playlist with `made` as its key address; with the address that stands
/// there where `made` is nothing.
pub fn place_key_address(text: &str, made: Option<String>) -> (res: String)
    ensures
        res@ == with_key_address(text@, text_of(made)),
{
    match find_key(text) {
        Some(key) => {
            let mut ls = lines(text);
            let ghost old_lines = lines_of(text@);
            let new_line = key_line_text(
                made_or_unchanged(made, key.uri.as_str()).as_str(),
                key.iv.as_str(),
            );
            assert(ls@.len() == old_lines.len());
            ls.set(key.index, new_line);
            assert(texts(ls@) =~= old_lines.update(key.index as int, new_line@));
            assemble_lines(&ls, text)
        },
        None => text.to_owned(),
    }
}

/// The upstream playlist with the address in its first key line made absolute
/// against `base_url_no_auth`.
pub fn rewrite_upstream_playlist_segments(text: &str, base_url_no_auth: &str) -> (res: String)
    ensures
        res@ == upstream_playlist(text@, base_url_no_auth@),
        key_of(text@) matches Some((i, uri, iv)) ==> lines_of(res@) == split_again(
            lines_of(text@).update(
                i,
                key_line(or_unchanged(joined_url(base_url_no_auth@, uri), uri), iv),
            ),
            text@,
        ),
{
    match find_key(text) {
        Some(key) => {
            let made = join_url(base_url_no_auth, key.uri.as_str());
            proof {
                law_key_rewrite_keeps_lines(text@, text_of(made));
            }
            place_key_address(text, made)
        },
        None => text.to_owned(),
    }
}

/// Where the quoted address of a key line stands.
fn quoted_place(line: &Vec<char>) -> (res: Option<(usize, usize)>)
    ensures
        match res {
            Some((from, to)) => quoted_address(line@) == Some((from as int, to as int)) && from < to
                < line@.len(),
            None => quoted_address(line@) is None,
        },
{
    let n: usize = line.len();
    match position_of(line, &chars_of("URI=\"")) {
        Some(i) => {
            proof {
                reveal_strlit("URI=\"");
                assert(i + 5 <= n);
            }
            match position_of_char(line, '"', i + 5) {
                Some(j) => {
                    if i + 5 < j {
                        Some((i + 5, j))
                    } else {
                        None
                    }
                },
                None => None,
            }
        },
        None => None,
    }
}

/// The address that a line holds.
pub fn address_of(line: &str) -> (res: Option<String>)
    ensures
        text_of(res) == line_address(line@),
{
    if starts_with(line, "#EXT-X-KEY:") {
        match key_parts(line) {
            Some((uri, _)) => Some(uri),
            None => {
                let cs = chars_of(line);
                match quoted_place(&cs) {
                    Some((from, to)) => Some(part(&cs, from, to)),
                    None => None,
                }
            },
        }
    } else if is_markup_line(line) {
        None
    } else {
        Some(line.to_owned())
    }
}

/// The line with `uri` in the place of the address that it holds.
pub fn place_address(line: &str, uri: &str) -> (res: String)
    ensures
        res@ == line_with_address(line@, uri@),
{
    if starts_with(line, "#EXT-X-KEY:") {
        match key_parts(line) {
            Some((_, iv)) => key_line_text(uri, iv.as_str()),
            None => {
                let cs = chars_of(line);
                let n: usize = cs.len();
                match quoted_place(&cs) {
                    Some((from, to)) => {
                        let mut res = part(&cs, 0, from);
                        res.append(uri);
                        res.append(part(&cs, to, n).as_str());
                        assert(res@ =~= line_with_address(line@, uri@));
                        res
                    },
                    None => line.to_owned(),
                }
            },
        }
    } else if is_markup_line(line) {
        line.to_owned()
    } else {
        uri.to_owned()
    }
}

/// A line of the upstream playlist whose address the base makes a URL of: the line
/// becomes that URL, with the token and the client's id in its query, in the
/// address's place.
pub open spec fn is_signed_where_joined(
    line: Seq<char>,
    base: Seq<char>,
    token: Seq<char>,
    id: Seq<char>,
) -> bool {
    line_address(line) matches Some(uri) ==> (joined_url(base, uri) matches Some(url) ==> {
        &&& parsed_url(url) is Some
        &&& signed_line(line, base, token, id) == line_with_address(
            line,
            with_token(parsed_url(url)->0, token, id),
        )
    })
}

/// The address in a line, if there is one, can be signed.
pub open spec fn can_sign_line(
    line: Seq<char>,
    base: Seq<char>,
    token: Seq<char>,
    id: Seq<char>,
) -> bool {
    line_address(line) matches Some(uri) ==> can_sign(
        or_unchanged(joined_url(base, uri), uri),
        token,
        id,
    )
}

/// Every address in a playlist can be signed.
pub open spec fn can_sign_playlist(
    text: Seq<char>,
    base: Seq<char>,
    token: Seq<char>,
    id: Seq<char>,
) -> bool {
    forall|k: int|
        0 <= k < lines_of(text).len() ==> can_sign_line(
            #[trigger] lines_of(text)[k],
            base,
            token,
            id,
        )
}

/// Whether every address in a playlist can be signed.
pub fn can_sign_upstream_playlist(
    text: &str,
    base_url_no_auth: &str,
    token: &str,
    cookies: &Cookies,
) -> (res: bool)
    ensures
        res == can_sign_playlist(text@, base_url_no_auth@, token@, cookies.id@),
{
    let ls = lines(text);
    let mut i: usize = 0;
    while i < ls.len()
        invariant
            i <= ls.len(),
            texts(ls@) == lines_of(text@),
            forall|k: int|
                0 <= k < i ==> can_sign_line(
                    #[trigger] lines_of(text@)[k],
                    base_url_no_auth@,
                    token@,
                    cookies.id@,
                ),
        decreases ls.len() - i,
    {
        proof {
            lemma_text_at(ls@, i as int);
        }
        if let Some(uri) = address_of(ls[i].as_str()) {
            let made = join_url(base_url_no_auth, uri.as_str());
            let absolute = made_or_unchanged(made, uri.as_str());
            if !can_sign_address(absolute.as_str(), token, cookies) {
                return false;
            }
        }
        i += 1;
    }
    true
}

/// A line of the upstream playlist as the remuxer gets it.
fn sign_line(line: &str, base: &str, token: &str, cookies: &Cookies) -> (res: String)
    requires
        can_sign_line(line@, base@, token@, cookies.id@),
    ensures
        res@ == signed_line(line@, base@, token@, cookies.id@),
        is_signed_where_joined(line@, base@, token@, cookies.id@),
        has_no_line_feed(line@) ==> has_no_line_feed(res@),
        line@.len() > 0 ==> res@.len() > 0,
{
    match address_of(line) {
        Some(uri) => {
            let made = join_url(base, uri.as_str());
            let absolute = made_or_unchanged(made, uri.as_str());
            let signed = build_upstream_url_with_token(absolute.as_str(), token, cookies);
            proof {
                lemma_line_with_address(line@, signed@);
            }
            place_address(line, signed.as_str())
        },
        None => line.to_owned(),
    }
}

/// The upstream playlist as the remuxer gets it: every segment line and every
/// key line's address is a full URL against `base_url_no_auth` that carries the
/// token and the client's id. The playlist keeps its lines: there are as many as
/// before, in the same order. They keep their endings too, unless the first key
/// line is normalized, as it is by `rewrite_upstream_playlist_segments`.
pub fn sign_upstream_playlist(
    text: &str,
    base_url_no_auth: &str,
    token: &str,
    cookies: &Cookies,
) -> (res: String)
    requires
        can_sign_playlist(text@, base_url_no_auth@, token@, cookies.id@),
    ensures
        res@ == signed_playlist(text@, base_url_no_auth@, token@, cookies.id@),
        lines_of(res@) == if key_of(text@) is Some {
            split_again(signed_lines(text@, base_url_no_auth@, token@, cookies.id@), text@)
        } else {
            split_at_endings(
                signed_lines(text@, base_url_no_auth@, token@, cookies.id@),
                endings_of(text@),
            )
        },
        forall|k: int|
            0 <= k < lines_of(text@).len() ==> is_signed_where_joined(
                #[trigger] lines_of(text@)[k],
                base_url_no_auth@,
                token@,
                cookies.id@,
            ),
{
    let ls = lines(text);
    let mut out: Vec<String> = Vec::new();
    let mut i: usize = 0;
    let ghost mapped = signed_lines(text@, base_url_no_auth@, token@, cookies.id@);
    while i < ls.len()
        invariant
            i <= ls.len(),
            texts(ls@) == lines_of(text@),
            can_sign_playlist(text@, base_url_no_auth@, token@, cookies.id@),
            mapped == signed_lines(text@, base_url_no_auth@, token@, cookies.id@),
            texts(out@) == mapped.take(i as int),
            forall|k: int|
                0 <= k < i ==> is_signed_where_joined(
                    #[trigger] lines_of(text@)[k],
                    base_url_no_auth@,
                    token@,
                    cookies.id@,
                ),
            forall|k: int|
                0 <= k < i ==> has_no_line_feed(#[trigger] mapped[k]) && (lines_of(text@)[k].len()
                    > 0 ==> mapped[k].len() > 0),
        decreases ls.len() - i,
    {
        let line = ls[i].as_str();
        proof {
            lemma_text_at(ls@, i as int);
            lemma_lines_hold_no_line_feed(text@);
            assert forall|j: int| 0 <= j < line@.len() implies #[trigger] line@[j] != '\n' by {
                assert(lines_of(text@)[i as int][j] != '\n');
            }
        }
        let new_line = sign_line(line, base_url_no_auth, token, cookies);
        assert(mapped[i as int] == new_line@);
        assert(texts(out@.push(new_line)) =~= mapped.take(i + 1)) by {
            assert(texts(out@.push(new_line)) =~= texts(out@).push(new_line@));
        }
        out.push(new_line);
        i += 1;
    }
    assert(mapped.take(ls.len() as int) =~= mapped);
    proof {
        if mapped.len() > 0 && !finishes_with(text@, seq!['\n']) {
            lemma_last_line_not_empty(text@);
        }
        lemma_lines_of_assembled(mapped, text@);
        lemma_lines_with_endings(text@);
        lemma_lines_of_ended_lines(mapped, endings_of(text@));
    }
    match find_key(text) {
        Some(_) => assemble_lines(&out, text),
        None => join_with_endings(&out, &endings(text)),
    }
}

} // verus!
