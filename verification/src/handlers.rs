//! What the HTTP endpoints decide and answer.

use crate::db::ChannelRow;
use crate::domain::Cookies;
use crate::outside::{
    bare_url, before_query, format_http_date, http_date_seconds, http_date_text, parse_http_date,
    parsed_url, text_of, without_trailing_spaces, HTTP_DATE_END,
};
use crate::rewriter::{
    can_sign_playlist, can_sign_upstream_playlist, local_playlist, map_lines_split,
    rewrite_playlist_urls, sign_upstream_playlist, signed_playlist,
};
use crate::text::{
    begins_with, chars_of, contains, decimal, decimal_text, digit, first_position, hex_text,
    hexadecimal, is_white, join_path, lemma_char_from, lemma_find_from, lemma_text_at, occurs_at,
    part, path_in,
    position_of, same, signed_decimal, signed_decimal_text, split, split_at_char, texts, trim,
    trimmed,
};
use crate::upstream::{header_texts, is_success, push_header, succeeds};
use vstd::prelude::*;

verus! {

// ---------------------------------------------------------------------------
// Answers
// ---------------------------------------------------------------------------

/// What an answer carries.
#[derive(Debug)]
pub enum Body {
    Empty,
    Text(String),
    /// The file that was opened for the request.
    File,
}

/// An answer to a request.
#[derive(Debug)]
pub struct Response {
    pub status: u16,
    pub headers: Vec<(String, String)>,
    pub body: Body,
}

/// An answer with this status, these headers and this text.
pub open spec fn is_text_response(
    r: Response,
    status: u16,
    headers: Seq<(Seq<char>, Seq<char>)>,
    text: Seq<char>,
) -> bool {
    &&& r.status == status
    &&& header_texts(r.headers@) == headers
    &&& r.body matches Body::Text(t) && t@ == text
}

/// An answer with a status and a text.
fn plain_response(status: u16, text: &str) -> (res: Response)
    ensures
        is_text_response(res, status, seq![], text@),
{
    let res = Response { status, headers: Vec::new(), body: Body::Text(text.to_owned()) };
    assert(header_texts(res.headers@) =~= seq![]);
    res
}

// ---------------------------------------------------------------------------
// The metrics
// ---------------------------------------------------------------------------

/// The answer to a request for the metrics, given their encoding.
pub fn get_metrics(encoded: Result<String, String>) -> (res: Response)
    ensures
        match encoded {
            Ok(text) => is_text_response(
                res,
                200,
                seq![("content-type"@, "text/plain; version=0.0.4"@)],
                text@,
            ),
            Err(e) => is_text_response(res, 500, seq![], "metrics encode error: "@ + e@),
        },
{
    match encoded {
        Ok(text) => {
            let mut headers: Vec<(String, String)> = Vec::new();
            push_header(&mut headers, "content-type", "text/plain; version=0.0.4");
            assert(header_texts(headers@) =~= seq![
                ("content-type"@, "text/plain; version=0.0.4"@),
            ]);
            Response { status: 200, headers, body: Body::Text(text) }
        },
        Err(e) => {
            let mut text = "metrics encode error: ".to_owned();
            text.append(e.as_str());
            plain_response(500, text.as_str())
        },
    }
}

// ---------------------------------------------------------------------------
// The list of channels
// ---------------------------------------------------------------------------

/// The address of one of a channel's playlists on this server.
pub open spec fn channel_url(host: Seq<char>, port: u16, id: nat, file: Seq<char>) -> Seq<char> {
    "http://"@ + host + ":"@ + decimal(port as nat) + "/channel/"@ + decimal(id) + "/"@ + file
}

/// What the list of channels says of the channel at `id`.
pub open spec fn channel_entry(id: nat, name: Seq<char>, host: Seq<char>, port: u16) -> Seq<char> {
    "#EXTINF:-1 tvg-id=\""@ + decimal(id) + "\" tvg-name=\""@ + name + "\" tvg-logo=\"/channel/"@
        + decimal(id) + "/logo.png\","@ + name + "\n"@ + channel_url(
        host,
        port,
        id,
        "playlist.m3u8"@,
    ) + "\n"@
}

/// The list of channels, in their order from 0 on.
pub open spec fn channel_list(rows: Seq<ChannelRow>, host: Seq<char>, port: u16) -> Seq<char>
    decreases rows.len(),
{
    if rows.len() == 0 {
        "#EXTM3U\n"@
    } else {
        channel_list(rows.drop_last(), host, port) + channel_entry(
            (rows.len() - 1) as nat,
            rows.last().name@,
            host,
            port,
        )
    }
}

/// The address of one of a channel's playlists on this server.
fn channel_url_text(host: &str, port: u16, id: usize, file: &str) -> (res: String)
    ensures
        res@ == channel_url(host@, port, id as nat, file@),
{
    let mut res = "http://".to_owned();
    res.append(host);
    res.append(":");
    res.append(decimal_text(port as u64).as_str());
    res.append("/channel/");
    res.append(decimal_text(id as u64).as_str());
    res.append("/");
    res.append(file);
    res
}

/// The list of channels.
pub fn render_channels(rows: &Vec<ChannelRow>, host: &str, port: u16) -> (res: String)
    ensures
        res@ == channel_list(rows@, host@, port),
{
    let mut out = "#EXTM3U\n".to_owned();
    let mut i: usize = 0;
    assert(rows@.take(0) =~= seq![]);
    while i < rows.len()
        invariant
            i <= rows.len(),
            out@ == channel_list(rows@.take(i as int), host@, port),
        decreases rows.len() - i,
    {
        let name = rows[i].name.as_str();
        let id = decimal_text(i as u64);
        let ghost before = out@;
        out.append("#EXTINF:-1 tvg-id=\"");
        out.append(id.as_str());
        out.append("\" tvg-name=\"");
        out.append(name);
        out.append("\" tvg-logo=\"/channel/");
        out.append(id.as_str());
        out.append("/logo.png\",");
        out.append(name);
        out.append("\n");
        out.append(channel_url_text(host, port, i, "playlist.m3u8").as_str());
        out.append("\n");
        proof {
            assert(rows@.take(i + 1).drop_last() =~= rows@.take(i as int));
            assert(out@ =~= before + channel_entry(i as nat, name@, host@, port));
        }
        i += 1;
    }
    assert(rows@.take(rows.len() as int) =~= rows@);
    out
}

/// The answer to a request for the list of channels, given the table's rows, or
/// nothing where they could not be read.
pub fn get_playlist(rows: Option<Vec<ChannelRow>>, host: &str, port: u16) -> (res: Response)
    ensures
        match rows {
            None => is_text_response(res, 500, seq![], "DB query error"@),
            Some(rows) => if rows@.len() == 0 {
                is_text_response(res, 503, seq![], "channels DB empty"@)
            } else {
                is_text_response(
                    res,
                    200,
                    seq![
                        ("content-type"@, "application/vnd.apple.mpegurl"@),
                        ("content-disposition"@, "attachment; filename=playlist.m3u8"@),
                    ],
                    channel_list(rows@, host@, port),
                )
            },
        },
{
    match rows {
        None => plain_response(500, "DB query error"),
        Some(rows) => {
            if rows.len() == 0 {
                return plain_response(503, "channels DB empty");
            }
            let text = render_channels(&rows, host, port);
            let mut headers: Vec<(String, String)> = Vec::new();
            push_header(&mut headers, "content-type", "application/vnd.apple.mpegurl");
            push_header(
                &mut headers,
                "content-disposition",
                "attachment; filename=playlist.m3u8",
            );
            assert(header_texts(headers@) =~= seq![
                ("content-type"@, "application/vnd.apple.mpegurl"@),
                ("content-disposition"@, "attachment; filename=playlist.m3u8"@),
            ]);
            Response { status: 200, headers, body: Body::Text(text) }
        },
    }
}

// ---------------------------------------------------------------------------
// A channel's logo
// ---------------------------------------------------------------------------

/// What is done next for a request for a logo.
#[derive(Debug)]
pub enum LogoStep {
    /// Make the directory, and look at the size of the cached file.
    Look { dir: String, path: String },
    /// Fetch the logo, and keep it in the cache if that succeeds.
    Fetch { url: String },
    /// Open the cached file.
    Open,
    /// Answer the request.
    Answer(Response),
}

/// What is known of the file that a logo is served from: its size, and when it
/// was last changed in seconds since the Unix epoch.
#[derive(Debug, Clone, Copy)]
pub struct FileFacts {
    pub size: u64,
    pub modified: Option<u64>,
}

/// The name of a channel's logo file.
pub open spec fn logo_name(sgtid: i32) -> Seq<char> {
    signed_decimal(sgtid as int) + ".png"@
}

/// The directory of the cached logos.
pub open spec fn logo_dir(data_dir: Seq<char>) -> Seq<char> {
    path_in(data_dir, "logos"@)
}

/// The tag of a file of this size that was last changed at this time.
pub open spec fn etag(size: u64, modified: u64) -> Seq<char> {
    "\""@ + hexadecimal(size as nat) + "-"@ + hexadecimal(modified as nat) + "\""@
}

/// A list of tags names this one.
pub open spec fn tag_is_listed(list: Seq<char>, tag: Seq<char>) -> bool {
    exists|i: int|
        0 <= i < split_at_char(list, ',').len() && trimmed(
            #[trigger] split_at_char(list, ',')[i],
        ) == tag
}

/// The client's list of tags names the file's.
pub open spec fn matches_tag(facts: FileFacts, if_none_match: Option<Seq<char>>) -> bool {
    &&& facts.modified matches Some(m)
    &&& if_none_match matches Some(list)
    &&& tag_is_listed(list, etag(facts.size, m))
}

/// The file was not changed after the time that the client states.
pub open spec fn unchanged_since(facts: FileFacts, since: Option<u64>) -> bool {
    &&& facts.modified matches Some(m)
    &&& since matches Some(t)
    &&& m <= t
}

/// The headers that tell one state of a file from another, the tag first or
/// the date first.
pub open spec fn validators(
    facts: FileFacts,
    last_modified: Option<Seq<char>>,
    tag_first: bool,
) -> Seq<(Seq<char>, Seq<char>)> {
    let tag = match facts.modified {
        Some(m) => seq![("etag"@, etag(facts.size, m))],
        None => seq![],
    };
    let date = match last_modified {
        Some(d) => seq![("last-modified"@, d)],
        None => seq![],
    };
    if tag_first {
        tag + date
    } else {
        date + tag
    }
}

pub open spec fn logo_caching() -> (Seq<char>, Seq<char>) {
    ("cache-control"@, "public, max-age=86400"@)
}

/// The answer to a request for a logo whose file is there: that it has not
/// changed, where the client shows that it knows this state of it, or the file.
pub open spec fn is_logo_answer(
    r: Response,
    facts: FileFacts,
    if_none_match: Option<Seq<char>>,
    since: Option<u64>,
    last_modified: Option<Seq<char>>,
) -> bool {
    if matches_tag(facts, if_none_match) {
        &&& r.status == 304
        &&& header_texts(r.headers@) == validators(facts, last_modified, true).push(logo_caching())
        &&& r.body is Empty
    } else if unchanged_since(facts, since) {
        &&& r.status == 304
        &&& header_texts(r.headers@) == validators(facts, last_modified, false).push(logo_caching())
        &&& r.body is Empty
    } else {
        &&& r.status == 200
        &&& header_texts(r.headers@) == validators(facts, last_modified, false).push(
            ("content-type"@, "image/png"@),
        ).push(logo_caching())
        &&& r.body is File
    }
}

/// The date that a file's last change is stated by.
pub open spec fn modified_text(facts: FileFacts) -> Option<Seq<char>> {
    match facts.modified {
        Some(m) => Some(http_date_text(m)),
        None => None,
    }
}

/// The time that the client's header states.
pub open spec fn since_time(if_modified_since: Option<Seq<char>>) -> Option<u64> {
    match if_modified_since {
        Some(text) => http_date_seconds(text),
        None => None,
    }
}

/// The content of an optional text.
pub open spec fn borrowed_text(s: Option<&str>) -> Option<Seq<char>> {
    match s {
        Some(t) => Some(t@),
        None => None,
    }
}

/// The first step for a request for a logo, given the channel's row.
pub fn logo_requested(row: Option<&ChannelRow>, data_dir: &str) -> (res: LogoStep)
    ensures
        match row {
            None => res matches LogoStep::Answer(r) && is_text_response(
                r,
                404,
                seq![],
                "Channel not found"@,
            ),
            Some(ch) => res matches LogoStep::Look { dir, path } && dir@ == logo_dir(data_dir@)
                && path@ == path_in(logo_dir(data_dir@), logo_name(ch.sgtid)),
        },
{
    match row {
        None => LogoStep::Answer(plain_response(404, "Channel not found")),
        Some(ch) => {
            let dir = join_path(data_dir, "logos");
            let mut name = signed_decimal_text(ch.sgtid);
            name.append(".png");
            let path = join_path(dir.as_str(), name.as_str());
            LogoStep::Look { dir, path }
        },
    }
}

/// The step once the cached file was looked for: a file that is missing or
/// empty is fetched first.
pub fn logo_looked_up(ch: &ChannelRow, size: Option<u64>) -> (res: LogoStep)
    ensures
        match size {
            Some(n) if n > 0 => res is Open,
            _ => res matches LogoStep::Fetch { url } && url@
                == "https://static.sgtsa.pl/channels/logos/"@ + logo_name(ch.sgtid),
        },
{
    match size {
        Some(n) if n > 0 => LogoStep::Open,
        _ => {
            let mut url = "https://static.sgtsa.pl/channels/logos/".to_owned();
            url.append(signed_decimal_text(ch.sgtid).as_str());
            url.append(".png");
            assert(url@ =~= "https://static.sgtsa.pl/channels/logos/"@ + logo_name(ch.sgtid));
            LogoStep::Fetch { url }
        },
    }
}

/// Whether a list of tags names this one.
pub fn lists_tag(list: &str, tag: &str) -> (res: bool)
    ensures
        res == tag_is_listed(list@, tag@),
{
    let pieces = split(list, ',');
    let mut i: usize = 0;
    while i < pieces.len()
        invariant
            i <= pieces.len(),
            texts(pieces@) == split_at_char(list@, ','),
            forall|k: int|
                0 <= k < i ==> trimmed(#[trigger] split_at_char(list@, ',')[k]) != tag@,
        decreases pieces.len() - i,
    {
        proof {
            lemma_text_at(pieces@, i as int);
        }
        if same(trim(pieces[i].as_str()).as_str(), tag) {
            return true;
        }
        i += 1;
    }
    false
}

/// The tag of a file of this size that was last changed at this time.
pub fn etag_text(size: u64, modified: u64) -> (res: String)
    ensures
        res@ == etag(size, modified),
{
    let mut res = "\"".to_owned();
    res.append(hex_text(size).as_str());
    res.append("-");
    res.append(hex_text(modified).as_str());
    res.append("\"");
    res
}

/// The headers that tell one state of a file from another.
fn validator_headers(facts: FileFacts, last_modified: Option<&str>, tag_first: bool) -> (res: Vec<
    (String, String),
>)
    ensures
        header_texts(res@) == validators(facts, borrowed_text(last_modified), tag_first),
{
    let mut headers: Vec<(String, String)> = Vec::new();
    assert(header_texts(headers@) =~= seq![]);
    if tag_first {
        if let Some(m) = facts.modified {
            push_header(&mut headers, "etag", etag_text(facts.size, m).as_str());
        }
        if let Some(d) = last_modified {
            push_header(&mut headers, "last-modified", d);
        }
    } else {
        if let Some(d) = last_modified {
            push_header(&mut headers, "last-modified", d);
        }
        if let Some(m) = facts.modified {
            push_header(&mut headers, "etag", etag_text(facts.size, m).as_str());
        }
    }
    assert(header_texts(headers@) =~= validators(facts, borrowed_text(last_modified), tag_first));
    headers
}

/// The answer to a request for a logo whose file is there, given the time that
/// the client's header states and the date of the file's last change.
pub fn logo_answer(
    facts: FileFacts,
    if_none_match: Option<&str>,
    since: Option<u64>,
    last_modified: Option<&str>,
) -> (res: Response)
    ensures
        is_logo_answer(
            res,
            facts,
            borrowed_text(if_none_match),
            since,
            borrowed_text(last_modified),
        ),
{
    if let (Some(m), Some(list)) = (facts.modified, if_none_match) {
        if lists_tag(list, etag_text(facts.size, m).as_str()) {
            let mut headers = validator_headers(facts, last_modified, true);
            push_header(&mut headers, "cache-control", "public, max-age=86400");
            return Response { status: 304, headers, body: Body::Empty };
        }
    }
    if let (Some(m), Some(t)) = (facts.modified, since) {
        if m <= t {
            let mut headers = validator_headers(facts, last_modified, false);
            push_header(&mut headers, "cache-control", "public, max-age=86400");
            return Response { status: 304, headers, body: Body::Empty };
        }
    }
    let mut headers = validator_headers(facts, last_modified, false);
    push_header(&mut headers, "content-type", "image/png");
    push_header(&mut headers, "cache-control", "public, max-age=86400");
    Response { status: 200, headers, body: Body::File }
}

/// The answer to a request for a logo once its file was opened, or could not
/// be. A client that sends back the date of the last change is told that the
/// file has not changed.
pub fn logo_opened(
    file: Option<FileFacts>,
    if_none_match: Option<&str>,
    if_modified_since: Option<&str>,
) -> (res: Response)
    requires
        file matches Some(facts) ==> (facts.modified matches Some(m) ==> m < HTTP_DATE_END),
    ensures
        match file {
            None => is_text_response(res, 404, seq![], "Logo unavailable"@),
            Some(facts) => is_logo_answer(
                res,
                facts,
                borrowed_text(if_none_match),
                since_time(borrowed_text(if_modified_since)),
                modified_text(facts),
            ),
        },
        file matches Some(facts) ==> (facts.modified matches Some(m) ==> (
        if_modified_since matches Some(text) ==> text@ == http_date_text(m) ==> res.status
            == 304)),
{
    match file {
        None => plain_response(404, "Logo unavailable"),
        Some(facts) => {
            let since = match if_modified_since {
                Some(text) => parse_http_date(text),
                None => None,
            };
            match facts.modified {
                Some(m) => {
                    let date = format_http_date(m);
                    logo_answer(facts, if_none_match, since, Some(date.as_str()))
                },
                None => logo_answer(facts, if_none_match, since, None),
            }
        },
    }
}

// ---------------------------------------------------------------------------
// A channel's local playlist and its segments
// ---------------------------------------------------------------------------

/// What is done next for a request for a channel's playlist.
#[derive(Debug)]
pub enum PlaylistStep {
    /// See to it that the channel is remuxed, from this address.
    Ensure { upstream: String },
    /// Answer the request.
    Answer(Response),
}

/// The first step for a request for a channel's playlist, given whether there
/// is such a channel.
pub fn playlist_requested(found: bool, host: &str, port: u16, id: usize) -> (res: PlaylistStep)
    ensures
        if found {
            res matches PlaylistStep::Ensure { upstream } && upstream@ == channel_url(
                host@,
                port,
                id as nat,
                "upstream.m3u8"@,
            )
        } else {
            res matches PlaylistStep::Answer(r) && is_text_response(
                r,
                404,
                seq![],
                "Channel not found"@,
            )
        },
{
    if found {
        PlaylistStep::Ensure { upstream: channel_url_text(host, port, id, "upstream.m3u8") }
    } else {
        PlaylistStep::Answer(plain_response(404, "Channel not found"))
    }
}

/// The headers that keep an answer out of caches.
pub open spec fn no_store() -> Seq<(Seq<char>, Seq<char>)> {
    seq![
        ("cache-control"@, "no-store, max-age=0"@),
        ("pragma"@, "no-cache"@),
        ("expires"@, "0"@),
    ]
}

/// The headers that keep an answer out of caches.
pub fn no_store_headers() -> (res: Vec<(String, String)>)
    ensures
        header_texts(res@) == no_store(),
{
    let mut headers: Vec<(String, String)> = Vec::new();
    push_header(&mut headers, "cache-control", "no-store, max-age=0");
    push_header(&mut headers, "pragma", "no-cache");
    push_header(&mut headers, "expires", "0");
    assert(header_texts(headers@) =~= no_store());
    headers
}

/// The answer to a request for a channel's playlist, given what the remuxer
/// wrote; nothing where the channel is not remuxed or the file was not read.
pub fn channel_playlist(written: Option<&str>, id: usize) -> (res: Response)
    requires
        written matches Some(text) ==> map_lines_split(text@),
    ensures
        match written {
            Some(text) => is_text_response(
                res,
                200,
                seq![("content-type"@, "application/vnd.apple.mpegurl"@)] + no_store(),
                local_playlist(text@, id as nat),
            ),
            None => is_text_response(res, 503, seq![], "service not available"@),
        },
{
    match written {
        Some(text) => {
            let mut headers: Vec<(String, String)> = Vec::new();
            push_header(&mut headers, "content-type", "application/vnd.apple.mpegurl");
            push_header(&mut headers, "cache-control", "no-store, max-age=0");
            push_header(&mut headers, "pragma", "no-cache");
            push_header(&mut headers, "expires", "0");
            assert(header_texts(headers@) =~= seq![
                ("content-type"@, "application/vnd.apple.mpegurl"@),
            ] + no_store());
            Response { status: 200, headers, body: Body::Text(rewrite_playlist_urls(text, id)) }
        },
        None => plain_response(503, "service not available"),
    }
}

/// A name that cannot lead out of a channel's directory.
pub open spec fn is_safe_segment(segment: Seq<char>) -> bool {
    &&& first_position(segment, "/"@) is None
    &&& first_position(segment, "\\"@) is None
    &&& first_position(segment, ".."@) is None
}

/// What is done for a request for one of a channel's files.
#[derive(Debug)]
pub enum SegmentStep {
    /// Serve the file at this path below the channel's directory, with these
    /// headers added.
    Serve { path: String, headers: Vec<(String, String)> },
    /// Answer the request.
    Answer(Response),
}

/// What is done for a request for one of a channel's files, given whether the
/// channel is remuxed. A name that could lead out of the directory is refused
/// before anything else.
pub fn channel_segment(segment: &str, has_session: bool) -> (res: SegmentStep)
    ensures
        if !is_safe_segment(segment@) {
            res matches SegmentStep::Answer(r) && is_text_response(
                r,
                400,
                seq![],
                "invalid segment path"@,
            )
        } else if !has_session {
            res matches SegmentStep::Answer(r) && is_text_response(
                r,
                404,
                seq![],
                "Segment not found"@,
            )
        } else {
            res matches SegmentStep::Serve { path, headers } && path@ == "/"@ + segment@
                && header_texts(headers@) == no_store()
        },
{
    if contains(segment, "/") || contains(segment, "\\") || contains(segment, "..") {
        return SegmentStep::Answer(plain_response(400, "invalid segment path"));
    }
    if !has_session {
        return SegmentStep::Answer(plain_response(404, "Segment not found"));
    }
    let mut path = "/".to_owned();
    path.append(segment);
    SegmentStep::Serve { path, headers: no_store_headers() }
}

// ---------------------------------------------------------------------------
// A channel's upstream playlist
// ---------------------------------------------------------------------------

/// A channel's address for one quality: the quality's name comes in before the
/// playlist's.
pub open spec fn quality_url(url: Seq<char>, quality: Seq<char>) -> Seq<char> {
    match first_position(url, "playlist.m3u8"@) {
        Some(i) => url.take(i) + quality + "/"@ + url.skip(i),
        None => url,
    }
}

/// A channel's address for one quality.
pub fn url_for_quality(url: &str, quality: &str) -> (res: String)
    ensures
        res@ == quality_url(url@, quality@),
{
    let cs = chars_of(url);
    match position_of(&cs, &chars_of("playlist.m3u8")) {
        Some(i) => {
            let mut res = part(&cs, 0, i);
            res.append(quality);
            res.append("/");
            res.append(part(&cs, i, cs.len()).as_str());
            assert(res@ =~= quality_url(url@, quality@));
            res
        },
        None => url.to_owned(),
    }
}

/// The label for what was made of an address: that, or the address up to its
/// first question mark.
pub open spec fn label_of(bare: Option<Seq<char>>, url: Seq<char>) -> Seq<char> {
    match bare {
        Some(b) => b,
        None => split_at_char(url, '?')[0],
    }
}

/// The label under which requests to an address are counted: its URL without
/// query and fragment.
pub open spec fn metrics_label(url: Seq<char>) -> Seq<char> {
    label_of(
        match parsed_url(url) {
            Some(u) => Some(without_trailing_spaces(before_query(u))),
            None => None,
        },
        url,
    )
}

/// The label for what was made of an address.
pub fn choose_label(bare: Option<String>, url: &str) -> (res: String)
    ensures
        res@ == label_of(text_of(bare), url@),
{
    match bare {
        Some(b) => b,
        None => {
            let pieces = split(url, '?');
            assert(texts(pieces@)[0] == pieces@[0]@);
            pieces[0].clone()
        },
    }
}

/// The label under which requests to an address are counted.
pub fn label_for_metrics(url: &str) -> (res: String)
    ensures
        res@ == metrics_label(url@),
{
    choose_label(bare_url(url), url)
}

/// The course of fetching an upstream playlist: whether the token was refreshed.
#[derive(Debug, Clone, Copy, PartialEq, Eq, Structural)]
pub struct UpstreamFetch {
    pub refreshed: bool,
}

/// What follows the answer to a fetch.
#[derive(Debug, Clone, Copy, PartialEq, Eq, Structural)]
pub enum FetchAction {
    /// Refresh the token, and fetch once more.
    Refresh,
    /// Serve what was fetched.
    Serve,
    /// Give up.
    Fail,
}

/// What follows an answer, given its status, or nothing where none came.
pub open spec fn fetch_action(fetch: UpstreamFetch, status: Option<u16>) -> FetchAction {
    match status {
        None => FetchAction::Fail,
        Some(s) => if s == 403 && !fetch.refreshed {
            FetchAction::Refresh
        } else if succeeds(s) {
            FetchAction::Serve
        } else {
            FetchAction::Fail
        },
    }
}

impl UpstreamFetch {
    /// Before the first fetch.
    pub fn new() -> (res: Self)
        ensures
            !res.refreshed,
    {
        UpstreamFetch { refreshed: false }
    }

    /// What follows an answer with this status, or no answer.
    pub fn on_answer(&mut self, status: Option<u16>) -> (res: FetchAction)
        ensures
            res == fetch_action(*old(self), status),
            res == FetchAction::Serve <==> (status matches Some(s) && 200 <= s < 300),
            res == FetchAction::Refresh <==> status == Some(403u16) && !old(self).refreshed,
            final(self).refreshed == (old(self).refreshed || res == FetchAction::Refresh),
    {
        match status {
            None => FetchAction::Fail,
            Some(s) => {
                if s == 403 && !self.refreshed {
                    self.refreshed = true;
                    FetchAction::Refresh
                } else if is_success(s) {
                    FetchAction::Serve
                } else {
                    FetchAction::Fail
                }
            },
        }
    }
}

/// The token after a refresh: the new one where there is one, else the old one.
pub fn token_after_refresh(current: String, refreshed: Option<String>) -> (res: String)
    ensures
        res == match refreshed {
            Some(token) => token,
            None => current,
        },
{
    match refreshed {
        Some(token) => token,
        None => current,
    }
}

/// The answer to a request for a channel that is not in the table.
pub fn channel_missing() -> (res: Response)
    ensures
        is_text_response(res, 404, seq![], "Channel not found"@),
{
    plain_response(404, "Channel not found")
}

/// The answer to a request for an upstream playlist, given what was fetched from
/// `base_url`, or nothing where the fetch failed. Every address in it is made
/// absolute and carries the token and the client's id.
pub fn channel_upstream_playlist(
    fetched: Option<&str>,
    base_url: &str,
    token: &str,
    cookies: &Cookies,
) -> (res: Response)
    requires
        fetched matches Some(text) ==> can_sign_playlist(text@, base_url@, token@, cookies.id@),
    ensures
        match fetched {
            Some(text) => is_text_response(
                res,
                200,
                seq![
                    ("content-type"@, "application/vnd.apple.mpegurl"@),
                    ("cache-control"@, "no-store, max-age=0"@),
                ],
                signed_playlist(text@, base_url@, token@, cookies.id@),
            ),
            None => is_text_response(res, 502, seq![], "Upstream fetch failed"@),
        },
{
    match fetched {
        Some(text) => {
            let body = sign_upstream_playlist(text, base_url, token, cookies);
            let mut headers: Vec<(String, String)> = Vec::new();
            push_header(&mut headers, "content-type", "application/vnd.apple.mpegurl");
            push_header(&mut headers, "cache-control", "no-store, max-age=0");
            assert(header_texts(headers@) =~= seq![
                ("content-type"@, "application/vnd.apple.mpegurl"@),
                ("cache-control"@, "no-store, max-age=0"@),
            ]);
            Response { status: 200, headers, body: Body::Text(body) }
        },
        None => plain_response(502, "Upstream fetch failed"),
    }
}

/// The answer to a request for an upstream playlist, or nothing where an address in
/// it grows too long to be signed.
pub fn try_channel_upstream_playlist(
    fetched: Option<&str>,
    base_url: &str,
    token: &str,
    cookies: &Cookies,
) -> (res: Option<Response>)
    ensures
        match res {
            Some(r) => match fetched {
                Some(text) => can_sign_playlist(text@, base_url@, token@, cookies.id@)
                    && is_text_response(
                    r,
                    200,
                    seq![
                        ("content-type"@, "application/vnd.apple.mpegurl"@),
                        ("cache-control"@, "no-store, max-age=0"@),
                    ],
                    signed_playlist(text@, base_url@, token@, cookies.id@),
                ),
                None => is_text_response(r, 502, seq![], "Upstream fetch failed"@),
            },
            None => fetched matches Some(text) && !can_sign_playlist(
                text@,
                base_url@,
                token@,
                cookies.id@,
            ),
        },
{
    if let Some(text) = fetched {
        if !can_sign_upstream_playlist(text, base_url, token, cookies) {
            return None;
        }
    }
    Some(channel_upstream_playlist(fetched, base_url, token, cookies))
}

// ---------------------------------------------------------------------------
// Laws
// ---------------------------------------------------------------------------

/// The list of channels numbers them in their order: the entry of each, with its
/// position as its id, follows the entries of those before it.
pub proof fn law_channels_are_numbered_in_order(
    rows: Seq<ChannelRow>,
    host: Seq<char>,
    port: u16,
    i: int,
)
    requires
        0 <= i < rows.len(),
    ensures
        begins_with(
            channel_list(rows, host, port),
            channel_list(rows.take(i), host, port) + channel_entry(
                i as nat,
                rows[i].name@,
                host,
                port,
            ),
        ),
    decreases rows.len(),
{
    let head = channel_list(rows.take(i), host, port) + channel_entry(
        i as nat,
        rows[i].name@,
        host,
        port,
    );
    let all = channel_list(rows, host, port);
    if i == rows.len() - 1 {
        assert(rows.drop_last() =~= rows.take(i));
        assert(all.subrange(0, head.len() as int) =~= head);
    } else {
        law_channels_are_numbered_in_order(rows.drop_last(), host, port, i);
        assert(rows.drop_last().take(i) =~= rows.take(i));
        let before = channel_list(rows.drop_last(), host, port);
        assert(all.subrange(0, head.len() as int) =~= before.subrange(0, head.len() as int));
    }
}

/// Hexadecimal notation holds neither a comma nor white space.
pub(crate) proof fn lemma_hexadecimal(n: nat)
    ensures
        forall|i: int|
            0 <= i < hexadecimal(n).len() ==> #[trigger] hexadecimal(n)[i] != ',' && !is_white(
                hexadecimal(n)[i],
            ),
    decreases n,
{
    reveal_strlit("0123456789abcdef");
    let d: int = if n < 16 {
        n as int
    } else {
        (n % 16) as int
    };
    assert(d == 0 || d == 1 || d == 2 || d == 3 || d == 4 || d == 5 || d == 6 || d == 7 || d == 8
        || d == 9 || d == 10 || d == 11 || d == 12 || d == 13 || d == 14 || d == 15);
    assert(digit(d) != ',' && !is_white(digit(d)));
    if n >= 16 {
        lemma_hexadecimal(n / 16);
        let higher = hexadecimal(n / 16);
        assert(hexadecimal(n) == higher.push(digit(d)));
        assert forall|i: int| 0 <= i < hexadecimal(n).len() implies #[trigger] hexadecimal(n)[i]
            != ',' && !is_white(hexadecimal(n)[i]) by {
            if i < higher.len() {
                assert(hexadecimal(n)[i] == higher[i]);
            }
        }
    } else {
        assert(hexadecimal(n) == seq![digit(d)]);
    }
}

/// A client that sends back the tag it was given is told that the file has not
/// changed, whatever else it sends.
pub proof fn law_echoed_tag_is_not_modified(
    r: Response,
    facts: FileFacts,
    modified: u64,
    since: Option<u64>,
    last_modified: Option<Seq<char>>,
)
    requires
        facts.modified == Some(modified),
        is_logo_answer(r, facts, Some(etag(facts.size, modified)), since, last_modified),
    ensures
        r.status == 304,
{
    let tag = etag(facts.size, modified);
    let size = hexadecimal(facts.size as nat);
    let time = hexadecimal(modified as nat);
    lemma_hexadecimal(facts.size as nat);
    lemma_hexadecimal(modified as nat);
    reveal_strlit("\"");
    reveal_strlit("-");
    assert forall|i: int| 0 <= i < tag.len() implies tag[i] != ',' && !is_white(tag[i]) by {
        let n = size.len();
        if i == 0 {
        } else if i <= n {
            assert(tag[i] == size[i - 1]);
        } else if i == n + 1 {
        } else if i <= n + 1 + time.len() {
            assert(tag[i] == time[i - n - 2]);
        }
    }
    lemma_char_from(tag, ',', 0);
    assert(split_at_char(tag, ',') =~= seq![tag]);
    assert(trimmed(split_at_char(tag, ',')[0]) == tag);
}

/// A client that states a time at or after the last change, and names no tag, is
/// told that the file has not changed; one that states an earlier time gets the
/// file.
pub proof fn law_time_decides_without_tags(
    r: Response,
    facts: FileFacts,
    modified: u64,
    since: u64,
    last_modified: Option<Seq<char>>,
)
    requires
        facts.modified == Some(modified),
        is_logo_answer(r, facts, None, Some(since), last_modified),
    ensures
        r.status == 304 <==> modified <= since,
        r.body is File <==> since < modified,
{
}

/// A name that is let through holds no separator, and leads nowhere upwards.
pub proof fn law_safe_segment_stays_in_directory(segment: Seq<char>)
    requires
        is_safe_segment(segment),
    ensures
        forall|i: int|
            0 <= i < segment.len() ==> #[trigger] segment[i] != '/' && segment[i] != '\\',
        forall|i: int, j: int|
            0 <= i && j == i + 1 && j < segment.len() ==> !(#[trigger] segment[i] == '.'
                && #[trigger] segment[j] == '.'),
{
    reveal_strlit("/");
    reveal_strlit("\\");
    reveal_strlit("..");
    lemma_find_from(segment, "/"@, 0);
    lemma_find_from(segment, "\\"@, 0);
    lemma_find_from(segment, ".."@, 0);
    assert forall|i: int| 0 <= i < segment.len() implies #[trigger] segment[i] != '/' && segment[i]
        != '\\' by {
        assert(!occurs_at(segment, "/"@, i));
        assert(!occurs_at(segment, "\\"@, i));
        if segment[i] == '/' {
            assert(segment.subrange(i, i + 1) =~= "/"@);
        }
        if segment[i] == '\\' {
            assert(segment.subrange(i, i + 1) =~= "\\"@);
        }
    }
    assert forall|i: int, j: int| 0 <= i && j == i + 1 && j < segment.len() implies !(
    #[trigger] segment[i] == '.' && #[trigger] segment[j] == '.') by {
        assert(!occurs_at(segment, ".."@, i));
        if segment[i] == '.' && segment[j] == '.' {
            assert(segment.subrange(i, i + 2) =~= ".."@);
        }
    }
}

/// How many fetches are made where these answers would come one after the other.
pub open spec fn fetches_made(fetch: UpstreamFetch, answers: Seq<Option<u16>>) -> nat
    decreases answers.len(),
{
    if answers.len() == 0 {
        0
    } else if fetch_action(fetch, answers[0]) == FetchAction::Refresh {
        1 + fetches_made(UpstreamFetch { refreshed: true }, answers.skip(1))
    } else {
        1
    }
}

/// The token is refreshed once at most, so an upstream playlist is fetched twice
/// at most, and a second time only where the first answer was a refusal.
pub proof fn law_one_refresh_per_request(answers: Seq<Option<u16>>)
    ensures
        fetches_made(UpstreamFetch { refreshed: false }, answers) <= 2,
        fetches_made(UpstreamFetch { refreshed: false }, answers) == 2 ==> answers[0] == Some(
            403u16,
        ),
        forall|status: Option<u16>|
            #[trigger] fetch_action(UpstreamFetch { refreshed: true }, status)
                != FetchAction::Refresh,
{
    reveal_with_fuel(fetches_made, 3);
}

/// The address for a quality names the quality right before the playlist.
pub proof fn law_quality_stands_before_playlist(url: Seq<char>, quality: Seq<char>, i: int)
    requires
        first_position(url, "playlist.m3u8"@) == Some(i),
    ensures
        occurs_at(quality_url(url, quality), quality + "/playlist.m3u8"@, i),
        quality_url(url, quality).take(i) == url.take(i),
        quality_url(url, quality).skip(i + quality.len() + 1) == url.skip(i),
{
    reveal_strlit("/");
    reveal_strlit("playlist.m3u8");
    reveal_strlit("/playlist.m3u8");
    lemma_find_from(url, "playlist.m3u8"@, 0);
    let made = quality_url(url, quality);
    let p = quality + "/playlist.m3u8"@;
    assert(url.skip(i).take(13) =~= "playlist.m3u8"@) by {
        assert(url.subrange(i, i + 13) == "playlist.m3u8"@);
        assert(url.skip(i).take(13) =~= url.subrange(i, i + 13));
    }
    assert("/playlist.m3u8"@ =~= "/"@ + "playlist.m3u8"@);
    assert forall|k: int| 0 <= k < p.len() implies made.subrange(i, i + p.len())[k] == p[k] by {
        if k > quality.len() {
            assert(made[i + k] == url.skip(i)[k - quality.len() - 1]);
            assert(url.skip(i).take(13)[k - quality.len() - 1] == "playlist.m3u8"@[k
                - quality.len() - 1]);
        }
    }
    assert(made.subrange(i, i + p.len()) =~= p);
    assert(made.take(i) =~= url.take(i));
    assert(made.skip(i + quality.len() + 1) =~= url.skip(i));
}

} // verus!
