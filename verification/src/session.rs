//! The sessions in which channels are remuxed: how `ffmpeg` is called, when its
//! output is ready, what its progress reports count, and when a session ends.

use crate::clock::{is_clock_time, now, Timestamp};
use crate::metrics::{congruent, is_lifetime, Metrics};
use crate::outside::{
    entries, insert_session, lists, lookup_session, new_sessions, remove_session, session_present,
    sessions_of,
};
use crate::rewriter::{is_markup, is_markup_line, is_media_line, names_media};
use crate::text::{
    begins_with, char_from, chars_of, decimal, decimal_text, join_path, lemma_text_at, lines,
    lines_of, parse_unsigned, part, path_in, position_of_char, same, signed_decimal, signed_decimal_text,
    starts_with, texts, trim, trim_end, trimmed, unsigned_of, without_trailing_white,
};
use vstd::prelude::*;

verus! {

// ---------------------------------------------------------------------------
// How ffmpeg is called
// ---------------------------------------------------------------------------

/// How the input is opened: reconnecting where the connection breaks, with
/// timestamps put right.
pub open spec fn input_args(upstream: Seq<char>) -> Seq<Seq<char>> {
    seq![
        "-y"@,
        "-protocol_whitelist"@,
        "file,crypto,data,https,http,tcp,tls"@,
        "-reconnect"@,
        "1"@,
        "-reconnect_streamed"@,
        "1"@,
        "-reconnect_on_network_error"@,
        "1"@,
        "-reconnect_delay_max"@,
        "2"@,
        "-fflags"@,
        "+genpts+discardcorrupt+igndts"@,
        "-avoid_negative_ts"@,
        "make_zero"@,
        "-allowed_extensions"@,
        "ALL"@,
        "-i"@,
        upstream,
    ]
}

/// How segments are written: fragments of MP4 with an initialisation file, or
/// MPEG-TS.
pub open spec fn container_args(dir: Seq<char>, fmp4: bool) -> Seq<Seq<char>> {
    if fmp4 {
        seq![
            "-bsf:a"@,
            "aac_adtstoasc"@,
            "-hls_segment_type"@,
            "fmp4"@,
            "-hls_fmp4_init_filename"@,
            "init.mp4"@,
            "-hls_segment_filename"@,
            path_in(dir, "seg_%05d.m4s"@),
        ]
    } else {
        seq![
            "-hls_segment_type"@,
            "mpegts"@,
            "-hls_segment_filename"@,
            path_in(dir, "seg_%05d.ts"@),
            "-mpegts_flags"@,
            "resend_headers+pat_pmt_at_frames"@,
            "-flush_packets"@,
            "1"@,
        ]
    }
}

/// How streams are encoded: video anew, with key frames where segments begin,
/// or everything as it came.
pub open spec fn codec_args(seg_duration: nat, transcode: bool) -> Seq<Seq<char>> {
    if transcode {
        seq![
            "-c:v"@,
            "libx264"@,
            "-preset"@,
            "veryfast"@,
            "-tune"@,
            "zerolatency"@,
            "-x264-params"@,
            "scenecut=0:open_gop=0:keyint="@ + decimal(seg_duration * 60) + ":min-keyint="@
                + decimal(seg_duration * 60),
            "-g"@,
            decimal(seg_duration * 60),
            "-profile:v"@,
            "main"@,
            "-level:v"@,
            "4.0"@,
            "-pix_fmt"@,
            "yuv420p"@,
            "-force_key_frames"@,
            "expr:gte(t,n_forced*"@ + decimal(seg_duration) + ")"@,
            "-c:a"@,
            "copy"@,
        ]
    } else {
        seq!["-c"@, "copy"@]
    }
}

/// How the playlist is written, and that progress is reported.
pub open spec fn output_args(
    dir: Seq<char>,
    seg_duration: nat,
    playlist_size: nat,
    fmp4: bool,
) -> Seq<Seq<char>> {
    seq![
        "-f"@,
        "hls"@,
        "-hls_time"@,
        decimal(seg_duration),
        "-hls_list_size"@,
        decimal(playlist_size),
        "-hls_init_time"@,
        if fmp4 {
            decimal(seg_duration)
        } else {
            "0"@
        },
        "-hls_flags"@,
        "append_list+omit_endlist+delete_segments+program_date_time+independent_segments+temp_file+discont_start"@,
        "-muxdelay"@,
        "0"@,
        "-muxpreload"@,
        "0"@,
        "-max_interleave_delta"@,
        "0"@,
        "-hls_delete_threshold"@,
        "1"@,
        "-nostats"@,
        "-loglevel"@,
        "info"@,
        "-progress"@,
        "pipe:1"@,
        path_in(dir, "out.m3u8"@),
    ]
}

/// The arguments that `ffmpeg` is called with.
pub open spec fn ffmpeg_command(
    upstream: Seq<char>,
    dir: Seq<char>,
    seg_duration: nat,
    playlist_size: nat,
    transcode: bool,
    fmp4: bool,
) -> Seq<Seq<char>> {
    input_args(upstream) + container_args(dir, fmp4) + codec_args(seg_duration, transcode)
        + output_args(dir, seg_duration, playlist_size, fmp4)
}

/// An argument is added.
fn push_arg(args: &mut Vec<String>, a: &str)
    ensures
        texts(final(args)@) == texts(old(args)@).push(a@),
{
    let s = a.to_owned();
    args.push(s);
    assert(texts(args@) =~= texts(old(args)@).push(a@));
}

/// Two arguments are added.
fn push_args(args: &mut Vec<String>, a: &str, b: &str)
    ensures
        texts(final(args)@) == texts(old(args)@).push(a@).push(b@),
{
    push_arg(args, a);
    push_arg(args, b);
}

/// How the input is opened.
fn add_input_args(args: &mut Vec<String>, upstream: &str)
    ensures
        texts(final(args)@) == texts(old(args)@) + input_args(upstream@),
{
    push_arg(args, "-y");
    push_args(args, "-protocol_whitelist", "file,crypto,data,https,http,tcp,tls");
    push_args(args, "-reconnect", "1");
    push_args(args, "-reconnect_streamed", "1");
    push_args(args, "-reconnect_on_network_error", "1");
    push_args(args, "-reconnect_delay_max", "2");
    push_args(args, "-fflags", "+genpts+discardcorrupt+igndts");
    push_args(args, "-avoid_negative_ts", "make_zero");
    push_args(args, "-allowed_extensions", "ALL");
    push_args(args, "-i", upstream);
    assert(texts(args@) =~= texts(old(args)@) + input_args(upstream@));
}

/// How segments are written.
fn add_container_args(args: &mut Vec<String>, dir: &str, fmp4: bool)
    ensures
        texts(final(args)@) == texts(old(args)@) + container_args(dir@, fmp4),
{
    if fmp4 {
        push_args(args, "-bsf:a", "aac_adtstoasc");
        push_args(args, "-hls_segment_type", "fmp4");
        push_args(args, "-hls_fmp4_init_filename", "init.mp4");
        push_args(args, "-hls_segment_filename", join_path(dir, "seg_%05d.m4s").as_str());
    } else {
        push_args(args, "-hls_segment_type", "mpegts");
        push_args(args, "-hls_segment_filename", join_path(dir, "seg_%05d.ts").as_str());
        push_args(args, "-mpegts_flags", "resend_headers+pat_pmt_at_frames");
        push_args(args, "-flush_packets", "1");
    }
    assert(texts(args@) =~= texts(old(args)@) + container_args(dir@, fmp4));
}

/// How streams are encoded.
fn add_codec_args(args: &mut Vec<String>, seg_duration: u32, transcode: bool)
    requires
        transcode ==> seg_duration * 60 <= u32::MAX,
    ensures
        texts(final(args)@) == texts(old(args)@) + codec_args(seg_duration as nat, transcode),
{
    if transcode {
        let interval = decimal_text((seg_duration * 60) as u64);
        let mut params = "scenecut=0:open_gop=0:keyint=".to_owned();
        params.append(interval.as_str());
        params.append(":min-keyint=");
        params.append(interval.as_str());
        let mut frames = "expr:gte(t,n_forced*".to_owned();
        frames.append(decimal_text(seg_duration as u64).as_str());
        frames.append(")");
        push_args(args, "-c:v", "libx264");
        push_args(args, "-preset", "veryfast");
        push_args(args, "-tune", "zerolatency");
        push_args(args, "-x264-params", params.as_str());
        push_args(args, "-g", interval.as_str());
        push_args(args, "-profile:v", "main");
        push_args(args, "-level:v", "4.0");
        push_args(args, "-pix_fmt", "yuv420p");
        push_args(args, "-force_key_frames", frames.as_str());
        push_args(args, "-c:a", "copy");
    } else {
        push_args(args, "-c", "copy");
    }
    assert(texts(args@) =~= texts(old(args)@) + codec_args(seg_duration as nat, transcode));
}

/// How the playlist is written, and that progress is reported.
fn add_output_args(
    args: &mut Vec<String>,
    dir: &str,
    seg_duration: u32,
    playlist_size: u32,
    fmp4: bool,
)
    ensures
        texts(final(args)@) == texts(old(args)@) + output_args(
            dir@,
            seg_duration as nat,
            playlist_size as nat,
            fmp4,
        ),
{
    let duration = decimal_text(seg_duration as u64);
    push_args(args, "-f", "hls");
    push_args(args, "-hls_time", duration.as_str());
    push_args(args, "-hls_list_size", decimal_text(playlist_size as u64).as_str());
    push_args(
        args,
        "-hls_init_time",
        if fmp4 {
            duration.as_str()
        } else {
            "0"
        },
    );
    push_args(
        args,
        "-hls_flags",
        "append_list+omit_endlist+delete_segments+program_date_time+independent_segments+temp_file+discont_start",
    );
    push_args(args, "-muxdelay", "0");
    push_args(args, "-muxpreload", "0");
    push_args(args, "-max_interleave_delta", "0");
    push_args(args, "-hls_delete_threshold", "1");
    push_arg(args, "-nostats");
    push_args(args, "-loglevel", "info");
    push_args(args, "-progress", "pipe:1");
    push_arg(args, join_path(dir, "out.m3u8").as_str());
    assert(texts(args@) =~= texts(old(args)@) + output_args(
        dir@,
        seg_duration as nat,
        playlist_size as nat,
        fmp4,
    ));
}

/// The arguments that `ffmpeg` is called with.
pub fn ffmpeg_args(
    upstream: &str,
    dir: &str,
    seg_duration: u32,
    playlist_size: u32,
    transcode: bool,
    fmp4: bool,
) -> (res: Vec<String>)
    requires
        transcode ==> seg_duration * 60 <= u32::MAX,
    ensures
        texts(res@) == ffmpeg_command(
            upstream@,
            dir@,
            seg_duration as nat,
            playlist_size as nat,
            transcode,
            fmp4,
        ),
{
    let mut args: Vec<String> = Vec::new();
    assert(texts(args@) =~= seq![]);
    add_input_args(&mut args, upstream);
    add_container_args(&mut args, dir, fmp4);
    add_codec_args(&mut args, seg_duration, transcode);
    add_output_args(&mut args, dir, seg_duration, playlist_size, fmp4);
    assert(texts(args@) =~= ffmpeg_command(
        upstream@,
        dir@,
        seg_duration as nat,
        playlist_size as nat,
        transcode,
        fmp4,
    ));
    args
}

// ---------------------------------------------------------------------------
// When the output is ready
// ---------------------------------------------------------------------------

/// A line that names a segment.
pub open spec fn is_segment_line(line: Seq<char>) -> bool {
    !is_markup(line) && names_media(line)
}

/// The first line at `i` or later that names a segment, or the number of lines
/// where none does.
pub open spec fn segment_line_from(ls: Seq<Seq<char>>, i: int) -> int
    decreases ls.len() - i,
{
    if i < 0 || i >= ls.len() {
        ls.len() as int
    } else if is_segment_line(ls[i]) {
        i
    } else {
        segment_line_from(ls, i + 1)
    }
}

/// The name of the first segment of a playlist.
pub open spec fn first_segment(text: Seq<char>) -> Option<Seq<char>> {
    let ls = lines_of(text);
    let at = segment_line_from(ls, 0);
    if at < ls.len() {
        Some(trimmed(ls[at]))
    } else {
        None
    }
}

/// A map line comes before the first segment of a playlist.
pub open spec fn has_map_line(text: Seq<char>) -> bool {
    let ls = lines_of(text);
    exists|i: int|
        0 <= i < segment_line_from(ls, 0) && begins_with(#[trigger] ls[i], "#EXT-X-MAP:"@)
}

/// What a playlist names: whether it has a map line, and its first segment.
#[derive(Debug)]
pub struct PlaylistScan {
    pub has_map: bool,
    pub first_segment: Option<String>,
}

/// What a playlist names.
pub fn scan_playlist(text: &str) -> (res: PlaylistScan)
    ensures
        res.has_map == has_map_line(text@),
        match res.first_segment {
            Some(name) => first_segment(text@) == Some(name@),
            None => first_segment(text@) is None,
        },
{
    let ls = lines(text);
    let ghost all = lines_of(text@);
    let mut has_map: bool = false;
    let mut i: usize = 0;
    while i < ls.len()
        invariant
            i <= ls.len(),
            texts(ls@) == all,
            all == lines_of(text@),
            segment_line_from(all, 0) == segment_line_from(all, i as int),
            has_map == exists|k: int|
                0 <= k < i && begins_with(#[trigger] all[k], "#EXT-X-MAP:"@),
            forall|k: int| 0 <= k < i ==> !is_segment_line(#[trigger] all[k]),
        decreases ls.len() - i,
    {
        proof {
            lemma_text_at(ls@, i as int);
        }
        if !is_markup_line(ls[i].as_str()) && is_media_line(ls[i].as_str()) {
            assert(segment_line_from(all, i as int) == i);
            return PlaylistScan { has_map, first_segment: Some(trim(ls[i].as_str())) };
        }
        if starts_with(ls[i].as_str(), "#EXT-X-MAP:") {
            has_map = true;
        }
        i += 1;
    }
    PlaylistScan { has_map, first_segment: None }
}

/// The output can be served: the first segment is there with something in it,
/// and where segments are fragments, so is the initialisation file, which the
/// playlist names.
pub open spec fn is_ready(
    fmp4: bool,
    has_map: bool,
    init_size: Option<u64>,
    segment_size: Option<u64>,
) -> bool {
    let has_init = init_size matches Some(n) && n > 0;
    let has_segment = segment_size matches Some(n) && n > 0;
    has_segment && (fmp4 ==> has_map && has_init)
}

/// Whether a file is there with something in it.
fn has_content(size: Option<u64>) -> (res: bool)
    ensures
        res == (size matches Some(n) && n > 0),
{
    match size {
        Some(n) => n > 0,
        None => false,
    }
}

/// Whether the output can be served, given the sizes of the initialisation file
/// and of the first segment where they are there.
pub fn output_ready(
    fmp4: bool,
    scan: &PlaylistScan,
    init_size: Option<u64>,
    segment_size: Option<u64>,
) -> (res: bool)
    ensures
        res == is_ready(
            fmp4,
            scan.has_map,
            init_size,
            if scan.first_segment is Some {
                segment_size
            } else {
                None
            },
        ),
{
    let segment_ok = scan.first_segment.is_some() && has_content(segment_size);
    if fmp4 {
        scan.has_map && has_content(init_size) && segment_ok
    } else {
        segment_ok
    }
}

// ---------------------------------------------------------------------------
// The wait for the output
// ---------------------------------------------------------------------------

/// What comes up while the output is waited for.
#[derive(Debug)]
pub enum StartEvent {
    /// The time is up.
    Timeout,
    /// `ffmpeg` could not be waited for.
    WaitFailed(String),
    /// `ffmpeg` ended, with this code if it has one.
    Exited(Option<i32>),
    /// No more changes will be reported.
    WatcherClosed,
    /// Files of these names were created or changed, or something else happened
    /// to them.
    Changed { written: bool, names: Vec<String> },
}

/// What is done about it.
#[derive(Debug)]
pub enum StartAction {
    /// Give up, with this message.
    Fail(String),
    /// Read the playlist, and look at the files that it names.
    Inspect,
    /// Wait on.
    Wait,
}

/// How long changes in a channel's directory are watched for, in seconds.
pub const WATCH_SECS: u64 = 15;

/// How often idle sessions are looked for: the seconds between two collections.
pub const COLLECTION_PERIOD_SECS: u64 = 1;

/// How long the output is waited for, in seconds.
pub const START_TIMEOUT_SECS: u64 = 10;

/// The notation of an exit code that may be missing.
pub open spec fn exit_code_notation(code: Option<i32>) -> Seq<char> {
    match code {
        Some(n) => "Some("@ + signed_decimal(n as int) + ")"@,
        None => "None"@,
    }
}

/// The notation of an exit code that may be missing.
fn exit_code_text(code: Option<i32>) -> (res: String)
    ensures
        res@ == exit_code_notation(code),
{
    match code {
        Some(n) => {
            let mut res = "Some(".to_owned();
            res.append(signed_decimal_text(n).as_str());
            res.append(")");
            res
        },
        None => "None".to_owned(),
    }
}

/// One of the names is this one.
pub open spec fn has_name(names: Seq<String>, name: Seq<char>) -> bool {
    exists|i: int| 0 <= i < names.len() && (#[trigger] names[i])@ == name
}

/// Whether one of the names is this one.
fn mentions(names: &Vec<String>, name: &str) -> (res: bool)
    ensures
        res == has_name(names@, name@),
{
    let mut i: usize = 0;
    while i < names.len()
        invariant
            i <= names.len(),
            forall|k: int| 0 <= k < i ==> (#[trigger] names@[k])@ != name@,
        decreases names.len() - i,
    {
        if same(names[i].as_str(), name) {
            return true;
        }
        i += 1;
    }
    false
}

/// What is done about an event, where the playlist is `output`.
pub open spec fn is_start_action(
    action: StartAction,
    event: StartEvent,
    output: Seq<char>,
) -> bool {
    match event {
        StartEvent::Timeout => action matches StartAction::Fail(m) && m@
            == "ffmpeg failed: playlist creation timeout (10s) for "@ + output,
        StartEvent::WaitFailed(e) => action == StartAction::Fail(e),
        StartEvent::Exited(code) => action matches StartAction::Fail(m) && m@
            == "ffmpeg exited before playlist creation: "@ + exit_code_notation(code),
        StartEvent::WatcherClosed => action matches StartAction::Fail(m) && m@
            == "watcher closed before playlist creation: "@ + output,
        StartEvent::Changed { written, names } => if written && has_name(names@, "out.m3u8"@) {
            action is Inspect
        } else {
            action is Wait
        },
    }
}

/// What is done about an event, where the playlist is `output`.
pub fn start_action(event: StartEvent, output: &str) -> (res: StartAction)
    ensures
        is_start_action(res, event, output@),
{
    match event {
        StartEvent::Timeout => {
            let mut m = "ffmpeg failed: playlist creation timeout (10s) for ".to_owned();
            m.append(output);
            StartAction::Fail(m)
        },
        StartEvent::WaitFailed(e) => StartAction::Fail(e),
        StartEvent::Exited(code) => {
            let mut m = "ffmpeg exited before playlist creation: ".to_owned();
            m.append(exit_code_text(code).as_str());
            StartAction::Fail(m)
        },
        StartEvent::WatcherClosed => {
            let mut m = "watcher closed before playlist creation: ".to_owned();
            m.append(output);
            StartAction::Fail(m)
        },
        StartEvent::Changed { written, names } => {
            if written && mentions(&names, "out.m3u8") {
                StartAction::Inspect
            } else {
                StartAction::Wait
            }
        },
    }
}

// ---------------------------------------------------------------------------
// What progress reports count
// ---------------------------------------------------------------------------

/// Counts of frames.
#[derive(Debug, Clone, Copy, PartialEq, Eq, Structural)]
pub struct FrameCounts {
    pub dup: u64,
    pub drop: u64,
    pub frame: u64,
}

/// What was read of the progress that `ffmpeg` reports: the values that came
/// last, and the counts that were taken over at the end of the last report.
#[derive(Debug, Clone, Copy, PartialEq, Eq, Structural)]
pub struct ProgressTracker {
    pub time_ms: Option<u64>,
    pub current: FrameCounts,
    pub last: FrameCounts,
}

/// What a report adds: the time that was streamed, and how much each count grew.
/// A count that fell adds nothing.
#[derive(Debug, Clone, Copy, PartialEq, Eq, Structural)]
pub struct ProgressReport {
    pub time_ms: Option<u64>,
    pub dup: Option<u64>,
    pub drop: Option<u64>,
    pub frame: Option<u64>,
}

/// How much a count grew, or nothing where it fell.
pub open spec fn growth(last: u64, current: u64) -> Option<u64> {
    if current >= last {
        Some((current - last) as u64)
    } else {
        None
    }
}

/// A value, or the old one where the text denotes none.
pub open spec fn read_or(text: Seq<char>, before: u64) -> u64 {
    match unsigned_of(text) {
        Some(n) => n,
        None => before,
    }
}

/// The name and the value in a line of progress: what stands before and behind
/// the first equals sign, without the white space at the line's end.
pub open spec fn name_and_value(line: Seq<char>) -> Option<(Seq<char>, Seq<char>)> {
    let t = without_trailing_white(line);
    match char_from(t, '=', 0) {
        Some(i) => Some((t.take(i), t.skip(i + 1))),
        None => None,
    }
}

/// What is known after a name and its value were read.
pub open spec fn after_value(
    t: ProgressTracker,
    name: Seq<char>,
    value: Seq<char>,
) -> ProgressTracker {
    if name == "out_time_ms"@ {
        ProgressTracker {
            time_ms: match unsigned_of(value) {
                Some(n) => Some(n),
                None => t.time_ms,
            },
            ..t
        }
    } else if name == "dup_frames"@ {
        ProgressTracker {
            current: FrameCounts { dup: read_or(value, t.current.dup), ..t.current },
            ..t
        }
    } else if name == "drop_frames"@ {
        ProgressTracker {
            current: FrameCounts { drop: read_or(value, t.current.drop), ..t.current },
            ..t
        }
    } else if name == "frame"@ {
        ProgressTracker {
            current: FrameCounts { frame: read_or(value, t.current.frame), ..t.current },
            ..t
        }
    } else if name == "progress"@ && value == "continue"@ {
        ProgressTracker { last: t.current, ..t }
    } else {
        t
    }
}

/// What is known after a line of progress was read.
pub open spec fn after_line(t: ProgressTracker, line: Seq<char>) -> ProgressTracker {
    match name_and_value(line) {
        Some((name, value)) => after_value(t, name, value),
        None => t,
    }
}

/// A line of progress ends a report, and more will come.
pub open spec fn ends_report(line: Seq<char>) -> bool {
    name_and_value(line) == Some(("progress"@, "continue"@))
}

/// What a line of progress adds.
pub open spec fn report_of(t: ProgressTracker, line: Seq<char>) -> Option<ProgressReport> {
    if ends_report(line) {
        Some(
            ProgressReport {
                time_ms: t.time_ms,
                dup: growth(t.last.dup, t.current.dup),
                drop: growth(t.last.drop, t.current.drop),
                frame: growth(t.last.frame, t.current.frame),
            },
        )
    } else {
        None
    }
}

/// The name that ends a report is none of the others.
proof fn lemma_progress_is_no_count()
    ensures
        "progress"@ != "out_time_ms"@,
        "progress"@ != "dup_frames"@,
        "progress"@ != "drop_frames"@,
        "progress"@ != "frame"@,
{
    reveal_strlit("progress");
    reveal_strlit("out_time_ms");
    reveal_strlit("dup_frames");
    reveal_strlit("drop_frames");
    reveal_strlit("frame");
    assert("progress"@.len() == 8 && "out_time_ms"@.len() == 11 && "dup_frames"@.len() == 10
        && "drop_frames"@.len() == 11 && "frame"@.len() == 5);
}

/// How much a count grew.
fn growth_of(last: u64, current: u64) -> (res: Option<u64>)
    ensures
        res == growth(last, current),
{
    if current >= last {
        Some(current - last)
    } else {
        None
    }
}

impl ProgressTracker {
    /// Nothing was read yet.
    pub fn new() -> (res: Self)
        ensures
            res == (ProgressTracker {
                time_ms: None,
                current: FrameCounts { dup: 0, drop: 0, frame: 0 },
                last: FrameCounts { dup: 0, drop: 0, frame: 0 },
            }),
    {
        ProgressTracker {
            time_ms: None,
            current: FrameCounts { dup: 0, drop: 0, frame: 0 },
            last: FrameCounts { dup: 0, drop: 0, frame: 0 },
        }
    }

    /// A name and its value were read.
    fn on_value(&mut self, name: &str, value: &str) -> (res: Option<ProgressReport>)
        ensures
            *final(self) == after_value(*old(self), name@, value@),
            res == (if name@ == "progress"@ && value@ == "continue"@ {
                Some(
                    ProgressReport {
                        time_ms: old(self).time_ms,
                        dup: growth(old(self).last.dup, old(self).current.dup),
                        drop: growth(old(self).last.drop, old(self).current.drop),
                        frame: growth(old(self).last.frame, old(self).current.frame),
                    },
                )
            } else {
                None
            }),
    {
        proof {
            lemma_progress_is_no_count();
        }
        let number = parse_unsigned(value);
        if same(name, "out_time_ms") {
            if number.is_some() {
                self.time_ms = number;
            }
        } else if same(name, "dup_frames") {
            if let Some(n) = number {
                self.current.dup = n;
            }
        } else if same(name, "drop_frames") {
            if let Some(n) = number {
                self.current.drop = n;
            }
        } else if same(name, "frame") {
            if let Some(n) = number {
                self.current.frame = n;
            }
        } else if same(name, "progress") && same(value, "continue") {
            let report = ProgressReport {
                time_ms: self.time_ms,
                dup: growth_of(self.last.dup, self.current.dup),
                drop: growth_of(self.last.drop, self.current.drop),
                frame: growth_of(self.last.frame, self.current.frame),
            };
            self.last = self.current;
            return Some(report);
        }
        None
    }

    /// A line of progress was read. What it adds is handed out at the end of each
    /// report.
    pub fn on_line(&mut self, line: &str) -> (res: Option<ProgressReport>)
        ensures
            *final(self) == after_line(*old(self), line@),
            res == report_of(*old(self), line@),
    {
        let cs = chars_of(trim_end(line).as_str());
        match position_of_char(&cs, '=', 0) {
            Some(i) => {
                let n: usize = cs.len();
                let name = part(&cs, 0, i);
                let value = part(&cs, i + 1, n);
                assert(name@ =~= cs@.take(i as int));
                assert(value@ =~= cs@.skip(i + 1));
                self.on_value(name.as_str(), value.as_str())
            },
            None => None,
        }
    }
}

/// What is known after these lines were read.
pub open spec fn after_lines(t: ProgressTracker, ls: Seq<Seq<char>>) -> ProgressTracker
    decreases ls.len(),
{
    if ls.len() == 0 {
        t
    } else {
        after_line(after_lines(t, ls.drop_last()), ls.last())
    }
}

/// What the growth of a count adds to its total.
pub open spec fn added(growth: Option<u64>) -> int {
    match growth {
        Some(n) => n as int,
        None => 0,
    }
}

/// What these lines add to the three totals.
pub open spec fn counted(t: ProgressTracker, ls: Seq<Seq<char>>) -> (int, int, int)
    decreases ls.len(),
{
    if ls.len() == 0 {
        (0, 0, 0)
    } else {
        let before = counted(t, ls.drop_last());
        match report_of(after_lines(t, ls.drop_last()), ls.last()) {
            Some(r) => (
                before.0 + added(r.dup),
                before.1 + added(r.drop),
                before.2 + added(r.frame),
            ),
            None => before,
        }
    }
}

/// How far a count fell.
pub open spec fn fall(last: u64, current: u64) -> int {
    if current < last {
        last - current
    } else {
        0
    }
}

/// How far the three counts fell over these lines, from report to report.
pub open spec fn fallen(t: ProgressTracker, ls: Seq<Seq<char>>) -> (int, int, int)
    decreases ls.len(),
{
    if ls.len() == 0 {
        (0, 0, 0)
    } else {
        let before = fallen(t, ls.drop_last());
        let at = after_lines(t, ls.drop_last());
        if ends_report(ls.last()) {
            (
                before.0 + fall(at.last.dup, at.current.dup),
                before.1 + fall(at.last.drop, at.current.drop),
                before.2 + fall(at.last.frame, at.current.frame),
            )
        } else {
            before
        }
    }
}

/// What the totals gain over any course of progress is what the reported counts
/// gained, but for what they fell. Where no count ever falls from report to
/// report, the totals follow the counts.
pub proof fn law_totals_follow_reports(t: ProgressTracker, ls: Seq<Seq<char>>)
    ensures
        counted(t, ls).0 - fallen(t, ls).0 == after_lines(t, ls).last.dup - t.last.dup,
        counted(t, ls).1 - fallen(t, ls).1 == after_lines(t, ls).last.drop - t.last.drop,
        counted(t, ls).2 - fallen(t, ls).2 == after_lines(t, ls).last.frame - t.last.frame,
        counted(t, ls).0 >= 0 && counted(t, ls).1 >= 0 && counted(t, ls).2 >= 0,
        fallen(t, ls).0 >= 0 && fallen(t, ls).1 >= 0 && fallen(t, ls).2 >= 0,
    decreases ls.len(),
{
    lemma_progress_is_no_count();
    if ls.len() > 0 {
        law_totals_follow_reports(t, ls.drop_last());
        let at = after_lines(t, ls.drop_last());
        if ends_report(ls.last()) {
            assert(after_lines(t, ls) == ProgressTracker { last: at.current, ..at });
        } else {
            assert(after_lines(t, ls).last == at.last);
        }
    }
}

// ---------------------------------------------------------------------------
// How a session is ended
// ---------------------------------------------------------------------------

/// What is done next to end a session.
#[derive(Debug, Clone, Copy, PartialEq, Eq, Structural)]
pub enum QuitStage {
    /// Write the command that ends `ffmpeg` to its input, and close that.
    SendQuit,
    /// Wait for `ffmpeg` to end, but no longer than the timeout.
    AwaitExit,
    /// Kill `ffmpeg`, and wait for it to end.
    Kill,
    /// Remove the session's directory.
    RemoveDir,
    /// Nothing is left to do.
    Finished,
}

/// What came of a stage.
#[derive(Debug, Clone, Copy, PartialEq, Eq, Structural)]
pub enum QuitReport {
    /// It was done, or failed.
    Done,
    /// The time was up.
    TimedOut,
}

/// The command that ends `ffmpeg`.
pub fn quit_command() -> (res: String)
    ensures
        res@ == "q\n"@,
{
    "q\n".to_owned()
}

/// How long `ffmpeg` is waited for, in seconds.
pub const QUIT_TIMEOUT_SECS: u64 = 10;

/// The first stage.
pub open spec fn quit_begin(has_input: bool, has_process: bool) -> QuitStage {
    if has_input {
        QuitStage::SendQuit
    } else if has_process {
        QuitStage::AwaitExit
    } else {
        QuitStage::RemoveDir
    }
}

/// The stage that follows.
pub open spec fn quit_after(stage: QuitStage, report: QuitReport, has_process: bool) -> QuitStage {
    match stage {
        QuitStage::SendQuit => if has_process {
            QuitStage::AwaitExit
        } else {
            QuitStage::RemoveDir
        },
        QuitStage::AwaitExit => match report {
            QuitReport::TimedOut => QuitStage::Kill,
            QuitReport::Done => QuitStage::RemoveDir,
        },
        QuitStage::Kill => QuitStage::RemoveDir,
        QuitStage::RemoveDir => QuitStage::Finished,
        QuitStage::Finished => QuitStage::Finished,
    }
}

/// The first stage, given whether the session still has an input and a process.
pub fn begin_quit(has_input: bool, has_process: bool) -> (res: QuitStage)
    ensures
        res == quit_begin(has_input, has_process),
{
    if has_input {
        QuitStage::SendQuit
    } else if has_process {
        QuitStage::AwaitExit
    } else {
        QuitStage::RemoveDir
    }
}

/// The stage that follows, given what came of this one.
pub fn continue_quit(stage: QuitStage, report: QuitReport, has_process: bool) -> (res: QuitStage)
    ensures
        res == quit_after(stage, report, has_process),
{
    match stage {
        QuitStage::SendQuit => {
            if has_process {
                QuitStage::AwaitExit
            } else {
                QuitStage::RemoveDir
            }
        },
        QuitStage::AwaitExit => match report {
            QuitReport::TimedOut => QuitStage::Kill,
            QuitReport::Done => QuitStage::RemoveDir,
        },
        QuitStage::Kill => QuitStage::RemoveDir,
        QuitStage::RemoveDir => QuitStage::Finished,
        QuitStage::Finished => QuitStage::Finished,
    }
}

/// The stages from one on, until nothing is left to do, where these reports come
/// of them.
pub open spec fn quit_course(
    stage: QuitStage,
    reports: Seq<QuitReport>,
    has_process: bool,
) -> Seq<QuitStage>
    decreases reports.len(),
{
    if stage == QuitStage::Finished || reports.len() == 0 {
        seq![stage]
    } else {
        seq![stage] + quit_course(
            quit_after(stage, reports[0], has_process),
            reports.skip(1),
            has_process,
        )
    }
}

/// A session's end comes after four stages at most, whatever comes of them: the
/// last of them removes its directory, and `ffmpeg` is killed only after the wait
/// for it timed out.
pub proof fn law_quit_ends_with_directory_removed(
    has_input: bool,
    has_process: bool,
    reports: Seq<QuitReport>,
)
    requires
        reports.len() >= 4,
    ensures
        ({
            let course = quit_course(quit_begin(has_input, has_process), reports, has_process);
            &&& 2 <= course.len() <= 5
            &&& course.last() == QuitStage::Finished
            &&& course[course.len() - 2] == QuitStage::RemoveDir
            &&& forall|i: int|
                0 <= i < course.len() && #[trigger] course[i] == QuitStage::Kill ==> i > 0
                    && course[i - 1] == QuitStage::AwaitExit && reports[i - 1]
                    == QuitReport::TimedOut
            &&& has_process ==> course.contains(QuitStage::AwaitExit)
        }),
{
    reveal_with_fuel(quit_course, 5);
    let course = quit_course(quit_begin(has_input, has_process), reports, has_process);
    assert(course.len() >= 2);
    if has_process {
        if has_input {
            assert(course[1] == QuitStage::AwaitExit);
        } else {
            assert(course[0] == QuitStage::AwaitExit);
        }
    }
}

// ---------------------------------------------------------------------------
// Sessions
// ---------------------------------------------------------------------------

/// A channel that is being remuxed: the directory that it is written to, when it
/// was last asked for, when it began, and the channel's name.
#[derive(Debug)]
pub struct FfmpegSession {
    pub dir: String,
    pub last_access: Timestamp,
    pub created_at: Timestamp,
    pub channel_name: String,
}

impl Clone for FfmpegSession {
    fn clone(&self) -> (res: Self)
        ensures
            res == *self,
    {
        FfmpegSession {
            dir: self.dir.clone(),
            last_access: self.last_access,
            created_at: self.created_at,
            channel_name: self.channel_name.clone(),
        }
    }
}

impl FfmpegSession {
    /// The session was asked for at this time.
    pub fn touch_at(&mut self, time: Timestamp)
        ensures
            *final(self) == (FfmpegSession { last_access: time, ..*old(self) }),
    {
        self.last_access = time;
    }

    /// The session is asked for now: the time of its last access becomes what the
    /// clock shows, and nothing else changes.
    pub fn touch(&mut self)
        ensures
            is_clock_time(final(self).last_access),
            *final(self) == (FfmpegSession {
                last_access: final(self).last_access,
                ..*old(self)
            }),
    {
        self.touch_at(now());
    }
}

/// A session was not asked for in longer than the idle time. One that was asked
/// for later than now, by the clock, is not idle.
pub open spec fn is_idle(session: FfmpegSession, time: Timestamp, idle: u128) -> bool {
    time.nanos - session.last_access.nanos > idle
}

/// The sessions and how they are made.
#[verifier::ext_equal]
pub struct ManagerModel {
    pub sessions: Map<usize, FfmpegSession>,
    pub stream_dir: Seq<char>,
    pub session_idle: u128,
    pub hls_segment_duration: u32,
    pub hls_playlist_size: u32,
    pub metrics: Metrics,
    pub transcode: bool,
    pub fmp4: bool,
}

impl ManagerModel {
    /// The active sessions are counted right.
    pub open spec fn is_tallied(self) -> bool {
        &&& self.sessions.dom().finite()
        &&& self.metrics.active_sessions == self.sessions.dom().len()
    }

    /// Every session is written to its channel's own directory.
    pub open spec fn has_own_dirs(self) -> bool {
        forall|id: usize| #[trigger]
            self.sessions.contains_key(id) ==> self.sessions[id].dir@ == session_dir(
                self.stream_dir,
                id,
            )
    }

    /// Without the session of a channel.
    pub open spec fn without_session(self, id: usize) -> ManagerModel {
        ManagerModel { sessions: self.sessions.remove(id), ..self }
    }

    /// With the end of a session counted.
    pub open spec fn with_end(self) -> ManagerModel {
        ManagerModel { metrics: self.metrics.after_removed(), ..self }
    }
}

/// The sessions, by channel.
pub struct SessionManager {
    sessions: dashmap::DashMap<usize, FfmpegSession>,
    stream_dir: String,
    session_idle: u128,
    hls_segment_duration: u32,
    hls_playlist_size: u32,
    metrics: Metrics,
    transcode: bool,
    fmp4: bool,
}

impl View for SessionManager {
    type V = ManagerModel;

    closed spec fn view(&self) -> ManagerModel {
        ManagerModel {
            sessions: sessions_of(self.sessions),
            stream_dir: self.stream_dir@,
            session_idle: self.session_idle,
            hls_segment_duration: self.hls_segment_duration,
            hls_playlist_size: self.hls_playlist_size,
            metrics: self.metrics,
            transcode: self.transcode,
            fmp4: self.fmp4,
        }
    }
}

/// The name of a channel's directory.
pub open spec fn session_dir(stream_dir: Seq<char>, id: usize) -> Seq<char> {
    path_in(stream_dir, "ch_"@ + decimal(id as nat))
}

/// What is done for a channel to be remuxed.
#[derive(Debug)]
pub enum EnsureStep {
    /// It is being remuxed already.
    Running,
    /// Make the directory, call `ffmpeg` with these arguments, and wait for the
    /// playlist.
    Launch { dir: String, output: String, args: Vec<String> },
}

/// What is done for a channel to be remuxed from `upstream`.
pub open spec fn is_ensure_step(
    step: EnsureStep,
    m: ManagerModel,
    id: usize,
    upstream: Seq<char>,
) -> bool {
    if m.sessions.contains_key(id) {
        step is Running
    } else {
        &&& step matches EnsureStep::Launch { dir, output, args }
        &&& dir@ == session_dir(m.stream_dir, id)
        &&& output@ == path_in(dir@, "out.m3u8"@)
        &&& texts(args@) == ffmpeg_command(
            upstream,
            dir@,
            m.hls_segment_duration as nat,
            m.hls_playlist_size as nat,
            m.transcode,
            m.fmp4,
        )
    }
}

impl SessionManager {
    /// No sessions yet. An idle session is kept for `session_idle` nanoseconds.
    /// Streams are transcoded into MPEG-TS unless set otherwise.
    pub fn new(
        stream_dir: String,
        session_idle: u128,
        hls_segment_duration: u32,
        hls_playlist_size: u32,
        metrics: Metrics,
    ) -> (res: Self)
        ensures
            res@ == (ManagerModel {
                sessions: Map::empty(),
                stream_dir: stream_dir@,
                session_idle,
                hls_segment_duration,
                hls_playlist_size,
                metrics,
                transcode: true,
                fmp4: false,
            }),
            metrics.active_sessions == 0 ==> res@.is_tallied(),
            res@.has_own_dirs(),
    {
        SessionManager {
            sessions: new_sessions(),
            stream_dir,
            session_idle,
            hls_segment_duration,
            hls_playlist_size,
            metrics,
            transcode: true,
            fmp4: false,
        }
    }

    /// Whether streams are transcoded is set.
    pub fn with_transcode(self, transcode: bool) -> (res: Self)
        ensures
            res@ == (ManagerModel { transcode, ..self@ }),
    {
        let mut res = self;
        res.transcode = transcode;
        res
    }

    /// Whether segments are fragments of MP4 is set.
    pub fn with_fmp4(self, fmp4: bool) -> (res: Self)
        ensures
            res@ == (ManagerModel { fmp4, ..self@ }),
    {
        let mut res = self;
        res.fmp4 = fmp4;
        res
    }

    /// The table of sessions, to be read.
    pub fn sessions(&self) -> (res: &dashmap::DashMap<usize, FfmpegSession>)
        ensures
            sessions_of(*res) == self@.sessions,
    {
        &self.sessions
    }

    /// The counts.
    pub fn metrics(&self) -> (res: Metrics)
        ensures
            res == self@.metrics,
    {
        self.metrics
    }

    /// Whether segments are fragments of MP4.
    pub fn uses_fmp4(&self) -> (res: bool)
        ensures
            res == self@.fmp4,
    {
        self.fmp4
    }

    /// The channels that are remuxed, each of them once.
    pub fn channels(&self) -> (res: Vec<usize>)
        ensures
            res@.no_duplicates(),
            forall|id: usize| res@.contains(id) <==> self@.sessions.contains_key(id),
    {
        let all = entries(&self.sessions);
        let mut res: Vec<usize> = Vec::new();
        let mut i: usize = 0;
        while i < all.len()
            invariant
                i <= all.len(),
                lists(all@, self@.sessions),
                res@ == Seq::new(i as nat, |k: int| all@[k].0),
            decreases all.len() - i,
        {
            res.push(all[i].0);
            i += 1;
            assert(res@ =~= Seq::new(i as nat, |k: int| all@[k].0));
        }
        assert forall|id: usize| res@.contains(id) <==> self@.sessions.contains_key(id) by {
            if self@.sessions.contains_key(id) {
                let k = choose|k: int| 0 <= k < all@.len() && (#[trigger] all@[k]).0 == id;
                assert(res@[k] == id);
            }
            if res@.contains(id) {
                let k = choose|k: int| 0 <= k < res@.len() && res@[k] == id;
                assert(all@[k].0 == id);
            }
        }
        res
    }

    /// The session of a channel is asked for, if there is one.
    pub fn access(&mut self, id: usize, time: Timestamp) -> (res: Option<FfmpegSession>)
        ensures
            match res {
                Some(session) => old(self)@.sessions.contains_key(id) && session == (FfmpegSession {
                    last_access: time,
                    ..old(self)@.sessions[id]
                }) && final(self)@ == (ManagerModel {
                    sessions: old(self)@.sessions.insert(id, session),
                    ..old(self)@
                }),
                None => !old(self)@.sessions.contains_key(id) && final(self)@ == old(self)@,
            },
            old(self)@.is_tallied() ==> final(self)@.is_tallied(),
            old(self)@.has_own_dirs() ==> final(self)@.has_own_dirs(),
    {
        match lookup_session(&self.sessions, id) {
            Some(session) => {
                let mut session = session;
                session.touch_at(time);
                insert_session(&mut self.sessions, id, session.clone());
                assert(self@.sessions.dom() =~= old(self)@.sessions.dom());
                Some(session)
            },
            None => None,
        }
    }

    /// `ffmpeg` can be called: its arguments can be computed.
    pub open spec fn is_launchable(&self) -> bool {
        self@.transcode ==> self@.hls_segment_duration * 60 <= u32::MAX
    }

    /// Whether `ffmpeg` can be called.
    pub fn can_launch(&self) -> (res: bool)
        ensures
            res == self.is_launchable(),
    {
        !self.transcode || self.hls_segment_duration <= u32::MAX / 60
    }

    /// The directory of a channel.
    fn dir_of(&self, id: usize) -> (res: String)
        ensures
            res@ == session_dir(self@.stream_dir, id),
    {
        let mut name = "ch_".to_owned();
        name.append(decimal_text(id as u64).as_str());
        join_path(self.stream_dir.as_str(), name.as_str())
    }

    /// What is done for a channel to be remuxed. A channel that is being remuxed
    /// is left alone, so each has one `ffmpeg` at most.
    pub fn ensure_session(&self, id: usize, local_upstream: &str) -> (res: EnsureStep)
        requires
            !self@.sessions.contains_key(id) ==> self.is_launchable(),
        ensures
            is_ensure_step(res, self@, id, local_upstream@),
    {
        if session_present(&self.sessions, id) {
            return EnsureStep::Running;
        }
        let dir = self.dir_of(id);
        let output = join_path(dir.as_str(), "out.m3u8");
        let args = ffmpeg_args(
            local_upstream,
            dir.as_str(),
            self.hls_segment_duration,
            self.hls_playlist_size,
            self.transcode,
            self.fmp4,
        );
        EnsureStep::Launch { dir, output, args }
    }

    /// The playlist of a channel is there: its session begins, in the channel's own
    /// directory.
    pub fn on_ready(
        &mut self,
        id: usize,
        channel_name: String,
        last_access: Timestamp,
        created_at: Timestamp,
    )
        ensures
            final(self)@ == (ManagerModel {
                sessions: old(self)@.sessions.insert(id, final(self)@.sessions[id]),
                metrics: old(self)@.metrics.after_created(),
                ..old(self)@
            }),
            final(self)@.sessions[id].dir@ == session_dir(old(self)@.stream_dir, id),
            final(self)@.sessions[id].last_access == last_access,
            final(self)@.sessions[id].created_at == created_at,
            final(self)@.sessions[id].channel_name == channel_name,
            old(self)@.has_own_dirs() ==> final(self)@.has_own_dirs(),
            old(self)@.is_tallied() && !old(self)@.sessions.contains_key(id)
                && old(self)@.metrics.active_sessions < i64::MAX ==> final(self)@.is_tallied(),
    {
        let dir = self.dir_of(id);
        let session = FfmpegSession { dir, last_access, created_at, channel_name };
        insert_session(&mut self.sessions, id, session);
        self.metrics.on_created();
        assert(self@.sessions.dom() =~= old(self)@.sessions.dom().insert(id));
    }

    /// The channels whose sessions are idle at this time, each of them once.
    pub fn idle_sessions(&self, time: Timestamp) -> (res: Vec<usize>)
        ensures
            res@.no_duplicates(),
            forall|id: usize|
                res@.contains(id) <==> self@.sessions.contains_key(id) && is_idle(
                    self@.sessions[id],
                    time,
                    self@.session_idle,
                ),
    {
        let all = entries(&self.sessions);
        let mut res: Vec<usize> = Vec::new();
        let mut i: usize = 0;
        while i < all.len()
            invariant
                i <= all.len(),
                lists(all@, self@.sessions),
                self@.session_idle == self.session_idle,
                res@.no_duplicates(),
                forall|id: usize|
                    #[trigger] res@.contains(id) ==> self@.sessions.contains_key(id) && is_idle(
                        self@.sessions[id],
                        time,
                        self.session_idle,
                    ),
                forall|k: int|
                    0 <= k < i && is_idle((#[trigger] all@[k]).1, time, self.session_idle)
                        ==> res@.contains(all@[k].0),
                forall|k: int| i <= k < all@.len() ==> !res@.contains((#[trigger] all@[k]).0),
            decreases all.len() - i,
        {
            let ghost before = res@;
            let id: usize = all[i].0;
            let idle = match time.duration_since(all[i].1.last_access) {
                Some(d) => d > self.session_idle,
                None => false,
            };
            assert(idle == is_idle(all@[i as int].1, time, self.session_idle));
            if idle {
                res.push(id);
                assert(res@.contains(id)) by {
                    assert(res@[before.len() as int] == id);
                }
                assert forall|x: usize| before.contains(x) implies res@.contains(x) by {
                    let k = choose|k: int| 0 <= k < before.len() && before[k] == x;
                    assert(res@[k] == x);
                }
                assert forall|x: usize| #[trigger] res@.contains(x) implies x == id
                    || before.contains(x) by {
                    let k = choose|k: int| 0 <= k < res@.len() && res@[k] == x;
                    if k < before.len() {
                        assert(before[k] == x);
                    }
                }
                assert(!before.contains(id));
            }
            i += 1;
        }
        assert forall|id: usize|
            self@.sessions.contains_key(id) && is_idle(
                self@.sessions[id],
                time,
                self@.session_idle,
            ) implies res@.contains(id) by {
            let k = choose|k: int| 0 <= k < all@.len() && (#[trigger] all@[k]).0 == id;
            assert(self@.sessions[id] == all@[k].1);
        }
        res
    }

    /// The session of a channel is taken out of the table, if there is one.
    pub fn remove(&mut self, id: usize) -> (res: Option<FfmpegSession>)
        ensures
            final(self)@ == old(self)@.without_session(id),
            old(self)@.has_own_dirs() ==> final(self)@.has_own_dirs(),
            match res {
                Some(session) => old(self)@.sessions.contains_key(id) && session
                    == old(self)@.sessions[id],
                None => !old(self)@.sessions.contains_key(id),
            },
    {
        let res = remove_session(&mut self.sessions, id);
        assert forall|k: usize| #[trigger] self@.sessions.contains_key(k) implies old(
            self,
        )@.sessions.contains_key(k) && self@.sessions[k] == old(self)@.sessions[k] by {}
        res
    }

    /// A session that was taken out of the table has ended. Its lifetime in
    /// nanoseconds is to be recorded, unless the clock says that it was created
    /// later than now.
    pub fn on_ended(&mut self, session: &FfmpegSession, time: Timestamp) -> (res: Option<u128>)
        ensures
            final(self)@ == old(self)@.with_end(),
            old(self)@.has_own_dirs() ==> final(self)@.has_own_dirs(),
            is_lifetime(res, session.created_at, time),
    {
        let res = self.metrics.on_removed(session.created_at, time);
        assert(self@.sessions == old(self)@.sessions);
        res
    }

    /// A token was refreshed.
    pub fn on_token_refreshed(&mut self)
        ensures
            final(self)@ == (ManagerModel {
                metrics: Metrics {
                    token_refresh_total: old(self)@.metrics.token_refresh_total.wrapping_add(1),
                    ..old(self)@.metrics
                },
                ..old(self)@
            }),
    {
        self.metrics.on_token_refreshed();
    }
}

// ---------------------------------------------------------------------------
// Laws
// ---------------------------------------------------------------------------

/// After a channel that was found idle was taken up: its session, if it is still
/// there, is taken out of the table and its end counted.
pub open spec fn after_collected(m: ManagerModel, id: usize) -> ManagerModel {
    if m.sessions.contains_key(id) {
        m.without_session(id).with_end()
    } else {
        m
    }
}

/// After these channels were taken up, one behind the other.
pub open spec fn after_collection(m: ManagerModel, ids: Seq<usize>) -> ManagerModel
    decreases ids.len(),
{
    if ids.len() == 0 {
        m
    } else {
        after_collected(after_collection(m, ids.drop_last()), ids.last())
    }
}

/// The sessions that are ended while these channels are taken up, in that order.
pub open spec fn ended_sessions(m: ManagerModel, ids: Seq<usize>) -> Seq<(usize, FfmpegSession)>
    decreases ids.len(),
{
    if ids.len() == 0 {
        seq![]
    } else {
        let before = after_collection(m, ids.drop_last());
        let ended = ended_sessions(m, ids.drop_last());
        if before.sessions.contains_key(ids.last()) {
            ended.push((ids.last(), before.sessions[ids.last()]))
        } else {
            ended
        }
    }
}

/// Taking up channels that all have sessions, each once, ends each of these
/// sessions once and leaves the others as they were.
proof fn lemma_after_collection(m: ManagerModel, ids: Seq<usize>)
    requires
        ids.no_duplicates(),
        forall|k: int| 0 <= k < ids.len() ==> m.sessions.contains_key(#[trigger] ids[k]),
    ensures
        ({
            let after = after_collection(m, ids);
            &&& after == (ManagerModel {
                sessions: after.sessions,
                metrics: after.metrics,
                ..m
            })
            &&& forall|id: usize| #[trigger]
                after.sessions.contains_key(id) <==> m.sessions.contains_key(id) && !ids.contains(
                    id,
                )
            &&& forall|id: usize| #[trigger]
                after.sessions.contains_key(id) ==> after.sessions[id] == m.sessions[id]
            &&& ended_sessions(m, ids) == Seq::new(
                ids.len(),
                |k: int| (ids[k], m.sessions[ids[k]]),
            )
            &&& after.metrics.created_sessions_total == m.metrics.created_sessions_total
            &&& after.metrics.token_refresh_total == m.metrics.token_refresh_total
            &&& after.metrics.removed_sessions_total == (m.metrics.removed_sessions_total
                + ids.len()) % 0x1_0000_0000_0000_0000
            &&& congruent(
                after.metrics.active_sessions as int,
                m.metrics.active_sessions - ids.len(),
            )
            &&& m.is_tallied() ==> after.is_tallied()
        }),
    decreases ids.len(),
{
    if ids.len() > 0 {
        let front = ids.drop_last();
        let last = ids.last();
        assert forall|k: int| 0 <= k < front.len() implies m.sessions.contains_key(
            #[trigger] front[k],
        ) by {
            assert(front[k] == ids[k]);
        }
        lemma_after_collection(m, front);
        let before = after_collection(m, front);
        let after = after_collection(m, ids);
        assert(ids[ids.len() - 1] == last);
        assert(!front.contains(last)) by {
            if front.contains(last) {
                let k = choose|k: int| 0 <= k < front.len() && front[k] == last;
                assert(ids[k] == ids[ids.len() - 1]);
            }
        }
        assert(before.sessions.contains_key(last));
        assert(after == before.without_session(last).with_end());
        assert forall|id: usize| #[trigger] ids.contains(id) <==> id == last || front.contains(
            id,
        ) by {
            if ids.contains(id) {
                let k = choose|k: int| 0 <= k < ids.len() && ids[k] == id;
                if k < front.len() {
                    assert(front[k] == id);
                }
            }
            if front.contains(id) {
                let k = choose|k: int| 0 <= k < front.len() && front[k] == id;
                assert(ids[k] == id);
            }
        }
        assert forall|id: usize| #[trigger]
            after.sessions.contains_key(id) <==> m.sessions.contains_key(id) && !ids.contains(
                id,
            ) by {
            assert(after.sessions.contains_key(id) <==> before.sessions.contains_key(id) && id
                != last);
        }
        assert forall|id: usize| #[trigger] after.sessions.contains_key(id) implies after.sessions[
            id] == m.sessions[id] by {
            assert(before.sessions.contains_key(id));
        }
        assert(ended_sessions(m, ids) =~= Seq::new(
            ids.len(),
            |k: int| (ids[k], m.sessions[ids[k]]),
        ));
        if m.is_tallied() {
            law_collection_keeps_tally(before, last);
        }
    }
}

/// A whole collection, while nothing else changes the sessions: where the channels
/// that are idle at a time are taken up, each once, exactly the sessions that are
/// idle then are gone and each was ended once; the others are as they were. A
/// session that was last asked for exactly the idle time ago, or later than now by
/// the clock, stays. The counts say how many sessions ended, and the count of
/// active sessions stays right.
pub proof fn law_collection_ends_idle_sessions(m: ManagerModel, time: Timestamp, ids: Seq<usize>)
    requires
        ids.no_duplicates(),
        forall|id: usize|
            ids.contains(id) <==> m.sessions.contains_key(id) && is_idle(
                m.sessions[id],
                time,
                m.session_idle,
            ),
    ensures
        ({
            let after = after_collection(m, ids);
            let ended = ended_sessions(m, ids);
            &&& after == (ManagerModel {
                sessions: after.sessions,
                metrics: after.metrics,
                ..m
            })
            &&& forall|id: usize| #[trigger]
                after.sessions.contains_key(id) <==> m.sessions.contains_key(id) && !is_idle(
                    m.sessions[id],
                    time,
                    m.session_idle,
                )
            &&& forall|id: usize| #[trigger]
                after.sessions.contains_key(id) ==> after.sessions[id] == m.sessions[id]
            &&& ended == Seq::new(ids.len(), |k: int| (ids[k], m.sessions[ids[k]]))
            &&& after.metrics.created_sessions_total == m.metrics.created_sessions_total
            &&& after.metrics.token_refresh_total == m.metrics.token_refresh_total
            &&& after.metrics.removed_sessions_total == (m.metrics.removed_sessions_total
                + ended.len()) % 0x1_0000_0000_0000_0000
            &&& congruent(
                after.metrics.active_sessions as int,
                m.metrics.active_sessions - ended.len(),
            )
            &&& m.is_tallied() ==> after.is_tallied()
            &&& m.has_own_dirs() ==> after.has_own_dirs()
        }),
{
    assert forall|k: int| 0 <= k < ids.len() implies m.sessions.contains_key(#[trigger] ids[k]) by {
        assert(ids.contains(ids[k]));
    }
    lemma_after_collection(m, ids);
}

/// A session that is asked for is not idle before the idle time has passed.
pub proof fn law_access_defers_collection(
    session: FfmpegSession,
    asked: Timestamp,
    time: Timestamp,
    idle: u128,
)
    requires
        session.last_access == asked,
    ensures
        time.nanos <= asked.nanos + idle <==> !is_idle(session, time, idle),
{
}

/// Taking a session out of the table and recording its end keeps the count of
/// active sessions right.
pub proof fn law_collection_keeps_tally(m: ManagerModel, id: usize)
    requires
        m.is_tallied(),
        m.sessions.contains_key(id),
    ensures
        m.without_session(id).with_end().is_tallied(),
{
    assert(m.sessions.dom().contains(id));
    assert(m.sessions.remove(id).dom() =~= m.sessions.dom().remove(id));
}

/// A channel whose session has begun is not launched again.
pub proof fn law_session_is_launched_once(
    m: ManagerModel,
    id: usize,
    session: FfmpegSession,
    metrics: Metrics,
    upstream: Seq<char>,
    step: EnsureStep,
)
    requires
        is_ensure_step(
            step,
            (ManagerModel { sessions: m.sessions.insert(id, session), metrics, ..m }),
            id,
            upstream,
        ),
    ensures
        step is Running,
{
}

/// The input is opened so that it is reconnected where the connection breaks, but
/// not where the stream ends.
pub proof fn law_input_reconnects_but_not_at_end(upstream: Seq<char>)
    requires
        upstream != "-reconnect_at_eof"@,
    ensures
        input_args(upstream).contains("-reconnect"@),
        input_args(upstream).contains("-reconnect_streamed"@),
        input_args(upstream).contains("-reconnect_on_network_error"@),
        !input_args(upstream).contains("-reconnect_at_eof"@),
{
    let args = input_args(upstream);
    assert(args[3] == "-reconnect"@);
    assert(args[5] == "-reconnect_streamed"@);
    assert(args[7] == "-reconnect_on_network_error"@);
    reveal_strlit("-reconnect_at_eof");
    reveal_strlit("-y");
    reveal_strlit("-protocol_whitelist");
    reveal_strlit("file,crypto,data,https,http,tcp,tls");
    reveal_strlit("-reconnect");
    reveal_strlit("1");
    reveal_strlit("-reconnect_streamed");
    reveal_strlit("-reconnect_on_network_error");
    reveal_strlit("-reconnect_delay_max");
    reveal_strlit("2");
    reveal_strlit("-fflags");
    reveal_strlit("+genpts+discardcorrupt+igndts");
    reveal_strlit("-avoid_negative_ts");
    reveal_strlit("make_zero");
    reveal_strlit("-allowed_extensions");
    reveal_strlit("ALL");
    reveal_strlit("-i");
    assert("-y"@.len() == 2);
    assert("-protocol_whitelist"@.len() == 19);
    assert("file,crypto,data,https,http,tcp,tls"@.len() == 35);
    assert("-reconnect"@.len() == 10);
    assert("1"@.len() == 1);
    assert("-reconnect_streamed"@.len() == 19);
    assert("-reconnect_on_network_error"@.len() == 27);
    assert("-reconnect_delay_max"@.len() == 20);
    assert("2"@.len() == 1);
    assert("-fflags"@.len() == 7);
    assert("+genpts+discardcorrupt+igndts"@.len() == 29);
    assert("-avoid_negative_ts"@.len() == 18);
    assert("make_zero"@.len() == 9);
    assert("-allowed_extensions"@.len() == 19);
    assert("ALL"@.len() == 3);
    assert("-i"@.len() == 2);
}

/// Without transcoding every stream is copied as it came.
pub proof fn law_without_transcoding_streams_are_copied(
    upstream: Seq<char>,
    dir: Seq<char>,
    seg_duration: nat,
    playlist_size: nat,
    fmp4: bool,
)
    ensures
        ffmpeg_command(upstream, dir, seg_duration, playlist_size, false, fmp4) == input_args(
            upstream,
        ) + container_args(dir, fmp4) + seq!["-c"@, "copy"@] + output_args(
            dir,
            seg_duration,
            playlist_size,
            fmp4,
        ),
{
}

} // verus!
