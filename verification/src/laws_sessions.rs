//! What sessions do, said of the arguments, lines, files and counts that come in and
//! go out.

use crate::laws_playlists::{ends_as_media, lemma_kinds_of_lines};
use crate::laws_text::{
    all_white, law_decimal_denotes_its_number, law_decimal_tells_numbers_apart,
    law_path_in_directory, lemma_tail, stands_at, value_in_base,
};
use crate::session::{
    after_line, codec_args, container_args, ends_report, ffmpeg_command, first_segment,
    has_map_line, input_args, is_ensure_step, is_ready, is_segment_line, is_start_action,
    name_and_value, output_args, quit_after, quit_begin, report_of, segment_line_from, session_dir,
    EnsureStep, FrameCounts, ManagerModel, ProgressTracker, QuitReport, QuitStage, SessionManager,
    StartAction, StartEvent, COLLECTION_PERIOD_SECS, QUIT_TIMEOUT_SECS, START_TIMEOUT_SECS,
    WATCH_SECS,
};
use crate::text::{
    begins_with, char_from, decimal, is_white, lemma_char_from, lines_of, path_in, texts, trimmed,
    unsigned_of, without_trailing_white,
};
use vstd::prelude::*;

verus! {

// ---------------------------------------------------------------------------
// How ffmpeg is called
// ---------------------------------------------------------------------------

/// The notation of zero.
proof fn lemma_zero()
    ensures
        value_in_base("0"@, 10) == 0,
{
    reveal_strlit("0");
    assert("0"@.drop_last() =~= seq![]);
    assert(value_in_base("0"@.drop_last(), 10) == 0);
}

/// Where the parts of the arguments stand.
proof fn lemma_parts(
    args: Seq<Seq<char>>,
    upstream: Seq<char>,
    dir: Seq<char>,
    duration: nat,
    size: nat,
    transcode: bool,
    fmp4: bool,
)
    requires
        args == ffmpeg_command(upstream, dir, duration, size, transcode, fmp4),
    ensures
        transcode ==> args.len() == 71,
        !transcode ==> args.len() == 53,
        forall|i: int| 0 <= i < 19 ==> #[trigger] args[i] == input_args(upstream)[i],
        forall|i: int| 19 <= i < 27 ==> #[trigger] args[i] == container_args(dir, fmp4)[i - 19],
        forall|i: int|
            27 <= i < args.len() - 24 ==> #[trigger] args[i] == codec_args(duration, transcode)[i
                - 27],
        forall|i: int|
            args.len() - 24 <= i < args.len() ==> #[trigger] args[i] == output_args(
                dir,
                duration,
                size,
                fmp4,
            )[i - args.len() + 24],
{
    assert(input_args(upstream).len() == 19);
    assert(container_args(dir, fmp4).len() == 8);
    assert(codec_args(duration, transcode).len() == if transcode {
        20int
    } else {
        2
    });
    assert(output_args(dir, duration, size, fmp4).len() == 24);
}

/// The playlist holds as many segments as were asked for, each of the length that was
/// asked for: the arguments behind the options denote these numbers. The first
/// segment is as long as the others where segments are fragments, and cut as soon as
/// can be where they are not.
pub proof fn law_arguments_denote_sizes(
    args: Seq<Seq<char>>,
    upstream: Seq<char>,
    dir: Seq<char>,
    duration: nat,
    size: nat,
    transcode: bool,
    fmp4: bool,
)
    requires
        args == ffmpeg_command(upstream, dir, duration, size, transcode, fmp4),
    ensures
        args.len() >= 53,
        args[args.len() - 22] == "-hls_time"@,
        value_in_base(args[args.len() - 21], 10) == duration,
        args[args.len() - 21] == decimal(duration),
        args[args.len() - 20] == "-hls_list_size"@,
        value_in_base(args[args.len() - 19], 10) == size,
        args[args.len() - 19] == decimal(size),
        args[args.len() - 18] == "-hls_init_time"@,
        fmp4 ==> value_in_base(args[args.len() - 17], 10) == duration,
        !fmp4 ==> value_in_base(args[args.len() - 17], 10) == 0,
        !fmp4 ==> args[args.len() - 17] == "0"@,
        fmp4 ==> args[args.len() - 17] == args[args.len() - 21],
{
    lemma_parts(args, upstream, dir, duration, size, transcode, fmp4);
    law_decimal_denotes_its_number(duration);
    law_decimal_denotes_its_number(size);
    lemma_zero();
}

/// Two calls have the same arguments only where the same was asked for.
pub proof fn law_arguments_tell_calls_apart(
    upstream: Seq<char>,
    dir: Seq<char>,
    duration: nat,
    size: nat,
    transcode: bool,
    fmp4: bool,
    upstream2: Seq<char>,
    dir2: Seq<char>,
    duration2: nat,
    size2: nat,
    transcode2: bool,
    fmp42: bool,
)
    requires
        ffmpeg_command(upstream, dir, duration, size, transcode, fmp4) == ffmpeg_command(
            upstream2,
            dir2,
            duration2,
            size2,
            transcode2,
            fmp42,
        ),
    ensures
        upstream == upstream2,
        duration == duration2,
        size == size2,
        transcode == transcode2,
        fmp4 == fmp42,
        path_in(dir, "out.m3u8"@) == path_in(dir2, "out.m3u8"@),
{
    let args = ffmpeg_command(upstream, dir, duration, size, transcode, fmp4);
    lemma_parts(args, upstream, dir, duration, size, transcode, fmp4);
    lemma_parts(args, upstream2, dir2, duration2, size2, transcode2, fmp42);
    law_arguments_denote_sizes(args, upstream, dir, duration, size, transcode, fmp4);
    law_arguments_denote_sizes(args, upstream2, dir2, duration2, size2, transcode2, fmp42);
    assert(args[18] == upstream);
    assert(args[18] == upstream2);
    let n = args.len() as int;
    assert(args[n - 1] == path_in(dir, "out.m3u8"@));
    assert(args[n - 1] == path_in(dir2, "out.m3u8"@));
    reveal_strlit("-bsf:a");
    reveal_strlit("-hls_segment_type");
    assert("-bsf:a"@.len() == 6 && "-hls_segment_type"@.len() == 17);
    assert(args[19] == if fmp4 {
        "-bsf:a"@
    } else {
        "-hls_segment_type"@
    });
    assert(args[19] == if fmp42 {
        "-bsf:a"@
    } else {
        "-hls_segment_type"@
    });
}

/// How many segments the playlist holds changes one argument, and the input's address
/// changes one other.
pub proof fn law_size_and_input_change_one_argument_each(
    upstream: Seq<char>,
    upstream2: Seq<char>,
    dir: Seq<char>,
    duration: nat,
    size: nat,
    size2: nat,
    transcode: bool,
    fmp4: bool,
)
    ensures
        ({
            let args = ffmpeg_command(upstream, dir, duration, size, transcode, fmp4);
            ffmpeg_command(upstream2, dir, duration, size2, transcode, fmp4) == args.update(
                18,
                upstream2,
            ).update(args.len() - 19, decimal(size2))
        }),
{
    let args = ffmpeg_command(upstream, dir, duration, size, transcode, fmp4);
    let other = ffmpeg_command(upstream2, dir, duration, size2, transcode, fmp4);
    lemma_parts(args, upstream, dir, duration, size, transcode, fmp4);
    lemma_parts(other, upstream2, dir, duration, size2, transcode, fmp4);
    let n = args.len() as int;
    let changed = args.update(18, upstream2).update(n - 19, decimal(size2));
    assert forall|i: int| 0 <= i < n implies other[i] == changed[i] by {
        if i < 19 {
            assert(args[i] == input_args(upstream)[i]);
            assert(other[i] == input_args(upstream2)[i]);
        } else if i >= n - 24 {
            let a = output_args(dir, duration, size, fmp4);
            let b = output_args(dir, duration, size2, fmp4);
            assert(args[i] == a[i - n + 24]);
            assert(other[i] == b[i - n + 24]);
        }
    }
    assert(other =~= changed);
}

/// The input is opened the same way always, and its address comes last.
pub proof fn law_arguments_for_input(
    args: Seq<Seq<char>>,
    upstream: Seq<char>,
    dir: Seq<char>,
    duration: nat,
    size: nat,
    transcode: bool,
    fmp4: bool,
)
    requires
        args == ffmpeg_command(upstream, dir, duration, size, transcode, fmp4),
    ensures
        args[0] == "-y"@,
        args[1] == "-protocol_whitelist"@,
        args[2] == "file,crypto,data,https,http,tcp,tls"@,
        args[3] == "-reconnect"@,
        args[4] == "1"@,
        args[5] == "-reconnect_streamed"@,
        args[6] == "1"@,
        args[7] == "-reconnect_on_network_error"@,
        args[8] == "1"@,
        args[9] == "-reconnect_delay_max"@,
        args[10] == "2"@,
        args[11] == "-fflags"@,
        args[12] == "+genpts+discardcorrupt+igndts"@,
        args[13] == "-avoid_negative_ts"@,
        args[14] == "make_zero"@,
        args[15] == "-allowed_extensions"@,
        args[16] == "ALL"@,
        args[17] == "-i"@,
        args[18] == upstream,
{
    lemma_parts(args, upstream, dir, duration, size, transcode, fmp4);
}

/// Fragments are named for themselves and have an initialisation file.
pub proof fn law_arguments_for_fragments(
    args: Seq<Seq<char>>,
    upstream: Seq<char>,
    dir: Seq<char>,
    duration: nat,
    size: nat,
    transcode: bool,
)
    requires
        args == ffmpeg_command(upstream, dir, duration, size, transcode, true),
    ensures
        args[19] == "-bsf:a"@ && args[20] == "aac_adtstoasc"@,
        args[21] == "-hls_segment_type"@ && args[22] == "fmp4"@,
        args[23] == "-hls_fmp4_init_filename"@ && args[24] == "init.mp4"@,
        args[25] == "-hls_segment_filename"@,
        dir.len() > 0 && dir.last() != '/' ==> args[26] == dir + "/seg_%05d.m4s"@,
        args[26] == path_in(dir, "seg_%05d.m4s"@),
{
    lemma_parts(args, upstream, dir, duration, size, transcode, true);
    reveal_strlit("seg_%05d.m4s");
    reveal_strlit("/seg_%05d.m4s");
    reveal_strlit("/");
    assert("/seg_%05d.m4s"@ =~= "/"@ + "seg_%05d.m4s"@);
    law_path_in_directory(dir, "seg_%05d.m4s"@);
    if dir.len() > 0 && dir.last() != '/' {
        assert(args[26] =~= dir + "/seg_%05d.m4s"@);
    }
}

/// Segments that are no fragments are transport streams that can be read from their
/// beginning.
pub proof fn law_arguments_for_transport_streams(
    args: Seq<Seq<char>>,
    upstream: Seq<char>,
    dir: Seq<char>,
    duration: nat,
    size: nat,
    transcode: bool,
)
    requires
        args == ffmpeg_command(upstream, dir, duration, size, transcode, false),
    ensures
        args[19] == "-hls_segment_type"@ && args[20] == "mpegts"@,
        args[21] == "-hls_segment_filename"@,
        dir.len() > 0 && dir.last() != '/' ==> args[22] == dir + "/seg_%05d.ts"@,
        args[22] == path_in(dir, "seg_%05d.ts"@),
        args[23] == "-mpegts_flags"@ && args[24] == "resend_headers+pat_pmt_at_frames"@,
        args[25] == "-flush_packets"@ && args[26] == "1"@,
{
    lemma_parts(args, upstream, dir, duration, size, transcode, false);
    reveal_strlit("seg_%05d.ts");
    reveal_strlit("/seg_%05d.ts");
    reveal_strlit("/");
    assert("/seg_%05d.ts"@ =~= "/"@ + "seg_%05d.ts"@);
    law_path_in_directory(dir, "seg_%05d.ts"@);
    if dir.len() > 0 && dir.last() != '/' {
        assert(args[22] =~= dir + "/seg_%05d.ts"@);
    }
}

/// Where streams are transcoded, a key frame comes every sixty frames of a segment's
/// seconds, and one where each segment begins; sound is copied.
pub proof fn law_arguments_for_transcoding(
    args: Seq<Seq<char>>,
    upstream: Seq<char>,
    dir: Seq<char>,
    duration: nat,
    size: nat,
    fmp4: bool,
)
    requires
        args == ffmpeg_command(upstream, dir, duration, size, true, fmp4),
    ensures
        args.len() == 71,
        args[27] == "-c:v"@ && args[28] == "libx264"@,
        args[29] == "-preset"@ && args[30] == "veryfast"@,
        args[31] == "-tune"@ && args[32] == "zerolatency"@,
        args[33] == "-x264-params"@,
        args[34] == "scenecut=0:open_gop=0:keyint="@ + args[36] + ":min-keyint="@ + args[36],
        args[35] == "-g"@,
        value_in_base(args[36], 10) == 60 * duration,
        args[36] == decimal(60 * duration),
        args[37] == "-profile:v"@ && args[38] == "main"@,
        args[39] == "-level:v"@ && args[40] == "4.0"@,
        args[41] == "-pix_fmt"@ && args[42] == "yuv420p"@,
        args[43] == "-force_key_frames"@,
        args[44] == "expr:gte(t,n_forced*"@ + args[50] + ")"@,
        args[45] == "-c:a"@ && args[46] == "copy"@,
        value_in_base(args[50], 10) == duration,
{
    lemma_parts(args, upstream, dir, duration, size, true, fmp4);
    law_arguments_denote_sizes(args, upstream, dir, duration, size, true, fmp4);
    assert(duration * 60 == 60 * duration);
    law_decimal_denotes_its_number(60 * duration);
}

/// Where streams are not transcoded, they are copied as they came.
pub proof fn law_arguments_for_copying(
    args: Seq<Seq<char>>,
    upstream: Seq<char>,
    dir: Seq<char>,
    duration: nat,
    size: nat,
    fmp4: bool,
)
    requires
        args == ffmpeg_command(upstream, dir, duration, size, false, fmp4),
    ensures
        args.len() == 53,
        args[27] == "-c"@ && args[28] == "copy"@,
        args[29] == "-f"@,
{
    lemma_parts(args, upstream, dir, duration, size, false, fmp4);
}

/// The playlist is written the same way always but for its sizes, progress is
/// reported on the output, and the playlist's path comes last.
pub proof fn law_arguments_for_output(
    args: Seq<Seq<char>>,
    upstream: Seq<char>,
    dir: Seq<char>,
    duration: nat,
    size: nat,
    transcode: bool,
    fmp4: bool,
)
    requires
        args == ffmpeg_command(upstream, dir, duration, size, transcode, fmp4),
    ensures
        args[args.len() - 24] == "-f"@,
        args[args.len() - 23] == "hls"@,
        args[args.len() - 16] == "-hls_flags"@,
        args[args.len() - 15] == "append_list+omit_endlist+delete_segments+program_date_time+independent_segments+temp_file+discont_start"@,
        args[args.len() - 14] == "-muxdelay"@,
        args[args.len() - 13] == "0"@,
        args[args.len() - 12] == "-muxpreload"@,
        args[args.len() - 11] == "0"@,
        args[args.len() - 10] == "-max_interleave_delta"@,
        args[args.len() - 9] == "0"@,
        args[args.len() - 8] == "-hls_delete_threshold"@,
        args[args.len() - 7] == "1"@,
        args[args.len() - 6] == "-nostats"@,
        args[args.len() - 5] == "-loglevel"@,
        args[args.len() - 4] == "info"@,
        args[args.len() - 3] == "-progress"@,
        args[args.len() - 2] == "pipe:1"@,
        args[args.len() - 1] == path_in(dir, "out.m3u8"@),
        dir.len() > 0 && dir.last() != '/' ==> args[args.len() - 1] == dir + "/out.m3u8"@,
{
    lemma_parts(args, upstream, dir, duration, size, transcode, fmp4);
    lemma_output_path(dir);
}

/// The playlist's path in a directory.
proof fn lemma_output_path(dir: Seq<char>)
    ensures
        dir.len() > 0 && dir.last() != '/' ==> path_in(dir, "out.m3u8"@) == dir + "/out.m3u8"@,
{
    reveal_strlit("out.m3u8");
    reveal_strlit("/out.m3u8");
    reveal_strlit("/");
    assert("/out.m3u8"@ =~= "/"@ + "out.m3u8"@);
    law_path_in_directory(dir, "out.m3u8"@);
    if dir.len() > 0 && dir.last() != '/' {
        assert(path_in(dir, "out.m3u8"@) =~= dir + "/out.m3u8"@);
    }
}

// ---------------------------------------------------------------------------
// When the output is ready
// ---------------------------------------------------------------------------

/// A line names a segment.
pub open spec fn names_segment(line: Seq<char>) -> bool {
    line.len() > 0 && line[0] != '#' && ends_as_media(line)
}

/// A line is a segment's exactly where it names one.
proof fn lemma_segment_line(line: Seq<char>)
    ensures
        is_segment_line(line) <==> names_segment(line),
        begins_with(line, "#EXT-X-MAP:"@) <==> stands_at(line, "#EXT-X-MAP:"@, 0),
{
    lemma_kinds_of_lines(line);
    reveal_strlit(".ts");
    reveal_strlit(".m4s");
    reveal_strlit(".mp4");
}

/// Where the search for a segment's line ends.
proof fn lemma_segment_from(ls: Seq<Seq<char>>, from: int, i: int)
    requires
        0 <= from <= i <= ls.len(),
        i < ls.len() ==> names_segment(ls[i]),
        forall|j: int| from <= j < i ==> !names_segment(#[trigger] ls[j]),
    ensures
        segment_line_from(ls, from) == i,
    decreases i - from,
{
    if from < ls.len() {
        lemma_segment_line(ls[from]);
        if from < i {
            assert(!names_segment(ls[from]));
            lemma_segment_from(ls, from + 1, i);
        }
    }
}

/// The first segment of a playlist is the first line that names one, without the
/// white space round it; whether there is a map is told by the lines before it.
pub proof fn law_first_segment_and_map(text: Seq<char>, i: int)
    requires
        0 <= i < lines_of(text).len(),
        names_segment(lines_of(text)[i]),
        forall|j: int| 0 <= j < i ==> !names_segment(#[trigger] lines_of(text)[j]),
    ensures
        first_segment(text) == Some(trimmed(lines_of(text)[i])),
        has_map_line(text) <==> exists|j: int|
            0 <= j < i && stands_at(#[trigger] lines_of(text)[j], "#EXT-X-MAP:"@, 0),
{
    let ls = lines_of(text);
    lemma_segment_from(ls, 0, i);
    lemma_maps(ls);
    if has_map_line(text) {
        let j = choose|j: int| 0 <= j < i && begins_with(#[trigger] ls[j], "#EXT-X-MAP:"@);
        assert(stands_at(ls[j], "#EXT-X-MAP:"@, 0));
    }
}

/// A map line is told by its first characters.
proof fn lemma_maps(ls: Seq<Seq<char>>)
    ensures
        forall|j: int|
            0 <= j < ls.len() ==> (begins_with(#[trigger] ls[j], "#EXT-X-MAP:"@) <==> stands_at(
                ls[j],
                "#EXT-X-MAP:"@,
                0,
            )),
{
    assert forall|j: int| 0 <= j < ls.len() implies (begins_with(#[trigger] ls[j], "#EXT-X-MAP:"@)
        <==> stands_at(ls[j], "#EXT-X-MAP:"@, 0)) by {
        lemma_segment_line(ls[j]);
    }
}

/// A playlist without a line that names a segment has none; any line can be its map.
pub proof fn law_playlist_without_segments(text: Seq<char>)
    requires
        forall|j: int|
            0 <= j < lines_of(text).len() ==> !names_segment(#[trigger] lines_of(text)[j]),
    ensures
        first_segment(text) is None,
        has_map_line(text) <==> exists|j: int|
            0 <= j < lines_of(text).len() && stands_at(
                #[trigger] lines_of(text)[j],
                "#EXT-X-MAP:"@,
                0,
            ),
{
    let ls = lines_of(text);
    lemma_segment_from(ls, 0, ls.len() as int);
    lemma_maps(ls);
    if has_map_line(text) {
        let j = choose|j: int|
            0 <= j < ls.len() && begins_with(#[trigger] ls[j], "#EXT-X-MAP:"@);
        assert(stands_at(ls[j], "#EXT-X-MAP:"@, 0));
    }
}

/// Output can be served exactly where the first segment has something in it and,
/// where segments are fragments, there is a map and the file that it names has
/// something in it too. For other segments the map and that file do not matter.
pub proof fn law_ready_output(init: u64, segment: u64, has_map: bool, any: Option<u64>)
    ensures
        is_ready(true, has_map, Some(init), Some(segment)) <==> has_map && init != 0 && segment
            != 0,
        !is_ready(true, has_map, None, any),
        !is_ready(true, has_map, any, None),
        is_ready(false, has_map, any, Some(segment)) <==> segment != 0,
        !is_ready(false, has_map, any, None),
{
}

// ---------------------------------------------------------------------------
// The wait for the output
// ---------------------------------------------------------------------------

/// How long things are waited for: the times are in seconds.
pub proof fn law_time_limits()
    ensures
        WATCH_SECS == 15,
        COLLECTION_PERIOD_SECS == 1,
        START_TIMEOUT_SECS == 10,
        QUIT_TIMEOUT_SECS == 10,
{
}

/// Whatever ends the wait before the playlist is there makes it fail, and the message
/// says why: with the playlist's path, the reason, or the exit code.
pub proof fn law_wait_fails(
    timeout: StartAction,
    failed: StartAction,
    exited: StartAction,
    killed: StartAction,
    closed: StartAction,
    reason: String,
    code: i32,
    output: Seq<char>,
)
    requires
        is_start_action(timeout, StartEvent::Timeout, output),
        is_start_action(failed, StartEvent::WaitFailed(reason), output),
        is_start_action(exited, StartEvent::Exited(Some(code)), output),
        is_start_action(killed, StartEvent::Exited(None), output),
        is_start_action(closed, StartEvent::WatcherClosed, output),
    ensures
        timeout is Fail && timeout->Fail_0@
            == "ffmpeg failed: playlist creation timeout (10s) for "@ + output,
        failed == StartAction::Fail(reason),
        exited is Fail,
        code >= 0 ==> exited->Fail_0@ == "ffmpeg exited before playlist creation: Some("@
            + decimal(code as nat) + ")"@,
        code < 0 ==> exited->Fail_0@ == "ffmpeg exited before playlist creation: Some(-"@
            + decimal((-code) as nat) + ")"@,
        killed is Fail && killed->Fail_0@ == "ffmpeg exited before playlist creation: None"@,
        closed is Fail && closed->Fail_0@ == "watcher closed before playlist creation: "@
            + output,
{
    reveal_strlit("ffmpeg exited before playlist creation: ");
    reveal_strlit("ffmpeg exited before playlist creation: None");
    reveal_strlit("ffmpeg exited before playlist creation: Some(");
    reveal_strlit("ffmpeg exited before playlist creation: Some(-");
    reveal_strlit("None");
    reveal_strlit("Some(");
    reveal_strlit("-");
    reveal_strlit(")");
    assert(killed->Fail_0@ =~= "ffmpeg exited before playlist creation: None"@);
    if code >= 0 {
        assert(exited->Fail_0@ =~= "ffmpeg exited before playlist creation: Some("@ + decimal(
            code as nat,
        ) + ")"@);
    } else {
        assert(exited->Fail_0@ =~= "ffmpeg exited before playlist creation: Some(-"@ + decimal(
            (-code) as nat,
        ) + ")"@);
    }
}

/// The playlist is looked at exactly where a file of its name was written; of every
/// other change nothing is made.
pub proof fn law_changes_are_inspected(
    action: StartAction,
    written: bool,
    names: Vec<String>,
    output: Seq<char>,
)
    requires
        is_start_action(action, StartEvent::Changed { written, names }, output),
    ensures
        action is Inspect <==> written && exists|i: int|
            0 <= i < names@.len() && (#[trigger] names@[i])@ == "out.m3u8"@,
        action is Inspect || action is Wait,
{
}

// ---------------------------------------------------------------------------
// What progress reports count
// ---------------------------------------------------------------------------

/// The white space at a line's end is cut off, and nothing more.
proof fn lemma_line_end(s: Seq<char>, tail: Seq<char>)
    requires
        all_white(tail),
        s.len() > 0 ==> !is_white(s.last()),
    ensures
        without_trailing_white(s + tail) == s,
    decreases tail.len(),
{
    if tail.len() > 0 {
        assert(is_white(tail[tail.len() - 1]));
        assert((s + tail).last() == tail.last());
        assert((s + tail).drop_last() =~= s + tail.drop_last());
        assert forall|i: int| 0 <= i < tail.drop_last().len() implies is_white(
            #[trigger] tail.drop_last()[i],
        ) by {
            assert(is_white(tail[i]));
        }
        lemma_line_end(s, tail.drop_last());
    } else {
        assert(s + tail =~= s);
    }
}

/// A line of progress, made of a name, an equals sign and a value, with white space
/// at its end.
pub open spec fn is_progress_line(
    line: Seq<char>,
    name: Seq<char>,
    value: Seq<char>,
    tail: Seq<char>,
) -> bool {
    &&& line == name + seq!['='] + value + tail
    &&& forall|i: int| 0 <= i < name.len() ==> #[trigger] name[i] != '='
    &&& value.len() > 0 ==> !is_white(value.last())
    &&& all_white(tail)
}

/// What stands before and behind the first equals sign is the name and the value.
pub proof fn law_line_of_progress(
    line: Seq<char>,
    name: Seq<char>,
    value: Seq<char>,
    tail: Seq<char>,
)
    requires
        is_progress_line(line, name, value, tail),
    ensures
        name_and_value(line) == Some((name, value)),
{
    let s = name + seq!['='] + value;
    assert(!is_white('='));
    if value.len() == 0 {
        assert(s.last() == '=');
    } else {
        assert(s.last() == value.last());
    }
    lemma_line_end(s, tail);
    lemma_char_from(s, '=', 0);
    let n = name.len() as int;
    assert(s[n] == '=');
    match char_from(s, '=', 0) {
        Some(i) => {
            if i < n {
                assert(s[i] == name[i]);
            }
            assert(i == n);
            assert(s.take(n) =~= name);
            assert(s.skip(n + 1) =~= value);
        },
        None => {},
    }
}

/// The names that count differ.
proof fn lemma_names_differ()
    ensures
        "out_time_ms"@ != "dup_frames"@,
        "out_time_ms"@ != "drop_frames"@,
        "out_time_ms"@ != "frame"@,
        "out_time_ms"@ != "progress"@,
        "dup_frames"@ != "drop_frames"@,
        "dup_frames"@ != "frame"@,
        "dup_frames"@ != "progress"@,
        "drop_frames"@ != "frame"@,
        "drop_frames"@ != "progress"@,
        "frame"@ != "progress"@,
{
    reveal_strlit("progress");
    reveal_strlit("out_time_ms");
    reveal_strlit("dup_frames");
    reveal_strlit("drop_frames");
    reveal_strlit("frame");
    assert("progress"@.len() == 8 && "out_time_ms"@.len() == 11 && "dup_frames"@.len() == 10
        && "drop_frames"@.len() == 11 && "frame"@.len() == 5);
    assert("out_time_ms"@[0] == 'o' && "drop_frames"@[0] == 'd');
}

/// A line that states one of the four counted values sets that value and nothing
/// else; one whose value is no number changes nothing. None of them ends a report.
pub proof fn law_values_are_taken_over(
    t: ProgressTracker,
    line: Seq<char>,
    name: Seq<char>,
    value: Seq<char>,
    tail: Seq<char>,
    n: u64,
)
    requires
        is_progress_line(line, name, value, tail),
        name != "progress"@,
    ensures
        name == "out_time_ms"@ && unsigned_of(value) == Some(n) ==> after_line(t, line)
            == (ProgressTracker { time_ms: Some(n), current: t.current, last: t.last }),
        name == "dup_frames"@ && unsigned_of(value) == Some(n) ==> after_line(t, line)
            == (ProgressTracker {
            time_ms: t.time_ms,
            current: FrameCounts { dup: n, drop: t.current.drop, frame: t.current.frame },
            last: t.last,
        }),
        name == "drop_frames"@ && unsigned_of(value) == Some(n) ==> after_line(t, line)
            == (ProgressTracker {
            time_ms: t.time_ms,
            current: FrameCounts { dup: t.current.dup, drop: n, frame: t.current.frame },
            last: t.last,
        }),
        name == "frame"@ && unsigned_of(value) == Some(n) ==> after_line(t, line)
            == (ProgressTracker {
            time_ms: t.time_ms,
            current: FrameCounts { dup: t.current.dup, drop: t.current.drop, frame: n },
            last: t.last,
        }),
        unsigned_of(value) is None ==> after_line(t, line) == t,
        name != "out_time_ms"@ && name != "dup_frames"@ && name != "drop_frames"@ && name
            != "frame"@ ==> after_line(t, line) == t,
        report_of(t, line) is None,
        !ends_report(line),
{
    law_line_of_progress(line, name, value, tail);
    lemma_names_differ();
}

/// The growth of a count is what it has now without what it had, where that is not
/// less than nothing.
pub open spec fn grew(growth: Option<u64>, had: u64, has: u64) -> bool {
    &&& growth is Some <==> had <= has
    &&& growth matches Some(d) ==> had + d == has
}

/// A line that says that progress goes on ends a report: what each count grew by is
/// handed out with the time, and the counts are what the next ones are held against.
/// One that says anything else of progress does nothing.
pub proof fn law_reports_hand_out_growth(
    t: ProgressTracker,
    line: Seq<char>,
    value: Seq<char>,
    tail: Seq<char>,
)
    requires
        is_progress_line(line, "progress"@, value, tail),
    ensures
        value == "continue"@ <==> report_of(t, line) is Some,
        value == "continue"@ <==> ends_report(line),
        report_of(t, line) matches Some(r) ==> r.time_ms == t.time_ms && grew(
            r.dup,
            t.last.dup,
            t.current.dup,
        ) && grew(r.drop, t.last.drop, t.current.drop) && grew(
            r.frame,
            t.last.frame,
            t.current.frame,
        ),
        value == "continue"@ ==> after_line(t, line) == (ProgressTracker {
            time_ms: t.time_ms,
            current: t.current,
            last: t.current,
        }),
        value != "continue"@ ==> after_line(t, line) == t,
{
    law_line_of_progress(line, "progress"@, value, tail);
    lemma_names_differ();
}

/// A line without an equals sign does nothing.
pub proof fn law_line_without_value_does_nothing(t: ProgressTracker, line: Seq<char>)
    requires
        forall|i: int| 0 <= i < line.len() ==> #[trigger] line[i] != '=',
    ensures
        after_line(t, line) == t,
        report_of(t, line) is None,
        !ends_report(line),
{
    let tail = lemma_tail(line);
    let s = without_trailing_white(line);
    lemma_char_from(s, '=', 0);
    if let Some(i) = char_from(s, '=', 0) {
        assert(line[i] == s[i]);
    }
}

// ---------------------------------------------------------------------------
// How a session is ended
// ---------------------------------------------------------------------------

/// A session with an input is told to end through it; one without is only waited
/// for; without a process nothing but its directory is left.
pub proof fn law_first_stage_of_end()
    ensures
        quit_begin(true, true) == QuitStage::SendQuit,
        quit_begin(true, false) == QuitStage::SendQuit,
        quit_begin(false, true) == QuitStage::AwaitExit,
        quit_begin(false, false) == QuitStage::RemoveDir,
{
}

/// Once told to end, the process is waited for where there is one. It is killed
/// exactly where that took too long. Its directory is removed behind that, and then
/// nothing is left to do.
pub proof fn law_stages_of_end(stage: QuitStage, report: QuitReport, has_process: bool)
    ensures
        quit_after(stage, report, has_process) == QuitStage::Kill <==> stage
            == QuitStage::AwaitExit && report == QuitReport::TimedOut,
        quit_after(stage, report, has_process) == QuitStage::AwaitExit <==> stage
            == QuitStage::SendQuit && has_process,
        quit_after(stage, report, has_process) == QuitStage::Finished <==> stage
            == QuitStage::RemoveDir || stage == QuitStage::Finished,
        quit_after(stage, report, has_process) != QuitStage::SendQuit,
{
}

// ---------------------------------------------------------------------------
// Sessions
// ---------------------------------------------------------------------------

/// A channel's directory is named by its number, in the directory of streams.
pub proof fn law_directory_of_channel(stream_dir: Seq<char>, id: usize)
    ensures
        stream_dir.len() > 0 && stream_dir.last() != '/' ==> session_dir(stream_dir, id)
            == stream_dir + "/ch_"@ + decimal(id as nat),
        stream_dir.len() > 0 && stream_dir.last() == '/' ==> session_dir(stream_dir, id)
            == stream_dir + "ch_"@ + decimal(id as nat),
        stream_dir.len() == 0 ==> session_dir(stream_dir, id) == "ch_"@ + decimal(id as nat),
        session_dir(stream_dir, id).len() > 0 && session_dir(stream_dir, id).last() != '/',
{
    reveal_strlit("ch_");
    reveal_strlit("/ch_");
    reveal_strlit("/");
    assert("/ch_"@ =~= "/"@ + "ch_"@);
    let name = "ch_"@ + decimal(id as nat);
    law_decimal_denotes_its_number(id as nat);
    law_path_in_directory(stream_dir, name);
    assert(name.last() == decimal(id as nat).last());
    assert(name[0] == 'c');
    let dir = session_dir(stream_dir, id);
    assert(dir.last() == name.last());
    if stream_dir.len() > 0 && stream_dir.last() != '/' {
        assert(dir =~= stream_dir + "/ch_"@ + decimal(id as nat));
    } else if stream_dir.len() > 0 {
        assert(dir =~= stream_dir + "ch_"@ + decimal(id as nat));
    }
}

/// Two channels have different directories.
pub proof fn law_channels_have_their_own_directories(stream_dir: Seq<char>, a: usize, b: usize)
    requires
        session_dir(stream_dir, a) == session_dir(stream_dir, b),
    ensures
        a == b,
{
    law_directory_of_channel(stream_dir, a);
    law_directory_of_channel(stream_dir, b);
    let x = session_dir(stream_dir, a);
    reveal_strlit("ch_");
    reveal_strlit("/ch_");
    let k: int = if stream_dir.len() == 0 {
        3
    } else if stream_dir.last() == '/' {
        stream_dir.len() as int + 3
    } else {
        stream_dir.len() as int + 4
    };
    assert(x.skip(k) =~= decimal(a as nat));
    assert(x.skip(k) =~= decimal(b as nat));
    law_decimal_tells_numbers_apart(a as nat, b as nat);
}

/// A channel that is remuxed is left alone. For one that is not, `ffmpeg` is called
/// to write into the channel's directory, from the address and with the sizes that
/// were set.
pub proof fn law_launch_follows_settings(
    step: EnsureStep,
    m: ManagerModel,
    id: usize,
    upstream: Seq<char>,
)
    requires
        is_ensure_step(step, m, id, upstream),
    ensures
        step is Running <==> m.sessions.dom().contains(id),
        step matches EnsureStep::Launch { dir, output, args } ==> {
            &&& dir@ == session_dir(m.stream_dir, id)
            &&& output@ == dir@ + "/out.m3u8"@
            &&& args@.len() == if m.transcode {
                71int
            } else {
                53
            }
            &&& args@[18]@ == upstream
            &&& args@[args@.len() - 1]@ == output@
            &&& args@[args@.len() - 20]@ == "-hls_list_size"@
            &&& value_in_base(args@[args@.len() - 19]@, 10) == m.hls_playlist_size
            &&& args@[args@.len() - 22]@ == "-hls_time"@
            &&& value_in_base(args@[args@.len() - 21]@, 10) == m.hls_segment_duration
            &&& args@[19]@ == if m.fmp4 {
                "-bsf:a"@
            } else {
                "-hls_segment_type"@
            }
        },
{
    if let EnsureStep::Launch { dir, output, args } = step {
        let ts = texts(args@);
        let duration = m.hls_segment_duration as nat;
        let size = m.hls_playlist_size as nat;
        lemma_parts(ts, upstream, dir@, duration, size, m.transcode, m.fmp4);
        law_arguments_denote_sizes(ts, upstream, dir@, duration, size, m.transcode, m.fmp4);
        law_directory_of_channel(m.stream_dir, id);
        lemma_output_path(dir@);
        let n = args@.len() as int;
        assert(ts.len() == n);
        assert(ts[18] == args@[18]@);
        assert(ts[19] == args@[19]@);
        assert(ts[n - 1] == args@[n - 1]@);
        assert(ts[n - 19] == args@[n - 19]@);
        assert(ts[n - 20] == args@[n - 20]@);
        assert(ts[n - 21] == args@[n - 21]@);
        assert(ts[n - 22] == args@[n - 22]@);
    }
}

/// Transcoding fails only where sixty times a segment's seconds do not fit in 32 bits;
/// without it `ffmpeg` can always be called.
pub proof fn law_when_ffmpeg_can_be_called(manager: SessionManager)
    ensures
        manager.is_launchable() <==> !manager@.transcode || manager@.hls_segment_duration
            <= 71_582_788,
{
}

/// Taking a session out touches that session alone, and counting its end touches the
/// counts alone.
pub proof fn law_end_touches_session_and_counts(m: ManagerModel, id: usize, other: usize)
    ensures
        !m.without_session(id).sessions.dom().contains(id),
        other != id ==> (m.without_session(id).sessions.dom().contains(other)
            <==> m.sessions.dom().contains(other)),
        other != id && m.sessions.dom().contains(other) ==> m.without_session(id).sessions[other]
            == m.sessions[other],
        m.without_session(id).metrics == m.metrics,
        m.with_end().sessions == m.sessions,
        m.with_end() == (ManagerModel { metrics: m.with_end().metrics, ..m }),
        m.with_end().metrics.removed_sessions_total == (m.metrics.removed_sessions_total + 1)
            % 0x1_0000_0000_0000_0000,
        m.metrics.active_sessions > i64::MIN ==> m.with_end().metrics.active_sessions
            == m.metrics.active_sessions - 1,
        m.with_end().metrics.created_sessions_total == m.metrics.created_sessions_total,
        m.with_end().metrics.token_refresh_total == m.metrics.token_refresh_total,
{
}

/// The count of active sessions is right where it is the number of channels that have
/// one.
pub proof fn law_tally_is_number_of_sessions(m: ManagerModel)
    requires
        m.sessions.dom().finite(),
    ensures
        m.is_tallied() <==> m.metrics.active_sessions == m.sessions.dom().len(),
{
}

} // verus!
