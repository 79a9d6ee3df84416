use jambox_go_rs::clock::{now, seconds, time_of, Timestamp};
use jambox_go_rs::metrics::Metrics;
use jambox_go_rs::session::{
    begin_quit, continue_quit, ffmpeg_args, output_ready, quit_command, scan_playlist,
    start_action, EnsureStep, FfmpegSession, PlaylistScan, ProgressTracker, QuitReport, QuitStage,
    SessionManager, StartAction, StartEvent,
};

fn at(secs: i128) -> Timestamp {
    Timestamp { nanos: secs * 1_000_000_000 }
}

fn manager() -> SessionManager {
    SessionManager::new("/streams".to_string(), seconds(180), 4, 6, Metrics::new())
}

fn start(m: &mut SessionManager, id: usize, time: Timestamp) {
    m.on_ready(id, format!("name {id}"), time, time);
}

#[test]
fn ffmpeg_copies_into_transport_stream() {
    let args = ffmpeg_args("http://h:1/u.m3u8", "/s/ch_3", 4, 6, false, false);
    let expected = [
        "-y", "-protocol_whitelist", "file,crypto,data,https,http,tcp,tls", "-reconnect", "1",
        "-reconnect_streamed", "1", "-reconnect_on_network_error", "1", "-reconnect_delay_max",
        "2", "-fflags", "+genpts+discardcorrupt+igndts", "-avoid_negative_ts", "make_zero",
        "-allowed_extensions", "ALL", "-i", "http://h:1/u.m3u8", "-hls_segment_type", "mpegts",
        "-hls_segment_filename", "/s/ch_3/seg_%05d.ts", "-mpegts_flags",
        "resend_headers+pat_pmt_at_frames", "-flush_packets", "1", "-c", "copy", "-f", "hls",
        "-hls_time", "4", "-hls_list_size", "6", "-hls_init_time", "0", "-hls_flags",
        "append_list+omit_endlist+delete_segments+program_date_time+independent_segments+temp_file+discont_start",
        "-muxdelay", "0", "-muxpreload", "0", "-max_interleave_delta", "0",
        "-hls_delete_threshold", "1", "-nostats", "-loglevel", "info", "-progress", "pipe:1",
        "/s/ch_3/out.m3u8",
    ];
    assert_eq!(args, expected);
    assert!(!args.contains(&"-reconnect_at_eof".to_string()));
}

#[test]
fn ffmpeg_transcodes_into_fragments() {
    let args = ffmpeg_args("u", "/s", 2, 8, true, true);
    let after = |name: &str| args[args.iter().position(|a| a == name).unwrap() + 1].as_str();
    assert_eq!(after("-bsf:a"), "aac_adtstoasc");
    assert_eq!(after("-hls_segment_type"), "fmp4");
    assert_eq!(after("-hls_fmp4_init_filename"), "init.mp4");
    assert_eq!(after("-hls_segment_filename"), "/s/seg_%05d.m4s");
    assert_eq!(after("-c:v"), "libx264");
    assert_eq!(after("-x264-params"), "scenecut=0:open_gop=0:keyint=120:min-keyint=120");
    assert_eq!(after("-g"), "120");
    assert_eq!(after("-force_key_frames"), "expr:gte(t,n_forced*2)");
    assert_eq!(after("-c:a"), "copy");
    assert_eq!(after("-hls_init_time"), "2");
}

#[test]
fn playlist_is_scanned_for_map_and_segment() {
    let scan = scan_playlist("#EXTM3U\n#EXT-X-MAP:URI=\"init.mp4\"\n#EXTINF:4,\n seg_00001.m4s\nseg_2.m4s\n");
    assert!(scan.has_map);
    assert_eq!(scan.first_segment.as_deref(), Some("seg_00001.m4s"));
    let late = scan_playlist("seg.ts\n#EXT-X-MAP:URI=\"init.mp4\"\n");
    assert!(!late.has_map);
    let none = scan_playlist("#EXTM3U\n\nlist.m3u8\nseg.ts \n");
    assert_eq!(none.first_segment, None);
}

#[test]
fn output_is_ready_with_its_files() {
    let full = PlaylistScan { has_map: true, first_segment: Some("s".to_string()) };
    let bare = PlaylistScan { has_map: false, first_segment: Some("s".to_string()) };
    let none = PlaylistScan { has_map: true, first_segment: None };
    assert!(output_ready(false, &bare, None, Some(1)));
    assert!(!output_ready(false, &bare, None, Some(0)));
    assert!(!output_ready(false, &bare, None, None));
    assert!(!output_ready(false, &none, Some(1), Some(1)));
    assert!(output_ready(true, &full, Some(1), Some(1)));
    assert!(!output_ready(true, &full, Some(0), Some(1)));
    assert!(!output_ready(true, &bare, Some(1), Some(1)));
}

#[test]
fn start_fails_with_a_message() {
    let message = |e: StartEvent| match start_action(e, "/s/out.m3u8") {
        StartAction::Fail(m) => m,
        other => panic!("{:?}", other),
    };
    assert_eq!(
        message(StartEvent::Timeout),
        "ffmpeg failed: playlist creation timeout (10s) for /s/out.m3u8"
    );
    assert_eq!(
        message(StartEvent::Exited(Some(-1))),
        "ffmpeg exited before playlist creation: Some(-1)"
    );
    assert_eq!(message(StartEvent::Exited(None)), "ffmpeg exited before playlist creation: None");
    assert_eq!(
        message(StartEvent::WatcherClosed),
        "watcher closed before playlist creation: /s/out.m3u8"
    );
    assert_eq!(message(StartEvent::WaitFailed("why".to_string())), "why");
}

#[test]
fn start_inspects_the_playlist_only() {
    let changed = |written: bool, name: &str| {
        start_action(
            StartEvent::Changed { written, names: vec!["x".to_string(), name.to_string()] },
            "/s/out.m3u8",
        )
    };
    assert!(matches!(changed(true, "out.m3u8"), StartAction::Inspect));
    assert!(matches!(changed(false, "out.m3u8"), StartAction::Wait));
    assert!(matches!(changed(true, "out.m3u8.tmp"), StartAction::Wait));
}

#[test]
fn progress_reports_growth() {
    let mut t = ProgressTracker::new();
    for line in ["frame=10\n", "dup_frames=1\r\n", "drop_frames=+2\n", "out_time_ms=4000\n", "speed= 1x\n"] {
        assert_eq!(t.on_line(line), None);
    }
    let first = t.on_line("progress=continue\n").unwrap();
    assert_eq!(
        (first.time_ms, first.dup, first.drop, first.frame),
        (Some(4000), Some(1), Some(2), Some(10))
    );
    t.on_line("frame=25\n");
    t.on_line("dup_frames=0\n");
    t.on_line("drop_frames=N/A\n");
    let second = t.on_line("progress=continue\n").unwrap();
    assert_eq!((second.dup, second.drop, second.frame), (None, Some(0), Some(15)));
    assert_eq!(t.on_line("progress=end\n"), None);
    assert_eq!(t.on_line("no value\n"), None);
    assert_eq!((t.last.frame, t.last.dup), (25, 0));
}

#[test]
fn totals_follow_reports() {
    let mut t = ProgressTracker::new();
    let mut total = 0;
    for frame in [3u64, 9, 9, 20] {
        t.on_line(&format!("frame={frame}\n"));
        total += t.on_line("progress=continue").unwrap().frame.unwrap();
    }
    assert_eq!(total, 20);
}

#[test]
fn numbers_that_do_not_fit_are_passed_over() {
    let mut t = ProgressTracker::new();
    t.on_line("frame=18446744073709551615");
    assert_eq!(t.current.frame, u64::MAX);
    t.on_line("frame=18446744073709551616");
    t.on_line("frame=-1");
    t.on_line("frame=");
    assert_eq!(t.current.frame, u64::MAX);
}

#[test]
fn quit_takes_its_course() {
    assert_eq!(quit_command(), "q\n");
    let mut stage = begin_quit(true, true);
    let mut course = vec![stage];
    for report in [QuitReport::Done, QuitReport::TimedOut, QuitReport::Done, QuitReport::Done] {
        stage = continue_quit(stage, report, true);
        course.push(stage);
    }
    assert_eq!(
        course,
        vec![
            QuitStage::SendQuit,
            QuitStage::AwaitExit,
            QuitStage::Kill,
            QuitStage::RemoveDir,
            QuitStage::Finished
        ]
    );
    assert_eq!(begin_quit(false, true), QuitStage::AwaitExit);
    assert_eq!(begin_quit(false, false), QuitStage::RemoveDir);
    assert_eq!(continue_quit(QuitStage::SendQuit, QuitReport::Done, false), QuitStage::RemoveDir);
    assert_eq!(continue_quit(QuitStage::AwaitExit, QuitReport::Done, true), QuitStage::RemoveDir);
}

#[test]
fn session_is_launched_once() {
    let mut m = manager().with_transcode(false);
    match m.ensure_session(3, "http://h:1/channel/3/upstream.m3u8") {
        EnsureStep::Launch { dir, output, args } => {
            assert_eq!(dir, "/streams/ch_3");
            assert_eq!(output, "/streams/ch_3/out.m3u8");
            assert_eq!(
                args,
                ffmpeg_args("http://h:1/channel/3/upstream.m3u8", "/streams/ch_3", 4, 6, false, false)
            );
        }
        other => panic!("{:?}", other),
    }
    start(&mut m, 3, at(100));
    assert!(matches!(m.ensure_session(3, "u"), EnsureStep::Running));
    assert!(matches!(m.ensure_session(4, "u"), EnsureStep::Launch { .. }));
    assert!(m.sessions().contains_key(&3));
    assert_eq!(m.access(3, at(101)).unwrap().dir, "/streams/ch_3");
}

#[test]
fn settings_decide_what_is_launched() {
    let args = |m: &SessionManager| match m.ensure_session(0, "u") {
        EnsureStep::Launch { args, .. } => args,
        other => panic!("{:?}", other),
    };
    assert!(args(&manager()).contains(&"libx264".to_string()));
    assert!(!manager().uses_fmp4());
    let fragments = manager().with_fmp4(true).with_transcode(false);
    assert!(fragments.uses_fmp4());
    assert!(args(&fragments).contains(&"init.mp4".to_string()));
    assert!(!args(&fragments).contains(&"libx264".to_string()));
}

#[test]
fn launch_needs_a_key_frame_interval_that_fits() {
    let long = SessionManager::new("/s".to_string(), 0, u32::MAX / 60, 6, Metrics::new());
    assert!(long.can_launch());
    let longer = SessionManager::new("/s".to_string(), 0, u32::MAX / 60 + 1, 6, Metrics::new());
    assert!(!longer.can_launch());
    let mut longer = longer;
    start(&mut longer, 1, at(0));
    // a channel that is running needs no launch
    assert!(matches!(longer.ensure_session(1, "u"), EnsureStep::Running));
    assert!(longer.with_transcode(false).can_launch());
}

#[test]
fn idle_sessions_are_collected() {
    let mut m = manager();
    start(&mut m, 1, at(0));
    start(&mut m, 2, at(100));
    start(&mut m, 3, at(500));
    assert_eq!(m.idle_sessions(at(180)), Vec::<usize>::new());
    let just_over = Timestamp { nanos: at(180).nanos + 1 };
    assert_eq!(m.idle_sessions(just_over), vec![1]);
    let mut idle = m.idle_sessions(at(400));
    idle.sort();
    assert_eq!(idle, vec![1, 2]);
    for id in idle {
        let session = m.remove(id).unwrap();
        assert_eq!(session.channel_name, format!("name {id}"));
        assert_eq!(m.on_ended(&session, at(400)), Some(at(400).nanos as u128 - session.created_at.nanos as u128));
    }
    assert_eq!(m.channels(), vec![3]);
    assert_eq!(m.metrics().active_sessions, 1);
    assert_eq!(m.metrics().created_sessions_total, 3);
    assert_eq!(m.metrics().removed_sessions_total, 2);
    assert!(m.remove(1).is_none());
    m.on_token_refreshed();
    assert_eq!(m.metrics().token_refresh_total, 1);
    assert_eq!(m.metrics().active_sessions, 1);
}

#[test]
fn access_defers_collection() {
    let mut m = manager();
    start(&mut m, 1, at(0));
    let touched = m.access(1, at(150)).unwrap();
    assert_eq!(touched.last_access, at(150));
    assert_eq!(touched.created_at, at(0));
    assert_eq!(touched.dir, "/streams/ch_1");
    assert_eq!(m.idle_sessions(at(200)), Vec::<usize>::new());
    assert_eq!(m.idle_sessions(at(331)), vec![1]);
    assert!(m.access(2, at(150)).is_none());
}

#[test]
fn touch_takes_the_clock() {
    let mut s = FfmpegSession {
        dir: "d".to_string(),
        last_access: at(0),
        created_at: at(0),
        channel_name: "c".to_string(),
    };
    s.touch();
    assert!(s.last_access.nanos > at(1_600_000_000).nanos);
    assert_eq!(s.clone().dir, "d");
    s.touch_at(at(7));
    assert_eq!(s.last_access, at(7));
}

#[test]
fn spans_are_measured() {
    assert_eq!(time_of(Ok((2, 5))).nanos, 2_000_000_005);
    assert_eq!(time_of(Err((2, 5))).nanos, -2_000_000_005);
    assert_eq!(at(5).duration_since(at(2)), Some(3_000_000_000));
    assert_eq!(at(2).duration_since(at(5)), None);
    let first = Timestamp { nanos: i128::MIN };
    let last = Timestamp { nanos: i128::MAX };
    assert_eq!(last.duration_since(first), Some(u128::MAX));
    assert!(now().nanos > at(1_600_000_000).nanos);
}
