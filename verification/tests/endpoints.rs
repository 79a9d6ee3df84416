use jambox_go_rs::db::{channel_found, channel_offset, ChannelRow, NewChannel, NewChannelOwned};
use jambox_go_rs::domain::Cookies;
use jambox_go_rs::handlers::{
    self, Body, FetchAction, FileFacts, LogoStep, PlaylistStep, Response, SegmentStep,
    UpstreamFetch,
};

fn row(sgtid: i32, name: &str) -> ChannelRow {
    ChannelRow { id: 1, sgtid, name: name.to_string(), url: "https://example.com/x".to_string() }
}

fn text(r: &Response) -> &str {
    match &r.body {
        Body::Text(t) => t,
        _ => panic!("no text"),
    }
}

fn headers(r: &Response) -> Vec<(&str, &str)> {
    r.headers.iter().map(|h| (h.0.as_str(), h.1.as_str())).collect()
}

fn facts() -> FileFacts {
    FileFacts { size: 4096, modified: Some(1_700_000_010) }
}

const TAG: &str = "\"1000-6553f10a\"";
const DATE: &str = "Tue, 14 Nov 2023 22:13:30 GMT";

#[test]
fn metrics_are_served_as_text() {
    let ok = handlers::get_metrics(Ok("body".to_string()));
    assert_eq!((ok.status, text(&ok)), (200, "body"));
    assert_eq!(headers(&ok), vec![("content-type", "text/plain; version=0.0.4")]);
    let failed = handlers::get_metrics(Err("utf8 error".to_string()));
    assert_eq!((failed.status, text(&failed)), (500, "metrics encode error: utf8 error"));
}

#[test]
fn channels_are_listed() {
    let r = handlers::get_playlist(Some(vec![row(5, "A"), row(6, "B")]), "10.0.0.1", 8098);
    assert_eq!(r.status, 200);
    assert_eq!(
        headers(&r),
        vec![
            ("content-type", "application/vnd.apple.mpegurl"),
            ("content-disposition", "attachment; filename=playlist.m3u8")
        ]
    );
    assert_eq!(
        text(&r),
        "#EXTM3U\n#EXTINF:-1 tvg-id=\"0\" tvg-name=\"A\" tvg-logo=\"/channel/0/logo.png\",A\nhttp://10.0.0.1:8098/channel/0/playlist.m3u8\n#EXTINF:-1 tvg-id=\"1\" tvg-name=\"B\" tvg-logo=\"/channel/1/logo.png\",B\nhttp://10.0.0.1:8098/channel/1/playlist.m3u8\n"
    );
    assert_eq!(handlers::render_channels(&Vec::new(), "h", 1), "#EXTM3U\n");
}

#[test]
fn list_fails_without_channels() {
    let failed = handlers::get_playlist(None, "h", 1);
    assert_eq!((failed.status, text(&failed)), (500, "DB query error"));
    let empty = handlers::get_playlist(Some(Vec::new()), "h", 1);
    assert_eq!((empty.status, text(&empty)), (503, "channels DB empty"));
}

#[test]
fn logo_is_looked_for_in_the_cache() {
    let ch = row(42, "A");
    match handlers::logo_requested(Some(&ch), "/var/lib/jambox") {
        LogoStep::Look { dir, path } => {
            assert_eq!(dir, "/var/lib/jambox/logos");
            assert_eq!(path, "/var/lib/jambox/logos/42.png");
        }
        other => panic!("{:?}", other),
    }
    match handlers::logo_requested(None, "/d") {
        LogoStep::Answer(r) => assert_eq!((r.status, text(&r)), (404, "Channel not found")),
        other => panic!("{:?}", other),
    }
}

#[test]
fn logo_that_is_missing_or_empty_is_fetched() {
    let ch = row(-7, "A");
    for size in [None, Some(0)] {
        match handlers::logo_looked_up(&ch, size) {
            LogoStep::Fetch { url } => {
                assert_eq!(url, "https://static.sgtsa.pl/channels/logos/-7.png")
            }
            other => panic!("{:?}", other),
        }
    }
    assert!(matches!(handlers::logo_looked_up(&ch, Some(1)), LogoStep::Open));
}

#[test]
fn logo_is_served_with_validators() {
    let r = handlers::logo_opened(Some(facts()), None, None);
    assert_eq!(r.status, 200);
    assert!(matches!(r.body, Body::File));
    assert_eq!(
        headers(&r),
        vec![
            ("last-modified", DATE),
            ("etag", TAG),
            ("content-type", "image/png"),
            ("cache-control", "public, max-age=86400")
        ]
    );
    let undated = handlers::logo_opened(Some(FileFacts { size: 1, modified: None }), Some(TAG), Some(DATE));
    assert_eq!(undated.status, 200);
    assert_eq!(
        headers(&undated),
        vec![("content-type", "image/png"), ("cache-control", "public, max-age=86400")]
    );
}

#[test]
fn logo_that_cannot_be_opened_is_missing() {
    let r = handlers::logo_opened(None, None, None);
    assert_eq!((r.status, text(&r)), (404, "Logo unavailable"));
}

#[test]
fn echoed_tag_is_not_modified() {
    for list in [TAG.to_string(), format!("\"x\" ,  {TAG} , \"y\"")] {
        let r = handlers::logo_opened(Some(facts()), Some(&list), Some("nonsense"));
        assert_eq!(r.status, 304);
        assert!(matches!(r.body, Body::Empty));
        assert_eq!(
            headers(&r),
            vec![
                ("etag", TAG),
                ("last-modified", DATE),
                ("cache-control", "public, max-age=86400")
            ]
        );
    }
    assert_eq!(handlers::logo_opened(Some(facts()), Some("\"x\""), None).status, 200);
    assert_eq!(handlers::etag_text(4096, 1_700_000_010), TAG);
    assert!(!handlers::lists_tag("", TAG));
}

#[test]
fn echoed_date_is_not_modified() {
    let r = handlers::logo_opened(Some(facts()), None, Some(DATE));
    assert_eq!(r.status, 304);
    assert_eq!(
        headers(&r),
        vec![
            ("last-modified", DATE),
            ("etag", TAG),
            ("cache-control", "public, max-age=86400")
        ]
    );
    let earlier = "Tue, 14 Nov 2023 22:13:29 GMT";
    assert_eq!(handlers::logo_opened(Some(facts()), None, Some(earlier)).status, 200);
    assert_eq!(handlers::logo_opened(Some(facts()), None, Some("yesterday")).status, 200);
    // an unknown tag does not keep the date from deciding
    assert_eq!(handlers::logo_opened(Some(facts()), Some("\"x\""), Some(DATE)).status, 304);
    assert_eq!(handlers::logo_answer(facts(), None, Some(1_700_000_009), None).status, 200);
}

#[test]
fn playlist_request_needs_a_channel() {
    match handlers::playlist_requested(true, "0.0.0.0", 8098, 3) {
        PlaylistStep::Ensure { upstream } => {
            assert_eq!(upstream, "http://0.0.0.0:8098/channel/3/upstream.m3u8")
        }
        other => panic!("{:?}", other),
    }
    match handlers::playlist_requested(false, "0.0.0.0", 8098, 3) {
        PlaylistStep::Answer(r) => assert_eq!((r.status, text(&r)), (404, "Channel not found")),
        other => panic!("{:?}", other),
    }
}

#[test]
fn local_playlist_is_served_uncached() {
    let r = handlers::channel_playlist(Some("#EXTM3U\nseg_0.ts\n"), 3);
    assert_eq!((r.status, text(&r)), (200, "#EXTM3U\n/channel/3/seg_0.ts\n"));
    assert_eq!(
        headers(&r),
        vec![
            ("content-type", "application/vnd.apple.mpegurl"),
            ("cache-control", "no-store, max-age=0"),
            ("pragma", "no-cache"),
            ("expires", "0")
        ]
    );
    let none = handlers::channel_playlist(None, 3);
    assert_eq!((none.status, text(&none)), (503, "service not available"));
}

#[test]
fn segment_paths_cannot_lead_out() {
    for bad in ["a/b.ts", "a\\b.ts", "..", "a..ts"] {
        match handlers::channel_segment(bad, true) {
            SegmentStep::Answer(r) => {
                assert_eq!((r.status, text(&r)), (400, "invalid segment path"))
            }
            other => panic!("{:?}", other),
        }
    }
}

#[test]
fn segments_are_served_from_sessions() {
    match handlers::channel_segment("seg_00001.ts", true) {
        SegmentStep::Serve { path, headers } => {
            assert_eq!(path, "/seg_00001.ts");
            assert_eq!(headers.len(), 3);
            assert_eq!(headers[0].1, "no-store, max-age=0");
        }
        other => panic!("{:?}", other),
    }
    match handlers::channel_segment("seg_00001.ts", false) {
        SegmentStep::Answer(r) => assert_eq!((r.status, text(&r)), (404, "Segment not found")),
        other => panic!("{:?}", other),
    }
    assert_eq!(handlers::no_store_headers().len(), 3);
}

#[test]
fn quality_comes_before_the_playlist() {
    assert_eq!(
        handlers::url_for_quality("https://e.com/tv/playlist.m3u8?x=playlist.m3u8", "high"),
        "https://e.com/tv/high/playlist.m3u8?x=playlist.m3u8"
    );
    assert_eq!(handlers::url_for_quality("https://e.com/tv/index", "high"), "https://e.com/tv/index");
}

#[test]
fn metrics_label_has_no_query() {
    assert_eq!(handlers::label_for_metrics("HTTPS://E.com/tv/a?x=1#f"), "https://e.com/tv/a");
    assert_eq!(handlers::label_for_metrics("no url?x=1?y"), "no url");
    assert_eq!(handlers::choose_label(None, "?x"), "");
    assert_eq!(handlers::choose_label(Some("u".to_string()), "?x"), "u");
}

#[test]
fn token_is_refreshed_once() {
    let mut fetch = UpstreamFetch::new();
    assert_eq!(fetch.on_answer(Some(403)), FetchAction::Refresh);
    assert!(fetch.refreshed);
    assert_eq!(fetch.on_answer(Some(403)), FetchAction::Fail);
    assert_eq!(UpstreamFetch::new().on_answer(Some(200)), FetchAction::Serve);
    assert_eq!(UpstreamFetch::new().on_answer(Some(404)), FetchAction::Fail);
    assert_eq!(UpstreamFetch::new().on_answer(None), FetchAction::Fail);
    let mut again = UpstreamFetch { refreshed: true };
    assert_eq!(again.on_answer(Some(204)), FetchAction::Serve);
}

#[test]
fn failed_refresh_keeps_the_token() {
    assert_eq!(handlers::token_after_refresh("a".to_string(), None), "a");
    assert_eq!(handlers::token_after_refresh("a".to_string(), Some("b".to_string())), "b");
}

#[test]
fn upstream_playlist_is_served_signed() {
    let cookies = Cookies { id: "i".to_string(), seed: "s".to_string(), devices: Vec::new() };
    let base = "https://e.com/tv/high/playlist.m3u8";
    let r = handlers::channel_upstream_playlist(Some("#EXTM3U\nseg.ts\n"), base, "t", &cookies);
    assert_eq!(
        (r.status, text(&r)),
        (200, "#EXTM3U\nhttps://e.com/tv/high/seg.ts?token=t&hash=i\n")
    );
    assert_eq!(
        headers(&r),
        vec![
            ("content-type", "application/vnd.apple.mpegurl"),
            ("cache-control", "no-store, max-age=0")
        ]
    );
    let failed = handlers::channel_upstream_playlist(None, base, "t", &cookies);
    assert_eq!((failed.status, text(&failed)), (502, "Upstream fetch failed"));
    let checked = handlers::try_channel_upstream_playlist(Some("seg.ts"), base, "t", &cookies);
    assert_eq!(text(&checked.unwrap()), "https://e.com/tv/high/seg.ts?token=t&hash=i");
    let none = handlers::try_channel_upstream_playlist(None, base, "t", &cookies);
    assert_eq!(none.unwrap().status, 502);
    assert_eq!(text(&handlers::channel_missing()), "Channel not found");
}

#[test]
fn channel_rows_are_found_by_offset() {
    assert_eq!(channel_offset(3), 3);
    assert!(channel_found(Vec::new()).is_none());
    assert_eq!(channel_found(vec![row(9, "A")]).unwrap().sgtid, 9);
}

#[test]
fn new_channels_own_their_texts() {
    let owned = NewChannelOwned::from(NewChannel { sgtid: 4, name: "A", url: "u" });
    assert_eq!((owned.sgtid, owned.name.as_str(), owned.url.as_str()), (4, "A", "u"));
}
