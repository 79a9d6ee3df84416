use jambox_go_rs::domain::Cookies;
use jambox_go_rs::rewriter;

fn cookies() -> Cookies {
    Cookies { id: "id7".to_string(), seed: "seed-1".to_string(), devices: Vec::new() }
}

#[test]
fn rewrite_playlist_urls_basic() {
    // a small HLS playlist with comments and media entries
    let input =
        "#EXTM3U\n#EXT-X-VERSION:3\n#EXTINF:4,\nseg_0.ts\n#EXTINF:4,\nseg_1.ts\n#EXT-X-ENDLIST\n";
    let out = rewriter::rewrite_playlist_urls(input, 7);
    let expected = "#EXTM3U\n#EXT-X-VERSION:3\n#EXTINF:4,\n/channel/7/seg_0.ts\n#EXTINF:4,\n/channel/7/seg_1.ts\n#EXT-X-ENDLIST\n";
    assert_eq!(out, expected);
}

#[test]
fn rewrite_upstream_playlist_segments_key_line() {
    // ensure we can rewrite a key URI to absolute
    let input =
        "#EXTM3U\n#EXT-X-KEY:METHOD=AES-128,URI=\"key.key\",IV=0xabcdef\n#EXTINF:4,\nseg_0.ts\n";
    let base = "https://example.com/path/playlist.m3u8";
    let out = rewriter::rewrite_upstream_playlist_segments(input, base);
    assert!(out.contains("URI=\"https://example.com/path/key.key\""));
}

#[test]
fn local_playlist_without_final_line_feed_gets_none() {
    assert_eq!(rewriter::rewrite_playlist_urls("seg_0.m4s", 0), "/channel/0/seg_0.m4s");
    assert_eq!(rewriter::rewrite_playlist_urls("", 0), "");
    assert_eq!(rewriter::rewrite_playlist_urls("\n\n", 3), "\n\n");
}

#[test]
fn local_playlist_drops_carriage_returns() {
    assert_eq!(
        rewriter::rewrite_playlist_urls("#EXTM3U\r\nseg_0.ts\r\n", 12),
        "#EXTM3U\n/channel/12/seg_0.ts\n"
    );
}

#[test]
fn local_playlist_rewrites_map_line() {
    let input = "#EXT-X-MAP:URI=\"init.mp4\"\nseg_00001.m4s\n";
    assert!(rewriter::can_rewrite_playlist_urls(input));
    assert_eq!(
        rewriter::rewrite_playlist_urls(input, 5),
        "#EXT-X-MAP:URI=\"/channel/5/init.mp4\"\n/channel/5/seg_00001.m4s\n"
    );
}

#[test]
fn local_playlist_leaves_other_lines() {
    let input = "#EXT-X-MAP:NAME=x\nlist.m3u8\n   \n#seg_0.ts\n";
    assert_eq!(rewriter::rewrite_playlist_urls(input, 5), input);
}

#[test]
fn map_line_that_cannot_be_cut_is_refused() {
    assert!(!rewriter::can_rewrite_playlist_urls("#EXT-X-MAP:URI="));
    assert!(!rewriter::can_rewrite_playlist_urls("#EXT-X-MAP:URI=\u{17c}x"));
    assert!(rewriter::can_rewrite_playlist_urls("#EXT-X-MAP:URI=\"\""));
    assert!(rewriter::can_rewrite_playlist_urls("URI="));
    assert!(rewriter::can_rewrite_playlist_urls("#EXT-X-MAP:N=\u{17c},URI=\"\u{17c}\""));
}

#[test]
fn key_line_is_normalized() {
    let input = "#EXTM3U\n#EXT-X-KEY:METHOD=AES-128,URI=\"key.key\",IV=0xabcdef\nseg_0.ts";
    let base = "https://example.com/path/playlist.m3u8";
    assert_eq!(
        rewriter::rewrite_upstream_playlist_segments(input, base),
        "#EXTM3U\n#EXT-X-KEY:METHOD=AES-128,URI=\"https://example.com/path/key.key\",IV=\"0xabcdef\"\nseg_0.ts"
    );
}

#[test]
fn key_rewrite_settles() {
    let input = "#EXT-X-KEY:METHOD=AES-128,URI=\"key.key\",IV=0xabcdef\n";
    let base = "https://example.com/path/playlist.m3u8";
    let once = rewriter::rewrite_upstream_playlist_segments(input, base);
    assert_eq!(rewriter::rewrite_upstream_playlist_segments(&once, base), once);
}

#[test]
fn key_rewrite_settles_with_a_quote_in_the_address() {
    let input = "#EXT-X-KEY:METHOD=AES-128,URI=\"#c\",IV=0x1\n";
    let once = rewriter::rewrite_upstream_playlist_segments(input, "x:a\"b");
    assert!(once.contains("x:a\"b#c"));
    assert_eq!(rewriter::rewrite_upstream_playlist_segments(&once, "x:a\"b"), once);
}

#[test]
fn key_line_with_bad_base_keeps_address() {
    let input = "#EXT-X-KEY:METHOD=AES-128,URI=\"key.key\",IV=0x0f\n";
    assert_eq!(
        rewriter::rewrite_upstream_playlist_segments(input, "no url"),
        "#EXT-X-KEY:METHOD=AES-128,URI=\"key.key\",IV=\"0x0f\"\n"
    );
}

#[test]
fn playlist_without_key_is_unchanged() {
    let input = "#EXTM3U\r\n#EXT-X-KEY:METHOD=NONE\r\nseg_0.ts\r\n";
    assert_eq!(
        rewriter::rewrite_upstream_playlist_segments(input, "https://example.com/a"),
        input
    );
    assert!(rewriter::find_key(input).is_none());
}

#[test]
fn key_is_found_and_placed() {
    let input = "#EXTM3U\n#EXT-X-KEY:METHOD=AES-128,URI=\"k\",IV=0xAB\n";
    let key = rewriter::find_key(input).unwrap();
    assert_eq!((key.index, key.uri.as_str(), key.iv.as_str()), (1, "k", "0xAB"));
    assert_eq!(
        rewriter::place_key_address(input, Some("K".to_string())),
        "#EXTM3U\n#EXT-X-KEY:METHOD=AES-128,URI=\"K\",IV=\"0xAB\"\n"
    );
}

#[test]
fn upstream_playlist_is_signed_line_by_line() {
    let input = "#EXTM3U\n#EXT-X-KEY:METHOD=AES-128,URI=\"key.key\",IV=0xabcdef\n#EXTINF:4,\nseg_0.ts\nhttps://cdn.example.com/x.ts?a=1\n";
    let base = "https://example.com/path/high/playlist.m3u8";
    assert!(rewriter::can_sign_upstream_playlist(input, base, "tok", &cookies()));
    assert_eq!(
        rewriter::sign_upstream_playlist(input, base, "tok", &cookies()),
        "#EXTM3U\n#EXT-X-KEY:METHOD=AES-128,URI=\"https://example.com/path/high/key.key?token=tok&hash=id7\",IV=\"0xabcdef\"\n#EXTINF:4,\nhttps://example.com/path/high/seg_0.ts?token=tok&hash=id7\nhttps://cdn.example.com/x.ts?a=1&token=tok&hash=id7\n"
    );
}

#[test]
fn map_line_behind_other_letters_is_rewritten() {
    let input = "#EXT-X-MAP:N=\"\u{17c}\u{f3}\",URI=\"init.mp4\",X=1\n";
    assert_eq!(
        rewriter::rewrite_playlist_urls(input, 5),
        "#EXT-X-MAP:N=\"\u{17c}\u{f3}\",URI=\"/channel/5/init.mp4\",X=1\n"
    );
    let open = "#EXT-X-MAP:N=\u{17c},URI=\"init.mp4\n";
    assert_eq!(rewriter::rewrite_playlist_urls(open, 5), open);
}

#[test]
fn playlist_without_addresses_is_handed_on() {
    for input in ["#EXTM3U\r\n", "#EXTM3U\r\n\r\n#X", "#EXTM3U\n#EXT-X-KEY:METHOD=NONE\r\n", "\r", ""] {
        assert_eq!(
            rewriter::sign_upstream_playlist(input, "https://e.com/a", "t", &cookies()),
            input
        );
    }
}

#[test]
fn signed_lines_keep_their_endings() {
    let base = "https://e.com/tv/a.m3u8";
    assert_eq!(
        rewriter::sign_upstream_playlist("#EXTM3U\r\ns.ts\r\n#X\nu.ts", base, "t", &cookies()),
        "#EXTM3U\r\nhttps://e.com/tv/s.ts?token=t&hash=id7\r\n#X\nhttps://e.com/tv/u.ts?token=t&hash=id7"
    );
    // a normalized key line comes with normalized endings
    assert_eq!(
        rewriter::sign_upstream_playlist(
            "#EXTM3U\r\n#EXT-X-KEY:METHOD=AES-128,URI=\"k\",IV=0x1\r\n",
            base,
            "t",
            &cookies()
        ),
        "#EXTM3U\n#EXT-X-KEY:METHOD=AES-128,URI=\"https://e.com/tv/k?token=t&hash=id7\",IV=\"0x1\"\n"
    );
}

#[test]
fn key_line_without_vector_is_signed_in_place() {
    let input = "#EXT-X-KEY:METHOD=AES-128,URI=\"k\",KEYFORMAT=\"identity\"\r\n#EXT-X-KEY:METHOD=AES-128,IV=0x2,URI=\"l\"\r\n";
    assert_eq!(
        rewriter::sign_upstream_playlist(input, "https://e.com/tv/a.m3u8", "t", &cookies()),
        "#EXT-X-KEY:METHOD=AES-128,URI=\"https://e.com/tv/k?token=t&hash=id7\",KEYFORMAT=\"identity\"\r\n#EXT-X-KEY:METHOD=AES-128,IV=0x2,URI=\"https://e.com/tv/l?token=t&hash=id7\"\r\n"
    );
    assert_eq!(rewriter::address_of("#EXT-X-KEY:METHOD=AES-128,URI=\"\""), None);
    assert_eq!(rewriter::address_of("#EXT-X-KEY:METHOD=NONE"), None);
}

#[test]
fn lines_hold_addresses() {
    assert_eq!(rewriter::address_of("seg_0.ts").as_deref(), Some("seg_0.ts"));
    assert_eq!(rewriter::address_of("#EXTINF:4,"), None);
    assert_eq!(
        rewriter::address_of("#EXT-X-KEY:METHOD=AES-128,URI=\"k\",IV=0x1").as_deref(),
        Some("k")
    );
    assert_eq!(rewriter::place_address("seg_0.ts", "u"), "u");
    assert_eq!(rewriter::place_address("#EXTINF:4,", "u"), "#EXTINF:4,");
}
