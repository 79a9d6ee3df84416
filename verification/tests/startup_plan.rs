use jambox_go_rs::assets::{
    select_channels, AlternateId, Asset, AssetUrlField, Assets, Constraints,
};
use jambox_go_rs::config::Cli;
use jambox_go_rs::domain::{Cookies, Device, Qualities, QualityInfo};
use jambox_go_rs::metrics::{encode_text, metric_descriptors, session_labels, MetricKind, Metrics};
use jambox_go_rs::clock::Timestamp;
use jambox_go_rs::sorting::{is_before, sorted};
use jambox_go_rs::startup::{self, LoginPlan, TablePlan};
use jambox_go_rs::text;

fn cookies(id: &str, seed: &str, device: Option<&str>) -> Cookies {
    Cookies {
        id: id.to_string(),
        seed: seed.to_string(),
        devices: device.map(|d| Device { id: d.to_string() }).into_iter().collect(),
    }
}

fn constraints() -> Constraints {
    Constraints { live: true, cu: false, so: false, npvr: false, navigable_services: Vec::new(), cast: false }
}

fn asset(sgtid: u32, name: &str, url: Option<AssetUrlField>) -> Asset {
    Asset {
        sgtid,
        epg_mapping_id: 0,
        name: name.to_string(),
        category: None,
        category_start: false,
        number: 0,
        entitled: true,
        a_logo: None,
        a_cu_max_time: String::new(),
        default_number: None,
        name_encoded: None,
        alternate_id: Some(AlternateId::Array(Vec::new())),
        constraints_out_of_home: constraints(),
        constraints_at_home: constraints(),
        url,
    }
}

fn stream(url: &str) -> Option<AssetUrlField> {
    Some(AssetUrlField::Object { hls_ac3: "ac3".to_string(), hls_aac: url.to_string() })
}

fn qualities(names: &[&str]) -> Qualities {
    names
        .iter()
        .map(|n| (n.to_string(), QualityInfo { bitrate: 1, label: String::new(), order: 0 }))
        .collect()
}

#[test]
fn settings_have_defaults() {
    let cli = Cli::default();
    assert_eq!((cli.host.as_str(), cli.port), ("0.0.0.0", 8098));
    assert_eq!((cli.data_dir.as_str(), cli.quality.as_str()), (".", "high"));
    assert_eq!(cli.session_idle_secs, 180);
    assert_eq!((cli.hls_segment_duration, cli.hls_playlist_size), (4, 6));
    assert!(!cli.transcode);
    assert!(cli.username.is_none() && cli.password.is_none() && cli.stream_dir.is_none());
}

#[test]
fn login_needs_id_seed_and_device() {
    assert!(startup::logged_in(&cookies("i", "s", Some("d"))));
    for lacking in [
        cookies("", "s", Some("d")),
        cookies("i", "", Some("d")),
        cookies("i", "s", Some("")),
        cookies("i", "s", None),
        Cookies::default(),
    ] {
        assert!(!startup::logged_in(&lacking));
    }
}

#[test]
fn login_is_planned() {
    let none = Cookies::default();
    assert!(matches!(
        startup::login_plan(&cookies("i", "s", Some("d")), Some("u"), Some("p")),
        LoginPlan::NotNeeded
    ));
    match startup::login_plan(&none, Some("u"), Some("p")) {
        LoginPlan::Login(c) => assert_eq!((c.username.as_str(), c.password.as_str()), ("u", "p")),
        other => panic!("{:?}", other),
    }
    assert!(matches!(startup::login_plan(&none, Some(""), Some("p")), LoginPlan::EmptyCredentials));
    assert!(matches!(startup::login_plan(&none, Some("u"), Some("")), LoginPlan::EmptyCredentials));
    assert!(matches!(startup::login_plan(&none, None, Some("p")), LoginPlan::NoCredentials));
    assert!(matches!(startup::login_plan(&none, Some("u"), None), LoginPlan::NoCredentials));
}

#[test]
fn table_is_filled_when_empty() {
    assert_eq!(startup::table_plan(1, &Cookies::default()), TablePlan::Keep);
    assert_eq!(startup::table_plan(0, &Cookies::default()), TablePlan::Skip);
    assert_eq!(startup::table_plan(0, &cookies("i", "s", Some("d"))), TablePlan::Fill);
}

#[test]
fn watchable_channels_are_selected() {
    let assets = Assets(vec![
        asset(1, "A", None),
        asset(1, "B", stream("")),
        asset(1, "C", stream("u1")),
        asset(1, "D", stream("u2")),
        asset(0, "E", stream("u3")),
        asset(2, "", stream("u4")),
        asset(3, "F", Some(AssetUrlField::default())),
        asset(4_294_967_295, "G", stream("u5")),
    ]);
    let kept: Vec<(i32, String, String)> =
        select_channels(&assets).into_iter().map(|c| (c.sgtid, c.name, c.url)).collect();
    assert_eq!(
        kept,
        vec![
            (1, "C".to_string(), "u1".to_string()),
            (-1, "G".to_string(), "u5".to_string())
        ]
    );
    assert!(matches!(AssetUrlField::default(), AssetUrlField::Array(v) if v.is_empty()));
}

#[test]
fn quality_is_checked() {
    let q = qualities(&["low", "high", "auto"]);
    assert!(startup::check_quality(&q, "high").is_ok());
    assert_eq!(
        startup::check_quality(&q, "best").unwrap_err(),
        "Invalid quality 'best'. Available: auto, high, low"
    );
    assert!(startup::check_quality(&Qualities::new(), "best").is_ok());
    assert_eq!(startup::available(&q), vec!["auto", "high", "low"]);
}

#[test]
fn texts_are_sorted_like_strings() {
    let list: Vec<String> =
        ["b", "", "ab", "a", "\u{10000}", "\u{ffff}", "a"].iter().map(|s| s.to_string()).collect();
    let mut expected = list.clone();
    expected.sort();
    assert_eq!(sorted(list), expected);
    assert!(is_before("a", "a") && is_before("a", "ab") && !is_before("b", "ab"));
}

#[test]
fn places_are_named() {
    assert_eq!(startup::cookie_path("/d"), "/d/cookie.json");
    assert_eq!(startup::cookie_path("."), "./cookie.json");
    assert_eq!(startup::database_path("/d/"), "/d/jambox.db");
    assert_eq!(startup::stream_root(None, "/tmp"), "/tmp/jambox_streams");
    assert_eq!(startup::stream_root(Some("/s"), "/tmp"), "/s");
    assert_eq!(startup::bind_address("127.0.0.1", 80), "127.0.0.1:80");
    assert_eq!(startup::fallback_address(65535), "0.0.0.0:65535");
}

#[test]
fn paths_join_like_std() {
    for (dir, name) in [("a", "b"), ("a/", "b"), ("", "b"), ("a", "/b"), ("/", "b"), ("a", "")] {
        let std = std::path::Path::new(dir).join(name);
        assert_eq!(text::join_path(dir, name), std.to_str().unwrap());
    }
}

#[test]
fn texts_are_cut_like_std() {
    let s = " \u{3000}a,b\u{a0}\r\n\n c\t";
    assert_eq!(text::trim(s), s.trim());
    assert_eq!(text::trim_end(s), s.trim_end());
    assert_eq!(text::lines(s), s.lines().collect::<Vec<_>>());
    assert_eq!(text::split(s, ','), s.split(',').collect::<Vec<_>>());
    assert_eq!(text::join(&vec!["a".to_string(), "b".to_string()], "--"), "a--b");
    assert_eq!(text::hex_text(u64::MAX), "ffffffffffffffff");
    assert_eq!(text::signed_decimal_text(i32::MIN), "-2147483648");
    for c in (0u32..=0x3100).filter_map(char::from_u32) {
        assert_eq!(text::is_white_space(c), c.is_whitespace());
    }
    for n in ["0", "+7", "++7", "", "+", "007", "1 ", "18446744073709551615", "18446744073709551616"] {
        assert_eq!(text::parse_unsigned(n), n.parse::<u64>().ok());
    }
}

#[test]
fn counts_are_balanced() {
    let mut m = Metrics::new();
    m.on_created();
    m.on_created();
    m.on_token_refreshed();
    let lifetime = m.on_removed(Timestamp { nanos: 5 }, Timestamp { nanos: 12 });
    assert_eq!(lifetime, Some(7));
    assert_eq!(m.on_removed(Timestamp { nanos: 12 }, Timestamp { nanos: 5 }), None);
    assert_eq!((m.active_sessions, m.created_sessions_total), (0, 2));
    assert_eq!((m.removed_sessions_total, m.token_refresh_total), (2, 1));
    m.on_removed(Timestamp { nanos: 0 }, Timestamp { nanos: 0 });
    assert_eq!(m.active_sessions, -1);
    assert_eq!(Metrics::default(), Metrics::new());
    assert_eq!(session_labels(12, "TV"), vec!["12", "TV"]);
}

#[test]
fn metrics_are_described() {
    let all = metric_descriptors();
    assert_eq!(all.len(), 12);
    assert_eq!(all[0].kind, MetricKind::IntGauge);
    assert_eq!(all[0].name, "jambox_active_sessions");
    assert_eq!(all[3].buckets, vec![1, 2, 5, 10, 30, 60, 120, 300, 600, 1800, 3600]);
    assert_eq!(all[10].labels, vec!["url", "status_code"]);
}

#[test]
fn descriptions_are_registered() {
    let registry = prometheus::Registry::new();
    for d in metric_descriptors() {
        let labels: Vec<&str> = d.labels.iter().map(|l| l.as_str()).collect();
        let buckets: Vec<f64> = d.buckets.iter().map(|b| *b as f64).collect();
        let opts = prometheus::Opts::new(d.name.clone(), d.help.clone());
        let hist = prometheus::HistogramOpts::new(d.name.clone(), d.help.clone()).buckets(buckets);
        let collector: Box<dyn prometheus::core::Collector> = match d.kind {
            MetricKind::IntGauge => Box::new(prometheus::IntGauge::with_opts(opts).unwrap()),
            MetricKind::IntCounter => Box::new(prometheus::IntCounter::with_opts(opts).unwrap()),
            MetricKind::Histogram => Box::new(prometheus::Histogram::with_opts(hist).unwrap()),
            MetricKind::GaugeVec => Box::new(prometheus::GaugeVec::new(opts, &labels).unwrap()),
            MetricKind::IntCounterVec => Box::new(prometheus::IntCounterVec::new(opts, &labels).unwrap()),
            MetricKind::HistogramVec => Box::new(prometheus::HistogramVec::new(hist, &labels).unwrap()),
        };
        registry.register(collector).unwrap();
    }
}

#[test]
fn metrics_text_is_utf8() {
    assert_eq!(encode_text(Ok("\u{17c} 1\n".as_bytes().to_vec())).unwrap(), "\u{17c} 1\n");
    assert_eq!(encode_text(Ok(vec![0xff])).unwrap_err(), "utf8 error");
    assert_eq!(encode_text(Err("why".to_string())).unwrap_err(), "why");
}
