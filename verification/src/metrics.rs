//! What is measured: the metrics and their descriptions, the counts that
//! sessions and tokens leave, and the text that a scrape is answered with.

use crate::clock::Timestamp;
use crate::outside::string_from_utf8;
use crate::text::{decimal, decimal_text, texts};
use vstd::prelude::*;
use vstd::utf8::{decode_utf8, valid_utf8};

verus! {

// ---------------------------------------------------------------------------
// The metrics
// ---------------------------------------------------------------------------

/// What a metric records.
#[derive(Debug, Clone, Copy, PartialEq, Eq, Structural)]
pub enum MetricKind {
    /// An integer that goes up and down.
    IntGauge,
    /// An integer that goes up.
    IntCounter,
    /// Observations, counted in buckets.
    Histogram,
    /// A value that goes up and down, for each choice of labels.
    GaugeVec,
    /// An integer that goes up, for each choice of labels.
    IntCounterVec,
    /// Observations counted in buckets, for each choice of labels.
    HistogramVec,
}

/// A metric's description: its name and help text, the names of its labels, and
/// the upper bounds of its buckets.
#[derive(Debug)]
pub struct MetricDescriptor {
    pub kind: MetricKind,
    pub name: String,
    pub help: String,
    pub labels: Vec<String>,
    pub buckets: Vec<u64>,
}

/// A metric's description as contents.
#[verifier::ext_equal]
pub struct MetricModel {
    pub kind: MetricKind,
    pub name: Seq<char>,
    pub help: Seq<char>,
    pub labels: Seq<Seq<char>>,
    pub buckets: Seq<u64>,
}

impl View for MetricDescriptor {
    type V = MetricModel;

    open spec fn view(&self) -> MetricModel {
        MetricModel {
            kind: self.kind,
            name: self.name@,
            help: self.help@,
            labels: texts(self.labels@),
            buckets: self.buckets@,
        }
    }
}

/// The contents of a list of descriptions.
pub open spec fn models(v: Seq<MetricDescriptor>) -> Seq<MetricModel> {
    v.map_values(|d: MetricDescriptor| d@)
}

/// The metrics, in the order in which they are registered.
pub open spec fn metric_table() -> Seq<MetricModel> {
    seq![
        MetricModel {
            kind: MetricKind::IntGauge,
            name: "jambox_active_sessions"@,
            help: "Number of currently active ffmpeg sessions"@,
            labels: seq![],
            buckets: seq![],
        },
        MetricModel {
            kind: MetricKind::IntCounter,
            name: "jambox_sessions_created_total"@,
            help: "Total number of ffmpeg sessions ever created"@,
            labels: seq![],
            buckets: seq![],
        },
        MetricModel {
            kind: MetricKind::IntCounter,
            name: "jambox_sessions_removed_total"@,
            help: "Total number of ffmpeg sessions removed"@,
            labels: seq![],
            buckets: seq![],
        },
        MetricModel {
            kind: MetricKind::Histogram,
            name: "jambox_session_lifetime_seconds"@,
            help: "Lifetime of ffmpeg sessions in seconds (recorded when session ends)"@,
            labels: seq![],
            buckets: seq![1u64, 2, 5, 10, 30, 60, 120, 300, 600, 1800, 3600],
        },
        MetricModel {
            kind: MetricKind::GaugeVec,
            name: "jambox_channel_bitrate_bits_per_second"@,
            help: "Instantaneous bitrate per channel derived from ffmpeg -progress"@,
            labels: seq!["channel_id"@, "channel_name"@],
            buckets: seq![],
        },
        MetricModel {
            kind: MetricKind::GaugeVec,
            name: "jambox_session_duration_seconds"@,
            help: "Real-time current streaming duration per active session (seconds)"@,
            labels: seq!["channel_id"@, "channel_name"@],
            buckets: seq![],
        },
        MetricModel {
            kind: MetricKind::IntCounterVec,
            name: "jambox_session_dup_frames_total"@,
            help: "Total duplicate frames reported by ffmpeg per session"@,
            labels: seq!["channel_id"@, "channel_name"@],
            buckets: seq![],
        },
        MetricModel {
            kind: MetricKind::IntCounterVec,
            name: "jambox_session_drop_frames_total"@,
            help: "Total dropped frames reported by ffmpeg per session"@,
            labels: seq!["channel_id"@, "channel_name"@],
            buckets: seq![],
        },
        MetricModel {
            kind: MetricKind::IntCounter,
            name: "jambox_token_refresh_total"@,
            help: "Total number of successful token refresh operations"@,
            labels: seq![],
            buckets: seq![],
        },
        MetricModel {
            kind: MetricKind::HistogramVec,
            name: "jambox_upstream_request_duration_milliseconds"@,
            help: "Upstream request latency in milliseconds per endpoint (label=endpoint)"@,
            labels: seq!["endpoint"@],
            buckets: seq![5u64, 10, 25, 50, 75, 100, 150, 250, 400, 600, 800, 1000, 1500, 2000, 3000, 5000, 8000, 12000],
        },
        MetricModel {
            kind: MetricKind::IntCounterVec,
            name: "jambox_upstream_playlist_http_responses_total"@,
            help: "Count of upstream playlist HTTP responses by base URL and status code"@,
            labels: seq!["url"@, "status_code"@],
            buckets: seq![],
        },
        MetricModel {
            kind: MetricKind::IntCounterVec,
            name: "jambox_session_frames_total"@,
            help: "Total frames processed (frame field from -progress) per session"@,
            labels: seq!["channel_id"@, "channel_name"@],
            buckets: seq![],
        },
    ]
}

/// A description is added at the end of a list.
fn push_descriptor(
    list: &mut Vec<MetricDescriptor>,
    kind: MetricKind,
    name: &str,
    help: &str,
    labels: Vec<String>,
    buckets: Vec<u64>,
)
    ensures
        models(final(list)@) == models(old(list)@).push(
            (MetricModel {
                kind,
                name: name@,
                help: help@,
                labels: texts(labels@),
                buckets: buckets@,
            }),
        ),
{
    let d = MetricDescriptor { kind, name: name.to_owned(), help: help.to_owned(), labels, buckets };
    list.push(d);
    assert(models(list@) =~= models(old(list)@).push(d@));
}

/// No labels.
fn no_labels() -> (res: Vec<String>)
    ensures
        texts(res@) == Seq::<Seq<char>>::empty(),
{
    let res: Vec<String> = Vec::new();
    assert(texts(res@) =~= Seq::<Seq<char>>::empty());
    res
}

/// A list of one label.
fn one_label(name: &str) -> (res: Vec<String>)
    ensures
        texts(res@) == seq![name@],
{
    let res: Vec<String> = vec![name.to_owned()];
    assert(texts(res@) =~= seq![name@]);
    res
}

/// A list of two labels.
fn two_labels(first: &str, second: &str) -> (res: Vec<String>)
    ensures
        texts(res@) == seq![first@, second@],
{
    let res: Vec<String> = vec![first.to_owned(), second.to_owned()];
    assert(texts(res@) =~= seq![first@, second@]);
    res
}

/// The metrics, in the order in which they are registered.
pub fn metric_descriptors() -> (res: Vec<MetricDescriptor>)
    ensures
        models(res@) == metric_table(),
{
    let mut res: Vec<MetricDescriptor> = Vec::new();
    push_descriptor(
        &mut res,
        MetricKind::IntGauge,
        "jambox_active_sessions",
        "Number of currently active ffmpeg sessions",
        no_labels(),
        Vec::new(),
    );
    push_descriptor(
        &mut res,
        MetricKind::IntCounter,
        "jambox_sessions_created_total",
        "Total number of ffmpeg sessions ever created",
        no_labels(),
        Vec::new(),
    );
    push_descriptor(
        &mut res,
        MetricKind::IntCounter,
        "jambox_sessions_removed_total",
        "Total number of ffmpeg sessions removed",
        no_labels(),
        Vec::new(),
    );
    push_descriptor(
        &mut res,
        MetricKind::Histogram,
        "jambox_session_lifetime_seconds",
        "Lifetime of ffmpeg sessions in seconds (recorded when session ends)",
        no_labels(),
        vec![1u64, 2, 5, 10, 30, 60, 120, 300, 600, 1800, 3600],
    );
    push_descriptor(
        &mut res,
        MetricKind::GaugeVec,
        "jambox_channel_bitrate_bits_per_second",
        "Instantaneous bitrate per channel derived from ffmpeg -progress",
        two_labels("channel_id", "channel_name"),
        Vec::new(),
    );
    push_descriptor(
        &mut res,
        MetricKind::GaugeVec,
        "jambox_session_duration_seconds",
        "Real-time current streaming duration per active session (seconds)",
        two_labels("channel_id", "channel_name"),
        Vec::new(),
    );
    push_descriptor(
        &mut res,
        MetricKind::IntCounterVec,
        "jambox_session_dup_frames_total",
        "Total duplicate frames reported by ffmpeg per session",
        two_labels("channel_id", "channel_name"),
        Vec::new(),
    );
    push_descriptor(
        &mut res,
        MetricKind::IntCounterVec,
        "jambox_session_drop_frames_total",
        "Total dropped frames reported by ffmpeg per session",
        two_labels("channel_id", "channel_name"),
        Vec::new(),
    );
    push_descriptor(
        &mut res,
        MetricKind::IntCounter,
        "jambox_token_refresh_total",
        "Total number of successful token refresh operations",
        no_labels(),
        Vec::new(),
    );
    push_descriptor(
        &mut res,
        MetricKind::HistogramVec,
        "jambox_upstream_request_duration_milliseconds",
        "Upstream request latency in milliseconds per endpoint (label=endpoint)",
        one_label("endpoint"),
        vec![5u64, 10, 25, 50, 75, 100, 150, 250, 400, 600, 800, 1000, 1500, 2000, 3000, 5000, 8000, 12000],
    );
    push_descriptor(
        &mut res,
        MetricKind::IntCounterVec,
        "jambox_upstream_playlist_http_responses_total",
        "Count of upstream playlist HTTP responses by base URL and status code",
        two_labels("url", "status_code"),
        Vec::new(),
    );
    push_descriptor(
        &mut res,
        MetricKind::IntCounterVec,
        "jambox_session_frames_total",
        "Total frames processed (frame field from -progress) per session",
        two_labels("channel_id", "channel_name"),
        Vec::new(),
    );
    assert(models(res@) =~~= metric_table());
    res
}

/// The values of a session's labels: the channel's number and its name.
pub open spec fn session_label_values(id: nat, channel_name: Seq<char>) -> Seq<Seq<char>> {
    seq![decimal(id), channel_name]
}

/// The values of the labels that a session's metrics are kept under, and dropped
/// under when it ends.
pub fn session_labels(id: usize, channel_name: &str) -> (res: Vec<String>)
    ensures
        texts(res@) == session_label_values(id as nat, channel_name@),
{
    two_labels(decimal_text(id as u64).as_str(), channel_name)
}

/// A character that may stand anywhere in a metric's or a label's name.
pub open spec fn is_name_char(c: char) -> bool {
    let u = c as u32;
    0x61 <= u <= 0x7a || 0x41 <= u <= 0x5a || u == 0x5f
}

/// Letters and underscores from position `i` on.
pub open spec fn names_from(s: Seq<char>, i: int) -> bool
    decreases s.len() - i,
{
    i >= s.len() || (is_name_char(s[i]) && names_from(s, i + 1))
}

/// A name that a metric or a label can have.
pub open spec fn is_valid_name(s: Seq<char>) -> bool {
    s.len() > 0 && names_from(s, 0)
}

/// Each bound is larger than the one before it.
pub open spec fn ascends(buckets: Seq<u64>) -> bool {
    forall|i: int, j: int| 0 <= i < j < buckets.len() ==> buckets[i] < buckets[j]
}

/// The names of the metrics and of their labels are valid.
proof fn lemma_names_are_valid()
    ensures
        is_valid_name("jambox_active_sessions"@),
        is_valid_name("jambox_sessions_created_total"@),
        is_valid_name("jambox_sessions_removed_total"@),
        is_valid_name("jambox_session_lifetime_seconds"@),
        is_valid_name("jambox_channel_bitrate_bits_per_second"@),
        is_valid_name("jambox_session_duration_seconds"@),
        is_valid_name("jambox_session_dup_frames_total"@),
        is_valid_name("jambox_session_drop_frames_total"@),
        is_valid_name("jambox_token_refresh_total"@),
        is_valid_name("jambox_upstream_request_duration_milliseconds"@),
        is_valid_name("jambox_upstream_playlist_http_responses_total"@),
        is_valid_name("jambox_session_frames_total"@),
        is_valid_name("channel_id"@),
        is_valid_name("channel_name"@),
        is_valid_name("endpoint"@),
        is_valid_name("status_code"@),
        is_valid_name("url"@),
{
    assert(is_valid_name("jambox_active_sessions"@)) by {
        reveal_strlit("jambox_active_sessions");
        reveal_with_fuel(names_from, 23);
    }
    assert(is_valid_name("jambox_sessions_created_total"@)) by {
        reveal_strlit("jambox_sessions_created_total");
        reveal_with_fuel(names_from, 30);
    }
    assert(is_valid_name("jambox_sessions_removed_total"@)) by {
        reveal_strlit("jambox_sessions_removed_total");
        reveal_with_fuel(names_from, 30);
    }
    assert(is_valid_name("jambox_session_lifetime_seconds"@)) by {
        reveal_strlit("jambox_session_lifetime_seconds");
        reveal_with_fuel(names_from, 32);
    }
    assert(is_valid_name("jambox_channel_bitrate_bits_per_second"@)) by {
        reveal_strlit("jambox_channel_bitrate_bits_per_second");
        reveal_with_fuel(names_from, 39);
    }
    assert(is_valid_name("jambox_session_duration_seconds"@)) by {
        reveal_strlit("jambox_session_duration_seconds");
        reveal_with_fuel(names_from, 32);
    }
    assert(is_valid_name("jambox_session_dup_frames_total"@)) by {
        reveal_strlit("jambox_session_dup_frames_total");
        reveal_with_fuel(names_from, 32);
    }
    assert(is_valid_name("jambox_session_drop_frames_total"@)) by {
        reveal_strlit("jambox_session_drop_frames_total");
        reveal_with_fuel(names_from, 33);
    }
    assert(is_valid_name("jambox_token_refresh_total"@)) by {
        reveal_strlit("jambox_token_refresh_total");
        reveal_with_fuel(names_from, 27);
    }
    assert(is_valid_name("jambox_upstream_request_duration_milliseconds"@)) by {
        reveal_strlit("jambox_upstream_request_duration_milliseconds");
        reveal_with_fuel(names_from, 46);
    }
    assert(is_valid_name("jambox_upstream_playlist_http_responses_total"@)) by {
        reveal_strlit("jambox_upstream_playlist_http_responses_total");
        reveal_with_fuel(names_from, 46);
    }
    assert(is_valid_name("jambox_session_frames_total"@)) by {
        reveal_strlit("jambox_session_frames_total");
        reveal_with_fuel(names_from, 28);
    }
    assert(is_valid_name("channel_id"@)) by {
        reveal_strlit("channel_id");
        reveal_with_fuel(names_from, 11);
    }
    assert(is_valid_name("channel_name"@)) by {
        reveal_strlit("channel_name");
        reveal_with_fuel(names_from, 13);
    }
    assert(is_valid_name("endpoint"@)) by {
        reveal_strlit("endpoint");
        reveal_with_fuel(names_from, 9);
    }
    assert(is_valid_name("status_code"@)) by {
        reveal_strlit("status_code");
        reveal_with_fuel(names_from, 12);
    }
    assert(is_valid_name("url"@)) by {
        reveal_strlit("url");
        reveal_with_fuel(names_from, 4);
    }
}

/// No two metrics have the same name.
proof fn lemma_names_differ()
    ensures
        forall|i: int, j: int|
            0 <= i < j < metric_table().len() ==> (#[trigger] metric_table()[i]).name != (
            #[trigger] metric_table()[j]).name,
{
    reveal_strlit("jambox_active_sessions");
    reveal_strlit("jambox_sessions_created_total");
    reveal_strlit("jambox_sessions_removed_total");
    reveal_strlit("jambox_session_lifetime_seconds");
    reveal_strlit("jambox_channel_bitrate_bits_per_second");
    reveal_strlit("jambox_session_duration_seconds");
    reveal_strlit("jambox_session_dup_frames_total");
    reveal_strlit("jambox_session_drop_frames_total");
    reveal_strlit("jambox_token_refresh_total");
    reveal_strlit("jambox_upstream_request_duration_milliseconds");
    reveal_strlit("jambox_upstream_playlist_http_responses_total");
    reveal_strlit("jambox_session_frames_total");
    assert(metric_table()[0].name == "jambox_active_sessions"@ && "jambox_active_sessions"@.len() == 22);
    assert(metric_table()[1].name == "jambox_sessions_created_total"@ && "jambox_sessions_created_total"@.len() == 29);
    assert(metric_table()[2].name == "jambox_sessions_removed_total"@ && "jambox_sessions_removed_total"@.len() == 29);
    assert(metric_table()[3].name == "jambox_session_lifetime_seconds"@ && "jambox_session_lifetime_seconds"@.len() == 31);
    assert(metric_table()[4].name == "jambox_channel_bitrate_bits_per_second"@ && "jambox_channel_bitrate_bits_per_second"@.len() == 38);
    assert(metric_table()[5].name == "jambox_session_duration_seconds"@ && "jambox_session_duration_seconds"@.len() == 31);
    assert(metric_table()[6].name == "jambox_session_dup_frames_total"@ && "jambox_session_dup_frames_total"@.len() == 31);
    assert(metric_table()[7].name == "jambox_session_drop_frames_total"@ && "jambox_session_drop_frames_total"@.len() == 32);
    assert(metric_table()[8].name == "jambox_token_refresh_total"@ && "jambox_token_refresh_total"@.len() == 26);
    assert(metric_table()[9].name == "jambox_upstream_request_duration_milliseconds"@ && "jambox_upstream_request_duration_milliseconds"@.len() == 45);
    assert(metric_table()[10].name == "jambox_upstream_playlist_http_responses_total"@ && "jambox_upstream_playlist_http_responses_total"@.len() == 45);
    assert(metric_table()[11].name == "jambox_session_frames_total"@ && "jambox_session_frames_total"@.len() == 27);
    assert("jambox_sessions_created_total"@[16] != "jambox_sessions_removed_total"@[16]);
    assert("jambox_session_lifetime_seconds"@[15] != "jambox_session_duration_seconds"@[15]);
    assert("jambox_session_lifetime_seconds"@[15] != "jambox_session_dup_frames_total"@[15]);
    assert("jambox_session_duration_seconds"@[17] != "jambox_session_dup_frames_total"@[17]);
    assert("jambox_upstream_request_duration_milliseconds"@[16] != "jambox_upstream_playlist_http_responses_total"@[16]);
    assert forall|i: int, j: int| 0 <= i < j < metric_table().len() implies (
    #[trigger] metric_table()[i]).name != (#[trigger] metric_table()[j]).name by {
        assert(i == 0 || i == 1 || i == 2 || i == 3 || i == 4 || i == 5 || i == 6 || i == 7 || i
            == 8 || i == 9 || i == 10);
        assert(j == 1 || j == 2 || j == 3 || j == 4 || j == 5 || j == 6 || j == 7 || j == 8 || j
            == 9 || j == 10 || j == 11);
    }
}

/// Every metric can be made and registered: its name and its labels are valid,
/// it has a help text, no other metric has its name, and its buckets ascend.
pub proof fn law_metrics_can_be_registered()
    ensures
        forall|i: int|
            0 <= i < metric_table().len() ==> is_valid_name(
                (#[trigger] metric_table()[i]).name,
            ) && metric_table()[i].help.len() > 0 && ascends(metric_table()[i].buckets),
        forall|i: int, j: int|
            0 <= i < metric_table().len() && 0 <= j < metric_table()[i].labels.len()
                ==> is_valid_name(#[trigger] metric_table()[i].labels[j]),
        forall|i: int, j: int|
            0 <= i < j < metric_table().len() ==> (#[trigger] metric_table()[i]).name != (
            #[trigger] metric_table()[j]).name,
{
    lemma_names_are_valid();
    lemma_names_differ();
    reveal_strlit("Number of currently active ffmpeg sessions");
    reveal_strlit("Total number of ffmpeg sessions ever created");
    reveal_strlit("Total number of ffmpeg sessions removed");
    reveal_strlit("Lifetime of ffmpeg sessions in seconds (recorded when session ends)");
    reveal_strlit("Instantaneous bitrate per channel derived from ffmpeg -progress");
    reveal_strlit("Real-time current streaming duration per active session (seconds)");
    reveal_strlit("Total duplicate frames reported by ffmpeg per session");
    reveal_strlit("Total dropped frames reported by ffmpeg per session");
    reveal_strlit("Total number of successful token refresh operations");
    reveal_strlit("Upstream request latency in milliseconds per endpoint (label=endpoint)");
    reveal_strlit("Count of upstream playlist HTTP responses by base URL and status code");
    reveal_strlit("Total frames processed (frame field from -progress) per session");
}

// ---------------------------------------------------------------------------
// Counts
// ---------------------------------------------------------------------------

/// The counts that sessions and tokens leave. They wrap around at the ends of
/// their types.
#[derive(Debug, Clone, Copy, PartialEq, Eq, Structural)]
pub struct Metrics {
    pub active_sessions: i64,
    pub created_sessions_total: u64,
    pub removed_sessions_total: u64,
    pub token_refresh_total: u64,
}

/// The two numbers are the same up to wrapping around.
pub open spec fn congruent(a: int, b: int) -> bool {
    (a - b) % 0x1_0000_0000_0000_0000 == 0
}

impl Metrics {
    /// As many sessions are active as were created and not removed.
    pub open spec fn is_balanced(self) -> bool {
        congruent(
            self.active_sessions as int,
            self.created_sessions_total - self.removed_sessions_total,
        )
    }

    /// Nothing was counted yet.
    pub open spec fn zero() -> Metrics {
        Metrics {
            active_sessions: 0,
            created_sessions_total: 0,
            removed_sessions_total: 0,
            token_refresh_total: 0,
        }
    }

    /// The counts after a session was created.
    pub open spec fn after_created(self) -> Metrics {
        Metrics {
            active_sessions: self.active_sessions.wrapping_add(1),
            created_sessions_total: self.created_sessions_total.wrapping_add(1),
            ..self
        }
    }

    /// The counts after a session was removed.
    pub open spec fn after_removed(self) -> Metrics {
        Metrics {
            active_sessions: self.active_sessions.wrapping_sub(1),
            removed_sessions_total: self.removed_sessions_total.wrapping_add(1),
            ..self
        }
    }

    /// Nothing was counted yet.
    pub fn new() -> (res: Self)
        ensures
            res == Metrics::zero(),
            res.is_balanced(),
    {
        Metrics {
            active_sessions: 0,
            created_sessions_total: 0,
            removed_sessions_total: 0,
            token_refresh_total: 0,
        }
    }

    /// A session was created.
    pub fn on_created(&mut self)
        ensures
            *final(self) == old(self).after_created(),
            old(self).is_balanced() ==> final(self).is_balanced(),
    {
        self.active_sessions = self.active_sessions.wrapping_add(1);
        self.created_sessions_total = self.created_sessions_total.wrapping_add(1);
    }

    /// A session was removed. Its lifetime in nanoseconds is to be recorded,
    /// unless the clock says that it was created later than now.
    pub fn on_removed(&mut self, created_at: Timestamp, now: Timestamp) -> (res: Option<u128>)
        ensures
            *final(self) == old(self).after_removed(),
            old(self).is_balanced() ==> final(self).is_balanced(),
            is_lifetime(res, created_at, now),
    {
        self.removed_sessions_total = self.removed_sessions_total.wrapping_add(1);
        self.active_sessions = self.active_sessions.wrapping_sub(1);
        now.duration_since(created_at)
    }

    /// A token was refreshed.
    pub fn on_token_refreshed(&mut self)
        ensures
            *final(self) == (Metrics {
                token_refresh_total: old(self).token_refresh_total.wrapping_add(1),
                ..*old(self)
            }),
            old(self).is_balanced() ==> final(self).is_balanced(),
    {
        self.token_refresh_total = self.token_refresh_total.wrapping_add(1);
    }
}

impl Default for Metrics {
    /// Nothing was counted yet.
    fn default() -> (res: Self)
        ensures
            res == Metrics::zero(),
    {
        Metrics::new()
    }
}

/// What is recorded of a session that was created at one time and removed at
/// another: the nanoseconds between them, or nothing where the first comes later.
pub open spec fn is_lifetime(lifetime: Option<u128>, created_at: Timestamp, now: Timestamp) -> bool {
    match lifetime {
        Some(d) => created_at.nanos <= now.nanos && d == now.nanos - created_at.nanos,
        None => now.nanos < created_at.nanos,
    }
}

/// What happens to sessions.
pub enum SessionEvent {
    /// One was created.
    Created,
    /// One that was created at this time was removed, which the clock showed as `now`.
    Removed { created_at: Timestamp, now: Timestamp },
}

/// The counts after these events.
pub open spec fn after_events(m: Metrics, events: Seq<SessionEvent>) -> Metrics
    decreases events.len(),
{
    if events.len() == 0 {
        m
    } else {
        let before = after_events(m, events.drop_last());
        match events.last() {
            SessionEvent::Created => before.after_created(),
            SessionEvent::Removed { created_at, now } => before.after_removed(),
        }
    }
}

/// How many of these events are creations.
pub open spec fn creations(events: Seq<SessionEvent>) -> nat {
    events.filter(|e: SessionEvent| e is Created).len()
}

/// How many of these events are removals.
pub open spec fn removals(events: Seq<SessionEvent>) -> nat {
    events.filter(|e: SessionEvent| e is Removed).len()
}

/// The lifetimes that are recorded over these events, where `lifetimes[i]` is what
/// the `i`th event hands out.
pub open spec fn recorded(events: Seq<SessionEvent>, lifetimes: Seq<Option<u128>>) -> nat
    decreases events.len(),
{
    if events.len() == 0 {
        0
    } else {
        recorded(events.drop_last(), lifetimes.drop_last()) + if events.last() is Removed
            && lifetimes.last() is Some {
            1nat
        } else {
            0nat
        }
    }
}

/// A removal at a time that is not before the creation.
pub open spec fn is_timely_removal(e: SessionEvent) -> bool {
    e matches SessionEvent::Removed { created_at, now } && created_at.nanos <= now.nanos
}

/// One more event is one more creation or one more removal.
proof fn lemma_last_event(events: Seq<SessionEvent>)
    requires
        events.len() > 0,
    ensures
        creations(events) == creations(events.drop_last()) + if events.last() is Created {
            1nat
        } else {
            0nat
        },
        removals(events) == removals(events.drop_last()) + if events.last() is Removed {
            1nat
        } else {
            0nat
        },
{
    reveal(Seq::filter);
}

/// The counts are right for `c` creations and `r` removals.
#[verifier::opaque]
spec fn counts_are(m: Metrics, c: nat, r: nat) -> bool {
    &&& m.created_sessions_total == c % 0x1_0000_0000_0000_0000
    &&& m.removed_sessions_total == r % 0x1_0000_0000_0000_0000
    &&& congruent(m.active_sessions as int, c - r)
    &&& m.token_refresh_total == 0
}

/// Right counts stay right with one more creation, and with one more removal.
#[verifier::spinoff_prover]
proof fn lemma_counts_step(m: Metrics, c: nat, r: nat)
    requires
        counts_are(m, c, r),
    ensures
        counts_are(m.after_created(), c + 1, r),
        counts_are(m.after_removed(), c, r + 1),
{
    reveal(counts_are);
}

/// Right counts are balanced, and where the difference fits it is the number of
/// active sessions.
#[verifier::spinoff_prover]
proof fn lemma_right_counts(m: Metrics, c: nat, r: nat)
    requires
        counts_are(m, c, r),
    ensures
        m.created_sessions_total == c % 0x1_0000_0000_0000_0000,
        m.removed_sessions_total == r % 0x1_0000_0000_0000_0000,
        congruent(m.active_sessions as int, c - r),
        m.token_refresh_total == 0,
        m.is_balanced(),
        i64::MIN <= c - r <= i64::MAX ==> m.active_sessions == c - r,
{
    reveal(counts_are);
}

/// No events are no creations and no removals.
proof fn lemma_no_events(events: Seq<SessionEvent>)
    requires
        events.len() == 0,
    ensures
        creations(events) == 0,
        removals(events) == 0,
{
    reveal(Seq::filter);
}

/// The counts are right after any run.
#[verifier::spinoff_prover]
proof fn lemma_counts_of_run(events: Seq<SessionEvent>)
    ensures
        counts_are(after_events(Metrics::zero(), events), creations(events), removals(events)),
        creations(events) + removals(events) == events.len(),
    decreases events.len(),
{
    if events.len() > 0 {
        let front = events.drop_last();
        lemma_counts_of_run(front);
        lemma_last_event(events);
        lemma_counts_step(
            after_events(Metrics::zero(), front),
            creations(front),
            removals(front),
        );
    } else {
        lemma_no_events(events);
        reveal(counts_are);
    }
}

/// After any run of creations and removals, in any order, the counts are how many
/// there were of each, and as many sessions are active as were created and not
/// removed. Where a count grows beyond its type it has wrapped around.
pub proof fn law_counts_follow_any_run(events: Seq<SessionEvent>)
    ensures
        ({
            let m = after_events(Metrics::zero(), events);
            let c = creations(events);
            let r = removals(events);
            &&& m.created_sessions_total == c % 0x1_0000_0000_0000_0000
            &&& m.removed_sessions_total == r % 0x1_0000_0000_0000_0000
            &&& congruent(m.active_sessions as int, c - r)
            &&& m.token_refresh_total == 0
            &&& i64::MIN <= c - r <= i64::MAX ==> m.active_sessions == c - r
            &&& m.is_balanced()
            &&& c + r == events.len()
        }),
{
    lemma_counts_of_run(events);
    lemma_right_counts(
        after_events(Metrics::zero(), events),
        creations(events),
        removals(events),
    );
}

/// Over any run a lifetime is recorded for each removal whose session was, by the
/// clock, created no later, and for nothing else.
pub proof fn law_lifetimes_are_recorded(events: Seq<SessionEvent>, lifetimes: Seq<Option<u128>>)
    requires
        lifetimes.len() == events.len(),
        forall|i: int|
            0 <= i < events.len() ==> (#[trigger] events[i] matches SessionEvent::Removed {
                created_at,
                now,
            } ==> is_lifetime(lifetimes[i], created_at, now)),
    ensures
        recorded(events, lifetimes) == events.filter(|e: SessionEvent| is_timely_removal(e)).len(),
    decreases events.len(),
{
    let timely = |e: SessionEvent| is_timely_removal(e);
    reveal(Seq::filter);
    if events.len() > 0 {
        assert forall|i: int| 0 <= i < events.drop_last().len() implies (
        #[trigger] events.drop_last()[i] matches SessionEvent::Removed {
            created_at,
            now,
        } ==> is_lifetime(lifetimes.drop_last()[i], created_at, now)) by {
            assert(events.drop_last()[i] == events[i]);
        }
        law_lifetimes_are_recorded(events.drop_last(), lifetimes.drop_last());
        assert(events[events.len() - 1] == events.last());
        assert(events.filter(timely) == if timely(events.last()) {
            events.drop_last().filter(timely).push(events.last())
        } else {
            events.drop_last().filter(timely)
        });
    }
}

// ---------------------------------------------------------------------------
// The answer to a scrape
// ---------------------------------------------------------------------------

/// The text of the metrics, given their encoding or why it failed.
pub fn encode_text(encoded: Result<Vec<u8>, String>) -> (res: Result<String, String>)
    ensures
        match encoded {
            Err(e) => res == Err::<String, String>(e),
            Ok(bytes) => if valid_utf8(bytes@) {
                res is Ok && res->Ok_0@ == decode_utf8(bytes@)
            } else {
                res is Err && res->Err_0@ == "utf8 error"@
            },
        },
{
    match encoded {
        Err(e) => Err(e),
        Ok(bytes) => match string_from_utf8(bytes) {
            Some(s) => {
                proof {
                    vstd::utf8::encode_utf8_decode_utf8(s@);
                }
                Ok(s)
            },
            None => Err("utf8 error".to_owned()),
        },
    }
}

} // verus!
