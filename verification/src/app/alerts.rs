//! Degradation alerts.
//!
//! An alert fires when the verdict on an agent crosses the boundary between fine and
//! degraded, in either direction; within one state nothing fires. Every sink gets
//! every alert: what one sink answers does not keep the alert from the next.

use crate::json::JsonView;
use crate::json::ObjectBuilder;
use crate::json::as_text;
use crate::json::json_or_null;
use crate::json::json_parsed;
use crate::json::lemma_object_member;
use crate::json::lemma_plain_members;
use crate::json::member;
use crate::json::object;
use crate::json::object_text;
use crate::json::optional_text;
use crate::json::parse_json;
use crate::json::plain_members;
use crate::json::text_or_null;
use crate::text::concat2;
use crate::text::concat3;
use crate::text::format_i64;
use crate::text::join;
use crate::text::joined;
use crate::text::lemma_signed_decimal_parses;
use crate::text::opt_text;
use crate::text::parse_i64;
use crate::text::parsed_i64;
use crate::text::signed_decimal;
use crate::text::text_eq;
use crate::text::texts;
use crate::text_map::TextMap;
use vstd::prelude::*;

verus! {

/// A verdict on an agent.
#[derive(Debug, Clone, PartialEq, Eq)]
pub enum Verdict {
    Healthy,
    Idle,
    Hung,
    Stuck,
    Dead,
    /// Another degraded state, with a label of its own.
    Degraded(String),
}

pub ghost enum VerdictView {
    Healthy,
    Idle,
    Hung,
    Stuck,
    Dead,
    Degraded(Seq<char>),
}

impl View for Verdict {
    type V = VerdictView;

    open spec fn view(&self) -> VerdictView {
        match *self {
            Verdict::Healthy => VerdictView::Healthy,
            Verdict::Idle => VerdictView::Idle,
            Verdict::Hung => VerdictView::Hung,
            Verdict::Stuck => VerdictView::Stuck,
            Verdict::Dead => VerdictView::Dead,
            Verdict::Degraded(label) => VerdictView::Degraded(label@),
        }
    }
}

/// Every verdict but healthy and idle; an idle agent only waits for work.
pub open spec fn degraded(v: VerdictView) -> bool {
    !(v is Healthy || v is Idle)
}

pub open spec fn verdict_label(v: VerdictView) -> Seq<char> {
    match v {
        VerdictView::Healthy => "healthy"@,
        VerdictView::Idle => "idle"@,
        VerdictView::Hung => "hung"@,
        VerdictView::Stuck => "stuck"@,
        VerdictView::Dead => "dead"@,
        VerdictView::Degraded(label) => label,
    }
}

impl Verdict {
    /// Whether the verdict is other than healthy or idle.
    pub fn is_degraded(&self) -> (r: bool)
        ensures
            r == degraded(self@),
    {
        match self {
            Verdict::Healthy | Verdict::Idle => false,
            _ => true,
        }
    }

    /// Short label of the verdict.
    pub fn label(&self) -> (r: &str)
        ensures
            r@ == verdict_label(self@),
    {
        match self {
            Verdict::Healthy => "healthy",
            Verdict::Idle => "idle",
            Verdict::Hung => "hung",
            Verdict::Stuck => "stuck",
            Verdict::Dead => "dead",
            Verdict::Degraded(label) => label.as_str(),
        }
    }

    fn copied(&self) -> (r: Verdict)
        ensures
            r@ == self@,
    {
        match self {
            Verdict::Healthy => Verdict::Healthy,
            Verdict::Idle => Verdict::Idle,
            Verdict::Hung => Verdict::Hung,
            Verdict::Stuck => Verdict::Stuck,
            Verdict::Dead => Verdict::Dead,
            Verdict::Degraded(label) => Verdict::Degraded(label.clone()),
        }
    }
}

/// A verdict on an agent at one time.
#[derive(Debug, Clone)]
pub struct VerdictReport {
    pub agent: String,
    pub verdict: Verdict,
    /// What the verdict rests on, in words.
    pub signal: String,
    /// Time of the last healthy observation.
    pub last_good: Option<String>,
    /// What to do about it.
    pub recommended: Option<String>,
}

#[verifier::ext_equal]
pub ghost struct ReportView {
    pub agent: Seq<char>,
    pub verdict: VerdictView,
    pub signal: Seq<char>,
    pub last_good: Option<Seq<char>>,
    pub recommended: Option<Seq<char>>,
}

impl View for VerdictReport {
    type V = ReportView;

    open spec fn view(&self) -> ReportView {
        ReportView {
            agent: self.agent@,
            verdict: self.verdict@,
            signal: self.signal@,
            last_good: opt_text(self.last_good),
            recommended: opt_text(self.recommended),
        }
    }
}

pub open spec fn report_views(reports: Seq<VerdictReport>) -> Seq<ReportView> {
    Seq::new(reports.len(), |i: int| reports[i]@)
}

/// Which way the boundary was crossed.
#[derive(Debug, Clone, Copy, PartialEq, Eq, Structural)]
pub enum AlertKind {
    Degraded,
    Recovered,
}

/// The alert that every sink gets.
#[derive(Debug, Clone, PartialEq)]
pub struct AlertRecord {
    pub agent: String,
    /// Label of the verdict; `healthy` where the alert is of a recovery.
    pub verdict: String,
    pub signal: String,
    pub kind: AlertKind,
    pub last_good: Option<String>,
    pub recommended: Option<String>,
    pub timestamp: String,
}

#[verifier::ext_equal]
pub ghost struct AlertView {
    pub agent: Seq<char>,
    pub verdict: Seq<char>,
    pub signal: Seq<char>,
    pub kind: AlertKind,
    pub last_good: Option<Seq<char>>,
    pub recommended: Option<Seq<char>>,
    pub timestamp: Seq<char>,
}

impl View for AlertRecord {
    type V = AlertView;

    open spec fn view(&self) -> AlertView {
        AlertView {
            agent: self.agent@,
            verdict: self.verdict@,
            signal: self.signal@,
            kind: self.kind,
            last_good: opt_text(self.last_good),
            recommended: opt_text(self.recommended),
            timestamp: self.timestamp@,
        }
    }
}

pub open spec fn alert_views(alerts: Seq<AlertRecord>) -> Seq<AlertView> {
    Seq::new(alerts.len(), |i: int| alerts[i]@)
}

pub open spec fn telegram_header(a: AlertView) -> Seq<char> {
    match a.kind {
        AlertKind::Degraded => "⚠ Agent `"@ + a.agent + "` degraded: "@ + a.verdict,
        AlertKind::Recovered => "✓ Agent `"@ + a.agent + "` recovered"@,
    }
}

/// The lines of an alert in a chat.
pub open spec fn telegram_lines(a: AlertView) -> Seq<Seq<char>> {
    let head = seq![telegram_header(a), "Signal: "@ + a.signal];
    let good = match a.last_good {
        Some(t) => head.push("Last good: "@ + t),
        None => head,
    };
    match a.recommended {
        Some(t) => good.push("Recommended: `"@ + t + "`"@),
        None => good,
    }
}

/// An alert as a message on the bus.
pub open spec fn bus_line(a: AlertView) -> Seq<char> {
    "[deskd alerts] "@ + (match a.kind {
        AlertKind::Degraded => "DEGRADED"@,
        AlertKind::Recovered => "RECOVERED"@,
    }) + " agent="@ + a.agent + " verdict="@ + a.verdict + " signal=\""@ + a.signal + "\""@
}

impl AlertRecord {
    /// The alert as a message in a chat.
    pub fn telegram_text(&self) -> (r: String)
        ensures
            r@ == joined(telegram_lines(self@), "\n"@),
    {
        let mut header: String;
        match self.kind {
            AlertKind::Degraded => {
                header = concat3("⚠ Agent `", self.agent.as_str(), "` degraded: ");
                header.append(self.verdict.as_str());
            },
            AlertKind::Recovered => {
                header = concat3("✓ Agent `", self.agent.as_str(), "` recovered");
            },
        }
        let mut body: Vec<String> = Vec::new();
        body.push(header);
        body.push(concat2("Signal: ", self.signal.as_str()));
        match &self.last_good {
            Some(t) => body.push(concat2("Last good: ", t.as_str())),
            None => {},
        }
        match &self.recommended {
            Some(t) => body.push(concat3("Recommended: `", t.as_str(), "`")),
            None => {},
        }
        assert(texts(body@) =~= telegram_lines(self@));
        join(&body, "\n")
    }

    /// The alert as a message on the bus.
    pub fn bus_text(&self) -> (r: String)
        ensures
            r@ == bus_line(self@),
    {
        let kind = match self.kind {
            AlertKind::Degraded => "DEGRADED",
            AlertKind::Recovered => "RECOVERED",
        };
        let mut out = concat3("[deskd alerts] ", kind, " agent=");
        out.append(self.agent.as_str());
        out.append(" verdict=");
        out.append(self.verdict.as_str());
        out.append(" signal=\"");
        out.append(self.signal.as_str());
        out.append("\"");
        out
    }

    fn copied(&self) -> (r: AlertRecord)
        ensures
            r@ == self@,
    {
        AlertRecord {
            agent: self.agent.clone(),
            verdict: self.verdict.clone(),
            signal: self.signal.clone(),
            kind: self.kind,
            last_good: self.last_good.clone(),
            recommended: self.recommended.clone(),
            timestamp: self.timestamp.clone(),
        }
    }
}

// ─── The alert log ──────────────────────────────────────────────────────────

/// The name of a kind.
pub open spec fn kind_name(k: AlertKind) -> Seq<char> {
    match k {
        AlertKind::Degraded => "degraded"@,
        AlertKind::Recovered => "recovered"@,
    }
}

/// The kind of a name.
pub open spec fn kind_of(name: Option<Seq<char>>) -> Option<AlertKind> {
    if name == Some("degraded"@) {
        Some(AlertKind::Degraded)
    } else if name == Some("recovered"@) {
        Some(AlertKind::Recovered)
    } else {
        None
    }
}

/// The members of an alert in JSON.
pub open spec fn alert_members(a: AlertView) -> Seq<(Seq<char>, JsonView)> {
    seq![
        ("agent"@, JsonView::Str(a.agent)),
        ("verdict"@, JsonView::Str(a.verdict)),
        ("signal"@, JsonView::Str(a.signal)),
        ("kind"@, JsonView::Str(kind_name(a.kind))),
        ("last_good"@, text_or_null(a.last_good)),
        ("recommended"@, text_or_null(a.recommended)),
        ("timestamp"@, JsonView::Str(a.timestamp)),
    ]
}

/// The alert in a JSON object. Its fields in an array are no alert.
pub open spec fn alert_in(v: JsonView) -> Option<AlertView> {
    match (
        as_text(member(v, "agent"@)),
        as_text(member(v, "verdict"@)),
        as_text(member(v, "signal"@)),
        kind_of(as_text(member(v, "kind"@))),
        optional_text(member(v, "last_good"@)),
        optional_text(member(v, "recommended"@)),
        as_text(member(v, "timestamp"@)),
    ) {
        (
            Some(agent),
            Some(verdict),
            Some(signal),
            Some(kind),
            Some(last_good),
            Some(recommended),
            Some(timestamp),
        ) => Some(
            AlertView { agent, verdict, signal, kind, last_good, recommended, timestamp },
        ),
        _ => None,
    }
}

/// What the log says of an alert is the alert.
pub proof fn law_alert_comes_back(a: AlertView)
    ensures
        alert_in(object(alert_members(a))) == Some(a),
        plain_members(alert_members(a)),
{
    reveal_strlit("agent");
    reveal_strlit("verdict");
    reveal_strlit("signal");
    reveal_strlit("kind");
    reveal_strlit("last_good");
    reveal_strlit("recommended");
    reveal_strlit("timestamp");
    reveal_strlit("degraded");
    reveal_strlit("recovered");
    assert("last_good"@[0] == 'l');
    assert("timestamp"@[0] == 't');
    let members = alert_members(a);
    assert(members[1].0 == "verdict"@ && members[2].0 == "signal"@ && members[3].0 == "kind"@
        && members[4].0 == "last_good"@ && members[5].0 == "recommended"@ && members[6].0
        == "timestamp"@);
    assert forall|j: int| 0 < j < members.len() implies (#[trigger] members[j]).0.len() != 5 by {}
    lemma_object_member(members, 0);
    lemma_object_member(members, 1);
    lemma_object_member(members, 2);
    lemma_object_member(members, 3);
    lemma_object_member(members, 4);
    lemma_object_member(members, 5);
    lemma_object_member(members, 6);
    lemma_plain_members(members);
    assert("degraded"@ != "recovered"@) by {
        assert("degraded"@.len() == 8);
        assert("recovered"@.len() == 9);
    }
    assert(kind_of(Some(kind_name(a.kind))) == Some(a.kind));
    assert(optional_text(Some(text_or_null(a.last_good))) == Some(a.last_good));
    assert(optional_text(Some(text_or_null(a.recommended))) == Some(a.recommended));
}

impl AlertRecord {
    /// The alert as a line of the log, without its line end.
    pub fn log_text(&self) -> (r: String)
        ensures
            r@ == object_text(alert_members(self@)),
            json_parsed(r@) == Some(object(alert_members(self@))),
    {
        let kind = match self.kind {
            AlertKind::Degraded => "degraded",
            AlertKind::Recovered => "recovered",
        };
        let b = ObjectBuilder::new().with_text("agent", self.agent.as_str()).with_text(
            "verdict",
            self.verdict.as_str(),
        ).with_text("signal", self.signal.as_str()).with_text("kind", kind).with(
            "last_good",
            json_or_null(&self.last_good),
        ).with("recommended", json_or_null(&self.recommended)).with_text(
            "timestamp",
            self.timestamp.as_str(),
        );
        proof {
            assert(b@ =~= alert_members(self@));
            law_alert_comes_back(self@);
        }
        b.text()
    }

    /// Reads an alert from a line of the log.
    pub fn from_log_text(line: &str) -> (r: Option<Self>)
        ensures
            match json_parsed(line@) {
                Some(v) => match r {
                    Some(a) => alert_in(v) == Some(a@),
                    None => alert_in(v) is None,
                },
                None => r is None,
            },
    {
        let v = match parse_json(line) {
            Some(v) => v,
            None => {
                return None;
            },
        };
        let kind: Option<AlertKind> = match v.str_member("kind") {
            Some(k) => if text_eq(k, "degraded") {
                Some(AlertKind::Degraded)
            } else if text_eq(k, "recovered") {
                Some(AlertKind::Recovered)
            } else {
                None
            },
            None => None,
        };
        match (
            v.str_member("agent"),
            v.str_member("verdict"),
            v.str_member("signal"),
            kind,
            v.optional_str_member("last_good"),
            v.optional_str_member("recommended"),
            v.str_member("timestamp"),
        ) {
            (
                Some(agent),
                Some(verdict),
                Some(signal),
                Some(kind),
                Some(last_good),
                Some(recommended),
                Some(timestamp),
            ) => Some(
                AlertRecord {
                    agent: agent.to_owned(),
                    verdict: verdict.to_owned(),
                    signal: signal.to_owned(),
                    kind,
                    last_good,
                    recommended,
                    timestamp: timestamp.to_owned(),
                },
            ),
            _ => None,
        }
    }
}

// ─── Sinks ──────────────────────────────────────────────────────────────────

/// Where a sink delivers to.
pub ghost enum Route {
    /// A target on the bus behind a socket.
    Bus { socket: Seq<char>, source: Seq<char>, target: Seq<char> },
    /// A file, one line per alert.
    File { path: Seq<char> },
    /// Anywhere else.
    Elsewhere,
}

/// A sink takes alerts. It may answer that it failed; it was handed the alert all the
/// same.
pub trait AlertSink {
    /// The alerts that the sink was handed, oldest first.
    spec fn handed(&self) -> Seq<AlertView>;

    spec fn route(&self) -> Route;

    /// Short label of the sink.
    fn name(&self) -> (r: &str);

    /// Hands the sink an alert.
    fn fire(&mut self, alert: &AlertRecord) -> (r: Result<(), String>)
        ensures
            final(self).handed() == old(self).handed().push(alert@),
            final(self).route() == old(self).route(),
    ;
}

/// A message to be sent on the bus.
#[derive(Debug, Clone)]
pub struct BusDelivery {
    pub socket: String,
    pub source: String,
    pub target: String,
    pub text: String,
}

/// Sink for an agent on the bus.
pub struct BusMessageSink {
    socket_path: String,
    target_agent: String,
    source: String,
    pending: Vec<AlertRecord>,
}

impl BusMessageSink {
    /// A sink for `agent:<target_agent>`.
    pub fn new(socket_path: String, target_agent: String, source: String) -> (r: Self)
        ensures
            r.handed() == Seq::<AlertView>::empty(),
            r.route() == (Route::Bus {
                socket: socket_path@,
                source: source@,
                target: "agent:"@ + target_agent@,
            }),
    {
        let r = BusMessageSink { socket_path, target_agent, source, pending: Vec::new() };
        assert(r.handed() =~= Seq::<AlertView>::empty());
        r
    }

    /// Takes out what is to be sent, oldest first.
    pub fn take_deliveries(&mut self) -> (r: Vec<BusDelivery>)
        ensures
            final(self).route() == old(self).route(),
            final(self).handed() == Seq::<AlertView>::empty(),
            r@.len() == old(self).handed().len(),
            forall|i: int|
                0 <= i < r@.len() ==> old(self).route() == (Route::Bus {
                    socket: (#[trigger] r@[i]).socket@,
                    source: r@[i].source@,
                    target: r@[i].target@,
                }) && r@[i].text@ == bus_line(old(self).handed()[i]),
    {
        let mut out: Vec<BusDelivery> = Vec::new();
        let mut i: usize = 0;
        while i < self.pending.len()
            invariant
                *self == *old(self),
                i <= self.pending@.len(),
                out@.len() == i,
                forall|k: int|
                    0 <= k < out@.len() ==> old(self).route() == (Route::Bus {
                        socket: (#[trigger] out@[k]).socket@,
                        source: out@[k].source@,
                        target: out@[k].target@,
                    }) && out@[k].text@ == bus_line(old(self).handed()[k]),
            decreases self.pending@.len() - i,
        {
            let delivery = BusDelivery {
                socket: self.socket_path.clone(),
                source: self.source.clone(),
                target: concat2("agent:", self.target_agent.as_str()),
                text: self.pending[i].bus_text(),
            };
            out.push(delivery);
            i += 1;
        }
        self.pending = Vec::new();
        assert(self.handed() =~= Seq::<AlertView>::empty());
        out
    }
}

impl AlertSink for BusMessageSink {
    closed spec fn handed(&self) -> Seq<AlertView> {
        alert_views(self.pending@)
    }

    closed spec fn route(&self) -> Route {
        Route::Bus {
            socket: self.socket_path@,
            source: self.source@,
            target: "agent:"@ + self.target_agent@,
        }
    }

    fn name(&self) -> (r: &str)
        ensures
            r@ == "bus_message"@,
    {
        "bus_message"
    }

    fn fire(&mut self, alert: &AlertRecord) -> (r: Result<(), String>)
        ensures
            r is Ok,
    {
        self.pending.push(alert.copied());
        assert(self.handed() =~= old(self).handed().push(alert@));
        Ok(())
    }
}

/// Sink for a Telegram chat, by way of the bus.
pub struct TelegramSink {
    socket_path: String,
    chat_id: i64,
    source: String,
    pending: Vec<AlertRecord>,
}

impl TelegramSink {
    /// A sink for `telegram.out:<chat_id>`.
    pub fn new(socket_path: String, chat_id: i64, source: String) -> (r: Self)
        ensures
            r.handed() == Seq::<AlertView>::empty(),
            r.route() == (Route::Bus {
                socket: socket_path@,
                source: source@,
                target: "telegram.out:"@ + signed_decimal(chat_id as int),
            }),
    {
        let r = TelegramSink { socket_path, chat_id, source, pending: Vec::new() };
        assert(r.handed() =~= Seq::<AlertView>::empty());
        r
    }

    /// Takes out what is to be sent, oldest first.
    pub fn take_deliveries(&mut self) -> (r: Vec<BusDelivery>)
        ensures
            final(self).route() == old(self).route(),
            final(self).handed() == Seq::<AlertView>::empty(),
            r@.len() == old(self).handed().len(),
            forall|i: int|
                0 <= i < r@.len() ==> old(self).route() == (Route::Bus {
                    socket: (#[trigger] r@[i]).socket@,
                    source: r@[i].source@,
                    target: r@[i].target@,
                }) && r@[i].text@ == joined(telegram_lines(old(self).handed()[i]), "\n"@),
    {
        let mut out: Vec<BusDelivery> = Vec::new();
        let mut i: usize = 0;
        while i < self.pending.len()
            invariant
                *self == *old(self),
                i <= self.pending@.len(),
                out@.len() == i,
                forall|k: int|
                    0 <= k < out@.len() ==> old(self).route() == (Route::Bus {
                        socket: (#[trigger] out@[k]).socket@,
                        source: out@[k].source@,
                        target: out@[k].target@,
                    }) && out@[k].text@ == joined(telegram_lines(old(self).handed()[k]), "\n"@),
            decreases self.pending@.len() - i,
        {
            let chat = format_i64(self.chat_id);
            let delivery = BusDelivery {
                socket: self.socket_path.clone(),
                source: self.source.clone(),
                target: concat2("telegram.out:", chat.as_str()),
                text: self.pending[i].telegram_text(),
            };
            out.push(delivery);
            i += 1;
        }
        self.pending = Vec::new();
        assert(self.handed() =~= Seq::<AlertView>::empty());
        out
    }
}

impl AlertSink for TelegramSink {
    closed spec fn handed(&self) -> Seq<AlertView> {
        alert_views(self.pending@)
    }

    closed spec fn route(&self) -> Route {
        Route::Bus {
            socket: self.socket_path@,
            source: self.source@,
            target: "telegram.out:"@ + signed_decimal(self.chat_id as int),
        }
    }

    fn name(&self) -> (r: &str)
        ensures
            r@ == "telegram"@,
    {
        "telegram"
    }

    fn fire(&mut self, alert: &AlertRecord) -> (r: Result<(), String>)
        ensures
            r is Ok,
    {
        self.pending.push(alert.copied());
        assert(self.handed() =~= old(self).handed().push(alert@));
        Ok(())
    }
}

/// Sink for a log file.
pub struct LogSink {
    path: String,
    pending: Vec<AlertRecord>,
}

impl LogSink {
    pub fn new(path: String) -> (r: Self)
        ensures
            r.handed() == Seq::<AlertView>::empty(),
            r.route() == (Route::File { path: path@ }),
    {
        let r = LogSink { path, pending: Vec::new() };
        assert(r.handed() =~= Seq::<AlertView>::empty());
        r
    }

    /// The file that the alerts are for.
    pub fn path(&self) -> (r: &str)
        ensures
            self.route() == (Route::File { path: r@ }),
    {
        self.path.as_str()
    }

    /// Takes out the lines to be written, oldest first.
    pub fn take_lines(&mut self) -> (r: Vec<String>)
        ensures
            final(self).route() == old(self).route(),
            final(self).handed() == Seq::<AlertView>::empty(),
            texts(r@) == Seq::new(
                old(self).handed().len(),
                |i: int| object_text(alert_members(old(self).handed()[i])) + "\n"@,
            ),
    {
        let mut out: Vec<String> = Vec::new();
        let mut i: usize = 0;
        while i < self.pending.len()
            invariant
                *self == *old(self),
                i <= self.pending@.len(),
                out@.len() == i,
                forall|k: int|
                    0 <= k < i ==> (#[trigger] out@[k])@ == object_text(
                        alert_members(old(self).handed()[k]),
                    ) + "\n"@,
            decreases self.pending@.len() - i,
        {
            let text = self.pending[i].log_text();
            out.push(concat2(text.as_str(), "\n"));
            i += 1;
        }
        self.pending = Vec::new();
        assert(self.handed() =~= Seq::<AlertView>::empty());
        assert(texts(out@) =~= Seq::new(
            old(self).handed().len(),
            |i: int| object_text(alert_members(old(self).handed()[i])) + "\n"@,
        ));
        out
    }
}

impl AlertSink for LogSink {
    closed spec fn handed(&self) -> Seq<AlertView> {
        alert_views(self.pending@)
    }

    closed spec fn route(&self) -> Route {
        Route::File { path: self.path@ }
    }

    fn name(&self) -> (r: &str)
        ensures
            r@ == "log"@,
    {
        "log"
    }

    fn fire(&mut self, alert: &AlertRecord) -> (r: Result<(), String>)
        ensures
            r is Ok,
    {
        self.pending.push(alert.copied());
        assert(self.handed() =~= old(self).handed().push(alert@));
        Ok(())
    }
}

/// A sink of any configured kind.
pub enum ConfiguredSink {
    Bus(BusMessageSink),
    Telegram(TelegramSink),
    Log(LogSink),
}

impl AlertSink for ConfiguredSink {
    open spec fn handed(&self) -> Seq<AlertView> {
        match *self {
            ConfiguredSink::Bus(s) => s.handed(),
            ConfiguredSink::Telegram(s) => s.handed(),
            ConfiguredSink::Log(s) => s.handed(),
        }
    }

    open spec fn route(&self) -> Route {
        match *self {
            ConfiguredSink::Bus(s) => s.route(),
            ConfiguredSink::Telegram(s) => s.route(),
            ConfiguredSink::Log(s) => s.route(),
        }
    }

    fn name(&self) -> (r: &str)
        ensures
            r@ == (match *self {
                ConfiguredSink::Bus(_) => "bus_message"@,
                ConfiguredSink::Telegram(_) => "telegram"@,
                ConfiguredSink::Log(_) => "log"@,
            }),
    {
        match self {
            ConfiguredSink::Bus(s) => s.name(),
            ConfiguredSink::Telegram(s) => s.name(),
            ConfiguredSink::Log(s) => s.name(),
        }
    }

    fn fire(&mut self, alert: &AlertRecord) -> (r: Result<(), String>)
        ensures
            r is Ok,
    {
        match self {
            ConfiguredSink::Bus(s) => s.fire(alert),
            ConfiguredSink::Telegram(s) => s.fire(alert),
            ConfiguredSink::Log(s) => s.fire(alert),
        }
    }
}

// ─── Configuration ──────────────────────────────────────────────────────────

/// One configured sink.
#[derive(Debug, Clone)]
pub enum AlertSinkConfig {
    BusMessage { target_agent: String },
    Telegram { chat_id: String },
    Log { path: String },
}

/// The configured sinks.
#[derive(Debug, Clone)]
pub struct AlertsConfig {
    pub sinks: Vec<AlertSinkConfig>,
}

/// Where a configured sink delivers to; `None` where its chat is no number.
pub open spec fn configured_route(c: AlertSinkConfig, socket: Seq<char>, agent: Seq<char>) -> Option<
    Route,
> {
    match c {
        AlertSinkConfig::BusMessage { target_agent } => Some(
            Route::Bus { socket, source: "alerts-"@ + agent, target: "agent:"@ + target_agent@ },
        ),
        AlertSinkConfig::Telegram { chat_id } => match parsed_i64(chat_id@) {
            Some(n) => Some(
                Route::Bus {
                    socket,
                    source: "alerts-"@ + agent,
                    target: "telegram.out:"@ + signed_decimal(n as int),
                },
            ),
            None => None,
        },
        AlertSinkConfig::Log { path } => Some(Route::File { path: path@ }),
    }
}

/// Where the configured sinks deliver to, in order, without those whose chat is no
/// number.
pub open spec fn configured_routes(
    sinks: Seq<AlertSinkConfig>,
    socket: Seq<char>,
    agent: Seq<char>,
) -> Seq<Route>
    decreases sinks.len(),
{
    if sinks.len() == 0 {
        Seq::empty()
    } else {
        let front = configured_routes(sinks.drop_last(), socket, agent);
        match configured_route(sinks.last(), socket, agent) {
            Some(r) => front.push(r),
            None => front,
        }
    }
}

fn configured_sink(c: &AlertSinkConfig, bus_socket: &str, agent_name: &str) -> (r: Option<
    ConfiguredSink,
>)
    ensures
        match r {
            Some(s) => configured_route(*c, bus_socket@, agent_name@) == Some(s.route())
                && s.handed() == Seq::<AlertView>::empty() && (s is Log <==> *c is Log) && (
            s is Telegram <==> *c is Telegram),
            None => configured_route(*c, bus_socket@, agent_name@) is None,
        },
{
    let source = concat2("alerts-", agent_name);
    match c {
        AlertSinkConfig::BusMessage { target_agent } => Some(
            ConfiguredSink::Bus(
                BusMessageSink::new(bus_socket.to_owned(), target_agent.clone(), source),
            ),
        ),
        AlertSinkConfig::Telegram { chat_id } => match parse_i64(chat_id.as_str()) {
            Some(n) => Some(
                ConfiguredSink::Telegram(TelegramSink::new(bus_socket.to_owned(), n, source)),
            ),
            None => None,
        },
        AlertSinkConfig::Log { path } => Some(ConfiguredSink::Log(LogSink::new(path.clone()))),
    }
}

// ─── Transitions ────────────────────────────────────────────────────────────

/// The alert of a report, where the agent's last verdict was `prev`. An agent that
/// was never reported on counts as fine.
pub open spec fn transition(
    prev: Option<VerdictView>,
    report: ReportView,
    timestamp: Seq<char>,
) -> Option<AlertView> {
    let was = prev is Some && degraded(prev->0);
    let is = degraded(report.verdict);
    if was == is {
        None
    } else {
        Some(
            AlertView {
                agent: report.agent,
                verdict: if is {
                    verdict_label(report.verdict)
                } else {
                    "healthy"@
                },
                signal: report.signal,
                kind: if is {
                    AlertKind::Degraded
                } else {
                    AlertKind::Recovered
                },
                last_good: report.last_good,
                recommended: report.recommended,
                timestamp,
            },
        )
    }
}

/// An alert of a recovery says `healthy`, whichever verdict without degradation was
/// reported.
pub proof fn law_recovery_says_healthy(
    prev: Option<VerdictView>,
    report: ReportView,
    timestamp: Seq<char>,
)
    ensures
        transition(prev, report, timestamp) matches Some(a) ==> (a.kind == AlertKind::Recovered
            ==> a.verdict == "healthy"@),
{
}

pub open spec fn looked_up(state: Map<Seq<char>, VerdictView>, agent: Seq<char>) -> Option<
    VerdictView,
> {
    if state.contains_key(agent) {
        Some(state[agent])
    } else {
        None
    }
}

/// The last verdicts after the reports.
pub open spec fn verdicts_after(
    state: Map<Seq<char>, VerdictView>,
    reports: Seq<ReportView>,
) -> Map<Seq<char>, VerdictView>
    decreases reports.len(),
{
    if reports.len() == 0 {
        state
    } else {
        verdicts_after(state, reports.drop_last()).insert(
            reports.last().agent,
            reports.last().verdict,
        )
    }
}

/// The alerts of the reports, in order.
pub open spec fn alerts_of(
    state: Map<Seq<char>, VerdictView>,
    reports: Seq<ReportView>,
    timestamp: Seq<char>,
) -> Seq<AlertView>
    decreases reports.len(),
{
    if reports.len() == 0 {
        Seq::empty()
    } else {
        let front = alerts_of(state, reports.drop_last(), timestamp);
        let seen = verdicts_after(state, reports.drop_last());
        match transition(looked_up(seen, reports.last().agent), reports.last(), timestamp) {
            Some(a) => front.push(a),
            None => front,
        }
    }
}

/// Tracks the last verdict on each agent and hands the alerts to every sink.
pub struct AlertManager<S: AlertSink> {
    sinks: Vec<S>,
    last_verdict: TextMap<Verdict>,
}

impl<S: AlertSink> AlertManager<S> {
    pub closed spec fn wf(&self) -> bool {
        self.last_verdict.wf()
    }

    pub closed spec fn sinks(&self) -> Seq<S> {
        self.sinks@
    }

    /// The last verdict on each agent.
    pub closed spec fn verdicts(&self) -> Map<Seq<char>, VerdictView> {
        self.last_verdict@.map_values(|v: Verdict| v@)
    }

    pub fn new(sinks: Vec<S>) -> (r: Self)
        ensures
            r.wf(),
            r.sinks() == sinks@,
            r.verdicts() == Map::<Seq<char>, VerdictView>::empty(),
    {
        let r = AlertManager { sinks, last_verdict: TextMap::new() };
        assert(r.verdicts() =~= Map::<Seq<char>, VerdictView>::empty());
        r
    }

    /// Whether there is no sink.
    pub fn is_empty(&self) -> (r: bool)
        ensures
            r == (self.sinks().len() == 0),
    {
        self.sinks.len() == 0
    }

    /// Gives the sinks back.
    pub fn into_sinks(self) -> (r: Vec<S>)
        ensures
            r@ == self.sinks(),
    {
        self.sinks
    }

    /// Takes note of the report, and returns its alert if the boundary was crossed.
    pub fn transition_alert(&mut self, report: &VerdictReport, timestamp: &str) -> (r: Option<
        AlertRecord,
    >)
        requires
            old(self).wf(),
        ensures
            final(self).wf(),
            final(self).sinks() == old(self).sinks(),
            final(self).verdicts() == old(self).verdicts().insert(report@.agent, report@.verdict),
            match r {
                Some(a) => transition(
                    looked_up(old(self).verdicts(), report@.agent),
                    report@,
                    timestamp@,
                ) == Some(a@),
                None => transition(
                    looked_up(old(self).verdicts(), report@.agent),
                    report@,
                    timestamp@,
                ) is None,
            },
    {
        let was = match self.last_verdict.get(report.agent.as_str()) {
            Some(v) => v.is_degraded(),
            None => false,
        };
        let is = report.verdict.is_degraded();
        self.last_verdict.insert(report.agent.clone(), report.verdict.copied());
        assert(self.verdicts() =~= old(self).verdicts().insert(
            report@.agent,
            report@.verdict,
        ));
        if was == is {
            return None;
        }
        let kind = if is {
            AlertKind::Degraded
        } else {
            AlertKind::Recovered
        };
        let verdict = if is {
            report.verdict.label()
        } else {
            "healthy"
        };
        Some(
            AlertRecord {
                agent: report.agent.clone(),
                verdict: verdict.to_owned(),
                signal: report.signal.clone(),
                kind,
                last_good: report.last_good.clone(),
                recommended: report.recommended.clone(),
                timestamp: timestamp.to_owned(),
            },
        )
    }

    /// Hands the alert to every sink, whatever the sinks before it answered.
    pub fn dispatch(&mut self, alert: &AlertRecord)
        requires
            old(self).wf(),
        ensures
            final(self).wf(),
            final(self).verdicts() == old(self).verdicts(),
            final(self).sinks().len() == old(self).sinks().len(),
            forall|i: int|
                0 <= i < old(self).sinks().len() ==> (#[trigger] final(self).sinks()[i]).handed()
                    == old(self).sinks()[i].handed().push(alert@) && final(self).sinks()[i].route()
                    == old(self).sinks()[i].route(),
    {
        let mut i: usize = 0;
        while i < self.sinks.len()
            invariant
                self.wf(),
                self.verdicts() == old(self).verdicts(),
                i <= self.sinks@.len(),
                self.sinks@.len() == old(self).sinks().len(),
                forall|k: int|
                    0 <= k < i ==> (#[trigger] self.sinks@[k]).handed()
                        == old(self).sinks()[k].handed().push(alert@) && self.sinks@[k].route()
                        == old(self).sinks()[k].route(),
                forall|k: int|
                    i <= k < self.sinks@.len() ==> (#[trigger] self.sinks@[k])
                        == old(self).sinks()[k],
            decreases self.sinks@.len() - i,
        {
            let _answer = self.sinks[i].fire(alert);
            i += 1;
        }
    }

    /// Takes note of the reports and hands each alert to every sink.
    pub fn observe(&mut self, reports: &Vec<VerdictReport>, timestamp: &str)
        requires
            old(self).wf(),
        ensures
            final(self).wf(),
            final(self).verdicts() == verdicts_after(old(self).verdicts(), report_views(reports@)),
            final(self).sinks().len() == old(self).sinks().len(),
            forall|i: int|
                0 <= i < old(self).sinks().len() ==> (#[trigger] final(self).sinks()[i]).handed()
                    == old(self).sinks()[i].handed() + alerts_of(
                    old(self).verdicts(),
                    report_views(reports@),
                    timestamp@,
                ) && final(self).sinks()[i].route() == old(self).sinks()[i].route(),
    {
        let ghost all = report_views(reports@);
        let ghost state = self.verdicts();
        let mut i: usize = 0;
        assert(all.take(0) =~= Seq::<ReportView>::empty());
        while i < reports.len()
            invariant
                self.wf(),
                i <= reports@.len(),
                all == report_views(reports@),
                state == old(self).verdicts(),
                self.verdicts() == verdicts_after(state, all.take(i as int)),
                self.sinks().len() == old(self).sinks().len(),
                forall|k: int|
                    0 <= k < old(self).sinks().len() ==> (#[trigger] self.sinks()[k]).handed()
                        =~= old(self).sinks()[k].handed() + alerts_of(
                        state,
                        all.take(i as int),
                        timestamp@,
                    ) && self.sinks()[k].route() == old(self).sinks()[k].route(),
            decreases reports@.len() - i,
        {
            proof {
                assert(all.take(i + 1).drop_last() =~= all.take(i as int));
                assert(all.take(i + 1).last() == reports@[i as int]@);
            }
            let ghost before = self.sinks();
            match self.transition_alert(&reports[i], timestamp) {
                Some(alert) => {
                    self.dispatch(&alert);
                    assert forall|k: int| 0 <= k < old(self).sinks().len() implies (
                    #[trigger] self.sinks()[k]).handed() =~= old(self).sinks()[k].handed()
                        + alerts_of(state, all.take(i + 1), timestamp@) by {
                        assert(before[k].handed() =~= old(self).sinks()[k].handed() + alerts_of(
                            state,
                            all.take(i as int),
                            timestamp@,
                        ));
                    }
                },
                None => {},
            }
            i += 1;
        }
        assert(all.take(reports@.len() as int) =~= all);
    }
}

impl AlertManager<ConfiguredSink> {
    /// The manager of the configured sinks of an agent. A sink whose chat is no number
    /// is left out.
    pub fn from_config(cfg: &AlertsConfig, bus_socket: &str, agent_name: &str) -> (r: Self)
        ensures
            r.wf(),
            r.verdicts() == Map::<Seq<char>, VerdictView>::empty(),
            Seq::new(r.sinks().len(), |i: int| r.sinks()[i].route()) == configured_routes(
                cfg.sinks@,
                bus_socket@,
                agent_name@,
            ),
            forall|i: int|
                0 <= i < r.sinks().len() ==> (#[trigger] r.sinks()[i]).handed() == Seq::<
                    AlertView,
                >::empty(),
    {
        let mut sinks: Vec<ConfiguredSink> = Vec::new();
        let mut i: usize = 0;
        assert(cfg.sinks@.take(0) =~= Seq::<AlertSinkConfig>::empty());
        while i < cfg.sinks.len()
            invariant
                i <= cfg.sinks@.len(),
                Seq::new(sinks@.len(), |k: int| sinks@[k].route()) =~= configured_routes(
                    cfg.sinks@.take(i as int),
                    bus_socket@,
                    agent_name@,
                ),
                forall|k: int|
                    0 <= k < sinks@.len() ==> (#[trigger] sinks@[k]).handed() == Seq::<
                        AlertView,
                    >::empty(),
            decreases cfg.sinks@.len() - i,
        {
            proof {
                assert(cfg.sinks@.take(i + 1).drop_last() =~= cfg.sinks@.take(i as int));
            }
            match configured_sink(&cfg.sinks[i], bus_socket, agent_name) {
                Some(sink) => {
                    let ghost before = sinks@;
                    sinks.push(sink);
                    assert(Seq::new(sinks@.len(), |k: int| sinks@[k].route()) =~= Seq::new(
                        before.len(),
                        |k: int| before[k].route(),
                    ).push(sink.route()));
                },
                None => {},
            }
            i += 1;
        }
        assert(cfg.sinks@.take(cfg.sinks@.len() as int) =~= cfg.sinks@);
        Self::new(sinks)
    }

    /// The sink at an index, to be emptied.
    pub fn sink_mut(&mut self, i: usize) -> (r: &mut ConfiguredSink)
        requires
            i < old(self).sinks().len(),
        ensures
            *r == old(self).sinks()[i as int],
            final(self).sinks() == old(self).sinks().update(i as int, *final(r)),
            final(self).verdicts() == old(self).verdicts(),
            old(self).wf() ==> final(self).wf(),
    {
        &mut self.sinks[i]
    }

    pub fn sink_count(&self) -> (r: usize)
        ensures
            r == self.sinks().len(),
    {
        self.sinks.len()
    }
}

// ─── What holds of any run of reports ───────────────────────────────────────

/// The alerts on one agent.
pub open spec fn alerts_on(alerts: Seq<AlertView>, agent: Seq<char>) -> Seq<AlertView>
    decreases alerts.len(),
{
    if alerts.len() == 0 {
        Seq::empty()
    } else {
        let front = alerts_on(alerts.drop_last(), agent);
        if alerts.last().agent == agent {
            front.push(alerts.last())
        } else {
            front
        }
    }
}

/// The reports on one agent.
pub open spec fn reports_on(reports: Seq<ReportView>, agent: Seq<char>) -> Seq<ReportView>
    decreases reports.len(),
{
    if reports.len() == 0 {
        Seq::empty()
    } else {
        let front = reports_on(reports.drop_last(), agent);
        if reports.last().agent == agent {
            front.push(reports.last())
        } else {
            front
        }
    }
}

/// Whether the last verdict on the agent is a degraded one.
pub open spec fn is_down(state: Map<Seq<char>, VerdictView>, agent: Seq<char>) -> bool {
    state.contains_key(agent) && degraded(state[agent])
}

/// Agents are independent: the alerts on one agent are those of its own reports.
pub proof fn law_agents_independent(
    state: Map<Seq<char>, VerdictView>,
    reports: Seq<ReportView>,
    timestamp: Seq<char>,
    agent: Seq<char>,
)
    ensures
        alerts_on(alerts_of(state, reports, timestamp), agent) == alerts_of(
            state,
            reports_on(reports, agent),
            timestamp,
        ),
        looked_up(verdicts_after(state, reports), agent) == looked_up(
            verdicts_after(state, reports_on(reports, agent)),
            agent,
        ),
    decreases reports.len(),
{
    if reports.len() > 0 {
        let front = reports.drop_last();
        let last = reports.last();
        law_agents_independent(state, front, timestamp, agent);
        let alerts = alerts_of(state, front, timestamp);
        let own = reports_on(front, agent);
        if last.agent == agent {
            assert(own.push(last).drop_last() =~= own);
        }
        match transition(looked_up(verdicts_after(state, front), last.agent), last, timestamp) {
            Some(a) => {
                assert(alerts.push(a).drop_last() =~= alerts);
            },
            None => {},
        }
    }
}

/// Only crossings fire: the alerts on an agent alternate between degraded and
/// recovered. The first says degraded, unless the agent was degraded before, and the
/// last says what the agent's state is now.
pub proof fn law_alerts_alternate(
    state: Map<Seq<char>, VerdictView>,
    reports: Seq<ReportView>,
    timestamp: Seq<char>,
    agent: Seq<char>,
)
    ensures
        ({
            let alerts = alerts_on(alerts_of(state, reports, timestamp), agent);
            let now = verdicts_after(state, reports);
            &&& forall|i: int, j: int|
                0 <= i && j == i + 1 && j < alerts.len() ==> (#[trigger] alerts[i]).kind != (
                #[trigger] alerts[j]).kind
            &&& alerts.len() > 0 ==> (alerts[0].kind is Degraded <==> !is_down(state, agent))
            &&& alerts.len() > 0 ==> (alerts.last().kind is Degraded <==> is_down(now, agent))
            &&& alerts.len() == 0 ==> is_down(now, agent) == is_down(state, agent)
        }),
    decreases reports.len(),
{
    if reports.len() > 0 {
        let front = reports.drop_last();
        let last = reports.last();
        law_alerts_alternate(state, front, timestamp, agent);
        let alerts = alerts_of(state, front, timestamp);
        match transition(looked_up(verdicts_after(state, front), last.agent), last, timestamp) {
            Some(a) => {
                assert(alerts.push(a).drop_last() =~= alerts);
                let own = alerts_on(alerts, agent);
                if a.agent == agent {
                    assert forall|i: int, j: int|
                        0 <= i && j == i + 1 && j < own.push(a).len() implies (
                    #[trigger] own.push(a)[i]).kind != (#[trigger] own.push(a)[j]).kind by {
                        if j < own.len() {
                            assert(own[i].kind != own[j].kind);
                        } else {
                            assert(own[i] == own.last());
                        }
                    }
                }
            },
            None => {},
        }
    }
}

/// A report that leaves the agent on its side of the boundary fires nothing, however
/// often it is repeated.
pub proof fn law_repeats_are_silent(
    state: Map<Seq<char>, VerdictView>,
    report: ReportView,
    times: nat,
    timestamp: Seq<char>,
)
    requires
        is_down(state, report.agent) == degraded(report.verdict),
    ensures
        alerts_of(state, Seq::new(times, |i: int| report), timestamp).len() == 0,
        is_down(
            verdicts_after(state, Seq::new(times, |i: int| report)),
            report.agent,
        ) == degraded(report.verdict),
    decreases times,
{
    let reports = Seq::new(times, |i: int| report);
    if times > 0 {
        law_repeats_are_silent(state, report, (times - 1) as nat, timestamp);
        assert(reports.drop_last() =~= Seq::new((times - 1) as nat, |i: int| report));
    }
}

/// An agent that was fine, or never reported on, and is now hung, stuck, dead or otherwise
/// degraded raises an alert that says so and carries what the report says.
pub proof fn law_going_down_fires(
    prev: Option<VerdictView>,
    report: ReportView,
    timestamp: Seq<char>,
)
    requires
        prev is None || prev->0 is Healthy || prev->0 is Idle,
        !(report.verdict is Healthy) && !(report.verdict is Idle),
    ensures
        transition(prev, report, timestamp) matches Some(a) && a.kind == AlertKind::Degraded
            && a.agent == report.agent && a.signal == report.signal && a.last_good
            == report.last_good && a.recommended == report.recommended && a.timestamp == timestamp
            && (report.verdict is Hung ==> a.verdict == "hung"@) && (report.verdict is Stuck
            ==> a.verdict == "stuck"@) && (report.verdict is Dead ==> a.verdict == "dead"@) && (
        report.verdict matches VerdictView::Degraded(label) ==> a.verdict == label),
{
}

/// An agent that was degraded and is fine again raises an alert of the recovery.
pub proof fn law_coming_back_fires(
    prev: Option<VerdictView>,
    report: ReportView,
    timestamp: Seq<char>,
)
    requires
        prev is Some && !(prev->0 is Healthy) && !(prev->0 is Idle),
        report.verdict is Healthy || report.verdict is Idle,
    ensures
        transition(prev, report, timestamp) matches Some(a) && a.kind == AlertKind::Recovered
            && a.agent == report.agent && a.signal == report.signal && a.last_good
            == report.last_good && a.recommended == report.recommended && a.timestamp == timestamp
            && a.verdict == "healthy"@,
{
}

/// An agent that stays fine, or stays degraded, raises none.
pub proof fn law_staying_fires_nothing(
    prev: Option<VerdictView>,
    report: ReportView,
    timestamp: Seq<char>,
)
    requires
        (prev is None || prev->0 is Healthy || prev->0 is Idle) == (report.verdict is Healthy
            || report.verdict is Idle),
    ensures
        transition(prev, report, timestamp) is None,
{
}

/// The verdict that counts of an agent is that of its latest report.
pub proof fn law_latest_report_counts(
    state: Map<Seq<char>, VerdictView>,
    reports: Seq<ReportView>,
    i: int,
)
    requires
        0 <= i < reports.len(),
        forall|j: int| i < j < reports.len() ==> (#[trigger] reports[j]).agent != reports[i].agent,
    ensures
        looked_up(verdicts_after(state, reports), reports[i].agent) == Some(reports[i].verdict),
    decreases reports.len(),
{
    if i < reports.len() - 1 {
        let front = reports.drop_last();
        assert(reports[reports.len() - 1].agent != reports[i].agent);
        assert forall|j: int| i < j < front.len() implies (#[trigger] front[j]).agent
            != front[i].agent by {
            assert(reports[j].agent != reports[i].agent);
        }
        law_latest_report_counts(state, front, i);
    }
}

/// Where no report is on an agent, what was known of it stays.
pub proof fn law_unreported_agents_stay(
    state: Map<Seq<char>, VerdictView>,
    reports: Seq<ReportView>,
    agent: Seq<char>,
)
    requires
        forall|j: int| 0 <= j < reports.len() ==> (#[trigger] reports[j]).agent != agent,
    ensures
        looked_up(verdicts_after(state, reports), agent) == looked_up(state, agent),
    decreases reports.len(),
{
    if reports.len() > 0 {
        let front = reports.drop_last();
        assert(reports[reports.len() - 1].agent != agent);
        assert forall|j: int| 0 <= j < front.len() implies (#[trigger] front[j]).agent
            != agent by {
            assert(reports[j].agent != agent);
        }
        law_unreported_agents_stay(state, front, agent);
    }
}

/// Reports may come in one batch or in two: the alerts are the same, in the same order.
pub proof fn law_batches_do_not_matter(
    state: Map<Seq<char>, VerdictView>,
    a: Seq<ReportView>,
    b: Seq<ReportView>,
    timestamp: Seq<char>,
)
    ensures
        alerts_of(state, a + b, timestamp) == alerts_of(state, a, timestamp) + alerts_of(
            verdicts_after(state, a),
            b,
            timestamp,
        ),
        verdicts_after(state, a + b) == verdicts_after(verdicts_after(state, a), b),
    decreases b.len(),
{
    if b.len() == 0 {
        assert(a + b =~= a);
        assert(alerts_of(state, a, timestamp) + Seq::<AlertView>::empty() =~= alerts_of(
            state,
            a,
            timestamp,
        ));
    } else {
        law_batches_do_not_matter(state, a, b.drop_last(), timestamp);
        assert((a + b).drop_last() =~= a + b.drop_last());
        assert((a + b).last() == b.last());
        assert(alerts_of(state, a + b, timestamp) =~= alerts_of(state, a, timestamp) + alerts_of(
            verdicts_after(state, a),
            b,
            timestamp,
        ));
    }
}

/// One report raises its alert, and only that.
pub proof fn law_one_report_one_alert(
    state: Map<Seq<char>, VerdictView>,
    report: ReportView,
    timestamp: Seq<char>,
)
    ensures
        alerts_of(state, seq![report], timestamp) == (match transition(
            if state.contains_key(report.agent) {
                Some(state[report.agent])
            } else {
                None
            },
            report,
            timestamp,
        ) {
            Some(a) => seq![a],
            None => Seq::empty(),
        }),
{
    reveal_with_fuel(alerts_of, 2);
    reveal_with_fuel(verdicts_after, 2);
    assert(seq![report].drop_last() =~= Seq::<ReportView>::empty());
    assert(alerts_of(state, seq![report], timestamp) =~= (match transition(
        if state.contains_key(report.agent) {
            Some(state[report.agent])
        } else {
            None
        },
        report,
        timestamp,
    ) {
        Some(a) => seq![a],
        None => Seq::empty(),
    }));
}

/// An alert in a chat names the agent and what happened, and tells the signal, the last
/// good time and the remedy, those that there are, in this order.
pub proof fn law_chat_lines_tell_all(a: AlertView)
    ensures
        telegram_lines(a).len() == 2 + (if a.last_good is Some {
            1int
        } else {
            0
        }) + (if a.recommended is Some {
            1int
        } else {
            0
        }),
        a.kind == AlertKind::Degraded ==> telegram_lines(a)[0] == "⚠ Agent `"@ + a.agent
            + "` degraded: "@ + a.verdict,
        a.kind == AlertKind::Recovered ==> telegram_lines(a)[0] == "✓ Agent `"@ + a.agent
            + "` recovered"@,
        telegram_lines(a)[1] == "Signal: "@ + a.signal,
        a.last_good matches Some(t) ==> telegram_lines(a)[2] == "Last good: "@ + t,
        a.recommended matches Some(t) ==> telegram_lines(a).last() == "Recommended: `"@ + t
            + "`"@,
{
}

/// The sinks are those that are configured, in their order.
pub proof fn law_sinks_as_configured(
    a: Seq<AlertSinkConfig>,
    b: Seq<AlertSinkConfig>,
    socket: Seq<char>,
    agent: Seq<char>,
)
    ensures
        configured_routes(a + b, socket, agent) == configured_routes(a, socket, agent)
            + configured_routes(b, socket, agent),
    decreases b.len(),
{
    if b.len() == 0 {
        assert(a + b =~= a);
        assert(configured_routes(a, socket, agent) + Seq::<Route>::empty() =~= configured_routes(
            a,
            socket,
            agent,
        ));
    } else {
        law_sinks_as_configured(a, b.drop_last(), socket, agent);
        assert((a + b).drop_last() =~= a + b.drop_last());
        assert((a + b).last() == b.last());
        assert(configured_routes(a + b, socket, agent) =~= configured_routes(a, socket, agent)
            + configured_routes(b, socket, agent));
    }
}

/// A sink delivers where its configuration says: to the agent, to the chat, or to the file.
/// One for a chat that is no number is left out.
pub proof fn law_sink_delivers_to_its_target(
    c: AlertSinkConfig,
    socket: Seq<char>,
    agent: Seq<char>,
    n: i64,
)
    ensures
        c matches AlertSinkConfig::BusMessage { target_agent } ==> configured_routes(
            seq![c],
            socket,
            agent,
        ) == seq![
            Route::Bus { socket, source: "alerts-"@ + agent, target: "agent:"@ + target_agent@ },
        ],
        (c matches AlertSinkConfig::Telegram { chat_id } && chat_id@ == signed_decimal(n as int))
            ==> configured_routes(seq![c], socket, agent) == seq![
            Route::Bus {
                socket,
                source: "alerts-"@ + agent,
                target: "telegram.out:"@ + signed_decimal(n as int),
            },
        ],
        (c matches AlertSinkConfig::Telegram { chat_id } && parsed_i64(chat_id@) is None)
            ==> configured_routes(seq![c], socket, agent).len() == 0,
        c matches AlertSinkConfig::Log { path } ==> configured_routes(seq![c], socket, agent)
            == seq![Route::File { path: path@ }],
{
    reveal_with_fuel(configured_routes, 2);
    lemma_signed_decimal_parses(n);
    assert(seq![c].drop_last() =~= Seq::<AlertSinkConfig>::empty());
    match configured_route(c, socket, agent) {
        Some(r) => {
            assert(configured_routes(seq![c], socket, agent) =~= seq![r]);
        },
        None => {},
    }
}

// ─── Sources ────────────────────────────────────────────────────────────────

/// Where reports come from.
pub trait VerdictSource {
    fn poll(&self) -> (r: Result<Vec<VerdictReport>, String>);
}

/// A source that reports every agent as idle.
pub struct HeuristicVerdictSource {
    agents: Vec<(String, String)>,
}

impl HeuristicVerdictSource {
    /// The names of the agents.
    pub closed spec fn names(&self) -> Seq<Seq<char>> {
        Seq::new(self.agents@.len(), |i: int| self.agents@[i].0@)
    }

    /// A source of the agents, each with the path of its usage log.
    pub fn new(agents: Vec<(String, String)>) -> (r: Self)
        ensures
            r.names() == Seq::new(agents@.len(), |i: int| agents@[i].0@),
    {
        HeuristicVerdictSource { agents }
    }
}

/// What the heuristic source reports of an agent.
pub open spec fn idle_report(agent: Seq<char>) -> ReportView {
    ReportView {
        agent,
        verdict: VerdictView::Idle,
        signal: "placeholder verdict source — awaiting #422"@,
        last_good: None,
        recommended: None,
    }
}

impl VerdictSource for HeuristicVerdictSource {
    fn poll(&self) -> (r: Result<Vec<VerdictReport>, String>)
        ensures
            r matches Ok(reports) && report_views(reports@) == Seq::new(
                self.names().len(),
                |i: int| idle_report(self.names()[i]),
            ),
    {
        let mut out: Vec<VerdictReport> = Vec::new();
        let mut i: usize = 0;
        while i < self.agents.len()
            invariant
                i <= self.agents@.len(),
                report_views(out@) =~= Seq::new(i as nat, |k: int| idle_report(self.names()[k])),
            decreases self.agents@.len() - i,
        {
            let ghost before = out@;
            let report = VerdictReport {
                agent: self.agents[i].0.clone(),
                verdict: Verdict::Idle,
                signal: "placeholder verdict source — awaiting #422".to_owned(),
                last_good: None,
                recommended: None,
            };
            out.push(report);
            assert(report_views(out@) =~= report_views(before).push(report@));
            assert(report@ =~= idle_report(self.names()[i as int]));
            i += 1;
        }
        Ok(out)
    }
}

/// Whether a verdict calls for an alert is decided by what it is: a healthy or an idle agent
/// needs none.
pub proof fn law_verdicts_by_name(v: &Verdict, down: bool, label: &str)
    requires
        call_ensures(Verdict::is_degraded, (v,), down),
        call_ensures(Verdict::label, (v,), label),
    ensures
        down <==> !(v is Healthy) && !(v is Idle),
        v is Healthy ==> label@ == "healthy"@,
        v is Idle ==> label@ == "idle"@,
        v is Hung ==> label@ == "hung"@,
        v is Stuck ==> label@ == "stuck"@,
        v is Dead ==> label@ == "dead"@,
        v matches Verdict::Degraded(l) ==> label@ == l@,
{
}

/// Of two reports on an agent, one right after the other, the second fires where it says
/// something else of the agent's health than the first, and only there. Its alert is of that
/// report.
pub proof fn law_second_report_fires_on_a_change(
    first: &mut AlertManager<ConfiguredSink>,
    second: &mut AlertManager<ConfiguredSink>,
    a: &VerdictReport,
    b: &VerdictReport,
    time_a: &str,
    time_b: &str,
    ra: Option<AlertRecord>,
    rb: Option<AlertRecord>,
)
    requires
        old(first).wf(),
        call_ensures(AlertManager::<ConfiguredSink>::transition_alert, (first, a, time_a), ra),
        *old(second) == *final(first),
        call_ensures(AlertManager::<ConfiguredSink>::transition_alert, (second, b, time_b), rb),
        a.agent@ == b.agent@,
    ensures
        rb is Some <==> (a.verdict is Healthy || a.verdict is Idle) != (b.verdict is Healthy
            || b.verdict is Idle),
        rb matches Some(r) ==> {
            &&& r.kind is Recovered <==> b.verdict is Healthy || b.verdict is Idle
            &&& r.agent@ == b.agent@
            &&& r.signal@ == b.signal@
            &&& r.timestamp@ == time_b@
            &&& opt_text(r.last_good) == opt_text(b.last_good)
            &&& opt_text(r.recommended) == opt_text(b.recommended)
            &&& r.kind is Recovered ==> r.verdict@ == "healthy"@
            &&& b.verdict is Hung ==> r.verdict@ == "hung"@
            &&& b.verdict is Stuck ==> r.verdict@ == "stuck"@
            &&& b.verdict is Dead ==> r.verdict@ == "dead"@
        },
{
    let state = old(second).verdicts();
    assert(state.contains_key(b@.agent) && state[b@.agent] == a@.verdict);
}

/// The text for a chat has a line for what happened, one for the signal, and one each for
/// the last good time and the advice, where there are any.
pub proof fn law_chat_text_line_by_line(a: &AlertRecord, r: String)
    requires
        call_ensures(AlertRecord::telegram_text, (a,), r),
    ensures
        ({
            let head = (if a.kind is Degraded {
                "⚠ Agent `"@ + a.agent@ + "` degraded: "@ + a.verdict@
            } else {
                "✓ Agent `"@ + a.agent@ + "` recovered"@
            }) + "\n"@ + ("Signal: "@ + a.signal@);
            match (a.last_good, a.recommended) {
                (None, None) => r@ == head,
                (Some(g), None) => r@ == head + "\n"@ + ("Last good: "@ + g@),
                (None, Some(t)) => r@ == head + "\n"@ + ("Recommended: `"@ + t@ + "`"@),
                (Some(g), Some(t)) => r@ == head + "\n"@ + ("Last good: "@ + g@) + "\n"@ + (
                "Recommended: `"@ + t@ + "`"@),
            }
        }),
{
    let v = a@;
    let lines = telegram_lines(v);
    let h = telegram_header(v);
    let s = "Signal: "@ + v.signal;
    let l1 = seq![h];
    let l2 = seq![h, s];
    assert(l1.drop_last() =~= Seq::<Seq<char>>::empty());
    assert(l2.drop_last() =~= l1);
    reveal_with_fuel(joined, 5);
    assert(joined(l1, "\n"@) == h);
    assert(joined(l2, "\n"@) == h + "\n"@ + s);
    match v.last_good {
        Some(g) => {
            let l3 = l2.push("Last good: "@ + g);
            assert(l3.drop_last() =~= l2);
            assert(joined(l3, "\n"@) == joined(l2, "\n"@) + "\n"@ + ("Last good: "@ + g));
            if let Some(t) = v.recommended {
                let l4 = l3.push("Recommended: `"@ + t + "`"@);
                assert(l4.drop_last() =~= l3);
                assert(lines == l4);
            }
        },
        None => {
            if let Some(t) = v.recommended {
                let l3 = l2.push("Recommended: `"@ + t + "`"@);
                assert(l3.drop_last() =~= l2);
                assert(lines == l3);
            }
        },
    }
}

/// The text for the bus says what happened to which agent, with the verdict and the signal.
pub proof fn law_bus_text_says_all(a: &AlertRecord, r: String)
    requires
        call_ensures(AlertRecord::bus_text, (a,), r),
    ensures
        a.kind is Degraded ==> r@ == "[deskd alerts] "@ + "DEGRADED"@ + " agent="@ + a.agent@
            + " verdict="@ + a.verdict@ + " signal=\""@ + a.signal@ + "\""@,
        a.kind is Recovered ==> r@ == "[deskd alerts] "@ + "RECOVERED"@ + " agent="@ + a.agent@
            + " verdict="@ + a.verdict@ + " signal=\""@ + a.signal@ + "\""@,
{
}

/// The log keeps each part of an alert under the name of that part.
pub proof fn law_alert_is_logged_by_name(a: &AlertRecord, r: String, v: JsonView)
    requires
        call_ensures(AlertRecord::log_text, (a,), r),
        json_parsed(r@) == Some(v),
    ensures
        member(v, "agent"@) == Some(JsonView::Str(a.agent@)),
        member(v, "verdict"@) == Some(JsonView::Str(a.verdict@)),
        member(v, "signal"@) == Some(JsonView::Str(a.signal@)),
        a.kind is Degraded ==> member(v, "kind"@) == Some(JsonView::Str("degraded"@)),
        a.kind is Recovered ==> member(v, "kind"@) == Some(JsonView::Str("recovered"@)),
        member(v, "last_good"@) == Some(text_or_null(opt_text(a.last_good))),
        member(v, "recommended"@) == Some(text_or_null(opt_text(a.recommended))),
        member(v, "timestamp"@) == Some(JsonView::Str(a.timestamp@)),
{
    reveal_strlit("agent");
    reveal_strlit("verdict");
    reveal_strlit("signal");
    reveal_strlit("kind");
    reveal_strlit("last_good");
    reveal_strlit("recommended");
    reveal_strlit("timestamp");
    assert("last_good"@[0] == 'l' && "timestamp"@[0] == 't');
    let members = alert_members(a@);
    assert(members[0].0.len() == 5 && members[1].0.len() == 7 && members[2].0.len() == 6
        && members[3].0.len() == 4 && members[4].0.len() == 9 && members[5].0.len() == 11
        && members[6].0.len() == 9);
    assert(members[4].0 == "last_good"@ && members[6].0 == "timestamp"@);
    lemma_object_member(members, 0);
    lemma_object_member(members, 1);
    lemma_object_member(members, 2);
    lemma_object_member(members, 3);
    lemma_object_member(members, 4);
    lemma_object_member(members, 5);
    lemma_object_member(members, 6);
}

/// An alert that was handed to the sink of an agent is delivered to that agent, once, as the
/// text for the bus.
pub proof fn law_agent_gets_the_alert(
    socket: String,
    target: String,
    source: String,
    made: BusMessageSink,
    sink: &mut BusMessageSink,
    alert: &AlertRecord,
    emptied: &mut BusMessageSink,
    r: Vec<BusDelivery>,
)
    requires
        call_ensures(BusMessageSink::new, (socket, target, source), made),
        *old(sink) == made,
        call_ensures(<BusMessageSink as AlertSink>::fire, (sink, alert), Ok(())),
        *old(emptied) == *final(sink),
        call_ensures(BusMessageSink::take_deliveries, (emptied,), r),
    ensures
        r@.len() == 1,
        r@[0].socket@ == socket@,
        r@[0].source@ == source@,
        r@[0].target@ == "agent:"@ + target@,
        r@[0].text@ == bus_line(alert@),
        final(emptied).handed().len() == 0,
{
    assert(old(sink).handed().push(alert@) =~= seq![alert@]);
    assert(old(emptied).route() == made.route());
    assert(r@[0].text@ == bus_line(old(emptied).handed()[0]));
}

/// An alert that was handed to the sink of a chat is delivered to that chat, once, as the
/// text for a chat.
pub proof fn law_chat_gets_the_alert(
    socket: String,
    chat_id: i64,
    source: String,
    made: TelegramSink,
    sink: &mut TelegramSink,
    alert: &AlertRecord,
    emptied: &mut TelegramSink,
    r: Vec<BusDelivery>,
)
    requires
        call_ensures(TelegramSink::new, (socket, chat_id, source), made),
        *old(sink) == made,
        call_ensures(<TelegramSink as AlertSink>::fire, (sink, alert), Ok(())),
        *old(emptied) == *final(sink),
        call_ensures(TelegramSink::take_deliveries, (emptied,), r),
    ensures
        r@.len() == 1,
        r@[0].socket@ == socket@,
        r@[0].source@ == source@,
        r@[0].target@ == "telegram.out:"@ + signed_decimal(chat_id as int),
        r@[0].text@ == joined(telegram_lines(alert@), "\n"@),
        final(emptied).handed().len() == 0,
{
    assert(old(sink).handed().push(alert@) =~= seq![alert@]);
    assert(old(emptied).route() == made.route());
    assert(r@[0].text@ == joined(telegram_lines(old(emptied).handed()[0]), "\n"@));
}

/// The placeholder reports each of its agents, in order, as idle.
pub proof fn law_placeholder_reports_idle(
    agents: Vec<(String, String)>,
    source: HeuristicVerdictSource,
    reports: Vec<VerdictReport>,
    i: int,
)
    requires
        call_ensures(HeuristicVerdictSource::new, (agents,), source),
        call_ensures(<HeuristicVerdictSource as VerdictSource>::poll, (&source,), Ok(reports)),
    ensures
        reports@.len() == agents@.len(),
        0 <= i < reports@.len() ==> reports@[i].agent@ == agents@[i].0@ && reports@[i].verdict is Idle
            && reports@[i].last_good is None && reports@[i].recommended is None,
{
    assert(report_views(reports@).len() == reports@.len());
    if 0 <= i < reports@.len() {
        assert(report_views(reports@)[i] == reports@[i]@);
        assert(source.names()[i] == agents@[i].0@);
    }
}

} // verus!
