use deskd::app::alerts::{
    AlertKind, AlertManager, AlertRecord, AlertSink, AlertSinkConfig, AlertsConfig, BusMessageSink,
    ConfiguredSink, HeuristicVerdictSource, LogSink, TelegramSink, Verdict, VerdictReport,
    VerdictSource,
};

fn counting() -> LogSink {
    LogSink::new("alerts.jsonl".into())
}

fn captured(mgr: AlertManager<LogSink>) -> Vec<AlertRecord> {
    let mut sinks = mgr.into_sinks();
    let lines = sinks[0].take_lines();
    lines.iter().map(|l| AlertRecord::from_log_text(l.trim_end()).unwrap()).collect()
}

fn count(mgr: AlertManager<LogSink>) -> usize {
    captured(mgr).len()
}

fn report(agent: &str, verdict: Verdict) -> VerdictReport {
    VerdictReport {
        agent: agent.to_string(),
        verdict,
        signal: "test signal".to_string(),
        last_good: Some("2026-04-27T09:55:57Z".to_string()),
        recommended: Some("deskd agent restart life --fresh-session".to_string()),
    }
}

const NOW: &str = "2026-04-28T12:00:00+00:00";

fn observe(mgr: &mut AlertManager<LogSink>, verdict: Verdict) {
    mgr.observe(&vec![report("life", verdict)], NOW);
}

#[test]
fn transition_into_degraded_fires_alert() {
    let mut mgr = AlertManager::new(vec![counting()]);
    observe(&mut mgr, Verdict::Healthy);
    observe(&mut mgr, Verdict::Hung);
    let captured = captured(mgr);
    assert_eq!(captured.len(), 1);
    assert_eq!(captured[0].kind, AlertKind::Degraded);
    assert_eq!(captured[0].verdict, "hung");
    assert_eq!(captured[0].agent, "life");
    assert_eq!(captured[0].timestamp, NOW);
}

#[test]
fn dedup_holds_across_multiple_ticks() {
    let mut mgr = AlertManager::new(vec![counting()]);
    observe(&mut mgr, Verdict::Healthy);
    for _ in 0..5 {
        observe(&mut mgr, Verdict::Hung);
    }
    assert_eq!(
        count(mgr),
        1,
        "expected exactly one alert across five degraded ticks"
    );
}

#[test]
fn recovery_fires_when_verdict_returns_to_healthy() {
    let mut mgr = AlertManager::new(vec![counting()]);
    observe(&mut mgr, Verdict::Healthy);
    observe(&mut mgr, Verdict::Stuck);
    observe(&mut mgr, Verdict::Stuck);
    observe(&mut mgr, Verdict::Healthy);
    observe(&mut mgr, Verdict::Healthy);

    let captured = captured(mgr);
    assert_eq!(captured.len(), 2);
    assert_eq!(captured[0].kind, AlertKind::Degraded);
    assert_eq!(captured[1].kind, AlertKind::Recovered);
    assert_eq!(captured[1].verdict, "healthy");
}

#[test]
fn flapping_into_degraded_again_fires_again() {
    let mut mgr = AlertManager::new(vec![counting()]);
    observe(&mut mgr, Verdict::Healthy);
    observe(&mut mgr, Verdict::Hung);
    observe(&mut mgr, Verdict::Healthy);
    observe(&mut mgr, Verdict::Hung);
    observe(&mut mgr, Verdict::Healthy);
    assert_eq!(count(mgr), 4);
}

#[test]
fn idle_does_not_count_as_degraded() {
    let mut mgr = AlertManager::new(vec![counting()]);
    observe(&mut mgr, Verdict::Healthy);
    observe(&mut mgr, Verdict::Idle);
    observe(&mut mgr, Verdict::Idle);
    observe(&mut mgr, Verdict::Healthy);
    assert_eq!(count(mgr), 0);
}

#[test]
fn first_observation_degraded_fires_alert() {
    let mut mgr = AlertManager::new(vec![counting()]);
    observe(&mut mgr, Verdict::Hung);
    assert_eq!(count(mgr), 1);
}

#[test]
fn per_agent_state_is_independent() {
    let mut mgr = AlertManager::new(vec![counting()]);
    mgr.observe(&vec![report("life", Verdict::Healthy), report("dev", Verdict::Healthy)], NOW);
    mgr.observe(&vec![report("life", Verdict::Hung), report("dev", Verdict::Healthy)], NOW);
    mgr.observe(&vec![report("life", Verdict::Hung), report("dev", Verdict::Stuck)], NOW);
    let captured = captured(mgr);
    assert_eq!(captured.len(), 2);
    assert_eq!(captured[0].agent, "life");
    assert_eq!(captured[1].agent, "dev");
}

#[test]
fn log_sink_writes_jsonl() {
    let mut mgr = AlertManager::new(vec![LogSink::new("alerts.jsonl".into())]);
    mgr.observe(&vec![report("life", Verdict::Hung)], NOW);
    mgr.observe(&vec![report("life", Verdict::Healthy)], NOW);
    let mut sinks = mgr.into_sinks();
    assert_eq!(sinks[0].path(), "alerts.jsonl");
    let lines = sinks[0].take_lines();
    assert_eq!(lines.len(), 2);
    assert_eq!(
        lines[0],
        "{\"agent\":\"life\",\"verdict\":\"hung\",\"signal\":\"test signal\",\"kind\":\"degraded\",\"last_good\":\"2026-04-27T09:55:57Z\",\"recommended\":\"deskd agent restart life --fresh-session\",\"timestamp\":\"2026-04-28T12:00:00+00:00\"}\n"
    );
    let first = AlertRecord::from_log_text(lines[0].trim_end()).unwrap();
    assert_eq!(first.kind, AlertKind::Degraded);
    let second = AlertRecord::from_log_text(lines[1].trim_end()).unwrap();
    assert_eq!(second.kind, AlertKind::Recovered);
    assert!(sinks[0].take_lines().is_empty());
}

#[test]
fn empty_manager_is_noop() {
    let mut mgr: AlertManager<LogSink> = AlertManager::new(vec![]);
    assert!(mgr.is_empty());
    mgr.observe(&vec![report("life", Verdict::Hung)], NOW);
}

fn alert(kind: AlertKind) -> AlertRecord {
    AlertRecord {
        agent: "life".into(),
        verdict: "hung".into(),
        signal: "5/5".into(),
        kind,
        last_good: None,
        recommended: Some("restart".into()),
        timestamp: NOW.into(),
    }
}

#[test]
fn alerts_in_words() {
    assert_eq!(
        alert(AlertKind::Degraded).telegram_text(),
        "⚠ Agent `life` degraded: hung\nSignal: 5/5\nRecommended: `restart`"
    );
    let mut recovered = alert(AlertKind::Recovered);
    recovered.last_good = Some("then".into());
    recovered.recommended = None;
    assert_eq!(
        recovered.telegram_text(),
        "✓ Agent `life` recovered\nSignal: 5/5\nLast good: then"
    );
    assert_eq!(
        alert(AlertKind::Degraded).bus_text(),
        "[deskd alerts] DEGRADED agent=life verdict=hung signal=\"5/5\""
    );
    assert!(recovered.bus_text().contains(" RECOVERED "));
}

#[test]
fn log_lines_that_are_no_alerts() {
    assert!(AlertRecord::from_log_text("nonsense").is_none());
    assert!(AlertRecord::from_log_text("{}").is_none());
    let odd = alert(AlertKind::Degraded).log_text().replace("degraded", "odd");
    assert!(AlertRecord::from_log_text(&odd).is_none());
    assert_eq!(
        AlertRecord::from_log_text(&alert(AlertKind::Recovered).log_text()),
        Some(alert(AlertKind::Recovered))
    );
}

#[test]
fn sinks_of_a_configuration() {
    let cfg = AlertsConfig {
        sinks: vec![
            AlertSinkConfig::BusMessage { target_agent: "ops".into() },
            AlertSinkConfig::Telegram { chat_id: "-100".into() },
            AlertSinkConfig::Telegram { chat_id: "nobody".into() },
            AlertSinkConfig::Log { path: "/l".into() },
        ],
    };
    let mut mgr = AlertManager::from_config(&cfg, "/bus", "life");
    assert_eq!(mgr.sink_count(), 3);
    mgr.observe(&vec![report("life", Verdict::Dead)], NOW);
    match mgr.sink_mut(0) {
        ConfiguredSink::Bus(s) => {
            let d = s.take_deliveries();
            assert_eq!(d.len(), 1);
            assert_eq!(d[0].socket, "/bus");
            assert_eq!(d[0].source, "alerts-life");
            assert_eq!(d[0].target, "agent:ops");
            assert!(d[0].text.starts_with("[deskd alerts] DEGRADED"));
        }
        _ => panic!("expected the bus"),
    }
    match mgr.sink_mut(1) {
        ConfiguredSink::Telegram(s) => {
            let d = s.take_deliveries();
            assert_eq!(d[0].target, "telegram.out:-100");
            assert!(d[0].text.starts_with("⚠ Agent `life` degraded: dead"));
        }
        _ => panic!("expected the chat"),
    }
    match mgr.sink_mut(2) {
        ConfiguredSink::Log(s) => assert_eq!(s.take_lines().len(), 1),
        _ => panic!("expected the log"),
    }
    assert_eq!(mgr.sink_mut(2).name(), "log");
}

#[test]
fn sinks_have_names() {
    assert_eq!(BusMessageSink::new("s".into(), "t".into(), "x".into()).name(), "bus_message");
    assert_eq!(TelegramSink::new("s".into(), 1, "x".into()).name(), "telegram");
    assert_eq!(LogSink::new("p".into()).name(), "log");
}

#[test]
fn verdicts_and_source() {
    assert!(Verdict::Degraded("auth_expired".into()).is_degraded());
    assert_eq!(Verdict::Degraded("auth_expired".into()).label(), "auth_expired");
    assert!(!Verdict::Idle.is_degraded());
    let source = HeuristicVerdictSource::new(vec![("a".into(), "/u".into()), ("b".into(), "/v".into())]);
    let reports = source.poll().unwrap();
    assert_eq!(reports.len(), 2);
    assert_eq!(reports[1].agent, "b");
    assert_eq!(reports[0].verdict, Verdict::Idle);
}

#[test]
fn every_recovery_is_healthy() {
    let mut mgr = AlertManager::new(vec![counting()]);
    observe(&mut mgr, Verdict::Hung);
    observe(&mut mgr, Verdict::Idle);
    let captured = captured(mgr);
    assert_eq!(captured.len(), 2);
    assert_eq!(captured[0].verdict, "hung");
    assert_eq!(captured[1].kind, AlertKind::Recovered);
    assert_eq!(captured[1].verdict, "healthy");
}
