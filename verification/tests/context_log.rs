use deskd::app::context_log::{entry_line, entry_text, read_logs, rotate, ContextLog, MAX_ENTRIES};

fn sample(ts: &str, tokens: u64) -> ContextLog {
    ContextLog {
        ts: ts.into(),
        agent: "kira".into(),
        session_id: "sess-abc".into(),
        model: "runner-sonnet-4-6".into(),
        tokens,
        threshold: 300_000,
        context_limit: 1_000_000,
    }
}

fn append(log: &mut Vec<String>, entry: &ContextLog) {
    log.push(entry_text(entry));
    if let Some(kept) = rotate(log) {
        *log = kept;
    }
}

#[test]
fn append_and_read_roundtrip() {
    let mut log = Vec::new();
    append(&mut log, &sample("2026-04-30T00:00:00Z", 1234));
    append(&mut log, &sample("2026-04-30T00:01:00Z", 5678));

    let entries = read_logs(&log);
    assert_eq!(entries.len(), 2);
    assert_eq!(entries[0].tokens, 1234);
    assert_eq!(entries[1].tokens, 5678);
    assert_eq!(entries[0].threshold, 300_000);
    assert_eq!(entries[1].context_limit, 1_000_000);
    assert_eq!(entries[0], sample("2026-04-30T00:00:00Z", 1234));
}

#[test]
fn rotate_keeps_last_max_entries() {
    let mut log: Vec<String> = Vec::new();
    for i in 0..(MAX_ENTRIES + 50) {
        let ts = format!("2026-04-30T00:00:{:02}Z", i % 60);
        log.push(entry_text(&sample(&ts, i as u64)));
    }
    let kept = rotate(&log).unwrap();
    let entries = read_logs(&kept);
    assert_eq!(entries.len(), MAX_ENTRIES, "rotation should cap file at MAX_ENTRIES");
    assert_eq!(entries[0].tokens, 50);
    assert_eq!(entries.last().unwrap().tokens, (MAX_ENTRIES + 49) as u64);
    assert!(rotate(&kept).is_none());
}

#[test]
fn read_missing_file_returns_empty() {
    let entries = read_logs(&Vec::new());
    assert!(entries.is_empty());
}

#[test]
fn read_skips_malformed_lines() {
    let mut log = Vec::new();
    append(&mut log, &sample("2026-04-30T00:00:00Z", 1));
    log.push("this is not json".to_string());
    log.push("   ".to_string());
    log.push(r#"{"ts":"x"}"#.to_string());
    append(&mut log, &sample("2026-04-30T00:00:01Z", 2));

    let entries = read_logs(&log);
    assert_eq!(entries.len(), 2, "malformed line skipped, valid kept");
    assert_eq!(entries[0].tokens, 1);
    assert_eq!(entries[1].tokens, 2);
}

#[test]
fn line_of_an_entry() {
    assert_eq!(
        entry_line(&sample("t", 7)),
        "{\"ts\":\"t\",\"agent\":\"kira\",\"session_id\":\"sess-abc\",\"model\":\"runner-sonnet-4-6\",\"tokens\":7,\"threshold\":300000,\"context_limit\":1000000}\n"
    );
}
