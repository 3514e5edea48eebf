use deskd::json::{parse_json, Json};
use deskd::session2graph::{
    can_truncate, read_session_line, session_lines, tool_result_title, tool_use_title, truncate,
    try_convert, try_convert_lines, ArchGraph, MessageContent,
};

const FIXTURE: &str = r#"{"type":"user","uuid":"u1","parentUuid":null,"message":{"role":"user","content":[{"type":"text","text":"fix the login bug in auth.rs"}]},"timestamp":"2025-01-01T00:00:00Z"}
{"type":"assistant","uuid":"a1","parentUuid":"u1","message":{"role":"assistant","content":[{"type":"text","text":"I'll look at auth.rs to find the login bug."},{"type":"tool_use","id":"tu1","name":"Read","input":{"file_path":"src/auth.rs"}}]},"timestamp":"2025-01-01T00:00:01Z"}
{"type":"user","uuid":"u2","parentUuid":"a1","message":{"role":"user","content":[{"type":"tool_result","tool_use_id":"tu1","content":"fn login() { ... }"}]},"timestamp":"2025-01-01T00:00:02Z"}
{"type":"assistant","uuid":"a2","parentUuid":"u2","message":{"role":"assistant","content":[{"type":"text","text":"Found the bug — the password check is missing. Let me fix it."},{"type":"tool_use","id":"tu2","name":"Edit","input":{"file_path":"src/auth.rs","old_string":"fn login()","new_string":"fn login_fixed()"}}]},"timestamp":"2025-01-01T00:00:03Z"}
"#;

fn convert(input: &str) -> ArchGraph {
    try_convert(input).unwrap().graph
}

#[test]
fn test_basic_conversion() {
    let graph = convert(FIXTURE);

    assert_eq!(graph.components.len(), 6);

    assert_eq!(graph.components[0].entity, "user_message");
    assert_eq!(graph.components[1].entity, "assistant_message");
    assert_eq!(graph.components[2].entity, "tool_use");
    assert_eq!(graph.components[3].entity, "tool_result");
    assert_eq!(graph.components[4].entity, "assistant_message");
    assert_eq!(graph.components[5].entity, "tool_use");

    assert!(graph.components[0].title.starts_with("user: fix the login bug"));
    assert!(graph.components[2].title.contains("Read"));
    assert!(graph.components[3].title.contains("chars]"));
    assert!(graph.components[5].title.contains("Edit"));

    assert!(!graph.links.is_empty());

    let first_link = &graph.links[0];
    assert_eq!(first_link.kind, "response");

    let invocation_links: Vec<_> = graph.links.iter().filter(|l| l.kind == "invocation").collect();
    assert_eq!(invocation_links.len(), 2);

    let result_links: Vec<_> = graph.links.iter().filter(|l| l.kind == "result").collect();
    assert_eq!(result_links.len(), 1);
}

#[test]
fn test_truncate() {
    assert_eq!(truncate("short", 60), "short");
    let long = "a".repeat(100);
    let result = truncate(&long, 60);
    assert!(result.len() <= 64);
    assert!(result.ends_with("..."));
}

#[test]
fn test_tool_result_title() {
    let content = Json::Str("hello world".into());
    assert_eq!(tool_result_title(&content), "tool_result: [11 chars]");
}

#[test]
fn test_empty_input() {
    let graph = convert("");
    assert!(graph.components.is_empty());
    assert!(graph.links.is_empty());
}

#[test]
fn test_thinking_block() {
    let input = r#"{"type":"user","uuid":"u1","message":{"role":"user","content":[{"type":"text","text":"hello"}]}}
{"type":"assistant","uuid":"a1","parentUuid":"u1","message":{"role":"assistant","content":[{"type":"thinking","thinking":"Let me think about this carefully..."},{"type":"text","text":"Here is my answer."}]}}"#;

    let graph = convert(input);
    let thinking = graph
        .components
        .iter()
        .find(|c| c.entity == "thinking")
        .expect("should have thinking component");
    assert!(thinking.title.starts_with("thinking: Let me think"));
}

#[test]
fn test_skips_malformed_lines() {
    let input = "not json at all\n{\"type\":\"user\",\"uuid\":\"u1\",\"message\":{\"role\":\"user\",\"content\":[{\"type\":\"text\",\"text\":\"hello\"}]}}";
    let conversion = try_convert(input).unwrap();
    assert_eq!(conversion.graph.components.len(), 1);
    assert_eq!(conversion.skipped, vec![1]);
}

#[test]
fn ids_are_numbered() {
    let graph = convert(FIXTURE);
    let mut ids: Vec<&str> = graph.components.iter().map(|c| c.id.as_str()).collect();
    ids.sort();
    ids.dedup();
    assert_eq!(ids.len(), 6);
    for link in &graph.links {
        assert!(ids.contains(&link.from.as_str()));
        assert!(ids.contains(&link.to.as_str()));
    }
}

#[test]
fn lines_that_are_read() {
    let read = |s: &str| read_session_line(&parse_json(s).unwrap());
    assert!(read("{}").unwrap().message.is_none());
    assert!(read(r#"{"message":null}"#).unwrap().message.is_none());
    assert!(read(r#"{"type":1}"#).is_none());
    assert!(read(r#"{"uuid":1}"#).is_none());
    assert!(read(r#"{"message":"x"}"#).is_none());
    assert!(read(r#"{"message":{"role":null}}"#).is_none());
    assert!(read(r#"{"message":{"content":[{"text":"x"}]}}"#).is_none());
    assert!(read(r#"{"message":{"content":[{"type":"text"}]}}"#).is_none());
    assert!(read("7").is_none());
    let blocks = |s: &str| match read(s).unwrap().message.unwrap().content {
        MessageContent::Blocks(b) => b.len(),
        MessageContent::Text(_) => 100,
        MessageContent::Empty => 200,
    };
    assert_eq!(blocks(r#"{"message":{"content":[{"type":"image"},{"type":"thinking"}]}}"#), 2);
    assert_eq!(blocks(r#"{"message":{"content":"hi"}}"#), 100);
    assert_eq!(blocks(r#"{"message":{}}"#), 200);
    assert_eq!(blocks(r#"{"message":{"content":null}}"#), 200);
}

#[test]
fn titles_of_tools() {
    let input = parse_json(r#"{"b":2,"a":"x","c":3}"#).unwrap();
    assert_eq!(tool_use_title("T", &input), "tool_use: T(x, 2)");
}

#[test]
fn cuts_inside_a_character_are_refused() {
    let text = format!("{}é{}", "a".repeat(59), "b".repeat(10));
    assert!(!can_truncate(&text, 60));
    let line = format!(
        r#"{{"message":{{"role":"user","content":"{}"}}}}"#,
        text
    );
    assert!(try_convert(&line).is_none());
    assert!(try_convert_lines(&vec![]).is_some());
    assert_eq!(session_lines("\n a \n\nb").iter().map(|l| l.number).collect::<Vec<_>>(), vec![2, 4]);
}

#[test]
fn links_lead_forward() {
    let graph = convert(FIXTURE);
    let place = |id: &str| graph.components.iter().position(|c| c.id == id).unwrap();
    assert!(!graph.links.is_empty());
    for link in &graph.links {
        assert!(place(&link.from) < place(&link.to));
    }
}

#[test]
fn a_longer_transcript_only_appends() {
    let whole = convert(FIXTURE);
    let lines: Vec<&str> = FIXTURE.trim().lines().collect();
    for n in 0..lines.len() {
        let part = convert(&lines[..n].join("\n"));
        assert!(part.components.len() < whole.components.len());
        for (a, b) in part.components.iter().zip(&whole.components) {
            assert_eq!((&a.id, &a.title, &a.entity), (&b.id, &b.title, &b.entity));
        }
        for (a, b) in part.links.iter().zip(&whole.links) {
            assert_eq!((&a.from, &a.to, &a.kind), (&b.from, &b.to, &b.kind));
        }
    }
}

#[test]
fn a_malformed_line_disturbs_nothing() {
    let whole = convert(FIXTURE);
    let lines: Vec<&str> = FIXTURE.trim().lines().collect();
    for n in 0..=lines.len() {
        for bad in ["not json", "{\"type\":1}", "  "] {
            let mut with = lines.clone();
            with.insert(n, bad);
            let c = try_convert(&with.join("\n")).unwrap();
            assert_eq!(c.graph.components.len(), whole.components.len());
            for (a, b) in c.graph.components.iter().zip(&whole.components) {
                assert_eq!((&a.id, &a.title), (&b.id, &b.title));
            }
            assert_eq!(c.graph.links.len(), whole.links.len());
            let noted = if bad.trim().is_empty() { vec![] } else { vec![n + 1] };
            assert_eq!(c.skipped, noted);
        }
    }
}
