use codex_sessions::summary::{
    load_session_detail, preview_from_head, summarize, ContentPart, Head, HeadEntry, MetaRecord,
    RecordItem, RecordLine, SessionSource, HEAD_RECORD_LIMIT,
};
use codex_sessions::summary::{is_session_prefix, looks_like_instructions};
use codex_sessions::catalog::SessionError;

fn meta(source: SessionSource) -> MetaRecord {
    MetaRecord {
        id: "5973b6c0-94b8-487b-a530-2aeb6098ae0e".to_string(),
        timestamp: "2026-01-01T10:00:00Z".to_string(),
        cwd: "/proj".to_string(),
        source,
        provider: Some("openai".to_string()),
        instructions: Some("be brief".to_string()),
        git_branch: Some("main".to_string()),
    }
}

fn line(item: RecordItem) -> RecordLine {
    RecordLine { timestamp: "2026-01-01T10:00:00.500Z".to_string(), item }
}

fn user(texts: &[&str]) -> RecordItem {
    RecordItem::Message {
        role: "user".to_string(),
        content: texts.iter().map(|t| ContentPart::InputText(t.to_string())).collect(),
    }
}

fn head_of(items: Vec<RecordItem>) -> Head {
    let mut h = Head::new(HEAD_RECORD_LIMIT);
    for item in items {
        if !h.push(line(item)) {
            break;
        }
    }
    h
}

#[test]
fn interactive_session_summarizes() {
    let h = head_of(vec![
        RecordItem::SessionMeta(meta(SessionSource::Cli)),
        user(&["  fix the   build  ", "and the tests"]),
        RecordItem::UserEvent,
    ]);
    let s = summarize(&h, "/logs/a.jsonl", None).expect("listed");
    assert_eq!(s.id, "5973b6c0-94b8-487b-a530-2aeb6098ae0e");
    assert_eq!(s.path, "/logs/a.jsonl");
    assert_eq!(s.preview.as_deref(), Some("fix the   build and the tests"));
    assert_eq!(s.cwd.as_deref(), Some("/proj"));
    assert_eq!(s.git_branch.as_deref(), Some("main"));
    assert_eq!(s.provider.as_deref(), Some("openai"));
    let created = s.created_at.expect("a start time");
    assert_eq!(created.secs, 1767261600);
    assert_eq!(created.nanos, 500_000_000);
    assert_eq!(s.updated_at, s.created_at);
}

#[test]
fn missing_meta_or_user_event_is_not_listed() {
    let no_user = head_of(vec![RecordItem::SessionMeta(meta(SessionSource::Cli)), user(&["hi"])]);
    assert!(summarize(&no_user, "/a", None).is_none());
    let no_meta = head_of(vec![user(&["hi"]), RecordItem::UserEvent]);
    assert!(summarize(&no_meta, "/a", None).is_none());
    assert!(matches!(load_session_detail(&no_meta, "/a", None), Err(SessionError::NotFound)));
}

#[test]
fn meta_beyond_the_head_window_is_not_seen() {
    let mut items: Vec<RecordItem> = (0..HEAD_RECORD_LIMIT).map(|_| RecordItem::OtherResponse).collect();
    items.push(RecordItem::SessionMeta(meta(SessionSource::Cli)));
    items.push(RecordItem::UserEvent);
    let h = head_of(items);
    assert_eq!(h.entries.len(), HEAD_RECORD_LIMIT);
    assert!(h.stopped);
    assert!(summarize(&h, "/a", None).is_none());
}

#[test]
fn window_stops_once_meta_and_user_event_are_seen() {
    let mut h = Head::new(HEAD_RECORD_LIMIT);
    assert!(h.push(line(RecordItem::SessionMeta(meta(SessionSource::Cli)))));
    assert!(!h.push(line(RecordItem::UserEvent)));
    assert!(!h.push(line(user(&["late"]))));
    assert_eq!(h.entries.len(), 1);
}

#[test]
fn non_interactive_source_is_not_listed() {
    for source in [SessionSource::Exec, SessionSource::Mcp, SessionSource::Unknown] {
        let h = head_of(vec![RecordItem::SessionMeta(meta(source)), user(&["hi"]), RecordItem::UserEvent]);
        assert!(summarize(&h, "/a", None).is_none());
    }
    let h = head_of(vec![RecordItem::SessionMeta(meta(SessionSource::VSCode)), RecordItem::UserEvent]);
    assert!(summarize(&h, "/a", None).is_some());
}

#[test]
fn environment_context_suppresses_preview() {
    let h = head_of(vec![
        RecordItem::SessionMeta(meta(SessionSource::Cli)),
        user(&["  <ENVIRONMENT_CONTEXT> cwd=/proj", "please fix the build"]),
        RecordItem::UserEvent,
    ]);
    let s = summarize(&h, "/a", None).expect("listed");
    assert_eq!(s.preview, None);
}

#[test]
fn instructions_segments_are_dropped() {
    let entries = vec![
        HeadEntry::Message {
            role: "assistant".to_string(),
            content: vec![ContentPart::OutputText("hello".to_string())],
        },
        HeadEntry::Message {
            role: "user".to_string(),
            content: vec![
                ContentPart::InputText("# AGENTS.md rules".to_string()),
                ContentPart::InputImage("img.png".to_string()),
                ContentPart::InputText("text <INSTRUCTIONS> x".to_string()),
                ContentPart::InputText("   ".to_string()),
                ContentPart::InputText(" real question ".to_string()),
            ],
        },
    ];
    assert_eq!(preview_from_head(&entries).as_deref(), Some("real question"));
    let only_rules = vec![HeadEntry::Message {
        role: "user".to_string(),
        content: vec![ContentPart::InputText("# AGENTS".to_string())],
    }];
    assert_eq!(preview_from_head(&only_rules), None);
}

#[test]
fn session_prefix_markers() {
    assert!(is_session_prefix("\n <environment_context>"));
    assert!(is_session_prefix("<User_Instructions>x"));
    assert!(!is_session_prefix("hello <environment_context>"));
    assert!(looks_like_instructions("# AGENTS.md"));
    assert!(looks_like_instructions("see <INSTRUCTIONS>"));
    assert!(!looks_like_instructions("see <instructions>"));
}

#[test]
fn updated_time_falls_back_to_modification_time() {
    let mut h = Head::new(HEAD_RECORD_LIMIT);
    h.push(RecordLine { timestamp: "not a time".to_string(), item: RecordItem::SessionMeta(meta(SessionSource::Cli)) });
    h.push(line(RecordItem::UserEvent));
    let m = codex_sessions::summary::UtcTime { secs: 42, nanos: 0 };
    let s = summarize(&h, "/a", Some(m)).expect("listed");
    assert_eq!(s.created_at, None);
    assert_eq!(s.updated_at, Some(m));
}

#[test]
fn detail_carries_meta_fields() {
    let h = head_of(vec![RecordItem::SessionMeta(meta(SessionSource::VSCode)), RecordItem::UserEvent]);
    let d = load_session_detail(&h, "/a", None).expect("listed");
    assert_eq!(d.instructions.as_deref(), Some("be brief"));
    assert_eq!(d.source, Some(SessionSource::VSCode));
    assert_eq!(d.git_branch.as_deref(), Some("main"));
    assert_eq!(d.meta.expect("meta").cwd, "/proj");
    assert_eq!(d.summary.resume_hint(), "codex resume 5973b6c0-94b8-487b-a530-2aeb6098ae0e");
}

#[test]
fn meta_as_last_record_of_the_window_misses_a_later_user_event() {
    let mut items: Vec<RecordItem> = (0..HEAD_RECORD_LIMIT - 1).map(|_| RecordItem::OtherResponse).collect();
    items.push(RecordItem::SessionMeta(meta(SessionSource::Cli)));
    items.push(RecordItem::UserEvent);
    let h = head_of(items);
    assert_eq!(h.entries.len(), HEAD_RECORD_LIMIT);
    assert!(h.saw_meta && !h.saw_user);
    assert!(summarize(&h, "/a", None).is_none());
}

#[test]
fn user_event_before_meta_at_the_window_edge_is_listed() {
    let mut items: Vec<RecordItem> = (0..HEAD_RECORD_LIMIT - 1).map(|_| RecordItem::OtherResponse).collect();
    items.push(RecordItem::UserEvent);
    items.push(RecordItem::SessionMeta(meta(SessionSource::Cli)));
    let h = head_of(items);
    assert_eq!(h.entries.len(), HEAD_RECORD_LIMIT);
    assert!(summarize(&h, "/a", None).is_some());
}

#[test]
fn updated_time_is_the_latest_record_in_the_window() {
    let mut h = Head::new(HEAD_RECORD_LIMIT);
    h.push(RecordLine { timestamp: "2026-01-01T10:00:00Z".to_string(), item: RecordItem::SessionMeta(meta(SessionSource::Cli)) });
    h.push(RecordLine { timestamp: "2026-01-01T10:05:00Z".to_string(), item: user(&["hello"]) });
    h.push(line(RecordItem::UserEvent));
    let s = summarize(&h, "/a", None).expect("listed");
    assert_eq!(s.created_at.map(|t| t.secs), Some(1767261600));
    assert_eq!(s.updated_at.map(|t| t.secs), Some(1767261900));
}

#[test]
fn created_and_updated_are_the_earliest_and_latest_times() {
    let mut h = Head::new(HEAD_RECORD_LIMIT);
    h.push(RecordLine { timestamp: "2026-01-01T10:05:00Z".to_string(), item: RecordItem::SessionMeta(meta(SessionSource::Cli)) });
    h.push(RecordLine { timestamp: "2026-01-01T10:00:00Z".to_string(), item: user(&["hello"]) });
    h.push(RecordLine { timestamp: "bad".to_string(), item: RecordItem::OtherResponse });
    h.push(line(RecordItem::UserEvent));
    let s = summarize(&h, "/a", None).expect("listed");
    assert_eq!(s.created_at.map(|t| t.secs), Some(1767261600));
    assert_eq!(s.updated_at.map(|t| t.secs), Some(1767261900));
}
