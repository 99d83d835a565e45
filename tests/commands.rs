use codex_sessions::cli::{ListArgs, ResumeArgs};
use codex_sessions::commands::{
    build_list_opts, build_resume_list_opts, classify_query, name_has_id, resolve_scope,
    shorten_path, truncate_left, truncate_preview, SessionQuery,
};
use codex_sessions::catalog::SessionError;
use codex_sessions::export::{export_format, flatten_content, render_markdown, chat_entries, ExportFormat};
use codex_sessions::paths::{canonicalize_existing, paths_match, same_path};
use codex_sessions::summary::{ContentPart, MetaRecord, RecordItem, SessionDetail, SessionSource, SessionSummary};
use codex_sessions::commands::run_info;

#[test]
fn scope_narrows_only_with_a_directory() {
    assert_eq!(resolve_scope(false, Some("/p".to_string())), (false, Some("/p".to_string())));
    assert_eq!(resolve_scope(true, Some("/p".to_string())), (false, Some("/p".to_string())));
    assert_eq!(resolve_scope(false, None), (true, None));
    assert_eq!(resolve_scope(true, None), (true, None));
}

#[test]
fn list_and_resume_options() {
    let mut args = ListArgs::default();
    assert_eq!(args.limit, 20);
    args.limit = 0;
    args.providers = vec!["a".to_string()];
    args.cwd = Some("/p".to_string());
    let o = build_list_opts(&args);
    assert_eq!(o.limit, 1);
    assert_eq!(o.providers, vec!["a".to_string()]);
    assert!(!o.show_all);
    assert_eq!(o.cwd_filter.as_deref(), Some("/p"));
    let r = ResumeArgs { session: None, last: true, all: false, cwd: None, limit: 25, dry_run: false };
    let o = build_resume_list_opts(&r).expect("options");
    assert_eq!(o.limit, 25);
    assert!(o.show_all && o.cwd_filter.is_none() && o.cursor.is_none());
}

#[test]
fn previews_are_cut_at_eighty_characters() {
    let short = "é".repeat(80);
    assert_eq!(truncate_preview(&short), short);
    let long = "é".repeat(81);
    assert_eq!(truncate_preview(&long), format!("{}…", "é".repeat(80)));
}

#[test]
fn paths_are_cut_from_the_left() {
    assert_eq!(truncate_left("abcdef", 0), "");
    assert_eq!(truncate_left("abcdef", 6), "abcdef");
    assert_eq!(truncate_left("abcdef", 4), "…def");
    assert_eq!(truncate_left("abcdef", 1), "…f");
    assert_eq!(shorten_path("/home/me/projects/app", 8), "…cts/app");
}

#[test]
fn queries_read_as_path_or_id() {
    assert!(matches!(classify_query("/x", true), Ok(SessionQuery::Path(p)) if p == "/x"));
    assert!(matches!(
        classify_query("5973B6C0-94B8-487B-A530-2AEB6098AE0E", false),
        Ok(SessionQuery::Id(0x5973b6c0_94b8_487b_a530_2aeb6098ae0e))
    ));
    match classify_query("nope", false) {
        Err(SessionError::Io(m)) => assert_eq!(m, "nope is not a valid UUID or file path"),
        _ => panic!("expected an error"),
    }
    let name = "rollout-2026-01-01T10-00-00-5973b6c0-94b8-487b-a530-2aeb6098ae0e.jsonl";
    assert!(name_has_id(name, 0x5973b6c0_94b8_487b_a530_2aeb6098ae0e));
    assert!(!name_has_id(name, 1));
}

#[test]
fn paths_compare_canonically_then_literally() {
    assert!(paths_match("/tmp/", "/tmp"));
    assert!(paths_match("/no/such/dir", "/no/such/dir"));
    assert!(!paths_match("/no/such/dir", "/no/such/dir/"));
    assert!(same_path("a", "b", &Some("/x".to_string()), &Some("/x".to_string())));
    assert!(!same_path("a", "a", &Some("/x".to_string()), &Some("/y".to_string())));
    assert!(same_path("a", "a", &None, &Some("/y".to_string())));
    assert!(canonicalize_existing("/tmp/").is_ok());
    match canonicalize_existing("/no/such/dir") {
        Err(SessionError::Io(m)) => assert_eq!(m, "\"/no/such/dir\" does not exist"),
        _ => panic!("expected an error"),
    }
}

#[test]
fn export_formats_follow_the_extension() {
    assert_eq!(export_format("/t/out.JSONL"), ExportFormat::Jsonl);
    assert_eq!(export_format("/t/out.json"), ExportFormat::Json);
    assert_eq!(export_format("/t/out.Pdf"), ExportFormat::Pdf);
    assert_eq!(export_format("/t/out.md"), ExportFormat::Markdown);
    assert_eq!(export_format("/t/out"), ExportFormat::Markdown);
}

#[test]
fn transcripts_render_as_markdown() {
    let content = vec![
        ContentPart::InputText("hi".to_string()),
        ContentPart::InputImage("a.png".to_string()),
        ContentPart::OutputText("there".to_string()),
    ];
    assert_eq!(flatten_content(&content), "hi\n[image: a.png]\nthere");
    let records = vec![
        RecordItem::SessionMeta(MetaRecord {
            id: "s1".to_string(),
            timestamp: "2026-01-01T10:00:00Z".to_string(),
            cwd: "/proj".to_string(),
            source: SessionSource::Cli,
            provider: Some("openai".to_string()),
            instructions: None,
            git_branch: None,
        }),
        RecordItem::Message { role: "user".to_string(), content: vec![ContentPart::InputText(" hello ".to_string())] },
        RecordItem::Message { role: "assistant".to_string(), content: vec![ContentPart::OutputText("  ".to_string())] },
        RecordItem::UserEvent,
    ];
    let (meta, entries) = chat_entries(records);
    assert_eq!(entries.len(), 1);
    let md = render_markdown(&meta, &entries);
    assert_eq!(
        md,
        "# Session s1\n\n- started: 2026-01-01T10:00:00Z\n- cwd: /proj\n- provider: openai\n\n**USER**\nhello\n\n"
    );
}

#[test]
fn info_lines_list_known_fields_in_order() {
    let detail = SessionDetail {
        summary: SessionSummary {
            id: "s1".to_string(),
            path: "/logs/s1.jsonl".to_string(),
            preview: None,
            created_at: None,
            updated_at: None,
            cwd: Some("/proj".to_string()),
            git_branch: Some("main".to_string()),
            provider: None,
        },
        instructions: Some("n".repeat(90)),
        source: Some(SessionSource::Cli),
        git_branch: Some("main".to_string()),
        meta: None,
    };
    let lines = run_info(&detail, Some("2 hours ago".to_string()), None, Some("Cli".to_string()));
    let got: Vec<(String, String)> = lines.into_iter().map(|l| (l.label, l.value)).collect();
    let want: Vec<(String, String)> = vec![
        ("Session", "s1".to_string()),
        ("Path", "/logs/s1.jsonl".to_string()),
        ("CWD", "/proj".to_string()),
        ("Git", "main".to_string()),
        ("Started", "2 hours ago".to_string()),
        ("Source", "Cli".to_string()),
        ("Notes", format!("{}…", "n".repeat(80))),
        ("Resume", "codex resume s1".to_string()),
    ]
    .into_iter()
    .map(|(a, b)| (a.to_string(), b))
    .collect();
    assert_eq!(got, want);
}
