use codex_sessions::browser::{App, AppAction, KeyCode, KeyPress, Mode};
use codex_sessions::summary::SessionSummary;

fn row(id: &str, path: &str, preview: Option<&str>, cwd: Option<&str>) -> SessionSummary {
    SessionSummary {
        id: id.to_string(),
        path: path.to_string(),
        preview: preview.map(|p| p.to_string()),
        created_at: None,
        updated_at: None,
        cwd: cwd.map(|c| c.to_string()),
        git_branch: None,
        provider: None,
    }
}

fn key(c: char) -> KeyPress {
    KeyPress { code: KeyCode::Char(c), ctrl: false, other_mods: false }
}

fn code(code: KeyCode) -> KeyPress {
    KeyPress { code, ctrl: false, other_mods: false }
}

fn app() -> App {
    App::new(vec![
        row("aaa", "/logs/a.jsonl", Some("Fix the build"), Some("/proj")),
        row("bbb", "/logs/b.jsonl", None, Some("/home/me/Other")),
        row("ccc", "/logs/c.jsonl", Some("write docs"), None),
    ])
}

#[test]
fn d_then_other_key_clears_the_primer() {
    let mut a = app();
    assert!(matches!(a.handle_key(key('d'), 1000), AppAction::Continue));
    assert_eq!(a.delete_primed_at, Some(1000));
    assert!(a.status.is_some());
    assert!(matches!(a.handle_key(key('x'), 1100), AppAction::Continue));
    assert_eq!(a.delete_primed_at, None);
    assert!(matches!(a.handle_key(key('d'), 1200), AppAction::Continue));
    assert_eq!(a.mode, Mode::Normal);
}

#[test]
fn dd_within_timeout_confirms_and_y_deletes_only_that_file() {
    let mut a = app();
    a.handle_key(code(KeyCode::Down), 0);
    a.handle_key(key('d'), 1000);
    a.handle_key(key('d'), 1500);
    assert_eq!(a.mode, Mode::ConfirmDelete);
    assert_eq!(a.delete_primed_at, None);
    match a.handle_key(key('y'), 2000) {
        AppAction::Delete(p) => {
            assert_eq!(p, "/logs/b.jsonl");
            a.deleted(&p, "bbb");
        }
        _ => panic!("expected a delete"),
    }
    assert_eq!(a.mode, Mode::Normal);
    let left: Vec<&str> = a.sessions.iter().map(|s| s.path.as_str()).collect();
    assert_eq!(left, vec!["/logs/a.jsonl", "/logs/c.jsonl"]);
    assert_eq!(a.filtered, vec![0, 1]);
    assert_eq!(a.status.as_deref(), Some("Deleted session bbb"));
    assert_eq!(a.selected, 1);
}

#[test]
fn dd_after_timeout_only_rearms() {
    let mut a = app();
    a.handle_key(key('d'), 1000);
    a.handle_key(key('d'), 1601);
    assert_eq!(a.mode, Mode::Normal);
    assert_eq!(a.delete_primed_at, Some(1601));
    a.handle_key(key('d'), 2201);
    assert_eq!(a.mode, Mode::ConfirmDelete);
}

#[test]
fn confirm_can_be_cancelled() {
    let mut a = app();
    a.handle_key(key('d'), 0);
    a.handle_key(key('d'), 10);
    assert!(matches!(a.handle_key(key('n'), 20), AppAction::Continue));
    assert_eq!(a.mode, Mode::Normal);
    assert_eq!(a.sessions.len(), 3);
}

#[test]
fn search_filters_case_insensitively_on_id_preview_and_cwd() {
    let mut a = app();
    a.handle_key(key('/'), 0);
    assert_eq!(a.mode, Mode::Search);
    for c in "OTHER".chars() {
        a.handle_key(key(c), 0);
    }
    assert_eq!(a.query, "OTHER");
    assert_eq!(a.filtered, vec![1]);
    a.handle_key(code(KeyCode::Backspace), 0);
    a.handle_key(code(KeyCode::Backspace), 0);
    a.handle_key(code(KeyCode::Backspace), 0);
    a.handle_key(code(KeyCode::Backspace), 0);
    a.handle_key(code(KeyCode::Backspace), 0);
    assert_eq!(a.filtered, vec![0, 1, 2]);
    for c in "docs".chars() {
        a.handle_key(key(c), 0);
    }
    assert_eq!(a.filtered, vec![2]);
    assert_eq!(a.selected, 0);
    a.handle_key(code(KeyCode::Esc), 0);
    assert_eq!(a.mode, Mode::Normal);
    assert_eq!(a.filtered, vec![2]);
    a.handle_key(key('/'), 0);
    assert_eq!(a.filtered, vec![0, 1, 2]);
    a.handle_key(key('z'), 0);
    assert!(a.filtered.is_empty());
    assert_eq!(a.selected, 0);
}

#[test]
fn selection_stays_in_bounds() {
    let mut a = app();
    a.handle_key(code(KeyCode::Up), 0);
    assert_eq!(a.selected, 0);
    for _ in 0..5 {
        a.handle_key(key('j'), 0);
    }
    assert_eq!(a.selected, 2);
    a.handle_key(key('k'), 0);
    assert_eq!(a.selected, 1);
}

#[test]
fn action_prompt_resume_and_jump() {
    let mut a = app();
    a.handle_key(code(KeyCode::Enter), 0);
    assert_eq!(a.mode, Mode::ActionPrompt);
    match a.handle_key(key('r'), 0) {
        AppAction::Resume(s) => assert_eq!(s.id, "aaa"),
        _ => panic!("expected resume"),
    }
    a.handle_key(code(KeyCode::Enter), 0);
    match a.handle_key(key('j'), 0) {
        AppAction::Jump { dir, session } => {
            assert_eq!(dir, "/proj");
            assert_eq!(session.id, "aaa");
        }
        _ => panic!("expected jump"),
    }
    a.handle_key(key('j'), 0);
    a.handle_key(key('j'), 0);
    a.handle_key(code(KeyCode::Enter), 0);
    assert!(matches!(a.handle_key(key('j'), 0), AppAction::Continue));
    assert_eq!(a.mode, Mode::Normal);
    assert_eq!(a.status.as_deref(), Some("No CWD recorded for this session"));
    a.handle_key(code(KeyCode::Enter), 0);
    assert!(matches!(a.handle_key(code(KeyCode::Esc), 0), AppAction::Continue));
    assert_eq!(a.mode, Mode::Normal);
}

#[test]
fn quit_keys() {
    let mut a = app();
    assert!(matches!(a.handle_key(key('q'), 0), AppAction::Quit));
    let mut a = app();
    assert!(matches!(a.handle_key(code(KeyCode::Esc), 0), AppAction::Quit));
    let mut a = app();
    a.handle_key(key('/'), 0);
    let ctrl_c = KeyPress { code: KeyCode::Char('c'), ctrl: true, other_mods: false };
    assert!(matches!(a.handle_key(ctrl_c, 0), AppAction::Quit));
}

#[test]
fn export_command() {
    let mut a = app();
    a.handle_key(key(':'), 0);
    assert_eq!(a.mode, Mode::Command);
    for c in "export  /tmp/out.md ".chars() {
        a.handle_key(key(c), 0);
    }
    match a.handle_key(code(KeyCode::Enter), 0) {
        AppAction::Export { source, dest } => {
            assert_eq!(source, "/logs/a.jsonl");
            assert_eq!(dest, "/tmp/out.md");
            a.exported("aaa", &dest, None);
            assert_eq!(a.status.as_deref(), Some("Exported aaa to /tmp/out.md"));
        }
        _ => panic!("expected an export"),
    }
    assert_eq!(a.mode, Mode::Normal);
    a.exported("aaa", "/x", Some("disk full".to_string()));
    assert_eq!(a.status.as_deref(), Some("Export failed: disk full"));
    a.handle_key(key(':'), 0);
    for c in "export".chars() {
        a.handle_key(key(c), 0);
    }
    a.handle_key(code(KeyCode::Enter), 0);
    assert_eq!(a.status.as_deref(), Some("usage: :export <file_path>"));
    a.handle_key(key(':'), 0);
    a.handle_key(key('w'), 0);
    a.handle_key(code(KeyCode::Enter), 0);
    assert_eq!(a.status.as_deref(), Some("Unknown command: w"));
}

#[test]
fn navigation_between_two_d_presses_disarms_the_primer() {
    let mut a = app();
    a.handle_key(key('d'), 1000);
    a.handle_key(code(KeyCode::Down), 1100);
    assert_eq!(a.delete_primed_at, None);
    a.handle_key(key('d'), 1200);
    assert_eq!(a.mode, Mode::Normal);
    assert_eq!(a.delete_primed_at, Some(1200));
}

#[test]
fn search_appends_every_plain_character() {
    let mut a = app();
    a.handle_key(key('/'), 0);
    a.handle_key(key('j'), 0);
    a.handle_key(key('k'), 0);
    assert_eq!(a.query, "jk");
    assert!(a.filtered.is_empty());
    a.handle_key(code(KeyCode::Backspace), 0);
    a.handle_key(code(KeyCode::Backspace), 0);
    assert_eq!(a.filtered, vec![0, 1, 2]);
    let ctrl_x = KeyPress { code: KeyCode::Char('x'), ctrl: true, other_mods: false };
    a.handle_key(ctrl_x, 0);
    assert_eq!(a.query, "");
    a.handle_key(code(KeyCode::Down), 0);
    assert_eq!(a.selected, 1);
}

#[test]
fn first_d_shows_the_hint_and_keeps_the_selection() {
    let mut a = app();
    a.handle_key(code(KeyCode::Down), 0);
    a.handle_key(key('d'), 5000);
    assert_eq!(a.status.as_deref(), Some("Press d again to delete the selected session"));
    assert_eq!(a.selected, 1);
    a.handle_key(key('d'), 5100);
    assert_eq!(a.selected, 1);
    assert_eq!(a.status, None);
    assert_eq!(a.mode, Mode::ConfirmDelete);
}

#[test]
fn ctrl_c_quits_and_keeps_the_view() {
    let mut a = app();
    a.handle_key(key('j'), 0);
    a.handle_key(key('d'), 0);
    let ctrl_c = KeyPress { code: KeyCode::Char('c'), ctrl: true, other_mods: false };
    assert!(matches!(a.handle_key(ctrl_c, 10), AppAction::Quit));
    assert_eq!(a.selected, 1);
    assert_eq!(a.status, None);
    assert_eq!(a.delete_primed_at, Some(0));
}

#[test]
fn failed_delete_reports_and_keeps_the_list() {
    let mut a = app();
    a.handle_key(key('d'), 0);
    a.handle_key(key('d'), 10);
    assert!(matches!(a.handle_key(key('y'), 20), AppAction::Delete(_)));
    a.delete_failed("permission denied");
    assert_eq!(a.status.as_deref(), Some("Delete failed: permission denied"));
    assert_eq!(a.sessions.len(), 3);
    assert_eq!(a.mode, Mode::Normal);
}
