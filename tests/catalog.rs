use codex_sessions::catalog::{ListOptions, ListScan, SessionList};
use codex_sessions::key::{decode_cursor, encode_cursor, key_from_file_name, SessionKey};
use codex_sessions::shard::{index_day, order_shards, shard_value, DirEntry, LogFile};
use codex_sessions::paths::canonicalize_existing;
use codex_sessions::stamp::{format_stamp, parse_stamp, Stamp};
use codex_sessions::summary::SessionSummary;

const ID_A: &str = "cccccccc-0000-4000-8000-000000000003";
const ID_B: &str = "bbbbbbbb-0000-4000-8000-000000000002";
const ID_C: &str = "aaaaaaaa-0000-4000-8000-000000000001";
const ID_D: &str = "11111111-0000-4000-8000-000000000004";

fn entry(name: &str) -> DirEntry {
    DirEntry { name: name.to_string(), path: format!("/root/{name}") }
}

fn summary(path: &str, cwd: Option<&str>, provider: Option<&str>) -> SessionSummary {
    SessionSummary {
        id: path.to_string(),
        path: path.to_string(),
        preview: None,
        created_at: None,
        updated_at: None,
        cwd: cwd.map(|c| c.to_string()),
        git_branch: None,
        provider: provider.map(|p| p.to_string()),
    }
}

/// Runs a scan over day directories given newest first; every file summarizes
/// with the directory and provider that `row` gives it.
fn run_scan(
    days: &[Vec<DirEntry>],
    opts: &ListOptions,
    row: &dyn Fn(&str) -> Option<SessionSummary>,
) -> SessionList {
    let mut scan = ListScan::new(opts);
    'outer: for day in days {
        for file in index_day(day) {
            if scan.is_done() {
                break 'outer;
            }
            if scan.begin(&file) {
                let s = row(&file.path);
                let filter_form = opts.cwd_filter.as_deref().and_then(|f| canonicalize_existing(f).ok());
                let in_scope = match &s {
                    Some(s) => {
                        let cwd_form = s.cwd.as_deref().and_then(|c| canonicalize_existing(c).ok());
                        scan.in_scope(s, &cwd_form, &filter_form)
                    }
                    None => false,
                };
                scan.offer(s, in_scope);
            }
        }
    }
    scan.finish()
}

fn name(ts: &str, id: &str) -> String {
    format!("rollout-{ts}-{id}.jsonl")
}

fn sample_tree() -> Vec<Vec<DirEntry>> {
    let day2 = vec![entry(&name("2026-01-02T09-00-00", ID_D))];
    let day1 = vec![
        entry(&name("2026-01-01T10-00-00", ID_C)),
        entry(&name("2026-01-01T10-00-00", ID_A)),
        entry("notes.txt"),
        entry(&name("2026-01-01T10-00-00", ID_B)),
    ];
    vec![day2, day1]
}

fn ids(list: &SessionList) -> Vec<String> {
    list.sessions
        .iter()
        .map(|s| {
            let file = s.path.rsplit('/').next().unwrap().to_string();
            file[28..64].to_string()
        })
        .collect()
}

fn all_rows(path: &str) -> Option<SessionSummary> {
    Some(summary(path, Some("/proj"), Some("openai")))
}

#[test]
fn first_page_then_resume_gives_next_page() {
    let tree = sample_tree();
    let mut opts = ListOptions::default();
    opts.limit = 2;
    opts.show_all = true;
    let first = run_scan(&tree, &opts, &all_rows);
    assert_eq!(ids(&first), vec![ID_D.to_string(), ID_A.to_string()]);
    let cursor = first.next_cursor.clone().expect("a continuation cursor");
    assert_eq!(cursor, format!("2026-01-01T10-00-00|{ID_A}"));
    opts.cursor = Some(cursor);
    let second = run_scan(&tree, &opts, &all_rows);
    assert_eq!(ids(&second), vec![ID_B.to_string(), ID_C.to_string()]);
}

#[test]
fn two_pages_equal_one_double_page_with_new_files_above() {
    let tree = sample_tree();
    let mut opts = ListOptions::default();
    opts.limit = 1;
    opts.show_all = true;
    let first = run_scan(&tree, &opts, &all_rows);
    let mut grown = tree.clone();
    grown.insert(0, vec![entry(&name("2026-02-01T00-00-00", ID_C))]);
    let mut resumed = opts.clone();
    resumed.cursor = first.next_cursor.clone();
    let second = run_scan(&grown, &resumed, &all_rows);
    let mut double = opts.clone();
    double.limit = 2;
    let both = run_scan(&tree, &double, &all_rows);
    let mut joined = ids(&first);
    joined.extend(ids(&second));
    assert_eq!(joined, ids(&both));
}

#[test]
fn listing_is_strictly_descending_and_repeatable() {
    let tree = sample_tree();
    let mut opts = ListOptions::default();
    opts.show_all = true;
    let a = run_scan(&tree, &opts, &all_rows);
    let b = run_scan(&tree, &opts, &all_rows);
    assert_eq!(ids(&a), vec![ID_D, ID_A, ID_B, ID_C]);
    assert_eq!(ids(&a), ids(&b));
    assert!(a.next_cursor.is_none());
    assert_eq!(a.scanned_files, 4);
    assert!(!a.reached_scan_cap);
}

#[test]
fn rejected_files_do_not_count_toward_the_limit() {
    let tree = sample_tree();
    let mut opts = ListOptions::default();
    opts.limit = 2;
    opts.show_all = true;
    let only_some = |p: &str| if p.contains(ID_A) { None } else { all_rows(p) };
    let page = run_scan(&tree, &opts, &only_some);
    assert_eq!(ids(&page), vec![ID_D, ID_B]);
    assert_eq!(page.next_cursor, Some(format!("2026-01-01T10-00-00|{ID_B}")));
}

#[test]
fn cwd_filter_keeps_only_matching_directory() {
    let tree = sample_tree();
    let mut opts = ListOptions::default();
    opts.show_all = false;
    opts.cwd_filter = Some("/proj".to_string());
    let rows = |p: &str| {
        if p.contains(ID_A) {
            Some(summary(p, Some("/other"), None))
        } else if p.contains(ID_B) {
            Some(summary(p, None, None))
        } else {
            Some(summary(p, Some("/proj"), None))
        }
    };
    let page = run_scan(&tree, &opts, &rows);
    assert_eq!(ids(&page), vec![ID_D, ID_C]);
}

#[test]
fn cwd_filter_ignores_formatting_that_canonicalizes_alike() {
    let tree = sample_tree();
    let mut opts = ListOptions::default();
    opts.cwd_filter = Some("/tmp".to_string());
    let rows = |p: &str| {
        if p.contains(ID_A) {
            Some(summary(p, Some("/tmp/"), None))
        } else if p.contains(ID_B) {
            Some(summary(p, Some("/tmp/../tmp"), None))
        } else {
            Some(summary(p, Some("/other"), None))
        }
    };
    let page = run_scan(&tree, &opts, &rows);
    assert_eq!(ids(&page), vec![ID_A, ID_B]);
}

#[test]
fn provider_filter_ignores_ascii_case() {
    let tree = sample_tree();
    let mut opts = ListOptions::default();
    opts.show_all = true;
    opts.providers = vec!["OpenAI".to_string()];
    let rows = |p: &str| {
        if p.contains(ID_A) {
            Some(summary(p, None, Some("openai")))
        } else if p.contains(ID_B) {
            Some(summary(p, None, None))
        } else {
            Some(summary(p, None, Some("other")))
        }
    };
    let page = run_scan(&tree, &opts, &rows);
    assert_eq!(ids(&page), vec![ID_A]);
    let mut empty_name = opts.clone();
    empty_name.providers = vec![String::new()];
    let page = run_scan(&tree, &empty_name, &rows);
    assert_eq!(ids(&page), vec![ID_B]);
}

#[test]
fn default_options() {
    let o = ListOptions::default();
    assert_eq!(o.limit, 20);
    assert!(o.cursor.is_none() && o.providers.is_empty() && !o.show_all && o.cwd_filter.is_none());
}

#[test]
fn cursor_round_trip() {
    let k = SessionKey {
        stamp: Stamp { year: 2025, month: 2, day: 28, hour: 23, minute: 5, second: 9 },
        id: 0x0123456789abcdef0123456789abcdef,
    };
    let t = encode_cursor(&k);
    assert_eq!(t, "2025-02-28T23-05-09|01234567-89ab-cdef-0123-456789abcdef");
    assert_eq!(decode_cursor(&t), Some(k));
}

#[test]
fn cursor_rejects_malformed_tokens() {
    let id = "01234567-89ab-cdef-0123-456789abcdef";
    assert_eq!(decode_cursor(&format!("2025-02-28T23-05-09{id}")), None);
    assert_eq!(decode_cursor(&format!("2025-02-30T23-05-09|{id}")), None);
    assert_eq!(decode_cursor(&format!("2025-02-28 23:05:09|{id}")), None);
    assert_eq!(decode_cursor("2025-02-28T23-05-09|not-a-uuid"), None);
    assert_eq!(decode_cursor(&format!("2025-02-28T23-05-09|{id}|x")), None);
    assert_eq!(decode_cursor(""), None);
}

#[test]
fn stamp_text_round_trip_and_leap_days() {
    let s = parse_stamp("2024-02-29T00-00-00").expect("leap day");
    assert_eq!(s, Stamp { year: 2024, month: 2, day: 29, hour: 0, minute: 0, second: 0 });
    assert_eq!(format_stamp(&s), "2024-02-29T00-00-00");
    assert_eq!(parse_stamp("2023-02-29T00-00-00"), None);
    assert_eq!(parse_stamp("2023-12-31T24-00-00"), None);
    assert_eq!(parse_stamp("2023-12-31T23-60-00"), None);
    assert_eq!(parse_stamp("1900-02-29T00-00-00"), None);
    assert!(parse_stamp("2000-02-29T00-00-00").is_some());
}

#[test]
fn file_names_decode_to_keys() {
    let k = key_from_file_name(&name("2026-01-01T10-00-00", ID_A)).expect("a log name");
    assert_eq!(k.stamp, Stamp { year: 2026, month: 1, day: 1, hour: 10, minute: 0, second: 0 });
    assert_eq!(k.id, 0xcccccccc_0000_4000_8000_000000000003);
    assert_eq!(key_from_file_name("notes.txt"), None);
    assert_eq!(key_from_file_name(&format!("rollout-2026-01-01T10-00-00-{ID_A}.json")), None);
    assert_eq!(key_from_file_name(&format!("session-2026-01-01T10-00-00-{ID_A}.jsonl")), None);
    assert_eq!(key_from_file_name("rollout-2026-01-01T10-00-00.jsonl"), None);
}

#[test]
fn day_files_sort_descending_and_skip_strangers() {
    let day = sample_tree().remove(1);
    let files = index_day(&day);
    let got: Vec<String> = files.iter().map(|f| f.path.clone()).collect();
    assert_eq!(
        got,
        vec![
            format!("/root/{}", name("2026-01-01T10-00-00", ID_A)),
            format!("/root/{}", name("2026-01-01T10-00-00", ID_B)),
            format!("/root/{}", name("2026-01-01T10-00-00", ID_C)),
        ]
    );
}

#[test]
fn shard_names_parse_as_bounded_numbers() {
    assert_eq!(shard_value("2026", 65535), Some(2026));
    assert_eq!(shard_value("07", 255), Some(7));
    assert_eq!(shard_value("+3", 255), Some(3));
    assert_eq!(shard_value("256", 255), None);
    assert_eq!(shard_value("x1", 255), None);
    assert_eq!(shard_value("", 255), None);
    assert_eq!(shard_value("+", 255), None);
    let dirs = order_shards(&vec![entry("01"), entry("12"), entry("misc"), entry("3")], 255);
    let got: Vec<u16> = dirs.iter().map(|d| d.value).collect();
    assert_eq!(got, vec![12, 3, 1]);
}

#[test]
fn scan_stops_at_the_cap_without_a_cursor_when_nothing_was_kept() {
    let mut opts = ListOptions::default();
    opts.limit = 1;
    opts.show_all = true;
    let mut scan = ListScan::new(&opts);
    let mut n = 0u32;
    while !scan.is_done() {
        let k = SessionKey {
            stamp: Stamp { year: 2026, month: 1, day: 1, hour: 0, minute: 0, second: 0 },
            id: u128::MAX - n as u128,
        };
        if scan.begin(&LogFile { key: k, path: format!("/f{n}") }) {
            scan.offer(None, false);
        }
        n += 1;
    }
    let page = scan.finish();
    assert_eq!(page.scanned_files, codex_sessions::catalog::SCAN_CAP);
    assert!(page.reached_scan_cap);
    assert!(page.sessions.is_empty());
    assert_eq!(page.next_cursor, None);
}

#[test]
fn cap_keeps_what_was_found_and_gives_a_cursor() {
    let mut opts = ListOptions::default();
    opts.limit = 5;
    opts.show_all = true;
    let mut scan = ListScan::new(&opts);
    let mut n = 0u32;
    while !scan.is_done() {
        let k = SessionKey {
            stamp: Stamp { year: 2026, month: 1, day: 1, hour: 0, minute: 0, second: 0 },
            id: u128::MAX - n as u128,
        };
        let path = format!("/f{n}");
        if scan.begin(&LogFile { key: k, path: path.clone() }) {
            let s = if n == 3 { Some(summary(&path, None, None)) } else { None };
            scan.offer(s, false);
        }
        n += 1;
    }
    let page = scan.finish();
    assert!(page.reached_scan_cap);
    assert_eq!(page.sessions.len(), 1);
    let k = SessionKey {
        stamp: Stamp { year: 2026, month: 1, day: 1, hour: 0, minute: 0, second: 0 },
        id: u128::MAX - 3,
    };
    assert_eq!(page.next_cursor, Some(encode_cursor(&k)));
}

#[test]
fn scope_without_directory_needs_show_all_and_directory_wins_over_show_all() {
    let tree = sample_tree();
    let opts = ListOptions::default();
    assert!(run_scan(&tree, &opts, &all_rows).sessions.is_empty());
    let mut both = ListOptions::default();
    both.show_all = true;
    both.cwd_filter = Some("/elsewhere".to_string());
    assert!(run_scan(&tree, &both, &all_rows).sessions.is_empty());
}

#[test]
fn scope_test_compares_canonical_forms_then_texts() {
    let mut opts = ListOptions::default();
    opts.cwd_filter = Some("/proj".to_string());
    let scan = ListScan::new(&opts);
    let s = summary("/x", Some("/proj/"), None);
    assert!(scan.in_scope(&s, &Some("/proj".to_string()), &Some("/proj".to_string())));
    assert!(!scan.in_scope(&s, &None, &None));
    let literal = summary("/x", Some("/proj"), None);
    assert!(scan.in_scope(&literal, &None, &Some("/elsewhere".to_string())));
    let none = summary("/x", None, None);
    assert!(!scan.in_scope(&none, &Some("/proj".to_string()), &Some("/proj".to_string())));
    let unfiltered = ListScan::new(&ListOptions::default());
    assert!(!unfiltered.in_scope(&s, &Some("/proj".to_string()), &Some("/proj".to_string())));
}
