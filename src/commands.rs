//! What the subcommands decide before and after they touch the disk: the
//! listing options they ask for, how a session query is read, and how rows
//! are shortened for display.

use vstd::prelude::*;
use crate::catalog::{ListOptions, SessionError, opt_view, views};
use crate::cli::{ListArgs, ResumeArgs};
use crate::key::{key_from_file_name, key_of_name, parse_uuid, slice_vec, uuid_of};
use crate::summary::{clone_opt, SessionDetail, SessionSummary};
use crate::text::{chars_of, push_char, string_of};

verus! {

/// The widest preview shown, in characters.
pub const PREVIEW_MAX_CHARS: usize = 80;

/// The listing scope: an explicit directory narrows the listing to it;
/// without one every directory is listed.
pub fn resolve_scope(all: bool, cwd: Option<String>) -> (r: (bool, Option<String>))
    ensures
        cwd is Some ==> !r.0 && r.1 == cwd,
        cwd is None ==> r.0 && r.1 is None,
{
    match cwd {
        Some(dir) => (false, Some(dir)),
        None => (true, None),
    }
}

/// The options of a `list` command: its scope, cursor and providers, and at
/// least one session.
pub fn build_list_opts(args: &ListArgs) -> (r: ListOptions)
    ensures
        r.limit == if args.limit >= 1 { args.limit } else { 1 },
        opt_view(r.cursor) == opt_view(args.cursor),
        views(r.providers@) == views(args.providers@),
        args.cwd is Some ==> !r.show_all && opt_view(r.cwd_filter) == opt_view(args.cwd),
        args.cwd is None ==> r.show_all && r.cwd_filter is None,
{
    let (show_all, cwd_filter) = resolve_scope(args.all, clone_opt(&args.cwd));
    let mut providers: Vec<String> = Vec::new();
    let mut i: usize = 0;
    while i < args.providers.len()
        invariant
            i <= args.providers@.len(),
            providers@ == args.providers@.subrange(0, i as int),
        decreases args.providers@.len() - i,
    {
        providers.push(args.providers[i].clone());
        i = i + 1;
        assert(providers@ =~= args.providers@.subrange(0, i as int));
    }
    assert(args.providers@.subrange(0, i as int) =~= args.providers@);
    ListOptions {
        limit: if args.limit >= 1 { args.limit } else { 1 },
        cursor: clone_opt(&args.cursor),
        providers,
        show_all,
        cwd_filter,
    }
}

/// The options with which `resume` lists candidates: its scope, from the
/// start, every provider, and at least one session.
pub fn build_resume_list_opts(args: &ResumeArgs) -> (r: Result<ListOptions, SessionError>)
    ensures
        r matches Ok(o) && o.limit == (if args.limit >= 1 { args.limit } else { 1 })
            && o.cursor is None && o.providers@.len() == 0 && (args.cwd is Some ==> !o.show_all
            && opt_view(o.cwd_filter) == opt_view(args.cwd)) && (args.cwd is None ==> o.show_all
            && o.cwd_filter is None),
{
    let (show_all, cwd_filter) = resolve_scope(args.all, clone_opt(&args.cwd));
    Ok(
        ListOptions {
            limit: if args.limit >= 1 { args.limit } else { 1 },
            cursor: None,
            providers: Vec::new(),
            show_all,
            cwd_filter,
        },
    )
}

/// A preview cut to its first eighty characters, with an ellipsis where cut.
pub fn truncate_preview(text: &str) -> (r: String)
    ensures
        r@ == preview_cut(text@),
{
    let v = chars_of(text);
    if v.len() <= PREVIEW_MAX_CHARS {
        string_of(&v)
    } else {
        let mut out = string_of(&slice_vec(&v, 0, PREVIEW_MAX_CHARS));
        push_char(&mut out, '…');
        out
    }
}

/// A text cut from the left to at most `max_chars` characters, an ellipsis
/// standing for what was cut; nothing where `max_chars` is zero.
pub fn truncate_left(text: &str, max_chars: usize) -> (r: String)
    ensures
        max_chars == 0 ==> r@.len() == 0,
        max_chars > 0 && text@.len() <= max_chars ==> r@ == text@,
        max_chars > 0 && text@.len() > max_chars ==> {
            let keep = if max_chars >= 2 { max_chars - 1 } else { 1int };
            r@ == seq!['…'] + text@.subrange(text@.len() - keep, text@.len() as int)
        },
{
    if max_chars == 0 {
        return String::new();
    }
    let v = chars_of(text);
    if v.len() <= max_chars {
        return string_of(&v);
    }
    let keep: usize = if max_chars >= 2 { max_chars - 1 } else { 1 };
    let tail = slice_vec(&v, v.len() - keep, v.len());
    let mut out = String::new();
    push_char(&mut out, '…');
    let mut i: usize = 0;
    while i < tail.len()
        invariant
            i <= tail@.len(),
            out@ == seq!['…'] + tail@.subrange(0, i as int),
        decreases tail@.len() - i,
    {
        push_char(&mut out, tail[i]);
        i = i + 1;
        assert(out@ =~= seq!['…'] + tail@.subrange(0, i as int));
    }
    assert(tail@.subrange(0, i as int) =~= tail@);
    out
}

/// A path shown in at most `max_chars` characters, cut from the left.
pub fn shorten_path(path: &str, max_chars: usize) -> (r: String)
    ensures
        max_chars == 0 ==> r@.len() == 0,
        max_chars > 0 && path@.len() <= max_chars ==> r@ == path@,
        max_chars > 0 && path@.len() > max_chars ==> {
            let keep = if max_chars >= 2 { max_chars - 1 } else { 1int };
            r@ == seq!['…'] + path@.subrange(path@.len() - keep, path@.len() as int)
        },
{
    truncate_left(path, max_chars)
}

/// What a session query names: a file that exists, or a session id.
#[derive(Debug)]
pub enum SessionQuery {
    Path(String),
    Id(u128),
}

/// Reads a session query: an existing path stands for itself; otherwise it
/// must be a UUID, else it names nothing.
pub fn classify_query(query: &str, exists: bool) -> (r: Result<SessionQuery, SessionError>)
    ensures
        exists ==> (r matches Ok(SessionQuery::Path(p)) && p@ == query@),
        !exists ==> match uuid_of(query@) {
            Some(u) => (r matches Ok(SessionQuery::Id(v)) && v == u),
            None => (r matches Err(SessionError::Io(m)) && m@ == query@
                + " is not a valid UUID or file path"@),
        },
{
    if exists {
        return Ok(SessionQuery::Path(query.to_string()));
    }
    match parse_uuid(query) {
        Some(u) => Ok(SessionQuery::Id(u)),
        None => {
            let mut m = query.to_string();
            m.append(" is not a valid UUID or file path");
            Err(SessionError::Io(m))
        },
    }
}

/// Whether a file name is that of the log of session `id`.
pub fn name_has_id(name: &str, id: u128) -> (r: bool)
    ensures
        r == (key_of_name(name@) matches Some(k) && k.id == id),
{
    match key_from_file_name(name) {
        Some(k) => k.id == id,
        None => false,
    }
}

/// A labelled line of the `info` output.
#[derive(Debug)]
pub struct InfoLine {
    pub label: String,
    pub value: String,
}

fn line(label: &str, value: &str) -> (r: InfoLine)
    ensures
        r.label@ == label@,
        r.value@ == value@,
{
    InfoLine { label: label.to_string(), value: value.to_string() }
}

/// A preview cut to its first eighty characters, with an ellipsis where cut.
pub open spec fn preview_cut(t: Seq<char>) -> Seq<char> {
    if t.len() <= PREVIEW_MAX_CHARS {
        t
    } else {
        t.subrange(0, PREVIEW_MAX_CHARS as int).push('…')
    }
}

/// A labelled line where the value is known, nothing otherwise.
pub open spec fn opt_line(label: Seq<char>, v: Option<Seq<char>>) -> Seq<(Seq<char>, Seq<char>)> {
    match v {
        Some(x) => seq![(label, x)],
        None => Seq::empty(),
    }
}

/// The lines of `info`, as label and value.
pub open spec fn info_lines(
    d: SessionDetail,
    started: Option<Seq<char>>,
    updated: Option<Seq<char>>,
    source: Option<Seq<char>>,
) -> Seq<(Seq<char>, Seq<char>)> {
    seq![("Session"@, d.summary.id@), ("Path"@, d.summary.path@)]
        + opt_line("CWD"@, opt_view(d.summary.cwd))
        + opt_line("Provider"@, opt_view(d.summary.provider))
        + opt_line("Git"@, opt_view(d.git_branch))
        + opt_line("Started"@, started)
        + opt_line("Updated"@, updated)
        + opt_line("Source"@, source)
        + opt_line("Notes"@, match d.instructions {
            Some(n) => Some(preview_cut(n@)),
            None => None,
        })
        + seq![("Resume"@, "codex resume "@ + d.summary.id@)]
}

pub open spec fn line_views(ls: Seq<InfoLine>) -> Seq<(Seq<char>, Seq<char>)> {
    ls.map_values(|l: InfoLine| (l.label@, l.value@))
}

fn push_opt(out: &mut Vec<InfoLine>, label: &str, v: &Option<String>)
    ensures
        line_views(final(out)@) == line_views(old(out)@) + opt_line(label@, opt_view(*v)),
{
    if let Some(x) = v {
        out.push(line(label, x.as_str()));
    }
    assert(line_views(final(out)@) =~= line_views(old(out)@) + opt_line(label@, opt_view(*v)));
}

/// The lines of `info` for a session, in order: id, path, then directory,
/// provider, branch, start, update, source and notes where known, then how to
/// resume. `started` and `updated` are the times as the caller renders them;
/// `source` is the source's name.
pub fn run_info(
    detail: &SessionDetail,
    started: Option<String>,
    updated: Option<String>,
    source: Option<String>,
) -> (r: Vec<InfoLine>)
    ensures
        line_views(r@) == info_lines(*detail, opt_view(started), opt_view(updated), opt_view(source)),
{
    let mut out: Vec<InfoLine> = Vec::new();
    out.push(line("Session", detail.summary.id.as_str()));
    out.push(line("Path", detail.summary.path.as_str()));
    assert(line_views(out@) =~= seq![("Session"@, detail.summary.id@), ("Path"@, detail.summary.path@)]);
    push_opt(&mut out, "CWD", &detail.summary.cwd);
    push_opt(&mut out, "Provider", &detail.summary.provider);
    push_opt(&mut out, "Git", &detail.git_branch);
    push_opt(&mut out, "Started", &started);
    push_opt(&mut out, "Updated", &updated);
    push_opt(&mut out, "Source", &source);
    let notes = match &detail.instructions {
        Some(n) => Some(truncate_preview(n.as_str())),
        None => None,
    };
    push_opt(&mut out, "Notes", &notes);
    let ghost before = out@;
    let hint = detail.summary.resume_hint();
    out.push(line("Resume", hint.as_str()));
    assert(line_views(out@) =~= line_views(before) + seq![
        ("Resume"@, "codex resume "@ + detail.summary.id@),
    ]);
    out
}

impl SessionSummary {
    /// The command that resumes this session.
    pub fn resume_hint(&self) -> (r: String)
        ensures
            r@ == "codex resume "@ + self.id@,
    {
        let mut s = String::from_str("codex resume ");
        s.append(self.id.as_str());
        s
    }
}

} // verus!
