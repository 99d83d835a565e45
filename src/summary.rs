//! Session records, the head window of a log file, and the rules that turn a
//! head into a listed session.

use vstd::prelude::*;
use crate::text::{
    chars_of, contains, has_infix, has_prefix, lower_seq, push_char, same_text, starts_with,
    to_lower, trim, trim_start, trimmed, trimmed_start,
};
use crate::catalog::{opt_view, SessionError};

verus! {

/// A UTC instant: seconds since the Unix epoch and a sub-second part.
#[derive(Clone, Copy, Debug, PartialEq, Eq, Structural)]
pub struct UtcTime {
    pub secs: i64,
    pub nanos: u32,
}

/// Where a session was started from.
#[derive(Clone, Copy, Debug, PartialEq, Eq, Structural)]
pub enum SessionSource {
    Cli,
    VSCode,
    Exec,
    Mcp,
    Unknown,
}

/// The session-metadata record.
#[derive(Debug)]
pub struct MetaRecord {
    pub id: String,
    pub timestamp: String,
    pub cwd: String,
    pub source: SessionSource,
    pub provider: Option<String>,
    pub instructions: Option<String>,
    pub git_branch: Option<String>,
}

/// One segment of a message.
#[derive(Debug)]
pub enum ContentPart {
    InputText(String),
    OutputText(String),
    InputImage(String),
}

/// What one line of a log file holds, as far as the catalog reads it.
#[derive(Debug)]
pub enum RecordItem {
    SessionMeta(MetaRecord),
    Message { role: String, content: Vec<ContentPart> },
    OtherResponse,
    UserEvent,
    Other,
}

/// One parsed line of a log file.
#[derive(Debug)]
pub struct RecordLine {
    pub timestamp: String,
    pub item: RecordItem,
}

/// A record kept in the head window.
#[derive(Debug)]
pub enum HeadEntry {
    Meta(MetaRecord),
    Message { role: String, content: Vec<ContentPart> },
    OtherResponse,
}

/// One row of a listing.
#[derive(Clone, Debug)]
pub struct SessionSummary {
    pub id: String,
    pub path: String,
    pub preview: Option<String>,
    pub created_at: Option<UtcTime>,
    pub updated_at: Option<UtcTime>,
    pub cwd: Option<String>,
    pub git_branch: Option<String>,
    pub provider: Option<String>,
}

impl SessionSummary {
    /// An equal copy.
    pub fn duplicate(&self) -> (r: SessionSummary)
        ensures
            r == *self,
    {
        SessionSummary {
            id: self.id.clone(),
            path: self.path.clone(),
            preview: match &self.preview {
                Some(p) => Some(p.clone()),
                None => None,
            },
            created_at: self.created_at,
            updated_at: self.updated_at,
            cwd: match &self.cwd {
                Some(c) => Some(c.clone()),
                None => None,
            },
            git_branch: match &self.git_branch {
                Some(b) => Some(b.clone()),
                None => None,
            },
            provider: match &self.provider {
                Some(p) => Some(p.clone()),
                None => None,
            },
        }
    }
}

/// A summary with what only the detail view shows.
#[derive(Debug)]
pub struct SessionDetail {
    pub summary: SessionSummary,
    pub instructions: Option<String>,
    pub source: Option<SessionSource>,
    pub git_branch: Option<String>,
    pub meta: Option<MetaRecord>,
}

/// The number of records a head window holds at most, by default.
pub const HEAD_RECORD_LIMIT: usize = 10;

/// The head window of a log file, filled line by line.
#[derive(Debug)]
pub struct Head {
    pub limit: usize,
    pub entries: Vec<HeadEntry>,
    /// The timestamps of the records kept, in file order.
    pub stamps: Vec<String>,
    pub saw_meta: bool,
    pub saw_user: bool,
    pub stopped: bool,
}

/// The head entry that a record adds, if any.
pub open spec fn adds_entry(item: RecordItem) -> bool {
    item is SessionMeta || item is Message || item is OtherResponse
}

/// The head entry that a record becomes.
pub open spec fn entry_for(item: RecordItem) -> HeadEntry {
    match item {
        RecordItem::SessionMeta(m) => HeadEntry::Meta(m),
        RecordItem::Message { role, content } => HeadEntry::Message { role, content },
        _ => HeadEntry::OtherResponse,
    }
}

impl Head {
    /// An empty head window of at most `limit` records.
    pub fn new(limit: usize) -> (r: Head)
        ensures
            r.limit == limit,
            r.entries@.len() == 0,
            r.stamps@.len() == 0,
            !r.saw_meta,
            !r.saw_user,
            !r.stopped,
    {
        Head {
            limit,
            entries: Vec::new(),
            stamps: Vec::new(),
            saw_meta: false,
            saw_user: false,
            stopped: false,
        }
    }

    /// Takes the next line; says whether more lines are wanted. The window
    /// keeps the records' timestamps, and stops once
    /// it holds `limit` records or has seen both a session-meta record and a
    /// user event.
    pub fn push(&mut self, line: RecordLine) -> (more: bool)
        ensures
            old(self).stopped ==> {
                &&& final(self).entries@ == old(self).entries@
                &&& final(self).stamps == old(self).stamps
                &&& final(self).saw_meta == old(self).saw_meta
                &&& final(self).saw_user == old(self).saw_user
                &&& final(self).stopped
            },
            !old(self).stopped ==> {
                &&& final(self).entries@ == (if adds_entry(line.item) {
                    old(self).entries@.push(entry_for(line.item))
                } else {
                    old(self).entries@
                })
                &&& final(self).stamps@ == (if adds_entry(line.item) {
                    old(self).stamps@.push(line.timestamp)
                } else {
                    old(self).stamps@
                })
                &&& final(self).saw_meta == (old(self).saw_meta || line.item is SessionMeta)
                &&& final(self).saw_user == (old(self).saw_user || line.item is UserEvent)
                &&& final(self).stopped == (final(self).entries@.len() >= final(self).limit || (
                final(self).saw_meta && final(self).saw_user))
            },
            final(self).limit == old(self).limit,
            more == !final(self).stopped,
    {
        if self.stopped {
            return false;
        }
        let RecordLine { timestamp, item } = line;
        let adds = match &item {
            RecordItem::SessionMeta(_) | RecordItem::Message { .. } | RecordItem::OtherResponse => true,
            _ => false,
        };
        if adds {
            self.stamps.push(timestamp);
        }
        match item {
            RecordItem::SessionMeta(m) => {
                self.entries.push(HeadEntry::Meta(m));
                self.saw_meta = true;
            },
            RecordItem::Message { role, content } => {
                self.entries.push(HeadEntry::Message { role, content });
            },
            RecordItem::OtherResponse => {
                self.entries.push(HeadEntry::OtherResponse);
            },
            RecordItem::UserEvent => {
                self.saw_user = true;
            },
            RecordItem::Other => {},
        }
        self.stopped = self.entries.len() >= self.limit || (self.saw_meta && self.saw_user);
        !self.stopped
    }
}

/// The markers that open a bootstrap message rather than a user's words.
pub open spec fn is_session_prefix_spec(t: Seq<char>) -> bool {
    let l = lower_seq(trimmed_start(t));
    has_prefix(l, "<environment_context>"@) || has_prefix(l, "<user_instructions>"@)
}

/// Whether a text segment opens with an environment or session bootstrap
/// marker, ignoring leading whitespace and ASCII case.
pub fn is_session_prefix(text: &str) -> (r: bool)
    ensures
        r == is_session_prefix_spec(text@),
{
    let t = trim_start(text);
    let lowered = to_lower(t.as_str());
    starts_with(lowered.as_str(), "<environment_context>") || starts_with(
        lowered.as_str(),
        "<user_instructions>",
    )
}

pub open spec fn looks_like_instructions_spec(t: Seq<char>) -> bool {
    has_prefix(t, "# AGENTS"@) || has_infix(t, "<INSTRUCTIONS>"@)
}

/// Whether a text segment is standing instructions: it opens with the
/// instructions heading or holds the instructions tag.
pub fn looks_like_instructions(text: &str) -> (r: bool)
    ensures
        r == looks_like_instructions_spec(text@),
{
    starts_with(text, "# AGENTS") || contains(text, "<INSTRUCTIONS>")
}

/// The preview pieces of a user message's segments: `None` where a text
/// segment is a bootstrap marker; else the trimmed texts, less empty ones and
/// instructions.
pub open spec fn preview_pieces(parts: Seq<ContentPart>) -> Option<Seq<Seq<char>>>
    decreases parts.len(),
{
    if parts.len() == 0 {
        Some(Seq::empty())
    } else {
        let rest = preview_pieces(parts.drop_last());
        match parts.last() {
            ContentPart::InputText(t) => {
                if rest is None || is_session_prefix_spec(t@) {
                    None
                } else {
                    let tr = trimmed(t@);
                    if tr.len() == 0 || looks_like_instructions_spec(tr) {
                        rest
                    } else {
                        Some(rest->0.push(tr))
                    }
                }
            },
            _ => rest,
        }
    }
}

/// Pieces joined with single spaces.
pub open spec fn joined(ps: Seq<Seq<char>>) -> Seq<char>
    decreases ps.len(),
{
    if ps.len() == 0 {
        Seq::empty()
    } else if ps.len() == 1 {
        ps[0]
    } else {
        joined(ps.drop_last()) + seq![' '] + ps.last()
    }
}

/// The index of the first user message among head entries, or -1.
pub open spec fn first_user_message(es: Seq<HeadEntry>, from: int) -> int
    decreases es.len() - from,
{
    if from < 0 || from >= es.len() {
        -1
    } else if es[from] matches HeadEntry::Message { role, .. } && role@ == "user"@ {
        from
    } else {
        first_user_message(es, from + 1)
    }
}

/// The preview of a head: built from its first user message alone.
pub open spec fn preview_of(es: Seq<HeadEntry>) -> Option<Seq<char>> {
    let i = first_user_message(es, 0);
    if i < 0 {
        None
    } else {
        match es[i] {
            HeadEntry::Message { content, .. } => match preview_pieces(content@) {
                Some(ps) => if ps.len() == 0 {
                    None
                } else {
                    Some(joined(ps))
                },
                None => None,
            },
            _ => None,
        }
    }
}

/// The preview of one user message's segments.
pub fn preview_from_message(content: &Vec<ContentPart>) -> (r: Option<String>)
    ensures
        opt_view(r) == match preview_pieces(content@) {
            Some(ps) => if ps.len() == 0 {
                None
            } else {
                Some(joined(ps))
            },
            None => None,
        },
{
    let mut out = String::new();
    let mut count: usize = 0;
    let mut i: usize = 0;
    while i < content.len()
        invariant
            i <= content@.len(),
            preview_pieces(content@.subrange(0, i as int)) is Some,
            count == preview_pieces(content@.subrange(0, i as int))->0.len(),
            out@ == joined(preview_pieces(content@.subrange(0, i as int))->0),
            count <= i,
        decreases content@.len() - i,
    {
        let ghost pre = content@.subrange(0, i + 1);
        assert(pre.drop_last() =~= content@.subrange(0, i as int));
        match &content[i] {
            ContentPart::InputText(text) => {
                if is_session_prefix(text.as_str()) {
                    proof {
                        lemma_pieces_none_stays(content@, i as int + 1);
                    }
                    return None;
                }
                let tr = trim(text.as_str());
                if tr.unicode_len() > 0 && !looks_like_instructions(tr.as_str()) {
                    if count > 0 {
                        push_char(&mut out, ' ');
                    }
                    let tv = chars_of(tr.as_str());
                    let ghost base = out@;
                    let mut j: usize = 0;
                    while j < tv.len()
                        invariant
                            j <= tv@.len(),
                            out@ == base + tv@.subrange(0, j as int),
                        decreases tv@.len() - j,
                    {
                        push_char(&mut out, tv[j]);
                        j = j + 1;
                        assert(out@ =~= base + tv@.subrange(0, j as int));
                    }
                    assert(tv@.subrange(0, tv@.len() as int) =~= tv@);
                    proof {
                        let ps = preview_pieces(content@.subrange(0, i as int))->0;
                        if count == 0 {
                            assert(base =~= Seq::<char>::empty());
                            assert(out@ =~= tr@);
                        }
                        assert(ps.push(tr@).drop_last() =~= ps);
                    }
                    count = count + 1;
                }
            },
            _ => {},
        }
        i = i + 1;
    }
    assert(content@.subrange(0, content@.len() as int) =~= content@);
    if count == 0 {
        None
    } else {
        Some(out)
    }
}

proof fn lemma_pieces_none_stays(parts: Seq<ContentPart>, n: int)
    requires
        0 <= n <= parts.len(),
        preview_pieces(parts.subrange(0, n)) is None,
    ensures
        preview_pieces(parts) is None,
    decreases parts.len() - n,
{
    if n < parts.len() {
        let pre = parts.subrange(0, n + 1);
        assert(pre.drop_last() =~= parts.subrange(0, n));
        lemma_pieces_none_stays(parts, n + 1);
    } else {
        assert(parts.subrange(0, n) =~= parts);
    }
}


/// What `chrono::DateTime::parse_from_rfc3339` reads from a text, as a UTC instant.
pub uninterp spec fn rfc3339_instant(s: Seq<char>) -> Option<UtcTime>;

/// Relies on `chrono::DateTime::parse_from_rfc3339`, with the instant taken in
/// UTC (`timestamp`, `timestamp_subsec_nanos`).
#[verifier::external_body]
fn parse_rfc3339(s: &str) -> (r: Option<UtcTime>)
    ensures
        r == rfc3339_instant(s@),
{
    chrono::DateTime::parse_from_rfc3339(s).ok().map(
        |dt| UtcTime { secs: dt.timestamp(), nanos: dt.timestamp_subsec_nanos() },
    )
}

/// `a` is not later than `b`.
pub open spec fn instant_le(a: UtcTime, b: UtcTime) -> bool {
    a.secs < b.secs || (a.secs == b.secs && a.nanos <= b.nanos)
}

/// The earliest instant among the texts that read as RFC 3339 instants.
pub open spec fn earliest(ts: Seq<String>) -> Option<UtcTime>
    decreases ts.len(),
{
    if ts.len() == 0 {
        None
    } else {
        let prev = earliest(ts.drop_last());
        match rfc3339_instant(ts.last()@) {
            None => prev,
            Some(t) => match prev {
                Some(p) => if instant_le(p, t) { Some(p) } else { Some(t) },
                None => Some(t),
            },
        }
    }
}

/// The latest instant among the texts that read as RFC 3339 instants.
pub open spec fn latest(ts: Seq<String>) -> Option<UtcTime>
    decreases ts.len(),
{
    if ts.len() == 0 {
        None
    } else {
        let prev = latest(ts.drop_last());
        match rfc3339_instant(ts.last()@) {
            None => prev,
            Some(t) => match prev {
                Some(p) => if instant_le(t, p) { Some(p) } else { Some(t) },
                None => Some(t),
            },
        }
    }
}

/// The earliest instant is never after the latest.
pub proof fn lemma_bounds_ordered(ts: Seq<String>)
    ensures
        earliest(ts) is Some <==> latest(ts) is Some,
        earliest(ts) matches Some(e) ==> instant_le(e, latest(ts)->0),
    decreases ts.len(),
{
    if ts.len() > 0 {
        lemma_bounds_ordered(ts.drop_last());
    }
}

fn instant_le_exec(a: UtcTime, b: UtcTime) -> (r: bool)
    ensures
        r == instant_le(a, b),
{
    a.secs < b.secs || (a.secs == b.secs && a.nanos <= b.nanos)
}

/// The earliest and the latest instant among the texts that read as ones.
pub fn bounds(ts: &Vec<String>) -> (r: (Option<UtcTime>, Option<UtcTime>))
    ensures
        r.0 == earliest(ts@),
        r.1 == latest(ts@),
{
    let mut lo: Option<UtcTime> = None;
    let mut hi: Option<UtcTime> = None;
    let mut i: usize = 0;
    while i < ts.len()
        invariant
            i <= ts@.len(),
            lo == earliest(ts@.subrange(0, i as int)),
            hi == latest(ts@.subrange(0, i as int)),
        decreases ts@.len() - i,
    {
        let ghost pre = ts@.subrange(0, i + 1);
        assert(pre.drop_last() =~= ts@.subrange(0, i as int));
        assert(pre.last() == ts@[i as int]);
        match parse_rfc3339(ts[i].as_str()) {
            Some(t) => {
                lo = match lo {
                    Some(p) => if instant_le_exec(p, t) { Some(p) } else { Some(t) },
                    None => Some(t),
                };
                hi = match hi {
                    Some(p) => if instant_le_exec(t, p) { Some(p) } else { Some(t) },
                    None => Some(t),
                };
            },
            None => {},
        }
        i = i + 1;
    }
    assert(ts@.subrange(0, ts@.len() as int) =~= ts@);
    (lo, hi)
}

/// The index of the first session-meta entry at or after `from`, or -1.
pub open spec fn first_meta(es: Seq<HeadEntry>, from: int) -> int
    decreases es.len() - from,
{
    if from < 0 || from >= es.len() {
        -1
    } else if es[from] is Meta {
        from
    } else {
        first_meta(es, from + 1)
    }
}

/// The sources of interactive sessions.
pub open spec fn is_interactive(src: SessionSource) -> bool {
    src == SessionSource::Cli || src == SessionSource::VSCode
}

/// The session-meta record of a head, if it holds one.
pub open spec fn meta_of(es: Seq<HeadEntry>) -> Option<MetaRecord> {
    let i = first_meta(es, 0);
    if i < 0 {
        None
    } else {
        match es[i] {
            HeadEntry::Meta(m) => Some(m),
            _ => None,
        }
    }
}

/// Whether a head is listed at all: it saw a session-meta record and a user
/// event, and the session comes from an interactive source.
pub open spec fn is_listed(h: Head) -> bool {
    &&& h.saw_meta
    &&& h.saw_user
    &&& meta_of(h.entries@) is Some
    &&& is_interactive(meta_of(h.entries@)->0.source)
}

/// The summary that a listed head gives, field by field.
pub open spec fn summary_matches(
    s: SessionSummary,
    h: Head,
    path: Seq<char>,
    modified: Option<UtcTime>,
) -> bool {
    let m = meta_of(h.entries@)->0;
    let created = earliest(h.stamps@);
    let updated = latest(h.stamps@);
    &&& s.id@ == m.id@
    &&& s.path@ == path
    &&& opt_view(s.preview) == preview_of(h.entries@)
    &&& s.created_at == created
    &&& s.updated_at == (if updated is Some {
        updated
    } else if modified is Some {
        modified
    } else {
        created
    })
    &&& opt_view(s.cwd) == Some(m.cwd@)
    &&& opt_view(s.git_branch) == opt_view(m.git_branch)
    &&& opt_view(s.provider) == opt_view(m.provider)
}

pub(crate) fn clone_opt(o: &Option<String>) -> (r: Option<String>)
    ensures
        opt_view(r) == opt_view(*o),
{
    match o {
        Some(s) => Some(s.clone()),
        None => None,
    }
}

/// The position of the first session-meta entry of a head.
fn find_meta(es: &Vec<HeadEntry>) -> (r: Option<usize>)
    ensures
        r matches Some(i) ==> first_meta(es@, 0) == i && i < es@.len(),
        r is None ==> first_meta(es@, 0) == -1,
{
    let mut i: usize = 0;
    while i < es.len()
        invariant
            i <= es@.len(),
            first_meta(es@, 0) == first_meta(es@, i as int),
        decreases es@.len() - i,
    {
        if let HeadEntry::Meta(_) = &es[i] {
            return Some(i);
        }
        i = i + 1;
    }
    None
}

/// The preview of a head's first user message.
pub fn preview_from_head(es: &Vec<HeadEntry>) -> (r: Option<String>)
    ensures
        opt_view(r) == preview_of(es@),
{
    let mut i: usize = 0;
    while i < es.len()
        invariant
            i <= es@.len(),
            first_user_message(es@, 0) == first_user_message(es@, i as int),
        decreases es@.len() - i,
    {
        if let HeadEntry::Message { role, content } = &es[i] {
            if same_text(role.as_str(), "user") {
                return preview_from_message(content);
            }
        }
        i = i + 1;
    }
    None
}

/// The summary of a head, or `None` where it is not listed: no session-meta
/// record or no user event within the window, or a source that is not
/// interactive. `modified` is the file's modification time, where known.
pub fn summarize(h: &Head, path: &str, modified: Option<UtcTime>) -> (r: Option<SessionSummary>)
    ensures
        r is Some <==> is_listed(*h),
        r matches Some(s) ==> summary_matches(s, *h, path@, modified),
        r matches Some(s) ==> (s.created_at matches Some(c) ==> s.updated_at matches Some(u)
            && instant_le(c, u)),
{
    if !h.saw_meta || !h.saw_user {
        return None;
    }
    let i = match find_meta(&h.entries) {
        Some(i) => i,
        None => {
            return None;
        },
    };
    let m = match &h.entries[i] {
        HeadEntry::Meta(m) => m,
        _ => {
            return None;
        },
    };
    if !(m.source == SessionSource::Cli || m.source == SessionSource::VSCode) {
        return None;
    }
    let preview = preview_from_head(&h.entries);
    let (created_at, latest) = bounds(&h.stamps);
    proof {
        lemma_bounds_ordered(h.stamps@);
    }
    let updated_at = if latest.is_some() {
        latest
    } else if modified.is_some() {
        modified
    } else {
        created_at
    };
    Some(SessionSummary {
        id: m.id.clone(),
        path: path.to_string(),
        preview,
        created_at,
        updated_at,
        cwd: Some(m.cwd.clone()),
        git_branch: clone_opt(&m.git_branch),
        provider: clone_opt(&m.provider),
    })
}

fn clone_meta(m: &MetaRecord) -> (r: MetaRecord)
    ensures
        r.id@ == m.id@,
        r.timestamp@ == m.timestamp@,
        r.cwd@ == m.cwd@,
        r.source == m.source,
        opt_view(r.provider) == opt_view(m.provider),
        opt_view(r.instructions) == opt_view(m.instructions),
        opt_view(r.git_branch) == opt_view(m.git_branch),
{
    MetaRecord {
        id: m.id.clone(),
        timestamp: m.timestamp.clone(),
        cwd: m.cwd.clone(),
        source: m.source,
        provider: clone_opt(&m.provider),
        instructions: clone_opt(&m.instructions),
        git_branch: clone_opt(&m.git_branch),
    }
}

/// The detail of a session: its summary with its instructions, source and
/// metadata record; `NotFound` where the head is not listed.
pub fn load_session_detail(h: &Head, path: &str, modified: Option<UtcTime>) -> (r: Result<
    SessionDetail,
    SessionError,
>)
    ensures
        r is Err <==> !is_listed(*h),
        r matches Err(e) ==> e == SessionError::NotFound,
        r matches Ok(d) ==> {
            let m = meta_of(h.entries@)->0;
            &&& summary_matches(d.summary, *h, path@, modified)
            &&& opt_view(d.instructions) == opt_view(m.instructions)
            &&& d.source == Some(m.source)
            &&& opt_view(d.git_branch) == opt_view(m.git_branch)
            &&& d.meta matches Some(dm) && dm.id@ == m.id@ && dm.cwd@ == m.cwd@
                && dm.timestamp@ == m.timestamp@ && dm.source == m.source
                && opt_view(dm.provider) == opt_view(m.provider)
                && opt_view(dm.instructions) == opt_view(m.instructions)
                && opt_view(dm.git_branch) == opt_view(m.git_branch)
        },
{
    let summary = match summarize(h, path, modified) {
        Some(s) => s,
        None => {
            return Err(SessionError::NotFound);
        },
    };
    let i = find_meta(&h.entries).unwrap();
    let meta = match &h.entries[i] {
        HeadEntry::Meta(m) => clone_meta(m),
        _ => {
            return Err(SessionError::NotFound);
        },
    };
    let git_branch = clone_opt(&summary.git_branch);
    Ok(SessionDetail {
        summary,
        instructions: clone_opt(&meta.instructions),
        source: Some(meta.source),
        git_branch,
        meta: Some(meta),
    })
}

} // verus!
