//! Transcripts for export: the chat entries of a log and their markdown.

use vstd::prelude::*;
use crate::catalog::{eq_ignore_ascii_case, opt_view};
use crate::summary::{ContentPart, MetaRecord, RecordItem};
use crate::text::{lower_seq, push_char, trim, trimmed};

verus! {

/// One message of a transcript.
#[derive(Debug)]
pub struct ChatEntry {
    pub role: String,
    pub content: String,
}

/// How an export is written, by the target's extension.
#[derive(Clone, Copy, Debug, PartialEq, Eq, Structural)]
pub enum ExportFormat {
    /// The log file itself.
    Jsonl,
    /// The entries as JSON.
    Json,
    /// The markdown as a PDF document.
    Pdf,
    /// The markdown.
    Markdown,
}

/// What `std::path::Path::extension` gives for a path's text.
pub uninterp spec fn extension_of(p: Seq<char>) -> Option<Seq<char>>;

/// What `str::to_uppercase` gives for a text.
pub uninterp spec fn upper_of(s: Seq<char>) -> Seq<char>;

/// Relies on `std::path::Path::extension`: the text after the last dot of the
/// file name, if any; a function of the path's text alone.
#[verifier::external_body]
fn extension(p: &str) -> (r: Option<String>)
    ensures
        opt_view(r) == extension_of(p@),
{
    std::path::Path::new(p).extension().map(|e| e.to_string_lossy().into_owned())
}

/// Relies on `str::to_uppercase`: Unicode upper-casing, a function of the text alone.
#[verifier::external_body]
fn to_upper(s: &str) -> (r: String)
    ensures
        r@ == upper_of(s@),
{
    s.to_uppercase()
}

/// The format of an extension (up to ASCII case).
pub open spec fn format_of_extension(e: Option<Seq<char>>) -> ExportFormat {
    match e {
        Some(x) => if lower_seq(x) == lower_seq("jsonl"@) {
            ExportFormat::Jsonl
        } else if lower_seq(x) == lower_seq("json"@) {
            ExportFormat::Json
        } else if lower_seq(x) == lower_seq("pdf"@) {
            ExportFormat::Pdf
        } else {
            ExportFormat::Markdown
        },
        None => ExportFormat::Markdown,
    }
}

/// The format an export target asks for.
pub fn export_format(target: &str) -> (r: ExportFormat)
    ensures
        r == format_of_extension(extension_of(target@)),
{
    match extension(target) {
        Some(e) => format_of(e.as_str()),
        None => ExportFormat::Markdown,
    }
}

/// The format of one extension.
pub fn format_of(e: &str) -> (r: ExportFormat)
    ensures
        r == format_of_extension(Some(e@)),
{
    if eq_ignore_ascii_case(e, "jsonl") {
        ExportFormat::Jsonl
    } else if eq_ignore_ascii_case(e, "json") {
        ExportFormat::Json
    } else if eq_ignore_ascii_case(e, "pdf") {
        ExportFormat::Pdf
    } else {
        ExportFormat::Markdown
    }
}

/// The text that a segment shows in a transcript.
pub open spec fn part_text(p: ContentPart) -> Seq<char> {
    match p {
        ContentPart::InputText(t) => t@,
        ContentPart::OutputText(t) => t@,
        ContentPart::InputImage(u) => "[image: "@ + u@ + "]"@,
    }
}

/// Segments' texts, one per line.
pub open spec fn flattened(ps: Seq<ContentPart>) -> Seq<char>
    decreases ps.len(),
{
    if ps.len() == 0 {
        Seq::empty()
    } else {
        let prev = flattened(ps.drop_last());
        if prev.len() == 0 {
            part_text(ps.last())
        } else {
            prev + seq!['\n'] + part_text(ps.last())
        }
    }
}

fn append_chars(out: &mut String, s: &str)
    ensures
        final(out)@ == old(out)@ + s@,
{
    out.append(s);
}

/// The text of a message: its segments one per line, an image as its reference.
pub fn flatten_content(content: &Vec<ContentPart>) -> (r: String)
    ensures
        r@ == flattened(content@),
{
    let mut buf = String::new();
    let mut i: usize = 0;
    while i < content.len()
        invariant
            i <= content@.len(),
            buf@ == flattened(content@.subrange(0, i as int)),
        decreases content@.len() - i,
    {
        let ghost pre = content@.subrange(0, i + 1);
        assert(pre.drop_last() =~= content@.subrange(0, i as int));
        if buf.unicode_len() > 0 {
            push_char(&mut buf, '\n');
        }
        match &content[i] {
            ContentPart::InputText(t) => append_chars(&mut buf, t.as_str()),
            ContentPart::OutputText(t) => append_chars(&mut buf, t.as_str()),
            ContentPart::InputImage(u) => {
                append_chars(&mut buf, "[image: ");
                append_chars(&mut buf, u.as_str());
                append_chars(&mut buf, "]");
            },
        }
        i = i + 1;
    }
    assert(content@.subrange(0, content@.len() as int) =~= content@);
    buf
}

/// The transcript entry that a record gives: a message whose text is not
/// blank, as its role and text.
pub open spec fn entry_of(r: RecordItem) -> Seq<(Seq<char>, Seq<char>)> {
    match r {
        RecordItem::Message { role, content } => if trimmed(flattened(content@)).len() > 0 {
            seq![(role@, flattened(content@))]
        } else {
            Seq::empty()
        },
        _ => Seq::empty(),
    }
}

/// The transcript entries of a log's records, in order.
pub open spec fn entries_of(rs: Seq<RecordItem>) -> Seq<(Seq<char>, Seq<char>)>
    decreases rs.len(),
{
    if rs.len() == 0 {
        Seq::empty()
    } else {
        entry_of(rs[0]) + entries_of(rs.drop_first())
    }
}

/// The index of the first session-meta record, or -1.
pub open spec fn first_meta_record(rs: Seq<RecordItem>, from: int) -> int
    decreases rs.len() - from,
{
    if from < 0 || from >= rs.len() {
        -1
    } else if rs[from] is SessionMeta {
        from
    } else {
        first_meta_record(rs, from + 1)
    }
}

pub open spec fn entry_views(es: Seq<ChatEntry>) -> Seq<(Seq<char>, Seq<char>)> {
    es.map_values(|e: ChatEntry| (e.role@, e.content@))
}

/// The transcript of a log's records: the first session-meta record, and the
/// messages whose text is not blank, in order.
pub fn chat_entries(records: Vec<RecordItem>) -> (r: (Option<MetaRecord>, Vec<ChatEntry>))
    ensures
        entry_views(r.1@) == entries_of(records@),
        first_meta_record(records@, 0) < 0 ==> r.0 is None,
        first_meta_record(records@, 0) >= 0 ==> r.0 == Some(
            records@[first_meta_record(records@, 0)]->SessionMeta_0,
        ),
{
    let ghost all = records@;
    let mut meta: Option<MetaRecord> = None;
    let mut entries: Vec<ChatEntry> = Vec::new();
    let mut records = records;
    let ghost mut done: int = 0;
    while records.len() > 0
        invariant
            0 <= done <= all.len(),
            records@ == all.subrange(done, all.len() as int),
            entry_views(entries@) + entries_of(records@) == entries_of(all),
            meta is None ==> first_meta_record(all, 0) == first_meta_record(all, done),
            meta is Some ==> first_meta_record(all, 0) >= 0 && meta == Some(
                all[first_meta_record(all, 0)]->SessionMeta_0,
            ),
        decreases records@.len(),
    {
        let ghost rest = records@;
        let item = records.remove(0);
        proof {
            assert(rest.drop_first() == records@);
            assert(entries_of(rest) == entry_of(item) + entries_of(records@));
        }
        let ghost before = entries@;
        match item {
            RecordItem::SessionMeta(m) => {
                if meta.is_none() {
                    meta = Some(m);
                }
            },
            RecordItem::Message { role, content } => {
                let text = flatten_content(&content);
                if trim(text.as_str()).unicode_len() > 0 {
                    entries.push(ChatEntry { role, content: text });
                }
            },
            _ => {},
        }
        proof {
            assert(entry_views(entries@) =~= entry_views(before) + entry_of(all[done]));
            assert(entry_views(before) + (entry_of(all[done]) + entries_of(records@)) =~= (
            entry_views(before) + entry_of(all[done])) + entries_of(records@));
            done = done + 1;
            assert(records@ =~= all.subrange(done, all.len() as int));
        }
    }
    assert(entry_views(entries@) =~= entries_of(all));
    (meta, entries)
}

/// The header of a transcript: the session's id, start, directory and provider.
pub open spec fn header_of(meta: Option<MetaRecord>) -> Seq<char> {
    match meta {
        Some(m) => "# Session "@ + m.id@ + "\n\n- started: "@ + m.timestamp@ + "\n- cwd: "@ + m.cwd@
            + "\n"@ + (match m.provider {
            Some(p) => "- provider: "@ + p@ + "\n"@,
            None => Seq::empty(),
        }) + "\n"@,
        None => Seq::empty(),
    }
}

/// The body of a transcript: each non-blank entry as its role upper-cased in
/// bold, then its trimmed text.
pub open spec fn body_of(es: Seq<ChatEntry>) -> Seq<char>
    decreases es.len(),
{
    if es.len() == 0 {
        Seq::empty()
    } else {
        let e = es.last();
        body_of(es.drop_last()) + if trimmed(e.content@).len() > 0 {
            "**"@ + upper_of(e.role@) + "**\n"@ + trimmed(e.content@) + "\n\n"@
        } else {
            Seq::empty()
        }
    }
}

/// The markdown of a transcript: its header where there is a session-meta
/// record, then its body.
pub fn render_markdown(meta: &Option<MetaRecord>, entries: &Vec<ChatEntry>) -> (r: String)
    ensures
        r@ == header_of(*meta) + body_of(entries@),
{
    let mut buf = String::new();
    if let Some(m) = meta {
        append_chars(&mut buf, "# Session ");
        append_chars(&mut buf, m.id.as_str());
        append_chars(&mut buf, "\n\n- started: ");
        append_chars(&mut buf, m.timestamp.as_str());
        append_chars(&mut buf, "\n- cwd: ");
        append_chars(&mut buf, m.cwd.as_str());
        append_chars(&mut buf, "\n");
        if let Some(p) = &m.provider {
            append_chars(&mut buf, "- provider: ");
            append_chars(&mut buf, p.as_str());
            append_chars(&mut buf, "\n");
        }
        append_chars(&mut buf, "\n");
    }
    assert(buf@ =~= header_of(*meta));
    let mut i: usize = 0;
    while i < entries.len()
        invariant
            i <= entries@.len(),
            buf@ == header_of(*meta) + body_of(entries@.subrange(0, i as int)),
        decreases entries@.len() - i,
    {
        let ghost pre = entries@.subrange(0, i + 1);
        assert(pre.drop_last() =~= entries@.subrange(0, i as int));
        let ghost base = buf@;
        let body = trim(entries[i].content.as_str());
        if body.unicode_len() > 0 {
            append_chars(&mut buf, "**");
            append_chars(&mut buf, to_upper(entries[i].role.as_str()).as_str());
            append_chars(&mut buf, "**\n");
            append_chars(&mut buf, body.as_str());
            append_chars(&mut buf, "\n\n");
        }
        assert(buf@ =~= header_of(*meta) + body_of(pre));
        i = i + 1;
    }
    assert(entries@.subrange(0, entries@.len() as int) =~= entries@);
    buf
}

} // verus!
