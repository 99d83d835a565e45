//! The interactive browser as a state machine: modes, the filtered view of
//! the sessions, the selection, and what each key press does. Drawing, the
//! input poll and the actions it hands back (resume, jump, delete, export)
//! are the caller's.

use vstd::prelude::*;
use crate::summary::SessionSummary;
use crate::text::{
    chars_of, contains, has_infix, has_prefix, lower_seq, push_char, same_text, starts_with,
    to_lower, trim, trimmed,
};
use crate::key::slice_vec;

verus! {

/// Milliseconds within which a second `d` asks to delete.
pub const DELETE_SEQUENCE_TIMEOUT_MS: u64 = 600;

/// Milliseconds the input poll waits before the next redraw.
pub const POLL_TIMEOUT_MS: u64 = 200;

#[derive(Clone, Copy, Debug, PartialEq, Eq, Structural)]
pub enum KeyCode {
    Char(char),
    Enter,
    Esc,
    Backspace,
    Up,
    Down,
    Other,
}

/// A key press: its code, whether Control was held, and whether any other
/// modifier was.
#[derive(Clone, Copy, Debug, PartialEq, Eq, Structural)]
pub struct KeyPress {
    pub code: KeyCode,
    pub ctrl: bool,
    pub other_mods: bool,
}

#[derive(Clone, Copy, Debug, PartialEq, Eq, Structural)]
pub enum Mode {
    Normal,
    Search,
    Command,
    ActionPrompt,
    ConfirmDelete,
}

/// What the caller is to do after a key press.
#[derive(Debug)]
pub enum AppAction {
    Continue,
    Quit,
    Resume(SessionSummary),
    /// Change to `dir`, the session's recorded directory, and resume it there.
    Jump { dir: String, session: SessionSummary },
    /// Delete the file at this path, then report it with `deleted`.
    Delete(String),
    /// Export the session at `source` to `dest`, then report it with `exported`.
    Export { source: String, dest: String },
}

/// How the browser loop ended: resume a session, or change to its recorded
/// directory and resume it there.
#[derive(Debug)]
pub enum TuiOutcome {
    Resume(SessionSummary),
    Jump { dir: String, session: SessionSummary },
}

/// A session matches a query when the query is empty, or, up to ASCII case,
/// occurs in its id, its preview or its recorded directory.
pub open spec fn matches_query(q: Seq<char>, s: SessionSummary) -> bool {
    ||| q.len() == 0
    ||| has_infix(lower_seq(s.id@), lower_seq(q))
    ||| (s.preview is Some && has_infix(lower_seq(s.preview->0@), lower_seq(q)))
    ||| (s.cwd is Some && has_infix(lower_seq(s.cwd->0@), lower_seq(q)))
}

/// The positions, among the first `n` sessions, of those that match.
pub open spec fn filter_upto(q: Seq<char>, ss: Seq<SessionSummary>, n: int) -> Seq<usize>
    decreases n,
{
    if n <= 0 {
        Seq::empty()
    } else {
        filter_upto(q, ss, n - 1) + (if matches_query(q, ss[n - 1]) {
            seq![(n - 1) as usize]
        } else {
            Seq::empty()
        })
    }
}

pub open spec fn filter_of(q: Seq<char>, ss: Seq<SessionSummary>) -> Seq<usize> {
    filter_upto(q, ss, ss.len() as int)
}

/// A selection kept within `n` visible rows (0 where there are none).
pub open spec fn clamp(sel: usize, n: nat) -> usize {
    if n == 0 {
        0
    } else if sel >= n {
        (n - 1) as usize
    } else {
        sel
    }
}

/// The sessions whose path is not `p`, in order.
pub open spec fn without_path(ss: Seq<SessionSummary>, p: Seq<char>) -> Seq<SessionSummary>
    decreases ss.len(),
{
    if ss.len() == 0 {
        Seq::empty()
    } else {
        (if ss[0].path@ != p { seq![ss[0]] } else { Seq::empty() }) + without_path(ss.drop_first(), p)
    }
}

/// Whether a delete primed at `primed` is still armed at `now`.
pub open spec fn primer_armed(primed: Option<u64>, now: u64) -> bool {
    primed matches Some(p) && (now <= p || now - p <= DELETE_SEQUENCE_TIMEOUT_MS)
}

pub struct App {
    pub sessions: Vec<SessionSummary>,
    pub filtered: Vec<usize>,
    pub selected: usize,
    pub query: String,
    pub command: String,
    pub mode: Mode,
    pub delete_primed_at: Option<u64>,
    pub status: Option<String>,
}

impl App {
    /// The filtered view is that of the query, and the selection is in it.
    pub open spec fn wf(&self) -> bool {
        &&& self.filtered@ == filter_of(self.query@, self.sessions@)
        &&& (self.filtered@.len() == 0 ==> self.selected == 0)
        &&& (self.filtered@.len() > 0 ==> self.selected < self.filtered@.len())
    }

    /// The selected session's position in `sessions`, if a row is selected.
    pub open spec fn current(&self) -> Option<int> {
        if self.selected < self.filtered@.len() {
            Some(self.filtered@[self.selected as int] as int)
        } else {
            None
        }
    }

    /// A browser over `sessions`, in Normal mode, showing all of them.
    pub fn new(sessions: Vec<SessionSummary>) -> (r: App)
        ensures
            r.wf(),
            r.sessions@ == sessions@,
            r.query@.len() == 0,
            r.selected == 0,
            r.mode == Mode::Normal,
            r.delete_primed_at is None,
            r.status is None,
    {
        let mut app = App {
            sessions,
            filtered: Vec::new(),
            selected: 0,
            query: String::new(),
            command: String::new(),
            mode: Mode::Normal,
            delete_primed_at: None,
            status: None,
        };
        app.apply_filter();
        app
    }

    /// Recomputes the filtered view and keeps the selection within it.
    pub fn apply_filter(&mut self)
        ensures
            final(self).wf(),
            final(self).selected == clamp(old(self).selected, final(self).filtered@.len()),
            final(self).sessions == old(self).sessions,
            final(self).query == old(self).query,
            final(self).command == old(self).command,
            final(self).mode == old(self).mode,
            final(self).delete_primed_at == old(self).delete_primed_at,
            final(self).status == old(self).status,
    {
        let mut f: Vec<usize> = Vec::new();
        let mut i: usize = 0;
        while i < self.sessions.len()
            invariant
                i <= self.sessions@.len(),
                f@ == filter_upto(self.query@, self.sessions@, i as int),
            decreases self.sessions@.len() - i,
        {
            if matches(&self.query, &self.sessions[i]) {
                f.push(i);
            } else {
                assert(f@ =~= filter_upto(self.query@, self.sessions@, i + 1));
            }
            i = i + 1;
        }
        self.filtered = f;
        if self.filtered.len() == 0 {
            self.selected = 0;
        } else if self.selected >= self.filtered.len() {
            self.selected = self.filtered.len() - 1;
        }
    }

    pub fn move_selection_up(&mut self)
        requires
            old(self).wf(),
        ensures
            final(self).wf(),
            final(self).selected == (if old(self).selected > 0 {
                (old(self).selected - 1) as usize
            } else {
                0
            }),
            final(self).filtered == old(self).filtered,
            final(self).sessions == old(self).sessions,
            final(self).query == old(self).query,
            final(self).mode == old(self).mode,
            final(self).delete_primed_at == old(self).delete_primed_at,
            final(self).status == old(self).status,
            final(self).command == old(self).command,
    {
        if self.filtered.len() == 0 {
            return;
        }
        if self.selected > 0 {
            self.selected = self.selected - 1;
        }
    }

    pub fn move_selection_down(&mut self)
        requires
            old(self).wf(),
        ensures
            final(self).wf(),
            final(self).selected == (if old(self).selected + 1 < old(self).filtered@.len() {
                (old(self).selected + 1) as usize
            } else {
                old(self).selected
            }),
            final(self).filtered == old(self).filtered,
            final(self).sessions == old(self).sessions,
            final(self).query == old(self).query,
            final(self).mode == old(self).mode,
            final(self).delete_primed_at == old(self).delete_primed_at,
            final(self).status == old(self).status,
            final(self).command == old(self).command,
    {
        if self.filtered.len() == 0 {
            return;
        }
        if self.selected + 1 < self.filtered.len() {
            self.selected = self.selected + 1;
        }
    }

    /// The position in `sessions` of the selected session.
    pub fn current_index(&self) -> (r: Option<usize>)
        requires
            self.wf(),
        ensures
            r matches Some(i) ==> self.current() == Some(i as int),
            r is None ==> self.current() is None,
            r matches Some(i) ==> i < self.sessions@.len(),
    {
        if self.selected < self.filtered.len() {
            let i = self.filtered[self.selected];
            proof {
                lemma_filter_in_range(self.query@, self.sessions@, self.sessions@.len() as int);
            }
            Some(i)
        } else {
            None
        }
    }
}

proof fn lemma_filter_in_range(q: Seq<char>, ss: Seq<SessionSummary>, n: int)
    requires
        n <= ss.len(),
    ensures
        forall|j: int| 0 <= j < filter_upto(q, ss, n).len() ==> #[trigger] filter_upto(q, ss, n)[j] < n,
    decreases n,
{
    if n > 0 {
        lemma_filter_in_range(q, ss, n - 1);
        let f0 = filter_upto(q, ss, n - 1);
        assert forall|j: int| 0 <= j < filter_upto(q, ss, n).len() implies #[trigger] filter_upto(
            q,
            ss,
            n,
        )[j] < n by {
            if j < f0.len() {
                assert(filter_upto(q, ss, n)[j] == f0[j]);
            }
        }
    }
}

/// Whether a session matches a query.
pub fn matches(q: &String, s: &SessionSummary) -> (r: bool)
    ensures
        r == matches_query(q@, *s),
{
    if q.unicode_len() == 0 {
        return true;
    }
    let needle = to_lower(q.as_str());
    if contains(to_lower(s.id.as_str()).as_str(), needle.as_str()) {
        return true;
    }
    let in_preview = match &s.preview {
        Some(p) => contains(to_lower(p.as_str()).as_str(), needle.as_str()),
        None => false,
    };
    if in_preview {
        return true;
    }
    match &s.cwd {
        Some(c) => contains(to_lower(c.as_str()).as_str(), needle.as_str()),
        None => false,
    }
}


/// The characters of `s` from `from` on.
fn rest_of(s: &str, from: usize) -> (r: String)
    requires
        from <= s@.len(),
    ensures
        r@ == s@.subrange(from as int, s@.len() as int),
{
    let v = chars_of(s);
    let t = slice_vec(&v, from, v.len());
    crate::text::string_of(&t)
}

/// Removes the last character of a string, if any.
fn pop_char(s: &mut String)
    ensures
        old(s)@.len() == 0 ==> final(s)@ == old(s)@,
        old(s)@.len() > 0 ==> final(s)@ == old(s)@.drop_last(),
{
    let v = chars_of(s.as_str());
    if v.len() > 0 {
        let t = slice_vec(&v, 0, v.len() - 1);
        *s = crate::text::string_of(&t);
    }
}

/// Up, or `k`.
pub open spec fn is_up(key: KeyPress) -> bool {
    key.code == KeyCode::Up || key.code == KeyCode::Char('k')
}

/// Down, or `j`.
pub open spec fn is_down(key: KeyPress) -> bool {
    key.code == KeyCode::Down || key.code == KeyCode::Char('j')
}

pub open spec fn up_from(sel: usize) -> usize {
    if sel > 0 { (sel - 1) as usize } else { 0 }
}

pub open spec fn down_from(sel: usize, n: nat) -> usize {
    if sel + 1 < n { (sel + 1) as usize } else { sel }
}

/// The hint shown after a first `d`.
pub open spec fn delete_hint() -> Seq<char> {
    "Press d again to delete the selected session"@
}

impl App {
    /// The state with its status line cleared, as every key press starts.
    pub open spec fn cleared(self) -> App {
        App { status: None, ..self }
    }

    /// The list, the view, the selection, both input lines and the status are
    /// as they were.
    pub open spec fn keeps_all(self, new: App) -> bool {
        &&& new.sessions == self.sessions
        &&& new.filtered == self.filtered
        &&& new.selected == self.selected
        &&& new.query == self.query
        &&& new.command == self.command
        &&& new.status == self.status
    }

    /// Everything but the selection is as it was, and the selection is `sel`.
    pub open spec fn moves_to(self, new: App, sel: usize) -> bool {
        &&& new.sessions == self.sessions
        &&& new.filtered == self.filtered
        &&& new.selected == sel
        &&& new.query == self.query
        &&& new.command == self.command
        &&& new.status == self.status
    }

    /// The query is `q` and the view was recomputed for it; the list, the
    /// command line and the status are as they were.
    pub open spec fn requeried(self, new: App, q: Seq<char>) -> bool {
        &&& new.sessions == self.sessions
        &&& new.query@ == q
        &&& new.selected == clamp(self.selected, new.filtered@.len())
        &&& new.command == self.command
        &&& new.status == self.status
    }

    /// What a key press does in Normal mode. Every key but `d` disarms the
    /// delete primer.
    pub open spec fn normal_effect(self, new: App, key: KeyPress, now: u64, act: AppAction) -> bool {
        &&& (key.code == KeyCode::Char('q') || key.code == KeyCode::Esc) ==> act is Quit
        &&& !(key.code == KeyCode::Char('q') || key.code == KeyCode::Esc) ==> act is Continue
        &&& key.code != KeyCode::Char('d') ==> new.delete_primed_at is None
        &&& (key.code == KeyCode::Char('q') || key.code == KeyCode::Esc) ==> self.keeps_all(new)
            && new.mode == self.mode
        &&& is_up(key) ==> self.moves_to(new, up_from(self.selected)) && new.mode == Mode::Normal
        &&& is_down(key) ==> self.moves_to(new, down_from(self.selected, self.filtered@.len()))
            && new.mode == Mode::Normal
        &&& key.code == KeyCode::Char('/') ==> self.requeried(new, Seq::empty()) && new.mode
            == Mode::Search
        &&& key.code == KeyCode::Char(':') ==> {
            &&& new.mode == Mode::Command
            &&& new.command@.len() == 0
            &&& new.sessions == self.sessions
            &&& new.filtered == self.filtered
            &&& new.selected == self.selected
            &&& new.query == self.query
            &&& new.status == self.status
        }
        &&& key.code == KeyCode::Enter ==> self.keeps_all(new) && new.mode == (if self.current() is Some {
            Mode::ActionPrompt
        } else {
            Mode::Normal
        })
        &&& key.code == KeyCode::Char('d') && primer_armed(self.delete_primed_at, now) ==> {
            &&& self.keeps_all(new)
            &&& new.delete_primed_at is None
            &&& new.mode == (if self.current() is Some { Mode::ConfirmDelete } else { Mode::Normal })
        }
        &&& key.code == KeyCode::Char('d') && !primer_armed(self.delete_primed_at, now) ==> {
            &&& new.sessions == self.sessions
            &&& new.filtered == self.filtered
            &&& new.selected == self.selected
            &&& new.query == self.query
            &&& new.command == self.command
            &&& new.status matches Some(t) && t@ == delete_hint()
            &&& new.delete_primed_at == Some(now)
            &&& new.mode == Mode::Normal
        }
        &&& !(key.code == KeyCode::Char('q') || key.code == KeyCode::Esc || is_up(key) || is_down(key)
            || key.code == KeyCode::Char('/') || key.code == KeyCode::Char(':') || key.code
            == KeyCode::Enter || key.code == KeyCode::Char('d')) ==> self.keeps_all(new) && new.mode
            == Mode::Normal
    }

    /// What a key press does in Search mode: every character typed without
    /// Control extends the query, Backspace shortens it, and the view follows.
    pub open spec fn search_effect(self, new: App, key: KeyPress, act: AppAction) -> bool {
        &&& act is Continue
        &&& new.delete_primed_at == self.delete_primed_at
        &&& key.code == KeyCode::Enter ==> self.keeps_all(new) && new.mode == Mode::Normal
        &&& key.code == KeyCode::Esc ==> {
            &&& new.mode == Mode::Normal
            &&& new.sessions == self.sessions
            &&& new.filtered@ == self.filtered@
            &&& new.selected == self.selected
            &&& new.query == self.query
            &&& new.command == self.command
            &&& new.status == self.status
        }
        &&& key.code == KeyCode::Backspace ==> new.mode == Mode::Search && self.requeried(
            new,
            if self.query@.len() > 0 { self.query@.drop_last() } else { self.query@ },
        )
        &&& (key.code is Char && !key.ctrl) ==> new.mode == Mode::Search && self.requeried(
            new,
            self.query@.push(key.code->Char_0),
        )
        &&& (key.code is Char && key.ctrl) ==> self.keeps_all(new) && new.mode == Mode::Search
        &&& key.code == KeyCode::Up ==> self.moves_to(new, up_from(self.selected)) && new.mode
            == Mode::Search
        &&& key.code == KeyCode::Down ==> self.moves_to(
            new,
            down_from(self.selected, self.filtered@.len()),
        ) && new.mode == Mode::Search
        &&& key.code == KeyCode::Other ==> self.keeps_all(new) && new.mode == Mode::Search
    }

    /// What the command line `cmd` (already trimmed) does when entered:
    /// `export <path>` asks to export the selected session to the trimmed path;
    /// a bare `export` sets the usage line; any other text is unknown.
    pub open spec fn command_outcome(self, cmd: Seq<char>, new: App, act: AppAction) -> bool {
        if cmd.len() == 0 {
            act is Continue && new.status == self.status
        } else if has_prefix(cmd, "export"@) {
            let p = trimmed(cmd.subrange("export"@.len() as int, cmd.len() as int));
            if p.len() == 0 {
                act is Continue && (new.status matches Some(t) && t@ == "usage: :export <file_path>"@)
            } else if self.current() is Some {
                &&& act matches AppAction::Export { source, dest } && source@
                    == self.sessions@[self.current()->0].path@ && dest@ == p
                &&& new.status == self.status
            } else {
                act is Continue && new.status == self.status
            }
        } else {
            act is Continue && (new.status matches Some(t) && t@ == "Unknown command: "@ + cmd)
        }
    }

    /// What a key press does while a `:` command is typed.
    pub open spec fn command_effect(self, new: App, key: KeyPress, act: AppAction) -> bool {
        &&& new.sessions == self.sessions
        &&& new.filtered == self.filtered
        &&& new.selected == self.selected
        &&& new.query == self.query
        &&& new.delete_primed_at == self.delete_primed_at
        &&& key.code != KeyCode::Enter ==> act is Continue
        &&& key.code != KeyCode::Enter ==> new.status == self.status
        &&& key.code == KeyCode::Esc ==> new.mode == Mode::Normal && new.command@.len() == 0
        &&& key.code == KeyCode::Enter ==> {
            &&& new.mode == Mode::Normal
            &&& new.command@.len() == 0
            &&& self.command_outcome(trimmed(self.command@), new, act)
        }
        &&& key.code == KeyCode::Backspace ==> new.mode == Mode::Command && new.command@ == (if self.command@.len()
            > 0 {
            self.command@.drop_last()
        } else {
            self.command@
        })
        &&& (key.code is Char && !key.ctrl) ==> new.mode == Mode::Command && new.command@
            == self.command@.push(key.code->Char_0)
        &&& !(key.code == KeyCode::Esc || key.code == KeyCode::Enter || key.code == KeyCode::Backspace
            || (key.code is Char && !key.ctrl)) ==> new.command == self.command && new.mode == self.mode
    }

    /// What a key press does in the action prompt over the selected session.
    pub open spec fn prompt_effect(self, new: App, key: KeyPress, act: AppAction) -> bool {
        &&& new.delete_primed_at == self.delete_primed_at
        &&& (key.code == KeyCode::Char('n') || key.code == KeyCode::Esc) ==> act is Continue
            && self.keeps_all(new) && new.mode == Mode::Normal
        &&& key.code == KeyCode::Char('r') ==> match self.current() {
            Some(i) => (act matches AppAction::Resume(s) && s == self.sessions@[i]) && self.keeps_all(new)
                && new.mode == Mode::Normal,
            None => act is Continue && self.keeps_all(new) && new.mode == self.mode,
        }
        &&& key.code == KeyCode::Char('j') ==> match self.current() {
            Some(i) => match self.sessions@[i].cwd {
                Some(c) => (act matches AppAction::Jump { dir, session } && dir@ == c@ && session
                    == self.sessions@[i]) && self.keeps_all(new) && new.mode == Mode::Normal,
                None => {
                    &&& act is Continue
                    &&& new.mode == Mode::Normal
                    &&& new.status matches Some(t) && t@ == "No CWD recorded for this session"@
                    &&& new.sessions == self.sessions
                    &&& new.filtered == self.filtered
                    &&& new.selected == self.selected
                    &&& new.query == self.query
                    &&& new.command == self.command
                },
            },
            None => act is Continue && self.keeps_all(new) && new.mode == self.mode,
        }
        &&& !(key.code == KeyCode::Char('n') || key.code == KeyCode::Esc || key.code == KeyCode::Char('r')
            || key.code == KeyCode::Char('j')) ==> act is Continue && self.keeps_all(new) && new.mode
            == self.mode
    }

    /// What a key press does while a deletion waits for confirmation: `y`
    /// asks to delete the selected session's file; nothing else changes.
    pub open spec fn confirm_effect(self, new: App, key: KeyPress, act: AppAction) -> bool {
        &&& self.keeps_all(new)
        &&& new.delete_primed_at == self.delete_primed_at
        &&& key.code == KeyCode::Char('y') && self.current() is Some ==> (act matches AppAction::Delete(p)
            && p@ == self.sessions@[self.current()->0].path@)
        &&& !(key.code == KeyCode::Char('y') && self.current() is Some) ==> act is Continue
        &&& (key.code == KeyCode::Char('y') || key.code == KeyCode::Char('n') || key.code
            == KeyCode::Esc) ==> new.mode == Mode::Normal
        &&& !(key.code == KeyCode::Char('y') || key.code == KeyCode::Char('n') || key.code
            == KeyCode::Esc) ==> new.mode == self.mode
    }
}

impl App {
    /// Handles one key press at time `now` (milliseconds on a monotonic clock).
    /// Control-C quits from any mode; every other key first clears the status
    /// line, then does what the current mode says.
    pub fn handle_key(&mut self, key: KeyPress, now: u64) -> (act: AppAction)
        requires
            old(self).wf(),
        ensures
            final(self).wf(),
            key.ctrl && key.code == KeyCode::Char('c') ==> {
                &&& act is Quit
                &&& old(self).cleared().keeps_all(*final(self))
                &&& final(self).mode == old(self).mode
                &&& final(self).delete_primed_at == old(self).delete_primed_at
            },
            !(key.ctrl && key.code == KeyCode::Char('c')) ==> match old(self).mode {
                Mode::Normal => old(self).cleared().normal_effect(*final(self), key, now, act),
                Mode::Search => old(self).cleared().search_effect(*final(self), key, act),
                Mode::Command => old(self).cleared().command_effect(*final(self), key, act),
                Mode::ActionPrompt => old(self).cleared().prompt_effect(*final(self), key, act),
                Mode::ConfirmDelete => old(self).cleared().confirm_effect(*final(self), key, act),
            },
    {
        self.status = None;
        if key.ctrl && key.code == KeyCode::Char('c') {
            return AppAction::Quit;
        }
        match self.mode {
            Mode::Normal => self.handle_normal_mode(key, now),
            Mode::Search => self.handle_search_mode(key),
            Mode::Command => self.handle_command_mode(key),
            Mode::ActionPrompt => self.handle_action_prompt(key),
            Mode::ConfirmDelete => self.handle_confirm_mode(key),
        }
    }

    fn handle_normal_mode(&mut self, key: KeyPress, now: u64) -> (act: AppAction)
        requires
            old(self).wf(),
            old(self).mode == Mode::Normal,
        ensures
            final(self).wf(),
            old(self).normal_effect(*final(self), key, now, act),
    {
        if key.code != KeyCode::Char('d') {
            self.delete_primed_at = None;
        }
        match key.code {
            KeyCode::Char('q') | KeyCode::Esc => AppAction::Quit,
            KeyCode::Up | KeyCode::Char('k') => {
                self.move_selection_up();
                AppAction::Continue
            },
            KeyCode::Down | KeyCode::Char('j') => {
                self.move_selection_down();
                AppAction::Continue
            },
            KeyCode::Char('/') => {
                self.mode = Mode::Search;
                self.query = String::new();
                self.apply_filter();
                AppAction::Continue
            },
            KeyCode::Char(':') => {
                self.mode = Mode::Command;
                self.command = String::new();
                AppAction::Continue
            },
            KeyCode::Enter => {
                if self.current_index().is_some() {
                    self.mode = Mode::ActionPrompt;
                }
                AppAction::Continue
            },
            KeyCode::Char('d') => {
                if let Some(prime) = self.delete_primed_at {
                    if now <= prime || now - prime <= DELETE_SEQUENCE_TIMEOUT_MS {
                        if self.current_index().is_some() {
                            self.mode = Mode::ConfirmDelete;
                        }
                        self.delete_primed_at = None;
                        return AppAction::Continue;
                    }
                }
                self.delete_primed_at = Some(now);
                self.status = Some(String::from_str("Press d again to delete the selected session"));
                AppAction::Continue
            },
            _ => AppAction::Continue,
        }
    }

    fn handle_search_mode(&mut self, key: KeyPress) -> (act: AppAction)
        requires
            old(self).wf(),
            old(self).mode == Mode::Search,
        ensures
            final(self).wf(),
            old(self).search_effect(*final(self), key, act),
    {
        match key.code {
            KeyCode::Esc => {
                self.mode = Mode::Normal;
                if self.query.unicode_len() == 0 {
                    self.apply_filter();
                }
            },
            KeyCode::Enter => {
                self.mode = Mode::Normal;
            },
            KeyCode::Backspace => {
                pop_char(&mut self.query);
                self.apply_filter();
            },
            KeyCode::Char(c) => {
                if !key.ctrl {
                    push_char(&mut self.query, c);
                    self.apply_filter();
                }
            },
            KeyCode::Down => self.move_selection_down(),
            KeyCode::Up => self.move_selection_up(),
            _ => {},
        }
        AppAction::Continue
    }

    fn handle_action_prompt(&mut self, key: KeyPress) -> (act: AppAction)
        requires
            old(self).wf(),
            old(self).mode == Mode::ActionPrompt,
        ensures
            final(self).wf(),
            old(self).prompt_effect(*final(self), key, act),
    {
        match key.code {
            KeyCode::Esc | KeyCode::Char('n') => {
                self.mode = Mode::Normal;
            },
            KeyCode::Char('r') => {
                if let Some(i) = self.current_index() {
                    self.mode = Mode::Normal;
                    let s = self.sessions[i].duplicate();
                    return AppAction::Resume(s);
                }
            },
            KeyCode::Char('j') => {
                if let Some(i) = self.current_index() {
                    if let Some(cwd) = &self.sessions[i].cwd {
                        let dir = cwd.clone();
                        let session = self.sessions[i].duplicate();
                        self.mode = Mode::Normal;
                        return AppAction::Jump { dir, session };
                    }
                    self.status = Some(String::from_str("No CWD recorded for this session"));
                    self.mode = Mode::Normal;
                }
            },
            _ => {},
        }
        AppAction::Continue
    }

    fn handle_confirm_mode(&mut self, key: KeyPress) -> (act: AppAction)
        requires
            old(self).wf(),
            old(self).mode == Mode::ConfirmDelete,
        ensures
            final(self).wf(),
            old(self).confirm_effect(*final(self), key, act),
    {
        match key.code {
            KeyCode::Char('y') => {
                self.mode = Mode::Normal;
                if let Some(i) = self.current_index() {
                    return AppAction::Delete(self.sessions[i].path.clone());
                }
                AppAction::Continue
            },
            KeyCode::Char('n') | KeyCode::Esc => {
                self.mode = Mode::Normal;
                AppAction::Continue
            },
            _ => AppAction::Continue,
        }
    }

    fn handle_command_mode(&mut self, key: KeyPress) -> (act: AppAction)
        requires
            old(self).wf(),
            old(self).mode == Mode::Command,
        ensures
            final(self).wf(),
            old(self).command_effect(*final(self), key, act),
    {
        match key.code {
            KeyCode::Esc => {
                self.command = String::new();
                self.mode = Mode::Normal;
                AppAction::Continue
            },
            KeyCode::Enter => {
                let command = trim(self.command.as_str());
                let act = self.execute_command(&command);
                self.command = String::new();
                self.mode = Mode::Normal;
                act
            },
            KeyCode::Backspace => {
                pop_char(&mut self.command);
                AppAction::Continue
            },
            KeyCode::Char(c) => {
                if !key.ctrl {
                    push_char(&mut self.command, c);
                }
                AppAction::Continue
            },
            _ => AppAction::Continue,
        }
    }

    /// Runs a `:` command line (already trimmed).
    fn execute_command(&mut self, command: &String) -> (act: AppAction)
        requires
            old(self).wf(),
        ensures
            final(self).wf(),
            old(self).command_outcome(command@, *final(self), act),
            final(self).sessions == old(self).sessions,
            final(self).filtered == old(self).filtered,
            final(self).selected == old(self).selected,
            final(self).query == old(self).query,
            final(self).command == old(self).command,
            final(self).mode == old(self).mode,
            final(self).delete_primed_at == old(self).delete_primed_at,
    {
        if command.unicode_len() == 0 {
            return AppAction::Continue;
        }
        if starts_with(command.as_str(), "export") {
            proof {
                reveal_strlit("export");
            }
            let rest = rest_of(command.as_str(), 6);
            let path = trim(rest.as_str());
            if path.unicode_len() == 0 {
                self.status = Some(String::from_str("usage: :export <file_path>"));
            } else if let Some(i) = self.current_index() {
                return AppAction::Export { source: self.sessions[i].path.clone(), dest: path };
            }
            AppAction::Continue
        } else {
            let mut msg = String::from_str("Unknown command: ");
            msg.append(command.as_str());
            self.status = Some(msg);
            AppAction::Continue
        }
    }

    /// Reports that deleting a file failed: the status says why, nothing else
    /// changes.
    pub fn delete_failed(&mut self, message: &str)
        requires
            old(self).wf(),
        ensures
            final(self).wf(),
            final(self).status matches Some(t) && t@ == "Delete failed: "@ + message@,
            final(self).sessions == old(self).sessions,
            final(self).filtered == old(self).filtered,
            final(self).selected == old(self).selected,
            final(self).query == old(self).query,
            final(self).command == old(self).command,
            final(self).mode == old(self).mode,
            final(self).delete_primed_at == old(self).delete_primed_at,
    {
        let mut msg = String::from_str("Delete failed: ");
        msg.append(message);
        self.status = Some(msg);
    }

    /// Reports that the file at `path` was deleted: its sessions leave the
    /// list, the view is recomputed and the status says so.
    pub fn deleted(&mut self, path: &str, id: &str)
        requires
            old(self).wf(),
        ensures
            final(self).wf(),
            final(self).sessions@ == without_path(old(self).sessions@, path@),
            final(self).mode == Mode::Normal,
            final(self).query == old(self).query,
            final(self).status matches Some(s) && s@ == "Deleted session "@ + id@,
    {
        let mut rest: Vec<SessionSummary> = Vec::new();
        std::mem::swap(&mut rest, &mut self.sessions);
        let ghost all = rest@;
        let mut kept: Vec<SessionSummary> = Vec::new();
        while rest.len() > 0
            invariant
                all.subrange(0, rest@.len() as int) == rest@,
                rest@.len() <= all.len(),
                kept@ == without_path(all.subrange(rest@.len() as int, all.len() as int), path@),
            decreases rest@.len(),
        {
            let ghost n = rest@.len();
            let s = rest.pop().unwrap();
            let ghost tail = all.subrange(n - 1, all.len() as int);
            assert(tail.drop_first() =~= all.subrange(n as int, all.len() as int));
            assert(tail[0] == s);
            if !same_text(s.path.as_str(), path) {
                kept.insert(0, s);
                assert(kept@ =~= without_path(tail, path@));
            } else {
                assert(kept@ =~= without_path(tail, path@));
            }
            assert(all.subrange(0, rest@.len() as int) =~= rest@);
        }
        assert(all.subrange(0, all.len() as int) =~= all);
        self.sessions = kept;
        self.apply_filter();
        let mut msg = String::from_str("Deleted session ");
        msg.append(id);
        self.status = Some(msg);
        self.mode = Mode::Normal;
    }

    /// Reports how an export of session `id` to `dest` went.
    pub fn exported(&mut self, id: &str, dest: &str, failure: Option<String>)
        requires
            old(self).wf(),
        ensures
            final(self).wf(),
            final(self).sessions == old(self).sessions,
            final(self).mode == old(self).mode,
            final(self).status matches Some(s) && s@ == match failure {
                None => "Exported "@ + id@ + " to "@ + dest@,
                Some(e) => "Export failed: "@ + e@,
            },
    {
        let msg = match failure {
            None => {
                let mut m = String::from_str("Exported ");
                m.append(id);
                m.append(" to ");
                m.append(dest);
                m
            },
            Some(e) => {
                let mut m = String::from_str("Export failed: ");
                m.append(e.as_str());
                m
            },
        };
        self.status = Some(msg);
    }
}

} // verus!
