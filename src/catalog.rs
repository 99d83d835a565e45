//! The paginated catalog: a scan over log files in descending key order that
//! keeps the sessions passing the filters, up to a limit, and hands back a
//! token to resume after the last one kept.
//!
//! The scan is driven from outside, one file at a time: `begin` says whether
//! a file needs reading, `offer` takes what reading it produced, and `finish`
//! yields the page.

use vstd::prelude::*;
use crate::key::{
    lemma_key_order, SessionKey, key_lt, cursor_text, decode_cursor, encode_cursor, cursor_of,
    key_less,
};
use crate::summary::{Head, SessionSummary, is_listed};
use crate::text::{lower_seq, chars_of, to_lower_char};
use crate::shard::LogFile;
use crate::stamp::Stamp;
use crate::paths::same_path;

verus! {

/// The number of files after which a scan gives up, whatever it has found.
pub const SCAN_CAP: usize = 10000;

/// What a listing asks for.
#[derive(Clone, Debug)]
pub struct ListOptions {
    pub limit: usize,
    pub cursor: Option<String>,
    pub providers: Vec<String>,
    pub show_all: bool,
    pub cwd_filter: Option<String>,
}

impl ListOptions {
    /// Twenty sessions from the start, every provider, every directory.
    pub fn default() -> (r: ListOptions)
        ensures
            r.limit == 20,
            r.cursor is None,
            r.providers@.len() == 0,
            !r.show_all,
            r.cwd_filter is None,
    {
        ListOptions {
            limit: 20,
            cursor: None,
            providers: Vec::new(),
            show_all: false,
            cwd_filter: None,
        }
    }
}

/// One page of a listing.
#[derive(Clone, Debug)]
pub struct SessionList {
    pub sessions: Vec<SessionSummary>,
    pub next_cursor: Option<String>,
    pub scanned_files: usize,
    pub reached_scan_cap: bool,
}

/// Failures of the one-shot lookups.
#[derive(Clone, Debug, PartialEq, Eq)]
pub enum SessionError {
    NotFound,
    Io(String),
}

/// A file of the scan as the rules see it: its key, and whether its session
/// is kept (it summarizes, and passes the directory and provider filters).
pub struct Candidate {
    pub key: SessionKey,
    pub kept: bool,
}

/// The state of a scan.
pub struct ScanState {
    pub passed: bool,
    pub rows: Seq<SessionKey>,
    pub scanned: nat,
    pub cap_hit: bool,
    pub more: bool,
    pub done: bool,
}

pub open spec fn initial_state(anchor: Option<SessionKey>) -> ScanState {
    ScanState {
        passed: anchor is None,
        rows: Seq::empty(),
        scanned: 0,
        cap_hit: false,
        more: false,
        done: false,
    }
}

/// The first half of a step: count the file, stop at the cap, skip files not
/// yet below the anchor. The flag says whether the file is to be read.
pub open spec fn begin_step(lim: nat, anchor: Option<SessionKey>, st: ScanState, k: SessionKey) -> (
    ScanState,
    bool,
) {
    if st.done {
        (st, false)
    } else if st.scanned + 1 >= SCAN_CAP && st.rows.len() < lim {
        (ScanState { scanned: st.scanned + 1, cap_hit: true, more: true, done: true, ..st }, false)
    } else if !st.passed && !key_lt(k, anchor->0) {
        (ScanState { scanned: st.scanned + 1, ..st }, false)
    } else {
        (ScanState { scanned: st.scanned + 1, passed: true, ..st }, true)
    }
}

/// The second half of a step: keep the file's session if it passed, and stop
/// once the limit is reached.
pub open spec fn offer_step(lim: nat, st: ScanState, k: SessionKey, kept: bool) -> ScanState {
    if kept {
        let rows = st.rows.push(k);
        ScanState { rows, more: rows.len() == lim, done: rows.len() == lim, ..st }
    } else {
        st
    }
}

pub open spec fn step(lim: nat, anchor: Option<SessionKey>, st: ScanState, c: Candidate) -> ScanState {
    let (s1, read) = begin_step(lim, anchor, st, c.key);
    if read {
        offer_step(lim, s1, c.key, c.kept)
    } else {
        s1
    }
}

/// The state after scanning `cs` in order from `st`.
pub open spec fn run_from(
    lim: nat,
    anchor: Option<SessionKey>,
    st: ScanState,
    cs: Seq<Candidate>,
) -> ScanState
    decreases cs.len(),
{
    if cs.len() == 0 {
        st
    } else {
        run_from(lim, anchor, step(lim, anchor, st, cs[0]), cs.drop_first())
    }
}

/// The outcome of a whole scan.
pub open spec fn scan(lim: nat, anchor: Option<SessionKey>, cs: Seq<Candidate>) -> ScanState {
    run_from(lim, anchor, initial_state(anchor), cs)
}

/// Keys strictly descending.
pub open spec fn strictly_descending(ks: Seq<SessionKey>) -> bool {
    forall|i: int, j: int| 0 <= i < j < ks.len() ==> key_lt(ks[j], ks[i])
}

pub open spec fn keys_of(cs: Seq<Candidate>) -> Seq<SessionKey> {
    cs.map_values(|c: Candidate| c.key)
}

/// The keys of the kept candidates, in order.
pub open spec fn kept_keys(cs: Seq<Candidate>) -> Seq<SessionKey>
    decreases cs.len(),
{
    if cs.len() == 0 {
        Seq::empty()
    } else {
        (if cs[0].kept { seq![cs[0].key] } else { Seq::empty() }) + kept_keys(cs.drop_first())
    }
}

/// The candidates from the first one that sorts below `a` onward (all of them
/// where there is no anchor).
pub open spec fn from_below(cs: Seq<Candidate>, a: Option<SessionKey>) -> Seq<Candidate>
    decreases cs.len(),
{
    if a is None || cs.len() == 0 {
        cs
    } else if key_lt(cs[0].key, a->0) {
        cs
    } else {
        from_below(cs.drop_first(), a)
    }
}

pub open spec fn take(s: Seq<SessionKey>, n: nat) -> Seq<SessionKey> {
    if s.len() <= n {
        s
    } else {
        s.subrange(0, n as int)
    }
}

/// Whether a provider filter admits a provider: no filter, or a name equal to
/// it up to ASCII case (a missing provider counts as the empty name).
pub open spec fn provider_admitted(filter: Seq<Seq<char>>, provider: Option<Seq<char>>) -> bool {
    let p = match provider {
        Some(p) => p,
        None => Seq::empty(),
    };
    filter.len() == 0 || exists|i: int|
        0 <= i < filter.len() && lower_seq(#[trigger] filter[i]) == lower_seq(p)
}

pub open spec fn opt_view(o: Option<String>) -> Option<Seq<char>> {
    match o {
        Some(s) => Some(s@),
        None => None,
    }
}

/// The views of a list of strings.
pub open spec fn views(v: Seq<String>) -> Seq<Seq<char>> {
    v.map_values(|s: String| s@)
}

/// Whether a scan keeps a session. An explicit directory filter narrows the
/// scope to sessions recorded there, whatever `show_all` says (`in_scope` says
/// whether the session's recorded directory is the filter directory; one with
/// none recorded is never in scope); without one, every directory is listed
/// only where `show_all` asks for it.
pub open spec fn keeps(
    show_all: bool,
    cwd_filter: Option<Seq<char>>,
    providers: Seq<Seq<char>>,
    s: Option<SessionSummary>,
    in_scope: bool,
) -> bool {
    match s {
        None => false,
        Some(s) => {
            &&& (cwd_filter is Some ==> s.cwd is Some && in_scope)
            &&& (cwd_filter is None ==> show_all)
            &&& provider_admitted(providers, opt_view(s.provider))
        },
    }
}

/// A scan in progress.
pub struct ListScan {
    limit: usize,
    anchor: Option<SessionKey>,
    providers: Vec<String>,
    show_all: bool,
    cwd_filter: Option<String>,
    passed: bool,
    sessions: Vec<SessionSummary>,
    keys: Vec<SessionKey>,
    scanned: usize,
    cap_hit: bool,
    more: bool,
    done: bool,
    pending: Option<SessionKey>,
    pending_path: Ghost<Seq<char>>,
    row_paths: Ghost<Seq<Seq<char>>>,
}

impl ListScan {
    pub closed spec fn state(&self) -> ScanState {
        ScanState {
            passed: self.passed,
            rows: self.keys@,
            scanned: self.scanned as nat,
            cap_hit: self.cap_hit,
            more: self.more,
            done: self.done,
        }
    }

    pub closed spec fn limit(&self) -> nat {
        self.limit as nat
    }

    pub closed spec fn anchor(&self) -> Option<SessionKey> {
        self.anchor
    }

    pub closed spec fn show_all(&self) -> bool {
        self.show_all
    }

    pub closed spec fn cwd_filter(&self) -> Option<Seq<char>> {
        opt_view(self.cwd_filter)
    }

    pub closed spec fn providers(&self) -> Seq<Seq<char>> {
        views(self.providers@)
    }

    /// The file that `begin` admitted and `offer` has not yet taken.
    pub closed spec fn pending(&self) -> Option<SessionKey> {
        self.pending
    }

    /// The path of the pending file.
    pub closed spec fn pending_path(&self) -> Seq<char> {
        self.pending_path@
    }

    /// The sessions kept so far.
    pub closed spec fn sessions(&self) -> Seq<SessionSummary> {
        self.sessions@
    }

    /// The paths of the files kept so far, one for each key of `state().rows`.
    pub closed spec fn row_paths(&self) -> Seq<Seq<char>> {
        self.row_paths@
    }

    pub closed spec fn wf(&self) -> bool {
        &&& self.limit >= 1
        &&& self.sessions@.len() == self.keys@.len()
        &&& self.row_paths@.len() == self.keys@.len()
        &&& forall|i: int|
            0 <= i < self.keys@.len() ==> #[trigger] self.sessions@[i].path@ == self.row_paths@[i]
        &&& self.keys@.len() <= self.limit
        &&& (!self.done ==> self.keys@.len() < self.limit && self.scanned < SCAN_CAP)
        &&& self.scanned <= SCAN_CAP
        &&& (self.pending is Some ==> !self.done && self.passed)
        &&& (!self.passed ==> self.anchor is Some)
        &&& (self.more ==> self.done)
        &&& (self.cap_hit ==> self.done)
    }

    /// A scan for `opts`, resuming after its cursor where that decodes.
    pub fn new(opts: &ListOptions) -> (r: ListScan)
        requires
            opts.limit >= 1,
        ensures
            r.wf(),
            r.limit() == opts.limit,
            r.anchor() == match opts.cursor {
                Some(c) => cursor_of(c@),
                None => None,
            },
            r.show_all() == opts.show_all,
            r.cwd_filter() == opt_view(opts.cwd_filter),
            r.providers() == views(opts.providers@),
            r.state() == initial_state(r.anchor()),
            r.pending() is None,
            r.sessions().len() == 0,
            r.row_paths().len() == 0,
    {
        let anchor = match &opts.cursor {
            Some(c) => decode_cursor(c.as_str()),
            None => None,
        };
        let providers = opts.providers.clone();
        proof {
            assert(providers@ == opts.providers@);
        }
        ListScan {
            limit: opts.limit,
            anchor,
            providers,
            show_all: opts.show_all,
            cwd_filter: opts.cwd_filter.clone(),
            passed: anchor.is_none(),
            sessions: Vec::new(),
            keys: Vec::new(),
            scanned: 0,
            cap_hit: false,
            more: false,
            done: false,
            pending: None,
            pending_path: Ghost(Seq::empty()),
            row_paths: Ghost(Seq::empty()),
        }
    }

    /// Whether the scan has stopped.
    pub fn is_done(&self) -> (r: bool)
        ensures
            r == self.state().done,
    {
        self.done
    }

    /// Counts the next file and says whether it is to be read and offered.
    pub fn begin(&mut self, f: &LogFile) -> (r: bool)
        requires
            old(self).wf(),
            old(self).pending() is None,
        ensures
            final(self).wf(),
            (final(self).state(), r) == begin_step(
                old(self).limit(),
                old(self).anchor(),
                old(self).state(),
                f.key,
            ),
            final(self).pending() == (if r { Some(f.key) } else { None }),
            r ==> final(self).pending_path() == f.path@,
            final(self).row_paths() == old(self).row_paths(),
            final(self).limit() == old(self).limit(),
            final(self).anchor() == old(self).anchor(),
            final(self).show_all() == old(self).show_all(),
            final(self).cwd_filter() == old(self).cwd_filter(),
            final(self).providers() == old(self).providers(),
            final(self).sessions() == old(self).sessions(),
    {
        let k = f.key;
        if self.done {
            return false;
        }
        self.scanned = self.scanned + 1;
        if self.scanned >= SCAN_CAP && self.keys.len() < self.limit {
            self.cap_hit = true;
            self.more = true;
            self.done = true;
            return false;
        }
        if !self.passed {
            let below = match self.anchor {
                Some(a) => key_less(&k, &a),
                None => true,
            };
            if !below {
                return false;
            }
            self.passed = true;
        }
        self.pending = Some(k);
        self.pending_path = Ghost(f.path@);
        true
    }

    /// Whether a session is in the scope of the scan's directory filter:
    /// there is a filter, the session recorded a directory, and the two are
    /// the same path. `cwd_form` and `filter_form` are the canonical forms of
    /// the recorded directory and of the filter, where they could be had (see
    /// `canonicalize_existing`); the forms are compared where both exist, the
    /// texts otherwise.
    pub fn in_scope(
        &self,
        s: &SessionSummary,
        cwd_form: &Option<String>,
        filter_form: &Option<String>,
    ) -> (r: bool)
        ensures
            r == (self.cwd_filter() matches Some(f) && s.cwd matches Some(c) && match (
                cwd_form,
                filter_form,
            ) {
                (Some(x), Some(y)) => x@ == y@,
                _ => c@ == f,
            }),
    {
        match (&self.cwd_filter, &s.cwd) {
            (Some(filter), Some(cwd)) => same_path(cwd.as_str(), filter.as_str(), cwd_form, filter_form),
            _ => false,
        }
    }

    /// Takes the session read from the pending file (`None` where it does not
    /// summarize) and whether it is in scope (see `in_scope`).
    pub fn offer(&mut self, s: Option<SessionSummary>, in_scope: bool)
        requires
            old(self).wf(),
            old(self).pending() is Some,
            s matches Some(x) ==> x.path@ == old(self).pending_path(),
        ensures
            final(self).wf(),
            final(self).state() == offer_step(
                old(self).limit(),
                old(self).state(),
                old(self).pending()->0,
                keeps(old(self).show_all(), old(self).cwd_filter(), old(self).providers(), s, in_scope),
            ),
            final(self).sessions() == (if keeps(
                old(self).show_all(),
                old(self).cwd_filter(),
                old(self).providers(),
                s,
                in_scope,
            ) {
                old(self).sessions().push(s->0)
            } else {
                old(self).sessions()
            }),
            final(self).row_paths() == (if keeps(
                old(self).show_all(),
                old(self).cwd_filter(),
                old(self).providers(),
                s,
                in_scope,
            ) {
                old(self).row_paths().push(old(self).pending_path())
            } else {
                old(self).row_paths()
            }),
            final(self).pending() is None,
            final(self).limit() == old(self).limit(),
            final(self).anchor() == old(self).anchor(),
            final(self).show_all() == old(self).show_all(),
            final(self).cwd_filter() == old(self).cwd_filter(),
            final(self).providers() == old(self).providers(),
    {
        let k = self.pending.unwrap();
        self.pending = None;
        let keep = match &s {
            None => false,
            Some(summary) => {
                let scope_ok = match &self.cwd_filter {
                    Some(_) => summary.cwd.is_some() && in_scope,
                    None => self.show_all,
                };
                scope_ok && provider_matches(&self.providers, &summary.provider)
            },
        };
        if keep {
            self.sessions.push(s.unwrap());
            self.keys.push(k);
            self.row_paths = Ghost(self.row_paths@.push(self.pending_path@));
            if self.keys.len() == self.limit {
                self.more = true;
                self.done = true;
            }
        }
    }

    /// The page: the kept sessions, and a token after the last of them where
    /// the scan stopped early.
    pub fn finish(self) -> (r: SessionList)
        requires
            self.wf(),
        ensures
            r.sessions@ == self.sessions(),
            r.scanned_files == self.state().scanned,
            r.reached_scan_cap == self.state().cap_hit,
            r.next_cursor matches Some(c) ==> self.state().more && self.state().rows.len() > 0
                && c@ == cursor_text(self.state().rows.last()),
            r.next_cursor is None ==> !(self.state().more && self.state().rows.len() > 0),
            self.row_paths().len() == self.state().rows.len(),
            forall|i: int|
                0 <= i < r.sessions@.len() ==> #[trigger] r.sessions@[i].path@ == self.row_paths()[i],
    {
        let next_cursor = if self.more && self.keys.len() > 0 {
            let last = self.keys[self.keys.len() - 1];
            Some(encode_cursor(&last))
        } else {
            None
        };
        SessionList {
            sessions: self.sessions,
            next_cursor,
            scanned_files: self.scanned,
            reached_scan_cap: self.cap_hit,
        }
    }
}

/// Whether two names are equal up to ASCII case.
pub fn eq_ignore_ascii_case(a: &str, b: &str) -> (r: bool)
    ensures
        r == (lower_seq(a@) == lower_seq(b@)),
{
    let av = chars_of(a);
    let bv = chars_of(b);
    if av.len() != bv.len() {
        assert(lower_seq(a@).len() != lower_seq(b@).len());
        return false;
    }
    let mut i: usize = 0;
    while i < av.len()
        invariant
            av@ == a@,
            bv@ == b@,
            av@.len() == bv@.len(),
            i <= av@.len(),
            forall|j: int| 0 <= j < i ==> lower_seq(a@)[j] == lower_seq(b@)[j],
        decreases av@.len() - i,
    {
        if to_lower_char(av[i]) != to_lower_char(bv[i]) {
            assert(lower_seq(a@)[i as int] != lower_seq(b@)[i as int]);
            return false;
        }
        i = i + 1;
    }
    assert(lower_seq(a@) =~= lower_seq(b@));
    true
}

/// Whether a provider filter admits a session's provider.
pub fn provider_matches(filter: &Vec<String>, provider: &Option<String>) -> (r: bool)
    ensures
        r == provider_admitted(views(filter@), opt_view(*provider)),
{
    if filter.len() == 0 {
        return true;
    }
    let empty = String::new();
    let p: &String = match provider {
        Some(p) => p,
        None => &empty,
    };
    let ghost pv = match opt_view(*provider) {
        Some(p) => p,
        None => Seq::<char>::empty(),
    };
    assert(p@ == pv);
    let mut i: usize = 0;
    while i < filter.len()
        invariant
            i <= filter@.len(),
            p@ == pv,
            pv == (match opt_view(*provider) {
                Some(p) => p,
                None => Seq::<char>::empty(),
            }),
            forall|j: int| 0 <= j < i ==> lower_seq(#[trigger] views(filter@)[j]) != lower_seq(pv),
        decreases filter@.len() - i,
    {
        if eq_ignore_ascii_case(filter[i].as_str(), p.as_str()) {
            assert(views(filter@)[i as int] == filter@[i as int]@);
            assert(lower_seq(views(filter@)[i as int]) == lower_seq(pv));
            assert(0 <= i < views(filter@).len());
            let ghost w = i as int;
            assert(exists|j: int|
                0 <= j < views(filter@).len() && lower_seq(#[trigger] views(filter@)[j])
                    == lower_seq(pv)) by {
                assert(0 <= w < views(filter@).len() && lower_seq(views(filter@)[w]) == lower_seq(pv));
            }
            return true;
        }
        assert(views(filter@)[i as int] == filter@[i as int]@);
        i = i + 1;
    }
    false
}


proof fn lemma_done_stays(lim: nat, anchor: Option<SessionKey>, st: ScanState, cs: Seq<Candidate>)
    requires
        st.done,
    ensures
        run_from(lim, anchor, st, cs) == st,
    decreases cs.len(),
{
    if cs.len() > 0 {
        lemma_done_stays(lim, anchor, step(lim, anchor, st, cs[0]), cs.drop_first());
    }
}

/// Below the scan cap, a scan keeps the first `lim` kept candidates from the
/// first one below the anchor onward, and says there may be more exactly when
/// it reached `lim`.
proof fn lemma_run_shape(lim: nat, anchor: Option<SessionKey>, st: ScanState, cs: Seq<Candidate>)
    requires
        lim >= 1,
        !st.done,
        !st.more,
        !st.cap_hit,
        st.rows.len() < lim,
        st.scanned + cs.len() < SCAN_CAP,
        !st.passed ==> anchor is Some,
    ensures
        run_from(lim, anchor, st, cs).rows == take(
            st.rows + kept_keys(from_below(cs, if st.passed { None } else { anchor })),
            lim,
        ),
        run_from(lim, anchor, st, cs).more == ((st.rows + kept_keys(
            from_below(cs, if st.passed { None } else { anchor }),
        )).len() >= lim),
        !run_from(lim, anchor, st, cs).cap_hit,
    decreases cs.len(),
{
    let eff = if st.passed { None } else { anchor };
    if cs.len() == 0 {
        assert(st.rows + kept_keys(from_below(cs, eff)) =~= st.rows);
    } else {
        let c = cs[0];
        let tail = cs.drop_first();
        let st1 = step(lim, anchor, st, c);
        if !st.passed && !key_lt(c.key, anchor->0) {
            assert(from_below(cs, eff) == from_below(tail, eff));
            lemma_run_shape(lim, anchor, st1, tail);
        } else {
            assert(from_below(cs, eff) == cs);
            assert(from_below(tail, None) == tail);
            let h = if c.kept { seq![c.key] } else { Seq::<SessionKey>::empty() };
            assert(kept_keys(cs) == h + kept_keys(tail));
            assert(st.rows + kept_keys(cs) =~= (st.rows + h) + kept_keys(tail));
            if c.kept && st.rows.len() + 1 == lim {
                assert(st1.done);
                lemma_done_stays(lim, anchor, st1, tail);
                assert(st1.rows == st.rows + h);
                assert((st.rows + kept_keys(cs)).subrange(0, lim as int) =~= st.rows + h);
            } else {
                assert(st1.rows =~= st.rows + h);
                lemma_run_shape(lim, anchor, st1, tail);
            }
        }
    }
}

proof fn lemma_kept_below(cs: Seq<Candidate>, b: SessionKey)
    requires
        forall|j: int| 0 <= j < cs.len() ==> key_lt(#[trigger] cs[j].key, b),
    ensures
        forall|i: int| 0 <= i < kept_keys(cs).len() ==> key_lt(#[trigger] kept_keys(cs)[i], b),
    decreases cs.len(),
{
    if cs.len() > 0 {
        let tail = cs.drop_first();
        assert forall|j: int| 0 <= j < tail.len() implies key_lt(#[trigger] tail[j].key, b) by {
            assert(tail[j] == cs[j + 1]);
        }
        lemma_kept_below(tail, b);
        let h = if cs[0].kept { seq![cs[0].key] } else { Seq::<SessionKey>::empty() };
        assert(kept_keys(cs) == h + kept_keys(tail));
        assert forall|i: int| 0 <= i < kept_keys(cs).len() implies key_lt(
            #[trigger] kept_keys(cs)[i],
            b,
        ) by {
            if i < h.len() {
            } else {
                assert(kept_keys(cs)[i] == kept_keys(tail)[i - h.len()]);
            }
        }
    }
}

proof fn lemma_tail_below(cs: Seq<Candidate>)
    requires
        cs.len() > 0,
        strictly_descending(keys_of(cs)),
    ensures
        strictly_descending(keys_of(cs.drop_first())),
        forall|j: int|
            0 <= j < cs.drop_first().len() ==> key_lt(#[trigger] cs.drop_first()[j].key, cs[0].key),
{
    let tail = cs.drop_first();
    assert forall|j: int| 0 <= j < tail.len() implies key_lt(#[trigger] tail[j].key, cs[0].key) by {
        assert(keys_of(cs)[j + 1] == tail[j].key);
        assert(keys_of(cs)[0] == cs[0].key);
    }
    assert forall|i: int, j: int| 0 <= i < j < keys_of(tail).len() implies key_lt(
        keys_of(tail)[j],
        keys_of(tail)[i],
    ) by {
        assert(keys_of(tail)[j] == keys_of(cs)[j + 1]);
        assert(keys_of(tail)[i] == keys_of(cs)[i + 1]);
    }
}

proof fn lemma_from_below_all(cs: Seq<Candidate>, a: SessionKey)
    requires
        forall|j: int| 0 <= j < cs.len() ==> key_lt(#[trigger] cs[j].key, a),
    ensures
        from_below(cs, Some(a)) == cs,
{
    if cs.len() > 0 {
        assert(key_lt(cs[0].key, a));
    }
}

/// Resuming after the `l`-th kept key of a descending scan leaves exactly the
/// kept keys that follow it.
proof fn lemma_resume_after(cs: Seq<Candidate>, l: nat)
    requires
        strictly_descending(keys_of(cs)),
        1 <= l <= kept_keys(cs).len(),
    ensures
        kept_keys(from_below(cs, Some(kept_keys(cs)[l - 1]))) == kept_keys(cs).skip(l as int),
    decreases cs.len(),
{
    let c = cs[0];
    let tail = cs.drop_first();
    let s = kept_keys(cs);
    let k = s[l - 1];
    lemma_tail_below(cs);
    lemma_kept_below(tail, c.key);
    let h = if c.kept { seq![c.key] } else { Seq::<SessionKey>::empty() };
    assert(s == h + kept_keys(tail));
    if c.kept && l == 1 {
        assert(k == c.key);
        lemma_key_order(c.key, k, k);
        lemma_from_below_all(tail, k);
        assert(from_below(cs, Some(k)) == from_below(tail, Some(k)));
        assert(kept_keys(tail) =~= s.skip(1));
    } else {
        let l1: nat = if c.kept { (l - 1) as nat } else { l };
        assert(k == kept_keys(tail)[l1 - 1]);
        assert(key_lt(k, c.key));
        lemma_key_order(k, c.key, k);
        assert(from_below(cs, Some(k)) == from_below(tail, Some(k)));
        lemma_resume_after(tail, l1);
        assert(kept_keys(tail).skip(l1 as int) =~= s.skip(l as int));
    }
}

/// Listing order: where the files come in strictly descending key order, the
/// sessions of a page are in strictly descending key order. A page is a
/// function of the options and the files, so equal calls give equal pages.
pub proof fn lemma_page_descending(lim: nat, anchor: Option<SessionKey>, cs: Seq<Candidate>)
    requires
        strictly_descending(keys_of(cs)),
    ensures
        strictly_descending(scan(lim, anchor, cs).rows),
{
    lemma_run_descending(lim, anchor, initial_state(anchor), cs);
}

proof fn lemma_run_descending(lim: nat, anchor: Option<SessionKey>, st: ScanState, cs: Seq<Candidate>)
    requires
        strictly_descending(st.rows),
        strictly_descending(keys_of(cs)),
        st.rows.len() > 0 ==> forall|j: int|
            0 <= j < cs.len() ==> key_lt(#[trigger] cs[j].key, st.rows.last()),
    ensures
        strictly_descending(run_from(lim, anchor, st, cs).rows),
    decreases cs.len(),
{
    if cs.len() > 0 {
        let c = cs[0];
        let tail = cs.drop_first();
        let st1 = step(lim, anchor, st, c);
        lemma_tail_below(cs);
        if st1.rows != st.rows {
            assert(st1.rows == st.rows.push(c.key));
            assert forall|i: int, j: int| 0 <= i < j < st1.rows.len() implies key_lt(
                st1.rows[j],
                st1.rows[i],
            ) by {
                if j == st.rows.len() {
                    assert(key_lt(c.key, st.rows.last()));
                    if i < st.rows.len() - 1 {
                        lemma_key_order(c.key, st.rows.last(), st.rows[i]);
                    }
                }
            }
        } else if st.rows.len() > 0 {
            assert forall|j: int| 0 <= j < tail.len() implies key_lt(
                #[trigger] tail[j].key,
                st.rows.last(),
            ) by {
                assert(tail[j] == cs[j + 1]);
            }
        }
        lemma_run_descending(lim, anchor, st1, tail);
    }
}

/// Keyset stability: over files in strictly descending key order, below the
/// scan cap, a page of `lim` followed by the page that resumes after its last
/// key equals one page of `2 * lim`; this holds also where the second scan
/// sees more files, as long as the files from the first one below that key
/// onward are the same.
pub proof fn lemma_keyset_stable(lim: nat, cs: Seq<Candidate>, cs2: Seq<Candidate>)
    requires
        lim >= 1,
        strictly_descending(keys_of(cs)),
        cs.len() < SCAN_CAP,
        cs2.len() < SCAN_CAP,
        scan(lim, None, cs).more,
        from_below(cs2, Some(scan(lim, None, cs).rows.last())) == from_below(
            cs,
            Some(scan(lim, None, cs).rows.last()),
        ),
    ensures
        scan(lim, None, cs).rows + scan(lim, Some(scan(lim, None, cs).rows.last()), cs2).rows
            == scan(2 * lim, None, cs).rows,
{
    let s = kept_keys(cs);
    let st0 = initial_state(None);
    lemma_run_shape(lim, None, st0, cs);
    lemma_run_shape(2 * lim, None, st0, cs);
    assert(Seq::<SessionKey>::empty() + s =~= s);
    assert(from_below(cs, None) == cs);
    let a = scan(lim, None, cs).rows;
    assert(s.len() >= lim);
    assert(a =~= s.subrange(0, lim as int));
    let k = a.last();
    assert(k == s[lim - 1]);
    let ka = Some(k);
    lemma_run_shape(lim, ka, initial_state(ka), cs2);
    lemma_resume_after(cs, lim);
    let rest = s.skip(lim as int);
    assert(Seq::<SessionKey>::empty() + kept_keys(from_below(cs2, ka)) =~= rest);
    let b = scan(lim, ka, cs2).rows;
    assert(b == take(rest, lim));
    assert(a + b =~= take(s, 2 * lim));
}

/// Only kept files are listed: every key of a page is the key of a candidate
/// whose session summarized and passed the filters.
pub proof fn lemma_page_only_kept(lim: nat, anchor: Option<SessionKey>, cs: Seq<Candidate>)
    ensures
        forall|x: SessionKey| scan(lim, anchor, cs).rows.contains(x) ==> kept_keys(cs).contains(x),
{
    lemma_run_only_kept(lim, anchor, initial_state(anchor), cs);
}

proof fn lemma_run_only_kept(lim: nat, anchor: Option<SessionKey>, st: ScanState, cs: Seq<Candidate>)
    ensures
        forall|x: SessionKey|
            run_from(lim, anchor, st, cs).rows.contains(x) ==> st.rows.contains(x) || kept_keys(
                cs,
            ).contains(x),
    decreases cs.len(),
{
    if cs.len() > 0 {
        let c = cs[0];
        let tail = cs.drop_first();
        let st1 = step(lim, anchor, st, c);
        lemma_run_only_kept(lim, anchor, st1, tail);
        let h = if c.kept { seq![c.key] } else { Seq::<SessionKey>::empty() };
        assert(kept_keys(cs) == h + kept_keys(tail));
        assert forall|x: SessionKey| run_from(lim, anchor, st, cs).rows.contains(x) implies st.rows.contains(x)
            || kept_keys(cs).contains(x) by {
            if st1.rows.contains(x) {
                if st1.rows != st.rows {
                    assert(st1.rows == st.rows.push(c.key));
                    assert(c.kept);
                    let i = choose|i: int| 0 <= i < st1.rows.len() && st1.rows[i] == x;
                    if i == st.rows.len() {
                        assert(kept_keys(cs)[0] == x);
                    } else {
                        assert(st.rows[i] == x);
                    }
                }
            } else {
                let i = choose|i: int| 0 <= i < kept_keys(tail).len() && kept_keys(tail)[i] == x;
                assert(kept_keys(cs)[h.len() + i] == x);
            }
        }
    }
}


/// A log file whose head is not listed (no session-meta record or no user
/// event within the window, or a source that is not interactive) summarizes
/// to `None`, which no filter keeps; so it is never a row of any page.
pub proof fn lemma_unlisted_never_kept(
    h: Head,
    s: Option<SessionSummary>,
    show_all: bool,
    cwd_filter: Option<Seq<char>>,
    providers: Seq<Seq<char>>,
    in_scope: bool,
)
    requires
        s is Some <==> is_listed(h),
        !is_listed(h),
    ensures
        !keeps(show_all, cwd_filter, providers, s, in_scope),
{
}


/// Walking shards newest first: two runs of files, each strictly descending,
/// where every key of the later run is below every key of the earlier one,
/// form one strictly descending run.
pub proof fn lemma_runs_concatenate(a: Seq<Candidate>, b: Seq<Candidate>)
    requires
        strictly_descending(keys_of(a)),
        strictly_descending(keys_of(b)),
        forall|i: int, j: int|
            0 <= i < a.len() && 0 <= j < b.len() ==> key_lt(
                #[trigger] b[j].key,
                #[trigger] a[i].key,
            ),
    ensures
        strictly_descending(keys_of(a + b)),
{
    let c = a + b;
    assert forall|i: int, j: int| 0 <= i < j < keys_of(c).len() implies key_lt(
        keys_of(c)[j],
        keys_of(c)[i],
    ) by {
        if j < a.len() {
            assert(keys_of(c)[j] == keys_of(a)[j] && keys_of(c)[i] == keys_of(a)[i]);
        } else if i >= a.len() {
            assert(keys_of(c)[j] == keys_of(b)[j - a.len()] && keys_of(c)[i] == keys_of(b)[i - a.len()]);
        } else {
            assert(keys_of(c)[j] == b[j - a.len()].key && keys_of(c)[i] == a[i].key);
        }
    }
}


proof fn lemma_kept_keys_from_kept(cs: Seq<Candidate>, x: SessionKey)
    requires
        kept_keys(cs).contains(x),
    ensures
        exists|i: int| 0 <= i < cs.len() && cs[i].kept && #[trigger] cs[i].key == x,
    decreases cs.len(),
{
    let tail = cs.drop_first();
    let h = if cs[0].kept { seq![cs[0].key] } else { Seq::<SessionKey>::empty() };
    assert(kept_keys(cs) == h + kept_keys(tail));
    if cs[0].kept && x == cs[0].key {
        assert(cs[0].key == x);
    } else {
        let k = choose|k: int| 0 <= k < kept_keys(cs).len() && kept_keys(cs)[k] == x;
        assert(kept_keys(tail)[k - h.len()] == x);
        lemma_kept_keys_from_kept(tail, x);
        let i = choose|i: int| 0 <= i < tail.len() && tail[i].kept && #[trigger] tail[i].key == x;
        assert(cs[i + 1] == tail[i]);
    }
}

/// A file that is not kept (its head is not listed, or it fails a filter)
/// never appears in a page, whatever the limit and the cursor, where no other
/// file has its key.
pub proof fn lemma_unkept_never_listed(
    lim: nat,
    anchor: Option<SessionKey>,
    cs: Seq<Candidate>,
    j: int,
)
    requires
        0 <= j < cs.len(),
        !cs[j].kept,
        forall|i: int| 0 <= i < cs.len() && i != j ==> cs[i].key != cs[j].key,
    ensures
        !scan(lim, anchor, cs).rows.contains(cs[j].key),
{
    lemma_page_only_kept(lim, anchor, cs);
    if scan(lim, anchor, cs).rows.contains(cs[j].key) {
        lemma_kept_keys_from_kept(cs, cs[j].key);
    }
}


/// A stamp falls on the day `d` (year, month, day).
pub open spec fn on_day(s: Stamp, d: (u16, u8, u8)) -> bool {
    s.year == d.0 && s.month == d.1 && s.day == d.2
}

/// Day `a` comes before day `b`.
pub open spec fn day_before(a: (u16, u8, u8), b: (u16, u8, u8)) -> bool {
    a.0 < b.0 || (a.0 == b.0 && (a.1 < b.1 || (a.1 == b.1 && a.2 < b.2)))
}

/// A stamp falls on day `d` or before it.
pub open spec fn on_or_before(s: Stamp, d: (u16, u8, u8)) -> bool {
    on_day(s, d) || day_before((s.year, s.month, s.day), d)
}

/// The walk over day directories: where each day directory's files come in
/// strictly descending key order, every file lies in the directory of its
/// stamp's day, and the directories are walked newest day first, the whole
/// stream of files is strictly descending.
pub proof fn lemma_walk_descending(days: Seq<Seq<Candidate>>, dates: Seq<(u16, u8, u8)>)
    requires
        days.len() == dates.len(),
        forall|i: int| 0 <= i < days.len() ==> strictly_descending(keys_of(#[trigger] days[i])),
        forall|i: int, j: int|
            0 <= i < days.len() && 0 <= j < days[i].len() ==> on_day(
                #[trigger] days[i][j].key.stamp,
                dates[i],
            ),
        forall|i: int, k: int|
            0 <= i < k < dates.len() ==> day_before(#[trigger] dates[k], #[trigger] dates[i]),
    ensures
        strictly_descending(keys_of(days.flatten())),
        days.len() > 0 ==> forall|j: int|
            0 <= j < days.flatten().len() ==> on_or_before(#[trigger] days.flatten()[j].key.stamp, dates[0]),
    decreases days.len(),
{
    if days.len() > 0 {
        let rest = days.drop_first();
        let rd = dates.drop_first();
        assert forall|i: int| 0 <= i < rest.len() implies strictly_descending(
            keys_of(#[trigger] rest[i]),
        ) by {
            assert(rest[i] == days[i + 1]);
        }
        assert forall|i: int, j: int| 0 <= i < rest.len() && 0 <= j < rest[i].len() implies on_day(
            #[trigger] rest[i][j].key.stamp,
            rd[i],
        ) by {
            assert(rest[i] == days[i + 1]);
        }
        assert forall|i: int, k: int| 0 <= i < k < rd.len() implies day_before(
            #[trigger] rd[k],
            #[trigger] rd[i],
        ) by {
            assert(rd[k] == dates[k + 1] && rd[i] == dates[i + 1]);
        }
        lemma_walk_descending(rest, rd);
        let a = days[0];
        let b = rest.flatten();
        assert(days.flatten() == a + b);
        assert forall|i: int, j: int| 0 <= i < a.len() && 0 <= j < b.len() implies key_lt(
            #[trigger] b[j].key,
            #[trigger] a[i].key,
        ) by {
            assert(on_day(a[i].key.stamp, dates[0]));
            if rest.len() > 0 {
                assert(on_or_before(b[j].key.stamp, rd[0]));
                assert(day_before(dates[1], dates[0]));
            }
        }
        lemma_runs_concatenate(a, b);
        assert forall|j: int| 0 <= j < days.flatten().len() implies on_or_before(
            #[trigger] days.flatten()[j].key.stamp,
            dates[0],
        ) by {
            if j < a.len() {
                assert(days.flatten()[j] == a[j]);
            } else {
                assert(days.flatten()[j] == b[j - a.len()]);
                assert(day_before(dates[1], dates[0]));
            }
        }
    }
}

} // verus!
