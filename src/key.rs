//! The identity of a log file: its stamp and id, as read from its name, and
//! the pagination token that carries such a key between calls.

use vstd::prelude::*;
use crate::stamp::{
    Stamp, stamp_lt, stamp_of, stamp_text, parse_stamp, format_stamp, lemma_stamp_round_trip,
};
use crate::text::{chars_of, string_of, push_char, has_prefix};

verus! {

/// What `uuid::Uuid::parse_str` reads from a text, as a 128-bit value.
pub uninterp spec fn uuid_of(s: Seq<char>) -> Option<u128>;

pub open spec fn hex_char(d: int) -> char {
    if d < 10 {
        ('0' as int + d) as char
    } else {
        ('a' as int + (d - 10)) as char
    }
}

/// `v` in lower-case hexadecimal with exactly `n` digits.
pub open spec fn hex_digits(v: int, n: nat) -> Seq<char>
    decreases n,
{
    if n == 0 {
        Seq::empty()
    } else {
        hex_digits(v / 16, (n - 1) as nat).push(hex_char(v % 16))
    }
}

/// The hyphenated lower-case text of a UUID: groups of 8, 4, 4, 4 and 12 digits.
pub open spec fn hyphenated(u: u128) -> Seq<char> {
    let h = hex_digits(u as int, 32);
    h.subrange(0, 8) + seq!['-'] + h.subrange(8, 12) + seq!['-'] + h.subrange(12, 16)
        + seq!['-'] + h.subrange(16, 20) + seq!['-'] + h.subrange(20, 32)
}

pub open spec fn has_no_bar(s: Seq<char>) -> bool {
    forall|i: int| 0 <= i < s.len() ==> s[i] != '|'
}

/// Relies on `uuid::Uuid::parse_str` (with `Uuid::as_u128`): it accepts the
/// hyphenated text of every UUID; an accepted text has 32, 36, 38 or 45
/// characters (simple, hyphenated, braced, URN) and holds only hex digits,
/// hyphens, braces and the letters of a `urn:uuid:` prefix.
#[verifier::external_body]
pub(crate) fn parse_uuid(s: &str) -> (r: Option<u128>)
    ensures
        r == uuid_of(s@),
        r is Some ==> has_no_bar(s@),
        r is Some ==> s@.len() == 32 || s@.len() == 36 || s@.len() == 38 || s@.len() == 45,
        forall|u: u128| #[trigger] hyphenated(u) == s@ ==> r == Some(u),
{
    uuid::Uuid::parse_str(s).ok().map(|u| u.as_u128())
}

/// Relies on `uuid::Uuid`'s `Display`: the hyphenated lower-case form.
#[verifier::external_body]
fn format_uuid(u: u128) -> (r: String)
    ensures
        r@ == hyphenated(u),
{
    uuid::Uuid::from_u128(u).to_string()
}

/// The sort and pagination key of a log file.
#[derive(Clone, Copy, Debug, PartialEq, Eq, Structural)]
pub struct SessionKey {
    pub stamp: Stamp,
    pub id: u128,
}

impl SessionKey {
    pub open spec fn valid(self) -> bool {
        self.stamp.valid()
    }
}

/// The total order of the catalog: stamp, then id (the catalog lists it descending).
pub open spec fn key_lt(a: SessionKey, b: SessionKey) -> bool {
    stamp_lt(a.stamp, b.stamp) || (a.stamp == b.stamp && a.id < b.id)
}

/// Whether `a` sorts strictly before `b` in the total order.
pub fn key_less(a: &SessionKey, b: &SessionKey) -> (r: bool)
    ensures
        r == key_lt(*a, *b),
{
    let (x, y) = (a.stamp, b.stamp);
    let st = if x.year != y.year {
        x.year < y.year
    } else if x.month != y.month {
        x.month < y.month
    } else if x.day != y.day {
        x.day < y.day
    } else if x.hour != y.hour {
        x.hour < y.hour
    } else if x.minute != y.minute {
        x.minute < y.minute
    } else {
        x.second < y.second
    };
    st || (x == y && a.id < b.id)
}

/// The catalog order is a strict order.
pub proof fn lemma_key_order(a: SessionKey, b: SessionKey, c: SessionKey)
    ensures
        key_lt(a, b) ==> !key_lt(b, a),
        key_lt(a, b) && key_lt(b, c) ==> key_lt(a, c),
        !key_lt(a, b) && !key_lt(b, a) ==> a == b,
{
}

/// The token text of a key: `<stamp>|<uuid>`.
pub open spec fn cursor_text(k: SessionKey) -> Seq<char> {
    stamp_text(k.stamp) + seq!['|'] + hyphenated(k.id)
}

/// `t` holds exactly one `|`.
pub open spec fn exactly_one_bar(t: Seq<char>) -> bool {
    exists|i: int|
        0 <= i < t.len() && #[trigger] t[i] == '|' && forall|j: int|
            0 <= j < t.len() && j != i ==> t[j] != '|'
}

/// `t[i]` is the first `|` of `t`.
pub open spec fn first_bar_at(t: Seq<char>, i: int) -> bool {
    0 <= i < t.len() && t[i] == '|' && forall|j: int| 0 <= j < i ==> t[j] != '|'
}

/// The key that a token denotes: split on the first `|`, a stamp before it and
/// a UUID after it; `None` where either half does not read.
pub open spec fn cursor_of(t: Seq<char>) -> Option<SessionKey> {
    if exists|i: int| first_bar_at(t, i) {
        let i = choose|i: int| first_bar_at(t, i);
        match (stamp_of(t.subrange(0, i)), uuid_of(t.subrange(i + 1, t.len() as int))) {
            (Some(s), Some(u)) => Some(SessionKey { stamp: s, id: u }),
            _ => None,
        }
    } else {
        None
    }
}

proof fn lemma_first_bar_unique(t: Seq<char>, i: int, j: int)
    requires
        first_bar_at(t, i),
        first_bar_at(t, j),
    ensures
        i == j,
{
}

/// Writes the token of a key.
pub fn encode_cursor(k: &SessionKey) -> (r: String)
    ensures
        r@ == cursor_text(*k),
{
    let mut out = format_stamp(&k.stamp);
    push_char(&mut out, '|');
    let u = format_uuid(k.id);
    let uv = chars_of(u.as_str());
    let mut i: usize = 0;
    let ghost base = out@;
    while i < uv.len()
        invariant
            out@ == base + uv@.subrange(0, i as int),
            i <= uv@.len(),
        decreases uv@.len() - i,
    {
        push_char(&mut out, uv[i]);
        i = i + 1;
        assert(out@ =~= base + uv@.subrange(0, i as int));
    }
    assert(uv@.subrange(0, uv@.len() as int) =~= uv@);
    assert(out@ =~= cursor_text(*k));
    out
}

/// Reads a token back into a key; `None` for a token that does not denote one.
pub fn decode_cursor(t: &str) -> (r: Option<SessionKey>)
    ensures
        r == cursor_of(t@),
        forall|k: SessionKey| k.valid() && #[trigger] cursor_text(k) == t@ ==> r == Some(k),
        r is Some ==> exactly_one_bar(t@),
{
    let v = chars_of(t);
    let mut i: usize = 0;
    while i < v.len() && v[i] != '|'
        invariant
            v@ == t@,
            i <= v@.len(),
            forall|j: int| 0 <= j < i ==> v@[j] != '|',
        decreases v@.len() - i,
    {
        i = i + 1;
    }
    if i == v.len() {
        assert(!exists|j: int| first_bar_at(t@, j));
        assert forall|k: SessionKey| k.valid() && #[trigger] cursor_text(k) == t@ implies false by {
            lemma_stamp_text_shape(k.stamp);
            assert(t@[19] == '|');
        }
        return None;
    }
    proof {
        assert(first_bar_at(t@, i as int));
        let c = choose|j: int| first_bar_at(t@, j);
        lemma_first_bar_unique(t@, i as int, c);
    }
    let head = string_of(&slice_vec(&v, 0, i));
    let tail = string_of(&slice_vec(&v, i + 1, v.len()));
    let s = parse_stamp(head.as_str());
    let u = parse_uuid(tail.as_str());
    proof {
        assert(head@ == t@.subrange(0, i as int));
        assert(tail@ == t@.subrange(i + 1, t@.len() as int));
        if u is Some {
            assert forall|j: int| 0 <= j < t@.len() && j != i implies t@[j] != '|' by {
                if j > i {
                    assert(t@[j] == tail@[j - i - 1]);
                }
            }
        }
        assert forall|k: SessionKey| k.valid() && #[trigger] cursor_text(k) == t@ implies s == Some(
            k.stamp,
        ) && u == Some(k.id) by {
            let st = stamp_text(k.stamp);
            lemma_stamp_text_shape(k.stamp);
            assert(t@[19] == '|');
            assert forall|j: int| 0 <= j < 19 implies t@[j] != '|' by {
                assert(t@[j] == st[j]);
            }
            assert(first_bar_at(t@, 19));
            lemma_first_bar_unique(t@, i as int, 19);
            assert(head@ =~= st);
            assert(tail@ =~= hyphenated(k.id));
            lemma_stamp_round_trip(k.stamp);
        }
    }
    match (s, u) {
        (Some(s), Some(u)) => Some(SessionKey { stamp: s, id: u }),
        _ => None,
    }
}

/// The elements of `v` from `a` to `b`.
pub fn slice_vec(v: &Vec<char>, a: usize, b: usize) -> (r: Vec<char>)
    requires
        a <= b <= v@.len(),
    ensures
        r@ == v@.subrange(a as int, b as int),
{
    let mut r: Vec<char> = Vec::new();
    let mut i: usize = a;
    while i < b
        invariant
            a <= i <= b <= v@.len(),
            r@ == v@.subrange(a as int, i as int),
        decreases b - i,
    {
        r.push(v[i]);
        i = i + 1;
        assert(r@ =~= v@.subrange(a as int, i as int));
    }
    r
}

proof fn lemma_stamp_text_shape(s: Stamp)
    ensures
        stamp_text(s).len() == 19,
        has_no_bar(stamp_text(s)),
{
    crate::stamp::lemma_stamp_text_shape(s);
}

/// The fixed start of a log file's name.
pub open spec fn log_prefix() -> Seq<char> {
    seq!['r', 'o', 'l', 'l', 'o', 'u', 't', '-']
}

/// The fixed end of a log file's name.
pub open spec fn log_suffix() -> Seq<char> {
    seq!['.', 'j', 's', 'o', 'n', 'l']
}

/// `core[i]` is a hyphen after which the rest of `core` reads as a UUID.
pub open spec fn uuid_split(core: Seq<char>, i: int) -> bool {
    0 <= i < core.len() && core[i] == '-' && uuid_of(core.subrange(i + 1, core.len() as int)) is Some
}

/// The last position below `n` at which `core` splits before a UUID, or -1.
pub open spec fn last_split_below(core: Seq<char>, n: int) -> int
    decreases n,
{
    if n <= 0 {
        -1
    } else if uuid_split(core, n - 1) {
        n - 1
    } else {
        last_split_below(core, n - 1)
    }
}

/// The key that a log file's name encodes: `rollout-<stamp>-<uuid>.jsonl`, the
/// UUID being the last hyphen-led tail that reads as one.
pub open spec fn key_of_name(name: Seq<char>) -> Option<SessionKey> {
    if name.len() >= 14 && has_prefix(name, log_prefix()) && name.subrange(
        name.len() - 6,
        name.len() as int,
    ) == log_suffix() {
        let core = name.subrange(8, name.len() - 6);
        let i = last_split_below(core, core.len() as int);
        if i < 0 {
            None
        } else {
            match (stamp_of(core.subrange(0, i)), uuid_of(core.subrange(i + 1, core.len() as int))) {
                (Some(s), Some(u)) => Some(SessionKey { stamp: s, id: u }),
                _ => None,
            }
        }
    } else {
        None
    }
}

/// The key encoded in a log file's name, if it is one.
pub fn key_from_file_name(name: &str) -> (r: Option<SessionKey>)
    ensures
        r == key_of_name(name@),
{
    let v = chars_of(name);
    if v.len() < 14 {
        return None;
    }
    let pre = vec!['r', 'o', 'l', 'l', 'o', 'u', 't', '-'];
    let suf = vec!['.', 'j', 's', 'o', 'n', 'l'];
    let mut i: usize = 0;
    while i < 8
        invariant
            v@ == name@,
            v@.len() >= 14,
            pre@ == log_prefix(),
            i <= 8,
            v@.subrange(0, i as int) == pre@.subrange(0, i as int),
        decreases 8 - i,
    {
        if v[i] != pre[i] {
            assert(v@.subrange(0, 8)[i as int] != log_prefix()[i as int]);
            return None;
        }
        i = i + 1;
        assert(v@.subrange(0, i as int) =~= pre@.subrange(0, i as int));
    }
    assert(pre@.subrange(0, 8) =~= pre@);
    let n = v.len();
    let mut j: usize = 0;
    while j < 6
        invariant
            v@ == name@,
            n == v@.len(),
            n >= 14,
            suf@ == log_suffix(),
            j <= 6,
            v@.subrange(n - 6, n - 6 + j) == suf@.subrange(0, j as int),
        decreases 6 - j,
    {
        if v[n - 6 + j] != suf[j] {
            assert(v@.subrange(n - 6, n as int)[j as int] != log_suffix()[j as int]);
            return None;
        }
        j = j + 1;
        assert(v@.subrange(n - 6, n - 6 + j) =~= suf@.subrange(0, j as int));
    }
    assert(suf@.subrange(0, 6) =~= suf@);
    assert(has_prefix(name@, log_prefix()));
    assert(name@.subrange(n - 6, n as int) == log_suffix());
    let core = slice_vec(&v, 8, n - 6);
    let ghost cs = core@;
    let cn = core.len();
    let mut k: usize = cn;
    while k > 0
        invariant
            core@ == cs,
            name@.len() >= 14,
            has_prefix(name@, log_prefix()),
            name@.subrange(name@.len() - 6, name@.len() as int) == log_suffix(),
            cs == name@.subrange(8, name@.len() - 6),
            cn == cs.len(),
            k <= cn,
            last_split_below(cs, cn as int) == last_split_below(cs, k as int),
        decreases k,
    {
        if core[k - 1] == '-' {
            let tail = string_of(&slice_vec(&core, k, cn));
            let u = parse_uuid(tail.as_str());
            if let Some(id) = u {
                let head = string_of(&slice_vec(&core, 0, k - 1));
                let s = parse_stamp(head.as_str());
                assert(uuid_split(cs, k - 1));
                assert(last_split_below(cs, k as int) == k - 1);
                assert(head@ == cs.subrange(0, k - 1));
                return match s {
                    Some(st) => Some(SessionKey { stamp: st, id }),
                    None => None,
                };
            }
            assert(!uuid_split(cs, k - 1));
        }
        k = k - 1;
    }
    None
}

} // verus!
