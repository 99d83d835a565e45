//! The date-sharded directory tree: which subdirectories are shards, in what
//! order they are walked, and which files of a day directory are logs.

use vstd::prelude::*;
use vstd::seq_lib::to_multiset_insert;
use crate::key::{lemma_key_order, SessionKey, key_lt, key_less, key_of_name, key_from_file_name};
use crate::stamp::{all_digits, digits_value, is_digit, lemma_digits_bound};
use crate::text::chars_of;

verus! {

/// One entry of a directory listing: its file name and its full path.
#[derive(Clone, Debug)]
pub struct DirEntry {
    pub name: String,
    pub path: String,
}

/// A shard directory (a year, a month or a day) with the number its name reads as.
pub struct ShardDir {
    pub value: u16,
    pub path: String,
}

/// A log file with the key its name encodes.
pub struct LogFile {
    pub key: SessionKey,
    pub path: String,
}

/// What `str::parse` reads as an unsigned number no greater than `max`: an
/// optional `+`, then one or more decimal digits.
pub open spec fn number_of(s: Seq<char>, max: int) -> Option<int> {
    let d = if s.len() > 0 && s[0] == '+' { s.drop_first() } else { s };
    if d.len() > 0 && all_digits(d) && digits_value(d) <= max {
        Some(digits_value(d))
    } else {
        None
    }
}

proof fn lemma_digits_prefix(s: Seq<char>, i: int)
    requires
        all_digits(s),
        0 <= i <= s.len(),
    ensures
        digits_value(s.subrange(0, i)) <= digits_value(s),
    decreases s.len(),
{
    if i < s.len() {
        let t = s.drop_last();
        assert(all_digits(t)) by {
            assert forall|j: int| 0 <= j < t.len() implies is_digit(#[trigger] t[j]) by {
                assert(t[j] == s[j]);
            }
        }
        assert(is_digit(s[s.len() - 1]));
        lemma_digits_prefix(t, i);
        assert(t.subrange(0, i) == s.subrange(0, i));
        lemma_digits_bound(t);
    } else {
        assert(s.subrange(0, i) == s);
    }
}

/// The number that a shard directory's name reads as, if at most `max`.
pub fn shard_value(name: &str, max: u16) -> (r: Option<u16>)
    ensures
        r matches Some(v) ==> number_of(name@, max as int) == Some(v as int),
        r is None ==> number_of(name@, max as int) is None,
{
    let v = chars_of(name);
    let start: usize = if v.len() > 0 && v[0] == '+' { 1 } else { 0 };
    let ghost d = if name@.len() > 0 && name@[0] == '+' { name@.drop_first() } else { name@ };
    assert(d == v@.subrange(start as int, v@.len() as int));
    if start >= v.len() {
        return None;
    }
    let mut acc: u32 = 0;
    let mut i: usize = start;
    while i < v.len()
        invariant
            v@ == name@,
            start <= i <= v@.len(),
            d == v@.subrange(start as int, v@.len() as int),
            d == (if name@.len() > 0 && name@[0] == '+' { name@.drop_first() } else { name@ }),
            all_digits(d.subrange(0, i - start)),
            acc == digits_value(d.subrange(0, i - start)),
            acc <= max,
        decreases v@.len() - i,
    {
        let c = v[i];
        if !('0' <= c && c <= '9') {
            assert(d[i - start] == c);
            assert(!is_digit(d[i - start]));
            return None;
        }
        let next = acc * 10 + (c as u32 - '0' as u32);
        proof {
            let p0 = d.subrange(0, i - start);
            let p1 = d.subrange(0, i - start + 1);
            assert(p1.drop_last() =~= p0);
            assert(p1.last() == c);
            assert forall|j: int| 0 <= j < p1.len() implies is_digit(#[trigger] p1[j]) by {
                if j < p0.len() {
                    assert(p1[j] == p0[j]);
                }
            }
        }
        assert(digits_value(d.subrange(0, i - start + 1)) == next);
        if next > max as u32 {
            proof {
                if all_digits(d) {
                    lemma_digits_prefix(d, i - start + 1);
                }
            }
            return None;
        }
        acc = next;
        i = i + 1;
    }
    assert(d.subrange(0, d.len() as int) =~= d);
    Some(acc as u16)
}

/// Directories whose names read as numbers no greater than `max`, in listing order.
pub open spec fn shards_of(es: Seq<DirEntry>, max: int) -> Seq<ShardDir>
    decreases es.len(),
{
    if es.len() == 0 {
        Seq::empty()
    } else {
        let prev = shards_of(es.drop_last(), max);
        match number_of(es.last().name@, max) {
            Some(v) => prev.push(ShardDir { value: v as u16, path: es.last().path }),
            None => prev,
        }
    }
}

/// Shards in descending order of their numbers.
pub open spec fn shards_descending(s: Seq<ShardDir>) -> bool {
    forall|i: int, j: int| 0 <= i < j < s.len() ==> s[j].value <= s[i].value
}

/// The log files among a directory's entries, in listing order.
pub open spec fn logs_of(es: Seq<DirEntry>) -> Seq<LogFile>
    decreases es.len(),
{
    if es.len() == 0 {
        Seq::empty()
    } else {
        let prev = logs_of(es.drop_last());
        match key_of_name(es.last().name@) {
            Some(k) => prev.push(LogFile { key: k, path: es.last().path }),
            None => prev,
        }
    }
}

/// Log files in descending key order.
pub open spec fn logs_descending(s: Seq<LogFile>) -> bool {
    forall|i: int, j: int| 0 <= i < j < s.len() ==> !key_lt(s[i].key, s[j].key)
}

fn insert_shard(r: &mut Vec<ShardDir>, c: ShardDir)
    requires
        shards_descending(old(r)@),
    ensures
        shards_descending(final(r)@),
        final(r)@.to_multiset() == old(r)@.to_multiset().insert(c),
{
    let mut p: usize = 0;
    while p < r.len() && r[p].value >= c.value
        invariant
            p <= r@.len(),
            forall|j: int| 0 <= j < p ==> c.value <= r@[j].value,
        decreases r@.len() - p,
    {
        p = p + 1;
    }
    let ghost s = r@;
    let ghost cv = c.value;
    r.insert(p, c);
    proof {
        to_multiset_insert(s, p as int, r@[p as int]);
        assert forall|i: int, j: int| 0 <= i < j < r@.len() implies r@[j].value <= r@[i].value by {
            if j < p {
                assert(r@[i] == s[i] && r@[j] == s[j]);
            } else if j == p {
                assert(r@[i] == s[i]);
            } else if i == p {
                assert(r@[j] == s[j - 1]);
                assert(s[p as int].value < cv);
            } else if i < p {
                assert(r@[i] == s[i] && r@[j] == s[j - 1]);
            } else {
                assert(r@[i] == s[i - 1] && r@[j] == s[j - 1]);
            }
        }
    }
}

/// The shard subdirectories among a directory's entries, highest number first.
pub fn order_shards(entries: &Vec<DirEntry>, max: u16) -> (r: Vec<ShardDir>)
    ensures
        shards_descending(r@),
        r@.to_multiset() == shards_of(entries@, max as int).to_multiset(),
{
    let mut r: Vec<ShardDir> = Vec::new();
    let mut i: usize = 0;
    while i < entries.len()
        invariant
            i <= entries@.len(),
            shards_descending(r@),
            r@.to_multiset() == shards_of(entries@.subrange(0, i as int), max as int).to_multiset(),
        decreases entries@.len() - i,
    {
        let ghost pre = entries@.subrange(0, i + 1);
        assert(pre.drop_last() =~= entries@.subrange(0, i as int));
        assert(pre.last() == entries@[i as int]);
        match shard_value(entries[i].name.as_str(), max) {
            Some(v) => {
                let sd = ShardDir { value: v, path: entries[i].path.clone() };
                proof {
                    vstd::seq_lib::to_multiset_build(
                        shards_of(entries@.subrange(0, i as int), max as int),
                        sd,
                    );
                }
                insert_shard(&mut r, sd);
            },
            None => {},
        }
        i = i + 1;
    }
    assert(entries@.subrange(0, entries@.len() as int) =~= entries@);
    r
}

fn insert_log(r: &mut Vec<LogFile>, c: LogFile)
    requires
        logs_descending(old(r)@),
    ensures
        logs_descending(final(r)@),
        final(r)@.to_multiset() == old(r)@.to_multiset().insert(c),
{
    let mut p: usize = 0;
    while p < r.len() && !key_less(&r[p].key, &c.key)
        invariant
            p <= r@.len(),
            forall|j: int| 0 <= j < p ==> !key_lt(r@[j].key, c.key),
        decreases r@.len() - p,
    {
        p = p + 1;
    }
    let ghost s = r@;
    let ghost ck = c.key;
    r.insert(p, c);
    proof {
        to_multiset_insert(s, p as int, r@[p as int]);
        assert forall|i: int, j: int| 0 <= i < j < r@.len() implies !key_lt(
            r@[i].key,
            r@[j].key,
        ) by {
            if j < p {
                assert(r@[i] == s[i] && r@[j] == s[j]);
            } else if j == p {
                assert(r@[i] == s[i]);
            } else if i == p {
                assert(r@[j] == s[j - 1]);
                assert(key_lt(s[p as int].key, ck));
                lemma_key_order(s[j - 1].key, s[p as int].key, ck);
                lemma_key_order(s[p as int].key, s[j - 1].key, ck);
                lemma_key_order(ck, s[j - 1].key, ck);
            } else if i < p {
                assert(r@[i] == s[i] && r@[j] == s[j - 1]);
            } else {
                assert(r@[i] == s[i - 1] && r@[j] == s[j - 1]);
            }
        }
    }
}

/// The log files among a day directory's entries, in descending key order.
pub fn index_day(entries: &Vec<DirEntry>) -> (r: Vec<LogFile>)
    ensures
        logs_descending(r@),
        r@.to_multiset() == logs_of(entries@).to_multiset(),
{
    let mut r: Vec<LogFile> = Vec::new();
    let mut i: usize = 0;
    while i < entries.len()
        invariant
            i <= entries@.len(),
            logs_descending(r@),
            r@.to_multiset() == logs_of(entries@.subrange(0, i as int)).to_multiset(),
        decreases entries@.len() - i,
    {
        let ghost pre = entries@.subrange(0, i + 1);
        assert(pre.drop_last() =~= entries@.subrange(0, i as int));
        assert(pre.last() == entries@[i as int]);
        match key_from_file_name(entries[i].name.as_str()) {
            Some(k) => {
                let f = LogFile { key: k, path: entries[i].path.clone() };
                proof {
                    vstd::seq_lib::to_multiset_build(logs_of(entries@.subrange(0, i as int)), f);
                }
                insert_log(&mut r, f);
            },
            None => {},
        }
        i = i + 1;
    }
    assert(entries@.subrange(0, entries@.len() as int) =~= entries@);
    r
}

} // verus!
