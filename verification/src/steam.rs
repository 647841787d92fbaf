//! Reading Steam's local caches: the unlocked achievements of
//! `UserGameStats_<account>_<appid>.bin`, the display names of
//! `UserGameStatsSchema_<appid>.bin`, and what changed between two polls.

use vstd::prelude::*;
use crate::keyvalues::{nodes_view, parse_document, parse_kv, KvNode, KvVal, NodeSpec, ValSpec};
use crate::text::{
    chars_of, decimal_chars, find_from, lemma_split_step, line_views, lines, push_char, push_decimal,
    push_str, range_is, split_lines, split_on, string_of,
};

verus! {

// ---- decimal numbers -------------------------------------------------------

pub open spec fn is_digit(b: u8) -> bool {
    48 <= b <= 57
}

pub open spec fn all_digits(s: Seq<u8>) -> bool {
    forall|i: int| 0 <= i < s.len() ==> is_digit(#[trigger] s[i])
}

/// The value of a run of ASCII digits.
pub open spec fn digits_value(s: Seq<u8>) -> nat
    decreases s.len(),
{
    if s.len() == 0 {
        0
    } else {
        digits_value(s.drop_last()) * 10 + (s.last() - 48) as nat
    }
}

/// What `str::parse::<u32>` accepts: an optional `+`, then one or more ASCII
/// digits whose value fits in 32 bits.
pub open spec fn decimal_u32(s: Seq<u8>) -> Option<u32> {
    let body = if s.len() > 0 && s[0] == 43 {
        s.subrange(1, s.len() as int)
    } else {
        s
    };
    if body.len() > 0 && all_digits(body) && digits_value(body) <= u32::MAX {
        Some(digits_value(body) as u32)
    } else {
        None
    }
}

/// A prefix of a run of digits is worth no more than the whole run.
proof fn lemma_digits_prefix(t: Seq<u8>, k: int)
    requires
        0 <= k <= t.len(),
        all_digits(t),
    ensures
        digits_value(t.subrange(0, k)) <= digits_value(t),
    decreases t.len(),
{
    if k < t.len() {
        let u = t.drop_last();
        assert(all_digits(u));
        assert(u.subrange(0, k) =~= t.subrange(0, k));
        lemma_digits_prefix(u, k);
    } else {
        assert(t.subrange(0, k) =~= t);
    }
}

/// Parse a decimal `u32` the way `str::parse` does.
pub fn parse_decimal(s: &[u8]) -> (r: Option<u32>)
    ensures
        r == decimal_u32(s@),
{
    let mut start: usize = 0;
    if s.len() > 0 && s[0] == 43 {
        start = 1;
    }
    let ghost body = if s@.len() > 0 && s@[0] == 43 {
        s@.subrange(1, s@.len() as int)
    } else {
        s@
    };
    assert(body =~= s@.subrange(start as int, s@.len() as int));
    if start >= s.len() {
        return None;
    }
    let mut acc: u64 = 0;
    let mut i: usize = start;
    while i < s.len()
        invariant
            start <= i <= s@.len(),
            start < s@.len(),
            body == s@.subrange(start as int, s@.len() as int),
            decimal_u32(s@) == if body.len() > 0 && all_digits(body) && digits_value(body) <= u32::MAX {
                Some(digits_value(body) as u32)
            } else {
                None
            },
            all_digits(s@.subrange(start as int, i as int)),
            acc == digits_value(s@.subrange(start as int, i as int)),
            acc <= u32::MAX,
        decreases s@.len() - i,
    {
        let b = s[i];
        if b < 48 || b > 57 {
            assert(body[i - start] == b);
            assert(!all_digits(body));
            return None;
        }
        let ghost pre = s@.subrange(start as int, i as int);
        let ghost next = s@.subrange(start as int, i + 1);
        assert(next.drop_last() =~= pre);
        assert(all_digits(next));
        acc = acc * 10 + (b - 48) as u64;
        if acc > 0xffff_ffff {
            proof {
                if all_digits(body) {
                    assert(body.subrange(0, i + 1 - start) =~= next);
                    lemma_digits_prefix(body, i + 1 - start);
                }
            }
            return None;
        }
        i += 1;
    }
    assert(s@.subrange(start as int, i as int) =~= body);
    Some(acc as u32)
}

// ---- the KeyValues tree --------------------------------------------------------

/// Which list a node belongs to, as the specs number them.
pub open spec fn parent_of(p: Option<usize>) -> Option<int> {
    match p {
        Some(i) => Some(i as int),
        None => None,
    }
}

/// The first node at or after `i` that belongs to `parent` under `key`.
pub open spec fn child_named_from(ns: Seq<NodeSpec>, parent: Option<int>, key: Seq<u8>, i: int) -> Option<int>
    decreases ns.len() - i,
{
    if i < 0 || i >= ns.len() {
        None
    } else if ns[i].parent == parent && ns[i].key == key {
        Some(i)
    } else {
        child_named_from(ns, parent, key, i + 1)
    }
}

/// The first child of `parent` under `key` (what a lookup by key returns).
pub open spec fn child_named(ns: Seq<NodeSpec>, parent: Option<int>, key: Seq<u8>) -> Option<int> {
    child_named_from(ns, parent, key, 0)
}

/// The first node at or after `i` that belongs to `parent`.
pub open spec fn first_child_from(ns: Seq<NodeSpec>, parent: Option<int>, i: int) -> Option<int>
    decreases ns.len() - i,
{
    if i < 0 || i >= ns.len() {
        None
    } else if ns[i].parent == parent {
        Some(i)
    } else {
        first_child_from(ns, parent, i + 1)
    }
}

/// Byte strings equal.
pub fn same_bytes(a: &[u8], b: &[u8]) -> (eq: bool)
    ensures
        eq == (a@ == b@),
{
    if a.len() != b.len() {
        return false;
    }
    let mut i: usize = 0;
    while i < a.len()
        invariant
            a@.len() == b@.len(),
            i <= a@.len(),
            forall|j: int| 0 <= j < i ==> a@[j] == b@[j],
        decreases a@.len() - i,
    {
        if a[i] != b[i] {
            return false;
        }
        i += 1;
    }
    assert(a@ =~= b@);
    true
}

fn same_parent(a: Option<usize>, b: Option<usize>) -> (eq: bool)
    ensures
        eq == (parent_of(a) == parent_of(b)),
{
    match (a, b) {
        (Some(x), Some(y)) => x == y,
        (None, None) => true,
        _ => false,
    }
}

/// The node list's view at one index.
proof fn lemma_view_at(nodes: Seq<KvNode>, i: int)
    requires
        0 <= i < nodes.len(),
    ensures
        nodes_view(nodes).len() == nodes.len(),
        nodes_view(nodes)[i].key == nodes[i].key@,
        nodes_view(nodes)[i].parent == parent_of(nodes[i].parent),
        nodes_view(nodes)[i].val == crate::keyvalues::val_view(nodes[i].val),
{
}

/// The first child of `parent` stored under `key`.
pub fn find_child(nodes: &Vec<KvNode>, parent: Option<usize>, key: &[u8]) -> (r: Option<usize>)
    ensures
        parent_of(r) == child_named(nodes_view(nodes@), parent_of(parent), key@),
{
    let ghost ns = nodes_view(nodes@);
    let mut i: usize = 0;
    while i < nodes.len()
        invariant
            ns == nodes_view(nodes@),
            ns.len() == nodes@.len(),
            i <= nodes@.len(),
            child_named(ns, parent_of(parent), key@) == child_named_from(ns, parent_of(parent), key@, i as int),
        decreases nodes@.len() - i,
    {
        proof {
            lemma_view_at(nodes@, i as int);
        }
        if same_parent(nodes[i].parent, parent) && same_bytes(nodes[i].key.as_slice(), key) {
            return Some(i);
        }
        i += 1;
    }
    None
}

/// The first child of `parent`, whatever its key.
pub fn first_child(nodes: &Vec<KvNode>, parent: Option<usize>) -> (r: Option<usize>)
    ensures
        parent_of(r) == first_child_from(nodes_view(nodes@), parent_of(parent), 0),
{
    let ghost ns = nodes_view(nodes@);
    let mut i: usize = 0;
    while i < nodes.len()
        invariant
            ns == nodes_view(nodes@),
            ns.len() == nodes@.len(),
            i <= nodes@.len(),
            first_child_from(ns, parent_of(parent), 0) == first_child_from(ns, parent_of(parent), i as int),
        decreases nodes@.len() - i,
    {
        proof {
            lemma_view_at(nodes@, i as int);
        }
        if same_parent(nodes[i].parent, parent) {
            return Some(i);
        }
        i += 1;
    }
    None
}

// ---- keyed entries -------------------------------------------------------------

/// The map that inserting `e` in order builds: a later entry under the same
/// key replaces an earlier one.
pub open spec fn entries_map<K, V>(e: Seq<(K, V)>) -> Map<K, V>
    decreases e.len(),
{
    if e.len() == 0 {
        Map::empty()
    } else {
        entries_map(e.drop_last()).insert(e.last().0, e.last().1)
    }
}

/// No key occurs twice.
pub open spec fn distinct_keys<K, V>(e: Seq<(K, V)>) -> bool {
    forall|i: int, j: int| 0 <= i < j < e.len() ==> e[i].0 != e[j].0
}

proof fn lemma_entries_push<K, V>(e: Seq<(K, V)>, x: (K, V))
    ensures
        entries_map(e.push(x)) == entries_map(e).insert(x.0, x.1),
{
    assert(e.push(x).drop_last() =~= e);
}

proof fn lemma_entries_update<K, V>(e: Seq<(K, V)>, j: int, x: (K, V))
    requires
        distinct_keys(e),
        0 <= j < e.len(),
        e[j].0 == x.0,
    ensures
        entries_map(e.update(j, x)) == entries_map(e).insert(x.0, x.1),
    decreases e.len(),
{
    let d = e.drop_last();
    if j == e.len() - 1 {
        assert(e.update(j, x).drop_last() =~= d);
        assert(entries_map(e.update(j, x)) =~= entries_map(e).insert(x.0, x.1));
    } else {
        assert(distinct_keys(d));
        lemma_entries_update(d, j, x);
        assert(e.update(j, x).drop_last() =~= d.update(j, x));
        assert(e[j].0 != e[e.len() - 1].0);
        assert(entries_map(e.update(j, x)) =~= entries_map(e).insert(x.0, x.1));
    }
}

/// Where `k` is stored in `v`, if anywhere.
pub fn key_index<V>(v: &Vec<((u32, u32), V)>, k: (u32, u32)) -> (r: Option<usize>)
    ensures
        match r {
            Some(j) => j < v@.len() && v@[j as int].0 == k,
            None => forall|m: int| 0 <= m < v@.len() ==> v@[m].0 != k,
        },
{
    let mut j: usize = 0;
    while j < v.len()
        invariant
            j <= v@.len(),
            forall|m: int| 0 <= m < j ==> v@[m].0 != k,
        decreases v@.len() - j,
    {
        if v[j].0.0 == k.0 && v[j].0.1 == k.1 {
            return Some(j);
        }
        j += 1;
    }
    None
}

/// One entry per key, holding the value of the key's last occurrence.
pub fn keep_last<V>(cands: Vec<((u32, u32), V)>) -> (out: Vec<((u32, u32), V)>)
    ensures
        distinct_keys(out@),
        entries_map(out@) == entries_map(cands@),
{
    let ghost orig = cands@;
    let mut rest = cands;
    let mut out: Vec<((u32, u32), V)> = Vec::new();
    let ghost mut done: Seq<((u32, u32), V)> = Seq::empty();
    assert(orig =~= done + rest@);
    while rest.len() > 0
        invariant
            orig == done + rest@,
            distinct_keys(out@),
            entries_map(out@) == entries_map(done),
        decreases rest@.len(),
    {
        let ghost before = rest@;
        let x = rest.remove(0);
        proof {
            assert(done.push(x) + rest@ =~= done + before);
            lemma_entries_push(done, x);
            done = done.push(x);
        }
        match key_index(&out, x.0) {
            Some(j) => {
                proof {
                    lemma_entries_update(out@, j as int, x);
                }
                out.set(j, x);
            },
            None => {
                proof {
                    lemma_entries_push(out@, x);
                }
                out.push(x);
            },
        }
    }
    assert(done =~= orig);
    out
}

// ---- unlocked achievements -----------------------------------------------------

pub open spec fn cache_key() -> Seq<u8> {
    seq![99u8, 97, 99, 104, 101]
}

pub open spec fn times_key() -> Seq<u8> {
    seq![65u8, 99, 104, 105, 101, 118, 101, 109, 101, 110, 116, 84, 105, 109, 101, 115]
}

fn cache_key_bytes() -> (k: Vec<u8>)
    ensures
        k@ == cache_key(),
{
    let k = vec![99u8, 97, 99, 104, 101];
    assert(k@ =~= cache_key());
    k
}

fn times_key_bytes() -> (k: Vec<u8>)
    ensures
        k@ == times_key(),
{
    let k = vec![65u8, 99, 104, 105, 101, 118, 101, 109, 101, 110, 116, 84, 105, 109, 101, 115];
    assert(k@ =~= times_key());
    k
}

pub open spec fn int_value(v: ValSpec) -> Option<i32> {
    match v {
        ValSpec::Int(i) => Some(i),
        _ => None,
    }
}

/// The unlock times among nodes `0..n` that sit in the times list `tm` of
/// achievement set `sid`: those with a decimal key and a positive integer.
pub open spec fn time_entries_upto(ns: Seq<NodeSpec>, sid: u32, tm: int, n: int) -> Seq<((u32, u32), i64)>
    decreases n,
{
    if n <= 0 || n > ns.len() {
        Seq::empty()
    } else {
        let prev = time_entries_upto(ns, sid, tm, n - 1);
        let x = ns[n - 1];
        match (decimal_u32(x.key), int_value(x.val)) {
            (Some(idx), Some(t)) => if x.parent == Some(tm) && t > 0 {
                prev.push(((sid, idx), t as i64))
            } else {
                prev
            },
            _ => prev,
        }
    }
}

/// The unlock times of the set stored at node `s`: nothing unless its key is
/// a decimal set number and it holds an `AchievementTimes` list.
pub open spec fn set_times(ns: Seq<NodeSpec>, s: int) -> Seq<((u32, u32), i64)> {
    match decimal_u32(ns[s].key) {
        None => Seq::empty(),
        Some(sid) => match child_named(ns, Some(s), times_key()) {
            None => Seq::empty(),
            Some(tm) => time_entries_upto(ns, sid, tm, ns.len() as int),
        },
    }
}

/// The unlock times of the sets among nodes `0..n` that belong to `cache`.
pub open spec fn set_entries_upto(ns: Seq<NodeSpec>, cache: Option<int>, n: int) -> Seq<((u32, u32), i64)>
    decreases n,
{
    if n <= 0 || n > ns.len() {
        Seq::empty()
    } else {
        set_entries_upto(ns, cache, n - 1) + if ns[n - 1].parent == cache {
            set_times(ns, n - 1)
        } else {
            Seq::empty()
        }
    }
}

/// Every unlock time of a stats document, in document order: the sets are
/// the children of the top-level `cache` list, or of the top level itself
/// when there is none.
pub open spec fn unlock_entries(ns: Seq<NodeSpec>) -> Seq<((u32, u32), i64)> {
    set_entries_upto(ns, child_named(ns, None, cache_key()), ns.len() as int)
}

/// What a stats file's bytes say is unlocked: `(set, index) -> unix time`.
pub open spec fn unlocked_map(d: Seq<u8>) -> Map<(u32, u32), i64> {
    match parse_document(d) {
        Some(ns) => entries_map(unlock_entries(ns)),
        None => Map::empty(),
    }
}

fn push_times(nodes: &Vec<KvNode>, sid: u32, tm: usize, out: &mut Vec<((u32, u32), i64)>)
    ensures
        final(out)@ == old(out)@ + time_entries_upto(
            nodes_view(nodes@),
            sid,
            tm as int,
            nodes@.len() as int,
        ),
{
    let ghost ns = nodes_view(nodes@);
    let ghost start = out@;
    let mut i: usize = 0;
    assert(start =~= start + time_entries_upto(ns, sid, tm as int, 0));
    while i < nodes.len()
        invariant
            ns == nodes_view(nodes@),
            ns.len() == nodes@.len(),
            i <= nodes@.len(),
            out@ == start + time_entries_upto(ns, sid, tm as int, i as int),
        decreases nodes@.len() - i,
    {
        proof {
            lemma_view_at(nodes@, i as int);
        }
        if same_parent(nodes[i].parent, Some(tm)) {
            match parse_decimal(nodes[i].key.as_slice()) {
                Some(idx) => match &nodes[i].val {
                    KvVal::Int(t) => {
                        if *t > 0 {
                            let ghost prev = out@;
                            out.push(((sid, idx), *t as i64));
                            assert(out@ =~= start + time_entries_upto(ns, sid, tm as int, i + 1));
                        }
                    },
                    _ => {},
                },
                None => {},
            }
        }
        assert(out@ =~= start + time_entries_upto(ns, sid, tm as int, i + 1));
        i += 1;
    }
}

/// Every unlock time in a parsed stats document, in document order.
pub fn unlock_candidates(nodes: &Vec<KvNode>) -> (out: Vec<((u32, u32), i64)>)
    ensures
        out@ == unlock_entries(nodes_view(nodes@)),
{
    let ghost ns = nodes_view(nodes@);
    let ck = cache_key_bytes();
    let tk = times_key_bytes();
    let cache = find_child(nodes, None, ck.as_slice());
    let mut out: Vec<((u32, u32), i64)> = Vec::new();
    let mut i: usize = 0;
    while i < nodes.len()
        invariant
            ns == nodes_view(nodes@),
            ns.len() == nodes@.len(),
            i <= nodes@.len(),
            tk@ == times_key(),
            parent_of(cache) == child_named(ns, None, cache_key()),
            out@ == set_entries_upto(ns, parent_of(cache), i as int),
        decreases nodes@.len() - i,
    {
        proof {
            lemma_view_at(nodes@, i as int);
        }
        let ghost prev = out@;
        if same_parent(nodes[i].parent, cache) {
            match parse_decimal(nodes[i].key.as_slice()) {
                Some(sid) => match find_child(nodes, Some(i), tk.as_slice()) {
                    Some(tm) => push_times(nodes, sid, tm, &mut out),
                    None => {},
                },
                None => {},
            }
            assert(out@ =~= prev + set_times(ns, i as int));
        } else {
            assert(out@ =~= prev + Seq::<((u32, u32), i64)>::empty());
        }
        i += 1;
    }
    out
}

/// The unlocked achievements a stats file records, one entry per
/// `(set, index)` with its unix unlock time. A file that does not parse
/// records none.
pub fn parse_unlocked(d: &[u8]) -> (out: Vec<((u32, u32), i64)>)
    ensures
        distinct_keys(out@),
        entries_map(out@) == unlocked_map(d@),
{
    match parse_kv(d) {
        Some(nodes) => keep_last(unlock_candidates(&nodes)),
        None => {
            let out: Vec<((u32, u32), i64)> = Vec::new();
            assert(entries_map(out@) =~= Map::<(u32, u32), i64>::empty());
            out
        },
    }
}

// ---- achievement names -----------------------------------------------------------

/// `String::from_utf8_lossy`: what it makes of a byte string.
pub uninterp spec fn lossy_text(b: Seq<u8>) -> Seq<char>;

/// Calls `String::from_utf8_lossy` and owns the result. The contract names
/// the decoded text `lossy_text` rather than spelling out UTF-8 decoding; it
/// states only that ASCII bytes come back as the same characters.
#[verifier::external_body]
fn lossy_string(b: &[u8]) -> (s: String)
    ensures
        s@ == lossy_text(b@),
        (forall|i: int| 0 <= i < b@.len() ==> b@[i] < 128) ==> s@ == b@.map_values(
            |x: u8| x as char,
        ),
{
    String::from_utf8_lossy(b).into_owned()
}

pub open spec fn stats_key() -> Seq<u8> {
    seq![115u8, 116, 97, 116, 115]
}

pub open spec fn bits_key() -> Seq<u8> {
    seq![98u8, 105, 116, 115]
}

pub open spec fn display_key() -> Seq<u8> {
    seq![100u8, 105, 115, 112, 108, 97, 121]
}

pub open spec fn name_key() -> Seq<u8> {
    seq![110u8, 97, 109, 101]
}

pub open spec fn french_key() -> Seq<u8> {
    seq![102u8, 114, 101, 110, 99, 104]
}

pub open spec fn english_key() -> Seq<u8> {
    seq![101u8, 110, 103, 108, 105, 115, 104]
}

fn stats_key_bytes() -> (k: Vec<u8>)
    ensures
        k@ == stats_key(),
{
    let k = vec![115u8, 116, 97, 116, 115];
    assert(k@ =~= stats_key());
    k
}

fn bits_key_bytes() -> (k: Vec<u8>)
    ensures
        k@ == bits_key(),
{
    let k = vec![98u8, 105, 116, 115];
    assert(k@ =~= bits_key());
    k
}

fn display_key_bytes() -> (k: Vec<u8>)
    ensures
        k@ == display_key(),
{
    let k = vec![100u8, 105, 115, 112, 108, 97, 121];
    assert(k@ =~= display_key());
    k
}

fn name_key_bytes() -> (k: Vec<u8>)
    ensures
        k@ == name_key(),
{
    let k = vec![110u8, 97, 109, 101];
    assert(k@ =~= name_key());
    k
}

fn french_key_bytes() -> (k: Vec<u8>)
    ensures
        k@ == french_key(),
{
    let k = vec![102u8, 114, 101, 110, 99, 104];
    assert(k@ =~= french_key());
    k
}

fn english_key_bytes() -> (k: Vec<u8>)
    ensures
        k@ == english_key(),
{
    let k = vec![101u8, 110, 103, 108, 105, 115, 104];
    assert(k@ =~= english_key());
    k
}

pub open spec fn str_value(v: ValSpec) -> Option<Seq<u8>> {
    match v {
        ValSpec::Str(s) => Some(s),
        _ => None,
    }
}

/// The string of node `x`, when there is such a node and it holds a string.
pub open spec fn str_at(ns: Seq<NodeSpec>, x: Option<int>) -> Option<Seq<u8>> {
    match x {
        Some(i) => str_value(ns[i].val),
        None => None,
    }
}

/// `display.name` of achievement node `b`: its `french` entry, else its
/// `english` one, else its first; kept only when that entry is a string.
pub open spec fn display_name(ns: Seq<NodeSpec>, b: int) -> Option<Seq<u8>> {
    match child_named(ns, Some(b), display_key()) {
        None => None,
        Some(dn) => match child_named(ns, Some(dn), name_key()) {
            None => None,
            Some(nn) => str_at(
                ns,
                match child_named(ns, Some(nn), french_key()) {
                    Some(x) => Some(x),
                    None => match child_named(ns, Some(nn), english_key()) {
                        Some(x) => Some(x),
                        None => first_child_from(ns, Some(nn), 0),
                    },
                },
            ),
        },
    }
}

/// The name shown for achievement node `b`: its display name, else its own
/// `name` string, else nothing.
pub open spec fn bit_name(ns: Seq<NodeSpec>, b: int) -> Seq<u8> {
    match display_name(ns, b) {
        Some(s) => s,
        None => match str_at(ns, child_named(ns, Some(b), name_key())) {
            Some(s) => s,
            None => Seq::empty(),
        },
    }
}

/// The achievements among nodes `0..n` in the `bits` list of set `sid`.
pub open spec fn bit_entries_upto(ns: Seq<NodeSpec>, sid: u32, bits: int, n: int) -> Seq<((u32, u32), Seq<u8>)>
    decreases n,
{
    if n <= 0 || n > ns.len() {
        Seq::empty()
    } else {
        let prev = bit_entries_upto(ns, sid, bits, n - 1);
        match decimal_u32(ns[n - 1].key) {
            Some(idx) => if ns[n - 1].parent == Some(bits) {
                prev.push(((sid, idx), bit_name(ns, n - 1)))
            } else {
                prev
            },
            None => prev,
        }
    }
}

/// The achievements of the set stored at node `s`.
pub open spec fn set_names(ns: Seq<NodeSpec>, s: int) -> Seq<((u32, u32), Seq<u8>)> {
    match decimal_u32(ns[s].key) {
        None => Seq::empty(),
        Some(sid) => match child_named(ns, Some(s), bits_key()) {
            None => Seq::empty(),
            Some(b) => bit_entries_upto(ns, sid, b, ns.len() as int),
        },
    }
}

/// The achievements of the sets among nodes `0..n` in the `stats` list `st`.
pub open spec fn set_names_upto(ns: Seq<NodeSpec>, st: int, n: int) -> Seq<((u32, u32), Seq<u8>)>
    decreases n,
{
    if n <= 0 || n > ns.len() {
        Seq::empty()
    } else {
        set_names_upto(ns, st, n - 1) + if ns[n - 1].parent == Some(st) {
            set_names(ns, n - 1)
        } else {
            Seq::empty()
        }
    }
}

/// Every achievement name of a schema document, in document order, under
/// `<app> { stats { <set> { bits { <index> { ... } } } } }` where `<app>` is
/// the first top-level entry (the top level itself when there is none).
pub open spec fn name_entries(ns: Seq<NodeSpec>) -> Seq<((u32, u32), Seq<u8>)> {
    match child_named(ns, first_child_from(ns, None, 0), stats_key()) {
        None => Seq::empty(),
        Some(st) => set_names_upto(ns, st, ns.len() as int),
    }
}

pub open spec fn decoded(e: Seq<((u32, u32), Seq<u8>)>) -> Seq<((u32, u32), Seq<char>)> {
    e.map_values(|x: ((u32, u32), Seq<u8>)| (x.0, lossy_text(x.1)))
}

pub open spec fn names_view(v: Seq<((u32, u32), String)>) -> Seq<((u32, u32), Seq<char>)> {
    v.map_values(|x: ((u32, u32), String)| (x.0, x.1@))
}

/// What a schema file's bytes name each achievement: `(set, index) -> name`.
pub open spec fn schema_map(d: Seq<u8>) -> Map<(u32, u32), Seq<char>> {
    match parse_document(d) {
        Some(ns) => entries_map(decoded(name_entries(ns))),
        None => Map::empty(),
    }
}

proof fn lemma_names_map(v: Seq<((u32, u32), String)>)
    ensures
        entries_map(names_view(v)) == entries_map(v).map_values(|s: String| s@),
    decreases v.len(),
{
    if v.len() > 0 {
        lemma_names_map(v.drop_last());
        assert(names_view(v).drop_last() =~= names_view(v.drop_last()));
    }
    assert(entries_map(names_view(v)) =~= entries_map(v).map_values(|s: String| s@));
}

/// The string held by node `x`, if it holds one.
fn str_of<'a>(nodes: &'a Vec<KvNode>, x: Option<usize>) -> (r: Option<&'a [u8]>)
    requires
        x matches Some(i) ==> i < nodes@.len(),
    ensures
        match str_at(nodes_view(nodes@), parent_of(x)) {
            Some(s) => r matches Some(b) && b@ == s,
            None => r is None,
        },
{
    match x {
        Some(i) => {
            proof {
                lemma_view_at(nodes@, i as int);
            }
            match &nodes[i].val {
                KvVal::Str(s) => Some(s.as_slice()),
                _ => None,
            }
        },
        None => None,
    }
}

proof fn lemma_child_in_range(ns: Seq<NodeSpec>, parent: Option<int>, key: Seq<u8>, i: int)
    requires
        i >= 0,
    ensures
        child_named_from(ns, parent, key, i) matches Some(j) ==> i <= j < ns.len() && ns[j].parent == parent,
        first_child_from(ns, parent, i) matches Some(j) ==> i <= j < ns.len() && ns[j].parent == parent,
    decreases ns.len() - i,
{
    if i < ns.len() {
        lemma_child_in_range(ns, parent, key, i + 1);
    }
}

/// The bytes of the name shown for achievement node `b`.
fn bit_name_bytes<'a>(nodes: &'a Vec<KvNode>, b: usize, keys: &NameKeys) -> (r: &'a [u8])
    requires
        b < nodes@.len(),
        keys.wf(),
    ensures
        r@ == bit_name(nodes_view(nodes@), b as int),
{
    let ghost ns = nodes_view(nodes@);
    proof {
        lemma_view_at(nodes@, b as int);
        lemma_child_in_range(ns, Some(b as int), display_key(), 0);
    }
    let via_display: Option<&'a [u8]> = match find_child(nodes, Some(b), keys.display.as_slice()) {
        None => None,
        Some(dn) => {
            proof {
                lemma_child_in_range(ns, Some(dn as int), name_key(), 0);
            }
            match find_child(nodes, Some(dn), keys.name.as_slice()) {
                None => None,
                Some(nn) => {
                    proof {
                        lemma_child_in_range(ns, Some(nn as int), french_key(), 0);
                        lemma_child_in_range(ns, Some(nn as int), english_key(), 0);
                    }
                    let pick = match find_child(nodes, Some(nn), keys.french.as_slice()) {
                        Some(x) => Some(x),
                        None => match find_child(nodes, Some(nn), keys.english.as_slice()) {
                            Some(x) => Some(x),
                            None => first_child(nodes, Some(nn)),
                        },
                    };
                    str_of(nodes, pick)
                },
            }
        },
    };
    match via_display {
        Some(s) => s,
        None => {
            proof {
                lemma_child_in_range(ns, Some(b as int), name_key(), 0);
            }
            match str_of(nodes, find_child(nodes, Some(b), keys.name.as_slice())) {
                Some(s) => s,
                None => &[],
            }
        },
    }
}

/// The keys a schema lookup goes by.
struct NameKeys {
    stats: Vec<u8>,
    bits: Vec<u8>,
    display: Vec<u8>,
    name: Vec<u8>,
    french: Vec<u8>,
    english: Vec<u8>,
}

impl NameKeys {
    spec fn wf(&self) -> bool {
        &&& self.stats@ == stats_key()
        &&& self.bits@ == bits_key()
        &&& self.display@ == display_key()
        &&& self.name@ == name_key()
        &&& self.french@ == french_key()
        &&& self.english@ == english_key()
    }

    fn new() -> (k: NameKeys)
        ensures
            k.wf(),
    {
        NameKeys {
            stats: stats_key_bytes(),
            bits: bits_key_bytes(),
            display: display_key_bytes(),
            name: name_key_bytes(),
            french: french_key_bytes(),
            english: english_key_bytes(),
        }
    }
}

fn push_names(nodes: &Vec<KvNode>, sid: u32, bits: usize, keys: &NameKeys, out: &mut Vec<((u32, u32), String)>)
    requires
        keys.wf(),
    ensures
        names_view(final(out)@) == names_view(old(out)@) + decoded(
            bit_entries_upto(nodes_view(nodes@), sid, bits as int, nodes@.len() as int),
        ),
{
    let ghost ns = nodes_view(nodes@);
    let ghost start = names_view(out@);
    let mut i: usize = 0;
    assert(names_view(out@) =~= start + decoded(bit_entries_upto(ns, sid, bits as int, 0)));
    while i < nodes.len()
        invariant
            ns == nodes_view(nodes@),
            ns.len() == nodes@.len(),
            i <= nodes@.len(),
            keys.wf(),
            names_view(out@) == start + decoded(bit_entries_upto(ns, sid, bits as int, i as int)),
        decreases nodes@.len() - i,
    {
        proof {
            lemma_view_at(nodes@, i as int);
        }
        let ghost prev = out@;
        if same_parent(nodes[i].parent, Some(bits)) {
            match parse_decimal(nodes[i].key.as_slice()) {
                Some(idx) => {
                    let name = lossy_string(bit_name_bytes(nodes, i, keys));
                    out.push(((sid, idx), name));
                    assert(names_view(out@) =~= names_view(prev).push(((sid, idx), name@)));
                },
                None => {},
            }
        }
        assert(names_view(out@) =~= start + decoded(bit_entries_upto(ns, sid, bits as int, i + 1)));
        i += 1;
    }
}

/// Every achievement name in a parsed schema document, in document order.
pub fn name_candidates(nodes: &Vec<KvNode>) -> (out: Vec<((u32, u32), String)>)
    ensures
        names_view(out@) == decoded(name_entries(nodes_view(nodes@))),
{
    let ghost ns = nodes_view(nodes@);
    let keys = NameKeys::new();
    let mut out: Vec<((u32, u32), String)> = Vec::new();
    let app = first_child(nodes, None);
    proof {
        lemma_child_in_range(ns, None, stats_key(), 0);
    }
    let st = match find_child(nodes, app, keys.stats.as_slice()) {
        Some(st) => st,
        None => {
            assert(names_view(out@) =~= decoded(name_entries(ns)));
            return out;
        },
    };
    let mut i: usize = 0;
    assert(names_view(out@) =~= decoded(set_names_upto(ns, st as int, 0)));
    while i < nodes.len()
        invariant
            ns == nodes_view(nodes@),
            ns.len() == nodes@.len(),
            i <= nodes@.len(),
            keys.wf(),
            name_entries(ns) == set_names_upto(ns, st as int, ns.len() as int),
            names_view(out@) == decoded(set_names_upto(ns, st as int, i as int)),
        decreases nodes@.len() - i,
    {
        proof {
            lemma_view_at(nodes@, i as int);
        }
        let ghost prev = names_view(out@);
        if same_parent(nodes[i].parent, Some(st)) {
            match parse_decimal(nodes[i].key.as_slice()) {
                Some(sid) => match find_child(nodes, Some(i), keys.bits.as_slice()) {
                    Some(b) => push_names(nodes, sid, b, &keys, &mut out),
                    None => {},
                },
                None => {},
            }
            assert(names_view(out@) =~= prev + decoded(set_names(ns, i as int)));
        }
        assert(names_view(out@) =~= decoded(set_names_upto(ns, st as int, i + 1)));
        i += 1;
    }
    out
}

/// The achievement names a schema file records, one entry per
/// `(set, index)`. A file that does not parse names none.
pub fn parse_schema_names(d: &[u8]) -> (out: Vec<((u32, u32), String)>)
    ensures
        distinct_keys(out@),
        entries_map(names_view(out@)) == schema_map(d@),
{
    match parse_kv(d) {
        Some(nodes) => {
            let cands = name_candidates(&nodes);
            let out = keep_last(cands);
            proof {
                lemma_names_map(out@);
                lemma_names_map(cands@);
            }
            out
        },
        None => {
            let out: Vec<((u32, u32), String)> = Vec::new();
            assert(entries_map(names_view(out@)) =~= Map::<(u32, u32), Seq<char>>::empty());
            out
        },
    }
}

// ---- lookups in keyed entries --------------------------------------------------

proof fn lemma_entries_dom<K, V>(v: Seq<(K, V)>, k: K)
    ensures
        entries_map(v).contains_key(k) <==> exists|i: int| 0 <= i < v.len() && #[trigger] v[i].0 == k,
    decreases v.len(),
{
    if v.len() > 0 {
        let d = v.drop_last();
        lemma_entries_dom(d, k);
        if entries_map(d).contains_key(k) {
            let i = choose|i: int| 0 <= i < d.len() && #[trigger] d[i].0 == k;
            assert(v[i].0 == k);
        }
        if exists|i: int| 0 <= i < v.len() && #[trigger] v[i].0 == k {
            let i = choose|i: int| 0 <= i < v.len() && #[trigger] v[i].0 == k;
            if i < v.len() - 1 {
                assert(d[i].0 == k);
            }
        }
    }
}

proof fn lemma_entries_lookup<K, V>(v: Seq<(K, V)>, j: int)
    requires
        distinct_keys(v),
        0 <= j < v.len(),
    ensures
        entries_map(v).contains_key(v[j].0),
        entries_map(v)[v[j].0] == v[j].1,
    decreases v.len(),
{
    if j < v.len() - 1 {
        let d = v.drop_last();
        assert(distinct_keys(d));
        lemma_entries_lookup(d, j);
        assert(v[j].0 != v[v.len() - 1].0);
    }
}

// ---- following the running game ---------------------------------------------------

/// The game in the foreground.
#[derive(Debug, Clone)]
pub struct Game {
    pub appid: u32,
    pub name: String,
}

/// One newly unlocked achievement, for the notification scene.
#[derive(Debug, Clone)]
pub struct Unlock {
    pub game: String,
    pub name: String,
    pub unlocked: u32,
    pub total: u32,
}

/// A game that just started, for the launch scene.
#[derive(Debug, Clone)]
pub struct Launch {
    pub appid: u32,
    pub name: String,
    pub unlocked: u32,
    pub total: u32,
}

pub struct UnlockView {
    pub game: Seq<char>,
    pub name: Seq<char>,
    pub unlocked: u32,
    pub total: u32,
}

pub struct LaunchView {
    pub appid: u32,
    pub name: Seq<char>,
    pub unlocked: u32,
    pub total: u32,
}

pub open spec fn unlock_view(u: Unlock) -> UnlockView {
    UnlockView { game: u.game@, name: u.name@, unlocked: u.unlocked, total: u.total }
}

pub open spec fn unlock_views(s: Seq<Unlock>) -> Seq<UnlockView> {
    s.map_values(|u: Unlock| unlock_view(u))
}

pub open spec fn launch_view(l: Launch) -> LaunchView {
    LaunchView { appid: l.appid, name: l.name@, unlocked: l.unlocked, total: l.total }
}

/// What the caller does next in a poll.
#[derive(Debug, Clone, Copy, PartialEq, Eq, Structural)]
pub enum PollStep {
    /// Another game runs now: read its name, schema, stats and their time,
    /// then call `switch_game`.
    Switch(u32),
    /// The game stopped; nothing to report.
    Cleared,
    /// The same game still runs: read its stats file's time and call
    /// `stats_changed`.
    CheckStats(u32),
    /// No game runs; nothing to do.
    Idle,
}

/// The achievement state of the running game, between polls.
pub struct Steam {
    account: u32,
    game: Option<Game>,
    unlocked: Vec<((u32, u32), i64)>,
    names: Vec<((u32, u32), String)>,
    total: u32,
    stats_mtime: Option<(u64, u32)>,
    pending_launch: Option<Launch>,
    started: bool,
}

/// `Steam` as plain data. `unlocked` holds `(set, index)` with the unlock
/// time, `names` the display names, each key once.
pub struct SteamView {
    pub account: u32,
    pub game: Option<(u32, Seq<char>)>,
    pub unlocked: Seq<((u32, u32), i64)>,
    pub names: Seq<((u32, u32), Seq<char>)>,
    pub total: u32,
    pub stats_mtime: Option<(u64, u32)>,
    pub pending: Option<LaunchView>,
    pub started: bool,
}

impl View for Steam {
    type V = SteamView;

    closed spec fn view(&self) -> SteamView {
        SteamView {
            account: self.account,
            game: match self.game {
                Some(g) => Some((g.appid, g.name@)),
                None => None,
            },
            unlocked: self.unlocked@,
            names: names_view(self.names@),
            total: self.total,
            stats_mtime: self.stats_mtime,
            pending: match self.pending_launch {
                Some(l) => Some(launch_view(l)),
                None => None,
            },
            started: self.started,
        }
    }
}

/// `App <id>`: the name of a game whose manifest was not found.
pub open spec fn app_label(appid: u32) -> Seq<char> {
    seq!['A', 'p', 'p', ' '] + crate::text::decimal_chars(appid as nat)
}

/// `Achievement <index>`: the name of an achievement the schema lacks.
pub open spec fn achievement_label(idx: u32) -> Seq<char> {
    seq!['A', 'c', 'h', 'i', 'e', 'v', 'e', 'm', 'e', 'n', 't', ' '] + crate::text::decimal_chars(
        idx as nat,
    )
}

/// The notification for achievement `k`, when `count` are unlocked now.
pub open spec fn unlock_for(
    k: (u32, u32),
    game: Seq<char>,
    names: Map<(u32, u32), Seq<char>>,
    count: nat,
    total: u32,
) -> UnlockView {
    UnlockView {
        game,
        name: if names.contains_key(k) {
            names[k]
        } else {
            achievement_label(k.1)
        },
        unlocked: count as u32,
        total: if total >= count as u32 {
            total
        } else {
            count as u32
        },
    }
}

/// The notifications for the entries `0..n` of `fresh` whose keys `before`
/// lacks, in `fresh`'s order.
pub open spec fn new_unlocks(
    fresh: Seq<((u32, u32), i64)>,
    before: Map<(u32, u32), i64>,
    names: Map<(u32, u32), Seq<char>>,
    game: Seq<char>,
    total: u32,
    n: int,
) -> Seq<UnlockView>
    decreases n,
{
    if n <= 0 || n > fresh.len() {
        Seq::empty()
    } else {
        let prev = new_unlocks(fresh, before, names, game, total, n - 1);
        if before.contains_key(fresh[n - 1].0) {
            prev
        } else {
            prev.push(unlock_for(fresh[n - 1].0, game, names, fresh.len(), total))
        }
    }
}

fn label(prefix: &str, n: u32) -> (s: String)
    ensures
        s@ == prefix@ + crate::text::decimal_chars(n as nat),
{
    let mut s = String::new();
    crate::text::push_str(&mut s, prefix);
    crate::text::push_decimal(&mut s, n);
    s
}

impl Steam {
    /// Each achievement once, in both tables; while a game is followed, the
    /// total is its schema's count.
    pub closed spec fn wf(&self) -> bool {
        &&& distinct_keys(self.unlocked@)
        &&& distinct_keys(self.names@)
        &&& self.game is Some ==> self.total == self.names@.len() as u32
    }

    /// Nothing known yet for `account`'s games.
    pub fn new(account: u32) -> (s: Steam)
        ensures
            s.wf(),
            s@ == (SteamView {
                account,
                game: None,
                unlocked: Seq::empty(),
                names: Seq::empty(),
                total: 0,
                stats_mtime: None,
                pending: None,
                started: false,
            }),
    {
        let s = Steam {
            account,
            game: None,
            unlocked: Vec::new(),
            names: Vec::new(),
            total: 0,
            stats_mtime: None,
            pending_launch: None,
            started: false,
        };
        assert(names_view(s.names@) =~= Seq::empty());
        s
    }

    /// The Steam account whose stats files are read.
    pub fn account(&self) -> (a: u32)
        ensures
            a == self@.account,
    {
        self.account
    }

    /// The game being followed, if any.
    pub fn current_game(&self) -> (g: Option<&Game>)
        ensures
            match g {
                Some(x) => self@.game == Some((x.appid, x.name@)),
                None => self@.game is None,
            },
    {
        self.game.as_ref()
    }

    /// A game that started since the last call, once (none for a game that
    /// was already running at the first poll).
    pub fn take_launch(&mut self) -> (l: Option<Launch>)
        requires
            old(self).wf(),
        ensures
            final(self).wf(),
            match l {
                Some(x) => old(self)@.pending == Some(launch_view(x)),
                None => old(self)@.pending is None,
            },
            final(self)@ == (SteamView { pending: None, ..old(self)@ }),
    {
        self.pending_launch.take()
    }

    /// Start a poll with the app id of the game running now, if any.
    pub fn begin_poll(&mut self, running: Option<u32>) -> (step: PollStep)
        requires
            old(self).wf(),
        ensures
            final(self).wf(),
            ({
                let cur = match old(self)@.game {
                    Some(g) => Some(g.0),
                    None => None,
                };
                if running != cur {
                    match running {
                        Some(id) => step == PollStep::Switch(id) && final(self)@ == old(self)@,
                        None => step == PollStep::Cleared && final(self)@ == (SteamView {
                            game: None,
                            unlocked: Seq::empty(),
                            names: Seq::empty(),
                            stats_mtime: None,
                            started: true,
                            ..old(self)@
                        }),
                    }
                } else {
                    &&& step == match old(self)@.game {
                        Some(g) => PollStep::CheckStats(g.0),
                        None => PollStep::Idle,
                    }
                    &&& final(self)@ == (SteamView { started: true, ..old(self)@ })
                }
            }),
    {
        let cur: Option<u32> = match &self.game {
            Some(g) => Some(g.appid),
            None => None,
        };
        let same = match (running, cur) {
            (Some(a), Some(b)) => a == b,
            (None, None) => true,
            _ => false,
        };
        if !same {
            match running {
                Some(id) => PollStep::Switch(id),
                None => {
                    self.game = None;
                    self.unlocked = Vec::new();
                    self.names = Vec::new();
                    self.stats_mtime = None;
                    self.started = true;
                    assert(names_view(self.names@) =~= Seq::empty());
                    PollStep::Cleared
                },
            }
        } else {
            self.started = true;
            match &self.game {
                Some(g) => PollStep::CheckStats(g.appid),
                None => PollStep::Idle,
            }
        }
    }

    /// Follow game `appid` from now on: `name` from its manifest (when one
    /// was found), the bytes of its schema and stats files, and the stats
    /// file's modification time. What it has unlocked already is not news; a
    /// launch is announced unless this is the first poll.
    pub fn switch_game(
        &mut self,
        appid: u32,
        name: Option<String>,
        schema: &[u8],
        stats_mtime: Option<(u64, u32)>,
        stats: &[u8],
    )
        requires
            old(self).wf(),
        ensures
            final(self).wf(),
            ({
                let nm = match name {
                    Some(n) => n@,
                    None => app_label(appid),
                };
                let f = final(self)@;
                &&& entries_map(f.unlocked) == unlocked_map(stats@)
                &&& entries_map(f.names) == schema_map(schema@)
                &&& f.account == old(self)@.account
                &&& f.game == Some((appid, nm))
                &&& f.total == f.names.len() as u32
                &&& f.stats_mtime == stats_mtime
                &&& f.started
                &&& f.pending == if old(self)@.started {
                    Some(
                        LaunchView {
                            appid,
                            name: nm,
                            unlocked: f.unlocked.len() as u32,
                            total: f.total,
                        },
                    )
                } else {
                    old(self)@.pending
                }
            }),
    {
        let nm = match name {
            Some(n) => n,
            None => label("App ", appid),
        };
        proof {
            reveal_strlit("App ");
            assert(seq!['A', 'p', 'p', ' '] =~= "App "@);
        }
        self.names = parse_schema_names(schema);
        self.total = self.names.len() as u32;
        self.stats_mtime = stats_mtime;
        self.unlocked = parse_unlocked(stats);
        if self.started {
            self.pending_launch = Some(
                Launch { appid, name: nm.clone(), unlocked: self.unlocked.len() as u32, total: self.total },
            );
        }
        self.game = Some(Game { appid, name: nm });
        self.started = true;
    }

    /// The stats file's modification time now. Returns whether it changed
    /// since the last read (and then remembers it).
    pub fn stats_changed(&mut self, mtime: Option<(u64, u32)>) -> (changed: bool)
        requires
            old(self).wf(),
        ensures
            final(self).wf(),
            changed == (mtime != old(self)@.stats_mtime),
            final(self)@ == if changed {
                SteamView { stats_mtime: mtime, ..old(self)@ }
            } else {
                old(self)@
            },
    {
        let same = match (mtime, self.stats_mtime) {
            (Some(a), Some(b)) => a.0 == b.0 && a.1 == b.1,
            (None, None) => true,
            _ => false,
        };
        if same {
            false
        } else {
            self.stats_mtime = mtime;
            true
        }
    }

    /// Take the stats file's new bytes: the achievements not unlocked before,
    /// in the order the state now keeps them.
    pub fn apply_stats(&mut self, stats: &[u8]) -> (fresh_unlocks: Vec<Unlock>)
        requires
            old(self).wf(),
        ensures
            final(self).wf(),
            match old(self)@.game {
                None => fresh_unlocks@.len() == 0 && final(self)@ == old(self)@,
                Some((_, game)) => {
                    let f = final(self)@;
                    &&& entries_map(f.unlocked) == unlocked_map(stats@)
                    &&& f == (SteamView { unlocked: f.unlocked, ..old(self)@ })
                    &&& unlock_views(fresh_unlocks@) == new_unlocks(
                        f.unlocked,
                        entries_map(old(self)@.unlocked),
                        entries_map(old(self)@.names),
                        game,
                        old(self)@.total,
                        f.unlocked.len() as int,
                    )
                    &&& forall|i: int|
                        0 <= i < fresh_unlocks@.len() ==> {
                            let count = f.unlocked.len() as u32;
                            let schema = old(self)@.names.len() as u32;
                            &&& (#[trigger] fresh_unlocks@[i]).unlocked == count
                            &&& fresh_unlocks@[i].total == if schema >= count {
                                schema
                            } else {
                                count
                            }
                        }
                },
            },
    {
        let game_name = match &self.game {
            Some(g) => g.name.clone(),
            None => {
                return Vec::new();
            },
        };
        let fresh = parse_unlocked(stats);
        let count = fresh.len() as u32;
        let total = if self.total >= count {
            self.total
        } else {
            count
        };
        let ghost before = entries_map(self.unlocked@);
        let ghost names = entries_map(names_view(self.names@));
        proof {
            reveal_strlit("Achievement ");
            assert(seq!['A', 'c', 'h', 'i', 'e', 'v', 'e', 'm', 'e', 'n', 't', ' '] =~= "Achievement "@);
            assert(distinct_keys(names_view(self.names@)));
        }
        let mut out: Vec<Unlock> = Vec::new();
        let mut i: usize = 0;
        while i < fresh.len()
            invariant
                i <= fresh@.len(),
                self.wf(),
                before == entries_map(self.unlocked@),
                names == entries_map(names_view(self.names@)),
                distinct_keys(names_view(self.names@)),
                count == fresh@.len() as u32,
                seq!['A', 'c', 'h', 'i', 'e', 'v', 'e', 'm', 'e', 'n', 't', ' '] == "Achievement "@,
                total == if self.total >= count {
                    self.total
                } else {
                    count
                },
                unlock_views(out@) == new_unlocks(fresh@, before, names, game_name@, self.total, i as int),
            decreases fresh@.len() - i,
        {
            let k = fresh[i].0;
            let ghost prev = unlock_views(out@);
            match key_index(&self.unlocked, k) {
                Some(j) => {
                    proof {
                        lemma_entries_lookup(self.unlocked@, j as int);
                    }
                },
                None => {
                    proof {
                        lemma_entries_dom(self.unlocked@, k);
                    }
                    let name = match key_index(&self.names, k) {
                        Some(j) => {
                            proof {
                                lemma_entries_lookup(names_view(self.names@), j as int);
                            }
                            self.names[j].1.clone()
                        },
                        None => {
                            proof {
                                lemma_entries_dom(names_view(self.names@), k);
                                if exists|m: int| 0 <= m < names_view(self.names@).len() && #[trigger] names_view(self.names@)[m].0 == k {
                                    let m = choose|m: int| 0 <= m < names_view(self.names@).len() && #[trigger] names_view(self.names@)[m].0 == k;
                                    assert(self.names@[m].0 == k);
                                }
                            }
                            label("Achievement ", k.1)
                        },
                    };
                    out.push(Unlock { game: game_name.clone(), name, unlocked: count, total });
                    assert(unlock_views(out@) =~= prev.push(unlock_for(k, game_name@, names, fresh@.len(), self.total)));
                },
            }
            i += 1;
        }
        proof {
            lemma_unlock_progress(fresh@, before, names, game_name@, self.total, fresh@.len() as int);
            assert forall|j: int| 0 <= j < out@.len() implies (#[trigger] out@[j]).unlocked == count
                && out@[j].total == total by {
                assert(unlock_views(out@)[j] == unlock_view(out@[j]));
            }
        }
        self.unlocked = fresh;
        out
    }
}

/// Every unlock reported carries the progress after the read: the number of
/// achievements unlocked now, out of the schema's count (or out of that same
/// number, when the schema names fewer).
pub proof fn lemma_unlock_progress(
    fresh: Seq<((u32, u32), i64)>,
    before: Map<(u32, u32), i64>,
    names: Map<(u32, u32), Seq<char>>,
    game: Seq<char>,
    total: u32,
    n: int,
)
    ensures
        forall|i: int|
            0 <= i < new_unlocks(fresh, before, names, game, total, n).len() ==> {
                let u = #[trigger] new_unlocks(fresh, before, names, game, total, n)[i];
                &&& u.unlocked == fresh.len() as u32
                &&& u.total == if total >= fresh.len() as u32 {
                    total
                } else {
                    fresh.len() as u32
                }
            },
    decreases n,
{
    if 0 < n <= fresh.len() {
        lemma_unlock_progress(fresh, before, names, game, total, n - 1);
        let prev = new_unlocks(fresh, before, names, game, total, n - 1);
        if !before.contains_key(fresh[n - 1].0) {
            let x = unlock_for(fresh[n - 1].0, game, names, fresh.len(), total);
            assert forall|i: int| 0 <= i < prev.len() implies prev.push(x)[i] == prev[i] by {}
            assert(prev.push(x)[prev.len() as int] == x);
        }
    }
}

/// Reading the same stats again reports nothing new.
pub proof fn lemma_same_stats_report_nothing(
    fresh: Seq<((u32, u32), i64)>,
    names: Map<(u32, u32), Seq<char>>,
    game: Seq<char>,
    total: u32,
)
    ensures
        new_unlocks(fresh, entries_map(fresh), names, game, total, fresh.len() as int).len() == 0,
{
    assert forall|n: int| 0 <= n <= fresh.len() implies #[trigger] new_unlocks(
        fresh,
        entries_map(fresh),
        names,
        game,
        total,
        n,
    ).len() == 0 by {
        lemma_no_news_upto(fresh, names, game, total, n);
    }
}

proof fn lemma_no_news_upto(
    fresh: Seq<((u32, u32), i64)>,
    names: Map<(u32, u32), Seq<char>>,
    game: Seq<char>,
    total: u32,
    n: int,
)
    requires
        0 <= n <= fresh.len(),
    ensures
        new_unlocks(fresh, entries_map(fresh), names, game, total, n).len() == 0,
    decreases n,
{
    if n > 0 {
        lemma_no_news_upto(fresh, names, game, total, n - 1);
        lemma_entries_dom(fresh, fresh[n - 1].0);
    }
}

// ---- manifests and library folders --------------------------------------------

pub open spec fn pos_of(o: Option<usize>) -> Option<int> {
    match o {
        Some(j) => Some(j as int),
        None => None,
    }
}

/// The value of a `"key"  "value"` line of a Valve text file: the fourth
/// piece between quotes, when the second is `key`.
pub open spec fn vdf_value(line: Seq<char>, key: Seq<char>) -> Option<Seq<char>> {
    let p = split_on(line, '"');
    if p.len() >= 4 && p[1] == key {
        Some(p[3])
    } else {
        None
    }
}

/// `\t"key"\t\t"value"` gives `Some("value")`.
pub fn vdf_pair(line: &str, key: &str) -> (r: Option<String>)
    ensures
        match vdf_value(line@, key@) {
            Some(v) => r matches Some(s) && s@ == v,
            None => r is None,
        },
{
    let v = chars_of(line);
    let k = chars_of(key);
    let n = v.len();
    let ghost p0 = split_on(v@.subrange(0, n as int), '"');
    assert(v@.subrange(0, n as int) =~= v@);
    let r1 = find_from(&v, 0, '"');
    proof {
        lemma_split_step(v@, 0, '"', pos_of(r1));
    }
    let q1 = match r1 {
        Some(j) => j,
        None => return None,
    };
    let r2 = find_from(&v, q1 + 1, '"');
    proof {
        lemma_split_step(v@, q1 + 1, '"', pos_of(r2));
    }
    let q2 = match r2 {
        Some(j) => j,
        None => return None,
    };
    if !range_is(&v, q1 + 1, q2, &k) {
        return None;
    }
    let r3 = find_from(&v, q2 + 1, '"');
    proof {
        lemma_split_step(v@, q2 + 1, '"', pos_of(r3));
    }
    let q3 = match r3 {
        Some(j) => j,
        None => return None,
    };
    let r4 = find_from(&v, q3 + 1, '"');
    proof {
        lemma_split_step(v@, q3 + 1, '"', pos_of(r4));
    }
    let end = match r4 {
        Some(j) => j,
        None => n,
    };
    let ghost tail = split_on(v@.subrange(q3 + 1, n as int), '"');
    assert(p0 == seq![v@.subrange(0, q1 as int)] + (seq![v@.subrange(q1 + 1, q2 as int)] + (seq![
        v@.subrange(q2 + 1, q3 as int),
    ] + tail)));
    assert(p0[1] == v@.subrange(q1 + 1, q2 as int));
    assert(p0[3] == tail[0]);
    Some(string_of(&v, q3 + 1, end))
}

/// The value under `key` on the first line that has one.
pub open spec fn first_value(ls: Seq<Seq<char>>, key: Seq<char>) -> Option<Seq<char>>
    decreases ls.len(),
{
    if ls.len() == 0 {
        None
    } else {
        match vdf_value(ls[0], key) {
            Some(v) => Some(v),
            None => first_value(ls.drop_first(), key),
        }
    }
}

/// The `name` an app manifest (`appmanifest_<id>.acf`) gives its game.
pub fn manifest_name(txt: &str) -> (r: Option<String>)
    ensures
        match first_value(lines(txt@), "name"@) {
            Some(v) => r matches Some(s) && s@ == v,
            None => r is None,
        },
{
    let ls = split_lines(txt);
    let ghost all = lines(txt@);
    let mut i: usize = 0;
    assert(all.subrange(0, all.len() as int) =~= all);
    while i < ls.len()
        invariant
            all == lines(txt@),
            line_views(ls@) == all,
            i <= ls@.len(),
            first_value(all, "name"@) == first_value(all.subrange(i as int, all.len() as int), "name"@),
        decreases ls@.len() - i,
    {
        let ghost rest = all.subrange(i as int, all.len() as int);
        assert(all.len() == ls@.len());
        assert(rest[0] == ls@[i as int]@);
        assert(rest.drop_first() =~= all.subrange(i + 1, all.len() as int));
        match vdf_pair(ls[i].as_str(), "name") {
            Some(v) => {
                assert(vdf_value(rest[0], "name"@) == Some(v@));
                assert(first_value(rest, "name"@) == Some(v@));
                return Some(v);
            },
            None => {},
        }
        i += 1;
    }
    None
}

/// A Windows-style path with each `\\` pair turned into `/`.
pub open spec fn slashes(s: Seq<char>) -> Seq<char>
    decreases s.len(),
{
    if s.len() >= 2 && s[0] == '\\' && s[1] == '\\' {
        seq!['/'] + slashes(s.subrange(2, s.len() as int))
    } else if s.len() == 0 {
        s
    } else {
        seq![s[0]] + slashes(s.drop_first())
    }
}

/// The values under `key` of the lines `0..n`, with `\\` turned into `/`.
pub open spec fn paths_upto(ls: Seq<Seq<char>>, key: Seq<char>, n: int) -> Seq<Seq<char>>
    decreases n,
{
    if n <= 0 || n > ls.len() {
        Seq::empty()
    } else {
        match vdf_value(ls[n - 1], key) {
            Some(v) => paths_upto(ls, key, n - 1).push(slashes(v)),
            None => paths_upto(ls, key, n - 1),
        }
    }
}

fn unescape(p: &str) -> (r: String)
    ensures
        r@ == slashes(p@),
{
    let v = chars_of(p);
    let n = v.len();
    let mut out = String::new();
    let mut i: usize = 0;
    assert(v@.subrange(0, n as int) =~= v@);
    while i < n
        invariant
            n == v@.len(),
            v@ == p@,
            i <= n,
            out@ + slashes(v@.subrange(i as int, n as int)) == slashes(p@),
        decreases n - i,
    {
        let ghost rest = v@.subrange(i as int, n as int);
        let ghost prev = out@;
        if i + 1 < n && v[i] == '\\' && v[i + 1] == '\\' {
            assert(rest.subrange(2, rest.len() as int) =~= v@.subrange(i + 2, n as int));
            push_char(&mut out, '/');
            assert(out@ + slashes(v@.subrange(i + 2, n as int)) =~= prev + slashes(rest));
            i += 2;
        } else {
            assert(rest.drop_first() =~= v@.subrange(i + 1, n as int));
            push_char(&mut out, v[i]);
            assert(out@ + slashes(v@.subrange(i + 1, n as int)) =~= prev + slashes(rest));
            i += 1;
        }
    }
    assert(v@.subrange(n as int, n as int) =~= Seq::<char>::empty());
    out
}

/// The library folders `libraryfolders.vdf` lists: its `path` values, with
/// `\\` turned into `/`, in file order.
pub fn library_paths(txt: &str) -> (r: Vec<String>)
    ensures
        line_views(r@) == paths_upto(lines(txt@), "path"@, lines(txt@).len() as int),
{
    let ls = split_lines(txt);
    let ghost all = lines(txt@);
    let mut out: Vec<String> = Vec::new();
    let mut i: usize = 0;
    assert(line_views(out@) =~= paths_upto(all, "path"@, 0));
    while i < ls.len()
        invariant
            all == lines(txt@),
            line_views(ls@) == all,
            i <= ls@.len(),
            line_views(out@) == paths_upto(all, "path"@, i as int),
        decreases ls@.len() - i,
    {
        assert(all.len() == ls@.len());
        assert(all[i as int] == ls@[i as int]@);
        let ghost prev = line_views(out@);
        match vdf_pair(ls[i].as_str(), "path") {
            Some(v) => {
                let u = unescape(v.as_str());
                out.push(u);
                assert(line_views(out@) =~= prev.push(slashes(v@)));
            },
            None => {},
        }
        i += 1;
    }
    out
}

/// `UserGameStats_<account>_<appid>.bin`.
pub fn stats_file_name(account: u32, appid: u32) -> (r: String)
    ensures
        r@ == "UserGameStats_"@ + decimal_chars(account as nat) + "_"@ + decimal_chars(appid as nat)
            + ".bin"@,
{
    let mut s = String::new();
    push_str(&mut s, "UserGameStats_");
    push_decimal(&mut s, account);
    push_str(&mut s, "_");
    push_decimal(&mut s, appid);
    push_str(&mut s, ".bin");
    s
}

/// `UserGameStatsSchema_<appid>.bin`.
pub fn schema_file_name(appid: u32) -> (r: String)
    ensures
        r@ == "UserGameStatsSchema_"@ + decimal_chars(appid as nat) + ".bin"@,
{
    let mut s = String::new();
    push_str(&mut s, "UserGameStatsSchema_");
    push_decimal(&mut s, appid);
    push_str(&mut s, ".bin");
    s
}

/// `appmanifest_<appid>.acf`.
pub fn manifest_file_name(appid: u32) -> (r: String)
    ensures
        r@ == "appmanifest_"@ + decimal_chars(appid as nat) + ".acf"@,
{
    let mut s = String::new();
    push_str(&mut s, "appmanifest_");
    push_decimal(&mut s, appid);
    push_str(&mut s, ".acf");
    s
}

// ---- the running game -------------------------------------------------------------

/// `SteamAppId=`
pub open spec fn appid_var() -> Seq<u8> {
    seq![83u8, 116, 101, 97, 109, 65, 112, 112, 73, 100, 61]
}

/// The game an environment entry `SteamAppId=<id>` names, when `<id>` is a
/// decimal other than zero.
pub open spec fn appid_entry(kv: Seq<u8>) -> Option<u32> {
    if kv.len() >= 11 && kv.subrange(0, 11) == appid_var() {
        match decimal_u32(kv.subrange(11, kv.len() as int)) {
            Some(id) => if id != 0 {
                Some(id)
            } else {
                None
            },
            None => None,
        }
    } else {
        None
    }
}

/// The first entry that names a game.
pub open spec fn first_appid(entries: Seq<Seq<u8>>) -> Option<u32>
    decreases entries.len(),
{
    if entries.len() == 0 {
        None
    } else {
        match appid_entry(entries[0]) {
            Some(id) => Some(id),
            None => first_appid(entries.drop_first()),
        }
    }
}

fn entry_appid(kv: &[u8]) -> (r: Option<u32>)
    ensures
        r == appid_entry(kv@),
{
    if kv.len() < 11 {
        return None;
    }
    let var: Vec<u8> = vec![83u8, 116, 101, 97, 109, 65, 112, 112, 73, 100, 61];
    assert(var@ =~= appid_var());
    let head = vstd::slice::slice_subrange(kv, 0, 11);
    if !same_bytes(head, var.as_slice()) {
        return None;
    }
    match parse_decimal(vstd::slice::slice_subrange(kv, 11, kv.len())) {
        Some(id) => if id != 0 {
            Some(id)
        } else {
            None
        },
        None => None,
    }
}

/// The game a process belongs to, from its NUL-separated environment
/// (`/proc/<pid>/environ`).
pub fn appid_from_environ(env: &[u8]) -> (r: Option<u32>)
    ensures
        r == first_appid(split_on(env@, 0u8)),
{
    let n = env.len();
    let mut pos: usize = 0;
    assert(env@.subrange(0, n as int) =~= env@);
    loop
        invariant
            pos <= n,
            n == env@.len(),
            first_appid(split_on(env@, 0u8)) == first_appid(
                split_on(env@.subrange(pos as int, n as int), 0u8),
            ),
        decreases n - pos,
    {
        let mut e = pos;
        while e < n && env[e] != 0
            invariant
                pos <= e <= n,
                n == env@.len(),
                forall|m: int| pos <= m < e ==> env@[m] != 0,
            decreases n - e,
        {
            e += 1;
        }
        proof {
            lemma_split_step(env@, pos as int, 0u8, if e < n { Some(e as int) } else { None });
        }
        let ghost pieces = split_on(env@.subrange(pos as int, n as int), 0u8);
        let kv = vstd::slice::slice_subrange(env, pos, e);
        assert(pieces[0] == kv@);
        match entry_appid(kv) {
            Some(id) => {
                return Some(id);
            },
            None => {},
        }
        if e >= n {
            assert(pieces.drop_first() =~= Seq::<Seq<u8>>::empty());
            assert(first_appid(pieces.drop_first()) is None);
            return None;
        }
        assert(pieces.drop_first() =~= split_on(env@.subrange(e + 1, n as int), 0u8));
        pos = e + 1;
    }
}

/// A `/proc` entry that is a process: a non-empty run of ASCII digits.
pub fn is_process_dir(name: &[u8]) -> (b: bool)
    ensures
        b == (name@.len() > 0 && all_digits(name@)),
{
    if name.len() == 0 {
        return false;
    }
    let mut i: usize = 0;
    while i < name.len()
        invariant
            i <= name@.len(),
            forall|m: int| 0 <= m < i ==> is_digit(#[trigger] name@[m]),
        decreases name@.len() - i,
    {
        if name[i] < 48 || name[i] > 57 {
            assert(!is_digit(name@[i as int]));
            return false;
        }
        i += 1;
    }
    true
}

/// The smallest of the decimal numbers among `names` (the Steam account
/// whose `userdata` folder comes first).
pub fn lowest_id(names: &Vec<Vec<u8>>) -> (r: Option<u32>)
    ensures
        match r {
            Some(m) => (exists|i: int| 0 <= i < names@.len() && decimal_u32(#[trigger] names@[i]@) == Some(m))
                && forall|i: int| 0 <= i < names@.len() ==> (decimal_u32(#[trigger] names@[i]@) matches Some(x) ==> m <= x),
            None => forall|i: int| 0 <= i < names@.len() ==> decimal_u32(#[trigger] names@[i]@) is None,
        },
{
    let mut best: Option<u32> = None;
    let mut i: usize = 0;
    while i < names.len()
        invariant
            i <= names@.len(),
            match best {
                Some(m) => (exists|j: int| 0 <= j < i && decimal_u32(#[trigger] names@[j]@) == Some(m))
                    && forall|j: int| 0 <= j < i ==> (decimal_u32(#[trigger] names@[j]@) matches Some(x) ==> m <= x),
                None => forall|j: int| 0 <= j < i ==> decimal_u32(#[trigger] names@[j]@) is None,
            },
        decreases names@.len() - i,
    {
        match parse_decimal(names[i].as_slice()) {
            Some(x) => {
                best = match best {
                    Some(m) => if x < m {
                        Some(x)
                    } else {
                        Some(m)
                    },
                    None => Some(x),
                };
            },
            None => {},
        }
        i += 1;
    }
    best
}

} // verus!
