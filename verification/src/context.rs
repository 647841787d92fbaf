//! The `{{ variable }}` context a scene is rendered against.
//!
//! Deliberately stringly-typed: providers (Steam, sensors, the event engine)
//! drop in `key -> value` pairs and scenes interpolate them into text or numeric
//! fields. No provider-specific types leak into the engine.

use vstd::prelude::*;

use crate::text::{chars_of, find_pair, find_pair_from, push_range, push_str, string_of, trim, trim_bounds};

verus! {

broadcast use vstd::string::group_string_axioms;

/// The map the entries `s` describe; a later entry for a key wins.
pub open spec fn map_of(s: Seq<(String, String)>) -> Map<Seq<char>, Seq<char>>
    decreases s.len(),
{
    if s.len() == 0 {
        Map::empty()
    } else {
        map_of(s.drop_last()).insert(s.last().0@, s.last().1@)
    }
}

/// No key occurs twice.
pub open spec fn keys_unique(s: Seq<(String, String)>) -> bool {
    forall|i: int, j: int| 0 <= i < s.len() && 0 <= j < s.len() && i != j ==> #[trigger] s[i].0@ != #[trigger] s[j].0@
}

proof fn lemma_map_of_lookup(s: Seq<(String, String)>, k: Seq<char>)
    requires
        keys_unique(s),
    ensures
        map_of(s).contains_key(k) <==> exists|i: int| 0 <= i < s.len() && #[trigger] s[i].0@ == k,
        forall|i: int| 0 <= i < s.len() && #[trigger] s[i].0@ == k ==> map_of(s)[k] == s[i].1@,
    decreases s.len(),
{
    if s.len() > 0 {
        let t = s.drop_last();
        assert forall|i: int, j: int| 0 <= i < t.len() && 0 <= j < t.len() && i != j implies #[trigger] t[i].0@
            != #[trigger] t[j].0@ by {
            assert(t[i] == s[i] && t[j] == s[j]);
        }
        lemma_map_of_lookup(t, k);
        if map_of(s).contains_key(k) && s.last().0@ != k {
            let i = choose|i: int| 0 <= i < t.len() && #[trigger] t[i].0@ == k;
            assert(s[i] == t[i]);
        }
        assert forall|i: int| 0 <= i < s.len() && #[trigger] s[i].0@ == k implies map_of(s)[k] == s[i].1@ by {
            if i < s.len() - 1 {
                assert(s[i] == t[i]);
                assert(s[i].0@ != s[s.len() - 1].0@);
            }
        }
        if exists|i: int| 0 <= i < s.len() && #[trigger] s[i].0@ == k {
            let i = choose|i: int| 0 <= i < s.len() && #[trigger] s[i].0@ == k;
            if i < s.len() - 1 {
                assert(t[i] == s[i]);
            }
        }
    }
}

proof fn lemma_map_of_update(s: Seq<(String, String)>, i: int, e: (String, String))
    requires
        keys_unique(s),
        0 <= i < s.len(),
        e.0@ == s[i].0@,
    ensures
        map_of(s.update(i, e)) == map_of(s).insert(e.0@, e.1@),
    decreases s.len(),
{
    let u = s.update(i, e);
    if i == s.len() - 1 {
        assert(u.drop_last() == s.drop_last());
        let t = s.drop_last();
        assert forall|a: int, b: int| 0 <= a < t.len() && 0 <= b < t.len() && a != b implies #[trigger] t[a].0@
            != #[trigger] t[b].0@ by {
            assert(t[a] == s[a] && t[b] == s[b]);
        }
        assert(map_of(u) =~= map_of(s).insert(e.0@, e.1@));
    } else {
        let t = s.drop_last();
        assert forall|a: int, b: int| 0 <= a < t.len() && 0 <= b < t.len() && a != b implies #[trigger] t[a].0@
            != #[trigger] t[b].0@ by {
            assert(t[a] == s[a] && t[b] == s[b]);
        }
        lemma_map_of_update(t, i, e);
        assert(u.drop_last() == t.update(i, e));
        assert(s.last().0@ != e.0@) by {
            assert(s[s.len() - 1].0@ != s[i].0@);
        }
        assert(map_of(u) =~= map_of(s).insert(e.0@, e.1@));
    }
}

/// What `Context::expand` produces for `s`: every `{{ key }}` replaced by the
/// value of the trimmed key (an empty string when unknown); an unclosed `{{`
/// and everything after it is kept as written.
pub open spec fn expand_text(m: Map<Seq<char>, Seq<char>>, s: Seq<char>) -> Seq<char>
    decreases s.len(),
{
    match find_pair(s, '{', '{') {
        None => s,
        Some(open) => {
            let after = s.subrange(open + 2, s.len() as int);
            match find_pair(after, '}', '}') {
                None => s,
                Some(close) => {
                    let key = trim(after.subrange(0, close));
                    let val = if m.contains_key(key) { m[key] } else { Seq::empty() };
                    if 0 <= open && 0 <= close && open + 2 + close + 2 <= s.len() {
                        s.subrange(0, open) + val + expand_text(
                            m,
                            after.subrange(close + 2, after.len() as int),
                        )
                    } else {
                        s
                    }
                },
            }
        },
    }
}

proof fn lemma_find_pair_bounds(s: Seq<char>, x: char, y: char)
    ensures
        find_pair(s, x, y) matches Some(i) ==> 0 <= i && i + 2 <= s.len() && s[i] == x && s[i + 1] == y,
    decreases s.len(),
{
    if s.len() >= 2 && !(s[0] == x && s[1] == y) {
        lemma_find_pair_bounds(s.drop_first(), x, y);
    }
}

#[derive(Debug, Default, Clone)]
pub struct Context {
    vars: Vec<(String, String)>,
}

impl View for Context {
    type V = Map<Seq<char>, Seq<char>>;

    closed spec fn view(&self) -> Map<Seq<char>, Seq<char>> {
        map_of(self.vars@)
    }
}

impl Context {
    /// No key is stored twice.
    pub closed spec fn wf(&self) -> bool {
        keys_unique(self.vars@)
    }

    pub fn new() -> (c: Self)
        ensures
            c.wf(),
            c@ == Map::<Seq<char>, Seq<char>>::empty(),
    {
        Context { vars: Vec::new() }
    }

    /// Position of `key` among the stored entries.
    fn index_of(&self, key: &String) -> (r: Option<usize>)
        requires
            self.wf(),
        ensures
            match r {
                Some(i) => i < self.vars@.len() && self.vars@[i as int].0@ == key@,
                None => forall|i: int| 0 <= i < self.vars@.len() ==> #[trigger] self.vars@[i].0@ != key@,
            },
    {
        let mut i: usize = 0;
        while i < self.vars.len()
            invariant
                i <= self.vars@.len(),
                forall|j: int| 0 <= j < i ==> #[trigger] self.vars@[j].0@ != key@,
            decreases self.vars@.len() - i,
        {
            if self.vars[i].0 == *key {
                return Some(i);
            }
            i += 1;
        }
        None
    }

    /// Bind `key` to `val`, replacing any earlier value.
    pub fn set(&mut self, key: &str, val: &str)
        requires
            old(self).wf(),
        ensures
            final(self).wf(),
            final(self)@ == old(self)@.insert(key@, val@),
    {
        let k = key.to_owned();
        let v = val.to_owned();
        match self.index_of(&k) {
            Some(i) => {
                proof {
                    lemma_map_of_update(self.vars@, i as int, (k, v));
                }
                let ghost before = self.vars@;
                self.vars.set(i, (k, v));
                proof {
                    assert forall|a: int, b: int|
                        0 <= a < self.vars@.len() && 0 <= b < self.vars@.len() && a != b implies #[trigger] self.vars@[a].0@
                        != #[trigger] self.vars@[b].0@ by {
                        assert(self.vars@[a].0@ == before[a].0@);
                        assert(self.vars@[b].0@ == before[b].0@);
                    }
                }
            },
            None => {
                let ghost before = self.vars@;
                self.vars.push((k, v));
                proof {
                    assert(self.vars@.drop_last() == before);
                    assert forall|a: int, b: int|
                        0 <= a < self.vars@.len() && 0 <= b < self.vars@.len() && a != b implies #[trigger] self.vars@[a].0@
                        != #[trigger] self.vars@[b].0@ by {
                        if a < before.len() {
                            assert(self.vars@[a] == before[a]);
                        }
                        if b < before.len() {
                            assert(self.vars@[b] == before[b]);
                        }
                    }
                }
            },
        }
    }

    /// The value bound to `key`, if any.
    pub fn get(&self, key: &str) -> (r: Option<&str>)
        requires
            self.wf(),
        ensures
            match r {
                Some(v) => self@.contains_key(key@) && v@ == self@[key@],
                None => !self@.contains_key(key@),
            },
    {
        let k = key.to_owned();
        proof {
            lemma_map_of_lookup(self.vars@, key@);
        }
        match self.index_of(&k) {
            Some(i) => Some(self.vars[i].1.as_str()),
            None => None,
        }
    }

    /// Replace every `{{ key }}` in `s`. Unknown keys expand to an empty string.
    pub fn expand(&self, s: &str) -> (out: String)
        requires
            self.wf(),
        ensures
            out@ == expand_text(self@, s@),
    {
        let v = chars_of(s);
        let n = v.len();
        let mut out = String::new();
        let mut pos: usize = 0;
        assert(v@.subrange(0, n as int) == v@);
        assert(out@ + expand_text(self@, s@) == expand_text(self@, s@));
        loop
            invariant
                v@ == s@,
                n == v@.len(),
                pos <= n,
                self.wf(),
                out@ + expand_text(self@, v@.subrange(pos as int, n as int)) == expand_text(self@, s@),
            decreases n - pos,
        {
            let ghost rest = v@.subrange(pos as int, n as int);
            proof {
                lemma_find_pair_bounds(rest, '{', '{');
            }
            match find_pair_from(&v, pos, '{', '{') {
                None => {
                    let ghost o = out@;
                    push_range(&mut out, &v, pos, n);
                    return out;
                },
                Some(open) => {
                    let ghost after = rest.subrange(open - pos + 2, rest.len() as int);
                    assert(after == v@.subrange(open + 2, n as int));
                    proof {
                        lemma_find_pair_bounds(after, '}', '}');
                    }
                    match find_pair_from(&v, open + 2, '}', '}') {
                        None => {
                            push_range(&mut out, &v, pos, n);
                            return out;
                        },
                        Some(close) => {
                            push_range(&mut out, &v, pos, open);
                            let (a, b) = trim_bounds(&v, open + 2, close);
                            let key = string_of(&v, a, b);
                            proof {
                                lemma_map_of_lookup(self.vars@, key@);
                                assert(after.subrange(0, close - open - 2) == v@.subrange(
                                    open + 2,
                                    close as int,
                                ));
                                assert(rest.subrange(0, open - pos) == v@.subrange(pos as int, open as int));
                                assert(after.subrange(close - open - 2 + 2, after.len() as int) == v@.subrange(
                                    close + 2,
                                    n as int,
                                ));
                            }
                            match self.get(key.as_str()) {
                                Some(val) => push_str(&mut out, val),
                                None => {},
                            }
                            pos = close + 2;
                            proof {
                                assert(out@ + expand_text(self@, v@.subrange(pos as int, n as int))
                                    == expand_text(self@, s@));
                            }
                        },
                    }
                },
            }
        }
    }
}

/// A read gives back the last write: after `set(k, v)`, `get(k)` is `v`, and
/// every other key reads as before.
pub proof fn lemma_get_after_set(m: Map<Seq<char>, Seq<char>>, k: Seq<char>, v: Seq<char>, other: Seq<char>)
    ensures
        m.insert(k, v).contains_key(k),
        m.insert(k, v)[k] == v,
        other != k ==> (m.insert(k, v).contains_key(other) == m.contains_key(other)),
        other != k && m.contains_key(other) ==> m.insert(k, v)[other] == m[other],
{
}

/// Text without `{{` expands to itself.
pub proof fn lemma_plain_text_unchanged(m: Map<Seq<char>, Seq<char>>, s: Seq<char>)
    requires
        find_pair(s, '{', '{') is None,
    ensures
        expand_text(m, s) == s,
{
}

} // verus!
