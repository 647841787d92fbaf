//! Character-level helpers shared by the string-processing parts of the
//! library: building `String`s from characters, comparing, trimming, and
//! searching for two-character markers.

use vstd::prelude::*;

verus! {

broadcast use vstd::string::group_string_axioms;

/// Appends one character (`String::push`).
#[verifier::external_body]
pub(crate) fn push_char(s: &mut String, c: char)
    ensures
        final(s)@ == old(s)@.push(c),
{
    s.push(c);
}

/// The ASCII digit for `d < 10`.
pub open spec fn digit_char(d: nat) -> char {
    ((48 + d) as u8) as char
}

/// `n` written in decimal, without leading zeros.
pub open spec fn decimal_chars(n: nat) -> Seq<char>
    decreases n,
{
    if n < 10 {
        seq![digit_char(n)]
    } else {
        decimal_chars(n / 10).push(digit_char(n % 10))
    }
}

/// Appends `n` in decimal.
pub fn push_decimal(out: &mut String, n: u32)
    ensures
        final(out)@ == old(out)@ + decimal_chars(n as nat),
    decreases n,
{
    if n >= 10 {
        push_decimal(out, n / 10);
    }
    let d = (n % 10) as u8;
    push_char(out, (d + 48) as char);
    assert(old(out)@ + decimal_chars(n as nat) =~= if n >= 10 {
        old(out)@ + decimal_chars((n / 10) as nat)
    } else {
        old(out)@
    }.push(digit_char((n % 10) as nat)));
}

/// Appends `n` in decimal.
pub fn push_decimal_u64(out: &mut String, n: u64)
    ensures
        final(out)@ == old(out)@ + decimal_chars(n as nat),
    decreases n,
{
    if n >= 10 {
        push_decimal_u64(out, n / 10);
    }
    let d = (n % 10) as u8;
    push_char(out, (d + 48) as char);
    assert(old(out)@ + decimal_chars(n as nat) =~= if n >= 10 {
        old(out)@ + decimal_chars((n / 10) as nat)
    } else {
        old(out)@
    }.push(digit_char((n % 10) as nat)));
}

/// Number of decimal digits of `n`.
pub fn decimal_len(n: u32) -> (k: usize)
    ensures
        k == decimal_chars(n as nat).len(),
        1 <= k,
        n < 10 ==> k == 1,
        n < 100 ==> k <= 2,
        n < 1000 ==> k <= 3,
        n < 10000 ==> k <= 4,
        n < 100000 ==> k <= 5,
        n < 1000000 ==> k <= 6,
        n < 10000000 ==> k <= 7,
        n < 100000000 ==> k <= 8,
        n < 1000000000 ==> k <= 9,
        k <= 10,
    decreases n,
{
    if n < 10 {
        1
    } else {
        1 + decimal_len(n / 10)
    }
}

/// The characters of `s`, in order.
pub fn chars_of(s: &str) -> (v: Vec<char>)
    ensures
        v@ == s@,
{
    let mut v: Vec<char> = Vec::new();
    for c in it: s.chars()
        invariant
            v@ == it.seq().take(it.index()),
            it.seq() == s@,
    {
        v.push(c);
    }
    v
}

/// Appends `v[lo..hi]` to `out`.
pub fn push_range(out: &mut String, v: &Vec<char>, lo: usize, hi: usize)
    requires
        lo <= hi <= v@.len(),
    ensures
        final(out)@ == old(out)@ + v@.subrange(lo as int, hi as int),
{
    let mut i = lo;
    while i < hi
        invariant
            lo <= i <= hi <= v@.len(),
            out@ == old(out)@ + v@.subrange(lo as int, i as int),
        decreases hi - i,
    {
        push_char(out, v[i]);
        assert(v@.subrange(lo as int, i + 1) == v@.subrange(lo as int, i as int).push(v@[i as int]));
        i += 1;
    }
}

/// A `String` holding exactly `v[lo..hi]`.
pub fn string_of(v: &Vec<char>, lo: usize, hi: usize) -> (s: String)
    requires
        lo <= hi <= v@.len(),
    ensures
        s@ == v@.subrange(lo as int, hi as int),
{
    let mut s = String::new();
    push_range(&mut s, v, lo, hi);
    assert(s@ =~= v@.subrange(lo as int, hi as int));
    s
}

/// Appends all of `t` to `out`.
pub fn push_str(out: &mut String, t: &str)
    ensures
        final(out)@ == old(out)@ + t@,
{
    let v = chars_of(t);
    push_range(out, &v, 0, v.len());
    assert(v@.subrange(0, v@.len() as int) == v@);
}

/// `a` and `b` hold the same characters.
pub fn same_text(a: &str, b: &str) -> (eq: bool)
    ensures
        eq == (a@ == b@),
{
    let x = chars_of(a);
    let y = chars_of(b);
    if x.len() != y.len() {
        return false;
    }
    let mut i: usize = 0;
    while i < x.len()
        invariant
            x@ == a@,
            y@ == b@,
            x@.len() == y@.len(),
            i <= x@.len(),
            forall|j: int| 0 <= j < i ==> x@[j] == y@[j],
        decreases x@.len() - i,
    {
        if x[i] != y[i] {
            return false;
        }
        i += 1;
    }
    assert(x@ =~= y@);
    true
}

/// Unicode `White_Space` (what `char::is_whitespace` and `str::trim` use).
pub open spec fn is_ws(c: char) -> bool {
    let u = c as u32;
    ||| 9 <= u <= 13
    ||| u == 32
    ||| u == 0x85
    ||| u == 0xA0
    ||| u == 0x1680
    ||| 0x2000 <= u <= 0x200A
    ||| u == 0x2028
    ||| u == 0x2029
    ||| u == 0x202F
    ||| u == 0x205F
    ||| u == 0x3000
}

pub fn is_whitespace(c: char) -> (b: bool)
    ensures
        b == is_ws(c),
{
    let u = c as u32;
    (9 <= u && u <= 13) || u == 32 || u == 0x85 || u == 0xA0 || u == 0x1680 || (0x2000 <= u && u
        <= 0x200A) || u == 0x2028 || u == 0x2029 || u == 0x202F || u == 0x205F || u == 0x3000
}

/// `s` without leading whitespace.
pub open spec fn trim_start(s: Seq<char>) -> Seq<char>
    decreases s.len(),
{
    if s.len() > 0 && is_ws(s[0]) {
        trim_start(s.drop_first())
    } else {
        s
    }
}

/// `s` without trailing whitespace.
pub open spec fn trim_end(s: Seq<char>) -> Seq<char>
    decreases s.len(),
{
    if s.len() > 0 && is_ws(s.last()) {
        trim_end(s.drop_last())
    } else {
        s
    }
}

/// `s` without leading or trailing whitespace (`str::trim`).
pub open spec fn trim(s: Seq<char>) -> Seq<char> {
    trim_end(trim_start(s))
}

proof fn lemma_trim_start_at(s: Seq<char>, lo: int)
    requires
        0 <= lo <= s.len(),
        forall|j: int| 0 <= j < lo ==> is_ws(#[trigger] s[j]),
        lo == s.len() || !is_ws(s[lo]),
    ensures
        trim_start(s) == s.subrange(lo, s.len() as int),
    decreases lo,
{
    if lo == 0 {
        assert(s.subrange(0, s.len() as int) == s);
    } else {
        let t = s.drop_first();
        assert forall|j: int| 0 <= j < lo - 1 implies is_ws(#[trigger] t[j]) by {
            assert(t[j] == s[j + 1]);
        }
        lemma_trim_start_at(t, lo - 1);
        assert(t.subrange(lo - 1, t.len() as int) == s.subrange(lo, s.len() as int));
    }
}

proof fn lemma_trim_end_at(s: Seq<char>, hi: int)
    requires
        0 <= hi <= s.len(),
        forall|j: int| hi <= j < s.len() ==> is_ws(#[trigger] s[j]),
        hi == 0 || !is_ws(s[hi - 1]),
    ensures
        trim_end(s) == s.subrange(0, hi),
    decreases s.len() - hi,
{
    if hi == s.len() {
        assert(s.subrange(0, hi) == s);
    } else {
        let t = s.drop_last();
        assert forall|j: int| hi <= j < t.len() implies is_ws(#[trigger] t[j]) by {
            assert(t[j] == s[j]);
        }
        lemma_trim_end_at(t, hi);
        assert(t.subrange(0, hi) == s.subrange(0, hi));
    }
}

/// Bounds of the trimmed part of `v[lo..hi]`.
pub fn trim_bounds(v: &Vec<char>, lo: usize, hi: usize) -> (r: (usize, usize))
    requires
        lo <= hi <= v@.len(),
    ensures
        lo <= r.0 <= r.1 <= hi,
        v@.subrange(r.0 as int, r.1 as int) == trim(v@.subrange(lo as int, hi as int)),
{
    let ghost s = v@.subrange(lo as int, hi as int);
    let mut a = lo;
    while a < hi && is_whitespace(v[a])
        invariant
            lo <= a <= hi <= v@.len(),
            forall|j: int| lo <= j < a ==> is_ws(#[trigger] v@[j]),
        decreases hi - a,
    {
        a += 1;
    }
    proof {
        assert forall|j: int| 0 <= j < a - lo implies is_ws(#[trigger] s[j]) by {
            assert(s[j] == v@[lo + j]);
        }
        lemma_trim_start_at(s, a - lo);
        assert(s.subrange(a - lo, s.len() as int) == v@.subrange(a as int, hi as int));
    }
    let mut b = hi;
    while b > a && is_whitespace(v[b - 1])
        invariant
            lo <= a <= b <= hi <= v@.len(),
            forall|j: int| b <= j < hi ==> is_ws(#[trigger] v@[j]),
        decreases b - a,
    {
        b -= 1;
    }
    proof {
        let t = v@.subrange(a as int, hi as int);
        assert forall|j: int| b - a <= j < t.len() implies is_ws(#[trigger] t[j]) by {
            assert(t[j] == v@[a + j]);
        }
        if b > a {
            assert(t[b - a - 1] == v@[b - 1]);
        }
        lemma_trim_end_at(t, b - a);
        assert(t.subrange(0, b - a) == v@.subrange(a as int, b as int));
    }
    (a, b)
}

/// End of the part of `v[lo..hi]` left after trailing whitespace is removed.
pub fn trim_end_bound(v: &Vec<char>, lo: usize, hi: usize) -> (r: usize)
    requires
        lo <= hi <= v@.len(),
    ensures
        lo <= r <= hi,
        v@.subrange(lo as int, r as int) == trim_end(v@.subrange(lo as int, hi as int)),
{
    let mut b = hi;
    while b > lo && is_whitespace(v[b - 1])
        invariant
            lo <= b <= hi <= v@.len(),
            forall|j: int| b <= j < hi ==> is_ws(#[trigger] v@[j]),
        decreases b - lo,
    {
        b -= 1;
    }
    proof {
        let t = v@.subrange(lo as int, hi as int);
        assert forall|j: int| b - lo <= j < t.len() implies is_ws(#[trigger] t[j]) by {
            assert(t[j] == v@[lo + j]);
        }
        if b > lo {
            assert(t[b - lo - 1] == v@[b - 1]);
        }
        lemma_trim_end_at(t, b - lo);
        assert(t.subrange(0, b - lo) == v@.subrange(lo as int, b as int));
    }
    b
}

/// Position of the first occurrence of the two-character marker `x y` in `s`.
pub open spec fn find_pair(s: Seq<char>, x: char, y: char) -> Option<int>
    decreases s.len(),
{
    if s.len() < 2 {
        None
    } else if s[0] == x && s[1] == y {
        Some(0)
    } else {
        match find_pair(s.drop_first(), x, y) {
            Some(i) => Some(i + 1),
            None => None,
        }
    }
}

pub open spec fn pair_at(s: Seq<char>, i: int, x: char, y: char) -> bool {
    0 <= i && i + 1 < s.len() && s[i] == x && s[i + 1] == y
}

proof fn lemma_find_pair(s: Seq<char>, x: char, y: char, i: int)
    requires
        0 <= i <= s.len(),
        forall|j: int| 0 <= j < i ==> !pair_at(s, j, x, y),
        i + 1 >= s.len() || pair_at(s, i, x, y),
    ensures
        find_pair(s, x, y) == if i + 1 < s.len() {
            Some(i)
        } else {
            None::<int>
        },
    decreases s.len(),
{
    if s.len() < 2 {
    } else if s[0] == x && s[1] == y {
        if i > 0 {
            assert(pair_at(s, 0, x, y));
        }
    } else {
        let t = s.drop_first();
        assert(!pair_at(s, 0, x, y));
        if i == 0 {
            assert(pair_at(s, 0, x, y) || i + 1 >= s.len());
        } else {
            assert forall|j: int| 0 <= j < i - 1 implies !pair_at(t, j, x, y) by {
                assert(!pair_at(s, j + 1, x, y));
            }
            if i + 1 < s.len() {
                assert(pair_at(t, i - 1, x, y));
            }
            lemma_find_pair(t, x, y, i - 1);
        }
    }
}

/// First index `i >= from` with `v[i] == x && v[i + 1] == y`, as a position
/// inside `v[from..]`.
pub fn find_pair_from(v: &Vec<char>, from: usize, x: char, y: char) -> (r: Option<usize>)
    requires
        from <= v@.len(),
    ensures
        match find_pair(v@.subrange(from as int, v@.len() as int), x, y) {
            Some(i) => r == Some((from + i) as usize),
            None => r is None,
        },
{
    let ghost s = v@.subrange(from as int, v@.len() as int);
    let n = v.len();
    let mut i = from;
    while i < n && i + 1 < n && !(v[i] == x && v[i + 1] == y)
        invariant
            from <= i <= n,
            n == v@.len(),
            s == v@.subrange(from as int, n as int),
            forall|j: int| 0 <= j < i - from ==> !pair_at(s, j, x, y),
        decreases n - i,
    {
        proof {
            assert(!pair_at(s, i - from, x, y));
        }
        i += 1;
    }
    proof {
        if i < n && i + 1 < n {
            assert(pair_at(s, i - from, x, y));
        }
        lemma_find_pair(s, x, y, i - from);
    }
    if i < n && i + 1 < n {
        Some(i)
    } else {
        None
    }
}

/// `line` without one trailing carriage return.
pub open spec fn strip_cr(line: Seq<char>) -> Seq<char> {
    if line.len() > 0 && line.last() == '\r' {
        line.drop_last()
    } else {
        line
    }
}

/// Position of the first `c` in `s`.
pub open spec fn find_char<A>(s: Seq<A>, c: A) -> Option<int>
    decreases s.len(),
{
    if s.len() == 0 {
        None
    } else if s[0] == c {
        Some(0)
    } else {
        match find_char(s.drop_first(), c) {
            Some(i) => Some(i + 1),
            None => None,
        }
    }
}

/// `str::lines`: split at `\n`, drop a `\r` right before it, no empty last line.
pub open spec fn lines(s: Seq<char>) -> Seq<Seq<char>>
    decreases s.len(),
{
    if s.len() == 0 {
        Seq::empty()
    } else {
        match find_char(s, '\n') {
            None => seq![s],
            Some(i) => if 0 <= i < s.len() {
                seq![strip_cr(s.subrange(0, i))] + lines(s.subrange(i + 1, s.len() as int))
            } else {
                seq![s]
            },
        }
    }
}

pub proof fn lemma_find_char<A>(s: Seq<A>, c: A, i: int)
    requires
        0 <= i <= s.len(),
        forall|j: int| 0 <= j < i ==> s[j] != c,
        i == s.len() || s[i] == c,
    ensures
        find_char(s, c) == if i < s.len() {
            Some(i)
        } else {
            None::<int>
        },
    decreases s.len(),
{
    if s.len() > 0 && s[0] != c {
        assert forall|j: int| 0 <= j < i - 1 implies s.drop_first()[j] != c by {
            assert(s.drop_first()[j] == s[j + 1]);
        }
        lemma_find_char(s.drop_first(), c, i - 1);
    }
}

/// The views of a list of strings.
pub open spec fn line_views(v: Seq<String>) -> Seq<Seq<char>> {
    v.map_values(|l: String| l@)
}

/// `s` cut into lines the way `str::lines` does it.
pub fn split_lines(s: &str) -> (ls: Vec<String>)
    ensures
        line_views(ls@) == lines(s@),
{
    let v = chars_of(s);
    let n = v.len();
    let mut out: Vec<String> = Vec::new();
    let mut pos: usize = 0;
    assert(v@.subrange(0, n as int) == v@);
    assert(line_views(out@) + lines(v@) =~= lines(v@));
    while pos < n
        invariant
            v@ == s@,
            n == v@.len(),
            pos <= n,
            line_views(out@) + lines(v@.subrange(pos as int, n as int)) == lines(s@),
        decreases n - pos,
    {
        let ghost rest = v@.subrange(pos as int, n as int);
        let mut e = pos;
        while e < n && v[e] != '\n'
            invariant
                pos <= e <= n,
                n == v@.len(),
                forall|j: int| pos <= j < e ==> v@[j] != '\n',
            decreases n - e,
        {
            e += 1;
        }
        proof {
            assert forall|j: int| 0 <= j < e - pos implies rest[j] != '\n' by {
                assert(rest[j] == v@[pos + j]);
            }
            lemma_find_char(rest, '\n', e - pos);
        }
        let line_end = if e < n && e > pos && v[e - 1] == '\r' {
            e - 1
        } else {
            e
        };
        let ghost line = v@.subrange(pos as int, line_end as int);
        let ghost next = if e < n {
            v@.subrange(e + 1, n as int)
        } else {
            Seq::empty()
        };
        proof {
            if e < n {
                assert(rest.subrange(0, e - pos) == v@.subrange(pos as int, e as int));
                assert(rest.subrange(e - pos + 1, rest.len() as int) == v@.subrange(e + 1, n as int));
                assert(strip_cr(v@.subrange(pos as int, e as int)) == line);
            } else {
                assert(line == rest);
            }
            assert(lines(rest) == seq![line] + lines(next));
        }
        let ghost before = line_views(out@);
        let l = string_of(&v, pos, line_end);
        out.push(l);
        assert(line_views(out@) == before.push(line));
        assert(before.push(line) + lines(next) =~= before + (seq![line] + lines(next)));
        if e < n {
            pos = e + 1;
        } else {
            pos = n;
            assert(v@.subrange(n as int, n as int) =~= next);
        }
    }
    assert(v@.subrange(n as int, n as int) == Seq::<char>::empty());
    assert(line_views(out@) + lines(Seq::<char>::empty()) =~= line_views(out@));
    out
}

/// `str::split(c)`: the pieces between the occurrences of `c`.
pub open spec fn split_on<A>(s: Seq<A>, c: A) -> Seq<Seq<A>>
    decreases s.len(),
{
    match find_char(s, c) {
        Some(i) => if 0 <= i < s.len() {
            seq![s.subrange(0, i)] + split_on(s.subrange(i + 1, s.len() as int), c)
        } else {
            seq![s]
        },
        None => seq![s],
    }
}

/// The first `c` in `v[from..]`.
pub fn find_from(v: &Vec<char>, from: usize, c: char) -> (r: Option<usize>)
    requires
        from <= v@.len(),
    ensures
        match r {
            Some(j) => from <= j < v@.len() && v@[j as int] == c && forall|m: int|
                from <= m < j ==> v@[m] != c,
            None => forall|m: int| from <= m < v@.len() ==> v@[m] != c,
        },
{
    let mut j = from;
    while j < v.len()
        invariant
            from <= j <= v@.len(),
            forall|m: int| from <= m < j ==> v@[m] != c,
        decreases v@.len() - j,
    {
        if v[j] == c {
            return Some(j);
        }
        j += 1;
    }
    None
}

/// How `split_on` peels the piece before the next `c` off `v[from..]`.
pub proof fn lemma_split_step<A>(v: Seq<A>, from: int, c: A, r: Option<int>)
    requires
        0 <= from <= v.len(),
        match r {
            Some(j) => from <= j < v.len() && v[j] == c && forall|m: int| from <= m < j ==> v[m] != c,
            None => forall|m: int| from <= m < v.len() ==> v[m] != c,
        },
    ensures
        split_on(v.subrange(from, v.len() as int), c) == match r {
            Some(j) => seq![v.subrange(from, j)] + split_on(v.subrange(j + 1, v.len() as int), c),
            None => seq![v.subrange(from, v.len() as int)],
        },
{
    let rest = v.subrange(from, v.len() as int);
    let e = match r {
        Some(j) => j - from,
        None => rest.len() as int,
    };
    assert forall|m: int| 0 <= m < e implies rest[m] != c by {
        assert(rest[m] == v[from + m]);
    }
    lemma_find_char(rest, c, e);
    match r {
        Some(j) => {
            assert(rest.subrange(0, j - from) =~= v.subrange(from, j));
            assert(rest.subrange(j - from + 1, rest.len() as int) =~= v.subrange(j + 1, v.len() as int));
        },
        None => {},
    }
}

/// `v[lo..hi]` equals `p`.
pub fn range_is(v: &Vec<char>, lo: usize, hi: usize, p: &Vec<char>) -> (b: bool)
    requires
        lo <= hi <= v@.len(),
    ensures
        b == (v@.subrange(lo as int, hi as int) == p@),
{
    if hi - lo != p.len() {
        return false;
    }
    let mut i: usize = 0;
    while i < p.len()
        invariant
            lo <= hi <= v@.len(),
            hi - lo == p@.len(),
            i <= p@.len(),
            forall|j: int| 0 <= j < i ==> v@[lo + j] == p@[j],
        decreases p@.len() - i,
    {
        if v[lo + i] != p[i] {
            assert(v@.subrange(lo as int, hi as int)[i as int] != p@[i as int]);
            return false;
        }
        i += 1;
    }
    assert(v@.subrange(lo as int, hi as int) =~= p@);
    true
}

/// What `find_char` finds: the first `c`, or none anywhere.
pub proof fn lemma_find_char_found<A>(s: Seq<A>, c: A)
    ensures
        match find_char(s, c) {
            Some(i) => 0 <= i < s.len() && s[i] == c && forall|j: int| 0 <= j < i ==> s[j] != c,
            None => forall|j: int| 0 <= j < s.len() ==> s[j] != c,
        },
    decreases s.len(),
{
    if s.len() > 0 && s[0] != c {
        lemma_find_char_found(s.drop_first(), c);
        match find_char(s.drop_first(), c) {
            Some(i) => {
                assert forall|j: int| 0 <= j < i + 1 implies s[j] != c by {
                    if j > 0 {
                        assert(s[j] == s.drop_first()[j - 1]);
                    }
                }
            },
            None => {
                assert forall|j: int| 0 <= j < s.len() implies s[j] != c by {
                    if j > 0 {
                        assert(s[j] == s.drop_first()[j - 1]);
                    }
                }
            },
        }
    }
}

/// No line that `lines` gives holds a newline.
pub proof fn lemma_lines_have_no_newline(s: Seq<char>)
    ensures
        forall|k: int, i: int|
            0 <= k < lines(s).len() && 0 <= i < lines(s)[k].len() ==> #[trigger] lines(s)[k][i] != '\n',
    decreases s.len(),
{
    if s.len() > 0 {
        lemma_find_char_found(s, '\n');
        match find_char(s, '\n') {
            None => {},
            Some(e) => {
                let rest = s.subrange(e + 1, s.len() as int);
                lemma_lines_have_no_newline(rest);
                let first = strip_cr(s.subrange(0, e));
                assert forall|k: int, i: int|
                    0 <= k < lines(s).len() && 0 <= i < lines(s)[k].len() implies #[trigger] lines(
                    s,
                )[k][i] != '\n' by {
                    if k == 0 {
                        assert(lines(s)[0] == first);
                        assert(first[i] == s[i]);
                    } else {
                        assert(lines(s)[k] == lines(rest)[k - 1]);
                    }
                }
            },
        }
    }
}

/// Dropping trailing whitespace twice is dropping it once.
pub proof fn lemma_trim_end_idempotent(s: Seq<char>)
    ensures
        trim_end(trim_end(s)) == trim_end(s),
    decreases s.len(),
{
    if s.len() > 0 && is_ws(s.last()) {
        lemma_trim_end_idempotent(s.drop_last());
    }
}

/// `trim_end(s)` is a prefix of `s` that is empty or ends in a non-space.
pub proof fn lemma_trim_end_prefix(s: Seq<char>)
    ensures
        trim_end(s).len() <= s.len(),
        trim_end(s) == s.subrange(0, trim_end(s).len() as int),
        trim_end(s).len() > 0 ==> !is_ws(trim_end(s).last()),
    decreases s.len(),
{
    if s.len() > 0 && is_ws(s.last()) {
        lemma_trim_end_prefix(s.drop_last());
        assert(s.drop_last().subrange(0, trim_end(s).len() as int) =~= s.subrange(0, trim_end(s).len() as int));
    } else {
        assert(s.subrange(0, s.len() as int) =~= s);
    }
}

/// Trailing whitespace of a suffix that has some other character stays
/// the suffix's business.
pub proof fn lemma_trim_end_append(a: Seq<char>, b: Seq<char>)
    ensures
        trim_end(b).len() > 0 ==> trim_end(a + b) == a + trim_end(b),
        trim_end(b).len() == 0 ==> trim_end(a + b) == trim_end(a),
    decreases b.len(),
{
    if b.len() == 0 {
        assert(a + b =~= a);
    } else if is_ws(b.last()) {
        assert((a + b).drop_last() =~= a + b.drop_last());
        lemma_trim_end_append(a, b.drop_last());
    } else {
        assert((a + b).last() == b.last());
    }
}

/// Removing a trailing space does not change what `trim` leaves.
proof fn lemma_trim_drop_trailing_space(s: Seq<char>)
    requires
        s.len() > 0,
        is_ws(s.last()),
    ensures
        trim_end(trim_start(s)) == trim_end(trim_start(s.drop_last())),
    decreases s.len(),
{
    if is_ws(s[0]) {
        if s.len() == 1 {
            assert(s.drop_first() =~= s.drop_last());
            assert(trim_start(s) == trim_start(s.drop_first()));
        } else {
            assert(s.drop_last().drop_first() =~= s.drop_first().drop_last());
            assert(s.drop_first().last() == s.last());
            assert(s.drop_last()[0] == s[0]);
            assert(trim_start(s) == trim_start(s.drop_first()));
            assert(trim_start(s.drop_last()) == trim_start(s.drop_first().drop_last()));
            lemma_trim_drop_trailing_space(s.drop_first());
        }
    } else {
        assert(s.len() != 1);
        assert(s.drop_last()[0] == s[0]);
        assert(trim_start(s) == s);
        assert(trim_start(s.drop_last()) == s.drop_last());
        assert(trim_end(s) == trim_end(s.drop_last()));
    }
}

/// `trim` ignores trailing whitespace already removed.
pub proof fn lemma_trim_of_trim_end(s: Seq<char>)
    ensures
        trim(trim_end(s)) == trim(s),
    decreases s.len(),
{
    if s.len() > 0 && is_ws(s.last()) {
        lemma_trim_of_trim_end(s.drop_last());
        lemma_trim_drop_trailing_space(s);
    }
}

/// `trim` of text that starts with a non-space keeps that character first.
pub proof fn lemma_trim_keeps_first(s: Seq<char>)
    requires
        s.len() > 0,
        !is_ws(s[0]),
    ensures
        trim(s).len() > 0,
        trim(s)[0] == s[0],
    decreases s.len(),
{
    if is_ws(s.last()) {
        assert(s.len() > 1);
        assert(s.drop_last()[0] == s[0]);
        lemma_trim_keeps_first(s.drop_last());
        assert(trim_start(s.drop_last()) == s.drop_last());
    }
}

} // verus!
