//! Tokens of SVG path data (`d`): the separators between them, single-letter
//! commands, and the extent of each number. Turning a number's text into a
//! float is left to the caller.

use vstd::prelude::*;
use vstd::string::StringSliceAdditionalSpecFns;

use crate::text::{chars_of, find_char, find_from, is_whitespace, is_ws, push_char, range_is};

verus! {

/// Space, comma, tab, newline or carriage return.
pub open spec fn is_sep(c: u8) -> bool {
    c == 32 || c == 44 || c == 9 || c == 10 || c == 13
}

/// `u8::is_ascii_alphabetic`.
pub open spec fn is_letter(c: u8) -> bool {
    (65 <= c <= 90) || (97 <= c <= 122)
}

pub open spec fn is_digit_byte(c: u8) -> bool {
    48 <= c <= 57
}

pub open spec fn is_sign(c: u8) -> bool {
    c == 43 || c == 45
}

/// The first position at or after `i` that is not a separator.
pub open spec fn skip_seps(b: Seq<u8>, i: int) -> int
    decreases b.len() - i,
{
    if 0 <= i < b.len() && is_sep(b[i]) {
        skip_seps(b, i + 1)
    } else {
        i
    }
}

/// Where the body of a number that continues at `i` ends: digits, one `.`
/// (none if `dot` says one was seen), and `e`/`E` each with an optional sign.
pub open spec fn scan_number(b: Seq<u8>, i: int, dot: bool) -> int
    decreases b.len() - i,
{
    if i < 0 || i >= b.len() {
        i
    } else if is_digit_byte(b[i]) {
        scan_number(b, i + 1, dot)
    } else if b[i] == 46 && !dot {
        scan_number(b, i + 1, true)
    } else if b[i] == 69 || b[i] == 101 {
        if i + 1 < b.len() && is_sign(b[i + 1]) {
            scan_number(b, i + 2, dot)
        } else {
            scan_number(b, i + 1, dot)
        }
    } else {
        i
    }
}

/// Some byte of `b[lo..hi]` is a digit.
pub open spec fn has_digit(b: Seq<u8>, lo: int, hi: int) -> bool {
    exists|k: int| lo <= k < hi && is_digit_byte(#[trigger] b[k])
}

/// A cursor over the bytes of path data.
pub struct Lexer<'a> {
    b: &'a [u8],
    i: usize,
}

impl<'a> Lexer<'a> {
    /// The bytes being read.
    pub closed spec fn bytes(&self) -> Seq<u8> {
        self.b@
    }

    /// The position of the next unread byte.
    pub closed spec fn pos(&self) -> int {
        self.i as int
    }

    pub closed spec fn wf(&self) -> bool {
        self.i <= self.b@.len()
    }

    /// A cursor at the start of `s`.
    pub fn new(s: &'a str) -> (l: Lexer<'a>)
        ensures
            l.wf(),
            l.bytes() == s.spec_bytes(),
            l.pos() == 0,
    {
        Lexer { b: s.as_bytes(), i: 0 }
    }

    /// Where the cursor is.
    pub fn position(&self) -> (p: usize)
        ensures
            p == self.pos(),
    {
        self.i
    }

    /// Move past separators.
    pub fn skip_sep(&mut self)
        requires
            old(self).wf(),
        ensures
            final(self).wf(),
            final(self).bytes() == old(self).bytes(),
            final(self).pos() == skip_seps(old(self).bytes(), old(self).pos()),
    {
        let ghost start = self.i as int;
        while self.i < self.b.len() && (self.b[self.i] == 32 || self.b[self.i] == 44 || self.b[self.i]
            == 9 || self.b[self.i] == 10 || self.b[self.i] == 13)
            invariant
                self.b == old(self).b,
                start == old(self).i,
                start <= self.i <= self.b@.len(),
                skip_seps(self.b@, start) == skip_seps(self.b@, self.i as int),
            decreases self.b@.len() - self.i,
        {
            self.i += 1;
        }
    }

    /// Past the separators, nothing is left.
    pub fn eof(&mut self) -> (b: bool)
        requires
            old(self).wf(),
        ensures
            final(self).wf(),
            final(self).bytes() == old(self).bytes(),
            final(self).pos() == skip_seps(old(self).bytes(), old(self).pos()),
            b == (final(self).pos() >= final(self).bytes().len()),
    {
        self.skip_sep();
        self.i >= self.b.len()
    }

    /// Past the separators, the command letter there, if a letter is there
    /// (not consumed).
    pub fn peek_cmd(&mut self) -> (c: Option<u8>)
        requires
            old(self).wf(),
        ensures
            final(self).wf(),
            final(self).bytes() == old(self).bytes(),
            final(self).pos() == skip_seps(old(self).bytes(), old(self).pos()),
            ({
                let p = final(self).pos();
                let b = final(self).bytes();
                if p < b.len() && is_letter(b[p]) {
                    c == Some(b[p])
                } else {
                    c is None
                }
            }),
    {
        self.skip_sep();
        if self.i < self.b.len() {
            let c = self.b[self.i];
            if (65 <= c && c <= 90) || (97 <= c && c <= 122) {
                return Some(c);
            }
        }
        None
    }

    /// Like `peek_cmd`, and a letter found is consumed.
    pub fn take_cmd(&mut self) -> (c: Option<u8>)
        requires
            old(self).wf(),
        ensures
            final(self).wf(),
            final(self).bytes() == old(self).bytes(),
            ({
                let p = skip_seps(old(self).bytes(), old(self).pos());
                let b = old(self).bytes();
                if p < b.len() && is_letter(b[p]) {
                    c == Some(b[p]) && final(self).pos() == p + 1
                } else {
                    c is None && final(self).pos() == p
                }
            }),
    {
        let c = self.peek_cmd();
        if c.is_some() && self.i < self.b.len() {
            self.i += 1;
        }
        c
    }

    /// Past the separators, the extent `(start, end)` of the number there:
    /// an optional sign, then digits, one `.`, and exponents; the cursor moves
    /// to its end. With no digit in it there is no number and the cursor stays
    /// past the separators.
    pub fn number_span(&mut self) -> (r: Option<(usize, usize)>)
        requires
            old(self).wf(),
        ensures
            final(self).wf(),
            final(self).bytes() == old(self).bytes(),
            ({
                let b = old(self).bytes();
                let s = skip_seps(b, old(self).pos());
                let body = if s < b.len() && is_sign(b[s]) {
                    s + 1
                } else {
                    s
                };
                let e = scan_number(b, body, false);
                if has_digit(b, body, e) {
                    r == Some((s as usize, e as usize)) && final(self).pos() == e
                } else {
                    r is None && final(self).pos() == s
                }
            }),
    {
        self.skip_sep();
        let start = self.i;
        if self.i < self.b.len() && (self.b[self.i] == 43 || self.b[self.i] == 45) {
            self.i += 1;
        }
        let ghost body = self.i as int;
        let mut seen_digit = false;
        let mut seen_dot = false;
        while self.i < self.b.len()
            invariant_except_break
                self.b == old(self).b,
                body <= self.i <= self.b@.len(),
                scan_number(self.b@, body, false) == scan_number(self.b@, self.i as int, seen_dot),
                seen_digit == has_digit(self.b@, body, self.i as int),
            ensures
                self.b == old(self).b,
                body <= self.i <= self.b@.len(),
                scan_number(self.b@, body, false) == self.i,
                seen_digit == has_digit(self.b@, body, self.i as int),
            decreases self.b@.len() - self.i,
        {
            let c = self.b[self.i];
            if 48 <= c && c <= 57 {
                seen_digit = true;
                self.i += 1;
            } else if c == 46 && !seen_dot {
                seen_dot = true;
                self.i += 1;
            } else if c == 69 || c == 101 {
                proof {
                    assert(!is_digit_byte(c));
                }
                self.i += 1;
                if self.i < self.b.len() && (self.b[self.i] == 43 || self.b[self.i] == 45) {
                    self.i += 1;
                }
            } else {
                break;
            }
        }
        if !seen_digit {
            self.i = start;
            return None;
        }
        Some((start, self.i))
    }
}


// ---- the command grammar -----------------------------------------------------------

/// A drawing command of the supported subset; `rel` marks the lower-case,
/// relative form.
#[derive(Debug, Clone, Copy, PartialEq, Eq, Structural)]
pub enum PathCmd {
    Move { rel: bool },
    Line { rel: bool },
    HLine { rel: bool },
    VLine { rel: bool },
    Cubic { rel: bool },
    Close,
}

/// The command a letter names: `M m L l H h V v C c Z z`; any other letter
/// is unsupported.
pub open spec fn letter_cmd(c: u8) -> Option<PathCmd> {
    if c == 77 {
        Some(PathCmd::Move { rel: false })
    } else if c == 109 {
        Some(PathCmd::Move { rel: true })
    } else if c == 76 {
        Some(PathCmd::Line { rel: false })
    } else if c == 108 {
        Some(PathCmd::Line { rel: true })
    } else if c == 72 {
        Some(PathCmd::HLine { rel: false })
    } else if c == 104 {
        Some(PathCmd::HLine { rel: true })
    } else if c == 86 {
        Some(PathCmd::VLine { rel: false })
    } else if c == 118 {
        Some(PathCmd::VLine { rel: true })
    } else if c == 67 {
        Some(PathCmd::Cubic { rel: false })
    } else if c == 99 {
        Some(PathCmd::Cubic { rel: true })
    } else if c == 90 || c == 122 {
        Some(PathCmd::Close)
    } else {
        None
    }
}

/// How many numbers a command takes.
pub open spec fn arity(c: PathCmd) -> nat {
    match c {
        PathCmd::Move { .. } | PathCmd::Line { .. } => 2,
        PathCmd::HLine { .. } | PathCmd::VLine { .. } => 1,
        PathCmd::Cubic { .. } => 6,
        PathCmd::Close => 0,
    }
}

/// The command that numbers with no letter before them continue after
/// `prev`: a moveto goes on as a lineto of the same kind, the others repeat,
/// and nothing follows a close (or the start) without a letter.
pub open spec fn continued(prev: Option<PathCmd>) -> Option<PathCmd> {
    match prev {
        Some(PathCmd::Move { rel }) => Some(PathCmd::Line { rel }),
        Some(PathCmd::Close) => None,
        Some(c) => Some(c),
        None => None,
    }
}

/// The extent of the number at or after `i` (separators skipped), as
/// `Lexer::number_span` finds it.
pub open spec fn number_at(b: Seq<u8>, i: int) -> Option<(int, int)> {
    let s = skip_seps(b, i);
    let body = if s < b.len() && is_sign(b[s]) {
        s + 1
    } else {
        s
    };
    let e = scan_number(b, body, false);
    if has_digit(b, body, e) {
        Some((s, e))
    } else {
        None
    }
}

/// The extents of `k` numbers in a row from `i`, and where the last ends.
pub open spec fn numbers_at(b: Seq<u8>, i: int, k: nat) -> Option<(Seq<(int, int)>, int)>
    decreases k,
{
    if k == 0 {
        Some((Seq::empty(), i))
    } else {
        match number_at(b, i) {
            Some((s, e)) => match numbers_at(b, e, (k - 1) as nat) {
                Some((rest, end)) => Some((seq![(s, e)] + rest, end)),
                None => None,
            },
            None => None,
        }
    }
}

/// Skipping separators moves forward, and skipping again stays put.
pub proof fn lemma_skip_seps(b: Seq<u8>, i: int)
    requires
        0 <= i <= b.len(),
    ensures
        i <= skip_seps(b, i) <= b.len(),
        skip_seps(b, skip_seps(b, i)) == skip_seps(b, i),
    decreases b.len() - i,
{
    if i < b.len() && is_sep(b[i]) {
        lemma_skip_seps(b, i + 1);
    }
}

proof fn lemma_scan_number(b: Seq<u8>, i: int, dot: bool)
    requires
        0 <= i <= b.len(),
    ensures
        i <= scan_number(b, i, dot) <= b.len(),
    decreases b.len() - i,
{
    if i < b.len() {
        if is_digit_byte(b[i]) {
            lemma_scan_number(b, i + 1, dot);
        } else if b[i] == 46 && !dot {
            lemma_scan_number(b, i + 1, true);
        } else if b[i] == 69 || b[i] == 101 {
            if i + 1 < b.len() && is_sign(b[i + 1]) {
                lemma_scan_number(b, i + 2, dot);
            } else {
                lemma_scan_number(b, i + 1, dot);
            }
        }
    }
}

/// Reading numbers moves forward, and past at least one byte when a number
/// is read.
pub proof fn lemma_numbers_advance(b: Seq<u8>, i: int, k: nat)
    requires
        0 <= i <= b.len(),
    ensures
        numbers_at(b, i, k) matches Some((_, end)) ==> i <= end <= b.len() && (k > 0 ==> i < end),
    decreases k,
{
    if k > 0 {
        lemma_skip_seps(b, i);
        let s = skip_seps(b, i);
        let body = if s < b.len() && is_sign(b[s]) {
            s + 1
        } else {
            s
        };
        lemma_scan_number(b, body, false);
        if let Some((s2, e)) = number_at(b, i) {
            let w = choose|w: int| body <= w < scan_number(b, body, false) && is_digit_byte(#[trigger] b[w]);
            assert(e > body);
            lemma_numbers_advance(b, e, (k - 1) as nat);
        }
    }
}

/// The commands of path data `b` from position `i` on, `prev` being the
/// command before: each with the extents of its numbers. `None` on an
/// unsupported letter, a number too few, or numbers that no command takes.
pub open spec fn commands_from(b: Seq<u8>, i: int, prev: Option<PathCmd>) -> Option<
    Seq<(PathCmd, Seq<(int, int)>)>,
>
    decreases b.len() - i,
{
    if i < 0 || i > b.len() {
        None
    } else {
        let p = skip_seps(b, i);
        if p >= b.len() {
            Some(Seq::empty())
        } else {
            let (cmd, from) = if is_letter(b[p]) {
                (letter_cmd(b[p]), p + 1)
            } else {
                (continued(prev), p)
            };
            match cmd {
                None => None,
                Some(c) => match numbers_at(b, from, arity(c)) {
                    None => None,
                    Some((spans, end)) => {
                        proof {
                            lemma_skip_seps(b, i);
                            lemma_numbers_advance(b, from, arity(c));
                        }
                        match commands_from(b, end, Some(c)) {
                            Some(rest) => Some(seq![(c, spans)] + rest),
                            None => None,
                        }
                    },
                },
            }
        }
    }
}

/// The first command of a parse, if it gave any.
pub open spec fn first_command(o: Option<Seq<(PathCmd, Seq<(int, int)>)>>) -> Option<PathCmd> {
    match o {
        Some(cs) => if cs.len() > 0 {
            Some(cs[0].0)
        } else {
            None
        },
        None => None,
    }
}

/// Numbers with no letter before them, right after a moveto, are read as a
/// lineto of the same kind: relative after `m`, absolute after `M`. After
/// any other drawing command they repeat it, and after a close (or at the
/// start) they are refused.
pub proof fn lemma_implicit_command(b: Seq<u8>, i: int, prev: Option<PathCmd>)
    requires
        0 <= i <= b.len(),
        skip_seps(b, i) < b.len(),
        !is_letter(b[skip_seps(b, i)]),
    ensures
        prev matches Some(PathCmd::Move { rel }) ==> first_command(commands_from(b, i, prev)) is None
            || first_command(commands_from(b, i, prev)) == Some(PathCmd::Line { rel }),
        prev matches Some(PathCmd::Line { rel }) ==> first_command(commands_from(b, i, prev)) is None
            || first_command(commands_from(b, i, prev)) == Some(PathCmd::Line { rel }),
        prev matches Some(PathCmd::HLine { rel }) ==> first_command(commands_from(b, i, prev)) is None
            || first_command(commands_from(b, i, prev)) == Some(PathCmd::HLine { rel }),
        prev matches Some(PathCmd::VLine { rel }) ==> first_command(commands_from(b, i, prev)) is None
            || first_command(commands_from(b, i, prev)) == Some(PathCmd::VLine { rel }),
        prev matches Some(PathCmd::Cubic { rel }) ==> first_command(commands_from(b, i, prev)) is None
            || first_command(commands_from(b, i, prev)) == Some(PathCmd::Cubic { rel }),
        prev is None || prev == Some(PathCmd::Close) ==> commands_from(b, i, prev) is None,
{
}

/// How many numbers the first command of a parse took, if it gave any.
pub open spec fn first_count(o: Option<Seq<(PathCmd, Seq<(int, int)>)>>) -> int {
    match o {
        Some(cs) => if cs.len() > 0 {
            cs[0].1.len() as int
        } else {
            -1
        },
        None => -1,
    }
}

/// A command letter starts the command it names and takes its numbers:
/// `M`/`m` and `L`/`l` two, `H`/`h` and `V`/`v` one, `C`/`c` six, `Z`/`z`
/// none; lower case is relative. Any other letter is refused.
pub proof fn lemma_letter_command(b: Seq<u8>, i: int, prev: Option<PathCmd>)
    requires
        0 <= i <= b.len(),
        skip_seps(b, i) < b.len(),
        is_letter(b[skip_seps(b, i)]),
    ensures
        ({
            let c = b[skip_seps(b, i)];
            let o = commands_from(b, i, prev);
            &&& o is Some ==> first_count(o) >= 0
            &&& c == 77 ==> o is None || (first_command(o) == Some(PathCmd::Move { rel: false }) && first_count(o) == 2)
            &&& c == 109 ==> o is None || (first_command(o) == Some(PathCmd::Move { rel: true }) && first_count(o) == 2)
            &&& c == 76 ==> o is None || (first_command(o) == Some(PathCmd::Line { rel: false }) && first_count(o) == 2)
            &&& c == 108 ==> o is None || (first_command(o) == Some(PathCmd::Line { rel: true }) && first_count(o) == 2)
            &&& c == 72 ==> o is None || (first_command(o) == Some(PathCmd::HLine { rel: false }) && first_count(o) == 1)
            &&& c == 104 ==> o is None || (first_command(o) == Some(PathCmd::HLine { rel: true }) && first_count(o) == 1)
            &&& c == 86 ==> o is None || (first_command(o) == Some(PathCmd::VLine { rel: false }) && first_count(o) == 1)
            &&& c == 118 ==> o is None || (first_command(o) == Some(PathCmd::VLine { rel: true }) && first_count(o) == 1)
            &&& c == 67 ==> o is None || (first_command(o) == Some(PathCmd::Cubic { rel: false }) && first_count(o) == 6)
            &&& c == 99 ==> o is None || (first_command(o) == Some(PathCmd::Cubic { rel: true }) && first_count(o) == 6)
            &&& (c == 90 || c == 122) ==> o is None || (first_command(o) == Some(PathCmd::Close) && first_count(o) == 0)
            &&& !(c == 77 || c == 109 || c == 76 || c == 108 || c == 72 || c == 104 || c == 86 || c == 118
                || c == 67 || c == 99 || c == 90 || c == 122) ==> o is None
        }),
{
    let p = skip_seps(b, i);
    lemma_skip_seps(b, i);
    match letter_cmd(b[p]) {
        Some(c) => {
            lemma_numbers_count(b, p + 1, arity(c));
        },
        None => {},
    }
}

/// `k` numbers read give `k` extents.
proof fn lemma_numbers_count(b: Seq<u8>, i: int, k: nat)
    ensures
        numbers_at(b, i, k) matches Some((spans, _)) ==> spans.len() == k,
    decreases k,
{
    if k > 0 {
        if let Some((s, e)) = number_at(b, i) {
            lemma_numbers_count(b, e, (k - 1) as nat);
        }
    }
}

/// Some command of `cs` is a moveto.
pub open spec fn has_move(cs: Seq<(PathCmd, Seq<(int, int)>)>) -> bool {
    exists|k: int| 0 <= k < cs.len() && (#[trigger] cs[k]).0 is Move
}

/// The commands of path data `b`; `None` where they are malformed or no
/// moveto starts a subpath.
pub open spec fn path_commands_spec(b: Seq<u8>) -> Option<Seq<(PathCmd, Seq<(int, int)>)>> {
    match commands_from(b, 0, None) {
        Some(cs) => if has_move(cs) {
            Some(cs)
        } else {
            None
        },
        None => None,
    }
}

/// The extents of a list of numbers, as integers.
pub open spec fn spans_view(v: Seq<(usize, usize)>) -> Seq<(int, int)> {
    v.map_values(|p: (usize, usize)| (p.0 as int, p.1 as int))
}

/// A list of commands with their number extents, as integers.
pub open spec fn commands_view(v: Seq<(PathCmd, Vec<(usize, usize)>)>) -> Seq<(PathCmd, Seq<(int, int)>)> {
    v.map_values(|e: (PathCmd, Vec<(usize, usize)>)| (e.0, spans_view(e.1@)))
}

fn cmd_of(c: u8) -> (r: Option<PathCmd>)
    ensures
        r == letter_cmd(c),
{
    match c {
        77 => Some(PathCmd::Move { rel: false }),
        109 => Some(PathCmd::Move { rel: true }),
        76 => Some(PathCmd::Line { rel: false }),
        108 => Some(PathCmd::Line { rel: true }),
        72 => Some(PathCmd::HLine { rel: false }),
        104 => Some(PathCmd::HLine { rel: true }),
        86 => Some(PathCmd::VLine { rel: false }),
        118 => Some(PathCmd::VLine { rel: true }),
        67 => Some(PathCmd::Cubic { rel: false }),
        99 => Some(PathCmd::Cubic { rel: true }),
        90 | 122 => Some(PathCmd::Close),
        _ => None,
    }
}

fn arity_of(c: PathCmd) -> (n: usize)
    ensures
        n == arity(c),
{
    match c {
        PathCmd::Move { .. } | PathCmd::Line { .. } => 2,
        PathCmd::HLine { .. } | PathCmd::VLine { .. } => 1,
        PathCmd::Cubic { .. } => 6,
        PathCmd::Close => 0,
    }
}

fn continue_after(prev: Option<PathCmd>) -> (r: Option<PathCmd>)
    ensures
        r == continued(prev),
        prev matches Some(PathCmd::Move { rel }) ==> r == Some(PathCmd::Line { rel }),
{
    match prev {
        Some(PathCmd::Move { rel }) => Some(PathCmd::Line { rel }),
        Some(PathCmd::Close) => None,
        Some(c) => Some(c),
        None => None,
    }
}

impl<'a> Lexer<'a> {
    /// The extents of the next `k` numbers, the cursor moved past them; `None`
    /// when one of them is missing.
    fn read_numbers(&mut self, k: usize) -> (r: Option<Vec<(usize, usize)>>)
        requires
            old(self).wf(),
        ensures
            final(self).wf(),
            final(self).bytes() == old(self).bytes(),
            match numbers_at(old(self).bytes(), old(self).pos(), k as nat) {
                Some((spans, end)) => r matches Some(v) && spans_view(v@) == spans && final(self).pos() == end,
                None => r is None,
            },
    {
        let ghost b = self.bytes();
        let ghost p0 = self.pos();
        let mut out: Vec<(usize, usize)> = Vec::new();
        let mut j: usize = 0;
        assert(spans_view(out@) + Seq::<(int, int)>::empty() =~= Seq::<(int, int)>::empty());
        while j < k
            invariant
                self.wf(),
                self.bytes() == b,
                b == old(self).bytes(),
                p0 == old(self).pos(),
                j <= k,
                numbers_at(b, p0, k as nat) == match numbers_at(b, self.pos(), (k - j) as nat) {
                    Some((rest, end)) => Some((spans_view(out@) + rest, end)),
                    None => None,
                },
            decreases k - j,
        {
            let ghost before = self.pos();
            match self.number_span() {
                Some(span) => {
                    proof {
                        let rest_k = (k - j - 1) as nat;
                        lemma_skip_seps(b, before);
                        let sk = skip_seps(b, before);
                        lemma_scan_number(b, if sk < b.len() && is_sign(b[sk]) { sk + 1 } else { sk }, false);
                        assert(number_at(b, before) == Some((span.0 as int, span.1 as int)));
                        let ghost old_out = out@;
                        assert(spans_view(old_out.push(span)) =~= spans_view(old_out).push((
                            span.0 as int,
                            span.1 as int,
                        )));
                        match numbers_at(b, span.1 as int, rest_k) {
                            Some((rest, end)) => {
                                assert(spans_view(old_out) + (seq![(span.0 as int, span.1 as int)] + rest)
                                    =~= spans_view(old_out.push(span)) + rest);
                            },
                            None => {},
                        }
                    }
                    out.push(span);
                },
                None => {
                    return None;
                },
            }
            j += 1;
        }
        assert(spans_view(out@) + Seq::<(int, int)>::empty() =~= spans_view(out@));
        Some(out)
    }
}

proof fn lemma_has_move_push(cs: Seq<(PathCmd, Seq<(int, int)>)>, e: (PathCmd, Seq<(int, int)>))
    ensures
        has_move(cs.push(e)) == (has_move(cs) || e.0 is Move),
{
    let t = cs.push(e);
    if has_move(cs) {
        let k = choose|k: int| 0 <= k < cs.len() && (#[trigger] cs[k]).0 is Move;
        assert(t[k] == cs[k]);
    }
    if e.0 is Move {
        assert(t[cs.len() as int] == e);
    }
    if has_move(t) {
        let k = choose|k: int| 0 <= k < t.len() && (#[trigger] t[k]).0 is Move;
        if k < cs.len() {
            assert(t[k] == cs[k]);
        }
    }
}

/// The drawing commands of SVG path data `d`, each with the byte extents of
/// its numbers (turning those into coordinates is left to the caller).
/// `None` on an unsupported command letter, a missing number, a number
/// before any command or after a close, or a path with no moveto.
pub fn path_commands(d: &str) -> (r: Option<Vec<(PathCmd, Vec<(usize, usize)>)>>)
    ensures
        match path_commands_spec(d.spec_bytes()) {
            Some(cs) => r matches Some(v) && commands_view(v@) == cs,
            None => r is None,
        },
{
    let mut lx = Lexer::new(d);
    let ghost b = lx.bytes();
    let mut out: Vec<(PathCmd, Vec<(usize, usize)>)> = Vec::new();
    let mut prev: Option<PathCmd> = None;
    let mut any = false;
    assert(commands_view(out@) =~= Seq::<(PathCmd, Seq<(int, int)>)>::empty());
    loop
        invariant
            lx.wf(),
            lx.bytes() == b,
            b == d.spec_bytes(),
            commands_from(b, 0, None) == match commands_from(b, lx.pos(), prev) {
                Some(rest) => Some(commands_view(out@) + rest),
                None => None,
            },
            any == has_move(commands_view(out@)),
        ensures
            lx.pos() >= b.len(),
        decreases b.len() - lx.pos(),
    {
        let ghost i0 = lx.pos();
        proof {
            lemma_skip_seps(b, i0);
            let p = skip_seps(b, i0);
            lemma_skip_seps(b, p);
            assert(commands_from(b, p, prev) == commands_from(b, i0, prev));
        }
        if lx.eof() {
            break;
        }
        let ghost p = lx.pos();
        let c = match lx.take_cmd() {
            Some(l) => match cmd_of(l) {
                Some(c) => c,
                None => return None,
            },
            None => match continue_after(prev) {
                Some(c) => c,
                None => return None,
            },
        };
        let ghost from = lx.pos();
        let spans = match lx.read_numbers(arity_of(c)) {
            Some(v) => v,
            None => return None,
        };
        proof {
            lemma_numbers_advance(b, from, arity(c));
            let e = (c, spans_view(spans@));
            let old_view = commands_view(out@);
            assert(commands_view(out@.push((c, spans))) =~= old_view.push(e));
            lemma_has_move_push(old_view, e);
            match commands_from(b, lx.pos(), Some(c)) {
                Some(rest) => {
                    assert(old_view + (seq![e] + rest) =~= old_view.push(e) + rest);
                },
                None => {},
            }
        }
        out.push((c, spans));
        if matches!(c, PathCmd::Move { .. }) {
            any = true;
        }
        prev = Some(c);
    }
    proof {
        assert(commands_from(b, lx.pos(), prev) == Some(Seq::<(PathCmd, Seq<(int, int)>)>::empty()));
        assert(commands_view(out@) + Seq::<(PathCmd, Seq<(int, int)>)>::empty() =~= commands_view(out@));
    }
    if any {
        Some(out)
    } else {
        None
    }
}

// ---- the `d` attribute of an SVG file ----------------------------------------------

/// `p` occurs in `s` at `i`.
pub open spec fn occurs_at(s: Seq<char>, p: Seq<char>, i: int) -> bool {
    0 <= i && i + p.len() <= s.len() && s.subrange(i, i + p.len()) == p
}

/// Where `p` first occurs in `s`.
#[verifier::opaque]
pub open spec fn first_occurrence(s: Seq<char>, p: Seq<char>) -> Option<int> {
    if exists|i: int| occurs_at(s, p, i) {
        Some(choose|i: int| occurs_at(s, p, i) && forall|j: int| 0 <= j < i ==> !occurs_at(s, p, j))
    } else {
        None
    }
}

proof fn lemma_first_occurrence(s: Seq<char>, p: Seq<char>, at: int)
    requires
        occurs_at(s, p, at),
        forall|j: int| 0 <= j < at ==> !occurs_at(s, p, j),
    ensures
        first_occurrence(s, p) == Some(at),
{
    reveal(first_occurrence);
    let c = choose|i: int| occurs_at(s, p, i) && forall|j: int| 0 <= j < i ==> !occurs_at(s, p, j);
    assert(occurs_at(s, p, c));
    if c > at {
        assert(!occurs_at(s, p, at));
    }
}

/// The text after the first ` d="` of `svg`, else after its first tab-led
/// `d="`.
pub open spec fn after_d_attr(svg: Seq<char>) -> Option<Seq<char>> {
    match first_occurrence(svg, seq![' ', 'd', '=', '"']) {
        Some(i) => Some(svg.skip(i + 4)),
        None => match first_occurrence(svg, seq!['\t', 'd', '=', '"']) {
            Some(i) => Some(svg.skip(i + 4)),
            None => None,
        },
    }
}

/// `s` read word by word: what has been written so far, and whether
/// whitespace followed the last word written.
pub open spec fn squeeze_state(s: Seq<char>) -> (Seq<char>, bool)
    decreases s.len(),
{
    if s.len() == 0 {
        (Seq::empty(), false)
    } else {
        let (out, gap) = squeeze_state(s.drop_last());
        let c = s.last();
        if is_ws(c) {
            (out, out.len() > 0)
        } else if gap {
            (out.push(' ').push(c), false)
        } else {
            (out.push(c), false)
        }
    }
}

/// The words of `s` joined by single spaces (`split_whitespace().join(" ")`).
pub open spec fn squeezed(s: Seq<char>) -> Seq<char> {
    squeeze_state(s).0
}

/// The path data of the first `d="…"` attribute in an SVG document, its
/// whitespace runs made single spaces.
pub open spec fn svg_d(svg: Seq<char>) -> Option<Seq<char>> {
    match after_d_attr(svg) {
        Some(rest) => match find_char(rest, '"') {
            Some(k) => Some(squeezed(rest.take(k))),
            None => None,
        },
        None => None,
    }
}

/// Where `p` first occurs in `v`.
fn find_text(v: &Vec<char>, p: &Vec<char>) -> (r: Option<usize>)
    ensures
        first_occurrence(v@, p@) == match r {
            Some(i) => Some(i as int),
            None => None::<int>,
        },
        r matches Some(i) ==> occurs_at(v@, p@, i as int),
{
    proof {
        reveal(first_occurrence);
    }
    let n = v.len();
    let k = p.len();
    if k > n {
        assert forall|i: int| !occurs_at(v@, p@, i) by {}
        return None;
    }
    if k == 0 {
        assert(occurs_at(v@, p@, 0)) by {
            assert(v@.subrange(0, 0) =~= p@);
        }
        proof {
            lemma_first_occurrence(v@, p@, 0);
        }
        return Some(0);
    }
    let mut i: usize = 0;
    while k <= n - i
        invariant
            n == v@.len(),
            1 <= k == p@.len(),
            k <= n,
            i <= n,
            forall|j: int| 0 <= j < i ==> !occurs_at(v@, p@, j),
        decreases n - i,
    {
        if range_is(v, i, i + k, p) {
            proof {
                lemma_first_occurrence(v@, p@, i as int);
            }
            return Some(i);
        }
        i += 1;
    }
    assert forall|j: int| !occurs_at(v@, p@, j) by {
        if 0 <= j && j >= i {
            assert(j + k > n);
        }
    }
    None
}

/// `v[lo..hi]`, its whitespace runs made single spaces and its ends trimmed.
fn squeeze_range(v: &Vec<char>, lo: usize, hi: usize) -> (out: String)
    requires
        lo <= hi <= v@.len(),
    ensures
        out@ == squeezed(v@.subrange(lo as int, hi as int)),
{
    let mut out = String::new();
    let mut gap = false;
    let mut wrote = false;
    let mut i = lo;
    assert(v@.subrange(lo as int, lo as int) =~= Seq::<char>::empty());
    while i < hi
        invariant
            lo <= i <= hi <= v@.len(),
            squeeze_state(v@.subrange(lo as int, i as int)) == (out@, gap),
            wrote == (out@.len() > 0),
        decreases hi - i,
    {
        let c = v[i];
        proof {
            let t = v@.subrange(lo as int, i + 1);
            assert(t.drop_last() =~= v@.subrange(lo as int, i as int));
            assert(t.last() == c);
        }
        if is_whitespace(c) {
            gap = wrote;
        } else {
            if gap {
                push_char(&mut out, ' ');
            }
            push_char(&mut out, c);
            gap = false;
            wrote = true;
        }
        i += 1;
    }
    out
}

/// Where the text after the first `d="` attribute (` d="`, else `\td="`)
/// of `v` starts.
fn d_attr_start(v: &Vec<char>) -> (r: Option<usize>)
    ensures
        match after_d_attr(v@) {
            Some(rest) => r matches Some(st) && st <= v@.len() && rest == v@.skip(st as int),
            None => r is None,
        },
{
    // `v` fits in memory, so a match's end `i + 4` fits in a `usize`.
    let _n = v.len();
    let space_d = chars_of(" d=\"");
    let tab_d = chars_of("\td=\"");
    proof {
        reveal_strlit(" d=\"");
        reveal_strlit("\td=\"");
    }
    assert(space_d@ == seq![' ', 'd', '=', '"']);
    assert(tab_d@ == seq!['\t', 'd', '=', '"']);
    match find_text(v, &space_d) {
        Some(i) => {
            assert(occurs_at(v@, space_d@, i as int) && space_d@.len() == 4);
            Some(i + 4)
        },
        None => match find_text(v, &tab_d) {
            Some(i) => {
                assert(occurs_at(v@, tab_d@, i as int) && tab_d@.len() == 4);
                Some(i + 4)
            },
            None => None,
        },
    }
}

/// The path data of the first `d="…"` attribute in `svg`, whitespace runs
/// made single spaces; `None` where there is no such attribute or it is not
/// closed.
pub fn svg_path_data(svg: &str) -> (r: Option<String>)
    ensures
        match svg_d(svg@) {
            Some(d) => r matches Some(s) && s@ == d,
            None => r is None,
        },
{
    let v = chars_of(svg);
    let start = match d_attr_start(&v) {
        Some(st) => st,
        None => return None,
    };
    let ghost rest = v@.skip(start as int);
    let found = find_from(&v, start, '"');
    proof {
        crate::text::lemma_find_char_found(rest, '"');
        match find_char(rest, '"') {
            Some(k) => {
                assert(v@[start + k] == rest[k]);
                if let Some(j) = found {
                    assert(rest[j - start] == '"');
                    assert(k == j - start);
                }
            },
            None => {
                if let Some(j) = found {
                    assert(rest[j - start] == '"');
                }
            },
        }
    }
    let end = match found {
        Some(j) => j,
        None => return None,
    };
    assert(rest.take(end - start) =~= v@.subrange(start as int, end as int));
    Some(squeeze_range(&v, start, end))
}

} // verus!
