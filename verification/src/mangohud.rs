//! Management of `MangoHud.conf` so in-game FPS logging is on without the user
//! hand-editing it.
//!
//! We own a delimited block at the end of the file and rewrite only that block;
//! everything the user (or GOverlay) put above is left untouched. MangoHud takes
//! the last value for a duplicate key, so our block wins regardless of what is
//! above it.

use vstd::prelude::*;

use crate::text::{
    chars_of, is_ws, lemma_find_char, lemma_lines_have_no_newline, lemma_trim_end_append,
    lemma_trim_end_idempotent, lemma_trim_end_prefix, lemma_trim_keeps_first, lemma_trim_of_trim_end,
    line_views, lines, push_char, push_range, push_str, range_is, split_lines, string_of, strip_cr,
    trim, trim_bounds, trim_end, trim_end_bound, trim_start,
};

verus! {

broadcast use vstd::string::group_string_axioms;

/// First line of the managed block.
pub const BEGIN: &'static str = "# >>> bc250-dashboard (managed) >>>";

/// Last line of the managed block.
pub const END: &'static str = "# <<< bc250-dashboard (managed) <<<";

/// Settings the managed block holds before `output_folder=<dir>`.
pub const BLOCK_SETTINGS: &'static str = "\nautostart_log=1\nlog_interval=2000\noutput_folder=";

/// The lines of `ls` outside the managed block, each followed by `\n`.
/// `in_block` says whether the first line starts inside the block.
pub open spec fn outside_block(ls: Seq<Seq<char>>, in_block: bool) -> Seq<char>
    decreases ls.len(),
{
    if ls.len() == 0 {
        Seq::empty()
    } else {
        let t = trim(ls[0]);
        if t == BEGIN@ {
            outside_block(ls.drop_first(), true)
        } else if t == END@ {
            outside_block(ls.drop_first(), false)
        } else if !in_block {
            ls[0].push('\n') + outside_block(ls.drop_first(), false)
        } else {
            outside_block(ls.drop_first(), true)
        }
    }
}

/// The configuration text with a fresh managed block pointing at `dir`.
pub open spec fn managed_text(current: Seq<char>, dir: Seq<char>) -> Seq<char> {
    let kept = trim_end(outside_block(lines(current), false));
    let head = if kept.len() == 0 { kept } else { kept.push('\n') };
    head + BEGIN@ + BLOCK_SETTINGS@ + dir + seq!['\n'] + END@ + seq!['\n']
}

/// Everything outside our `BEGIN..END` block, newline-terminated.
pub fn strip_block(s: &str) -> (out: String)
    ensures
        out@ == outside_block(lines(s@), false),
{
    let v = chars_of(s);
    let begin = chars_of(BEGIN);
    let end = chars_of(END);
    let n = v.len();
    let mut out = String::new();
    let mut in_block = false;
    let mut pos: usize = 0;
    assert(v@.subrange(0, n as int) == v@);
    while pos < n
        invariant
            v@ == s@,
            n == v@.len(),
            begin@ == BEGIN@,
            end@ == END@,
            pos <= n,
            out@ + outside_block(lines(v@.subrange(pos as int, n as int)), in_block)
                == outside_block(lines(s@), false),
        decreases n - pos,
    {
        let ghost rest = v@.subrange(pos as int, n as int);
        let mut e = pos;
        while e < n && v[e] != '\n'
            invariant
                pos <= e <= n,
                n == v@.len(),
                forall|j: int| pos <= j < e ==> v@[j] != '\n',
            decreases n - e,
        {
            e += 1;
        }
        proof {
            assert forall|j: int| 0 <= j < e - pos implies rest[j] != '\n' by {
                assert(rest[j] == v@[pos + j]);
            }
            lemma_find_char(rest, '\n', e - pos);
        }
        // The line is v[pos..line_end]; a '\r' right before the '\n' is dropped.
        let line_end = if e < n && e > pos && v[e - 1] == '\r' { e - 1 } else { e };
        let ghost line = v@.subrange(pos as int, line_end as int);
        proof {
            if e < n {
                assert(rest.subrange(0, e - pos) == v@.subrange(pos as int, e as int));
                assert(rest.subrange(e - pos + 1, rest.len() as int) == v@.subrange(e + 1, n as int));
                assert(strip_cr(v@.subrange(pos as int, e as int)) == line);
            } else {
                assert(line == rest);
            }
            assert(lines(rest) == seq![line] + lines(
                if e < n { v@.subrange(e + 1, n as int) } else { Seq::empty() },
            ));
            assert((seq![line] + lines(
                if e < n { v@.subrange(e + 1, n as int) } else { Seq::empty() },
            )).drop_first() == lines(if e < n { v@.subrange(e + 1, n as int) } else { Seq::empty() }));
        }
        let (a, b) = trim_bounds(&v, pos, line_end);
        if range_is(&v, a, b, &begin) {
            in_block = true;
        } else if range_is(&v, a, b, &end) {
            in_block = false;
        } else if !in_block {
            push_range(&mut out, &v, pos, line_end);
            push_char(&mut out, '\n');
        }
        if e < n {
            pos = e + 1;
        } else {
            pos = n;
            assert(v@.subrange(n as int, n as int) == Seq::<char>::empty());
        }
    }
    assert(v@.subrange(n as int, n as int) == Seq::<char>::empty());
    out
}

/// The new `MangoHud.conf` text: the user's lines (trailing blank space
/// removed), then our block turning CSV logging on into `log_dir`. The caller
/// writes it only when it differs from `current`.
pub fn managed_config(current: &str, log_dir: &str) -> (out: String)
    ensures
        out@ == managed_text(current@, log_dir@),
{
    let kept = strip_block(current);
    let kv = chars_of(kept.as_str());
    let b = trim_end_bound(&kv, 0, kv.len());
    proof {
        assert(kv@.subrange(0, kv@.len() as int) == kv@);
    }
    let mut out = String::new();
    push_range(&mut out, &kv, 0, b);
    assert(out@ == kv@.subrange(0, b as int));
    if b > 0 {
        push_char(&mut out, '\n');
    }
    push_str(&mut out, BEGIN);
    push_str(&mut out, BLOCK_SETTINGS);
    push_str(&mut out, log_dir);
    push_char(&mut out, '\n');
    push_str(&mut out, END);
    push_char(&mut out, '\n');
    out
}

/// The key whose value names the folder MangoHud writes its CSV logs to.
pub const FOLDER_KEY: &'static str = "output_folder=";

/// The value of the first of `ls` that sets `output_folder=` (the line trimmed
/// before the key is looked for, the value after it trimmed too).
pub open spec fn folder_setting(ls: Seq<Seq<char>>) -> Option<Seq<char>>
    decreases ls.len(),
{
    if ls.len() == 0 {
        None
    } else {
        let t = trim(ls[0]);
        if FOLDER_KEY@.is_prefix_of(t) {
            Some(trim(t.skip(FOLDER_KEY@.len() as int)))
        } else {
            folder_setting(ls.drop_first())
        }
    }
}

/// What `MangoHud.conf` text sets `output_folder=` to, if it sets it.
pub fn output_folder_setting(text: &str) -> (r: Option<String>)
    ensures
        match folder_setting(lines(text@)) {
            Some(v) => r matches Some(s) && s@ == v,
            None => r is None,
        },
{
    let ls = split_lines(text);
    let key = chars_of(FOLDER_KEY);
    let k = key.len();
    let mut i: usize = 0;
    assert(lines(text@).skip(0) == lines(text@));
    while i < ls.len()
        invariant
            line_views(ls@) == lines(text@),
            key@ == FOLDER_KEY@,
            k == key@.len(),
            i <= ls@.len(),
            folder_setting(lines(text@)) == folder_setting(lines(text@).skip(i as int)),
        decreases ls@.len() - i,
    {
        let ghost rest = lines(text@).skip(i as int);
        assert(rest[0] == ls@[i as int]@);
        let v = chars_of(ls[i].as_str());
        let (a, b) = trim_bounds(&v, 0, v.len());
        assert(v@.subrange(0, v@.len() as int) == v@);
        let ghost t = v@.subrange(a as int, b as int);
        if b - a >= k && range_is(&v, a, a + k, &key) {
            assert(t.subrange(0, k as int) == v@.subrange(a as int, a + k));
            assert(FOLDER_KEY@.is_prefix_of(t));
            let (c, d) = trim_bounds(&v, a + k, b);
            assert(t.skip(k as int) == v@.subrange(a + k, b as int));
            return Some(string_of(&v, c, d));
        }
        proof {
            if FOLDER_KEY@.is_prefix_of(t) {
                assert(t.subrange(0, k as int) == v@.subrange(a as int, a + k));
            }
            assert(rest.drop_first() == lines(text@).skip(i + 1));
        }
        i += 1;
    }
    None
}

// ---- rewriting is stable ---------------------------------------------------------

/// The lines `ls`, each followed by a newline.
pub open spec fn join_lines(ls: Seq<Seq<char>>) -> Seq<char>
    decreases ls.len(),
{
    if ls.len() == 0 {
        Seq::empty()
    } else {
        ls[0].push('\n') + join_lines(ls.drop_first())
    }
}

/// A line as `str::lines` gives it back: no newline, and no carriage return
/// at its end.
pub open spec fn clean_line(l: Seq<char>) -> bool {
    &&& forall|i: int| 0 <= i < l.len() ==> l[i] != '\n'
    &&& !(l.len() > 0 && l.last() == '\r')
}

/// A clean line that is not one of the block's markers.
pub open spec fn user_line(l: Seq<char>) -> bool {
    clean_line(l) && trim(l) != BEGIN@ && trim(l) != END@
}

/// The user's part of a managed file: what `managed_text` keeps above the
/// block.
pub open spec fn user_part(current: Seq<char>) -> Seq<char> {
    let kept = trim_end(outside_block(lines(current), false));
    if kept.len() == 0 {
        kept
    } else {
        kept.push('\n')
    }
}

/// The block's lines for folder `dir`.
pub open spec fn block_lines(dir: Seq<char>) -> Seq<Seq<char>> {
    seq![BEGIN@, "autostart_log=1"@, "log_interval=2000"@, "output_folder="@ + dir, END@]
}

proof fn lemma_join_push(ls: Seq<Seq<char>>, x: Seq<char>)
    ensures
        join_lines(ls.push(x)) == join_lines(ls) + x.push('\n'),
    decreases ls.len(),
{
    let p = ls.push(x);
    if ls.len() == 0 {
        assert(p.drop_first().len() == 0);
        assert(join_lines(p.drop_first()) == Seq::<char>::empty());
        assert(p[0] == x);
        assert(join_lines(p) == x.push('\n') + join_lines(p.drop_first()));
        assert(join_lines(ls) == Seq::<char>::empty());
        assert(join_lines(p) =~= join_lines(ls) + x.push('\n'));
    } else {
        assert(p.drop_first() =~= ls.drop_first().push(x));
        lemma_join_push(ls.drop_first(), x);
        assert(p[0] == ls[0]);
        assert(join_lines(p) == ls[0].push('\n') + join_lines(p.drop_first()));
        assert(join_lines(ls) == ls[0].push('\n') + join_lines(ls.drop_first()));
        assert(join_lines(p) =~= join_lines(ls) + x.push('\n'));
    }
}

/// Clean lines, joined and split again, come back.
proof fn lemma_lines_join(ls: Seq<Seq<char>>, b: Seq<char>)
    requires
        forall|k: int| 0 <= k < ls.len() ==> clean_line(#[trigger] ls[k]),
    ensures
        lines(join_lines(ls) + b) == ls + lines(b),
    decreases ls.len(),
{
    if ls.len() == 0 {
        assert(join_lines(ls) + b =~= b);
        assert(ls + lines(b) =~= lines(b));
    } else {
        let l = ls[0];
        let rest = join_lines(ls.drop_first()) + b;
        let s = join_lines(ls) + b;
        assert(s =~= l.push('\n') + rest);
        assert(clean_line(l));
        assert forall|j: int| 0 <= j < l.len() implies s[j] != '\n' by {
            assert(s[j] == l[j]);
        }
        assert(s[l.len() as int] == '\n');
        lemma_find_char(s, '\n', l.len() as int);
        assert(s.subrange(0, l.len() as int) =~= l);
        assert(s.subrange(l.len() as int + 1, s.len() as int) =~= rest);
        assert forall|k: int| 0 <= k < ls.drop_first().len() implies clean_line(#[trigger] ls.drop_first()[k]) by {
            assert(ls.drop_first()[k] == ls[k + 1]);
        }
        lemma_lines_join(ls.drop_first(), b);
        assert(strip_cr(l) == l);
        assert(ls =~= seq![l] + ls.drop_first());
        assert(lines(s) == seq![l] + lines(rest));
        assert(seq![l] + (ls.drop_first() + lines(b)) =~= ls + lines(b));
    }
}

/// Each line of `ls` as `str::lines` gives it back: one trailing carriage
/// return dropped.
pub open spec fn stripped(ls: Seq<Seq<char>>) -> Seq<Seq<char>> {
    ls.map_values(|l: Seq<char>| strip_cr(l))
}

/// Lines without newlines, joined and split again, come back with one
/// trailing carriage return each dropped.
proof fn lemma_lines_join_raw(ls: Seq<Seq<char>>, b: Seq<char>)
    requires
        forall|k: int, i: int| 0 <= k < ls.len() && 0 <= i < ls[k].len() ==> #[trigger] ls[k][i] != '\n',
    ensures
        lines(join_lines(ls) + b) == stripped(ls) + lines(b),
    decreases ls.len(),
{
    if ls.len() == 0 {
        assert(join_lines(ls) + b =~= b);
        assert(stripped(ls) + lines(b) =~= lines(b));
    } else {
        let l = ls[0];
        let rest = join_lines(ls.drop_first()) + b;
        let s = join_lines(ls) + b;
        assert(s =~= l.push('\n') + rest);
        assert forall|j: int| 0 <= j < l.len() implies s[j] != '\n' by {
            assert(s[j] == l[j]);
            assert(ls[0][j] != '\n');
        }
        assert(s[l.len() as int] == '\n');
        lemma_find_char(s, '\n', l.len() as int);
        assert(s.subrange(0, l.len() as int) =~= l);
        assert(s.subrange(l.len() as int + 1, s.len() as int) =~= rest);
        assert forall|k: int, i: int|
            0 <= k < ls.drop_first().len() && 0 <= i < ls.drop_first()[k].len() implies #[trigger] ls.drop_first()[k][i]
            != '\n' by {
            assert(ls.drop_first()[k] == ls[k + 1]);
            assert(ls[k + 1][i] != '\n');
        }
        lemma_lines_join_raw(ls.drop_first(), b);
        assert(stripped(ls) =~= seq![strip_cr(l)] + stripped(ls.drop_first()));
        assert(lines(s) == seq![strip_cr(l)] + lines(rest));
        assert(seq![strip_cr(l)] + (stripped(ls.drop_first()) + lines(b)) =~= stripped(ls) + lines(b));
    }
}

/// User lines pass through `outside_block` as they are.
proof fn lemma_outside_user(ls: Seq<Seq<char>>, rest: Seq<Seq<char>>)
    requires
        forall|k: int| 0 <= k < ls.len() ==> user_line(#[trigger] ls[k]),
    ensures
        outside_block(ls + rest, false) == join_lines(ls) + outside_block(rest, false),
    decreases ls.len(),
{
    if ls.len() == 0 {
        assert(ls + rest =~= rest);
        assert(join_lines(ls) + outside_block(rest, false) =~= outside_block(rest, false));
    } else {
        assert((ls + rest)[0] == ls[0]);
        assert(user_line(ls[0]));
        assert((ls + rest).drop_first() =~= ls.drop_first() + rest);
        assert forall|k: int| 0 <= k < ls.drop_first().len() implies user_line(#[trigger] ls.drop_first()[k]) by {
            assert(ls.drop_first()[k] == ls[k + 1]);
        }
        lemma_outside_user(ls.drop_first(), rest);
        assert(ls[0].push('\n') + (join_lines(ls.drop_first()) + outside_block(rest, false)) =~= join_lines(
            ls,
        ) + outside_block(rest, false));
    }
}

/// What `outside_block` keeps of clean lines is a run of user lines.
proof fn lemma_kept_lines(ls: Seq<Seq<char>>, in_block: bool) -> (pl: Seq<Seq<char>>)
    requires
        forall|k: int| 0 <= k < ls.len() ==> clean_line(#[trigger] ls[k]),
    ensures
        outside_block(ls, in_block) == join_lines(pl),
        forall|k: int| 0 <= k < pl.len() ==> user_line(#[trigger] pl[k]),
    decreases ls.len(),
{
    if ls.len() == 0 {
        let pl = Seq::<Seq<char>>::empty();
        assert(join_lines(pl) =~= Seq::<char>::empty());
        pl
    } else {
        assert forall|k: int| 0 <= k < ls.drop_first().len() implies clean_line(#[trigger] ls.drop_first()[k]) by {
            assert(ls.drop_first()[k] == ls[k + 1]);
        }
        let t = trim(ls[0]);
        if t == BEGIN@ {
            lemma_kept_lines(ls.drop_first(), true)
        } else if t == END@ {
            lemma_kept_lines(ls.drop_first(), false)
        } else if !in_block {
            let tail = lemma_kept_lines(ls.drop_first(), false);
            let pl = seq![ls[0]] + tail;
            assert(pl.drop_first() =~= tail);
            assert(clean_line(ls[0]));
            assert forall|k: int| 0 <= k < pl.len() implies user_line(#[trigger] pl[k]) by {
                if k > 0 {
                    assert(pl[k] == tail[k - 1]);
                }
            }
            pl
        } else {
            lemma_kept_lines(ls.drop_first(), true)
        }
    }
}

/// Joined user lines without their trailing whitespace, with one newline
/// put back, are again joined user lines.
proof fn lemma_trimmed_join(pl: Seq<Seq<char>>) -> (ql: Seq<Seq<char>>)
    requires
        forall|k: int| 0 <= k < pl.len() ==> user_line(#[trigger] pl[k]),
    ensures
        forall|k: int| 0 <= k < ql.len() ==> user_line(#[trigger] ql[k]),
        ({
            let t = trim_end(join_lines(pl));
            join_lines(ql) == if t.len() == 0 {
                t
            } else {
                t.push('\n')
            }
        }),
    decreases pl.len(),
{
    if pl.len() == 0 {
        let ql = Seq::<Seq<char>>::empty();
        assert(join_lines(ql) =~= trim_end(join_lines(pl)));
        ql
    } else {
        let init = pl.drop_last();
        let last = pl.last();
        assert(pl =~= init.push(last));
        lemma_join_push(init, last);
        assert forall|k: int| 0 <= k < init.len() implies user_line(#[trigger] init[k]) by {
            assert(init[k] == pl[k]);
        }
        let whole = join_lines(init) + last.push('\n');
        assert(whole =~= (join_lines(init) + last).push('\n'));
        assert(is_ws('\n'));
        assert(whole.drop_last() =~= join_lines(init) + last);
        assert(trim_end(whole) == trim_end(join_lines(init) + last));
        lemma_trim_end_append(join_lines(init), last);
        let tl = trim_end(last);
        if tl.len() > 0 {
            lemma_trim_end_prefix(last);
            lemma_trim_of_trim_end(last);
            assert(user_line(last));
            assert forall|i: int| 0 <= i < tl.len() implies tl[i] != '\n' by {
                assert(tl[i] == last[i]);
            }
            assert(tl.last() != '\r') by {
                assert(!is_ws(tl.last()));
            }
            let ql = init.push(tl);
            lemma_join_push(init, tl);
            assert forall|k: int| 0 <= k < ql.len() implies user_line(#[trigger] ql[k]) by {
                if k < init.len() {
                    assert(ql[k] == init[k]);
                }
            }
            assert(join_lines(ql) =~= (join_lines(init) + tl).push('\n'));
            ql
        } else {
            lemma_trimmed_join(init)
        }
    }
}

proof fn lemma_block(dir: Seq<char>)
    requires
        forall|i: int| 0 <= i < dir.len() ==> dir[i] != '\n',
    ensures
        join_lines(block_lines(dir)) == BEGIN@ + BLOCK_SETTINGS@ + dir + seq!['\n'] + END@ + seq!['\n'],
        forall|k: int, i: int|
            0 <= k < block_lines(dir).len() && 0 <= i < block_lines(dir)[k].len() ==> #[trigger] block_lines(
                dir,
            )[k][i] != '\n',
        outside_block(stripped(block_lines(dir)), false) == Seq::<char>::empty(),
{
    reveal_strlit("# >>> bc250-dashboard (managed) >>>");
    reveal_strlit("# <<< bc250-dashboard (managed) <<<");
    reveal_strlit("\nautostart_log=1\nlog_interval=2000\noutput_folder=");
    reveal_strlit("autostart_log=1");
    reveal_strlit("log_interval=2000");
    reveal_strlit("output_folder=");
    let b = block_lines(dir);
    let of = "output_folder="@ + dir;
    assert(BEGIN@ == "# >>> bc250-dashboard (managed) >>>"@);
    assert(END@ == "# <<< bc250-dashboard (managed) <<<"@);
    assert(BLOCK_SETTINGS@ == "\nautostart_log=1\nlog_interval=2000\noutput_folder="@);
    assert(of[0] == 'o');
    assert forall|i: int| 0 <= i < of.len() implies of[i] != '\n' by {
        if i >= 14 {
            assert(of[i] == dir[i - 14]);
        }
    }
    assert forall|k: int, i: int| 0 <= k < b.len() && 0 <= i < b[k].len() implies #[trigger] b[k][i] != '\n' by {
        if k == 3 {
            assert(b[k] == of);
        }
    }
    let b1 = b.drop_first();
    let b2 = b1.drop_first();
    let b3 = b2.drop_first();
    let b4 = b3.drop_first();
    let b5 = b4.drop_first();
    assert(b[0] == BEGIN@);
    assert(b1[0] == "autostart_log=1"@);
    assert(b2[0] == "log_interval=2000"@);
    assert(b3[0] == of);
    assert(b4[0] == END@);
    assert(b5.len() == 0);
    assert(join_lines(b5) == Seq::<char>::empty());
    assert(join_lines(b4) == END@.push('\n') + join_lines(b5));
    assert(join_lines(b3) == of.push('\n') + join_lines(b4));
    assert(join_lines(b2) == "log_interval=2000"@.push('\n') + join_lines(b3));
    assert(join_lines(b1) == "autostart_log=1"@.push('\n') + join_lines(b2));
    assert(join_lines(b) == BEGIN@.push('\n') + join_lines(b1));
    assert(join_lines(b) =~= BEGIN@ + BLOCK_SETTINGS@ + dir + seq!['\n'] + END@ + seq!['\n']);
    let sb = stripped(b);
    assert(BEGIN@.last() != '\r' && END@.last() != '\r');
    assert("autostart_log=1"@.last() != '\r' && "log_interval=2000"@.last() != '\r');
    assert(sb =~= seq![BEGIN@, "autostart_log=1"@, "log_interval=2000"@, strip_cr(of), END@]);
    let b = sb;
    let b1 = b.drop_first();
    let b2 = b1.drop_first();
    let b3 = b2.drop_first();
    let b4 = b3.drop_first();
    let b5 = b4.drop_first();
    assert(b3[0] == strip_cr(of));
    lemma_trim_keeps_first(BEGIN@);
    lemma_trim_keeps_first(END@);
    lemma_trim_keeps_first("autostart_log=1"@);
    lemma_trim_keeps_first("log_interval=2000"@);
    let sof = strip_cr(of);
    assert(sof.len() >= 14 && sof[0] == 'o');
    lemma_trim_keeps_first(sof);
    assert(trim(BEGIN@) == BEGIN@) by {
        assert(trim_start(BEGIN@) == BEGIN@);
        assert(trim_end(BEGIN@) == BEGIN@);
    }
    assert(trim(END@) == END@) by {
        assert(trim_start(END@) == END@);
        assert(trim_end(END@) == END@);
    }
    assert(trim(b1[0]) != BEGIN@ && trim(b1[0]) != END@) by {
        assert(trim(b1[0])[0] != BEGIN@[0]);
        assert(trim(b1[0])[0] != END@[0]);
    }
    assert(trim(b2[0]) != BEGIN@ && trim(b2[0]) != END@) by {
        assert(trim(b2[0])[0] != BEGIN@[0]);
        assert(trim(b2[0])[0] != END@[0]);
    }
    assert(trim(b3[0]) != BEGIN@ && trim(b3[0]) != END@) by {
        assert(trim(b3[0])[0] != BEGIN@[0]);
        assert(trim(b3[0])[0] != END@[0]);
    }
    assert(outside_block(b5, false) == Seq::<char>::empty());
    assert(outside_block(b4, true) == outside_block(b5, false));
    assert(outside_block(b3, true) == outside_block(b4, true));
    assert(outside_block(b2, true) == outside_block(b3, true));
    assert(outside_block(b1, true) == outside_block(b2, true));
    assert(outside_block(b, false) == outside_block(b1, true));
}

/// Rewriting keeps the user's lines: the rewritten text read back outside
/// its block gives the user part it was written with, so a second rewrite
/// with the same folder changes nothing. (A line of the user's ending in a
/// carriage return, or a folder with a line break, would not survive.)
pub proof fn lemma_rewrite_is_stable(current: Seq<char>, dir: Seq<char>)
    requires
        forall|k: int|
            0 <= k < lines(current).len() ==> !(#[trigger] lines(current)[k].len() > 0 && lines(current)[k].last()
                == '\r'),
        forall|i: int| 0 <= i < dir.len() ==> dir[i] != '\n',
    ensures
        outside_block(lines(managed_text(current, dir)), false) == user_part(current),
        managed_text(managed_text(current, dir), dir) == managed_text(current, dir),
{
    let ls = lines(current);
    lemma_lines_have_no_newline(current);
    assert forall|k: int| 0 <= k < ls.len() implies clean_line(#[trigger] ls[k]) by {
        assert forall|i: int| 0 <= i < ls[k].len() implies ls[k][i] != '\n' by {
            assert(lines(current)[k][i] != '\n');
        }
    }
    let pl = lemma_kept_lines(ls, false);
    let ql = lemma_trimmed_join(pl);
    let head = user_part(current);
    assert(join_lines(ql) == head);
    lemma_block(dir);
    let blk = block_lines(dir);
    let m = managed_text(current, dir);
    assert(m =~= join_lines(ql) + join_lines(blk));
    assert forall|k: int| 0 <= k < ql.len() implies clean_line(#[trigger] ql[k]) by {
        assert(user_line(ql[k]));
    }
    lemma_lines_join(ql, join_lines(blk));
    lemma_lines_join_raw(blk, Seq::<char>::empty());
    assert(join_lines(blk) + Seq::<char>::empty() =~= join_lines(blk));
    assert(lines(Seq::<char>::empty()) =~= Seq::<Seq<char>>::empty());
    assert(stripped(blk) + Seq::<Seq<char>>::empty() =~= stripped(blk));
    assert(lines(m) == ql + stripped(blk));
    lemma_outside_user(ql, stripped(blk));
    assert(join_lines(ql) + Seq::<char>::empty() =~= join_lines(ql));
    assert(outside_block(lines(m), false) == head);
    // a second rewrite keeps the same user part
    let kept = trim_end(outside_block(ls, false));
    lemma_trim_end_idempotent(outside_block(ls, false));
    if kept.len() > 0 {
        assert(is_ws('\n'));
        assert(kept.push('\n').drop_last() =~= kept);
        assert(trim_end(kept.push('\n')) == trim_end(kept));
    }
    assert(trim_end(head) == kept);
}

} // verus!
