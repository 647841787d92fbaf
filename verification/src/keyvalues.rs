//! Steam's binary KeyValues format, as its local stats caches use it.
//!
//! A document is a list of entries ended by `0x08`. Each entry is a type byte,
//! a NUL-terminated key, then a value: `0x00` a nested list, `0x01` a
//! NUL-terminated string, `0x02`/`0x04`/`0x06` a little-endian 32-bit integer,
//! `0x03` four and `0x07`/`0x0A` eight skipped bytes, `0x05` a UTF-16 string
//! ended by two zero bytes. Any other type byte, or running out of input, is
//! a malformed document.
//!
//! The tree is kept flat: each node records the index of the list it belongs
//! to (`None` for the top level), and a list's children are the nodes that
//! name it, in document order.

use vstd::prelude::*;

verus! {

/// A node's value. Lists carry no payload here: their children point at them.
#[derive(Debug, Clone, PartialEq, Eq)]
pub enum KvVal {
    Obj,
    Str(Vec<u8>),
    Int(i32),
    Other,
}

/// One entry of the document.
#[derive(Debug, Clone)]
pub struct KvNode {
    pub key: Vec<u8>,
    pub parent: Option<usize>,
    pub val: KvVal,
}

/// A node's value as plain data.
pub enum ValSpec {
    Obj,
    Str(Seq<u8>),
    Int(i32),
    Other,
}

/// A node as plain data.
pub struct NodeSpec {
    pub key: Seq<u8>,
    pub parent: Option<int>,
    pub val: ValSpec,
}

pub open spec fn val_view(v: KvVal) -> ValSpec {
    match v {
        KvVal::Obj => ValSpec::Obj,
        KvVal::Str(s) => ValSpec::Str(s@),
        KvVal::Int(i) => ValSpec::Int(i),
        KvVal::Other => ValSpec::Other,
    }
}

pub open spec fn node_view(n: KvNode) -> NodeSpec {
    NodeSpec {
        key: n.key@,
        parent: match n.parent {
            Some(p) => Some(p as int),
            None => None,
        },
        val: val_view(n.val),
    }
}

pub open spec fn nodes_view(ns: Seq<KvNode>) -> Seq<NodeSpec> {
    ns.map_values(|n: KvNode| node_view(n))
}

/// Index of the first NUL byte at or after `pos`.
pub open spec fn find_nul(d: Seq<u8>, pos: int) -> Option<int>
    decreases d.len() - pos,
{
    if pos < 0 || pos >= d.len() {
        None
    } else if d[pos] == 0 {
        Some(pos)
    } else {
        find_nul(d, pos + 1)
    }
}

/// The NUL-terminated string at `pos` and the position after its NUL.
pub open spec fn cstr_at(d: Seq<u8>, pos: int) -> Option<(Seq<u8>, int)> {
    match find_nul(d, pos) {
        Some(e) => Some((d.subrange(pos, e), e + 1)),
        None => None,
    }
}

/// Position after the UTF-16 string at `pos` (ended by two zero bytes, read
/// two bytes at a time).
pub open spec fn wide_end(d: Seq<u8>, pos: int) -> Option<int>
    decreases d.len() - pos,
{
    if pos < 0 || pos + 2 > d.len() {
        None
    } else if d[pos] == 0 && d[pos + 1] == 0 {
        Some(pos + 2)
    } else {
        wide_end(d, pos + 2)
    }
}

/// Little-endian 32-bit integer from four bytes.
pub open spec fn le_i32(b0: u8, b1: u8, b2: u8, b3: u8) -> i32 {
    (b0 + b1 * 0x100 + b2 * 0x10000 + b3 * 0x1000000) as u32 as i32
}

/// A non-list value of type `t` starting at `p1`, and the position after it.
pub open spec fn scalar_value(d: Seq<u8>, t: u8, p1: int) -> Option<(ValSpec, int)> {
    if t == 1 {
        match cstr_at(d, p1) {
            Some((s, p2)) => Some((ValSpec::Str(s), p2)),
            None => None,
        }
    } else if t == 2 || t == 6 || t == 4 {
        if p1 + 4 <= d.len() {
            Some((ValSpec::Int(le_i32(d[p1], d[p1 + 1], d[p1 + 2], d[p1 + 3])), p1 + 4))
        } else {
            None
        }
    } else if t == 3 {
        Some((ValSpec::Other, p1 + 4))
    } else if t == 7 || t == 10 {
        Some((ValSpec::Other, p1 + 8))
    } else if t == 5 {
        match wide_end(d, p1) {
            Some(p2) => Some((ValSpec::Other, p2)),
            None => None,
        }
    } else {
        None
    }
}

/// The entries of the list starting at `pos` whose nodes belong to `parent`,
/// numbered from `base`; with the position after the list's `0x08`.
pub open spec fn parse_entries(d: Seq<u8>, pos: int, parent: Option<int>, base: int) -> Option<
    (Seq<NodeSpec>, int),
>
    decreases d.len() - pos, 1int,
{
    if pos < 0 || pos >= d.len() {
        None
    } else if d[pos] == 8 {
        Some((Seq::empty(), pos + 1))
    } else {
        let t = d[pos];
        match cstr_at(d, pos + 1) {
            None => None,
            Some((key, p1)) => {
                if p1 <= pos || p1 > d.len() {
                    None
                } else if t == 0 {
                    match parse_entries(d, p1, Some(base), base + 1) {
                        None => None,
                        Some((kids, p2)) => if p2 <= pos || p2 > d.len() {
                            None
                        } else {
                            match parse_entries(d, p2, parent, base + 1 + kids.len()) {
                                None => None,
                                Some((rest, p3)) => Some(
                                    (
                                        seq![NodeSpec { key, parent, val: ValSpec::Obj }] + kids
                                            + rest,
                                        p3,
                                    ),
                                ),
                            }
                        },
                    }
                } else {
                    let next = scalar_value(d, t, p1);
                    match next {
                        None => None,
                        Some((v, p2)) => if p2 <= pos || p2 >= d.len() {
                            None
                        } else {
                            match parse_entries(d, p2, parent, base + 1) {
                                None => None,
                                Some((rest, p3)) => Some(
                                    (seq![NodeSpec { key, parent, val: v }] + rest, p3),
                                ),
                            }
                        },
                    }
                }
            },
        }
    }
}

/// The whole document: the top-level list starting at byte 0.
pub open spec fn parse_document(d: Seq<u8>) -> Option<Seq<NodeSpec>> {
    match parse_entries(d, 0, None, 0) {
        Some((ns, _)) => Some(ns),
        None => None,
    }
}


proof fn lemma_find_nul(d: Seq<u8>, pos: int, e: int)
    requires
        0 <= pos <= e <= d.len(),
        forall|j: int| pos <= j < e ==> d[j] != 0,
        e == d.len() || d[e] == 0,
    ensures
        find_nul(d, pos) == if e < d.len() {
            Some(e)
        } else {
            None::<int>
        },
    decreases e - pos,
{
    if pos < e {
        lemma_find_nul(d, pos + 1, e);
    }
}

/// The NUL-terminated string at `pos` and the position after its NUL.
fn read_cstr(d: &[u8], pos: usize) -> (r: Option<(Vec<u8>, usize)>)
    requires
        pos <= d@.len(),
    ensures
        match cstr_at(d@, pos as int) {
            Some((s, p)) => r matches Some((v, q)) && v@ == s && q == p,
            None => r is None,
        },
        r matches Some((v, q)) ==> pos < q <= d@.len(),
{
    let mut e = pos;
    while e < d.len() && d[e] != 0
        invariant
            pos <= e <= d@.len(),
            forall|j: int| pos <= j < e ==> d@[j] != 0,
        decreases d@.len() - e,
    {
        e += 1;
    }
    proof {
        lemma_find_nul(d@, pos as int, e as int);
    }
    if e >= d.len() {
        return None;
    }
    let mut v: Vec<u8> = Vec::new();
    let mut i = pos;
    while i < e
        invariant
            pos <= i <= e < d@.len(),
            v@ == d@.subrange(pos as int, i as int),
        decreases e - i,
    {
        v.push(d[i]);
        assert(d@.subrange(pos as int, i + 1) == d@.subrange(pos as int, i as int).push(d@[i as int]));
        i += 1;
    }
    Some((v, e + 1))
}

/// Position after the UTF-16 string at `pos`.
fn skip_wide(d: &[u8], pos: usize) -> (r: Option<usize>)
    requires
        pos <= d@.len(),
    ensures
        match wide_end(d@, pos as int) {
            Some(p) => r matches Some(q) && q == p,
            None => r is None,
        },
        r matches Some(q) ==> pos < q <= d@.len(),
{
    let mut p = pos;
    loop
        invariant
            pos <= p <= d@.len(),
            wide_end(d@, pos as int) == wide_end(d@, p as int),
        decreases d@.len() - p,
    {
        if d.len() - p < 2 {
            return None;
        }
        if d[p] == 0 && d[p + 1] == 0 {
            return Some(p + 2);
        }
        p += 2;
    }
}

fn read_i32_le(d: &[u8], p: usize) -> (v: i32)
    requires
        p + 4 <= d@.len(),
    ensures
        v == le_i32(d@[p as int], d@[p + 1], d@[p + 2], d@[p + 3]),
{
    let b0 = d[p];
    let b1 = d[p + 1];
    let b2 = d[p + 2];
    let b3 = d[p + 3];
    let u: u32 = (b0 as u32) | ((b1 as u32) << 8) | ((b2 as u32) << 16) | ((b3 as u32) << 24);
    assert(u == (b0 + b1 * 0x100 + b2 * 0x10000 + b3 * 0x1000000) as u32) by (bit_vector)
        requires
            u == (b0 as u32) | ((b1 as u32) << 8) | ((b2 as u32) << 16) | ((b3 as u32) << 24),
    ;
    u as i32
}

/// Read the entries of the list at `pos` into `nodes`, as children of
/// `parent`. Returns the position after the list's end marker.
fn read_entries(d: &[u8], pos: usize, parent: Option<usize>, nodes: &mut Vec<KvNode>) -> (r: Option<usize>)
    requires
        pos <= d@.len(),
        parent matches Some(p) ==> p < old(nodes)@.len(),
    ensures
        match parse_entries(
            d@,
            pos as int,
            match parent {
                Some(p) => Some(p as int),
                None => None,
            },
            old(nodes)@.len() as int,
        ) {
            Some((ns, end)) => r == Some(end as usize) && nodes_view(final(nodes)@) == nodes_view(
                old(nodes)@,
            ) + ns,
            None => r is None,
        },
    decreases d@.len() - pos,
{
    let ghost par = match parent {
        Some(p) => Some(p as int),
        None => None::<int>,
    };
    let ghost start = nodes_view(nodes@);
    let ghost base0 = nodes@.len() as int;
    let mut p = pos;
    loop
        invariant
            pos <= p <= d@.len(),
            parent matches Some(q) ==> q < nodes@.len(),
            par == match parent {
                Some(q) => Some(q as int),
                None => None::<int>,
            },
            0 <= base0 <= nodes@.len(),
            base0 == old(nodes)@.len(),
            start == nodes_view(old(nodes)@),
            nodes_view(nodes@).subrange(0, base0) == start,
            parse_entries(d@, pos as int, par, base0) == match parse_entries(
                d@,
                p as int,
                par,
                nodes@.len() as int,
            ) {
                Some((rest, end)) => Some((nodes_view(nodes@).subrange(base0, nodes@.len() as int) + rest, end)),
                None => None::<(Seq<NodeSpec>, int)>,
            },
        decreases d@.len() - p,
    {
        let ghost here = nodes_view(nodes@);
        if p >= d.len() {
            return None;
        }
        let t = d[p];
        if t == 8 {
            proof {
                assert(nodes_view(nodes@) == start + nodes_view(nodes@).subrange(base0, nodes@.len() as int));
                assert(nodes_view(nodes@).subrange(base0, nodes@.len() as int) + Seq::<NodeSpec>::empty()
                    == nodes_view(nodes@).subrange(base0, nodes@.len() as int));
            }
            return Some(p + 1);
        }
        let (key, p1) = match read_cstr(d, p + 1) {
            Some(kp) => kp,
            None => return None,
        };
        let ghost key_s = key@;
        proof {
            lemma_view_push_prefix(nodes@, base0);
            assert(cstr_at(d@, p + 1) == Some((key_s, p1 as int)));
        }
        if t == 0 {
            let me = nodes.len();
            let ghost node_spec = NodeSpec { key: key@, parent: par, val: ValSpec::Obj };
            nodes.push(KvNode { key, parent, val: KvVal::Obj });
            proof {
                assert(nodes_view(nodes@) == here.push(node_spec));
            }
            let ghost after_push = nodes_view(nodes@);
            let p2 = match read_entries(d, p1, Some(me), nodes) {
                Some(q) => q,
                None => return None,
            };
            proof {
                lemma_entries_bounds(d@, p1 as int, Some(me as int), me + 1);
                let (kids, e2) = parse_entries(d@, p1 as int, Some(me as int), me + 1).unwrap();
                let added = seq![node_spec] + kids;
                assert(nodes_view(nodes@) =~= here + added);
                lemma_extend(here, base0, added);
                lemma_obj_step(d@, p as int, par, me as int, key_s, p1 as int);
            }
            p = p2;
        } else {
            let ghost before = here;
            let (v, p2) = if t == 1 {
                match read_cstr(d, p1) {
                    Some((sv, q)) => (KvVal::Str(sv), q),
                    None => return None,
                }
            } else if t == 2 || t == 6 || t == 4 {
                if d.len() - p1 < 4 {
                    return None;
                }
                (KvVal::Int(read_i32_le(d, p1)), p1 + 4)
            } else if t == 3 {
                if d.len() - p1 <= 4 {
                    return None;
                }
                (KvVal::Other, p1 + 4)
            } else if t == 7 || t == 10 {
                if d.len() - p1 <= 8 {
                    return None;
                }
                (KvVal::Other, p1 + 8)
            } else if t == 5 {
                match skip_wide(d, p1) {
                    Some(q) => (KvVal::Other, q),
                    None => return None,
                }
            } else {
                return None;
            };
            if p2 >= d.len() {
                return None;
            }
            let ghost node_spec = NodeSpec { key: key@, parent: par, val: val_view(v) };
            nodes.push(KvNode { key, parent, val: v });
            proof {
                assert(scalar_value(d@, t, p1 as int) == Some((val_view(v), p2 as int)));
                assert(nodes_view(nodes@) =~= before + seq![node_spec]);
                lemma_extend(before, base0, seq![node_spec]);
                lemma_scalar_step(d@, p as int, par, before.len() as int, key_s, p1 as int, val_view(v), p2 as int);
            }
            p = p2;
        }
    }
}

/// Appending to the accumulated nodes keeps the prefix and grows the tail.
proof fn lemma_extend(whole: Seq<NodeSpec>, b: int, added: Seq<NodeSpec>)
    requires
        0 <= b <= whole.len(),
    ensures
        (whole + added).subrange(0, b) == whole.subrange(0, b),
        forall|rest: Seq<NodeSpec>|
            #![trigger (whole + added).subrange(b, (whole.len() + added.len()) as int) + rest]
            (whole + added).subrange(b, (whole.len() + added.len()) as int) + rest == whole.subrange(
                b,
                whole.len() as int,
            ) + (added + rest),
{
    assert((whole + added).subrange(0, b) =~= whole.subrange(0, b));
    assert forall|rest: Seq<NodeSpec>|
        (whole + added).subrange(b, (whole.len() + added.len()) as int) + rest == whole.subrange(
            b,
            whole.len() as int,
        ) + (added + rest) by {
        assert((whole + added).subrange(b, (whole.len() + added.len()) as int) + rest =~= whole.subrange(
            b,
            whole.len() as int,
        ) + (added + rest));
    }
}

/// One unfolding of a list entry: a plain value followed by the rest.
proof fn lemma_scalar_step(
    d: Seq<u8>,
    p: int,
    par: Option<int>,
    base: int,
    key: Seq<u8>,
    p1: int,
    v: ValSpec,
    p2: int,
)
    requires
        0 <= p < d.len(),
        d[p] != 0,
        d[p] != 8,
        cstr_at(d, p + 1) == Some((key, p1)),
        p < p1 <= d.len(),
        scalar_value(d, d[p], p1) == Some((v, p2)),
        p < p2 < d.len(),
    ensures
        parse_entries(d, p, par, base) == match parse_entries(d, p2, par, base + 1) {
            None => None,
            Some((rest, p3)) => Some((seq![NodeSpec { key, parent: par, val: v }] + rest, p3)),
        },
{
}

/// One unfolding of a list entry: a nested list followed by the rest.
proof fn lemma_obj_step(d: Seq<u8>, p: int, par: Option<int>, base: int, key: Seq<u8>, p1: int)
    requires
        0 <= p < d.len(),
        d[p] == 0,
        cstr_at(d, p + 1) == Some((key, p1)),
        p < p1 <= d.len(),
    ensures
        parse_entries(d, p, par, base) == match parse_entries(d, p1, Some(base), base + 1) {
            None => None,
            Some((kids, p2)) => match parse_entries(d, p2, par, base + 1 + kids.len()) {
                None => None,
                Some((rest, p3)) => Some(
                    (seq![NodeSpec { key, parent: par, val: ValSpec::Obj }] + (kids + rest), p3),
                ),
            },
        },
{
    lemma_entries_bounds(d, p1, Some(base), base + 1);
    match parse_entries(d, p1, Some(base), base + 1) {
        None => {},
        Some((kids, p2)) => {
            match parse_entries(d, p2, par, base + 1 + kids.len()) {
                None => {},
                Some((rest, p3)) => {
                    assert(seq![NodeSpec { key, parent: par, val: ValSpec::Obj }] + kids + rest
                        =~= seq![NodeSpec { key, parent: par, val: ValSpec::Obj }] + (kids + rest));
                },
            }
        },
    }
}

/// The list at `pos` ends after `pos` and within the document.
proof fn lemma_entries_bounds(d: Seq<u8>, pos: int, parent: Option<int>, base: int)
    ensures
        parse_entries(d, pos, parent, base) matches Some((ns, end)) ==> pos < end <= d.len(),
    decreases d.len() - pos,
{
    if 0 <= pos < d.len() && d[pos] != 8 {
        match cstr_at(d, pos + 1) {
            Some((key, p1)) => {
                if p1 > pos && p1 <= d.len() {
                    if d[pos] == 0 {
                        lemma_entries_bounds(d, p1, Some(base), base + 1);
                        match parse_entries(d, p1, Some(base), base + 1) {
                            Some((kids, p2)) => {
                                if p2 > pos && p2 <= d.len() {
                                    lemma_entries_bounds(d, p2, parent, base + 1 + kids.len());
                                }
                            },
                            None => {},
                        }
                    } else {
                        match scalar_value(d, d[pos], p1) {
                            Some((v, p2)) => {
                                if p2 > pos && p2 < d.len() {
                                    lemma_entries_bounds(d, p2, parent, base + 1);
                                }
                            },
                            None => {},
                        }
                    }
                }
            },
            None => {},
        }
    }
}

proof fn lemma_view_push_prefix(ns: Seq<KvNode>, k: int)
    requires
        0 <= k <= ns.len(),
    ensures
        forall|n: KvNode| #[trigger] nodes_view(ns.push(n)) == nodes_view(ns).push(node_view(n)),
        forall|n: KvNode| nodes_view(ns.push(n)).subrange(0, k) == #[trigger] nodes_view(ns).subrange(0, k),
{
    assert forall|n: KvNode| #[trigger] nodes_view(ns.push(n)) == nodes_view(ns).push(node_view(n)) by {
        assert(nodes_view(ns.push(n)) =~= nodes_view(ns).push(node_view(n)));
    }
    assert forall|n: KvNode| nodes_view(ns.push(n)).subrange(0, k) == #[trigger] nodes_view(ns).subrange(0, k) by {
        assert(nodes_view(ns.push(n)) =~= nodes_view(ns).push(node_view(n)));
        assert(nodes_view(ns.push(n)).subrange(0, k) =~= nodes_view(ns).subrange(0, k));
    }
}

/// Parse a whole document into its flat list of nodes.
pub fn parse_kv(d: &[u8]) -> (r: Option<Vec<KvNode>>)
    ensures
        match parse_document(d@) {
            Some(ns) => r matches Some(v) && nodes_view(v@) == ns,
            None => r is None,
        },
{
    let mut nodes: Vec<KvNode> = Vec::new();
    assert(nodes_view(nodes@) =~= Seq::<NodeSpec>::empty());
    match read_entries(d, 0, None, &mut nodes) {
        Some(_) => Some(nodes),
        None => None,
    }
}

} // verus!
