//! The one line `nvidia-smi --query-gpu=utilization.gpu,memory.used,
//! memory.total,temperature.gpu --format=csv,noheader,nounits` prints.

use vstd::prelude::*;

use crate::numbers::{signed_in, signed_text, unsigned_in, unsigned_text};
use crate::text::{chars_of, find_from, lemma_split_step, line_views, lines, split_lines, split_on, trim, trim_bounds};

verus! {

pub open spec fn pos_of(o: Option<usize>) -> Option<int> {
    match o {
        Some(j) => Some(j as int),
        None => None,
    }
}

/// `(util %, memory used in bytes, memory total in bytes, temperature °C)`
/// from the first line: four comma-separated fields (more are ignored), each
/// trimmed; the memory fields are MiB, shifted up by 20 bits.
pub open spec fn nvidia_values(text: Seq<char>) -> Option<(u32, u64, u64, i32)> {
    let ls = lines(text);
    if ls.len() == 0 {
        None
    } else {
        let f = split_on(ls[0], ',');
        if f.len() < 4 {
            None
        } else {
            match (
                unsigned_text(trim(f[0]), u32::MAX as nat),
                unsigned_text(trim(f[1]), u64::MAX as nat),
                unsigned_text(trim(f[2]), u64::MAX as nat),
                signed_text(trim(f[3]), i32::MAX as nat),
            ) {
                (Some(u), Some(a), Some(b), Some(t)) => Some(
                    (u as u32, (a as u64) << 20u64, (b as u64) << 20u64, t as i32),
                ),
                _ => None,
            }
        }
    }
}

/// Where the first four comma-separated fields of `v` lie: the three first
/// commas and the end of the fourth field.
fn four_fields(v: &Vec<char>) -> (r: Option<(usize, usize, usize, usize)>)
    ensures
        r is Some <==> split_on(v@, ',').len() >= 4,
        r matches Some((c1, c2, c3, e4)) ==> {
            &&& c1 < c2 < c3 < e4 <= v@.len()
            &&& split_on(v@, ',')[0] == v@.subrange(0, c1 as int)
            &&& split_on(v@, ',')[1] == v@.subrange(c1 + 1, c2 as int)
            &&& split_on(v@, ',')[2] == v@.subrange(c2 + 1, c3 as int)
            &&& split_on(v@, ',')[3] == v@.subrange(c3 + 1, e4 as int)
        },
{
    let n = v.len();
    assert(v@.subrange(0, n as int) =~= v@);
    let r1 = find_from(v, 0, ',');
    proof {
        lemma_split_step(v@, 0, ',', pos_of(r1));
    }
    let c1 = match r1 {
        Some(j) => j,
        None => return None,
    };
    let r2 = find_from(v, c1 + 1, ',');
    proof {
        lemma_split_step(v@, c1 + 1, ',', pos_of(r2));
    }
    let c2 = match r2 {
        Some(j) => j,
        None => return None,
    };
    let r3 = find_from(v, c2 + 1, ',');
    proof {
        lemma_split_step(v@, c2 + 1, ',', pos_of(r3));
    }
    let c3 = match r3 {
        Some(j) => j,
        None => return None,
    };
    let r4 = find_from(v, c3 + 1, ',');
    proof {
        lemma_split_step(v@, c3 + 1, ',', pos_of(r4));
    }
    let e4 = match r4 {
        Some(j) => j,
        None => n,
    };
    proof {
        let tail = split_on(v@.subrange(c3 + 1, n as int), ',');
        assert(tail.len() >= 1 && tail[0] == v@.subrange(c3 + 1, e4 as int));
    }
    Some((c1, c2, c3, e4))
}

/// Read the GPU's load, memory and temperature out of `nvidia-smi`'s output.
pub fn nvidia_fields(text: &str) -> (r: Option<(u32, u64, u64, i32)>)
    ensures
        r == nvidia_values(text@),
{
    let ls = split_lines(text);
    if ls.len() == 0 {
        return None;
    }
    let ghost all = lines(text@);
    assert(all.len() == ls@.len());
    let v = chars_of(ls[0].as_str());
    assert(v@ == all[0]);
    let (c1, c2, c3, e4) = match four_fields(&v) {
        Some(b) => b,
        None => return None,
    };
    let (a0, b0) = trim_bounds(&v, 0, c1);
    let (a1, b1) = trim_bounds(&v, c1 + 1, c2);
    let (a2, b2) = trim_bounds(&v, c2 + 1, c3);
    let (a3, b3) = trim_bounds(&v, c3 + 1, e4);
    let util = match unsigned_in(&v, a0, b0, 0xffff_ffff) {
        Some(x) => x as u32,
        None => return None,
    };
    let used = match unsigned_in(&v, a1, b1, 0xffff_ffff_ffff_ffff) {
        Some(x) => x,
        None => return None,
    };
    let total = match unsigned_in(&v, a2, b2, 0xffff_ffff_ffff_ffff) {
        Some(x) => x,
        None => return None,
    };
    let temp = match signed_in(&v, a3, b3, 0x7fff_ffff) {
        Some(x) => x as i32,
        None => return None,
    };
    Some((util, used << 20u64, total << 20u64, temp))
}

} // verus!
