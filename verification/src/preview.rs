//! Which presented frames the PNG preview writes, and under what file names:
//! `frame_00000.png`, `frame_00001.png`, ... in the output folder, every
//! `stride`-th frame when the output is thinned to a filmstrip.

use vstd::prelude::*;

use crate::text::{decimal_chars, decimal_len, push_char, push_decimal, push_str};

verus! {

/// `frame_<i>.png` with `i` zero-padded to five digits.
pub open spec fn frame_name(i: u32) -> Seq<char> {
    let d = decimal_chars(i as nat);
    "frame_"@ + Seq::new(if d.len() < 5 { (5 - d.len()) as nat } else { 0 }, |k: int| '0') + d + ".png"@
}

/// The file name of frame `i`.
pub fn frame_file_name(i: u32) -> (s: String)
    ensures
        s@ == frame_name(i),
{
    let mut s = String::new();
    push_str(&mut s, "frame_");
    let k = decimal_len(i);
    let mut z: usize = k;
    while z < 5
        invariant
            k <= z <= 5 || (k > 5 && z == k),
            k == decimal_chars(i as nat).len(),
            s@ == "frame_"@ + Seq::new((z - k) as nat, |j: int| '0'),
        decreases 5 - z,
    {
        push_char(&mut s, '0');
        assert(Seq::new((z + 1 - k) as nat, |j: int| '0') =~= Seq::new((z - k) as nat, |j: int| '0').push('0'));
        z += 1;
    }
    push_decimal(&mut s, i);
    push_str(&mut s, ".png");
    assert(s@ =~= frame_name(i));
    s
}

/// The PNG preview's bookkeeping: where frames go, the panel size, how many
/// frames came in, and how far apart the written ones are.
pub struct PngBackend {
    dir: String,
    size: (u16, u16),
    count: u32,
    stride: u32,
}

impl PngBackend {
    pub closed spec fn spec_dir(&self) -> Seq<char> {
        self.dir@
    }

    pub closed spec fn spec_size(&self) -> (u16, u16) {
        self.size
    }

    /// Frames received so far.
    pub closed spec fn seen(&self) -> u32 {
        self.count
    }

    /// Every how many frames one is written.
    pub closed spec fn spec_stride(&self) -> u32 {
        self.stride
    }

    pub closed spec fn wf(&self) -> bool {
        self.stride >= 1
    }

    /// Frames of `size` go to the folder `dir` (which the caller creates),
    /// every one of them.
    pub fn new(dir: String, size: (u16, u16)) -> (b: Self)
        ensures
            b.wf(),
            b.spec_dir() == dir@,
            b.spec_size() == size,
            b.seen() == 0,
            b.spec_stride() == 1,
    {
        PngBackend { dir, size, count: 0, stride: 1 }
    }

    /// Only write every `n`-th presented frame (`0` counts as `1`).
    pub fn with_stride(self, n: u32) -> (b: Self)
        ensures
            b.wf(),
            b.spec_dir() == self.spec_dir(),
            b.spec_size() == self.spec_size(),
            b.seen() == self.seen(),
            b.spec_stride() == if n >= 1 {
                n
            } else {
                1
            },
    {
        let stride = if n >= 1 {
            n
        } else {
            1
        };
        PngBackend { stride, ..self }
    }

    /// Number of frames received so far (written or skipped).
    pub fn frames_seen(&self) -> (n: u32)
        ensures
            n == self.seen(),
    {
        self.count
    }

    /// The panel size frames come in.
    pub fn size(&self) -> (s: (u16, u16))
        ensures
            s == self.spec_size(),
    {
        self.size
    }

    /// The output folder.
    pub fn dir(&self) -> (d: &str)
        ensures
            d@ == self.spec_dir(),
    {
        self.dir.as_str()
    }

    /// A frame came in: the file it is written to, or `None` when it is
    /// skipped (only frames numbered a multiple of the stride are written).
    pub fn next_frame(&mut self) -> (name: Option<String>)
        requires
            old(self).wf(),
            old(self).seen() < u32::MAX,
        ensures
            final(self).wf(),
            final(self).seen() == old(self).seen() + 1,
            final(self).spec_dir() == old(self).spec_dir(),
            final(self).spec_size() == old(self).spec_size(),
            final(self).spec_stride() == old(self).spec_stride(),
            match name {
                Some(s) => old(self).seen() % old(self).spec_stride() == 0 && s@ == frame_name(
                    old(self).seen(),
                ),
                None => old(self).seen() % old(self).spec_stride() != 0,
            },
    {
        let i = self.count;
        self.count = i + 1;
        if i % self.stride != 0 {
            None
        } else {
            Some(frame_file_name(i))
        }
    }
}

/// The frame a backend given stride `n` is presented next is written
/// exactly when its number (every presented frame counts, from 0) is a
/// multiple of `n`, `0` acting as `1`, and under the name
/// `frame_<number, five digits at least>.png`.
pub proof fn lemma_stride_picks_frames(
    b: PngBackend,
    n: u32,
    strided: PngBackend,
    after: PngBackend,
    name: Option<String>,
)
    requires
        b.wf(),
        b.seen() < u32::MAX,
        strided.wf(),
        strided.seen() == b.seen(),
        strided.spec_stride() == if n >= 1 {
            n
        } else {
            1
        },
        after.seen() == strided.seen() + 1,
        match name {
            Some(s) => strided.seen() % strided.spec_stride() == 0 && s@ == frame_name(strided.seen()),
            None => strided.seen() % strided.spec_stride() != 0,
        },
    ensures
        name is Some <==> (n == 0 || b.seen() % n == 0),
        name matches Some(s) ==> s@ == frame_name(b.seen()),
        after.seen() == b.seen() + 1,
{
    if n == 0 {
        assert(b.seen() % 1 == 0);
    }
}

} // verus!
