//! The physical panel: its size, its mounting orientation, and what the
//! serial driver sends for one presented frame.

use vstd::prelude::*;

use crate::frame::{byte_index, rgb565, Frame, Rect};
use crate::protocol::{Command, COORD_MAX};
use crate::text::chars_of;

verus! {

broadcast use vstd::string::group_string_axioms;

/// Native resolution of the 3.5" panel.
pub const PANEL_WIDTH: u16 = 320;

/// Native resolution of the 3.5" panel.
pub const PANEL_HEIGHT: u16 = 480;

/// USB identifiers reported by the 3.5" panel (QinHeng CH34x CDC-ACM).
pub const TURZX_VID: u16 = 0x1a86;

/// USB identifiers reported by the 3.5" panel (QinHeng CH34x CDC-ACM).
pub const TURZX_PID: u16 = 0x5722;

/// How the panel is mounted. There is no orientation sensor; this is a static
/// choice read from the configuration.
#[derive(Debug, Clone, Copy, PartialEq, Eq, Structural)]
pub enum Orientation {
    Portrait,
    Landscape,
}

/// ASCII lower-casing of one character.
pub open spec fn ascii_lower(c: char) -> char {
    if 'A' <= c && c <= 'Z' {
        (((c as u8) + 32) as u8) as char
    } else {
        c
    }
}

/// `a` and `b` are equal up to ASCII case.
pub open spec fn eq_ignore_ascii_case(a: Seq<char>, b: Seq<char>) -> bool {
    a.len() == b.len() && forall|i: int| 0 <= i < a.len() ==> ascii_lower(a[i]) == ascii_lower(b[i])
}

pub open spec fn portrait_name() -> Seq<char> {
    seq!['p', 'o', 'r', 't', 'r', 'a', 'i', 't']
}

pub open spec fn landscape_name() -> Seq<char> {
    seq!['l', 'a', 'n', 'd', 's', 'c', 'a', 'p', 'e']
}

impl Orientation {
    /// The name scenes and the configuration use.
    pub open spec fn name(self) -> Seq<char> {
        match self {
            Orientation::Portrait => portrait_name(),
            Orientation::Landscape => landscape_name(),
        }
    }

    /// Logical canvas size `(width, height)` the engine renders at.
    pub open spec fn size(self) -> (u16, u16) {
        match self {
            Orientation::Portrait => (PANEL_WIDTH, PANEL_HEIGHT),
            Orientation::Landscape => (PANEL_HEIGHT, PANEL_WIDTH),
        }
    }

    pub fn default() -> (o: Self)
        ensures
            o == Orientation::Portrait,
    {
        Orientation::Portrait
    }

    /// `"portrait"` or `"landscape"`.
    pub fn tag(self) -> (t: &'static str)
        ensures
            t@ == self.name(),
    {
        proof {
            reveal_strlit("portrait");
            reveal_strlit("landscape");
        }
        match self {
            Orientation::Portrait => "portrait",
            Orientation::Landscape => "landscape",
        }
    }

    /// Logical canvas size: 320x480 portrait, 480x320 landscape.
    pub fn logical_size(self) -> (s: (u16, u16))
        ensures
            s == self.size(),
    {
        match self {
            Orientation::Portrait => (PANEL_WIDTH, PANEL_HEIGHT),
            Orientation::Landscape => (PANEL_HEIGHT, PANEL_WIDTH),
        }
    }

    /// `decl` names this orientation, ignoring ASCII case (a scene's
    /// self-declared orientation).
    pub fn matches_name(self, decl: &str) -> (b: bool)
        ensures
            b == eq_ignore_ascii_case(decl@, self.name()),
    {
        let v = chars_of(decl);
        let t = chars_of(self.tag());
        if v.len() != t.len() {
            return false;
        }
        let mut i: usize = 0;
        while i < v.len()
            invariant
                v@ == decl@,
                t@ == self.name(),
                v@.len() == t@.len(),
                i <= v@.len(),
                forall|j: int| 0 <= j < i ==> ascii_lower(v@[j]) == ascii_lower(t@[j]),
            decreases v@.len() - i,
        {
            if lower(v[i]) != lower(t[i]) {
                return false;
            }
            i += 1;
        }
        true
    }

    /// Parse `portrait` / `landscape` (ASCII case ignored).
    pub fn parse(s: &str) -> (r: Result<Orientation, String>)
        ensures
            r matches Ok(o) ==> eq_ignore_ascii_case(s@, o.name()),
            r is Err <==> !eq_ignore_ascii_case(s@, portrait_name()) && !eq_ignore_ascii_case(
                s@,
                landscape_name(),
            ),
            r matches Err(m) ==> m@ == "unknown orientation `"@ + s@ + "` (expected portrait or landscape)"@,
    {
        if Orientation::Portrait.matches_name(s) {
            Ok(Orientation::Portrait)
        } else if Orientation::Landscape.matches_name(s) {
            Ok(Orientation::Landscape)
        } else {
            let mut msg = String::new();
            crate::text::push_str(&mut msg, "unknown orientation `");
            crate::text::push_str(&mut msg, s);
            crate::text::push_str(&mut msg, "` (expected portrait or landscape)");
            Err(msg)
        }
    }
}

/// Each orientation's name parses back to it, and to no other.
pub proof fn lemma_name_parses_back(o: Orientation, other: Orientation)
    ensures
        eq_ignore_ascii_case(o.name(), o.name()),
        eq_ignore_ascii_case(o.name(), other.name()) ==> other == o,
{
    if eq_ignore_ascii_case(o.name(), other.name()) && other != o {
        assert(o.name().len() != other.name().len());
    }
}

/// Parse an `--orientation` argument (see `Orientation::parse`).
pub fn parse_orientation(s: &str) -> (r: Result<Orientation, String>)
    ensures
        r matches Ok(o) ==> eq_ignore_ascii_case(s@, o.name()),
        r is Err <==> !eq_ignore_ascii_case(s@, portrait_name()) && !eq_ignore_ascii_case(
            s@,
            landscape_name(),
        ),
        r matches Err(m) ==> m@ == "unknown orientation `"@ + s@ + "` (expected portrait or landscape)"@,
{
    Orientation::parse(s)
}

fn lower(c: char) -> (l: char)
    ensures
        l == ascii_lower(c),
{
    if 'A' <= c && c <= 'Z' {
        ((c as u8) + 32) as char
    } else {
        c
    }
}


/// `r` clipped to a `w x h` array: the origin is pulled inside and the size cut
/// to what remains.
pub open spec fn clip(r: Rect, w: u16, h: u16) -> Rect {
    let rx = if r.x <= w { r.x } else { w };
    let ry = if r.y <= h { r.y } else { h };
    let rw = if r.w <= w - rx { r.w } else { (w - rx) as u16 };
    let rh = if r.h <= h - ry { r.h } else { (h - ry) as u16 };
    Rect { x: rx, y: ry, w: rw, h: rh }
}

/// The clipped, non-empty regions that are sent, in order.
pub open spec fn sent_regions(rs: Seq<Rect>, w: u16, h: u16) -> Seq<Rect>
    decreases rs.len(),
{
    if rs.len() == 0 {
        Seq::empty()
    } else {
        let c = clip(rs[0], w, h);
        let rest = sent_regions(rs.drop_first(), w, h);
        if c.w == 0 || c.h == 0 {
            rest
        } else {
            seq![c] + rest
        }
    }
}

/// RGB565 word of the physical panel pixel `(px, py)` when `f` is the logical
/// frame: a landscape frame is turned a quarter clockwise onto the portrait
/// array.
pub open spec fn panel_word(o: Orientation, f: Frame, px: int, py: int) -> u16 {
    let sx = match o {
        Orientation::Portrait => px,
        Orientation::Landscape => py,
    };
    let sy = match o {
        Orientation::Portrait => py,
        Orientation::Landscape => PANEL_WIDTH - 1 - px,
    };
    let i = byte_index(f.spec_width() as int, sx, sy, 0);
    rgb565(f.bytes()[i], f.bytes()[i + 1], f.bytes()[i + 2])
}

/// The pixel stream for region `c`: row-major, each RGB565 word little-endian.
pub open spec fn payload_ok(buf: Seq<u8>, o: Orientation, f: Frame, c: Rect) -> bool {
    &&& buf.len() == c.w * c.h * 2
    &&& forall|row: int, col: int|
        0 <= row < c.h && 0 <= col < c.w ==> {
            let wd = panel_word(o, f, c.x + col, c.y + row);
            &&& buf[#[trigger] pix_at(c.w as int, row, col) * 2] == (wd % 256) as u8
            &&& buf[pix_at(c.w as int, row, col) * 2 + 1] == (wd / 256) as u8
        }
}

/// Index of the pixel at `(row, col)` in a row-major run `w` pixels wide.
pub open spec fn pix_at(w: int, row: int, col: int) -> int {
    row * w + col
}

/// The draw command that repaints exactly `c` (inclusive far corner).
pub open spec fn draw_command(c: Rect) -> Command {
    Command::DrawBitmap { x: c.x, y: c.y, ex: (c.x + c.w - 1) as u16, ey: (c.y + c.h - 1) as u16 }
}

/// A landscape link repaints the whole panel at every present, whatever the
/// dirty list says; so does a portrait link before its first full frame, or
/// with nothing marked dirty. Only a portrait link past its first frame sends
/// just the dirty regions.
pub proof fn lemma_whole_panel_sent(link: PanelLink, dirty: Seq<Rect>)
    ensures
        link.orientation == Orientation::Landscape || !link.first_frame_done || dirty.len() == 0
            ==> sent_regions(link.regions_for(dirty), PANEL_WIDTH, PANEL_HEIGHT) == seq![
            Rect { x: 0, y: 0, w: 320, h: 480 },
        ],
        link.orientation == Orientation::Portrait && link.first_frame_done ==> link.regions_for(dirty)
            == if dirty.len() > 0 {
            dirty
        } else {
            seq![Rect { x: 0, y: 0, w: 320, h: 480 }]
        },
{
    let full = Rect { x: 0, y: 0, w: 320, h: 480 };
    assert(clip(full, PANEL_WIDTH, PANEL_HEIGHT) == full);
    let one = seq![full];
    assert(one.drop_first() =~= Seq::<Rect>::empty());
    assert(sent_regions(one.drop_first(), PANEL_WIDTH, PANEL_HEIGHT) == Seq::<Rect>::empty());
    assert(one[0] == full);
    assert(sent_regions(one, PANEL_WIDTH, PANEL_HEIGHT) == seq![full] + Seq::<Rect>::empty());
    assert(seq![full] + Seq::<Rect>::empty() =~= seq![full]);
}

/// Protocol-side state of the serial driver: how the panel is mounted, and
/// whether a full baseline frame has reached it yet.
#[derive(Debug, Clone, Copy, PartialEq, Eq, Structural)]
pub struct PanelLink {
    pub orientation: Orientation,
    pub first_frame_done: bool,
}

impl PanelLink {
    /// A freshly opened panel: portrait, no frame sent yet.
    pub fn new() -> (l: Self)
        ensures
            l.orientation == Orientation::Portrait,
            !l.first_frame_done,
    {
        PanelLink { orientation: Orientation::Portrait, first_frame_done: false }
    }

    /// Set the mounting orientation. In `Landscape` each 480x320 logical frame
    /// is rotated onto the physical 320x480 array before sending; the panel
    /// itself is always driven as portrait.
    pub fn with_orientation(self, orientation: Orientation) -> (l: Self)
        ensures
            l == (PanelLink { orientation, ..self }),
    {
        PanelLink { orientation, ..self }
    }

    /// The commands that open the panel: the handshake, then portrait
    /// 320x480.
    pub fn opening_commands() -> (cmds: Vec<Command>)
        ensures
            cmds@ == seq![
                Command::Hello,
                Command::SetOrientation { landscape: false, width: PANEL_WIDTH, height: PANEL_HEIGHT },
            ],
    {
        let v = vec![
            Command::Hello,
            Command::SetOrientation { landscape: false, width: PANEL_WIDTH, height: PANEL_HEIGHT },
        ];
        assert(v@ =~= seq![
            Command::Hello,
            Command::SetOrientation { landscape: false, width: PANEL_WIDTH, height: PANEL_HEIGHT },
        ]);
        v
    }

    /// The regions a `present` repaints: the whole panel in landscape, on the
    /// first frame, or when nothing was flagged; otherwise the dirty list.
    pub open spec fn regions_for(self, dirty: Seq<Rect>) -> Seq<Rect> {
        if self.orientation == Orientation::Portrait && self.first_frame_done && dirty.len() > 0 {
            dirty
        } else {
            seq![Rect { x: 0, y: 0, w: PANEL_WIDTH, h: PANEL_HEIGHT }]
        }
    }

    /// The logical frame has the size this orientation renders at.
    pub open spec fn frame_fits(self, frame: Frame) -> bool {
        &&& frame.wf()
        &&& (frame.spec_width(), frame.spec_height()) == self.orientation.size()
    }

    /// Everything a `present` of `frame` writes, in order: one `DrawBitmap`
    /// per clipped non-empty region, each followed by its pixel stream.
    pub fn frame_packets(&self, frame: &Frame, dirty: &[Rect]) -> (out: Vec<(Command, Vec<u8>)>)
        requires
            self.frame_fits(*frame),
        ensures
            ({
                let sent = sent_regions(self.regions_for(dirty@), PANEL_WIDTH, PANEL_HEIGHT);
                &&& out@.len() == sent.len()
                &&& forall|i: int|
                    0 <= i < sent.len() ==> (#[trigger] out@[i]).0 == draw_command(sent[i])
                        && payload_ok(out@[i].1@, self.orientation, *frame, sent[i])
            }),
            self.orientation == Orientation::Landscape || !self.first_frame_done || dirty@.len() == 0
                ==> {
                &&& out@.len() == 1
                &&& out@[0].0 == (Command::DrawBitmap { x: 0, y: 0, ex: 319, ey: 479 })
                &&& out@[0].1@.len() == 320 * 480 * 2
            },
    {
        let w = PANEL_WIDTH;
        let h = PANEL_HEIGHT;
        let full = vec![Rect::new(0, 0, w, h)];
        let regions: &[Rect] = if self.orientation == Orientation::Portrait && self.first_frame_done
            && dirty.len() > 0 {
            dirty
        } else {
            full.as_slice()
        };
        assert(regions@ =~= self.regions_for(dirty@));
        proof {
            lemma_whole_panel_sent(*self, dirty@);
        }
        let words = panel_words(self.orientation, frame);
        assert(regions@.subrange(0, 0) == Seq::<Rect>::empty());
        let mut out: Vec<(Command, Vec<u8>)> = Vec::new();
        let mut ri: usize = 0;
        while ri < regions.len()
            invariant
                words@.len() == (PANEL_WIDTH as int) * (PANEL_HEIGHT as int),
                forall|px: int, py: int|
                    0 <= px < PANEL_WIDTH && 0 <= py < PANEL_HEIGHT ==> #[trigger] words@[pix_at(
                        PANEL_WIDTH as int,
                        py,
                        px,
                    )] == panel_word(self.orientation, *frame, px, py),
                w == PANEL_WIDTH,
                h == PANEL_HEIGHT,
                ri <= regions@.len(),
                out@.len() == sent_regions(regions@.subrange(0, ri as int), w, h).len(),
                forall|i: int|
                    0 <= i < out@.len() ==> (#[trigger] out@[i]).0 == draw_command(
                        sent_regions(regions@.subrange(0, ri as int), w, h)[i],
                    ) && payload_ok(
                        out@[i].1@,
                        self.orientation,
                        *frame,
                        sent_regions(regions@.subrange(0, ri as int), w, h)[i],
                    ),
            decreases regions@.len() - ri,
        {
            let r = regions[ri];
            // Clip to the panel: a stray dirty rect must never index past the
            // pixel array or overflow the 10-bit coordinate fields.
            let rx = if r.x <= w { r.x } else { w };
            let ry = if r.y <= h { r.y } else { h };
            let rw = if r.w <= w - rx { r.w } else { w - rx };
            let rh = if r.h <= h - ry { r.h } else { h - ry };
            let c = Rect::new(rx, ry, rw, rh);
            proof {
                lemma_sent_split(regions@, ri as int, w, h);
            }
            if rw != 0 && rh != 0 {
                let cmd = Command::DrawBitmap { x: rx, y: ry, ex: rx + rw - 1, ey: ry + rh - 1 };
                let buf = region_payload(&words, c, self.orientation, frame);
                let ghost before = out@;
                out.push((cmd, buf));
                proof {
                    let pre = sent_regions(regions@.subrange(0, ri as int), w, h);
                    let post = sent_regions(regions@.subrange(0, ri + 1), w, h);
                    assert(post == pre.push(c));
                    assert forall|i: int| 0 <= i < out@.len() implies (#[trigger] out@[i]).0
                        == draw_command(post[i]) && payload_ok(
                        out@[i].1@,
                        self.orientation,
                        *frame,
                        post[i],
                    ) by {
                        if i < before.len() {
                            assert(out@[i] == before[i]);
                            assert(post[i] == pre[i]);
                        }
                    }
                }
            } else {
                proof {
                    let pre = sent_regions(regions@.subrange(0, ri as int), w, h);
                    let post = sent_regions(regions@.subrange(0, ri + 1), w, h);
                    assert(post == pre);
                }
            }
            ri += 1;
        }
        assert(regions@.subrange(0, regions@.len() as int) == regions@);
        out
    }

    /// After a `present` that wrote everything: a full baseline is now on the
    /// panel, so later frames may send dirty regions only.
    pub fn mark_presented(&mut self)
        ensures
            final(self).orientation == old(self).orientation,
            final(self).first_frame_done,
    {
        self.first_frame_done = true;
    }
}

/// `sent_regions` of a prefix one longer: the new region is appended when it
/// survives clipping.
proof fn lemma_sent_split(rs: Seq<Rect>, i: int, w: u16, h: u16)
    requires
        0 <= i < rs.len(),
    ensures
        sent_regions(rs.subrange(0, i + 1), w, h) == if clip(rs[i], w, h).w == 0 || clip(
            rs[i],
            w,
            h,
        ).h == 0 {
            sent_regions(rs.subrange(0, i), w, h)
        } else {
            sent_regions(rs.subrange(0, i), w, h).push(clip(rs[i], w, h))
        },
{
    lemma_sent_append(rs.subrange(0, i), rs[i], w, h);
    assert(rs.subrange(0, i).push(rs[i]) == rs.subrange(0, i + 1));
}

proof fn lemma_sent_append(rs: Seq<Rect>, r: Rect, w: u16, h: u16)
    ensures
        sent_regions(rs.push(r), w, h) == if clip(r, w, h).w == 0 || clip(r, w, h).h == 0 {
            sent_regions(rs, w, h)
        } else {
            sent_regions(rs, w, h).push(clip(r, w, h))
        },
    decreases rs.len(),
{
    if rs.len() == 0 {
        assert(seq![r].drop_first() == Seq::<Rect>::empty());
        assert(rs.push(r) == seq![r]);
        assert(sent_regions(rs, w, h) == Seq::<Rect>::empty());
        assert(sent_regions(seq![r].drop_first(), w, h) == Seq::<Rect>::empty());
        assert(seq![clip(r, w, h)] + Seq::<Rect>::empty() == Seq::<Rect>::empty().push(clip(r, w, h)));
    } else {
        assert(rs.push(r).drop_first() == rs.drop_first().push(r));
        assert(rs.push(r)[0] == rs[0]);
        lemma_sent_append(rs.drop_first(), r, w, h);
        let c = clip(rs[0], w, h);
        let x = sent_regions(rs.drop_first(), w, h);
        assert((seq![c] + x).push(clip(r, w, h)) == seq![c] + x.push(clip(r, w, h)));
        assert(sent_regions(rs.push(r), w, h) == if c.w == 0 || c.h == 0 {
            sent_regions(rs.drop_first().push(r), w, h)
        } else {
            seq![c] + sent_regions(rs.drop_first().push(r), w, h)
        });
    }
}

/// The whole panel as RGB565 words, row-major (portrait, 320 wide).
fn panel_words(o: Orientation, frame: &Frame) -> (words: Vec<u16>)
    requires
        frame.wf(),
        (frame.spec_width(), frame.spec_height()) == o.size(),
    ensures
        words@.len() == (PANEL_WIDTH as int) * (PANEL_HEIGHT as int),
        forall|px: int, py: int|
            0 <= px < PANEL_WIDTH && 0 <= py < PANEL_HEIGHT ==> #[trigger] words@[pix_at(
                PANEL_WIDTH as int,
                py,
                px,
            )] == panel_word(o, *frame, px, py),
{
    match o {
        Orientation::Portrait => {
            let words = frame.to_rgb565();
            proof {
                assert forall|px: int, py: int|
                    0 <= px < PANEL_WIDTH && 0 <= py < PANEL_HEIGHT implies #[trigger] words@[pix_at(
                    PANEL_WIDTH as int,
                    py,
                    px,
                )] == panel_word(o, *frame, px, py) by {
                    lemma_pix_in_range(PANEL_WIDTH as int, PANEL_HEIGHT as int, py, px);
                    let p = pix_at(PANEL_WIDTH as int, py, px);
                    assert(byte_index(PANEL_WIDTH as int, px, py, 0) == 4 * p);
                }
            }
            words
        },
        Orientation::Landscape => {
            let rotated = frame.rotated_cw();
            let words = rotated.to_rgb565();
            proof {
                assert forall|px: int, py: int|
                    0 <= px < PANEL_WIDTH && 0 <= py < PANEL_HEIGHT implies #[trigger] words@[pix_at(
                    PANEL_WIDTH as int,
                    py,
                    px,
                )] == panel_word(o, *frame, px, py) by {
                    lemma_pix_in_range(PANEL_WIDTH as int, PANEL_HEIGHT as int, py, px);
                    let p = pix_at(PANEL_WIDTH as int, py, px);
                    let sy = PANEL_WIDTH - 1 - px;
                    assert(byte_index(PANEL_WIDTH as int, px, py, 0) == 4 * p);
                    assert(byte_index(PANEL_WIDTH as int, PANEL_WIDTH - 1 - sy, py, 0) == 4 * p);
                    assert(byte_index(PANEL_WIDTH as int, PANEL_WIDTH - 1 - sy, py, 1) == 4 * p + 1);
                    assert(byte_index(PANEL_WIDTH as int, PANEL_WIDTH - 1 - sy, py, 2) == 4 * p + 2);
                    assert(rotated.bytes()[byte_index(PANEL_WIDTH as int, PANEL_WIDTH - 1 - sy, py, 0)]
                        == frame.bytes()[byte_index(PANEL_HEIGHT as int, py, sy, 0)]);
                    assert(rotated.bytes()[byte_index(PANEL_WIDTH as int, PANEL_WIDTH - 1 - sy, py, 1)]
                        == frame.bytes()[byte_index(PANEL_HEIGHT as int, py, sy, 1)]);
                    assert(rotated.bytes()[byte_index(PANEL_WIDTH as int, PANEL_WIDTH - 1 - sy, py, 2)]
                        == frame.bytes()[byte_index(PANEL_HEIGHT as int, py, sy, 2)]);
                }
            }
            words
        },
    }
}

proof fn lemma_pix_in_range(w: int, h: int, row: int, col: int)
    requires
        0 <= col < w,
        0 <= row < h,
    ensures
        0 <= pix_at(w, row, col) < w * h,
{
    assert(0 <= row * w + col < w * h) by (nonlinear_arith)
        requires
            0 <= col < w,
            0 <= row < h,
    ;
}

/// Earlier pixels of a row-major run come before later ones.
proof fn lemma_pix_order(w: int, r1: int, c1: int, r2: int, c2: int)
    requires
        0 <= c1 < w,
        0 <= c2 < w,
        0 <= r1,
        0 <= r2,
        r1 < r2 || (r1 == r2 && c1 < c2),
    ensures
        pix_at(w, r1, c1) < pix_at(w, r2, c2),
{
    assert(r1 * w + c1 < r2 * w + c2) by (nonlinear_arith)
        requires
            0 <= c1 < w,
            0 <= c2 < w,
            0 <= r1,
            0 <= r2,
            r1 < r2 || (r1 == r2 && c1 < c2),
    {
        if r1 < r2 {
            assert(r1 * w + w <= r2 * w);
        }
    }
}

/// Little-endian RGB565 stream for region `c` of the panel words.
fn region_payload(words: &Vec<u16>, c: Rect, o: Orientation, frame: &Frame) -> (buf: Vec<u8>)
    requires
        words@.len() == (PANEL_WIDTH as int) * (PANEL_HEIGHT as int),
        forall|px: int, py: int|
            0 <= px < PANEL_WIDTH && 0 <= py < PANEL_HEIGHT ==> #[trigger] words@[pix_at(
                PANEL_WIDTH as int,
                py,
                px,
            )] == panel_word(o, *frame, px, py),
        c.x + c.w <= PANEL_WIDTH,
        c.y + c.h <= PANEL_HEIGHT,
    ensures
        payload_ok(buf@, o, *frame, c),
{
    let mut buf: Vec<u8> = Vec::new();
    let mut row: u16 = 0;
    while row < c.h
        invariant
            words@.len() == (PANEL_WIDTH as int) * (PANEL_HEIGHT as int),
            forall|px: int, py: int|
                0 <= px < PANEL_WIDTH && 0 <= py < PANEL_HEIGHT ==> #[trigger] words@[pix_at(
                    PANEL_WIDTH as int,
                    py,
                    px,
                )] == panel_word(o, *frame, px, py),
            c.x + c.w <= PANEL_WIDTH,
            c.y + c.h <= PANEL_HEIGHT,
            row <= c.h,
            buf@.len() == pix_at(c.w as int, row as int, 0) * 2,
            forall|rr: int, cc: int|
                0 <= rr < row && 0 <= cc < c.w ==> {
                    let wd = panel_word(o, *frame, c.x + cc, c.y + rr);
                    &&& buf@[#[trigger] pix_at(c.w as int, rr, cc) * 2] == (wd % 256) as u8
                    &&& buf@[pix_at(c.w as int, rr, cc) * 2 + 1] == (wd / 256) as u8
                },
        decreases c.h - row,
    {
        let mut col: u16 = 0;
        while col < c.w
            invariant
                words@.len() == (PANEL_WIDTH as int) * (PANEL_HEIGHT as int),
                forall|px: int, py: int|
                    0 <= px < PANEL_WIDTH && 0 <= py < PANEL_HEIGHT ==> #[trigger] words@[pix_at(
                        PANEL_WIDTH as int,
                        py,
                        px,
                    )] == panel_word(o, *frame, px, py),
                c.x + c.w <= PANEL_WIDTH,
                c.y + c.h <= PANEL_HEIGHT,
                row < c.h,
                col <= c.w,
                buf@.len() == pix_at(c.w as int, row as int, col as int) * 2,
                forall|rr: int, cc: int|
                    0 <= rr < c.h && 0 <= cc < c.w && (rr < row || (rr == row && cc < col)) ==> {
                        let wd = panel_word(o, *frame, c.x + cc, c.y + rr);
                        &&& buf@[#[trigger] pix_at(c.w as int, rr, cc) * 2] == (wd % 256) as u8
                        &&& buf@[pix_at(c.w as int, rr, cc) * 2 + 1] == (wd / 256) as u8
                    },
            decreases c.w - col,
        {
            let px = (c.x + col) as usize;
            let py = (c.y + row) as usize;
            proof {
                lemma_pix_in_range(PANEL_WIDTH as int, PANEL_HEIGHT as int, py as int, px as int);
            }
            let word = words[py * (PANEL_WIDTH as usize) + px];
            let ghost before = buf@;
            buf.push((word & 0xff) as u8);
            buf.push((word >> 8) as u8);
            proof {
                assert((word & 0xff) as u8 == (word % 256) as u8) by (bit_vector);
                assert((word >> 8) as u8 == (word / 256) as u8) by (bit_vector);
                assert(words@[pix_at(PANEL_WIDTH as int, py as int, px as int)] == word);
                assert forall|rr: int, cc: int|
                    0 <= rr < c.h && 0 <= cc < c.w && (rr < row || (rr == row && cc < col + 1)) implies {
                        let wd = panel_word(o, *frame, c.x + cc, c.y + rr);
                        &&& buf@[#[trigger] pix_at(c.w as int, rr, cc) * 2] == (wd % 256) as u8
                        &&& buf@[pix_at(c.w as int, rr, cc) * 2 + 1] == (wd / 256) as u8
                    } by {
                    if rr == row && cc == col {
                    } else {
                        lemma_pix_order(c.w as int, rr, cc, row as int, col as int);
                    }
                }
            }
            col += 1;
        }
        proof {
            assert(row * c.w + c.w == (row + 1) * c.w) by (nonlinear_arith);
        }
        row += 1;
    }
    buf
}

} // verus!
