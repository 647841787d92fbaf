//! The CPU-side frame buffer shared between the renderer and every backend.

use vstd::prelude::*;

verus! {

/// An axis-aligned rectangle in pixel coordinates. Origin is top-left.
#[derive(Debug, Clone, Copy, PartialEq, Eq, Structural)]
pub struct Rect {
    pub x: u16,
    pub y: u16,
    pub w: u16,
    pub h: u16,
}

impl Rect {
    /// Right edge (exclusive).
    pub open spec fn right(self) -> int {
        self.x + self.w
    }

    /// Bottom edge (exclusive).
    pub open spec fn bottom(self) -> int {
        self.y + self.h
    }

    /// Both far edges are representable in `u16`.
    pub open spec fn in_range(self) -> bool {
        self.right() <= u16::MAX && self.bottom() <= u16::MAX
    }

    /// The pixel `(px, py)` lies inside the rectangle.
    pub open spec fn contains(self, px: int, py: int) -> bool {
        self.x <= px < self.right() && self.y <= py < self.bottom()
    }

    /// Smallest rectangle covering both (as integers).
    pub open spec fn spec_union(self, other: Rect) -> Rect {
        let x0 = if self.x <= other.x { self.x } else { other.x };
        let y0 = if self.y <= other.y { self.y } else { other.y };
        let x1 = if self.right() >= other.right() { self.right() } else { other.right() };
        let y1 = if self.bottom() >= other.bottom() { self.bottom() } else { other.bottom() };
        Rect { x: x0, y: y0, w: (x1 - x0) as u16, h: (y1 - y0) as u16 }
    }

    pub fn new(x: u16, y: u16, w: u16, h: u16) -> (r: Self)
        ensures
            r == (Rect { x, y, w, h }),
    {
        Self { x, y, w, h }
    }

    /// Smallest rectangle covering both `self` and `other`.
    pub fn union(self, other: Rect) -> (r: Rect)
        requires
            self.in_range(),
            other.in_range(),
        ensures
            r == self.spec_union(other),
            r.in_range(),
            r.x <= self.x && r.x <= other.x && r.y <= self.y && r.y <= other.y,
            r.right() >= self.right() && r.right() >= other.right(),
            r.bottom() >= self.bottom() && r.bottom() >= other.bottom(),
            r.right() == self.right() || r.right() == other.right(),
            r.bottom() == self.bottom() || r.bottom() == other.bottom(),
    {
        let x0 = if self.x <= other.x { self.x } else { other.x };
        let y0 = if self.y <= other.y { self.y } else { other.y };
        let sx1 = self.x + self.w;
        let ox1 = other.x + other.w;
        let sy1 = self.y + self.h;
        let oy1 = other.y + other.h;
        let x1 = if sx1 >= ox1 { sx1 } else { ox1 };
        let y1 = if sy1 >= oy1 { sy1 } else { oy1 };
        Rect { x: x0, y: y0, w: x1 - x0, h: y1 - y0 }
    }

    pub fn area(self) -> (a: u32)
        ensures
            a == self.w * self.h,
    {
        assert(self.w * self.h <= 65535 * 65535) by (nonlinear_arith)
            requires
                self.w <= 65535,
                self.h <= 65535,
        ;
        self.w as u32 * self.h as u32
    }
}


/// The RGB565 word for one RGBA8 pixel: 5 bits red, 6 bits green, 5 bits blue.
pub open spec fn rgb565(r: u8, g: u8, b: u8) -> u16 {
    ((r / 8) * 2048 + (g / 4) * 32 + b / 8) as u16
}

/// Index of byte `k` of pixel `(x, y)` in a row-major RGBA8 buffer `w` pixels wide.
pub open spec fn byte_index(w: int, x: int, y: int, k: int) -> int {
    (y * w + x) * 4 + k
}

/// `out` is `src` turned a quarter clockwise: sizes swapped, and pixel
/// `(x, y)` of `src` at `(height - 1 - y, x)` of `out`.
pub open spec fn is_rotation_cw(src: Frame, out: Frame) -> bool {
    &&& out.wf()
    &&& out.spec_width() == src.spec_height()
    &&& out.spec_height() == src.spec_width()
    &&& forall|x: int, y: int, k: int|
        0 <= x < src.spec_width() && 0 <= y < src.spec_height() && 0 <= k < 4
            ==> out.bytes()[#[trigger] byte_index(
            src.spec_height() as int,
            src.spec_height() - 1 - y,
            x,
            k,
        )] == src.bytes()[byte_index(src.spec_width() as int, x, y, k)]
}

/// Four quarter turns clockwise give the frame back: the same size and the
/// same bytes.
pub proof fn lemma_four_turns(f: Frame, g1: Frame, g2: Frame, g3: Frame, g4: Frame)
    requires
        f.wf(),
        is_rotation_cw(f, g1),
        is_rotation_cw(g1, g2),
        is_rotation_cw(g2, g3),
        is_rotation_cw(g3, g4),
    ensures
        g4.spec_width() == f.spec_width(),
        g4.spec_height() == f.spec_height(),
        g4.bytes() == f.bytes(),
{
    let w = f.spec_width() as int;
    let h = f.spec_height() as int;
    assert forall|i: int| 0 <= i < f.bytes().len() implies g4.bytes()[i] == f.bytes()[i] by {
        let q = i / 4;
        let k = i % 4;
        assert(w > 0 && h > 0) by (nonlinear_arith)
            requires
                0 <= i < w * h * 4,
                w >= 0,
                h >= 0,
        ;
        let x = q % w;
        let y = q / w;
        assert(byte_index(w, x, y, k) == i && 0 <= x < w && 0 <= y < h) by (nonlinear_arith)
            requires
                0 <= i < w * h * 4,
                w > 0,
                q == i / 4,
                k == i % 4,
                x == q % w,
                y == q / w,
        {
            vstd::arithmetic::div_mod::lemma_fundamental_div_mod(i, 4);
            vstd::arithmetic::div_mod::lemma_fundamental_div_mod(q, w);
        }
        let (x1, y1) = (h - 1 - y, x);
        let (x2, y2) = (w - 1 - y1, x1);
        let (x3, y3) = (h - 1 - y2, x2);
        assert(g1.bytes()[byte_index(h, h - 1 - y, x, k)] == f.bytes()[byte_index(w, x, y, k)]);
        assert(g2.bytes()[byte_index(w, w - 1 - y1, x1, k)] == g1.bytes()[byte_index(h, x1, y1, k)]);
        assert(g3.bytes()[byte_index(h, h - 1 - y2, x2, k)] == g2.bytes()[byte_index(w, x2, y2, k)]);
        assert(g4.bytes()[byte_index(w, w - 1 - y3, x3, k)] == g3.bytes()[byte_index(h, x3, y3, k)]);
        assert(w - 1 - y3 == x && x3 == y);
    }
    assert(g4.bytes() =~= f.bytes());
}

/// A CPU-side RGBA8 frame: row-major, top-left origin, 4 bytes per pixel.
///
/// Rendering happens in RGBA8 for convenience; conversion to the panel's RGB565
/// happens once, at the backend boundary, via [`Frame::to_rgb565`].
#[derive(Debug, Clone)]
pub struct Frame {
    width: u16,
    height: u16,
    pixels: Vec<u8>,
}

impl Frame {
    pub closed spec fn spec_width(&self) -> u16 {
        self.width
    }

    pub closed spec fn spec_height(&self) -> u16 {
        self.height
    }

    /// The RGBA8 bytes, row-major.
    pub closed spec fn bytes(&self) -> Seq<u8> {
        self.pixels@
    }

    /// The buffer holds exactly `width * height` RGBA pixels.
    pub open spec fn wf(&self) -> bool {
        self.bytes().len() == self.spec_width() * self.spec_height() * 4
    }

    /// A frame of this size can be addressed with `usize` indices.
    pub open spec fn fits(width: u16, height: u16) -> bool {
        width * height * 4 <= usize::MAX
    }

    pub fn new(width: u16, height: u16) -> (f: Self)
        requires
            Self::fits(width, height),
        ensures
            f.wf(),
            f.spec_width() == width,
            f.spec_height() == height,
            f.bytes() == Seq::new((width * height * 4) as nat, |i: int| 0u8),
    {
        let n = width as usize * height as usize * 4;
        let pixels = vec![0u8; n];
        Self { width, height, pixels }
    }

    pub fn width(&self) -> (w: u16)
        ensures
            w == self.spec_width(),
    {
        self.width
    }

    pub fn height(&self) -> (h: u16)
        ensures
            h == self.spec_height(),
    {
        self.height
    }

    pub fn as_rgba(&self) -> (px: &[u8])
        ensures
            px@ == self.bytes(),
    {
        self.pixels.as_slice()
    }

    pub fn as_rgba_mut(&mut self) -> (px: &mut [u8])
        ensures
            px@ == old(self).bytes(),
            final(self).bytes() == final(px)@,
            final(self).spec_width() == old(self).spec_width(),
            final(self).spec_height() == old(self).spec_height(),
    {
        self.pixels.as_mut_slice()
    }

    /// Rotate 90 degrees clockwise into a new frame with width/height swapped.
    ///
    /// Pixel `(x, y)` of a `w`-wide frame lands at `(h - 1 - y, x)` of the
    /// `h`-wide result. Used to map a landscape-authored frame (480x320)
    /// onto the physical 320x480 pixel array.
    pub fn rotated_cw(&self) -> (out: Frame)
        requires
            self.wf(),
            Self::fits(self.spec_width(), self.spec_height()),
        ensures
            is_rotation_cw(*self, out),
    {
        let w = self.width as usize;
        let h = self.height as usize;
        let mut out = Frame::new(self.height, self.width);
        proof {
            lemma_mul_comm_u16(self.width, self.height);
        }
        let ghost src = self.pixels@;
        let mut y: usize = 0;
        while y < h
            invariant
                w == self.spec_width(),
                h == self.spec_height(),
                self.wf(),
                src == self.bytes(),
                w * h * 4 <= usize::MAX,
                out.wf(),
                out.spec_width() == h,
                out.spec_height() == w,
                y <= h,
                forall|xx: int, yy: int, k: int|
                    0 <= xx < w && 0 <= yy < y && 0 <= k < 4 ==> out.bytes()[#[trigger] byte_index(
                        h as int,
                        h - 1 - yy,
                        xx,
                        k,
                    )] == src[byte_index(w as int, xx, yy, k)],
            decreases h - y,
        {
            let mut x: usize = 0;
            while x < w
                invariant
                    w == self.spec_width(),
                    h == self.spec_height(),
                    self.wf(),
                    src == self.bytes(),
                    w * h * 4 <= usize::MAX,
                    out.wf(),
                    out.spec_width() == h,
                    out.spec_height() == w,
                    y < h,
                    x <= w,
                    forall|xx: int, yy: int, k: int|
                        0 <= xx < w && 0 <= yy < h && 0 <= k < 4 && (yy < y || (yy == y && xx < x))
                            ==> out.bytes()[#[trigger] byte_index(h as int, h - 1 - yy, xx, k)]
                            == src[byte_index(w as int, xx, yy, k)],
                decreases w - x,
            {
                proof {
                    lemma_index_bounds(w as int, h as int, x as int, y as int);
                    lemma_index_bounds(h as int, w as int, (h - 1 - y) as int, x as int);
                    assert(w * h == h * w) by (nonlinear_arith);
                }
                let s = (y * w + x) * 4;
                let d = (x * h + (h - 1 - y)) * 4;
                let ghost before = out.pixels@;
                let b0 = self.pixels[s];
                let b1 = self.pixels[s + 1];
                let b2 = self.pixels[s + 2];
                let b3 = self.pixels[s + 3];
                out.pixels.set(d, b0);
                out.pixels.set(d + 1, b1);
                out.pixels.set(d + 2, b2);
                out.pixels.set(d + 3, b3);
                assert(out.pixels@ == before.update(d as int, b0).update(d + 1, b1).update(
                    d + 2,
                    b2,
                ).update(d + 3, b3));
                proof {
                    assert forall|xx: int, yy: int, kk: int|
                        0 <= xx < w && 0 <= yy < h && 0 <= kk < 4 && (yy < y || (yy == y && xx < x
                            + 1)) implies out.bytes()[#[trigger] byte_index(
                        h as int,
                        h - 1 - yy,
                        xx,
                        kk,
                    )] == src[byte_index(w as int, xx, yy, kk)] by {
                        lemma_index_bounds(h as int, w as int, h - 1 - yy, xx);
                        lemma_index_bounds(w as int, h as int, xx, yy);
                        if yy == y && xx == x {
                            assert(byte_index(h as int, h - 1 - yy, xx, kk) == d + kk);
                            assert(byte_index(w as int, xx, yy, kk) == s + kk);
                        } else {
                            lemma_rotated_index_distinct(
                                w as int,
                                h as int,
                                xx,
                                yy,
                                kk,
                                x as int,
                                y as int,
                            );
                            let j = byte_index(h as int, h - 1 - yy, xx, kk);
                            assert(out.pixels@[j] == before[j]);
                        }
                    }
                }
                x += 1;
            }
            y += 1;
        }
        out
    }

    /// Pack into RGB565, one `u16` per pixel, in reading order.
    pub fn to_rgb565(&self) -> (out: Vec<u16>)
        requires
            self.wf(),
        ensures
            out@.len() * 4 == self.bytes().len(),
            forall|i: int|
                0 <= i < out@.len() ==> #[trigger] out@[i] == rgb565(
                    self.bytes()[4 * i],
                    self.bytes()[4 * i + 1],
                    self.bytes()[4 * i + 2],
                ),
    {
        let len = self.pixels.len();
        let n = len / 4;
        let mut out: Vec<u16> = Vec::with_capacity(n);
        let mut i: usize = 0;
        while i < n
            invariant
                n * 4 == self.bytes().len(),
                len == self.pixels@.len(),
                n == len / 4,
                self.pixels@ == self.bytes(),
                i <= n,
                out@.len() == i,
                forall|j: int|
                    0 <= j < i ==> #[trigger] out@[j] == rgb565(
                        self.bytes()[4 * j],
                        self.bytes()[4 * j + 1],
                        self.bytes()[4 * j + 2],
                    ),
            decreases n - i,
        {
            let r = self.pixels[4 * i];
            let g = self.pixels[4 * i + 1];
            let b = self.pixels[4 * i + 2];
            let hi = ((r as u16) >> 3) & 0x1f;
            let mid = ((g as u16) >> 2) & 0x3f;
            let lo = ((b as u16) >> 3) & 0x1f;
            let word = (hi << 11) | (mid << 5) | lo;
            proof {
                lemma_rgb565_bits(r, g, b);
            }
            out.push(word);
            i += 1;
        }
        out
    }
}

proof fn lemma_mul_comm_u16(a: u16, b: u16)
    ensures
        a * b == b * a,
        a * b * 4 == b * a * 4,
{
    assert(a * b == b * a) by (nonlinear_arith);
}

/// Every byte of pixel `(x, y)` in a `w x h` frame has an index below `w * h * 4`.
proof fn lemma_index_bounds(w: int, h: int, x: int, y: int)
    requires
        0 <= x < w,
        0 <= y < h,
    ensures
        byte_index(w, x, y, 0) + 4 <= w * h * 4,
        byte_index(w, x, y, 0) >= 0,
        forall|k: int| #[trigger] byte_index(w, x, y, k) == byte_index(w, x, y, 0) + k,
{
    assert(y * w + x + 1 <= w * h) by (nonlinear_arith)
        requires
            0 <= x < w,
            0 <= y < h,
    ;
    assert(y * w + x >= 0) by (nonlinear_arith)
        requires
            0 <= x,
            0 <= y,
            0 <= w,
    ;
}

/// Distinct source pixels never share a destination byte under the rotation.
proof fn lemma_rotated_index_distinct(w: int, h: int, xx: int, yy: int, kk: int, x: int, y: int)
    requires
        0 <= xx < w,
        0 <= yy < h,
        0 <= x < w,
        0 <= y < h,
        0 <= kk < 4,
        !(xx == x && yy == y),
    ensures
        !(byte_index(h, h - 1 - y, x, 0) <= byte_index(h, h - 1 - yy, xx, kk) < byte_index(
            h,
            h - 1 - y,
            x,
            0,
        ) + 4),
{
    let p = xx * h + (h - 1 - yy);
    let q = x * h + (h - 1 - y);
    assert(p != q) by (nonlinear_arith)
        requires
            p == xx * h + (h - 1 - yy),
            q == x * h + (h - 1 - y),
            0 <= h - 1 - yy < h,
            0 <= h - 1 - y < h,
            !(xx == x && yy == y),
    {
        if xx == x {
        } else if xx < x {
            assert(xx * h + h <= x * h);
        } else {
            assert(x * h + h <= xx * h);
        }
    }
}

proof fn lemma_rgb565_bits(r: u8, g: u8, b: u8)
    ensures
        ((((r as u16) >> 3) & 0x1f) << 11) | ((((g as u16) >> 2) & 0x3f) << 5) | (((b as u16) >> 3) & 0x1f)
            == rgb565(r, g, b),
{
    assert(((((r as u16) >> 3) & 0x1f) << 11) | ((((g as u16) >> 2) & 0x3f) << 5) | (((b as u16) >> 3) & 0x1f)
        == ((r / 8) * 2048 + (g / 4) * 32 + b / 8) as u16) by (bit_vector);
}

} // verus!
