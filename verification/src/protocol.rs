//! TURZX / Turing 3.5" wire protocol ("revision A").
//!
//! Framing: every command is a 6-byte packet — five bytes packing up to four
//! 10-bit coordinates, then a one-byte opcode. [`Command::SetOrientation`]
//! carries five extra payload bytes and is padded to 16. Bitmap pixel data
//! (RGB565, little-endian) is streamed straight after a [`Command::DrawBitmap`]
//! packet with no further framing.

use vstd::prelude::*;

verus! {

pub const OPCODE_HELLO: u8 = 69;
pub const OPCODE_SET_BRIGHTNESS: u8 = 110;
pub const OPCODE_SET_ORIENTATION: u8 = 121;
pub const OPCODE_DRAW_BITMAP: u8 = 197;

/// Largest value a 10-bit coordinate field holds.
pub const COORD_MAX: u16 = 1023;

/// A command sent to the panel. [`Command::encode`] produces the on-wire bytes;
/// any pixel payload is written separately by the caller.
#[derive(Debug, Clone, Copy, PartialEq, Eq, Structural)]
pub enum Command {
    /// Handshake / wake: six repeated opcode bytes.
    Hello,
    /// Backlight level, `0..=255` (`0` = off). The panel's own scale runs the
    /// other way, so [`Command::encode`] inverts it.
    SetBrightness(u8),
    /// Tell the panel which way it is mounted and what logical size to expect.
    SetOrientation { landscape: bool, width: u16, height: u16 },
    /// Repaint the inclusive rectangle `(x, y)..=(ex, ey)`. RGB565 little-endian
    /// pixel data for `(ex - x + 1) * (ey - y + 1)` pixels follows.
    DrawBitmap { x: u16, y: u16, ex: u16, ey: u16 },
}

/// The five-byte prefix packing four 10-bit coordinates, as the protocol notes
/// give it: `x` takes 8+2 bits, then `y` 4+6, `ex` 6+4, `ey` 2+8.
pub open spec fn coord_bytes(x: int, y: int, ex: int, ey: int) -> Seq<u8> {
    seq![
        (x / 4) as u8,
        ((x % 4) * 64 + y / 16) as u8,
        ((y % 16) * 16 + ex / 64) as u8,
        ((ex % 64) * 4 + ey / 256) as u8,
        (ey % 256) as u8,
    ]
}

/// Reads the four coordinates back out of a five-byte prefix.
pub open spec fn coords_of(b: Seq<u8>) -> (int, int, int, int) {
    (
        b[0] * 4 + b[1] / 64,
        (b[1] % 64) * 16 + b[2] / 16,
        (b[2] % 16) * 64 + b[3] / 4,
        (b[3] % 4) * 256 + b[4],
    )
}

/// A coordinate that fits the 10-bit wire field.
pub open spec fn coord_ok(v: u16) -> bool {
    v <= COORD_MAX
}

impl Command {
    /// Every coordinate the command packs fits its 10-bit field.
    pub open spec fn encodable(self) -> bool {
        match self {
            Command::DrawBitmap { x, y, ex, ey } => coord_ok(x) && coord_ok(y) && coord_ok(ex)
                && coord_ok(ey),
            _ => true,
        }
    }

    /// The exact bytes that go on the wire for this command.
    pub open spec fn wire(self) -> Seq<u8> {
        match self {
            Command::Hello => Seq::new(6, |i: int| OPCODE_HELLO),
            Command::SetBrightness(level) => coord_bytes(255 - level, 0, 0, 0).push(
                OPCODE_SET_BRIGHTNESS,
            ),
            Command::SetOrientation { landscape, width, height } => coord_bytes(0, 0, 0, 0).push(
                OPCODE_SET_ORIENTATION,
            ) + seq![
                if landscape { 102u8 } else { 100u8 },
                (width / 256) as u8,
                (width % 256) as u8,
                (height / 256) as u8,
                (height % 256) as u8,
                0u8,
                0u8,
                0u8,
                0u8,
                0u8,
            ],
            Command::DrawBitmap { x, y, ex, ey } => coord_bytes(x as int, y as int, ex as int, ey as int).push(
                OPCODE_DRAW_BITMAP,
            ),
        }
    }

    /// Encode the command packet. Pixel data, when there is any, is the caller's
    /// job to write immediately afterwards.
    pub fn encode(&self) -> (out: Vec<u8>)
        requires
            self.encodable(),
        ensures
            out@ == self.wire(),
    {
        match *self {
            Command::Hello => {
                let v = vec![OPCODE_HELLO; 6];
                assert(v@ =~= self.wire());
                v
            },
            Command::SetBrightness(level) => {
                let inv = 255 - level as u16;
                let c = pack_coords(inv, 0, 0, 0);
                let v = vec![c[0], c[1], c[2], c[3], c[4], OPCODE_SET_BRIGHTNESS];
                assert(v@ =~= self.wire());
                v
            },
            Command::SetOrientation { landscape, width, height } => {
                let c = pack_coords(0, 0, 0, 0);
                let mut buf = vec![0u8; 16];
                buf.set(0, c[0]);
                buf.set(1, c[1]);
                buf.set(2, c[2]);
                buf.set(3, c[3]);
                buf.set(4, c[4]);
                buf.set(5, OPCODE_SET_ORIENTATION);
                // rev A: PORTRAIT = 0, LANDSCAPE = 2, offset by 100 on the wire.
                buf.set(6, if landscape { 100 + 2 } else { 100 });
                buf.set(7, (width >> 8) as u8);
                buf.set(8, (width & 0xff) as u8);
                buf.set(9, (height >> 8) as u8);
                buf.set(10, (height & 0xff) as u8);
                proof {
                    lemma_split_u16(width);
                    lemma_split_u16(height);
                }
                assert(buf@ =~= self.wire());
                buf
            },
            Command::DrawBitmap { x, y, ex, ey } => {
                let c = pack_coords(x, y, ex, ey);
                let v = vec![c[0], c[1], c[2], c[3], c[4], OPCODE_DRAW_BITMAP];
                assert(v@ =~= self.wire());
                v
            },
        }
    }
}

proof fn lemma_split_u16(v: u16)
    ensures
        (v >> 8) as u8 == (v / 256) as u8,
        (v & 0xff) as u8 == (v % 256) as u8,
{
    assert((v >> 8) as u8 == (v / 256) as u8) by (bit_vector);
    assert((v & 0xff) as u8 == (v % 256) as u8) by (bit_vector);
}

/// Pack up to four 10-bit coordinates into the 5-byte prefix rev A uses.
pub fn pack_coords(x: u16, y: u16, ex: u16, ey: u16) -> (out: [u8; 5])
    requires
        coord_ok(x),
        coord_ok(y),
        coord_ok(ex),
        coord_ok(ey),
    ensures
        out@ == coord_bytes(x as int, y as int, ex as int, ey as int),
{
    let b0 = (x >> 2) as u8;
    let b1 = (((x & 0x3) << 6) | (y >> 4)) as u8;
    let b2 = (((y & 0xf) << 4) | (ex >> 6)) as u8;
    let b3 = (((ex & 0x3f) << 2) | (ey >> 8)) as u8;
    let b4 = (ey & 0xff) as u8;
    assert(b0 == (x / 4) as u8) by (bit_vector)
        requires
            b0 == (x >> 2) as u8,
            x <= 1023,
    ;
    assert(b1 == ((x % 4) * 64 + y / 16) as u8) by (bit_vector)
        requires
            b1 == (((x & 0x3) << 6) | (y >> 4)) as u8,
            x <= 1023,
            y <= 1023,
    ;
    assert(b2 == ((y % 16) * 16 + ex / 64) as u8) by (bit_vector)
        requires
            b2 == (((y & 0xf) << 4) | (ex >> 6)) as u8,
            y <= 1023,
            ex <= 1023,
    ;
    assert(b3 == ((ex % 64) * 4 + ey / 256) as u8) by (bit_vector)
        requires
            b3 == (((ex & 0x3f) << 2) | (ey >> 8)) as u8,
            ex <= 1023,
            ey <= 1023,
    ;
    assert(b4 == (ey % 256) as u8) by (bit_vector)
        requires
            b4 == (ey & 0xff) as u8,
    ;
    let out = [b0, b1, b2, b3, b4];
    assert(out@ =~= coord_bytes(x as int, y as int, ex as int, ey as int));
    out
}

/// Packing is lossless: the four 10-bit coordinates can be read back from the
/// five prefix bytes.
pub proof fn lemma_coords_round_trip(x: u16, y: u16, ex: u16, ey: u16)
    requires
        coord_ok(x),
        coord_ok(y),
        coord_ok(ex),
        coord_ok(ey),
    ensures
        coords_of(coord_bytes(x as int, y as int, ex as int, ey as int)) == (
            x as int,
            y as int,
            ex as int,
            ey as int,
        ),
{
    let b = coord_bytes(x as int, y as int, ex as int, ey as int);
    assert(b[0] == x / 4);
    assert(b[1] == (x % 4) * 64 + y / 16);
    assert(b[2] == (y % 16) * 16 + ex / 64);
    assert(b[3] == (ex % 64) * 4 + ey / 256);
    assert(b[4] == ey % 256);
}

} // verus!
