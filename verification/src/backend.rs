//! What can go wrong between the renderer and a display, and finding the
//! panel among the serial ports.

use vstd::prelude::*;

use crate::panel::{TURZX_PID, TURZX_VID};
use crate::text::{push_char, push_str};

verus! {

broadcast use vstd::string::group_string_axioms;

/// A display backend's failure.
#[derive(Debug, Clone, PartialEq, Eq)]
pub enum BackendError {
    /// An I/O error, by its description.
    Io(String),
    /// No serial port with the panel's USB ids.
    DeviceNotFound { vid: u16, pid: u16 },
    /// The panel did not follow the protocol.
    Protocol(String),
    Other(String),
}

/// Lower-case hex digit `d < 16`.
pub open spec fn hex_digit_char(d: int) -> char {
    if d < 10 {
        ((48 + d) as u8) as char
    } else {
        ((87 + d) as u8) as char
    }
}

/// `{:#06x}` of a 16-bit value: `0x` and four hex digits.
pub open spec fn hex16(v: u16) -> Seq<char> {
    seq![
        '0',
        'x',
        hex_digit_char((v / 4096) as int % 16),
        hex_digit_char((v / 256) as int % 16),
        hex_digit_char((v / 16) as int % 16),
        hex_digit_char(v as int % 16),
    ]
}

fn push_hex_digit(out: &mut String, d: u16)
    requires
        d < 16,
    ensures
        final(out)@ == old(out)@.push(hex_digit_char(d as int)),
{
    let b = d as u8;
    if b < 10 {
        push_char(out, (48 + b) as char);
    } else {
        push_char(out, (87 + b) as char);
    }
}

fn push_hex16(out: &mut String, v: u16)
    ensures
        final(out)@ == old(out)@ + hex16(v),
{
    push_char(out, '0');
    push_char(out, 'x');
    push_hex_digit(out, (v / 4096) % 16);
    push_hex_digit(out, (v / 256) % 16);
    push_hex_digit(out, (v / 16) % 16);
    push_hex_digit(out, v % 16);
    assert(final(out)@ =~= old(out)@ + hex16(v));
}

/// The text of an error, as it is shown to the user.
pub open spec fn error_text(e: BackendError) -> Seq<char> {
    match e {
        BackendError::Io(s) => "display backend I/O error: "@ + s@,
        BackendError::DeviceNotFound { vid, pid } => "no TURZX device found (looked for VID "@ + hex16(vid)
            + " PID "@ + hex16(pid) + ")"@,
        BackendError::Protocol(s) => "TURZX protocol error: "@ + s@,
        BackendError::Other(s) => s@,
    }
}

impl BackendError {
    /// The error's text.
    pub fn message(&self) -> (s: String)
        ensures
            s@ == error_text(*self),
    {
        let mut s = String::new();
        match self {
            BackendError::Io(m) => {
                push_str(&mut s, "display backend I/O error: ");
                push_str(&mut s, m.as_str());
            },
            BackendError::DeviceNotFound { vid, pid } => {
                push_str(&mut s, "no TURZX device found (looked for VID ");
                push_hex16(&mut s, *vid);
                push_str(&mut s, " PID ");
                push_hex16(&mut s, *pid);
                push_str(&mut s, ")");
            },
            BackendError::Protocol(m) => {
                push_str(&mut s, "TURZX protocol error: ");
                push_str(&mut s, m.as_str());
            },
            BackendError::Other(m) => {
                push_str(&mut s, m.as_str());
            },
        }
        s
    }
}

/// A serial port as the system lists it: its device path, and the USB vendor
/// and product ids when it is a USB port.
#[derive(Debug, Clone)]
pub struct PortInfo {
    pub name: String,
    pub usb: Option<(u16, u16)>,
}

/// The port is the panel's.
pub open spec fn is_panel(p: PortInfo) -> bool {
    p.usb == Some((TURZX_VID, TURZX_PID))
}

/// The first port with the panel's USB ids, else `DeviceNotFound`.
pub fn find_panel_port(ports: &Vec<PortInfo>) -> (r: Result<String, BackendError>)
    ensures
        match r {
            Ok(name) => exists|i: int|
                0 <= i < ports@.len() && is_panel(#[trigger] ports@[i]) && ports@[i].name@ == name@
                    && forall|j: int| 0 <= j < i ==> !is_panel(#[trigger] ports@[j]),
            Err(e) => e == BackendError::DeviceNotFound { vid: TURZX_VID, pid: TURZX_PID }
                && forall|j: int| 0 <= j < ports@.len() ==> !is_panel(#[trigger] ports@[j]),
        },
{
    let mut i: usize = 0;
    while i < ports.len()
        invariant
            i <= ports@.len(),
            forall|j: int| 0 <= j < i ==> !is_panel(#[trigger] ports@[j]),
        decreases ports@.len() - i,
    {
        match ports[i].usb {
            Some((vid, pid)) => {
                if vid == TURZX_VID && pid == TURZX_PID {
                    let name = ports[i].name.clone();
                    assert(is_panel(ports@[i as int]));
                    return Ok(name);
                }
            },
            None => {},
        }
        i += 1;
    }
    Err(BackendError::DeviceNotFound { vid: TURZX_VID, pid: TURZX_PID })
}

} // verus!
