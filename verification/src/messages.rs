//! Decoding of the window messages the top-level window procedure handles.
use vstd::prelude::*;

verus! {

pub const WM_DESTROY: u32 = 0x0002;
pub const WM_SIZE: u32 = 0x0005;
pub const WM_CLOSE: u32 = 0x0010;
pub const WM_ERASEBKGND: u32 = 0x0014;
pub const WM_NOTIFY: u32 = 0x004E;
pub const WM_COMMAND: u32 = 0x0111;
pub const WM_CTLCOLOREDIT: u32 = 0x0133;
pub const WM_CTLCOLORSTATIC: u32 = 0x0138;
pub const WM_DPICHANGED: u32 = 0x02E0;

/// A window message, decoded.
#[derive(Debug, Clone, Copy, PartialEq, Eq, Structural)]
pub enum WindowEvent {
    /// A control notification: the control's window, the notification code
    /// and the control id.
    Command { child: isize, code: u32, ctrl_id: u32 },
    /// A common-control notification (the header is read from `lparam`).
    Notify,
    /// The client area was resized.
    Size { width: i32, height: i32 },
    /// The window moved to a monitor with another DPI.
    DpiChanged { dpi: u32 },
    Destroy,
    Close,
    EraseBackground,
    /// An edit control asks for its colours.
    CtlColorEdit { child: isize },
    /// A static control asks for its colours.
    CtlColorStatic,
    /// Left to the default window procedure.
    Unhandled,
}

/// The high word of the low 32 bits of `wparam`.
pub fn hiword(wparam: usize) -> (r: u32)
    ensures
        r == (wparam as u32) / 0x10000,
{
    let w = wparam as u32;
    let r = (w >> 16u32) & 0xFFFFu32;
    assert((w >> 16u32) & 0xFFFFu32 == w / 0x10000) by (bit_vector);
    r
}

/// The low word of the low 32 bits of `wparam`.
pub fn loword(wparam: usize) -> (r: u32)
    ensures
        r == (wparam as u32) % 0x10000,
{
    let w = wparam as u32;
    let r = w & 0xFFFFu32;
    assert(w & 0xFFFFu32 == w % 0x10000) by (bit_vector);
    r
}

/// The width (low word) and height (high word) of a `WM_SIZE` `lparam`.
pub fn size_from_lparam(lparam: isize) -> (r: (i32, i32))
    ensures
        r.0 == (lparam as u32) % 0x10000,
        r.1 == (lparam as u32) / 0x10000,
{
    let l = lparam as u32;
    let w = l & 0xFFFFu32;
    let h = l >> 16u32;
    assert(l & 0xFFFFu32 == l % 0x10000) by (bit_vector);
    assert(l >> 16u32 == l / 0x10000) by (bit_vector);
    (w as i32, h as i32)
}

/// Decodes a message sent to the top-level window.
pub fn decode_message(msg: u32, wparam: usize, lparam: isize) -> (e: WindowEvent)
    ensures
        msg == WM_COMMAND ==> e == (WindowEvent::Command {
            child: lparam,
            code: (wparam as u32) / 0x10000,
            ctrl_id: (wparam as u32) % 0x10000,
        }),
        msg == WM_NOTIFY ==> e == WindowEvent::Notify,
        msg == WM_SIZE ==> e == (WindowEvent::Size {
            width: ((lparam as u32) % 0x10000) as i32,
            height: ((lparam as u32) / 0x10000) as i32,
        }),
        msg == WM_DPICHANGED ==> e == (WindowEvent::DpiChanged { dpi: (wparam as u32) % 0x10000 }),
        msg == WM_DESTROY ==> e == WindowEvent::Destroy,
        msg == WM_CLOSE ==> e == WindowEvent::Close,
        msg == WM_ERASEBKGND ==> e == WindowEvent::EraseBackground,
        msg == WM_CTLCOLOREDIT ==> e == (WindowEvent::CtlColorEdit { child: lparam }),
        msg == WM_CTLCOLORSTATIC ==> e == WindowEvent::CtlColorStatic,
        msg != WM_COMMAND && msg != WM_NOTIFY && msg != WM_SIZE && msg != WM_DPICHANGED && msg
            != WM_DESTROY && msg != WM_CLOSE && msg != WM_ERASEBKGND && msg != WM_CTLCOLOREDIT && msg
            != WM_CTLCOLORSTATIC ==> e == WindowEvent::Unhandled,
{
    if msg == WM_COMMAND {
        WindowEvent::Command { child: lparam, code: hiword(wparam), ctrl_id: loword(wparam) }
    } else if msg == WM_NOTIFY {
        WindowEvent::Notify
    } else if msg == WM_SIZE {
        let (width, height) = size_from_lparam(lparam);
        WindowEvent::Size { width, height }
    } else if msg == WM_DPICHANGED {
        WindowEvent::DpiChanged { dpi: loword(wparam) }
    } else if msg == WM_DESTROY {
        WindowEvent::Destroy
    } else if msg == WM_CLOSE {
        WindowEvent::Close
    } else if msg == WM_ERASEBKGND {
        WindowEvent::EraseBackground
    } else if msg == WM_CTLCOLOREDIT {
        WindowEvent::CtlColorEdit { child: lparam }
    } else if msg == WM_CTLCOLORSTATIC {
        WindowEvent::CtlColorStatic
    } else {
        WindowEvent::Unhandled
    }
}

} // verus!
