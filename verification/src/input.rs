//! Input forwarding decisions: the grab and release hotkeys, which events
//! are forwarded while the remote side is grabbed, and the 28-byte input
//! packet sent over UDP.
use vstd::prelude::*;
use crate::constants::{INPUT_TOTAL_PACKET_BYTES, PACKET_TYPE_INPUT_EVENT, PROTOCOL_VERSION};
use crate::le::{u16_to_le, u32_to_le};

verus! {

/// Who drives the remote cursor.
#[derive(Debug, Clone, Copy, PartialEq, Eq, Structural)]
pub enum InputOwnership {
    /// The host drives its cursor; local input is ignored.
    LocalControl,
    /// Local input drives the host and is forwarded.
    RemoteControlGrabbed,
    /// The stream continues; local input is not forwarded.
    RemoteControlReleased,
}

/// A key event to be sent over TCP.
#[derive(Debug, Clone, Copy, PartialEq, Eq)]
pub struct KeyEventOut {
    pub hid_usage: u16,
    pub logical_keysym: u32,
    pub is_down: bool,
    pub modifiers: u32,
}

/// SDL scancode to USB HID usage: scancodes up to 255 coincide with HID
/// usages, anything above is unknown (0).
pub fn sdl_scancode_to_hid(scancode: u32) -> (r: u16)
    ensures
        r == if scancode <= 255 { scancode as u16 } else { 0 },
{
    if scancode <= 255 { scancode as u16 } else { 0 }
}

/// Input event kinds on the wire.
pub const EVENT_MOUSE_MOVE: u8 = 0;
pub const EVENT_MOUSE_DOWN: u8 = 1;
pub const EVENT_MOUSE_UP: u8 = 2;
pub const EVENT_SCROLL: u8 = 3;

/// `p` is the input packet with these fields: prefix `RESC`, version 1,
/// type input, then sequence, event type, position, button, scroll deltas
/// and zero modifiers, little-endian.
pub open spec fn is_input_packet(p: Seq<u8>, seq: u32, ty: u8, x: i32, y: i32, button: u8, dx: i16, dy: i16) -> bool {
    &&& p.len() == 28
    &&& p.subrange(0, 4) == seq![0x52u8, 0x45u8, 0x53u8, 0x43u8]
    &&& p[4] == 1
    &&& p[5] == 2
    &&& crate::le::le32(p, 6) == seq
    &&& p[10] == ty
    &&& crate::le::le32(p, 11) == x as u32
    &&& crate::le::le32(p, 15) == y as u32
    &&& p[19] == button
    &&& crate::le::le16(p, 20) == dx as u16
    &&& crate::le::le16(p, 22) == dy as u16
    &&& crate::le::le32(p, 24) == 0
}

/// Encode one input event.
pub fn encode_input_event(seq: u32, ty: u8, x: i32, y: i32, button: u8, dx: i16, dy: i16) -> (p: [u8; 28])
    ensures
        is_input_packet(p@, seq, ty, x, y, button, dx, dy),
{
    let s = u32_to_le(seq);
    let xb = u32_to_le(x as u32);
    let yb = u32_to_le(y as u32);
    let dxb = u16_to_le(dx as u16);
    let dyb = u16_to_le(dy as u16);
    let p: [u8; 28] = [
        0x52, 0x45, 0x53, 0x43, PROTOCOL_VERSION, PACKET_TYPE_INPUT_EVENT,
        s[0], s[1], s[2], s[3],
        ty,
        xb[0], xb[1], xb[2], xb[3],
        yb[0], yb[1], yb[2], yb[3],
        button,
        dxb[0], dxb[1],
        dyb[0], dyb[1],
        0, 0, 0, 0,
    ];
    proof {
        broadcast use vstd::array::group_array_axioms;
        assert(p@.subrange(0, 4) =~= seq![0x52u8, 0x45u8, 0x53u8, 0x43u8]);
    }
    p
}

/// Local input state: ownership, the event sequence, the view geometry,
/// and pending hotkey requests.
pub struct InputCapture {
    pub ownership: InputOwnership,
    pub seq: u32,
    /// Whether a UDP socket is available; without one nothing is sent.
    pub socket_ready: bool,
    pub stream_width: u32,
    pub stream_height: u32,
    /// The canvas is landscape while the stream is portrait.
    pub rotated: bool,
    pub canvas_width: u32,
    pub canvas_height: u32,
    pub grab_pending: bool,
    pub release_pending: bool,
}

/// Control held (SDL `KMOD_CTRL` bits).
pub open spec fn ctrl_held(m: u16) -> bool {
    m & 0x00C0 != 0
}

/// Alt held (SDL `KMOD_ALT` bits).
pub open spec fn alt_held(m: u16) -> bool {
    m & 0x0300 != 0
}

impl InputCapture {
    /// Local control, sequence 0, canvas the size of the stream.
    pub fn new(socket_ready: bool, stream_width: u32, stream_height: u32) -> (c: Self)
        ensures
            c.ownership == InputOwnership::LocalControl,
            c.seq == 0,
            c.socket_ready == socket_ready,
            c.stream_width == stream_width && c.stream_height == stream_height,
            !c.rotated,
            c.canvas_width == stream_width && c.canvas_height == stream_height,
            !c.grab_pending && !c.release_pending,
    {
        InputCapture {
            ownership: InputOwnership::LocalControl,
            seq: 0,
            socket_ready,
            stream_width,
            stream_height,
            rotated: false,
            canvas_width: stream_width,
            canvas_height: stream_height,
            grab_pending: false,
            release_pending: false,
        }
    }

    /// A key event. Ctrl+Alt+G pressed asks for a grab and Ctrl+Alt+Escape
    /// pressed asks for a release; both are consumed. Otherwise the event is
    /// forwarded only while grabbed.
    pub fn process_key(&mut self, scancode: u32, keysym: u32, is_down: bool, modifiers: u16) -> (r: Option<KeyEventOut>)
        ensures
            final(self).seq == old(self).seq,
            final(self).socket_ready == old(self).socket_ready,
            final(self).ownership == old(self).ownership,
            ({
                let hot = ctrl_held(modifiers) && alt_held(modifiers) && is_down;
                if hot && scancode == 10 {
                    r is None && final(self).grab_pending && final(self).release_pending == old(self).release_pending
                } else if hot && scancode == 41 {
                    r is None && final(self).release_pending && final(self).grab_pending == old(self).grab_pending
                } else {
                    &&& final(self).grab_pending == old(self).grab_pending
                    &&& final(self).release_pending == old(self).release_pending
                    &&& r == if old(self).ownership == InputOwnership::RemoteControlGrabbed {
                        Some(KeyEventOut {
                            hid_usage: if scancode <= 255 { scancode as u16 } else { 0 },
                            logical_keysym: keysym,
                            is_down,
                            modifiers: modifiers as u32,
                        })
                    } else {
                        None
                    }
                }
            }),
    {
        let ctrl = modifiers & 0x00C0 != 0;
        let alt = modifiers & 0x0300 != 0;
        if ctrl && alt && scancode == 10 && is_down {
            self.grab_pending = true;
            return None;
        }
        if ctrl && alt && scancode == 41 && is_down {
            self.release_pending = true;
            return None;
        }
        if self.ownership != InputOwnership::RemoteControlGrabbed {
            return None;
        }
        Some(KeyEventOut { hid_usage: sdl_scancode_to_hid(scancode), logical_keysym: keysym, is_down, modifiers: modifiers as u32 })
    }

    /// Take the next sequence number and encode an event, when a socket is
    /// available.
    fn next_packet(&mut self, ty: u8, x: i32, y: i32, button: u8, dx: i16, dy: i16) -> (p: Option<[u8; 28]>)
        ensures
            final(self).ownership == old(self).ownership,
            final(self).socket_ready == old(self).socket_ready,
            final(self).rotated == old(self).rotated,
            old(self).socket_ready ==> {
                let s = (if old(self).seq == u32::MAX { 0 } else { old(self).seq + 1 }) as u32;
                &&& final(self).seq == s
                &&& p matches Some(b) && is_input_packet(b@, s, ty, x, y, button, dx, dy)
            },
            !old(self).socket_ready ==> p is None && final(self).seq == old(self).seq,
    {
        if !self.socket_ready {
            return None;
        }
        self.seq = if self.seq == u32::MAX { 0 } else { self.seq + 1 };
        Some(encode_input_event(self.seq, ty, x, y, button, dx, dy))
    }

    /// A mouse move at stream coordinates `(sx, sy)`: forwarded only while
    /// grabbed.
    pub fn send_mouse_move(&mut self, sx: i32, sy: i32) -> (p: Option<[u8; 28]>)
        ensures
            forwarded(*old(self), *final(self), p, EVENT_MOUSE_MOVE, sx, sy, 0, 0, 0),
    {
        if self.ownership != InputOwnership::RemoteControlGrabbed {
            return None;
        }
        self.next_packet(EVENT_MOUSE_MOVE, sx, sy, 0, 0, 0)
    }

    /// A button press at stream coordinates: forwarded only while grabbed.
    pub fn send_mouse_down(&mut self, sx: i32, sy: i32, button: u8) -> (p: Option<[u8; 28]>)
        ensures
            forwarded(*old(self), *final(self), p, EVENT_MOUSE_DOWN, sx, sy, button, 0, 0),
    {
        if self.ownership != InputOwnership::RemoteControlGrabbed {
            return None;
        }
        self.next_packet(EVENT_MOUSE_DOWN, sx, sy, button, 0, 0)
    }

    /// A button release at stream coordinates: forwarded only while grabbed.
    pub fn send_mouse_up(&mut self, sx: i32, sy: i32, button: u8) -> (p: Option<[u8; 28]>)
        ensures
            forwarded(*old(self), *final(self), p, EVENT_MOUSE_UP, sx, sy, button, 0, 0),
    {
        if self.ownership != InputOwnership::RemoteControlGrabbed {
            return None;
        }
        self.next_packet(EVENT_MOUSE_UP, sx, sy, button, 0, 0)
    }

    /// A scroll: forwarded only while grabbed; with a rotated canvas the
    /// axes swap, the vertical delta negated.
    pub fn send_scroll(&mut self, dx: i16, dy: i16) -> (p: Option<[u8; 28]>)
        requires
            old(self).rotated && old(self).ownership == InputOwnership::RemoteControlGrabbed ==> dy != i16::MIN,
        ensures
            if old(self).rotated {
                forwarded(*old(self), *final(self), p, EVENT_SCROLL, 0, 0, 0, (-dy) as i16, dx)
            } else {
                forwarded(*old(self), *final(self), p, EVENT_SCROLL, 0, 0, 0, dx, dy)
            },
    {
        if self.ownership != InputOwnership::RemoteControlGrabbed {
            return None;
        }
        if self.rotated {
            self.next_packet(EVENT_SCROLL, 0, 0, 0, -dy, dx)
        } else {
            self.next_packet(EVENT_SCROLL, 0, 0, 0, dx, dy)
        }
    }

    /// Local input now drives the host.
    pub fn grab(&mut self)
        ensures
            final(self).ownership == InputOwnership::RemoteControlGrabbed,
            final(self).seq == old(self).seq,
            final(self).socket_ready == old(self).socket_ready,
    {
        self.ownership = InputOwnership::RemoteControlGrabbed;
    }

    /// Local input is no longer forwarded.
    pub fn release(&mut self)
        ensures
            final(self).ownership == InputOwnership::RemoteControlReleased,
            final(self).seq == old(self).seq,
            final(self).socket_ready == old(self).socket_ready,
    {
        self.ownership = InputOwnership::RemoteControlReleased;
    }
}

/// An event is sent (with the next sequence number) exactly when input is
/// grabbed and a socket is available; otherwise nothing changes.
pub open spec fn forwarded(
    before: InputCapture,
    after: InputCapture,
    p: Option<[u8; 28]>,
    ty: u8,
    x: i32,
    y: i32,
    button: u8,
    dx: i16,
    dy: i16,
) -> bool {
    &&& after.ownership == before.ownership
    &&& after.socket_ready == before.socket_ready
    &&& if before.ownership == InputOwnership::RemoteControlGrabbed && before.socket_ready {
        let s = (if before.seq == u32::MAX { 0 } else { before.seq + 1 }) as u32;
        &&& after.seq == s
        &&& p matches Some(b) && is_input_packet(b@, s, ty, x, y, button, dx, dy)
    } else {
        p is None && after.seq == before.seq
    }
}

} // verus!
