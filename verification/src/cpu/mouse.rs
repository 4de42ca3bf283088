//! The PS/2 mouse: packets of three bytes, decoded into pending motion in
//! screen coordinates and the state of the buttons.

use vstd::prelude::*;

verus! {

/// The mouse.
pub struct Mouse {
    /// Pending motion to the right.
    pub mx: i32,
    /// Pending motion downwards.
    pub my: i32,
    /// Bit 0 left, bit 1 right, bit 2 middle.
    pub buttons: u8,
    pub packets: u64,
    pub resync: u64,
    pub online: bool,
    /// Bytes of the current packet so far.
    pub idx: u8,
    pub b0: u8,
    pub b1: u8,
}

impl Mouse {
    pub fn new() -> (m: Mouse)
        ensures
            m == (Mouse { mx: 0, my: 0, buttons: 0, packets: 0, resync: 0, online: false, idx: 0, b0: 0, b1: 0 }),
    {
        Mouse { mx: 0, my: 0, buttons: 0, packets: 0, resync: 0, online: false, idx: 0, b0: 0, b1: 0 }
    }
}

/// The controller's configuration with the mouse interrupt on and its clock
/// line open.
pub fn config_byte(cfg: u8) -> (r: u8)
    ensures
        r == (cfg | 0x02) & !0x20u8,
{
    (cfg | 0x02) & !0x20u8
}

/// The outcome of the set-up: `cfg` is the controller's configuration, if it
/// came in time; `defaults` and `reporting` say whether the mouse acknowledged
/// the two commands. The mouse is online only if all went well.
pub fn init(m: &mut Mouse, cfg: Option<u8>, defaults: bool, reporting: bool) -> (r: bool)
    ensures
        r == (cfg is Some && defaults && reporting),
        *final(m) == (Mouse { online: old(m).online || r, ..*old(m) }),
{
    if cfg.is_none() {
        return false;
    }
    if !defaults || !reporting {
        return false;
    }
    m.online = true;
    true
}

/// A motion byte with its sign.
pub open spec fn signed_motion(b: u8, negative: bool) -> i32 {
    if negative {
        (b - 256) as i32
    } else {
        b as i32
    }
}

/// What a byte of the packet stream does.
pub open spec fn on_byte(m: Mouse, b: u8) -> Mouse {
    if b == 0xFE {
        // the device asks for a repeat: the stream is broken
        Mouse { resync: m.resync.wrapping_add(1), idx: 0, ..m }
    } else if m.idx == 0 {
        // the first byte carries the sync bit and no overflow bits
        if b & 0x08 == 0 || b & 0xC0 != 0 {
            m
        } else {
            Mouse { b0: b, idx: 1, ..m }
        }
    } else if m.idx == 1 {
        Mouse { b1: b, idx: 2, ..m }
    } else {
        Mouse {
            idx: 0,
            mx: m.mx.wrapping_add(signed_motion(m.b1, m.b0 & 0x10 != 0)),
            // the device counts upwards, the screen downwards
            my: m.my.wrapping_add((-signed_motion(b, m.b0 & 0x20 != 0)) as i32),
            buttons: m.b0 & 0x07,
            packets: m.packets.wrapping_add(1),
            ..m
        }
    }
}

/// The mouse's interrupt: takes one byte of the packet stream in.
pub fn on_irq(m: &mut Mouse, b: u8)
    ensures
        *final(m) == on_byte(*old(m), b),
{
    if b == 0xFE {
        m.resync = m.resync.wrapping_add(1);
        m.idx = 0;
        return;
    }
    if m.idx == 0 {
        if b & 0x08 == 0 || b & 0xC0 != 0 {
            return;
        }
        m.b0 = b;
        m.idx = 1;
    } else if m.idx == 1 {
        m.b1 = b;
        m.idx = 2;
    } else {
        m.idx = 0;
        let mut dx: i32 = m.b1 as i32;
        let mut dy: i32 = b as i32;
        if m.b0 & 0x10 != 0 {
            dx = dx - 256;
        }
        if m.b0 & 0x20 != 0 {
            dy = dy - 256;
        }
        m.mx = m.mx.wrapping_add(dx);
        m.my = m.my.wrapping_add(-dy);
        m.buttons = m.b0 & 0x07;
        m.packets = m.packets.wrapping_add(1);
    }
}

/// Takes the pending motion, and looks at the buttons.
pub fn take(m: &mut Mouse) -> (r: (i32, i32, u8))
    ensures
        r == (old(m).mx, old(m).my, old(m).buttons),
        *final(m) == (Mouse { mx: 0, my: 0, ..*old(m) }),
{
    let r = (m.mx, m.my, m.buttons);
    m.mx = 0;
    m.my = 0;
    r
}

pub fn packets(m: &Mouse) -> (r: u64)
    ensures
        r == m.packets,
{
    m.packets
}

pub fn resyncs(m: &Mouse) -> (r: u64)
    ensures
        r == m.resync,
{
    m.resync
}

pub fn online(m: &Mouse) -> (r: bool)
    ensures
        r == m.online,
{
    m.online
}

pub fn buttons(m: &Mouse) -> (r: u8)
    ensures
        r == m.buttons,
{
    m.buttons
}

/// A whole packet adds its motion once, y inverted, and sets the buttons.
pub proof fn law_packet(m: Mouse, b0: u8, b1: u8, b2: u8)
    requires
        m.idx == 0,
        b0 & 0x08 != 0,
        b0 & 0xC0 == 0,
        b0 != 0xFE,
        b1 != 0xFE,
        b2 != 0xFE,
    ensures
        ({
            let w = on_byte(on_byte(on_byte(m, b0), b1), b2);
            &&& w.idx == 0
            &&& w.mx == m.mx.wrapping_add(signed_motion(b1, b0 & 0x10 != 0))
            &&& w.my == m.my.wrapping_add((-signed_motion(b2, b0 & 0x20 != 0)) as i32)
            &&& w.buttons == b0 & 0x07
            &&& w.packets == m.packets.wrapping_add(1)
        }),
{
}

} // verus!
