use vstd::prelude::*;
use crate::button::{all_wf, lemma_mask_high_bits_zero, mask_of, ButtonState};

verus! {

/// USB vendor ID the device enumerates with.
pub const USB_VID: u16 = 0x1CCF;

/// USB product ID the device enumerates with.
pub const USB_PID: u16 = 0x8048;

/// Length of the input report, in bytes.
pub const REPORT_LEN: usize = 3;

/// The 3-byte HID input report sent to the host: two button bytes and the
/// turntable axis.
pub struct KonamiIIDXReport {
    pub buttons: u8,
    pub buttons_menu: u8,
    pub tt: u8,
}

/// Assemble the HID report from the debounced button mask and the latest
/// turntable axis value. Byte 0 carries mask bits 0..8, byte 1 carries mask
/// bits 8..16 (of which only the low nibble can ever be set), byte 2 the axis.
pub fn make_report(mask: u16, tt: u8) -> (r: KonamiIIDXReport)
    ensures
        r.buttons == mask & 0xFF,
        r.buttons_menu == (mask >> 8) & 0xFF,
        r.tt == tt,
{
    proof {
        assert(mask & 0xFF <= 0xFF) by (bit_vector);
        assert((mask & 0xFF00) >> 8 <= 0xFF) by (bit_vector);
        assert((mask & 0xFF00) >> 8 == (mask >> 8) & 0xFF) by (bit_vector);
    }
    KonamiIIDXReport {
        buttons: (mask & 0xFF) as u8,
        buttons_menu: ((mask & 0xFF00) >> 8) as u8,
        tt,
    }
}

impl KonamiIIDXReport {
    /// The three bytes of the report as they cross the wire: buttons, menu
    /// buttons, turntable.
    pub fn as_bytes(&self) -> (v: Vec<u8>)
        ensures
            v@ =~= seq![self.buttons, self.buttons_menu, self.tt],
    {
        let mut v: Vec<u8> = Vec::new();
        v.push(self.buttons);
        v.push(self.buttons_menu);
        v.push(self.tt);
        v
    }
}

/// The turntable value the reporter uses this round: whatever the encoder
/// mailbox held if it held anything, else the previous reading.
pub fn next_encoder_reading(prev: u8, taken: Option<u8>) -> (r: u8)
    ensures
        r == match taken {
            None => prev,
            Some(x) => x,
        },
{
    match taken {
        None => prev,
        Some(x) => x,
    }
}

/// A mask whose top nibble is clear yields a menu byte below 16.
pub proof fn lemma_menu_nibble(mask: u16)
    requires
        mask & 0xF000 == 0,
    ensures
        (mask >> 8) & 0xFF < 16,
{
    assert(mask & 0xF000 == 0 ==> (mask >> 8) & 0xFF < 16) by (bit_vector);
}

/// The menu byte of a report built from any bank of keys at their assigned
/// positions always has its upper nibble clear: mask bits 12..16 are never
/// set, so the menu byte is below 16.
pub proof fn lemma_report_menu_nibble(s: Seq<ButtonState>)
    requires
        all_wf(s),
    ensures
        (mask_of(s) >> 8) & 0xFF < 16,
{
    lemma_mask_high_bits_zero(s);
    let m = mask_of(s);
    assert(m & 0xF080 == 0 ==> m & 0xF000 == 0) by (bit_vector);
    lemma_menu_nibble(m);
}

/// Host-side model of the USB device handler's state: whether the device has
/// reached the configured state on the bus.
pub struct MyDeviceHandler {
    pub configured: bool,
}

impl MyDeviceHandler {
    /// A handler starts out unconfigured.
    pub fn new() -> (h: MyDeviceHandler)
        ensures
            !h.configured,
    {
        MyDeviceHandler { configured: false }
    }

    /// Enabling or disabling the device leaves it unconfigured.
    pub fn enabled(&mut self, _enabled: bool)
        ensures
            !final(self).configured,
    {
        self.configured = false;
    }

    /// A bus reset leaves the device unconfigured.
    pub fn reset(&mut self)
        ensures
            !final(self).configured,
    {
        self.configured = false;
    }

    /// Receiving an address leaves the device not yet configured.
    pub fn addressed(&mut self, _addr: u8)
        ensures
            !final(self).configured,
    {
        self.configured = false;
    }

    /// The host configuring (or deconfiguring) the device sets the state it
    /// reports.
    pub fn configured(&mut self, configured: bool)
        ensures
            final(self).configured == configured,
    {
        self.configured = configured;
    }
}

} // verus!
