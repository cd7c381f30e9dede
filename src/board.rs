//! Board description, USB device settings and the status LED's rhythm.
use vstd::prelude::*;

verus! {

/// Identification strings of a board.
pub struct BoardInfo {
    /// The friendly device name
    pub name: &'static str,
    /// The serial number of this specific device
    pub serial: &'static str,
    /// The device manufacturer
    pub manufacturer: &'static str,
}

impl BoardInfo {
    /// The identification of the RP2040 board.
    pub fn rp2040() -> (r: BoardInfo)
        ensures
            r.name@ == "RP2040"@,
            r.serial@ == "RP2040-MLSVRTS"@,
            r.manufacturer@ == "Broadcom"@,
    {
        BoardInfo { name: "RP2040", serial: "RP2040-MLSVRTS", manufacturer: "Broadcom" }
    }
}

/// USB vendor id of the device.
pub const USB_VENDOR_ID: u16 = 0xc0de;

/// USB product id of the device.
pub const USB_PRODUCT_ID: u16 = 0xcafe;

/// Largest packet of the serial class, and of the control endpoint.
pub const USB_MAX_PACKET_SIZE: u16 = 64;

/// Settings of the USB device that carries the terminal, as plain values.
pub struct UsbSettings {
    pub vendor_id: u16,
    pub product_id: u16,
    pub manufacturer: &'static str,
    pub product: &'static str,
    pub serial_number: &'static str,
    /// Current drawn from the bus, in mA.
    pub max_power: u16,
    pub max_packet_size_0: u8,
    pub device_class: u8,
    pub device_sub_class: u8,
    pub device_protocol: u8,
    pub composite_with_iads: bool,
}

/// The device settings for a board: its strings, the fixed ids, and the
/// miscellaneous class with interface association descriptors, which some
/// hosts need to bind a serial class.
pub fn usb_settings(info: &BoardInfo) -> (r: UsbSettings)
    ensures
        r.vendor_id == USB_VENDOR_ID,
        r.product_id == USB_PRODUCT_ID,
        r.manufacturer@ == info.manufacturer@,
        r.product@ == info.name@,
        r.serial_number@ == info.serial@,
        r.max_power == 100,
        r.max_packet_size_0 == USB_MAX_PACKET_SIZE,
        r.device_class == 0xef,
        r.device_sub_class == 0x02,
        r.device_protocol == 0x01,
        r.composite_with_iads,
{
    UsbSettings {
        vendor_id: USB_VENDOR_ID,
        product_id: USB_PRODUCT_ID,
        manufacturer: info.manufacturer,
        product: info.name,
        serial_number: info.serial,
        max_power: 100,
        max_packet_size_0: 64,
        device_class: 0xef,
        device_sub_class: 0x02,
        device_protocol: 0x01,
        composite_with_iads: true,
    }
}

/// How long the status LED stays lit and dark, in milliseconds.
#[derive(Clone, Copy, Debug, PartialEq, Eq, Structural)]
pub struct BlinkConfig {
    pub on_time: u64,
    pub off_time: u64,
}

/// One phase of the blink loop: the level to drive and how long to hold it.
#[derive(Clone, Copy, Debug, PartialEq, Eq, Structural)]
pub struct BlinkPhase {
    pub lit: bool,
    pub hold_ms: u64,
}

impl BlinkConfig {
    pub fn new(on_time: u64, off_time: u64) -> (r: Self)
        ensures
            r.on_time == on_time,
            r.off_time == off_time,
    {
        Self { on_time, off_time }
    }

    /// The phase the loop starts with: lit, for the on time.
    pub fn first_phase(&self) -> (r: BlinkPhase)
        ensures
            r.lit,
            r.hold_ms == self.on_time,
    {
        BlinkPhase { lit: true, hold_ms: self.on_time }
    }

    /// The phase after `current`: the other level, held for its time.
    pub fn next_phase(&self, current: BlinkPhase) -> (r: BlinkPhase)
        ensures
            r.lit == !current.lit,
            r.hold_ms == if r.lit {
                self.on_time
            } else {
                self.off_time
            },
    {
        if current.lit {
            BlinkPhase { lit: false, hold_ms: self.off_time }
        } else {
            BlinkPhase { lit: true, hold_ms: self.on_time }
        }
    }
}

} // verus!
