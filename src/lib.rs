//! Diagnostic terminal transport: framing of log records and heartbeats
//! for a packet-oriented serial link, and the cycle that drives it.

pub mod board;
pub mod frame;
pub mod terminal;

pub use board::{
    usb_settings, BlinkConfig, BlinkPhase, BoardInfo, UsbSettings, USB_MAX_PACKET_SIZE,
    USB_PRODUCT_ID, USB_VENDOR_ID,
};
pub use frame::{
    encode_header, frame_packets, split_payload, CommKind, EncodingOverflow, MessageHeader,
    DELIMITER, DIGIT_SPAN, HEADER_LEN, LENGTH_LIMIT, TERMINATOR,
};
pub use terminal::{
    heartbeat_message, Action, CycleOutcome, Event, Stage, Terminal, TransportError,
};
