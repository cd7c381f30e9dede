use diag_terminal::{usb_settings, BlinkConfig, BoardInfo, USB_PRODUCT_ID, USB_VENDOR_ID};

#[test]
fn rp2040_identity() {
    let info = BoardInfo::rp2040();
    assert_eq!(info.name, "RP2040");
    assert_eq!(info.serial, "RP2040-MLSVRTS");
    assert_eq!(info.manufacturer, "Broadcom");
}

#[test]
fn usb_settings_of_board() {
    let info = BoardInfo { name: "Board", serial: "S-1", manufacturer: "Maker" };
    let s = usb_settings(&info);
    assert_eq!((s.vendor_id, s.product_id), (0xc0de, 0xcafe));
    assert_eq!((USB_VENDOR_ID, USB_PRODUCT_ID), (0xc0de, 0xcafe));
    assert_eq!((s.manufacturer, s.product, s.serial_number), ("Maker", "Board", "S-1"));
    assert_eq!(s.max_power, 100);
    assert_eq!(s.max_packet_size_0, 64);
    assert_eq!((s.device_class, s.device_sub_class, s.device_protocol), (0xef, 0x02, 0x01));
    assert!(s.composite_with_iads);
}

#[test]
fn blink_phases_alternate() {
    let cfg = BlinkConfig::new(500, 3000);
    assert_eq!((cfg.on_time, cfg.off_time), (500, 3000));
    let p = cfg.first_phase();
    assert!(p.lit);
    assert_eq!(p.hold_ms, 500);
    let q = cfg.next_phase(p);
    assert!(!q.lit);
    assert_eq!(q.hold_ms, 3000);
    let r = cfg.next_phase(q);
    assert_eq!(r, p);
}
