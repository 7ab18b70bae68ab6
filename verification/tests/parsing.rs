use btmenu::parse::{available_devices, devices};

#[test]
fn known_single_line() {
    let r = devices("Device AA:BB:CC:DD:EE:FF My Phone\n");
    assert_eq!(r.len(), 1);
    assert_eq!(r[0].alias, "My Phone");
    assert_eq!(r[0].mac_address, "AA:BB:CC:DD:EE:FF");
}

#[test]
fn scan_single_line() {
    let r = available_devices("Scanning ...\nAA:BB:CC:DD:EE:FF Unknown Speaker\n");
    assert_eq!(r.len(), 1);
    assert_eq!(r[0].alias, "Unknown Speaker");
    assert_eq!(r[0].mac_address, "AA:BB:CC:DD:EE:FF");
}

#[test]
fn known_keeps_line_order() {
    let r = devices("Device 11:11 First\nDevice 22:22 Second\nDevice 33:33 Third\n");
    assert_eq!(r.len(), 3);
    assert_eq!(r[0].alias, "First");
    assert_eq!(r[1].alias, "Second");
    assert_eq!(r[2].alias, "Third");
    assert_eq!(r[0].mac_address, "11:11");
    assert_eq!(r[1].mac_address, "22:22");
    assert_eq!(r[2].mac_address, "33:33");
}

#[test]
fn known_alias_keeps_inner_whitespace() {
    let r = devices("Device AA:BB JBL Flip 5 Speaker\n");
    assert_eq!(r.len(), 1);
    assert_eq!(r[0].alias, "JBL Flip 5 Speaker");
}

#[test]
fn known_blank_lines_skipped() {
    let r = devices("\n\nDevice AA:BB Phone\n\n   \n");
    assert_eq!(r.len(), 1);
    assert_eq!(r[0].alias, "Phone");
}

#[test]
fn known_short_lines_skipped() {
    let r = devices("banner\nDevice AA:BB Phone\nDevice CC:DD\n");
    assert_eq!(r.len(), 1);
    assert_eq!(r[0].mac_address, "AA:BB");
}

#[test]
fn known_double_space_drops_record() {
    // Two adjacent separators make the address field empty; a record with an
    // empty address is never constructed.
    let r = devices("Device  AA:BB Phone\n");
    assert_eq!(r.len(), 0);
}

#[test]
fn known_line_is_trimmed() {
    let r = devices("   Device AA:BB Phone   \n");
    assert_eq!(r.len(), 1);
    assert_eq!(r[0].alias, "Phone");
    assert_eq!(r[0].mac_address, "AA:BB");
}

#[test]
fn known_no_trailing_newline() {
    let r = devices("Device AA:BB Phone");
    assert_eq!(r.len(), 1);
    assert_eq!(r[0].alias, "Phone");
}

#[test]
fn known_crlf_line_ending() {
    let r = devices("Device AA:BB Phone\r\nDevice CC:DD Tablet\r\n");
    assert_eq!(r.len(), 2);
    assert_eq!(r[0].alias, "Phone");
    assert_eq!(r[1].alias, "Tablet");
}

#[test]
fn known_duplicates_kept() {
    let r = devices("Device AA:BB Phone\nDevice AA:BB Phone\n");
    assert_eq!(r.len(), 2);
    assert_eq!(r[0].mac_address, r[1].mac_address);
}

#[test]
fn known_empty_input() {
    assert_eq!(devices("").len(), 0);
}

#[test]
fn scan_header_only() {
    assert_eq!(available_devices("Scanning ...\n").len(), 0);
}

#[test]
fn scan_empty_input() {
    assert_eq!(available_devices("").len(), 0);
}

#[test]
fn scan_header_always_dropped() {
    // The first line is discarded even when it looks like a device line.
    let r = available_devices("AA:BB Phone\nCC:DD Tablet\n");
    assert_eq!(r.len(), 1);
    assert_eq!(r[0].mac_address, "CC:DD");
    assert_eq!(r[0].alias, "Tablet");
}

#[test]
fn scan_single_field_line_skipped() {
    let r = available_devices("Scanning ...\nAA:BB\nCC:DD Tablet\n");
    assert_eq!(r.len(), 1);
    assert_eq!(r[0].alias, "Tablet");
}

#[test]
fn scan_alias_keeps_inner_whitespace() {
    let r = available_devices("Scanning ...\nAA:BB Living Room TV\n");
    assert_eq!(r.len(), 1);
    assert_eq!(r[0].alias, "Living Room TV");
}

#[test]
fn discovery_parse_is_idempotent() {
    let text = "Device 11:11 First\nnoise\nDevice 22:22 Second Half\n";
    let a = devices(text);
    let b = devices(text);
    assert_eq!(a.len(), b.len());
    for (x, y) in a.iter().zip(b.iter()) {
        assert_eq!(x.alias, y.alias);
        assert_eq!(x.mac_address, y.mac_address);
    }
    let scan_text = "Scanning ...\n11:11 First\n22:22 Second\n";
    let c = available_devices(scan_text);
    let d = available_devices(scan_text);
    assert_eq!(c.len(), d.len());
    for (x, y) in c.iter().zip(d.iter()) {
        assert_eq!(x.alias, y.alias);
        assert_eq!(x.mac_address, y.mac_address);
    }
}
