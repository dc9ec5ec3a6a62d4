use vqa40x::descriptors::{
    analyzer_endpoints, build_descriptors, build_strings, Endpoint, XFER_BULK, XFER_INTERRUPT,
};
use vqa40x::runner::{handle_events, pump_map, pump_request, select_udc, Ep0Action, UdcChoice};

#[test]
fn analyzer_blob_is_well_formed() {
    let eps = analyzer_endpoints();
    let blob = build_descriptors((0xff, 0, 0), &[], &eps);

    // Header: magic, length == blob length, flags = FS|HS.
    assert_eq!(u32::from_le_bytes(blob[0..4].try_into().unwrap()), 2);
    assert_eq!(
        u32::from_le_bytes(blob[4..8].try_into().unwrap()) as usize,
        blob.len()
    );
    assert_eq!(u32::from_le_bytes(blob[8..12].try_into().unwrap()), 3);

    // Counts: 1 interface + 4 endpoints per speed.
    assert_eq!(u32::from_le_bytes(blob[12..16].try_into().unwrap()), 5);
    assert_eq!(u32::from_le_bytes(blob[16..20].try_into().unwrap()), 5);

    // Two speeds x (9-byte interface + 4 x 7-byte endpoint) = 2 x 37.
    assert_eq!(blob.len(), 20 + 2 * (9 + 4 * 7));

    // First interface descriptor, vendor class, 4 endpoints.
    assert_eq!(&blob[20..24], &[9, 4, 0, 0]);
    assert_eq!(blob[24], 4);
    assert_eq!(blob[25], 0xff);

    // FS bulk endpoints carry max packet 64; HS carries 512.
    let fs_ep0 = &blob[29..36];
    assert_eq!(fs_ep0[2], 0x01);
    assert_eq!(u16::from_le_bytes([fs_ep0[4], fs_ep0[5]]), 64);
    let hs_iface = 20 + (9 + 4 * 7);
    let hs_ep0 = &blob[hs_iface + 9..hs_iface + 16];
    assert_eq!(u16::from_le_bytes([hs_ep0[4], hs_ep0[5]]), 512);
}

#[test]
fn strings_blob_is_16_bytes() {
    assert_eq!(build_strings().len(), 16);
}

#[test]
fn strings_blob_is_empty() {
    let expected = [2, 0, 0, 0, 16, 0, 0, 0, 0, 0, 0, 0, 0, 0, 0, 0];
    assert_eq!(build_strings(), expected);
}

#[test]
fn class_descriptors_are_counted() {
    let e = Endpoint::interrupt(0x81, 1);
    assert_eq!((e.attributes, e.fs_max_packet, e.hs_max_packet), (XFER_INTERRUPT, 64, 64));
    assert_eq!(Endpoint::bulk(1).attributes, XFER_BULK);
    let hid = [9, 0x21, 0x11, 1, 0, 1, 0x22, 68, 0];
    let blob = build_descriptors((3, 0, 0), &hid, &[e]);
    assert_eq!(blob[12..20], [3, 0, 0, 0, 3, 0, 0, 0]);
    assert_eq!(blob[29..38], hid);
    assert_eq!(blob[38..45], [7, 5, 0x81, 3, 64, 0, 1]);
    assert_eq!(blob.len(), 20 + 2 * (9 + 9 + 7));
}

fn event(kind: u8, bm: u8) -> Vec<u8> {
    let mut e = vec![0u8; 12];
    e[0] = bm;
    e[8] = kind;
    e
}

#[test]
fn pumps_start_once() {
    let mut started = false;
    let mut buf = event(0, 0);
    buf.extend(event(2, 0));
    buf.extend(event(5, 0));
    buf.extend(event(2, 0));
    buf.extend([1, 2, 3]);
    let actions = handle_events(&buf, &mut started);
    assert!(started);
    assert_eq!(
        actions,
        vec![Ep0Action::Note, Ep0Action::StartPumps, Ep0Action::Note, Ep0Action::Note]
    );
    assert_eq!(handle_events(&event(2, 0), &mut started), vec![Ep0Action::Note]);
    assert_eq!(
        handle_events(&event(4, 0xA1), &mut started),
        vec![Ep0Action::Stall { bm_request_type: 0xA1 }]
    );
    assert_eq!(
        handle_events(&event(9, 0), &mut started),
        vec![Ep0Action::Unknown { event_type: 9 }]
    );
    for kind in [1, 3, 6] {
        assert_eq!(handle_events(&event(kind, 0), &mut started), vec![Ep0Action::Note]);
    }
}

#[test]
fn pump_table() {
    let map: Vec<(&str, u8, bool)> = pump_map()
        .iter()
        .map(|p| (p.file, p.address, p.is_in))
        .collect();
    assert_eq!(
        map,
        vec![("ep1", 0x01, false), ("ep2", 0x81, true), ("ep3", 0x02, false), ("ep4", 0x82, true)]
    );
    assert_eq!(pump_request(0x81), 4);
    assert_eq!(pump_request(0x82), 16 * 1024);
}

#[test]
fn controllers() {
    let one = ["3f980000.usb".to_string()];
    let two = ["a".to_string(), "b".to_string()];
    assert!(matches!(select_udc(None, &one), UdcChoice::Bind(u) if u == "3f980000.usb"));
    assert!(matches!(select_udc(Some("x".to_string()), &two), UdcChoice::Bind(u) if u == "x"));
    assert!(matches!(select_udc(None, &two), UdcChoice::Several));
    assert!(matches!(select_udc(None, &[]), UdcChoice::Absent));
}
