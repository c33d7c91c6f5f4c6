use scrap_net::probe::{info_request, parse_server_info, ProbeError, ServerFlags};

fn field(text: &[u8], width: usize) -> Vec<u8> {
    let mut v = text.to_vec();
    v.resize(width, 0);
    v
}

fn reply() -> Vec<u8> {
    let mut r = vec![0xba, 0xce, 1, 6];
    r.extend_from_slice(&28086u16.to_le_bytes());
    r.extend_from_slice(&8u16.to_le_bytes());
    r.extend_from_slice(&3u16.to_le_bytes());
    r.push(0b0000_0111);
    r.extend(field(b"My Server", 0x20));
    r.extend(field(b"DeathMatch", 0x10));
    r.extend(field(b"Levels/Outskirts", 0x20));
    r.push(0);
    r
}

#[test]
fn info_request_bytes() {
    assert_eq!(info_request(), vec![0x7f, 0x01, 0x00, 0x00, 0x07]);
}

#[test]
fn server_info_fields() {
    let data = reply();
    assert_eq!(data.len(), 92);
    let s = parse_server_info(&data).unwrap();
    assert_eq!((s.version_major, s.version_minor), (1, 6));
    assert_eq!(s.port, 28086);
    assert_eq!(s.max_players, 8);
    assert_eq!(s.cur_players, 3);
    assert!(s.flags.dedicated);
    assert!(s.flags.force_vehicle);
    assert_eq!(s.flags.rest, 1);
    assert_eq!(s.name, "My Server");
    assert_eq!(s.mode, "DeathMatch");
    assert_eq!(s.map, "Levels/Outskirts");
}

#[test]
fn trailing_byte_is_leftover() {
    let mut data = reply();
    data.push(0);
    assert_eq!(parse_server_info(&data).unwrap_err(), ProbeError::Leftover);
}

#[test]
fn short_reply_is_truncated() {
    let data = reply();
    assert_eq!(parse_server_info(&data[..91]).unwrap_err(), ProbeError::Truncated);
    assert_eq!(parse_server_info(&data[..2]).unwrap_err(), ProbeError::Truncated);
}

#[test]
fn wrong_magic_is_refused() {
    let mut data = reply();
    data[1] = 0xcf;
    assert_eq!(parse_server_info(&data).unwrap_err(), ProbeError::BadMagic);
    assert_eq!(parse_server_info(&[0xba]).unwrap_err(), ProbeError::BadMagic);
    assert_eq!(parse_server_info(&[]).unwrap_err(), ProbeError::BadMagic);
}

#[test]
fn text_filling_its_field_is_kept_whole() {
    let mut data = reply();
    for b in &mut data[11..43] {
        *b = b'x';
    }
    let s = parse_server_info(&data).unwrap();
    assert_eq!(s.name, "x".repeat(32));
    assert_eq!(s.mode, "DeathMatch");
}

#[test]
fn invalid_utf8_is_replaced() {
    let mut data = reply();
    data[11] = 0xff;
    data[12] = b'A';
    data[13] = 0;
    let s = parse_server_info(&data).unwrap();
    assert_eq!(s.name, "\u{fffd}A");
}

#[test]
fn flags_from_status_byte() {
    let f = ServerFlags::from(0b1111_1101u8);
    assert!(f.dedicated);
    assert!(!f.force_vehicle);
    assert_eq!(f.rest, 0b11_1111);
    let g = ServerFlags::from(0b10u8);
    assert!(!g.dedicated);
    assert!(g.force_vehicle);
    assert_eq!(g.rest, 0);
}
