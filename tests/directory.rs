use scrap_net::directory::{browse_request, parse_directory, PeerAddr};

#[test]
fn browse_requests_cover_all_windows() {
    assert_eq!(browse_request(0), b"Brw=0,32\0".to_vec());
    assert_eq!(browse_request(1), b"Brw=32,64\0".to_vec());
    assert_eq!(browse_request(7), b"Brw=224,256\0".to_vec());
}

#[test]
fn directory_stops_at_zero_record() {
    let mut reply = vec![0, 0, 0, 0, 0x7d];
    reply.extend_from_slice(&[1, 2, 3, 4, 0xe8, 0x03]);
    reply.extend_from_slice(&[5, 6, 7, 8, 0xd0, 0x07]);
    reply.extend_from_slice(&[0, 0, 0, 0, 0, 0]);
    reply.extend_from_slice(&[9, 9, 9, 9, 9, 9]);
    assert_eq!(
        parse_directory(&reply),
        Some(vec![
            PeerAddr { ip: [1, 2, 3, 4], port: 1000 },
            PeerAddr { ip: [5, 6, 7, 8], port: 2000 },
        ])
    );
}

#[test]
fn directory_without_marker_is_refused() {
    assert_eq!(parse_directory(&[0, 0, 0, 0, 0x7c, 1, 2, 3, 4, 5, 6]), None);
    assert_eq!(parse_directory(&[0, 0, 0]), None);
    assert_eq!(parse_directory(&[]), None);
}

#[test]
fn marked_directory_without_records_is_empty() {
    assert_eq!(parse_directory(&[0, 0, 0, 0, 0x7d]), Some(vec![]));
    assert_eq!(parse_directory(&[0, 0, 0, 0, 0x7d, 0, 0, 0, 0, 0, 0]), Some(vec![]));
}

#[test]
fn directory_until_end_of_buffer() {
    let mut reply = vec![0, 0, 0, 0, 0x7d];
    reply.extend_from_slice(&[10, 0, 0, 1, 0x88, 0x13]);
    reply.extend_from_slice(&[10, 0, 0, 2, 0x89, 0x13]);
    // a partial record at the end is not a record
    reply.extend_from_slice(&[10, 0, 0]);
    assert_eq!(
        parse_directory(&reply),
        Some(vec![
            PeerAddr { ip: [10, 0, 0, 1], port: 5000 },
            PeerAddr { ip: [10, 0, 0, 2], port: 5001 },
        ])
    );
}

#[test]
fn record_with_zero_port_is_kept() {
    let mut reply = vec![0, 0, 0, 0, 0x7d];
    reply.extend_from_slice(&[127, 0, 0, 1, 0, 0]);
    assert_eq!(parse_directory(&reply), Some(vec![PeerAddr { ip: [127, 0, 0, 1], port: 0 }]));
}
