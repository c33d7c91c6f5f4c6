use scrap_net::hex_ii::{hex_ii_line, is_blank, offset_digits, render_line, HexII};

#[test]
fn byte_classes() {
    assert_eq!(HexII::from(0u8), HexII::Null);
    assert_eq!(HexII::from(0xffu8), HexII::Full);
    assert_eq!(HexII::from(b'A'), HexII::Ascii(b'A'));
    assert_eq!(HexII::from(b' '), HexII::Byte(0x20));
    assert_eq!(HexII::from(0x7fu8), HexII::Byte(0x7f));
}

#[test]
fn cell_texts() {
    assert_eq!(HexII::Ascii(b'z').render(), b".z".to_vec());
    assert_eq!(HexII::Byte(0xab).render(), b"ab".to_vec());
    assert_eq!(HexII::Byte(0x05).render(), b"05".to_vec());
    assert_eq!(HexII::Null.render(), b"  ".to_vec());
    assert_eq!(HexII::Full.render(), b"##".to_vec());
    assert_eq!(HexII::Eof.render(), b" ]".to_vec());
}

#[test]
fn short_line_ends_with_marker() {
    let cells = hex_ii_line(&[b'h', 0, 0xff, 0x10]);
    assert_eq!(cells.len(), 16);
    assert_eq!(cells[4], HexII::Eof);
    assert!(cells[5..].iter().all(|c| *c == HexII::Null));
    let text = String::from_utf8(render_line(&cells)).unwrap();
    assert!(text.starts_with(".h    ## 10  ]"));
    assert_eq!(text.len(), 16 * 2 + 15);
}

#[test]
fn zero_line_is_blank() {
    assert!(is_blank(&hex_ii_line(&[0u8; 16])));
    assert!(!is_blank(&hex_ii_line(&[0u8; 15])));
    assert!(!is_blank(&hex_ii_line(&[1u8; 16])));
}

#[test]
fn offset_column_width() {
    assert_eq!(offset_digits(0), 0);
    assert_eq!(offset_digits(1), 2);
    assert_eq!(offset_digits(255), 2);
    assert_eq!(offset_digits(256), 4);
    assert_eq!(offset_digits(u64::MAX), 16);
}
