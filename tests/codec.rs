use scrap_net::codec::{
    decrypt, encrypt, encrypt_with_nonce, pad, pad_copy, CodecError, Packet,
};

fn round_up16(n: usize) -> usize {
    (n + 15) / 16 * 16
}

#[test]
fn pad_copy_pads_to_multiple() {
    assert_eq!(pad_copy(&[1, 2, 3], 4), vec![1, 2, 3, 0]);
    assert_eq!(pad_copy(&[1, 2, 3, 4], 4), vec![1, 2, 3, 4]);
    assert_eq!(pad_copy(&[], 16), Vec::<u8>::new());
    assert_eq!(pad_copy(&[9; 17], 16).len(), 32);
}

#[test]
fn pad_in_place() {
    let mut v = vec![7u8; 13];
    pad(&mut v, 16);
    assert_eq!(v.len(), 16);
    assert_eq!(&v[..13], &[7u8; 13]);
    assert_eq!(&v[13..], &[0u8; 3]);
}

#[test]
fn round_trip_various_lengths() {
    for len in [0usize, 1, 5, 15, 16, 17, 63, 64, 65, 1000] {
        let payload: Vec<u8> = (0..len).map(|i| (i * 7 + 3) as u8).collect();
        let wire = encrypt(&payload);
        assert_eq!(decrypt(&wire), Ok(payload));
    }
}

#[test]
fn encrypting_twice_gives_different_frames() {
    let payload = b"hello relay".to_vec();
    let a = encrypt(&payload);
    let b = encrypt(&payload);
    assert_ne!(a, b);
    assert_eq!(decrypt(&a), Ok(payload.clone()));
    assert_eq!(decrypt(&b), Ok(payload));
}

#[test]
fn wire_length_formula() {
    for len in [0usize, 1, 15, 16, 17, 100] {
        let wire = encrypt(&vec![0xAB; len]);
        assert_eq!(wire.len(), round_up16(12) + round_up16(len) + 8 + 8 + 16);
    }
}

#[test]
fn frame_layout() {
    let nonce = [1u8, 2, 3, 4, 5, 6, 7, 8, 9, 10, 11, 12];
    let payload = vec![0u8; 20];
    let wire = encrypt_with_nonce(&nonce, &payload);
    assert_eq!(wire.len(), 16 + 32 + 16 + 16);
    assert_eq!(&wire[..12], &nonce);
    assert_eq!(&wire[12..16], &[0, 0, 0, 0]);
    // the ciphertext is not the plaintext
    assert_ne!(&wire[16..36], &payload[..]);
    assert_eq!(&wire[36..48], &[0u8; 12]);
    assert_eq!(&wire[48..56], &12u64.to_le_bytes());
    assert_eq!(&wire[56..64], &20u64.to_le_bytes());
    assert_eq!(decrypt(&wire), Ok(payload));
}

#[test]
fn same_nonce_same_frame() {
    let nonce = [42u8; 12];
    let a = encrypt_with_nonce(&nonce, b"abc");
    let b = encrypt_with_nonce(&nonce, b"abc");
    assert_eq!(a, b);
    let c = encrypt_with_nonce(&nonce, b"abd");
    assert_eq!(a.len(), 64);
    assert_eq!(a[16..18], c[16..18]);
    assert_ne!(a[18], c[18]);
    assert_ne!(a[48..], c[48..]);
}

#[test]
fn tag_and_key_depend_on_nonce() {
    let a = Packet::seal(&[0u8; 12], &[0u8; 32]);
    let b = Packet::seal(&[1u8; 12], &[0u8; 32]);
    assert_ne!(a.data, b.data);
    assert_ne!(a.get_tag(), b.get_tag());
    assert_eq!(a.get_tag().len(), 16);
    assert_eq!(a.decrypt(), Ok(vec![0u8; 32]));
}

#[test]
fn flipped_bits_are_refused() {
    let nonce = [9u8; 12];
    let payload: Vec<u8> = (0..32).collect();
    let wire = encrypt_with_nonce(&nonce, &payload);
    for i in 0..wire.len() {
        for bit in 0..8 {
            let mut w = wire.clone();
            w[i] ^= 1 << bit;
            assert!(decrypt(&w).is_err(), "byte {} bit {}", i, bit);
        }
    }
}

#[test]
fn flipped_tag_bit_is_unauthenticated() {
    let wire = encrypt(b"payload");
    for i in wire.len() - 16..wire.len() {
        let mut w = wire.clone();
        w[i] ^= 0x10;
        assert_eq!(decrypt(&w), Err(CodecError::Unauthenticated));
    }
}

#[test]
fn flipped_padding_bit_is_malformed() {
    let wire = encrypt(b"0123456789");
    assert_eq!(wire.len(), 16 + 16 + 32);
    for i in (12..16).chain(26..32) {
        let mut w = wire.clone();
        w[i] ^= 0x01;
        assert_eq!(decrypt(&w), Err(CodecError::Malformed), "byte {}", i);
    }
}

#[test]
fn extra_bytes_before_trailer_are_malformed() {
    let wire = encrypt(b"abc");
    let n = wire.len();
    let mut longer = wire[..n - 32].to_vec();
    longer.extend_from_slice(&[0u8; 16]);
    longer.extend_from_slice(&wire[n - 32..]);
    assert_eq!(decrypt(&longer), Err(CodecError::Malformed));
}

#[test]
fn short_frame_is_malformed() {
    assert_eq!(decrypt(&[]), Err(CodecError::Malformed));
    assert_eq!(decrypt(&[0u8; 47]), Err(CodecError::Malformed));
    assert!(Packet::try_from(&[0u8; 47]).is_err());
}

#[test]
fn inconsistent_lengths_are_malformed() {
    let wire = encrypt(b"0123456789");
    let n = wire.len();
    let mut w = wire.clone();
    w[n - 32] = 13; // nonce length
    assert_eq!(decrypt(&w), Err(CodecError::Malformed));
    let mut w = wire.clone();
    w[n - 24] = 17; // data length beyond its region
    assert_eq!(decrypt(&w), Err(CodecError::Malformed));
    let mut w = wire;
    w[n - 17] = 0x80; // huge data length
    assert_eq!(decrypt(&w), Err(CodecError::Malformed));
}

#[test]
fn packet_with_bad_nonce_does_not_decrypt() {
    let p = Packet { nonce: vec![0; 8], data: vec![1, 2, 3] };
    assert_eq!(p.decrypt(), Err(CodecError::Malformed));
}

#[test]
fn packet_round_trip_through_bytes() {
    let p = Packet::encrypt(b"abc");
    let q = Packet::try_from(&p.bytes()).unwrap();
    assert_eq!(q.nonce, p.nonce);
    assert_eq!(q.data, p.data);
    assert_eq!(q.decrypt(), Ok(b"abc".to_vec()));
}
