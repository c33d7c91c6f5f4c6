use scrap_net::codec::{decrypt, encrypt, CodecError};
use scrap_net::command::{parse_command, Command, Endpoint};
use scrap_net::fuzz::{fuzz_packet, fuzz_with, Direction, FuzzRule};
use scrap_net::relay::{Reply, Session, State};

fn counts(s: &mut Session<u32>, pos: usize) -> (Vec<(u8, usize)>, Vec<(u8, usize)>) {
    match s.handle_command(Command::Inspect(pos)) {
        Reply::Counts { client, server } => (client, server),
        other => panic!("{:?}", other),
    }
}

#[test]
fn state_counts_client_bytes() {
    let mut s = Session::<u32>::new();
    let r = s.on_client_packet(&encrypt(&[0x00, 0x10, 0x20]), 7).unwrap();
    assert_eq!(r.plaintext, vec![0x00, 0x10, 0x20]);
    assert_eq!(counts(&mut s, 0), (vec![(0x00, 1)], vec![]));
    s.on_client_packet(&encrypt(&[0xff, 0x10]), 7).unwrap();
    assert_eq!(counts(&mut s, 0), (vec![(0x00, 1), (0xff, 1)], vec![]));
    assert_eq!(counts(&mut s, 1), (vec![(0x10, 2)], vec![]));
    assert_eq!(counts(&mut s, 2), (vec![(0x20, 1)], vec![]));
    assert_eq!(counts(&mut s, 3), (vec![], vec![]));
}

#[test]
fn histogram_directions_are_separate() {
    let mut st = State::new();
    st.update_client(&[1, 2]);
    assert!(st.client.values().all(|m| m.values().all(|n| *n >= 1)));
    st.update_server(&[3]);
    st.update_server(&[3]);
    assert_eq!(st.client_counts(0), vec![(1, 1)]);
    assert_eq!(st.server_counts(0), vec![(3, 2)]);
    assert_eq!(st.server_counts(1), vec![]);
}

#[test]
fn client_packets_are_forwarded_to_server() {
    let mut s = Session::<u32>::new();
    assert_eq!(s.client, None);
    let wire = encrypt(b"hello");
    let r = s.on_client_packet(&wire, 7).unwrap();
    assert_eq!(s.client, Some(7));
    let fwd = r.forward.unwrap();
    assert_ne!(fwd, wire);
    assert_eq!(decrypt(&fwd), Ok(b"hello".to_vec()));
}

#[test]
fn server_packets_wait_for_client() {
    let mut s = Session::<u32>::new();
    let r = s.on_server_packet(&encrypt(b"srv")).unwrap();
    assert_eq!(r.plaintext, b"srv".to_vec());
    assert!(r.forward.is_none());
    s.on_client_packet(&encrypt(b"cli"), 7).unwrap();
    let r = s.on_server_packet(&encrypt(b"srv")).unwrap();
    assert_eq!(decrypt(&r.forward.unwrap()), Ok(b"srv".to_vec()));
    assert_eq!(counts(&mut s, 0), (vec![(b'c', 1)], vec![(b's', 2)]));
}

#[test]
fn bad_frame_is_an_error() {
    let mut s = Session::<u32>::new();
    let mut wire = encrypt(b"x");
    let n = wire.len();
    wire[n - 1] ^= 1;
    assert!(matches!(s.on_client_packet(&wire, 7), Err(CodecError::Unauthenticated)));
    assert_eq!(counts(&mut s, 0), (vec![], vec![]));
}

#[test]
fn zero_probability_never_fuzzes() {
    let mut s = Session::<u32>::new();
    s.handle_command(parse_command("fuzz both 0 4 0 7").unwrap());
    s.on_client_packet(&encrypt(b"x"), 7).unwrap();
    for _ in 0..50 {
        let r = s.on_client_packet(&encrypt(b"abcdef"), 7).unwrap();
        assert_eq!(decrypt(&r.forward.unwrap()), Ok(b"abcdef".to_vec()));
        let r = s.on_server_packet(&encrypt(b"abcdef")).unwrap();
        assert_eq!(decrypt(&r.forward.unwrap()), Ok(b"abcdef".to_vec()));
    }
}

#[test]
fn full_probability_always_fuzzes() {
    let mut s = Session::<u32>::new();
    s.handle_command(parse_command("fuzz server 2 14 7 7").unwrap());
    let input = [0u8; 20];
    for _ in 0..50 {
        let r = s.on_client_packet(&encrypt(&input), 7).unwrap();
        let out = decrypt(&r.forward.unwrap()).unwrap();
        assert_eq!(out.len(), 20);
        assert_eq!(&out[..2], &[0, 0]);
        assert_eq!(&out[14..], &[0u8; 6]);
        assert_ne!(&out[2..14], &[0u8; 12]);
    }
    // traffic toward the client is not covered
    let r = s.on_server_packet(&encrypt(&input)).unwrap();
    assert_eq!(decrypt(&r.forward.unwrap()), Ok(input.to_vec()));
}

#[test]
fn fuzz_range_is_clipped_to_packet() {
    let rule = Some(FuzzRule {
        direction: Direction::Both,
        start: 3,
        end: 100,
        numerator: 1,
        denominator: 1,
    });
    let mut data = vec![1u8, 2, 3, 4, 5];
    fuzz_with(&rule, Direction::Client, true, &[9, 9], &mut data);
    assert_eq!(data, vec![1, 2, 3, 9, 9]);
    let mut data = vec![1u8, 2, 3, 4, 5];
    fuzz_with(&rule, Direction::Client, false, &[9, 9], &mut data);
    assert_eq!(data, vec![1, 2, 3, 4, 5]);
    let mut data = vec![1u8, 2];
    fuzz_packet(&rule, Direction::Server, &mut data);
    assert_eq!(data, vec![1, 2]);
}

#[test]
fn commands_change_the_session() {
    let mut s = Session::<u32>::new();
    assert!(matches!(s.handle_command(Command::Log(true)), Reply::Nothing));
    assert!(s.logging);
    assert!(matches!(s.handle_command(parse_command("fuzz off").unwrap()), Reply::Nothing));
    assert!(s.fuzz.is_none());
    assert!(matches!(s.handle_command(Command::Exit), Reply::Exit));
    assert!(matches!(s.handle_command(Command::Nothing), Reply::Nothing));
    let bad = FuzzRule { direction: Direction::Client, start: 4, end: 2, numerator: 1, denominator: 2 };
    assert!(matches!(s.handle_command(Command::Fuzz(bad)), Reply::Rejected));
    assert!(s.fuzz.is_none());
}

#[test]
fn injection_needs_a_client_address() {
    let mut s = Session::<u32>::new();
    let cmd = parse_command("client 0102").unwrap();
    assert!(matches!(s.handle_command(cmd), Reply::NoClient));
    match s.handle_command(parse_command("server 0102").unwrap()) {
        Reply::Send { toward, wire } => {
            assert_eq!(toward, Endpoint::Server);
            assert_eq!(decrypt(&wire), Ok(vec![1, 2]));
        }
        other => panic!("{:?}", other),
    }
    s.on_client_packet(&encrypt(b"hi"), 7).unwrap();
    s.on_client_packet(&encrypt(b"hi"), 9).unwrap();
    assert_eq!(s.client, Some(7));
    match s.handle_command(parse_command("client 0102").unwrap()) {
        Reply::Send { toward, wire } => {
            assert_eq!(toward, Endpoint::Client);
            assert_eq!(decrypt(&wire), Ok(vec![1, 2]));
        }
        other => panic!("{:?}", other),
    }
}
