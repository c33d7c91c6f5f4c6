use scrap_net::command::{parse_command, Command, CommandError, Endpoint};
use scrap_net::fuzz::{Direction, FuzzRule};

#[test]
fn log_toggles() {
    assert!(matches!(parse_command("log on"), Ok(Command::Log(true))));
    assert!(matches!(parse_command("  log   off "), Ok(Command::Log(false))));
    assert!(matches!(parse_command("log maybe"), Err(CommandError::Unknown)));
}

#[test]
fn state_offset() {
    assert!(matches!(parse_command("state 0"), Ok(Command::Inspect(0))));
    assert!(matches!(parse_command("state +17"), Ok(Command::Inspect(17))));
    assert!(matches!(parse_command("state x"), Err(CommandError::BadNumber)));
    assert!(matches!(parse_command("state -1"), Err(CommandError::BadNumber)));
    assert!(matches!(
        parse_command("state 99999999999999999999999"),
        Err(CommandError::BadNumber)
    ));
    assert!(matches!(parse_command("state"), Err(CommandError::Unknown)));
}

#[test]
fn inject_concatenates_hex_words() {
    match parse_command("client 0a0B ff") {
        Ok(Command::Inject { toward, data }) => {
            assert_eq!(toward, Endpoint::Client);
            assert_eq!(data, vec![0x0a, 0x0b, 0xff]);
        }
        other => panic!("{:?}", other),
    }
    match parse_command("server") {
        Ok(Command::Inject { toward, data }) => {
            assert_eq!(toward, Endpoint::Server);
            assert!(data.is_empty());
        }
        other => panic!("{:?}", other),
    }
    assert!(matches!(parse_command("server abc"), Err(CommandError::BadHex)));
    assert!(matches!(parse_command("client 00 zz"), Err(CommandError::BadHex)));
}

#[test]
fn fuzz_rules() {
    match parse_command("fuzz both 2 6 1 3") {
        Ok(Command::Fuzz(f)) => assert_eq!(
            f,
            FuzzRule { direction: Direction::Both, start: 2, end: 6, numerator: 1, denominator: 3 }
        ),
        other => panic!("{:?}", other),
    }
    match parse_command("fuzz server 0 1 0 5") {
        Ok(Command::Fuzz(f)) => assert_eq!(f.direction, Direction::Server),
        other => panic!("{:?}", other),
    }
    assert!(matches!(parse_command("fuzz client 6 2 1 3"), Err(CommandError::FuzzRange)));
    assert!(matches!(parse_command("fuzz client a 2 1 3"), Err(CommandError::BadNumber)));
    assert!(matches!(parse_command("fuzz client 0 2 1 x"), Err(CommandError::BadNumber)));
    assert!(matches!(parse_command("fuzz client 0 2 4 3"), Err(CommandError::BadRatio)));
    assert!(matches!(parse_command("fuzz client 0 2 0 0"), Err(CommandError::BadRatio)));
    assert!(matches!(parse_command("fuzz nowhere 0 2 1 3"), Err(CommandError::Unknown)));
    assert!(matches!(parse_command("fuzz off"), Ok(Command::NoFuzz)));
}

#[test]
fn exit_blank_and_unknown() {
    assert!(matches!(parse_command("exit"), Ok(Command::Exit)));
    assert!(matches!(parse_command(""), Ok(Command::Nothing)));
    assert!(matches!(parse_command(" \t "), Ok(Command::Nothing)));
    assert!(matches!(parse_command("exit now"), Err(CommandError::Unknown)));
    assert!(matches!(parse_command("jump"), Err(CommandError::Unknown)));
}
