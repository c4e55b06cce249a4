use resp_kv::parse::{parse_command, Command, ParseError};

fn args(words: &[&[u8]]) -> Vec<Vec<u8>> {
    words.iter().map(|w| w.to_vec()).collect()
}

#[test]
fn parses_ping_in_any_case() {
    assert!(matches!(parse_command(args(&[b"PING"]), 0), Ok(Command::Ping)));
    assert!(matches!(parse_command(args(&[b"ping"]), 0), Ok(Command::Ping)));
    assert!(matches!(parse_command(args(&[b"PiNg"]), 0), Ok(Command::Ping)));
}

#[test]
fn parses_echo_and_get_with_missing_argument_as_empty() {
    match parse_command(args(&[b"ECHO", b"hello"]), 0) {
        Ok(Command::Echo(s)) => assert_eq!(s, b"hello".to_vec()),
        _ => panic!("expected Echo"),
    }
    match parse_command(args(&[b"ECHO"]), 0) {
        Ok(Command::Echo(s)) => assert_eq!(s, Vec::<u8>::new()),
        _ => panic!("expected Echo"),
    }
    match parse_command(args(&[b"GET", b"foo"]), 0) {
        Ok(Command::Get(k)) => assert_eq!(k, b"foo".to_vec()),
        _ => panic!("expected Get"),
    }
}

#[test]
fn parses_set_without_expiry() {
    match parse_command(args(&[b"SET", b"foo", b"bar"]), 5_000) {
        Ok(Command::Put(k, v, e)) => {
            assert_eq!(k, b"foo".to_vec());
            assert_eq!(v, b"bar".to_vec());
            assert!(e.is_none());
        }
        _ => panic!("expected a SET"),
    }
}

#[test]
fn parses_set_with_px_deadline_anchored_at_now() {
    match parse_command(args(&[b"SET", b"k", b"v", b"px", b"100"]), 5_000) {
        Ok(Command::Put(_, _, Some(x))) => {
            assert_eq!(x.px_ms, 100);
            assert_eq!(x.deadline_ms, 5_100);
        }
        _ => panic!("expected a SET with expiry"),
    }
    // EX is taken as milliseconds too, as the wire dialect has it here.
    match parse_command(args(&[b"SET", b"k", b"v", b"ex", b"250"]), 1_000) {
        Ok(Command::Put(_, _, Some(x))) => assert_eq!(x.deadline_ms, 1_250),
        _ => panic!("expected a SET with expiry"),
    }
}

#[test]
fn rejects_bad_set_options() {
    assert!(matches!(
        parse_command(args(&[b"SET", b"k", b"v", b"nx"]), 0),
        Err(ParseError::InvalidArgument)
    ));
    assert!(matches!(
        parse_command(args(&[b"SET", b"k", b"v", b"px"]), 0),
        Err(ParseError::InvalidExpiryDuration)
    ));
    assert!(matches!(
        parse_command(args(&[b"SET", b"k", b"v", b"px", b"10x"]), 0),
        Err(ParseError::InvalidExpiryDuration)
    ));
    assert!(matches!(
        parse_command(args(&[b"SET", b"k", b"v", b"px", b"99999999999999999999999"]), 0),
        Err(ParseError::InvalidExpiryDuration)
    ));
    // A deadline past the clock's range is refused too.
    assert!(matches!(
        parse_command(args(&[b"SET", b"k", b"v", b"px", b"2"]), u64::MAX - 1),
        Err(ParseError::InvalidExpiryDuration)
    ));
}

#[test]
fn parses_replconf_and_getack() {
    match parse_command(args(&[b"REPLCONF", b"listening-port", b"6380"]), 0) {
        Ok(Command::ReplConf(a)) => assert_eq!(a, b"listening-port".to_vec()),
        _ => panic!("expected ReplConf"),
    }
    assert!(matches!(
        parse_command(args(&[b"REPLCONF", b"GETACK"]), 0),
        Ok(Command::ReplConfAck)
    ));
    assert!(matches!(
        parse_command(args(&[b"replconf", b"getack"]), 0),
        Ok(Command::ReplConfAck)
    ));
    match parse_command(args(&[b"REPLCONF"]), 0) {
        Ok(Command::ReplConf(a)) => assert_eq!(a, Vec::<u8>::new()),
        _ => panic!("expected ReplConf"),
    }
}

#[test]
fn parses_psync_with_its_arguments() {
    match parse_command(args(&[b"PSYNC", b"?", b"-1"]), 0) {
        Ok(Command::Psync(rest)) => assert_eq!(rest, vec![b"?".to_vec(), b"-1".to_vec()]),
        _ => panic!("expected Psync"),
    }
}

#[test]
fn parses_config_get_and_rejects_the_rest() {
    match parse_command(args(&[b"CONFIG", b"GET", b"dir"]), 0) {
        Ok(Command::GetConfig(k)) => assert_eq!(k, b"dir".to_vec()),
        _ => panic!("expected GetConfig"),
    }
    assert!(matches!(
        parse_command(args(&[b"CONFIG", b"SET", b"dir"]), 0),
        Err(ParseError::OnlyConfigGet)
    ));
    assert!(matches!(
        parse_command(args(&[b"CONFIG"]), 0),
        Err(ParseError::InvalidCommand)
    ));
}

#[test]
fn keys_with_an_explicitly_empty_pattern_stands_for_star() {
    match parse_command(args(&[b"KEYS", b""]), 0) {
        Ok(Command::Keys(p)) => assert_eq!(p, b"*".to_vec()),
        _ => panic!("expected Keys"),
    }
    match parse_command(args(&[b"KEYS", b"a*"]), 0) {
        Ok(Command::Keys(p)) => assert_eq!(p, b"a*".to_vec()),
        _ => panic!("expected Keys"),
    }
    match parse_command(args(&[b"KEYS"]), 0) {
        Ok(Command::Keys(p)) => assert_eq!(p, Vec::<u8>::new()),
        _ => panic!("expected Keys"),
    }
}

#[test]
fn rejects_an_unknown_command() {
    assert!(matches!(
        parse_command(args(&[b"FLUSHALL"]), 0),
        Err(ParseError::CommandNotSupported)
    ));
}

#[test]
fn a_command_encodes_to_its_wire_array() {
    assert_eq!(Command::Ping.encode(), b"*1\r\n$4\r\nPING\r\n".to_vec());
    assert_eq!(
        Command::Get(b"foo".to_vec()).encode(),
        b"*2\r\n$3\r\nGET\r\n$3\r\nfoo\r\n".to_vec()
    );
    assert_eq!(
        Command::Put(b"a".to_vec(), b"1".to_vec(), None).encode(),
        b"*3\r\n$3\r\nSET\r\n$1\r\na\r\n$1\r\n1\r\n".to_vec()
    );
}

#[test]
fn an_encoded_command_parses_back_to_itself() {
    let wire = Command::Put(b"k".to_vec(), b"v".to_vec(), None).encode();
    let (frames, used) = resp_kv::parse::process_buff(&wire).expect("decodes");
    assert_eq!(used, wire.len());
    assert_eq!(frames.len(), 1);
    match &frames[0] {
        resp_kv::resp::Frame::Array(parts) => {
            match parse_command(parts.clone(), 7) {
                Ok(Command::Put(k, v, e)) => {
                    assert_eq!(k, b"k".to_vec());
                    assert_eq!(v, b"v".to_vec());
                    assert!(e.is_none());
                }
                _ => panic!("expected the SET back"),
            }
        }
        _ => panic!("expected an array"),
    }
}
