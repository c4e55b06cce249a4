use resp_kv::connection::{handle_connection, DispatchResult};
use resp_kv::parse::{parse_command, process_buff, Command};
use resp_kv::replica::{is_fullresync, Handshake, HandshakeState};
use resp_kv::resp::Frame;
use resp_kv::store::{Config, ServerMode, Store};

/// Feeds one buffer of client bytes through the codec, the parser and
/// the dispatcher, collecting the reply frames in order.
fn serve(bytes: &[u8], config: &Config, store: &mut Store, now: u64) -> Vec<Vec<u8>> {
    let (frames, used) = process_buff(&bytes.to_vec()).expect("well-formed request");
    assert_eq!(used, bytes.len());
    let mut replies: Vec<Vec<u8>> = Vec::new();
    for frame in frames {
        let args = match frame {
            Frame::Array(args) => args,
            _ => panic!("requests are arrays"),
        };
        let command = parse_command(args, now).expect("known command");
        let mut out = handle_connection(&command, config, store, now);
        replies.append(&mut out.replies);
    }
    replies
}

#[test]
fn ping_answers_pong() {
    let config = Config::new();
    let mut store = Store::new();
    let replies = serve(b"*1\r\n$4\r\nPING\r\n", &config, &mut store, 0);
    assert_eq!(replies, vec![b"+PONG\r\n".to_vec()]);
}

#[test]
fn echo_answers_its_argument_as_a_bulk_string() {
    let config = Config::new();
    let mut store = Store::new();
    let replies = serve(b"*2\r\n$4\r\nECHO\r\n$5\r\nhello\r\n", &config, &mut store, 0);
    assert_eq!(replies, vec![b"$5\r\nhello\r\n".to_vec()]);
}

#[test]
fn set_then_get_round_trips_through_the_wire() {
    let config = Config::new();
    let mut store = Store::new();
    let replies = serve(
        b"*3\r\n$3\r\nSET\r\n$3\r\nfoo\r\n$3\r\nbar\r\n",
        &config,
        &mut store,
        0,
    );
    assert_eq!(replies, vec![b"+OK\r\n".to_vec()]);
    let replies = serve(b"*2\r\n$3\r\nGET\r\n$3\r\nfoo\r\n", &config, &mut store, 0);
    assert_eq!(replies, vec![b"$3\r\nbar\r\n".to_vec()]);
}

#[test]
fn set_with_px_expires_between_reads() {
    let config = Config::new();
    let mut store = Store::new();
    let replies = serve(
        b"*5\r\n$3\r\nSET\r\n$1\r\nk\r\n$1\r\nv\r\n$2\r\npx\r\n$3\r\n100\r\n",
        &config,
        &mut store,
        1_000,
    );
    assert_eq!(replies, vec![b"+OK\r\n".to_vec()]);
    // 200 ms later the key is gone.
    let replies = serve(b"*2\r\n$3\r\nGET\r\n$1\r\nk\r\n", &config, &mut store, 1_200);
    assert_eq!(replies, vec![b"$-1\r\n".to_vec()]);
}

#[test]
fn keys_star_lists_what_was_set() {
    let config = Config::new();
    let mut store = Store::new();
    serve(b"*3\r\n$3\r\nSET\r\n$3\r\nfoo\r\n$3\r\nbar\r\n", &config, &mut store, 0);
    let replies = serve(b"*2\r\n$4\r\nKEYS\r\n$1\r\n*\r\n", &config, &mut store, 0);
    assert_eq!(replies.len(), 1);
    assert_eq!(replies[0], b"*1\r\n$3\r\nfoo\r\n".to_vec());
    // Any other pattern earns nil.
    let replies = serve(b"*2\r\n$4\r\nKEYS\r\n$2\r\nf*\r\n", &config, &mut store, 0);
    assert_eq!(replies, vec![b"$-1\r\n".to_vec()]);
}

#[test]
fn replconf_then_psync_registers_a_replica_and_sends_the_snapshot() {
    let config = Config::new();
    let mut store = Store::new();
    let replies = serve(
        b"*3\r\n$8\r\nREPLCONF\r\n$14\r\nlistening-port\r\n$4\r\n6380\r\n",
        &config,
        &mut store,
        0,
    );
    assert_eq!(replies, vec![b"+OK\r\n".to_vec()]);

    let (frames, _) = process_buff(&b"*3\r\n$5\r\nPSYNC\r\n$1\r\n?\r\n$2\r\n-1\r\n".to_vec())
        .unwrap();
    let args = match frames.into_iter().next().unwrap() {
        Frame::Array(args) => args,
        _ => panic!("expected an array"),
    };
    let command = parse_command(args, 0).unwrap();
    let out: DispatchResult = handle_connection(&command, &config, &mut store, 0);
    assert!(out.register_replica);
    assert_eq!(out.replies.len(), 2);
    assert_eq!(
        out.replies[0],
        b"+FULLRESYNC 8371b4fb1155b71f4a04d3e1bc3e18c4a990aeeb 0\r\n".to_vec()
    );
    // The snapshot frame: "$88\r\n" and 88 raw bytes, no trailing CRLF.
    let blob_frame = &out.replies[1];
    assert_eq!(&blob_frame[..5], b"$88\r\n");
    assert_eq!(blob_frame.len(), 5 + 88);
    assert_ne!(&blob_frame[blob_frame.len() - 2..], b"\r\n");
}

#[test]
fn a_primary_fans_out_sets_and_a_replica_applies_them_in_order() {
    let primary_config = Config::new();
    assert_eq!(primary_config.mode, ServerMode::Master);
    let mut primary = Store::new();

    let mut stream: Vec<u8> = Vec::new();
    for wire in [
        b"*3\r\n$3\r\nSET\r\n$1\r\na\r\n$1\r\n1\r\n".as_slice(),
        b"*3\r\n$3\r\nSET\r\n$1\r\nb\r\n$1\r\n2\r\n".as_slice(),
    ] {
        let (frames, _) = process_buff(&wire.to_vec()).unwrap();
        let args = match frames.into_iter().next().unwrap() {
            Frame::Array(args) => args,
            _ => panic!("expected an array"),
        };
        let command = parse_command(args, 0).unwrap();
        let out = handle_connection(&command, &primary_config, &mut primary, 0);
        stream.extend_from_slice(&out.propagate.expect("a primary propagates SET"));
    }

    // The replica reads the fan-out stream like any command stream.
    let mut replica_config = Config::new();
    replica_config.mode = ServerMode::Replica;
    let mut replica = Store::new();
    let (frames, used) = process_buff(&stream).unwrap();
    assert_eq!(used, stream.len());
    assert_eq!(frames.len(), 2);
    for frame in frames {
        let args = match frame {
            Frame::Array(args) => args,
            _ => panic!("expected an array"),
        };
        let command = parse_command(args, 0).unwrap();
        let out = handle_connection(&command, &replica_config, &mut replica, 0);
        // A replica does not fan out further.
        assert!(out.propagate.is_none());
    }
    assert_eq!(replica.db_get(0, &b"a".to_vec(), 0).unwrap(), Some(b"1".to_vec()));
    assert_eq!(replica.db_get(0, &b"b".to_vec(), 0).unwrap(), Some(b"2".to_vec()));
}

#[test]
fn replconf_getack_earns_the_acknowledgment_reply() {
    let config = Config::new();
    let mut store = Store::new();
    let replies = serve(
        b"*3\r\n$8\r\nREPLCONF\r\n$6\r\nGETACK\r\n$1\r\n*\r\n",
        &config,
        &mut store,
        0,
    );
    assert_eq!(replies, vec![b"$14\r\nREPLCONF ACK 0\r\n".to_vec()]);
}

#[test]
fn info_replication_reports_role_id_and_offset() {
    let config = Config::new();
    let mut store = Store::new();
    let replies = serve(b"*2\r\n$4\r\nINFO\r\n$11\r\nreplication\r\n", &config, &mut store, 0);
    let expected = b"$87\r\nrole:master\nmaster_replid:8371b4fb1155b71f4a04d3e1bc3e18c4a990aeeb\nmaster_repl_offset:0\r\n".to_vec();
    assert_eq!(replies, vec![expected]);

    let mut replica_config = Config::new();
    replica_config.mode = ServerMode::Replica;
    let replies = serve(
        b"*2\r\n$4\r\nINFO\r\n$11\r\nreplication\r\n",
        &replica_config,
        &mut store,
        0,
    );
    assert!(replies[0].starts_with(b"$86\r\nrole:slave\n"));

    // Any other section earns nil.
    let replies = serve(b"*2\r\n$4\r\nINFO\r\n$3\r\ncpu\r\n", &config, &mut store, 0);
    assert_eq!(replies, vec![b"$-1\r\n".to_vec()]);
}

#[test]
fn config_get_answers_what_is_configured() {
    let mut config = Config::new();
    let mut store = Store::new();
    let replies = serve(b"*3\r\n$6\r\nCONFIG\r\n$3\r\nGET\r\n$3\r\ndir\r\n", &config, &mut store, 0);
    assert_eq!(replies, vec![b"$-1\r\n".to_vec()]);

    config.dir = Some(b"/tmp/data".to_vec());
    config.dbfilename = Some(b"dump.rdb".to_vec());
    let replies = serve(b"*3\r\n$6\r\nCONFIG\r\n$3\r\nGET\r\n$3\r\ndir\r\n", &config, &mut store, 0);
    assert_eq!(replies, vec![b"*2\r\n$3\r\ndir\r\n$9\r\n/tmp/data\r\n".to_vec()]);
    let replies = serve(
        b"*3\r\n$6\r\nCONFIG\r\n$3\r\nGET\r\n$10\r\ndbfilename\r\n",
        &config,
        &mut store,
        0,
    );
    assert_eq!(replies, vec![b"*2\r\n$10\r\ndbfilename\r\n$8\r\ndump.rdb\r\n".to_vec()]);
    let replies = serve(
        b"*3\r\n$6\r\nCONFIG\r\n$3\r\nGET\r\n$4\r\nport\r\n",
        &config,
        &mut store,
        0,
    );
    assert_eq!(replies, vec![b"$-1\r\n".to_vec()]);
}

#[test]
fn the_handshake_speaks_its_four_messages_in_order() {
    let mut hs = Handshake::new(6380);
    assert_eq!(hs.state, HandshakeState::Start);
    assert_eq!(hs.advance().unwrap(), b"*1\r\n$4\r\nPING\r\n".to_vec());
    assert_eq!(
        hs.advance().unwrap(),
        b"*3\r\n$8\r\nREPLCONF\r\n$14\r\nlistening-port\r\n$4\r\n6380\r\n".to_vec()
    );
    assert_eq!(
        hs.advance().unwrap(),
        b"*3\r\n$8\r\nREPLCONF\r\n$4\r\ncapa\r\n$6\r\npsync2\r\n".to_vec()
    );
    assert_eq!(
        hs.advance().unwrap(),
        b"*3\r\n$5\r\nPSYNC\r\n$1\r\n?\r\n$2\r\n-1\r\n".to_vec()
    );
    assert_eq!(hs.state, HandshakeState::PsyncSent);
    assert!(hs.advance().is_none());
    assert_eq!(hs.state, HandshakeState::SnapshotExpected);
    assert!(hs.advance().is_none());
    assert_eq!(hs.state, HandshakeState::Streaming);
    assert!(hs.advance().is_none());
    assert_eq!(hs.state, HandshakeState::Streaming);
}

#[test]
fn fullresync_replies_are_recognised() {
    assert!(is_fullresync(&Frame::Simple(b"FULLRESYNC abc 0".to_vec())));
    assert!(is_fullresync(&Frame::Simple(b"FULLRESYNC".to_vec())));
    assert!(!is_fullresync(&Frame::Simple(b"FULLRESYN".to_vec())));
    assert!(!is_fullresync(&Frame::Simple(b"OK".to_vec())));
    assert!(!is_fullresync(&Frame::Bulk(b"FULLRESYNC abc 0".to_vec())));
}

#[test]
fn a_replicas_set_is_not_propagated() {
    let mut config = Config::new();
    config.mode = ServerMode::Replica;
    let mut store = Store::new();
    let command = Command::Put(b"k".to_vec(), b"v".to_vec(), None);
    let out = handle_connection(&command, &config, &mut store, 0);
    assert!(out.propagate.is_none());
    assert_eq!(out.replies, vec![b"+OK\r\n".to_vec()]);
}

#[test]
fn pipelined_commands_are_answered_in_order() {
    let config = Config::new();
    let mut store = Store::new();
    let replies = serve(
        b"*3\r\n$3\r\nSET\r\n$1\r\nk\r\n$1\r\nv\r\n*2\r\n$3\r\nGET\r\n$1\r\nk\r\n*1\r\n$4\r\nPING\r\n",
        &config,
        &mut store,
        0,
    );
    assert_eq!(
        replies,
        vec![b"+OK\r\n".to_vec(), b"$1\r\nv\r\n".to_vec(), b"+PONG\r\n".to_vec()]
    );
}

#[test]
fn keys_star_on_an_empty_database_answers_an_empty_array() {
    let config = Config::new();
    let mut store = Store::new();
    let replies = serve(b"*2\r\n$4\r\nKEYS\r\n$1\r\n*\r\n", &config, &mut store, 0);
    assert_eq!(replies, vec![b"*0\r\n".to_vec()]);
}

#[test]
fn get_of_a_missing_key_answers_nil() {
    let config = Config::new();
    let mut store = Store::new();
    let replies = serve(b"*2\r\n$3\r\nGET\r\n$7\r\nmissing\r\n", &config, &mut store, 0);
    assert_eq!(replies, vec![b"$-1\r\n".to_vec()]);
}

#[test]
fn empty_keys_and_values_are_plain_byte_strings() {
    let config = Config::new();
    let mut store = Store::new();
    let replies = serve(b"*3\r\n$3\r\nSET\r\n$0\r\n\r\n$0\r\n\r\n", &config, &mut store, 0);
    assert_eq!(replies, vec![b"+OK\r\n".to_vec()]);
    let replies = serve(b"*2\r\n$3\r\nGET\r\n$0\r\n\r\n", &config, &mut store, 0);
    assert_eq!(replies, vec![b"$0\r\n\r\n".to_vec()]);
}
