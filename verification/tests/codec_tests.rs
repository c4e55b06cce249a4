use resp_kv::resp::{
    decode_frame, decode_raw_frame, emit_array, emit_bulk, emit_nil, emit_simple, BulkStep,
    DecodeStep, Frame, ResponseErrors,
};
use resp_kv::parse::process_buff;

fn decode_one(bytes: &[u8]) -> (Frame, usize) {
    match decode_frame(&bytes.to_vec(), 0) {
        DecodeStep::Complete(f, n) => (f, n),
        _ => panic!("expected a complete frame"),
    }
}

#[test]
fn decodes_a_ping_request() {
    let (f, n) = decode_one(b"*1\r\n$4\r\nPING\r\n");
    assert_eq!(n, 14);
    match f {
        Frame::Array(args) => {
            assert_eq!(args.len(), 1);
            assert_eq!(args[0], b"PING".to_vec());
        }
        _ => panic!("expected an array"),
    }
}

#[test]
fn decodes_simple_error_integer_and_nil() {
    let (f, n) = decode_one(b"+OK\r\n");
    assert_eq!(n, 5);
    assert!(matches!(f, Frame::Simple(p) if p == b"OK".to_vec()));

    let (f, _) = decode_one(b"-ERR bad\r\n");
    assert!(matches!(f, Frame::Error(p) if p == b"ERR bad".to_vec()));

    let (f, _) = decode_one(b":1000\r\n");
    assert!(matches!(f, Frame::Integer(p) if p == b"1000".to_vec()));

    let (f, n) = decode_one(b"$-1\r\n");
    assert_eq!(n, 5);
    assert!(matches!(f, Frame::Nil));
}

#[test]
fn decodes_a_binary_safe_bulk_string() {
    let mut wire = b"$5\r\n".to_vec();
    wire.extend_from_slice(&[0, 1, 13, 10, 255]);
    wire.extend_from_slice(b"\r\n");
    let (f, n) = decode_one(&wire);
    assert_eq!(n, wire.len());
    assert!(matches!(f, Frame::Bulk(p) if p == vec![0, 1, 13, 10, 255]));
}

#[test]
fn short_input_asks_for_more_at_every_split() {
    let wire = b"*2\r\n$4\r\nECHO\r\n$5\r\nhello\r\n";
    for cut in 0..wire.len() {
        let prefix = wire[..cut].to_vec();
        match decode_frame(&prefix, 0) {
            DecodeStep::More => {}
            _ => panic!("prefix of length {} was not answered with More", cut),
        }
        let (frames, used) = process_buff(&prefix).expect("no spurious error");
        assert_eq!(frames.len(), 0);
        assert_eq!(used, 0);
    }
    let (frames, used) = process_buff(&wire.to_vec()).expect("full request decodes");
    assert_eq!(frames.len(), 1);
    assert_eq!(used, wire.len());
}

#[test]
fn pipelined_commands_come_out_in_order_with_residual_tail() {
    let wire = b"*1\r\n$4\r\nPING\r\n*2\r\n$4\r\nECHO\r\n$2\r\nhi\r\n+PART".to_vec();
    let (frames, used) = process_buff(&wire).expect("decodes");
    assert_eq!(frames.len(), 2);
    assert_eq!(used, wire.len() - b"+PART".len());
    assert!(matches!(&frames[0], Frame::Array(a) if a.len() == 1));
    assert!(matches!(&frames[1], Frame::Array(a) if a.len() == 2));
}

#[test]
fn rejects_a_bad_bulk_length() {
    let r = process_buff(&b"$ab\r\n".to_vec());
    match r {
        Err(ResponseErrors::BulkStringInvalidLength(s)) => assert_eq!(s, b"ab".to_vec()),
        _ => panic!("expected BulkStringInvalidLength"),
    }
}

#[test]
fn rejects_a_bad_array_count() {
    let r = process_buff(&b"*x1\r\n".to_vec());
    match r {
        Err(ResponseErrors::ArrayNumElementsInvalidLength(s)) => assert_eq!(s, b"x1".to_vec()),
        _ => panic!("expected ArrayNumElementsInvalidLength"),
    }
}

#[test]
fn rejects_an_unhandled_leading_byte() {
    let r = process_buff(&b"%3\r\n".to_vec());
    match r {
        Err(ResponseErrors::UnhandledRespDataType(c)) => assert_eq!(c, '%'),
        _ => panic!("expected UnhandledRespDataType"),
    }
}

#[test]
fn rejects_an_oversized_length_prefix() {
    // One past the 512 MiB ceiling.
    let r = process_buff(&b"$536870913\r\n".to_vec());
    assert!(matches!(r, Err(ResponseErrors::MessageTooBig)));
    let r = process_buff(&b"*536870913\r\n".to_vec());
    assert!(matches!(r, Err(ResponseErrors::MessageTooBig)));
}

#[test]
fn emitters_round_trip_through_the_decoder() {
    let parts = vec![b"ECHO".to_vec(), b"hello".to_vec()];
    let wire = emit_array(&parts);
    assert_eq!(wire, b"*2\r\n$4\r\nECHO\r\n$5\r\nhello\r\n".to_vec());
    let (f, n) = decode_one(&wire);
    assert_eq!(n, wire.len());
    match f {
        Frame::Array(args) => assert_eq!(args, parts),
        _ => panic!("expected an array"),
    }

    assert_eq!(emit_simple(&b"PONG".to_vec()), b"+PONG\r\n".to_vec());
    assert_eq!(emit_bulk(&b"hello".to_vec()), b"$5\r\nhello\r\n".to_vec());
    assert_eq!(emit_nil(), b"$-1\r\n".to_vec());
}

#[test]
fn decoding_then_encoding_gives_the_wire_bytes_back() {
    let wire = b"*2\r\n$4\r\nECHO\r\n$5\r\nhello\r\n".to_vec();
    let (f, n) = decode_one(&wire);
    assert_eq!(n, wire.len());
    match f {
        Frame::Array(args) => assert_eq!(emit_array(&args), wire),
        _ => panic!("expected an array"),
    }
}

#[test]
fn raw_snapshot_frame_has_no_trailing_terminator() {
    // "$3\r\nabc" followed by stream bytes: the raw reader must take
    // exactly three payload bytes and stop right after them.
    let wire = b"$3\r\nabc*1\r\n$4\r\nPING\r\n".to_vec();
    match decode_raw_frame(&wire, 0) {
        BulkStep::Done(p, next) => {
            assert_eq!(p, b"abc".to_vec());
            assert_eq!(next, 7);
            assert_eq!(&wire[next..next + 4], b"*1\r\n");
        }
        _ => panic!("expected a raw payload"),
    }
}

#[test]
fn raw_snapshot_frame_waits_for_its_whole_payload() {
    assert!(matches!(decode_raw_frame(&b"$10\r\nabc".to_vec(), 0), BulkStep::More));
}

#[test]
fn an_empty_array_is_a_complete_frame() {
    let (f, n) = decode_one(b"*0\r\n");
    assert_eq!(n, 4);
    assert!(matches!(f, Frame::Array(a) if a.is_empty()));
}

#[test]
fn an_array_element_must_be_a_bulk_string() {
    let r = process_buff(&b"*1\r\n+OK\r\n".to_vec());
    assert!(matches!(r, Err(ResponseErrors::UnhandledRespDataType('+'))));
    let r = process_buff(&b"*1\r\n$-1\r\n".to_vec());
    assert!(matches!(r, Err(ResponseErrors::BulkStringInvalidLength(_))));
}
