use skycore::protocol::ParseError;
use skycore::protocol::Parser;
use skycore::protocol::Query;

fn simple_elements<'a>(buf: &'a [u8], q: &Query) -> Vec<&'a [u8]> {
    match q {
        Query::Simple(sq) => sq.as_slice().iter().map(|s| s.as_slice(buf)).collect(),
        Query::Pipelined(_) => panic!("expected a simple query"),
    }
}

#[test]
fn parses_a_simple_query() {
    let buf = b"*3\n3\nSET3\nfoo3\nbar";
    let (q, n) = Parser::parse(buf).unwrap();
    assert_eq!(n, buf.len());
    let elems = simple_elements(buf, &q);
    assert_eq!(elems, vec![&b"SET"[..], &b"foo"[..], &b"bar"[..]]);
}

#[test]
fn consumes_exactly_one_frame() {
    // a frame followed by the beginning of the next one
    let buf = b"*1\n4\nHEYA*1\n4";
    let (q, n) = Parser::parse(buf).unwrap();
    assert_eq!(n, 9);
    let elems = simple_elements(buf, &q);
    assert_eq!(elems, vec![&b"HEYA"[..]]);
}

#[test]
fn zero_sized_element_is_legal() {
    let buf = b"*1\n0\n";
    let (q, n) = Parser::parse(buf).unwrap();
    assert_eq!(n, buf.len());
    let elems = simple_elements(buf, &q);
    assert_eq!(elems, vec![&b""[..]]);
}

#[test]
fn empty_pipeline_is_legal() {
    let buf = b"$0\n";
    let (q, n) = Parser::parse(buf).unwrap();
    assert_eq!(n, buf.len());
    match q {
        Query::Pipelined(p) => assert_eq!(p.len(), 0),
        Query::Simple(_) => panic!("expected a pipeline"),
    }
}

#[test]
fn parses_a_pipeline_in_order() {
    let buf = b"$2\n2\n3\nGET1\nx2\n3\nGET1\ny";
    let (q, n) = Parser::parse(buf).unwrap();
    assert_eq!(n, buf.len());
    match q {
        Query::Pipelined(p) => {
            assert_eq!(p.len(), 2);
            let inner = p.into_inner();
            let q0: Vec<&[u8]> = inner[0].iter().map(|s| s.as_slice(buf)).collect();
            let q1: Vec<&[u8]> = inner[1].iter().map(|s| s.as_slice(buf)).collect();
            assert_eq!(q0, vec![&b"GET"[..], &b"x"[..]]);
            assert_eq!(q1, vec![&b"GET"[..], &b"y"[..]]);
        },
        Query::Simple(_) => panic!("expected a pipeline"),
    }
}

#[test]
fn truncated_buffer_wants_more() {
    // the length line says 3 and three bytes arrive, but the next length
    // line has not arrived yet
    let buf = b"*2\n3\nGET";
    assert_eq!(Parser::parse(buf).unwrap_err(), ParseError::NotEnough);
    // once the missing bytes arrive the same call returns the full frame
    let full = b"*2\n3\nGET3\nfoo";
    let (q, n) = Parser::parse(full).unwrap();
    assert_eq!(n, full.len());
    let elems = simple_elements(full, &q);
    assert_eq!(elems, vec![&b"GET"[..], &b"foo"[..]]);
}

#[test]
fn every_proper_prefix_wants_more() {
    // the parser is prefix-monotonic: any cut of a frame only ever asks
    // for more bytes, never changes its answer
    let buf = b"*3\n3\nSET3\nfoo3\nbar";
    for k in 0..buf.len() {
        assert_eq!(Parser::parse(&buf[..k]).unwrap_err(), ParseError::NotEnough);
    }
}

#[test]
fn unexpected_first_byte() {
    assert_eq!(Parser::parse(b"x1\n").unwrap_err(), ParseError::UnexpectedByte);
}

#[test]
fn empty_length_line_is_a_bad_packet() {
    assert_eq!(Parser::parse(b"*\n").unwrap_err(), ParseError::BadPacket);
    assert_eq!(Parser::parse(b"*1\n\n").unwrap_err(), ParseError::BadPacket);
}

#[test]
fn non_digit_length_fails_decoding() {
    assert_eq!(
        Parser::parse(b"*a\n").unwrap_err(),
        ParseError::DatatypeParseFailure
    );
    assert_eq!(
        Parser::parse(b"*1\nx3\nabc").unwrap_err(),
        ParseError::DatatypeParseFailure
    );
}

#[test]
fn overflowing_length_fails_decoding() {
    let mut buf: Vec<u8> = Vec::new();
    buf.push(b'*');
    buf.extend_from_slice(b"99999999999999999999999999999");
    buf.push(b'\n');
    assert_eq!(
        Parser::parse(&buf).unwrap_err(),
        ParseError::DatatypeParseFailure
    );
}

#[test]
fn encode_then_parse_round_trips() {
    let elems: Vec<Vec<u8>> = vec![
        b"SET".to_vec(),
        b"a key".to_vec(),
        b"".to_vec(),
        b"payload with \n and \x00".to_vec(),
    ];
    let frame = skycore::protocol::encode_simple_query(&elems);
    let (q, n) = Parser::parse(&frame).unwrap();
    assert_eq!(n, frame.len());
    assert_eq!(
        simple_elements(&frame, &q),
        elems.iter().map(|v| v.as_slice()).collect::<Vec<_>>()
    );
}

#[test]
fn element_windows_lie_inside_the_consumed_prefix() {
    let buf = b"*2\n3\nABC2\nDE*1\n1\nZ";
    let (q, n) = Parser::parse(buf).unwrap();
    match q {
        Query::Simple(sq) => {
            for w in sq.as_slice() {
                assert!(w.start + w.len <= n);
            }
        },
        Query::Pipelined(_) => panic!("expected a simple query"),
    }
}
