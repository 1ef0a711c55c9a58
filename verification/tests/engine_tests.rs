use skycore::connection::classify_parse;
use skycore::connection::execute_query;
use skycore::connection::Executor;
use skycore::connection::QueryResult;
use skycore::memstore::Corestore;
use skycore::protocol::ParseError;
use skycore::protocol::Parser;
use skycore::registry::Registry;

fn run(ex: &mut Executor, store: &mut Corestore, reg: &Registry, buf: &[u8]) -> Vec<u8> {
    let (q, n) = Parser::parse(buf).expect("frame must parse");
    assert_eq!(n, buf.len());
    execute_query(ex, store, reg, false, buf, q)
}

#[test]
fn simple_set_then_get() {
    let mut store = Corestore::new();
    let reg = Registry::new_healthy();
    let mut ex = Executor::Auth;
    let out = run(&mut ex, &mut store, &reg, b"*3\n3\nSET3\nfoo3\nbar");
    assert_eq!(out, b"*!1\n0\n".to_vec());
    let out = run(&mut ex, &mut store, &reg, b"*2\n3\nGET3\nfoo");
    // the boot table is binary/binary, so the value carries `?`
    assert_eq!(out, b"*?3\nbar\n".to_vec());
}

#[test]
fn get_on_unicode_table_carries_plus() {
    let mut store = Corestore::new();
    let reg = Registry::new_healthy();
    let mut ex = Executor::Auth;
    let out = run(
        &mut ex,
        &mut store,
        &reg,
        b"*4\n6\nCREATE5\nTABLE5\nmystr15\nkeymap(str,str)",
    );
    assert_eq!(out, b"*!1\n0\n".to_vec());
    store.set_current(b"default", b"mystr").unwrap();
    let out = run(&mut ex, &mut store, &reg, b"*3\n3\nSET3\nfoo3\nbar");
    assert_eq!(out, b"*!1\n0\n".to_vec());
    let out = run(&mut ex, &mut store, &reg, b"*2\n3\nGET3\nfoo");
    assert_eq!(out, b"*+3\nbar\n".to_vec());
}

#[test]
fn set_refuses_overwrite() {
    let mut store = Corestore::new();
    let reg = Registry::new_healthy();
    let mut ex = Executor::Auth;
    run(&mut ex, &mut store, &reg, b"*3\n3\nSET1\nk1\nv");
    let out = run(&mut ex, &mut store, &reg, b"*3\n3\nSET1\nk1\nw");
    assert_eq!(out, b"*!1\n2\n".to_vec());
    let out = run(&mut ex, &mut store, &reg, b"*2\n3\nGET1\nk");
    assert_eq!(out, b"*?1\nv\n".to_vec());
}

#[test]
fn get_missing_key_is_nil() {
    let mut store = Corestore::new();
    let reg = Registry::new_healthy();
    let mut ex = Executor::Auth;
    let out = run(&mut ex, &mut store, &reg, b"*2\n3\nGET4\nnope");
    assert_eq!(out, b"*!1\n1\n".to_vec());
}

#[test]
fn unknown_verb() {
    let mut store = Corestore::new();
    let reg = Registry::new_healthy();
    let mut ex = Executor::Auth;
    let out = run(&mut ex, &mut store, &reg, b"*1\n5\nWOBBL");
    assert_eq!(out, b"*!14\nunknown-action\n".to_vec());
}

#[test]
fn pipeline_replies_in_submission_order() {
    let mut store = Corestore::new();
    let reg = Registry::new_healthy();
    let mut ex = Executor::Auth;
    run(&mut ex, &mut store, &reg, b"*3\n3\nSET1\nx1\n1");
    run(&mut ex, &mut store, &reg, b"*3\n3\nSET1\ny1\n2");
    let out = run(&mut ex, &mut store, &reg, b"$2\n2\n3\nGET1\nx2\n3\nGET1\ny");
    let mut expect = b"$2\n".to_vec();
    expect.extend_from_slice(b"?1\n1\n");
    expect.extend_from_slice(b"?1\n2\n");
    assert_eq!(out, expect);
}

#[test]
fn pipeline_runs_against_evolving_store() {
    let mut store = Corestore::new();
    let reg = Registry::new_healthy();
    let mut ex = Executor::Auth;
    // the set in the first sub-query is visible to the get in the second
    let out = run(
        &mut ex,
        &mut store,
        &reg,
        b"$2\n3\n3\nSET1\nk1\nv2\n3\nGET1\nk",
    );
    let mut expect = b"$2\n".to_vec();
    expect.extend_from_slice(b"!1\n0\n");
    expect.extend_from_slice(b"?1\nv\n");
    assert_eq!(out, expect);
}

#[test]
fn empty_simple_query_is_a_packet_error() {
    let mut store = Corestore::new();
    let reg = Registry::new_healthy();
    let mut ex = Executor::Auth;
    let out = run(&mut ex, &mut store, &reg, b"*0\n");
    assert_eq!(out, b"*!1\n4\n".to_vec());
}

#[test]
fn unauth_rejects_everything_but_auth() {
    let mut store = Corestore::new();
    let reg = Registry::new_healthy();
    let mut ex = Executor::Unauth;
    let out = run(&mut ex, &mut store, &reg, b"*2\n3\nGET1\nx");
    assert_eq!(out, b"*!15\nbad-credentials\n".to_vec());
    assert_eq!(ex, Executor::Unauth);
    // a pipeline is refused outright
    let out = run(&mut ex, &mut store, &reg, b"$1\n2\n3\nGET1\nx");
    assert_eq!(out, b"*!15\nbad-credentials\n".to_vec());
    assert_eq!(ex, Executor::Unauth);
}

#[test]
fn auth_verdict_switches_the_executor() {
    let mut store = Corestore::new();
    let reg = Registry::new_healthy();
    let mut ex = Executor::Unauth;
    let buf = b"*3\n4\nAUTH5\nLOGIN5\ntoken";
    let (q, _) = Parser::parse(buf).unwrap();
    // the credential store said no: stay anonymous
    let out = execute_query(&mut ex, &mut store, &reg, false, buf, q);
    assert_eq!(out, b"*!15\nbad-credentials\n".to_vec());
    assert_eq!(ex, Executor::Unauth);
    // the credential store said yes: switch to the full dispatcher
    let (q, _) = Parser::parse(buf).unwrap();
    let out = execute_query(&mut ex, &mut store, &reg, true, buf, q);
    assert_eq!(out, b"*!1\n0\n".to_vec());
    assert_eq!(ex, Executor::Auth);
    let out = run(&mut ex, &mut store, &reg, b"*2\n3\nGET1\nx");
    assert_eq!(out, b"*!1\n1\n".to_vec());
}

#[test]
fn classify_sorts_framing_outcomes() {
    assert!(classify_parse(Err(ParseError::NotEnough)).is_none());
    match classify_parse(Err(ParseError::DatatypeParseFailure)) {
        Some(QueryResult::Wrongtype) => {},
        _ => panic!("expected a wrongtype outcome"),
    }
    match classify_parse(Err(ParseError::UnexpectedByte)) {
        Some(QueryResult::E(resp)) => assert_eq!(resp, b"*!1\n4\n".to_vec()),
        _ => panic!("expected a packet error outcome"),
    }
    match classify_parse(Err(ParseError::BadPacket)) {
        Some(QueryResult::E(resp)) => assert_eq!(resp, b"*!1\n4\n".to_vec()),
        _ => panic!("expected a packet error outcome"),
    }
    let buf = b"*1\n2\nok";
    match classify_parse(Parser::parse(buf)) {
        Some(QueryResult::Q((_, n))) => assert_eq!(n, buf.len()),
        _ => panic!("expected a framed query"),
    }
}
