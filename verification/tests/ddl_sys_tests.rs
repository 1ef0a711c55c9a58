use skycore::connection::execute_query;
use skycore::connection::Executor;
use skycore::memstore::Corestore;
use skycore::protocol::Parser;
use skycore::registry::Registry;

fn run(ex: &mut Executor, store: &mut Corestore, reg: &Registry, buf: &[u8]) -> Vec<u8> {
    let (q, n) = Parser::parse(buf).expect("frame must parse");
    assert_eq!(n, buf.len());
    execute_query(ex, store, reg, false, buf, q)
}

#[test]
fn keyspace_name_must_match_the_grammar() {
    let mut store = Corestore::new();
    let reg = Registry::new_healthy();
    let mut ex = Executor::Auth;
    let out = run(&mut ex, &mut store, &reg, b"*3\n6\nCREATE8\nKEYSPACE4\n1abc");
    assert_eq!(out, b"*!14\nbad-expression\n".to_vec());
}

#[test]
fn keyspace_name_must_stay_short() {
    let mut store = Corestore::new();
    let reg = Registry::new_healthy();
    let mut ex = Executor::Auth;
    let mut frame = b"*3\n6\nCREATE8\nKEYSPACE64\n".to_vec();
    frame.extend_from_slice(&[b'a'; 64]);
    let out = run(&mut ex, &mut store, &reg, &frame);
    assert_eq!(out, b"*!23\ncontainer-name-too-long\n".to_vec());
    // one byte shorter is accepted
    let mut frame = b"*3\n6\nCREATE8\nKEYSPACE63\n".to_vec();
    frame.extend_from_slice(&[b'a'; 63]);
    let out = run(&mut ex, &mut store, &reg, &frame);
    assert_eq!(out, b"*!1\n0\n".to_vec());
}

#[test]
fn duplicate_keyspace_is_refused() {
    let mut store = Corestore::new();
    let reg = Registry::new_healthy();
    let mut ex = Executor::Auth;
    let out = run(&mut ex, &mut store, &reg, b"*3\n6\nCREATE8\nKEYSPACE4\nmyks");
    assert_eq!(out, b"*!1\n0\n".to_vec());
    let out = run(&mut ex, &mut store, &reg, b"*3\n6\nCREATE8\nKEYSPACE4\nmyks");
    assert_eq!(out, b"*!14\nalready-exists\n".to_vec());
}

#[test]
fn create_table_in_a_named_keyspace() {
    let mut store = Corestore::new();
    let reg = Registry::new_healthy();
    let mut ex = Executor::Auth;
    run(&mut ex, &mut store, &reg, b"*3\n6\nCREATE8\nKEYSPACE4\nmyks");
    let out = run(
        &mut ex,
        &mut store,
        &reg,
        b"*4\n6\nCREATE5\nTABLE8\nmyks:tbl21\nkeymap(binstr,binstr)",
    );
    assert_eq!(out, b"*!1\n0\n".to_vec());
    store.set_current(b"myks", b"tbl").unwrap();
    let out = run(&mut ex, &mut store, &reg, b"*3\n3\nSET1\nk1\nv");
    assert_eq!(out, b"*!1\n0\n".to_vec());
    // a duplicate table is refused
    let out = run(
        &mut ex,
        &mut store,
        &reg,
        b"*4\n6\nCREATE5\nTABLE8\nmyks:tbl21\nkeymap(binstr,binstr)",
    );
    assert_eq!(out, b"*!14\nalready-exists\n".to_vec());
}

#[test]
fn volatile_spelling_is_checked() {
    let mut store = Corestore::new();
    let reg = Registry::new_healthy();
    let mut ex = Executor::Auth;
    let out = run(
        &mut ex,
        &mut store,
        &reg,
        b"*5\n6\nCREATE5\nTABLE3\ntbl21\nkeymap(binstr,binstr)8\nvolatile",
    );
    assert_eq!(out, b"*!1\n0\n".to_vec());
    let out = run(
        &mut ex,
        &mut store,
        &reg,
        b"*5\n6\nCREATE5\nTABLE4\ntbl221\nkeymap(binstr,binstr)8\nVOLATILE",
    );
    assert_eq!(out, b"*!16\nunknown-property\n".to_vec());
}

#[test]
fn bad_model_spelling_is_an_expression_error() {
    let mut store = Corestore::new();
    let reg = Registry::new_healthy();
    let mut ex = Executor::Auth;
    let out = run(
        &mut ex,
        &mut store,
        &reg,
        b"*4\n6\nCREATE5\nTABLE3\ntbl12\nkeymap(x,y)z",
    );
    assert_eq!(out, b"*!14\nbad-expression\n".to_vec());
}

#[test]
fn drop_keyspace_honours_emptiness_and_force() {
    let mut store = Corestore::new();
    let reg = Registry::new_healthy();
    let mut ex = Executor::Auth;
    run(&mut ex, &mut store, &reg, b"*3\n6\nCREATE8\nKEYSPACE4\nmyks");
    run(
        &mut ex,
        &mut store,
        &reg,
        b"*4\n6\nCREATE5\nTABLE8\nmyks:tbl21\nkeymap(binstr,binstr)",
    );
    let out = run(&mut ex, &mut store, &reg, b"*3\n4\nDROP8\nKEYSPACE4\nmyks");
    assert_eq!(out, b"*!9\nnot-empty\n".to_vec());
    let out = run(
        &mut ex,
        &mut store,
        &reg,
        b"*4\n4\nDROP8\nKEYSPACE4\nmyks5\nforce",
    );
    assert_eq!(out, b"*!1\n0\n".to_vec());
    let out = run(&mut ex, &mut store, &reg, b"*3\n4\nDROP8\nKEYSPACE4\nmyks");
    assert_eq!(out, b"*!19\ncontainer-not-found\n".to_vec());
}

#[test]
fn drop_table_removes_it() {
    let mut store = Corestore::new();
    let reg = Registry::new_healthy();
    let mut ex = Executor::Auth;
    run(
        &mut ex,
        &mut store,
        &reg,
        b"*4\n6\nCREATE5\nTABLE3\ntbl21\nkeymap(binstr,binstr)",
    );
    let out = run(&mut ex, &mut store, &reg, b"*3\n4\nDROP5\nTABLE3\ntbl");
    assert_eq!(out, b"*!1\n0\n".to_vec());
    let out = run(&mut ex, &mut store, &reg, b"*3\n4\nDROP5\nTABLE3\ntbl");
    assert_eq!(out, b"*!19\ncontainer-not-found\n".to_vec());
}

#[test]
fn unknown_ddl_target() {
    let mut store = Corestore::new();
    let reg = Registry::new_healthy();
    let mut ex = Executor::Auth;
    let out = run(&mut ex, &mut store, &reg, b"*3\n6\nCREATE4\nBLOB4\nmyks");
    assert_eq!(out, b"*!17\nunknown-ddl-query\n".to_vec());
}

#[test]
fn dangling_selection_reports_container_not_found() {
    let mut store = Corestore::new();
    let reg = Registry::new_healthy();
    let mut ex = Executor::Auth;
    run(&mut ex, &mut store, &reg, b"*3\n6\nCREATE8\nKEYSPACE4\nmyks");
    run(
        &mut ex,
        &mut store,
        &reg,
        b"*4\n6\nCREATE5\nTABLE8\nmyks:tbl21\nkeymap(binstr,binstr)",
    );
    store.set_current(b"myks", b"tbl").unwrap();
    run(&mut ex, &mut store, &reg, b"*3\n4\nDROP5\nTABLE8\nmyks:tbl");
    let out = run(&mut ex, &mut store, &reg, b"*2\n3\nGET1\nk");
    assert_eq!(out, b"*!19\ncontainer-not-found\n".to_vec());
}

#[test]
fn selection_must_exist() {
    let mut store = Corestore::new();
    assert!(store.set_current(b"nope", b"nope").is_err());
    assert!(store.set_current(b"default", b"nope").is_err());
    assert!(store.set_current(b"default", b"default").is_ok());
}

#[test]
fn sys_info_answers() {
    let mut store = Corestore::new();
    let reg = Registry::new_healthy();
    let mut ex = Executor::Auth;
    let out = run(&mut ex, &mut store, &reg, b"*3\n3\nSYS4\nINFO8\nprotocol");
    assert_eq!(out, b"*+11\nSkyhash-2.0\n".to_vec());
    let out = run(&mut ex, &mut store, &reg, b"*3\n3\nSYS4\ninfo8\nprotover");
    assert_eq!(out, b"*+3\n2.0\n".to_vec());
    let out = run(&mut ex, &mut store, &reg, b"*3\n3\nSYS4\nINFO7\nversion");
    assert_eq!(out, b"*+5\n0.1.0\n".to_vec());
    let out = run(&mut ex, &mut store, &reg, b"*3\n3\nSYS4\nINFO4\nwhat");
    assert_eq!(out, b"*!16\nunknown-property\n".to_vec());
}

#[test]
fn sys_metric_health_follows_the_registry() {
    let mut store = Corestore::new();
    let mut reg = Registry::new_healthy();
    let mut ex = Executor::Auth;
    let out = run(&mut ex, &mut store, &reg, b"*3\n3\nSYS6\nMETRIC6\nhealth");
    assert_eq!(out, b"*+4\ngood\n".to_vec());
    reg.poison();
    let out = run(&mut ex, &mut store, &reg, b"*3\n3\nSYS6\nMETRIC6\nhealth");
    assert_eq!(out, b"*+8\ncritical\n".to_vec());
    let out = run(&mut ex, &mut store, &reg, b"*3\n3\nSYS6\nMETRIC4\nwhat");
    assert_eq!(out, b"*!14\nunknown-metric\n".to_vec());
    let out = run(&mut ex, &mut store, &reg, b"*2\n3\nSYS6\nMETRIC");
    assert_eq!(out, b"*!1\n3\n".to_vec());
}
