use skycore::connection::execute_query;
use skycore::connection::Executor;
use skycore::memstore::Corestore;
use skycore::protocol::Parser;
use skycore::registry::Registry;

fn run(ex: &mut Executor, store: &mut Corestore, reg: &Registry, buf: &[u8]) -> Vec<u8> {
    let (q, n) = Parser::parse(buf).expect("frame must parse");
    assert_eq!(n, buf.len());
    execute_query(ex, store, reg, false, buf, q)
}

/// A store whose current table is `mytbl`, a binary/binary list table
/// holding one empty list `L`.
fn list_store() -> Corestore {
    let mut store = Corestore::new();
    let reg = Registry::new_healthy();
    let mut ex = Executor::Auth;
    let out = run(
        &mut ex,
        &mut store,
        &reg,
        b"*4\n6\nCREATE5\nTABLE5\nmytbl27\nkeymap(binstr,list<binstr>)",
    );
    assert_eq!(out, b"*!1\n0\n".to_vec());
    store.set_current(b"default", b"mytbl").unwrap();
    assert_eq!(store.cur_list_add(b"L".to_vec()), Some(true));
    store
}

fn snapshot(store: &Corestore, name: &[u8]) -> Vec<Vec<u8>> {
    store.cur_list_snapshot(name).expect("list must exist")
}

#[test]
fn push_answers_okay() {
    let mut store = list_store();
    let reg = Registry::new_healthy();
    let mut ex = Executor::Auth;
    let out = run(&mut ex, &mut store, &reg, b"*4\n4\nLMOD1\nL4\nPUSH1\nx");
    assert_eq!(out, b"*!1\n0\n".to_vec());
}

#[test]
fn pop_returns_the_pushed_value() {
    let mut store = list_store();
    let reg = Registry::new_healthy();
    let mut ex = Executor::Auth;
    run(&mut ex, &mut store, &reg, b"*4\n4\nLMOD1\nL4\nPUSH1\nx");
    let out = run(&mut ex, &mut store, &reg, b"*3\n4\nLMOD1\nL3\nPOP");
    assert_eq!(out, b"*?1\nx\n".to_vec());
    // popping the now-empty list reports a bad index
    let out = run(&mut ex, &mut store, &reg, b"*3\n4\nLMOD1\nL3\nPOP");
    assert_eq!(out, b"*!9\nbad-index\n".to_vec());
}

#[test]
fn push_appends_in_argument_order() {
    let mut store = list_store();
    let reg = Registry::new_healthy();
    let mut ex = Executor::Auth;
    run(&mut ex, &mut store, &reg, b"*4\n4\nLMOD1\nL4\nPUSH1\nq");
    let out = run(
        &mut ex,
        &mut store,
        &reg,
        b"*6\n4\nLMOD1\nL4\nPUSH1\na1\nb1\nc",
    );
    assert_eq!(out, b"*!1\n0\n".to_vec());
    let want: Vec<Vec<u8>> = vec![b"q".to_vec(), b"a".to_vec(), b"b".to_vec(), b"c".to_vec()];
    assert_eq!(snapshot(&store, b"L"), want);
}

#[test]
fn insert_shifts_the_suffix_right() {
    let mut store = list_store();
    let reg = Registry::new_healthy();
    let mut ex = Executor::Auth;
    run(
        &mut ex,
        &mut store,
        &reg,
        b"*6\n4\nLMOD1\nL4\nPUSH1\na1\nb1\nc",
    );
    let out = run(
        &mut ex,
        &mut store,
        &reg,
        b"*5\n4\nLMOD1\nL6\nINSERT1\n11\nZ",
    );
    assert_eq!(out, b"*!1\n0\n".to_vec());
    let want: Vec<Vec<u8>> = vec![b"a".to_vec(), b"Z".to_vec(), b"b".to_vec(), b"c".to_vec()];
    assert_eq!(snapshot(&store, b"L"), want);
}

#[test]
fn insert_out_of_bounds_changes_nothing() {
    let mut store = list_store();
    let reg = Registry::new_healthy();
    let mut ex = Executor::Auth;
    run(&mut ex, &mut store, &reg, b"*5\n4\nLMOD1\nL4\nPUSH1\na1\nb");
    // length is 2, so index 2 is out of bounds
    let out = run(
        &mut ex,
        &mut store,
        &reg,
        b"*5\n4\nLMOD1\nL6\nINSERT1\n21\nZ",
    );
    assert_eq!(out, b"*!9\nbad-index\n".to_vec());
    let want: Vec<Vec<u8>> = vec![b"a".to_vec(), b"b".to_vec()];
    assert_eq!(snapshot(&store, b"L"), want);
}

#[test]
fn remove_shifts_the_suffix_left() {
    let mut store = list_store();
    let reg = Registry::new_healthy();
    let mut ex = Executor::Auth;
    run(
        &mut ex,
        &mut store,
        &reg,
        b"*6\n4\nLMOD1\nL4\nPUSH1\na1\nb1\nc",
    );
    let out = run(&mut ex, &mut store, &reg, b"*4\n4\nLMOD1\nL6\nREMOVE1\n1");
    assert_eq!(out, b"*!1\n0\n".to_vec());
    let want: Vec<Vec<u8>> = vec![b"a".to_vec(), b"c".to_vec()];
    assert_eq!(snapshot(&store, b"L"), want);
    let out = run(&mut ex, &mut store, &reg, b"*4\n4\nLMOD1\nL6\nREMOVE1\n5");
    assert_eq!(out, b"*!9\nbad-index\n".to_vec());
}

#[test]
fn non_numeric_index_is_a_type_error() {
    let mut store = list_store();
    let reg = Registry::new_healthy();
    let mut ex = Executor::Auth;
    let out = run(&mut ex, &mut store, &reg, b"*4\n4\nLMOD1\nL6\nREMOVE1\nx");
    assert_eq!(out, b"*!15\nwrongtype-error\n".to_vec());
}

#[test]
fn clear_truncates_and_missing_list_is_nil() {
    let mut store = list_store();
    let reg = Registry::new_healthy();
    let mut ex = Executor::Auth;
    run(&mut ex, &mut store, &reg, b"*5\n4\nLMOD1\nL4\nPUSH1\na1\nb");
    let out = run(&mut ex, &mut store, &reg, b"*3\n4\nLMOD1\nL5\nCLEAR");
    assert_eq!(out, b"*!1\n0\n".to_vec());
    assert_eq!(snapshot(&store, b"L"), Vec::<Vec<u8>>::new());
    let out = run(&mut ex, &mut store, &reg, b"*3\n4\nLMOD1\nM5\nCLEAR");
    assert_eq!(out, b"*!1\n1\n".to_vec());
}

#[test]
fn pop_arity_above_one_is_an_action_error() {
    let mut store = list_store();
    let reg = Registry::new_healthy();
    let mut ex = Executor::Auth;
    let out = run(
        &mut ex,
        &mut store,
        &reg,
        b"*5\n4\nLMOD1\nL3\nPOP1\n01\n0",
    );
    assert_eq!(out, b"*!1\n3\n".to_vec());
}

#[test]
fn unknown_subcommand() {
    let mut store = list_store();
    let reg = Registry::new_healthy();
    let mut ex = Executor::Auth;
    let out = run(&mut ex, &mut store, &reg, b"*3\n4\nLMOD1\nL4\nFROB");
    assert_eq!(out, b"*!14\nunknown-action\n".to_vec());
}

#[test]
fn lmod_on_a_blob_table_is_a_model_error() {
    let mut store = Corestore::new();
    let reg = Registry::new_healthy();
    let mut ex = Executor::Auth;
    let out = run(&mut ex, &mut store, &reg, b"*3\n4\nLMOD1\nL5\nCLEAR");
    assert_eq!(out, b"*!11\nwrong-model\n".to_vec());
}

#[test]
fn poisoned_registry_fences_mutations() {
    let mut store = list_store();
    let mut reg = Registry::new_healthy();
    let healthy = Registry::new_healthy();
    let mut ex = Executor::Auth;
    run(&mut ex, &mut store, &healthy, b"*4\n4\nLMOD1\nL4\nPUSH1\na");
    reg.poison();
    let before = snapshot(&store, b"L");
    let out = run(&mut ex, &mut store, &reg, b"*4\n4\nLMOD1\nL4\nPUSH1\nb");
    assert_eq!(out, b"*!12\nserver-error\n".to_vec());
    let out = run(&mut ex, &mut store, &reg, b"*3\n4\nLMOD1\nL5\nCLEAR");
    assert_eq!(out, b"*!12\nserver-error\n".to_vec());
    // the store is untouched
    assert_eq!(snapshot(&store, b"L"), before);
    // and recovers once the registry is healthy again
    reg.unpoison();
    let out = run(&mut ex, &mut store, &reg, b"*3\n4\nLMOD1\nL5\nCLEAR");
    assert_eq!(out, b"*!1\n0\n".to_vec());
}

#[test]
fn poisoned_registry_fences_blob_writes() {
    let mut store = Corestore::new();
    let mut reg = Registry::new_healthy();
    let mut ex = Executor::Auth;
    reg.poison();
    let out = run(&mut ex, &mut store, &reg, b"*3\n3\nSET1\nk1\nv");
    assert_eq!(out, b"*!12\nserver-error\n".to_vec());
    let out = run(&mut ex, &mut store, &reg, b"*2\n3\nGET1\nk");
    assert_eq!(out, b"*!1\n1\n".to_vec());
}

#[test]
fn unicode_list_rejects_bad_payloads() {
    let mut store = Corestore::new();
    let reg = Registry::new_healthy();
    let mut ex = Executor::Auth;
    let out = run(
        &mut ex,
        &mut store,
        &reg,
        b"*4\n6\nCREATE5\nTABLE5\nunitb24\nkeymap(binstr,list<str>)",
    );
    assert_eq!(out, b"*!1\n0\n".to_vec());
    store.set_current(b"default", b"unitb").unwrap();
    assert_eq!(store.cur_list_add(b"L".to_vec()), Some(true));
    let out = run(&mut ex, &mut store, &reg, b"*4\n4\nLMOD1\nL4\nPUSH1\n\xff");
    assert_eq!(out, b"*!14\nencoding-error\n".to_vec());
    assert_eq!(snapshot(&store, b"L"), Vec::<Vec<u8>>::new());
    // a well-formed unicode payload is accepted
    let out = run(&mut ex, &mut store, &reg, b"*4\n4\nLMOD1\nL4\nPUSH2\n\xc3\xa9");
    assert_eq!(out, b"*!1\n0\n".to_vec());
}
