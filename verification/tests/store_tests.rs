use skycore::connection::execute_query;
use skycore::connection::Executor;
use skycore::kvengine::KVEBlob;
use skycore::kvengine::KVEListMap;
use skycore::memstore::Corestore;
use skycore::memstore::Table;
use skycore::protocol::Parser;
use skycore::registry::Registry;

fn run(ex: &mut Executor, store: &mut Corestore, reg: &Registry, buf: &[u8]) -> Vec<u8> {
    let (q, n) = Parser::parse(buf).expect("frame must parse");
    assert_eq!(n, buf.len());
    execute_query(ex, store, reg, false, buf, q)
}

#[test]
fn encoders_follow_the_table_flags() {
    let lm = KVEListMap::new(true, false);
    assert!(!lm.get_id_encoder().is_ok(b"\xff"));
    assert!(lm.get_id_encoder().is_ok("caf\u{e9}".as_bytes()));
    assert!(lm.get_payload_encoder().is_ok(b"\xff"));
    assert!(!lm.encode_key(b"\xff\xfe"));
    assert!(lm.encode_key(b"plain"));

    let blob = KVEBlob::new(false, true);
    assert!(blob.is_key_ok(b"\xff"));
    assert!(!blob.is_val_ok(b"\xff"));
    assert!(blob.get_val_encoder().is_ok(b"text"));
}

#[test]
fn blob_table_inserts_without_overwrite() {
    let mut blob = KVEBlob::new(false, false);
    assert!(blob.true_if_insert(b"k".to_vec(), b"v".to_vec()));
    assert!(!blob.true_if_insert(b"k".to_vec(), b"w".to_vec()));
    assert_eq!(blob.get(b"k").map(|v| v.as_slice()), Some(&b"v"[..]));
    assert_eq!(blob.get(b"nope"), None);
}

#[test]
fn list_map_tracks_lengths() {
    let mut lm = KVEListMap::new(false, false);
    assert_eq!(lm.add_list(b"L".to_vec()), Some(true));
    assert_eq!(lm.add_list(b"L".to_vec()), Some(false));
    assert_eq!(lm.len(b"L"), Some(0));
    lm.push_elems(b"L", vec![b"a".to_vec(), b"b".to_vec()]);
    assert_eq!(lm.len(b"L"), Some(2));
    assert_eq!(lm.len(b"M"), None);
    assert!(lm.has_list(b"L"));
    assert!(!lm.has_list(b"M"));
}

#[test]
fn unicode_list_map_rejects_bad_names() {
    let mut lm = KVEListMap::new(true, false);
    assert_eq!(lm.add_list(b"\xff".to_vec()), None);
    assert_eq!(lm.add_list(b"fine".to_vec()), Some(true));
}

#[test]
fn model_codes_round_trip() {
    for code in 0u8..8 {
        let t = Table::from_model_code(code, false).unwrap();
        assert_eq!(t.model_code(), code);
    }
    assert!(Table::from_model_code(8, false).is_none());
    // value type symbols: `?` for binary values, `+` for unicode values
    assert_eq!(Table::from_model_code(0, false).unwrap().get_value_tsymbol(), b'?');
    assert_eq!(Table::from_model_code(1, false).unwrap().get_value_tsymbol(), b'+');
    assert_eq!(Table::from_model_code(4, false).unwrap().get_value_tsymbol(), b'?');
    assert_eq!(Table::from_model_code(7, false).unwrap().get_value_tsymbol(), b'+');
}

#[test]
fn keyspace_names_must_be_utf8() {
    let mut store = Corestore::new();
    let reg = Registry::new_healthy();
    let mut ex = Executor::Auth;
    let out = run(&mut ex, &mut store, &reg, b"*3\n6\nCREATE8\nKEYSPACE2\n\xff\xfe");
    assert_eq!(out, b"*!14\nencoding-error\n".to_vec());
}

#[test]
fn list_length_is_readable_through_the_store() {
    let mut store = Corestore::new();
    let reg = Registry::new_healthy();
    let mut ex = Executor::Auth;
    run(
        &mut ex,
        &mut store,
        &reg,
        b"*4\n6\nCREATE5\nTABLE5\nmytbl27\nkeymap(binstr,list<binstr>)",
    );
    store.set_current(b"default", b"mytbl").unwrap();
    store.cur_list_add(b"L".to_vec());
    assert_eq!(store.cur_list_len(b"L"), Some(0));
    run(&mut ex, &mut store, &reg, b"*5\n4\nLMOD1\nL4\nPUSH1\na1\nb");
    assert_eq!(store.cur_list_len(b"L"), Some(2));
    assert_eq!(store.cur_list_len(b"M"), None);
}
