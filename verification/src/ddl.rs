use vstd::prelude::*;

use crate::coremap::bytes_eq;
use crate::memstore::Corestore;
use crate::memstore::DdlError;
use crate::memstore::KeyspaceModel;
use crate::memstore::StoreModel;
use crate::memstore::TableModel;
use crate::memstore::model_of_code;
use crate::memstore::name_ok;
use crate::memstore::spec_name_ok;
use crate::protocol::UnsafeSlice;
use crate::protocol::slices_in_range;
use crate::queryengine::args_of;
use crate::queryengine::find_byte;
use crate::queryengine::find_byte_at;
use crate::queryengine::find_byte_from;
use crate::queryengine::spec_upper;
use crate::queryengine::to_upper;
use crate::registry::Registry;
use crate::responses::action_err_resp;
use crate::responses::already_exists_resp;
use crate::responses::ascii_bytes;
use crate::responses::ascii_seq;
use crate::responses::bad_expression_resp;
use crate::responses::container_name_too_long_resp;
use crate::responses::container_not_found_resp;
use crate::responses::default_container_unset_resp;
use crate::responses::encoding_error_resp;
use crate::responses::not_empty_resp;
use crate::responses::okay_resp;
use crate::responses::server_err_resp;
use crate::responses::unknown_action_resp;
use crate::responses::unknown_ddl_query_resp;
use crate::responses::unknown_property_resp;
use crate::responses::write_action_err;
use crate::responses::write_already_exists;
use crate::responses::write_bad_expression;
use crate::responses::write_container_name_too_long;
use crate::responses::write_container_not_found;
use crate::responses::write_default_container_unset;
use crate::responses::write_encoding_error;
use crate::responses::write_not_empty;
use crate::responses::write_okay;
use crate::responses::write_server_err;
use crate::responses::write_unknown_action;
use crate::responses::write_unknown_ddl_query;
use crate::responses::write_unknown_property;

verus! {

broadcast use vstd::slice::group_slice_axioms;

// ---------------------------------------------------------------------------
// Entity and model grammar
// ---------------------------------------------------------------------------

/// Split an entity spelling: `tbl` or `ks:tbl`, with at most one colon.
pub open spec fn sp_entity(s: Seq<u8>) -> Option<(Option<Seq<u8>>, Seq<u8>)> {
    match find_byte(s, 58, 0) {
        None => Some((None, s)),
        Some(p) => if find_byte(s, 58, p + 1) is Some {
            None
        } else {
            Some((Some(s.subrange(0, p)), s.subrange(p + 1, s.len() as int)))
        },
    }
}

/// Parse and validate an entity spelling; on failure the canned reply.
pub open spec fn sp_entity_checked(s: Seq<u8>) -> Result<(Option<Seq<u8>>, Seq<u8>), Seq<u8>> {
    match sp_entity(s) {
        None => Err(bad_expression_resp()),
        Some((ks, tbl)) => if (ks matches Some(k) && !spec_name_ok(k)) || !spec_name_ok(tbl) {
            Err(bad_expression_resp())
        } else if (ks matches Some(k) && k.len() >= 64) || tbl.len() >= 64 {
            Err(container_name_too_long_resp())
        } else {
            Ok((ks, tbl))
        },
    }
}

/// The model code a model spelling denotes, if any.
pub open spec fn sp_model_code_of(s: Seq<u8>) -> Option<int> {
    if s == ascii_seq("keymap(binstr,binstr)"@) {
        Some(0int)
    } else if s == ascii_seq("keymap(binstr,str)"@) {
        Some(1int)
    } else if s == ascii_seq("keymap(str,binstr)"@) {
        Some(2int)
    } else if s == ascii_seq("keymap(str,str)"@) {
        Some(3int)
    } else if s == ascii_seq("keymap(binstr,list<binstr>)"@) {
        Some(4int)
    } else if s == ascii_seq("keymap(binstr,list<str>)"@) {
        Some(5int)
    } else if s == ascii_seq("keymap(str,list<binstr>)"@) {
        Some(6int)
    } else if s == ascii_seq("keymap(str,list<str>)"@) {
        Some(7int)
    } else {
        None
    }
}

/// Parse a model spelling into its code.
pub fn parse_model_code(s: &[u8]) -> (r: Option<u8>)
    ensures
        match r {
            Some(c) => sp_model_code_of(s@) == Some(c as int) && c < 8,
            None => sp_model_code_of(s@) is None,
        },
{
    proof {
        reveal_strlit("keymap(binstr,binstr)");
        reveal_strlit("keymap(binstr,str)");
        reveal_strlit("keymap(str,binstr)");
        reveal_strlit("keymap(str,str)");
        reveal_strlit("keymap(binstr,list<binstr>)");
        reveal_strlit("keymap(binstr,list<str>)");
        reveal_strlit("keymap(str,list<binstr>)");
        reveal_strlit("keymap(str,list<str>)");
    }
    let m0 = ascii_bytes("keymap(binstr,binstr)");
    let m1 = ascii_bytes("keymap(binstr,str)");
    let m2 = ascii_bytes("keymap(str,binstr)");
    let m3 = ascii_bytes("keymap(str,str)");
    let m4 = ascii_bytes("keymap(binstr,list<binstr>)");
    let m5 = ascii_bytes("keymap(binstr,list<str>)");
    let m6 = ascii_bytes("keymap(str,list<binstr>)");
    let m7 = ascii_bytes("keymap(str,list<str>)");
    if bytes_eq(s, m0.as_slice()) {
        Some(0)
    } else if bytes_eq(s, m1.as_slice()) {
        Some(1)
    } else if bytes_eq(s, m2.as_slice()) {
        Some(2)
    } else if bytes_eq(s, m3.as_slice()) {
        Some(3)
    } else if bytes_eq(s, m4.as_slice()) {
        Some(4)
    } else if bytes_eq(s, m5.as_slice()) {
        Some(5)
    } else if bytes_eq(s, m6.as_slice()) {
        Some(6)
    } else if bytes_eq(s, m7.as_slice()) {
        Some(7)
    } else {
        None
    }
}

/// Split and validate an entity spelling into its keyspace and table parts.
fn parse_entity<'a>(s: &'a [u8]) -> (r: Result<(Option<&'a [u8]>, &'a [u8]), Vec<u8>>)
    ensures
        match r {
            Ok((ks, tbl)) => sp_entity_checked(s@) matches Ok((sks, stbl)) && tbl@ == stbl
                && (match ks {
                Some(k) => sks == Some(k@),
                None => sks is None,
            }),
            Err(resp) => sp_entity_checked(s@) matches Err(e) && resp@ == e,
        },
{
    let n = s.len();
    match find_byte_at(s, 58) {
        None => {
            if !name_ok(s) {
                return Err(write_bad_expression());
            }
            if s.len() >= 64 {
                return Err(write_container_name_too_long());
            }
            Ok((None, s))
        },
        Some(p) => {
            if find_byte_from(s, 58, p + 1).is_some() {
                return Err(write_bad_expression());
            }
            let ks = vstd::slice::slice_subrange(s, 0, p);
            let tbl = vstd::slice::slice_subrange(s, p + 1, n);
            if !name_ok(ks) || !name_ok(tbl) {
                return Err(write_bad_expression());
            }
            if ks.len() >= 64 || tbl.len() >= 64 {
                return Err(write_container_name_too_long());
            }
            Ok((Some(ks), tbl))
        },
    }
}

// ---------------------------------------------------------------------------
// CREATE
// ---------------------------------------------------------------------------

/// What `CREATE KEYSPACE` does. `args` excludes both verbs.
pub open spec fn sp_create_keyspace(m: StoreModel, okay: bool, args: Seq<Seq<u8>>) -> (
    StoreModel,
    Seq<u8>,
) {
    if args.len() != 1 {
        (m, action_err_resp())
    } else {
        let ks = args[0];
        if !vstd::utf8::valid_utf8(ks) {
            (m, encoding_error_resp())
        } else if !spec_name_ok(ks) {
            (m, bad_expression_resp())
        } else if ks.len() >= 64 {
            (m, container_name_too_long_resp())
        } else if !okay {
            (m, server_err_resp())
        } else if m.keyspaces.contains_key(ks) {
            (m, already_exists_resp())
        } else {
            (
                StoreModel {
                    keyspaces: m.keyspaces.insert(ks, KeyspaceModel { tables: Map::empty() }),
                    cur_ks: m.cur_ks,
                    cur_tbl: m.cur_tbl,
                },
                okay_resp(),
            )
        }
    }
}

/// What `CREATE TABLE` does. `args` excludes both verbs.
pub open spec fn sp_create_table(m: StoreModel, okay: bool, args: Seq<Seq<u8>>) -> (
    StoreModel,
    Seq<u8>,
) {
    if args.len() != 2 && args.len() != 3 {
        (m, action_err_resp())
    } else {
        match sp_entity_checked(args[0]) {
            Err(e) => (m, e),
            Ok((eks, tbl)) => match sp_model_code_of(args[1]) {
                None => (m, bad_expression_resp()),
                Some(code) => if args.len() == 3 && args[2] != ascii_seq("volatile"@) {
                    (m, unknown_property_resp())
                } else {
                    let volatile = args.len() == 3;
                    if !okay {
                        (m, server_err_resp())
                    } else {
                        let tks = match eks {
                            Some(k) => Some(k),
                            None => m.cur_ks,
                        };
                        match tks {
                            None => (m, default_container_unset_resp()),
                            Some(kn) => if !m.keyspaces.contains_key(kn) {
                                (m, container_not_found_resp())
                            } else if m.keyspaces[kn].tables.contains_key(tbl) {
                                (m, already_exists_resp())
                            } else {
                                (
                                    StoreModel {
                                        keyspaces: m.keyspaces.insert(
                                            kn,
                                            KeyspaceModel {
                                                tables: m.keyspaces[kn].tables.insert(
                                                    tbl,
                                                    model_of_code(code, volatile),
                                                ),
                                            },
                                        ),
                                        cur_ks: m.cur_ks,
                                        cur_tbl: m.cur_tbl,
                                    },
                                    okay_resp(),
                                )
                            },
                        }
                    }
                },
            },
        }
    }
}

/// What `CREATE` does: route to keyspace or table creation. `args` excludes
/// the `CREATE` verb.
pub open spec fn sp_create(m: StoreModel, okay: bool, args: Seq<Seq<u8>>) -> (StoreModel, Seq<u8>) {
    if args.len() < 2 {
        (m, action_err_resp())
    } else {
        let what = spec_upper(args[0]);
        if what == ascii_seq("TABLE"@) {
            sp_create_table(m, okay, args.skip(1))
        } else if what == ascii_seq("KEYSPACE"@) {
            sp_create_keyspace(m, okay, args.skip(1))
        } else {
            (m, unknown_ddl_query_resp())
        }
    }
}

/// Handle `CREATE TABLE <entity> <model>(args) [volatile]` and
/// `CREATE KEYSPACE <ksid>`. `elems` excludes the verb.
pub fn create(store: &mut Corestore, reg: &Registry, buf: &[u8], elems: &[UnsafeSlice]) -> (r: Vec<
    u8,
>)
    requires
        old(store).wf(),
        slices_in_range(elems@, 0, buf@.len() as int),
    ensures
        final(store).wf(),
        final(store)@ == sp_create(old(store)@, reg.spec_state_okay(), args_of(buf@, elems@)).0,
        r@ == sp_create(old(store)@, reg.spec_state_okay(), args_of(buf@, elems@)).1,
{
    let ghost args = args_of(buf@, elems@);
    if elems.len() < 2 {
        return write_action_err();
    }
    let what = to_upper(elems[0].as_slice(buf));
    let rest = vstd::slice::slice_subrange(elems, 1, elems.len());
    proof {
        assert(what@ == spec_upper(args[0]));
        assert(args_of(buf@, rest@) =~= args.skip(1));
        reveal_strlit("TABLE");
        reveal_strlit("KEYSPACE");
        reveal_strlit("volatile");
    }
    let tok_table = ascii_bytes("TABLE");
    let tok_keyspace = ascii_bytes("KEYSPACE");
    if bytes_eq(what.as_slice(), tok_table.as_slice()) {
        create_table(store, reg, buf, rest)
    } else if bytes_eq(what.as_slice(), tok_keyspace.as_slice()) {
        create_keyspace(store, reg, buf, rest)
    } else {
        write_unknown_ddl_query()
    }
}

/// Handle the table half of `CREATE`. `elems` excludes both verbs.
pub fn create_table(store: &mut Corestore, reg: &Registry, buf: &[u8], elems: &[UnsafeSlice]) -> (r:
    Vec<u8>)
    requires
        old(store).wf(),
        slices_in_range(elems@, 0, buf@.len() as int),
    ensures
        final(store).wf(),
        final(store)@ == sp_create_table(
            old(store)@,
            reg.spec_state_okay(),
            args_of(buf@, elems@),
        ).0,
        r@ == sp_create_table(old(store)@, reg.spec_state_okay(), args_of(buf@, elems@)).1,
{
    let ghost args = args_of(buf@, elems@);
    if !(elems.len() == 2 || elems.len() == 3) {
        return write_action_err();
    }
    let (eks, tbl) = match parse_entity(elems[0].as_slice(buf)) {
        Ok(p) => p,
        Err(resp) => {
            return resp;
        },
    };
    let code = match parse_model_code(elems[1].as_slice(buf)) {
        Some(c) => c,
        None => {
            return write_bad_expression();
        },
    };
    let volatile = if elems.len() == 3 {
        proof {
            reveal_strlit("volatile");
        }
        let tok_volatile = ascii_bytes("volatile");
        if !bytes_eq(elems[2].as_slice(buf), tok_volatile.as_slice()) {
            return write_unknown_property();
        }
        true
    } else {
        false
    };
    if !reg.state_okay() {
        return write_server_err();
    }
    let tblv = vstd::slice::slice_to_vec(tbl);
    match store.create_table(eks, tblv, code, volatile) {
        Ok(()) => write_okay(),
        Err(DdlError::DefaultContainerUnset) => write_default_container_unset(),
        Err(DdlError::ContainerNotFound) => write_container_not_found(),
        Err(DdlError::AlreadyExists) => write_already_exists(),
        Err(DdlError::NotEmpty) => {
            proof {
                assert(false);
            }
            write_server_err()
        },
    }
}

/// Handle the keyspace half of `CREATE`. `elems` excludes both verbs.
pub fn create_keyspace(
    store: &mut Corestore,
    reg: &Registry,
    buf: &[u8],
    elems: &[UnsafeSlice],
) -> (r: Vec<u8>)
    requires
        old(store).wf(),
        slices_in_range(elems@, 0, buf@.len() as int),
    ensures
        final(store).wf(),
        final(store)@ == sp_create_keyspace(
            old(store)@,
            reg.spec_state_okay(),
            args_of(buf@, elems@),
        ).0,
        r@ == sp_create_keyspace(old(store)@, reg.spec_state_okay(), args_of(buf@, elems@)).1,
{
    let ghost args = args_of(buf@, elems@);
    if elems.len() != 1 {
        return write_action_err();
    }
    let ksid = elems[0].as_slice(buf);
    if !crate::kvengine::bytes_are_utf8(ksid) {
        return write_encoding_error();
    }
    if !name_ok(ksid) {
        return write_bad_expression();
    }
    if ksid.len() >= 64 {
        return write_container_name_too_long();
    }
    if !reg.state_okay() {
        return write_server_err();
    }
    match store.create_keyspace(vstd::slice::slice_to_vec(ksid)) {
        Ok(()) => write_okay(),
        Err(_) => write_already_exists(),
    }
}

// ---------------------------------------------------------------------------
// DROP
// ---------------------------------------------------------------------------

/// What `DROP TABLE` does. `args` excludes both verbs.
pub open spec fn sp_drop_table(m: StoreModel, okay: bool, args: Seq<Seq<u8>>) -> (
    StoreModel,
    Seq<u8>,
) {
    if args.len() != 1 {
        (m, action_err_resp())
    } else {
        match sp_entity_checked(args[0]) {
            Err(e) => (m, e),
            Ok((eks, tbl)) => if !okay {
                (m, server_err_resp())
            } else {
                let tks = match eks {
                    Some(k) => Some(k),
                    None => m.cur_ks,
                };
                match tks {
                    None => (m, default_container_unset_resp()),
                    Some(kn) => if !(m.keyspaces.contains_key(kn)
                        && m.keyspaces[kn].tables.contains_key(tbl)) {
                        (m, container_not_found_resp())
                    } else {
                        (
                            StoreModel {
                                keyspaces: m.keyspaces.insert(
                                    kn,
                                    KeyspaceModel { tables: m.keyspaces[kn].tables.remove(tbl) },
                                ),
                                cur_ks: m.cur_ks,
                                cur_tbl: m.cur_tbl,
                            },
                            okay_resp(),
                        )
                    },
                }
            },
        }
    }
}

/// What `DROP KEYSPACE` does. `args` excludes both verbs.
pub open spec fn sp_drop_keyspace(m: StoreModel, okay: bool, args: Seq<Seq<u8>>) -> (
    StoreModel,
    Seq<u8>,
) {
    if args.len() != 1 && args.len() != 2 {
        (m, action_err_resp())
    } else if args.len() == 2 && args[1] != ascii_seq("force"@) {
        (m, unknown_action_resp())
    } else {
        let force = args.len() == 2;
        let ks = args[0];
        if ks.len() >= 64 {
            (m, container_name_too_long_resp())
        } else if !okay {
            (m, server_err_resp())
        } else if !m.keyspaces.contains_key(ks) {
            (m, container_not_found_resp())
        } else if !force && m.keyspaces[ks].tables != Map::<Seq<u8>, TableModel>::empty() {
            (m, not_empty_resp())
        } else {
            (
                StoreModel {
                    keyspaces: m.keyspaces.remove(ks),
                    cur_ks: m.cur_ks,
                    cur_tbl: m.cur_tbl,
                },
                okay_resp(),
            )
        }
    }
}

/// What `DROP` does: route to keyspace or table removal. `args` excludes
/// the `DROP` verb.
pub open spec fn sp_ddl_drop(m: StoreModel, okay: bool, args: Seq<Seq<u8>>) -> (
    StoreModel,
    Seq<u8>,
) {
    if args.len() < 2 {
        (m, action_err_resp())
    } else {
        let what = spec_upper(args[0]);
        if what == ascii_seq("TABLE"@) {
            sp_drop_table(m, okay, args.skip(1))
        } else if what == ascii_seq("KEYSPACE"@) {
            sp_drop_keyspace(m, okay, args.skip(1))
        } else {
            (m, unknown_ddl_query_resp())
        }
    }
}

/// Law: with the registry poisoned, `CREATE` never touches the store, and
/// any creation a healthy registry would have accepted is answered with
/// the server-error group instead.
pub proof fn lemma_create_poisoned(m: StoreModel, args: Seq<Seq<u8>>)
    ensures
        sp_create(m, false, args).0 == m,
        (sp_create(m, true, args).0 != m || sp_create(m, true, args).1 == okay_resp())
            ==> sp_create(m, false, args).1 == server_err_resp(),
{
    crate::responses::lemma_okay_resp_distinct();
}

/// Law: with the registry poisoned, `DROP` never touches the store, and
/// any removal a healthy registry would have accepted is answered with the
/// server-error group instead.
pub proof fn lemma_ddl_drop_poisoned(m: StoreModel, args: Seq<Seq<u8>>)
    ensures
        sp_ddl_drop(m, false, args).0 == m,
        (sp_ddl_drop(m, true, args).0 != m || sp_ddl_drop(m, true, args).1 == okay_resp())
            ==> sp_ddl_drop(m, false, args).1 == server_err_resp(),
{
    crate::responses::lemma_okay_resp_distinct();
}

/// Handle `DROP TABLE <entity>` and `DROP KEYSPACE <ksid> [force]`.
/// `elems` excludes the verb.
pub fn ddl_drop(store: &mut Corestore, reg: &Registry, buf: &[u8], elems: &[UnsafeSlice]) -> (r:
    Vec<u8>)
    requires
        old(store).wf(),
        slices_in_range(elems@, 0, buf@.len() as int),
    ensures
        final(store).wf(),
        final(store)@ == sp_ddl_drop(old(store)@, reg.spec_state_okay(), args_of(buf@, elems@)).0,
        r@ == sp_ddl_drop(old(store)@, reg.spec_state_okay(), args_of(buf@, elems@)).1,
{
    let ghost args = args_of(buf@, elems@);
    if elems.len() < 2 {
        return write_action_err();
    }
    let what = to_upper(elems[0].as_slice(buf));
    let rest = vstd::slice::slice_subrange(elems, 1, elems.len());
    proof {
        assert(what@ == spec_upper(args[0]));
        assert(args_of(buf@, rest@) =~= args.skip(1));
        reveal_strlit("TABLE");
        reveal_strlit("KEYSPACE");
    }
    let tok_table = ascii_bytes("TABLE");
    let tok_keyspace = ascii_bytes("KEYSPACE");
    if bytes_eq(what.as_slice(), tok_table.as_slice()) {
        drop_table(store, reg, buf, rest)
    } else if bytes_eq(what.as_slice(), tok_keyspace.as_slice()) {
        drop_keyspace(store, reg, buf, rest)
    } else {
        write_unknown_ddl_query()
    }
}

/// Handle the table half of `DROP`. `elems` excludes both verbs.
pub fn drop_table(store: &mut Corestore, reg: &Registry, buf: &[u8], elems: &[UnsafeSlice]) -> (r:
    Vec<u8>)
    requires
        old(store).wf(),
        slices_in_range(elems@, 0, buf@.len() as int),
    ensures
        final(store).wf(),
        final(store)@ == sp_drop_table(old(store)@, reg.spec_state_okay(), args_of(buf@, elems@)).0,
        r@ == sp_drop_table(old(store)@, reg.spec_state_okay(), args_of(buf@, elems@)).1,
{
    let ghost args = args_of(buf@, elems@);
    if elems.len() != 1 {
        return write_action_err();
    }
    let (eks, tbl) = match parse_entity(elems[0].as_slice(buf)) {
        Ok(p) => p,
        Err(resp) => {
            return resp;
        },
    };
    if !reg.state_okay() {
        return write_server_err();
    }
    match store.drop_table(eks, tbl) {
        Ok(()) => write_okay(),
        Err(DdlError::DefaultContainerUnset) => write_default_container_unset(),
        Err(DdlError::ContainerNotFound) => write_container_not_found(),
        Err(_) => {
            proof {
                assert(false);
            }
            write_server_err()
        },
    }
}

/// Handle the keyspace half of `DROP`. `elems` excludes both verbs.
pub fn drop_keyspace(store: &mut Corestore, reg: &Registry, buf: &[u8], elems: &[UnsafeSlice]) -> (
    r: Vec<u8>)
    requires
        old(store).wf(),
        slices_in_range(elems@, 0, buf@.len() as int),
    ensures
        final(store).wf(),
        final(store)@ == sp_drop_keyspace(
            old(store)@,
            reg.spec_state_okay(),
            args_of(buf@, elems@),
        ).0,
        r@ == sp_drop_keyspace(old(store)@, reg.spec_state_okay(), args_of(buf@, elems@)).1,
{
    let ghost args = args_of(buf@, elems@);
    if !(elems.len() == 1 || elems.len() == 2) {
        return write_action_err();
    }
    let force = if elems.len() == 2 {
        proof {
            reveal_strlit("force");
        }
        let tok_force = ascii_bytes("force");
        if !bytes_eq(elems[1].as_slice(buf), tok_force.as_slice()) {
            return write_unknown_action();
        }
        true
    } else {
        false
    };
    let ksid = elems[0].as_slice(buf);
    if ksid.len() >= 64 {
        return write_container_name_too_long();
    }
    if !reg.state_okay() {
        return write_server_err();
    }
    if force {
        match store.force_drop_keyspace(ksid) {
            Ok(()) => write_okay(),
            Err(_) => write_container_not_found(),
        }
    } else {
        match store.drop_keyspace(ksid) {
            Ok(()) => write_okay(),
            Err(DdlError::ContainerNotFound) => write_container_not_found(),
            Err(DdlError::NotEmpty) => write_not_empty(),
            Err(_) => {
                proof {
                    assert(false);
                }
                write_server_err()
            },
        }
    }
}

} // verus!
