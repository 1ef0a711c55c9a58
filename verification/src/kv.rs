use vstd::prelude::*;

use crate::kvengine::spec_encoding_ok;
use crate::memstore::Corestore;
use crate::memstore::StoreModel;
use crate::memstore::TableError;
use crate::memstore::cur_kv;
use crate::memstore::cur_table;
use crate::memstore::with_cur_kv;
use crate::protocol::UnsafeSlice;
use crate::protocol::slices_in_range;
use crate::queryengine::args_of;
use crate::queryengine::table_error_resp;
use crate::registry::Registry;
use crate::responses::TSYMBOL_BINARY;
use crate::responses::TSYMBOL_UNICODE;
use crate::responses::action_err_resp;
use crate::responses::encoding_error_resp;
use crate::responses::nil_resp;
use crate::responses::okay_resp;
use crate::responses::overwrite_err_resp;
use crate::responses::server_err_resp;
use crate::responses::spec_mono;
use crate::responses::wrong_model_resp;
use crate::responses::write_action_err;
use crate::responses::write_container_not_found;
use crate::responses::write_default_container_unset;
use crate::responses::write_encoding_error;
use crate::responses::write_mono;
use crate::responses::write_nil;
use crate::responses::write_okay;
use crate::responses::write_overwrite_err;
use crate::responses::write_server_err;
use crate::responses::write_wrong_model;

verus! {

broadcast use vstd::slice::group_slice_axioms;

/// The type symbol the current blob table's values carry.
pub open spec fn sp_kv_tsym(m: StoreModel) -> u8 {
    if cur_table(m)->0.v_enc {
        TSYMBOL_UNICODE
    } else {
        TSYMBOL_BINARY
    }
}

/// What `SET` does: bind a fresh key, never overwrite. `args` excludes the
/// verb.
pub open spec fn sp_set(m: StoreModel, okay: bool, args: Seq<Seq<u8>>) -> (StoreModel, Seq<u8>) {
    if args.len() != 2 {
        (m, action_err_resp())
    } else if cur_table(m) is None {
        (m, table_error_resp(m))
    } else if cur_table(m)->0.is_list {
        (m, wrong_model_resp())
    } else {
        let t = cur_table(m)->0;
        let key = args[0];
        let val = args[1];
        if !spec_encoding_ok(t.k_enc, key) || !spec_encoding_ok(t.v_enc, val) {
            (m, encoding_error_resp())
        } else if !okay {
            (m, server_err_resp())
        } else if t.kv.contains_key(key) {
            (m, overwrite_err_resp())
        } else {
            (with_cur_kv(m, t.kv.insert(key, val)), okay_resp())
        }
    }
}

/// What `GET` does: the value under its type symbol, or nil. `args`
/// excludes the verb.
pub open spec fn sp_get(m: StoreModel, args: Seq<Seq<u8>>) -> Seq<u8> {
    if args.len() != 1 {
        action_err_resp()
    } else if cur_table(m) is None {
        table_error_resp(m)
    } else if cur_table(m)->0.is_list {
        wrong_model_resp()
    } else {
        let t = cur_table(m)->0;
        let key = args[0];
        if !spec_encoding_ok(t.k_enc, key) {
            encoding_error_resp()
        } else if !t.kv.contains_key(key) {
            nil_resp()
        } else {
            spec_mono(sp_kv_tsym(m), t.kv[key])
        }
    }
}

/// Law: with the registry poisoned, `SET` never touches the store, and any
/// write a healthy registry would have accepted is answered with the
/// server-error group instead.
pub proof fn lemma_set_poisoned(m: StoreModel, args: Seq<Seq<u8>>)
    ensures
        sp_set(m, false, args).0 == m,
        (sp_set(m, true, args).0 != m || sp_set(m, true, args).1
            == crate::responses::okay_resp()) ==> sp_set(m, false, args).1
            == server_err_resp(),
{
    crate::responses::lemma_okay_resp_distinct();
}

/// Handle `SET <key> <value>` on the currently selected blob table.
/// `elems` excludes the verb.
pub fn set(store: &mut Corestore, reg: &Registry, buf: &[u8], elems: &[UnsafeSlice]) -> (r: Vec<u8>)
    requires
        old(store).wf(),
        slices_in_range(elems@, 0, buf@.len() as int),
    ensures
        final(store).wf(),
        final(store)@ == sp_set(old(store)@, reg.spec_state_okay(), args_of(buf@, elems@)).0,
        r@ == sp_set(old(store)@, reg.spec_state_okay(), args_of(buf@, elems@)).1,
{
    if elems.len() != 2 {
        return write_action_err();
    }
    let is_list = match store.current_table_kind() {
        Ok(k) => k,
        Err(e) => match e {
            TableError::DefaultContainerUnset => {
                return write_default_container_unset();
            },
            _ => {
                return write_container_not_found();
            },
        },
    };
    if is_list {
        return write_wrong_model();
    }
    let key = elems[0].as_slice(buf);
    let val = elems[1].as_slice(buf);
    let (k_enc, v_enc) = store.cur_blob_encodings();
    if !crate::kvengine::encoding_ok(k_enc, key) || !crate::kvengine::encoding_ok(v_enc, val) {
        return write_encoding_error();
    }
    if !reg.state_okay() {
        return write_server_err();
    }
    if store.cur_kv_set(vstd::slice::slice_to_vec(key), vstd::slice::slice_to_vec(val)) {
        write_okay()
    } else {
        write_overwrite_err()
    }
}

/// Handle `GET <key>` on the currently selected blob table. `elems`
/// excludes the verb.
pub fn get(store: &Corestore, buf: &[u8], elems: &[UnsafeSlice]) -> (r: Vec<u8>)
    requires
        store.wf(),
        slices_in_range(elems@, 0, buf@.len() as int),
    ensures
        r@ == sp_get(store@, args_of(buf@, elems@)),
{
    if elems.len() != 1 {
        return write_action_err();
    }
    let is_list = match store.current_table_kind() {
        Ok(k) => k,
        Err(e) => match e {
            TableError::DefaultContainerUnset => {
                return write_default_container_unset();
            },
            _ => {
                return write_container_not_found();
            },
        },
    };
    if is_list {
        return write_wrong_model();
    }
    let key = elems[0].as_slice(buf);
    let (k_enc, v_enc) = store.cur_blob_encodings();
    if !crate::kvengine::encoding_ok(k_enc, key) {
        return write_encoding_error();
    }
    let tsym = if v_enc {
        TSYMBOL_UNICODE
    } else {
        TSYMBOL_BINARY
    };
    match store.cur_kv_get(key) {
        Some(v) => write_mono(tsym, v.as_slice()),
        None => write_nil(),
    }
}

} // verus!
