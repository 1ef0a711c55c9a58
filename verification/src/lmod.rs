use vstd::prelude::*;

use crate::coremap::bytes_eq;
use crate::kvengine::spec_encoding_ok;
use crate::memstore::Corestore;
use crate::memstore::StoreModel;
use crate::memstore::TableError;
use crate::memstore::cur_lists;
use crate::memstore::cur_table;
use crate::memstore::with_cur_lists;
use crate::protocol::UnsafeSlice;
use crate::protocol::slices_in_range;
use crate::queryengine::args_of;
use crate::queryengine::spec_parse_idx;
use crate::queryengine::spec_upper;
use crate::queryengine::table_error_resp;
use crate::queryengine::parse_idx;
use crate::queryengine::to_upper;
use crate::registry::Registry;
use crate::responses::TSYMBOL_BINARY;
use crate::responses::TSYMBOL_UNICODE;
use crate::responses::action_err_resp;
use crate::responses::ascii_bytes;
use crate::responses::ascii_seq;
use crate::responses::bad_index_resp;
use crate::responses::encoding_error_resp;
use crate::responses::nil_resp;
use crate::responses::okay_resp;
use crate::responses::server_err_resp;
use crate::responses::spec_mono;
use crate::responses::unknown_action_resp;
use crate::responses::wrong_model_resp;
use crate::responses::wrongtype_err_resp;
use crate::responses::write_action_err;
use crate::responses::write_bad_index;
use crate::responses::write_container_not_found;
use crate::responses::write_default_container_unset;
use crate::responses::write_encoding_error;
use crate::responses::write_mono;
use crate::responses::write_nil;
use crate::responses::write_okay;
use crate::responses::write_server_err;
use crate::responses::write_unknown_action;
use crate::responses::write_wrong_model;
use crate::responses::write_wrongtype_err;

verus! {

broadcast use vstd::slice::group_slice_axioms;

/// Every value of `vs` passes the encoding requirement `enc`.
pub open spec fn all_vals_ok(enc: bool, vs: Seq<Seq<u8>>) -> bool {
    forall|i: int| 0 <= i < vs.len() ==> spec_encoding_ok(enc, #[trigger] vs[i])
}

/// The type symbol the current list table's values carry.
pub open spec fn sp_list_tsym(m: StoreModel) -> u8 {
    if cur_table(m)->0.v_enc {
        TSYMBOL_UNICODE
    } else {
        TSYMBOL_BINARY
    }
}

/// What `LMOD` does: the new store and the reply, for every input.
/// `args` excludes the verb: `<listname> <SUBCMD> [args…]`.
pub open spec fn sp_lmod(m: StoreModel, okay: bool, args: Seq<Seq<u8>>) -> (StoreModel, Seq<u8>) {
    if args.len() < 2 {
        (m, action_err_resp())
    } else if cur_table(m) is None {
        (m, table_error_resp(m))
    } else if !cur_table(m)->0.is_list {
        (m, wrong_model_resp())
    } else {
        let t = cur_table(m)->0;
        let name = args[0];
        let sub = spec_upper(args[1]);
        let rest = args.skip(2);
        if sub == ascii_seq("CLEAR"@) {
            if rest.len() != 0 {
                (m, action_err_resp())
            } else if !t.lists.contains_key(name) {
                (m, nil_resp())
            } else if !okay {
                (m, server_err_resp())
            } else {
                (with_cur_lists(m, t.lists.insert(name, Seq::empty())), okay_resp())
            }
        } else if sub == ascii_seq("PUSH"@) {
            if rest.len() == 0 {
                (m, action_err_resp())
            } else if !t.lists.contains_key(name) {
                (m, nil_resp())
            } else if !all_vals_ok(t.v_enc, rest) {
                (m, encoding_error_resp())
            } else if !okay {
                (m, server_err_resp())
            } else {
                (with_cur_lists(m, t.lists.insert(name, t.lists[name] + rest)), okay_resp())
            }
        } else if sub == ascii_seq("REMOVE"@) {
            if rest.len() != 1 {
                (m, action_err_resp())
            } else {
                match spec_parse_idx(rest[0]) {
                    None => (m, wrongtype_err_resp()),
                    Some(idx) => if !okay {
                        (m, server_err_resp())
                    } else if !t.lists.contains_key(name) {
                        (m, nil_resp())
                    } else if idx < t.lists[name].len() {
                        (
                            with_cur_lists(m, t.lists.insert(name, t.lists[name].remove(idx))),
                            okay_resp(),
                        )
                    } else {
                        (m, bad_index_resp())
                    },
                }
            }
        } else if sub == ascii_seq("INSERT"@) {
            if rest.len() != 2 {
                (m, action_err_resp())
            } else {
                match spec_parse_idx(rest[0]) {
                    None => (m, wrongtype_err_resp()),
                    Some(idx) => if !spec_encoding_ok(t.v_enc, rest[1]) {
                        (m, encoding_error_resp())
                    } else if !okay {
                        (m, server_err_resp())
                    } else if !spec_encoding_ok(t.k_enc, name) {
                        (m, encoding_error_resp())
                    } else if !t.lists.contains_key(name) {
                        (m, nil_resp())
                    } else if idx < t.lists[name].len() {
                        (
                            with_cur_lists(
                                m,
                                t.lists.insert(name, t.lists[name].insert(idx, rest[1])),
                            ),
                            okay_resp(),
                        )
                    } else {
                        (m, bad_index_resp())
                    },
                }
            }
        } else if sub == ascii_seq("POP"@) {
            if rest.len() >= 2 {
                (m, action_err_resp())
            } else if rest.len() == 1 && spec_parse_idx(rest[0]) is None {
                (m, wrongtype_err_resp())
            } else if !okay {
                (m, server_err_resp())
            } else if !spec_encoding_ok(t.k_enc, name) {
                (m, encoding_error_resp())
            } else if !t.lists.contains_key(name) {
                (m, nil_resp())
            } else {
                let lst = t.lists[name];
                if rest.len() == 1 {
                    let idx = spec_parse_idx(rest[0])->0;
                    if idx < lst.len() {
                        (
                            with_cur_lists(m, t.lists.insert(name, lst.remove(idx))),
                            spec_mono(sp_list_tsym(m), lst[idx]),
                        )
                    } else {
                        (m, bad_index_resp())
                    }
                } else {
                    if lst.len() > 0 {
                        (
                            with_cur_lists(m, t.lists.insert(name, lst.drop_last())),
                            spec_mono(sp_list_tsym(m), lst.last()),
                        )
                    } else {
                        (m, bad_index_resp())
                    }
                }
            }
        } else {
            (m, unknown_action_resp())
        }
    }
}

/// Law: `PUSH` appends in argument order. On a healthy registry, with a
/// list table selected, the named list present and every value passing the
/// value encoder, `LMOD <l> PUSH v…` answers okay and the list afterwards
/// reads as its old contents followed by the pushed values, in submission
/// order — which is exactly what a subsequent range read returns.
pub proof fn lemma_lmod_push_appends(m: StoreModel, args: Seq<Seq<u8>>)
    requires
        args.len() >= 3,
        cur_table(m) is Some,
        cur_table(m)->0.is_list,
        spec_upper(args[1]) == ascii_seq("PUSH"@),
        cur_lists(m).contains_key(args[0]),
        all_vals_ok(cur_table(m)->0.v_enc, args.skip(2)),
    ensures
        sp_lmod(m, true, args).1 == okay_resp(),
        cur_lists(sp_lmod(m, true, args).0).contains_key(args[0]),
        cur_lists(sp_lmod(m, true, args).0)[args[0]] == cur_lists(m)[args[0]] + args.skip(2),
{
    reveal_strlit("CLEAR");
    reveal_strlit("PUSH");
    assert(ascii_seq("PUSH"@).len() != ascii_seq("CLEAR"@).len());
    let t = cur_table(m)->0;
    crate::memstore::lemma_with_cur_lists_resolves(
        m,
        t.lists.insert(args[0], t.lists[args[0]] + args.skip(2)),
    );
}

/// Law: `INSERT` at index `i` into a list of length `L`: for `i < L` the
/// element lands at `i`, the suffix shifts one place right and the new
/// length is `L + 1`; for `i >= L` the store is left unchanged and the
/// reply is the bad-index group.
pub proof fn lemma_lmod_insert_bounds(m: StoreModel, args: Seq<Seq<u8>>)
    requires
        args.len() == 4,
        cur_table(m) is Some,
        cur_table(m)->0.is_list,
        spec_upper(args[1]) == ascii_seq("INSERT"@),
        spec_parse_idx(args[2]) is Some,
        spec_encoding_ok(cur_table(m)->0.v_enc, args[3]),
        spec_encoding_ok(cur_table(m)->0.k_enc, args[0]),
        cur_lists(m).contains_key(args[0]),
    ensures
        ({
            let i = spec_parse_idx(args[2])->0;
            let lst = cur_lists(m)[args[0]];
            let after = cur_lists(sp_lmod(m, true, args).0)[args[0]];
            if i < lst.len() {
                &&& sp_lmod(m, true, args).1 == okay_resp()
                &&& after.len() == lst.len() + 1
                &&& after == lst.insert(i, args[3])
                &&& forall|j: int| 0 <= j < i ==> after[j] == lst[j]
                &&& after[i] == args[3]
                &&& forall|j: int| i <= j < lst.len() ==> after[j + 1] == lst[j]
            } else {
                &&& sp_lmod(m, true, args).0 == m
                &&& sp_lmod(m, true, args).1 == bad_index_resp()
            }
        }),
{
    reveal_strlit("CLEAR");
    reveal_strlit("PUSH");
    reveal_strlit("REMOVE");
    reveal_strlit("INSERT");
    assert(ascii_seq("INSERT"@).len() != ascii_seq("CLEAR"@).len());
    assert(ascii_seq("INSERT"@).len() != ascii_seq("PUSH"@).len());
    assert(ascii_seq("INSERT"@)[0] != ascii_seq("REMOVE"@)[0]);
    crate::queryengine::lemma_parse_idx_in_range(args[2]);
    let i = spec_parse_idx(args[2])->0;
    let lst = cur_lists(m)[args[0]];
    let t = cur_table(m)->0;
    if i < lst.len() {
        crate::memstore::lemma_with_cur_lists_resolves(
            m,
            t.lists.insert(args[0], lst.insert(i, args[3])),
        );
        lst.insert_ensures(i, args[3]);
        let after = cur_lists(sp_lmod(m, true, args).0)[args[0]];
        assert(after == lst.insert(i, args[3]));
    }
}

/// Law: with the registry poisoned, `LMOD` never touches the store, and
/// any request a healthy registry would have accepted (one that would have
/// mutated the store or answered okay) is answered with the server-error
/// group instead.
pub proof fn lemma_lmod_poisoned(m: StoreModel, args: Seq<Seq<u8>>)
    ensures
        sp_lmod(m, false, args).0 == m,
        (sp_lmod(m, true, args).0 != m || sp_lmod(m, true, args).1 == okay_resp()) ==> sp_lmod(
            m,
            false,
            args,
        ).1 == server_err_resp(),
{
    crate::responses::lemma_okay_resp_distinct();
}

/// Handle `LMOD` queries: `CLEAR`, `PUSH`, `INSERT`, `REMOVE` and `POP` on
/// a named list of the currently selected list table. Mutations are fenced
/// by the registry and atomic under the list's exclusive lock.
/// `elems` excludes the verb.
#[verifier::loop_isolation(false)]
pub fn lmod(store: &mut Corestore, reg: &Registry, buf: &[u8], elems: &[UnsafeSlice]) -> (r: Vec<
    u8,
>)
    requires
        old(store).wf(),
        slices_in_range(elems@, 0, buf@.len() as int),
    ensures
        final(store).wf(),
        final(store)@ == sp_lmod(old(store)@, reg.spec_state_okay(), args_of(buf@, elems@)).0,
        r@ == sp_lmod(old(store)@, reg.spec_state_okay(), args_of(buf@, elems@)).1,
{
    let ghost args = args_of(buf@, elems@);
    let ghost m0 = store@;
    if elems.len() < 2 {
        return write_action_err();
    }
    let is_list = match store.current_table_kind() {
        Ok(k) => k,
        Err(e) => match e {
            TableError::DefaultContainerUnset => {
                return write_default_container_unset();
            },
            _ => {
                return write_container_not_found();
            },
        },
    };
    if !is_list {
        return write_wrong_model();
    }
    let listname = elems[0].as_slice(buf);
    let sub = to_upper(elems[1].as_slice(buf));
    let rest = vstd::slice::slice_subrange(elems, 2, elems.len());
    proof {
        assert(listname@ == args[0]);
        assert(sub@ == spec_upper(args[1]));
        assert(args_of(buf@, rest@) =~= args.skip(2));
        reveal_strlit("CLEAR");
        reveal_strlit("PUSH");
        reveal_strlit("REMOVE");
        reveal_strlit("INSERT");
        reveal_strlit("POP");
    }
    let ghost spec_result = sp_lmod(m0, reg.spec_state_okay(), args);
    let tok_clear = ascii_bytes("CLEAR");
    let tok_push = ascii_bytes("PUSH");
    let tok_remove = ascii_bytes("REMOVE");
    let tok_insert = ascii_bytes("INSERT");
    let tok_pop = ascii_bytes("POP");
    let (k_enc, v_enc) = store.cur_list_encodings();
    if bytes_eq(sub.as_slice(), tok_clear.as_slice()) {
        if rest.len() != 0 {
            return write_action_err();
        }
        if !store.cur_list_has(listname) {
            return write_nil();
        }
        if !reg.state_okay() {
            return write_server_err();
        }
        store.cur_list_clear(listname);
        write_okay()
    } else if bytes_eq(sub.as_slice(), tok_push.as_slice()) {
        if rest.len() == 0 {
            return write_action_err();
        }
        if !store.cur_list_has(listname) {
            return write_nil();
        }
        let mut values: Vec<Vec<u8>> = Vec::new();
        let mut i: usize = 0;
        let ghost rest_args = args_of(buf@, rest@);
        while i < rest.len()
            invariant
                i <= rest@.len(),
                slices_in_range(rest@, 0, buf@.len() as int),
                values@.len() == i,
                forall|x: int|
                    0 <= x < i ==> (#[trigger] values@[x])@ == rest@[x].view_in(buf@),
                forall|x: int| 0 <= x < i ==> spec_encoding_ok(v_enc, rest@[x].view_in(buf@)),
            decreases rest@.len() - i,
        {
            let e = rest[i].as_slice(buf);
            if !crate::kvengine::encoding_ok(v_enc, e) {
                proof {
                    assert(rest_args[i as int] == rest@[i as int].view_in(buf@));
                    assert(!all_vals_ok(v_enc, rest_args));
                }
                return write_encoding_error();
            }
            values.push(vstd::slice::slice_to_vec(e));
            i = i + 1;
        }
        proof {
            assert(all_vals_ok(v_enc, rest_args)) by {
                assert(forall|x: int|
                    0 <= x < rest_args.len() ==> #[trigger] rest_args[x] == rest@[x].view_in(
                        buf@,
                    ));
            }
        }
        if !reg.state_okay() {
            return write_server_err();
        }
        proof {
            assert(values@.map_values(|v: Vec<u8>| v@) =~= rest_args);
        }
        store.cur_list_push(listname, values);
        proof {
            assert(final(store)@ == spec_result.0);
        }
        write_okay()
    } else if bytes_eq(sub.as_slice(), tok_remove.as_slice()) {
        if rest.len() != 1 {
            return write_action_err();
        }
        let idx = match parse_idx(rest[0].as_slice(buf)) {
            Some(v) => v,
            None => {
                return write_wrongtype_err();
            },
        };
        if !reg.state_okay() {
            return write_server_err();
        }
        if !store.cur_list_has(listname) {
            return write_nil();
        }
        if store.cur_list_remove(listname, idx) {
            write_okay()
        } else {
            write_bad_index()
        }
    } else if bytes_eq(sub.as_slice(), tok_insert.as_slice()) {
        if rest.len() != 2 {
            return write_action_err();
        }
        let idx = match parse_idx(rest[0].as_slice(buf)) {
            Some(v) => v,
            None => {
                return write_wrongtype_err();
            },
        };
        let value = rest[1].as_slice(buf);
        if !crate::kvengine::encoding_ok(v_enc, value) {
            return write_encoding_error();
        }
        if !reg.state_okay() {
            return write_server_err();
        }
        if !crate::kvengine::encoding_ok(k_enc, listname) {
            return write_encoding_error();
        }
        if !store.cur_list_has(listname) {
            return write_nil();
        }
        if store.cur_list_insert(listname, idx, vstd::slice::slice_to_vec(value)) {
            write_okay()
        } else {
            write_bad_index()
        }
    } else if bytes_eq(sub.as_slice(), tok_pop.as_slice()) {
        if rest.len() >= 2 {
            return write_action_err();
        }
        let idx: Option<usize> = if rest.len() == 1 {
            match parse_idx(rest[0].as_slice(buf)) {
                Some(v) => Some(v),
                None => {
                    return write_wrongtype_err();
                },
            }
        } else {
            None
        };
        if !reg.state_okay() {
            return write_server_err();
        }
        if !crate::kvengine::encoding_ok(k_enc, listname) {
            return write_encoding_error();
        }
        if !store.cur_list_has(listname) {
            return write_nil();
        }
        let tsym = if v_enc {
            TSYMBOL_UNICODE
        } else {
            TSYMBOL_BINARY
        };
        match store.cur_list_pop(listname, idx) {
            Some(v) => write_mono(tsym, v.as_slice()),
            None => write_bad_index(),
        }
    } else {
        write_unknown_action()
    }
}

} // verus!
