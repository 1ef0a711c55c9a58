use vstd::prelude::*;

use crate::memstore::Corestore;
use crate::memstore::StoreModel;
use crate::protocol::UnsafeSlice;
use crate::protocol::all_digits;
use crate::protocol::dec_val;
use crate::protocol::lemma_dec_val_mono;
use crate::protocol::lemma_dec_val_nonneg;
use crate::protocol::slices_in_range;
use crate::registry::Registry;
use crate::responses::ascii_bytes;
use crate::responses::ascii_seq;
use crate::responses::bad_credentials_resp;
use crate::responses::okay_resp;
use crate::responses::packet_err_resp;
use crate::responses::unknown_action_resp;
use crate::responses::write_bad_credentials;
use crate::responses::write_okay;
use crate::responses::write_packet_err;
use crate::responses::write_unknown_action;

verus! {

broadcast use vstd::slice::group_slice_axioms;

/// The byte strings a query's element windows denote in buffer `b`.
pub open spec fn args_of(b: Seq<u8>, es: Seq<UnsafeSlice>) -> Seq<Seq<u8>> {
    es.map_values(|e: UnsafeSlice| e.view_in(b))
}

/// The canned reply when the current table cannot be resolved: no selection
/// at all, or a selection pointing at dropped containers.
pub open spec fn table_error_resp(m: crate::memstore::StoreModel) -> Seq<u8> {
    if crate::memstore::cur_entity(m) is None {
        crate::responses::default_container_unset_resp()
    } else {
        crate::responses::container_not_found_resp()
    }
}

/// ASCII uppercase folding, byte by byte.
pub open spec fn spec_upper(s: Seq<u8>) -> Seq<u8> {
    s.map_values(
        |b: u8|
            if 97 <= b <= 122 {
                (b - 32) as u8
            } else {
                b
            },
    )
}

/// ASCII lowercase folding, byte by byte.
pub open spec fn spec_lower(s: Seq<u8>) -> Seq<u8> {
    s.map_values(
        |b: u8|
            if 65 <= b <= 90 {
                (b + 32) as u8
            } else {
                b
            },
    )
}

/// Copy `s` with ASCII letters folded to uppercase.
#[verifier::loop_isolation(false)]
pub fn to_upper(s: &[u8]) -> (r: Vec<u8>)
    ensures
        r@ == spec_upper(s@),
{
    let mut v: Vec<u8> = Vec::new();
    let mut i: usize = 0;
    while i < s.len()
        invariant
            i <= s@.len(),
            v@ =~= spec_upper(s@.subrange(0, i as int)),
        decreases s@.len() - i,
    {
        let b = *vstd::slice::slice_index_get(s, i);
        if b >= 97 && b <= 122 {
            v.push(b - 32);
        } else {
            v.push(b);
        }
        proof {
            assert(v@ =~= spec_upper(s@.subrange(0, i as int + 1)));
        }
        i = i + 1;
    }
    proof {
        assert(s@.subrange(0, s@.len() as int) =~= s@);
    }
    v
}

/// Copy `s` with ASCII letters folded to lowercase.
#[verifier::loop_isolation(false)]
pub fn to_lower(s: &[u8]) -> (r: Vec<u8>)
    ensures
        r@ == spec_lower(s@),
{
    let mut v: Vec<u8> = Vec::new();
    let mut i: usize = 0;
    while i < s.len()
        invariant
            i <= s@.len(),
            v@ =~= spec_lower(s@.subrange(0, i as int)),
        decreases s@.len() - i,
    {
        let b = *vstd::slice::slice_index_get(s, i);
        if b >= 65 && b <= 90 {
            v.push(b + 32);
        } else {
            v.push(b);
        }
        proof {
            assert(v@ =~= spec_lower(s@.subrange(0, i as int + 1)));
        }
        i = i + 1;
    }
    proof {
        assert(s@.subrange(0, s@.len() as int) =~= s@);
    }
    v
}

/// Position of the first occurrence of `b` at or after `i`, if any.
pub open spec fn find_byte(s: Seq<u8>, b: u8, i: int) -> Option<int>
    decreases s.len() - i,
{
    if i < 0 || i >= s.len() {
        None
    } else if s[i] == b {
        Some(i)
    } else {
        find_byte(s, b, i + 1)
    }
}

/// Scan for the first occurrence of `b` in `s`.
#[verifier::loop_isolation(false)]
pub fn find_byte_at(s: &[u8], b: u8) -> (r: Option<usize>)
    ensures
        match r {
            Some(p) => find_byte(s@, b, 0) == Some(p as int) && p < s@.len(),
            None => find_byte(s@, b, 0) is None,
        },
{
    let mut i: usize = 0;
    while i < s.len()
        invariant
            i <= s@.len(),
            find_byte(s@, b, 0) == find_byte(s@, b, i as int),
        decreases s@.len() - i,
    {
        if *vstd::slice::slice_index_get(s, i) == b {
            return Some(i);
        }
        proof {
            assert(find_byte(s@, b, i as int) == find_byte(s@, b, i as int + 1));
        }
        i = i + 1;
    }
    None
}

/// Scan for the first occurrence of `b` in `s` from `i` on.
#[verifier::loop_isolation(false)]
pub fn find_byte_from(s: &[u8], b: u8, from: usize) -> (r: Option<usize>)
    ensures
        match r {
            Some(p) => find_byte(s@, b, from as int) == Some(p as int) && from <= p < s@.len(),
            None => find_byte(s@, b, from as int) is None,
        },
{
    let mut i: usize = from;
    if i > s.len() {
        proof {
            assert(find_byte(s@, b, from as int) is None);
        }
        return None;
    }
    while i < s.len()
        invariant
            from <= i <= s@.len(),
            find_byte(s@, b, from as int) == find_byte(s@, b, i as int),
        decreases s@.len() - i,
    {
        if *vstd::slice::slice_index_get(s, i) == b {
            return Some(i);
        }
        proof {
            assert(find_byte(s@, b, i as int) == find_byte(s@, b, i as int + 1));
        }
        i = i + 1;
    }
    None
}

/// What an index argument means: an optional `+`, then a non-empty run of
/// digits whose value fits in the machine word. Anything else is a type
/// error.
pub open spec fn spec_parse_idx(s: Seq<u8>) -> Option<int> {
    let ds = if s.len() > 0 && s[0] == 43 {
        s.subrange(1, s.len() as int)
    } else {
        s
    };
    if ds.len() == 0 || !all_digits(ds) || dec_val(ds) > usize::MAX as int {
        None
    } else {
        Some(dec_val(ds))
    }
}

/// A decoded index is never negative and always fits the machine word.
pub proof fn lemma_parse_idx_in_range(s: Seq<u8>)
    ensures
        spec_parse_idx(s) matches Some(v) ==> 0 <= v <= usize::MAX as int,
{
    let ds = if s.len() > 0 && s[0] == 43 {
        s.subrange(1, s.len() as int)
    } else {
        s
    };
    match spec_parse_idx(s) {
        Some(_) => {
            lemma_dec_val_nonneg(ds);
        },
        None => {},
    }
}

/// Decode an unsigned index argument.
#[verifier::loop_isolation(false)]
pub fn parse_idx(s: &[u8]) -> (r: Option<usize>)
    ensures
        match r {
            Some(u) => spec_parse_idx(s@) == Some(u as int),
            None => spec_parse_idx(s@) is None,
        },
{
    let n = s.len();
    if n == 0 {
        return None;
    }
    let mut i: usize = 0;
    if *vstd::slice::slice_index_get(s, 0) == 43 {
        i = 1;
    }
    let ghost ds = if s@[0] == 43 {
        s@.subrange(1, s@.len() as int)
    } else {
        s@
    };
    let ghost start = i as int;
    if i == n {
        return None;
    }
    let mut val: usize = 0;
    let mut k = i;
    while k < n
        invariant
            start <= k <= n,
            all_digits(s@.subrange(start, k as int)),
            val == dec_val(s@.subrange(start, k as int)),
        decreases n - k,
    {
        let b = *vstd::slice::slice_index_get(s, k);
        proof {
            assert(s@.subrange(start, k as int + 1).drop_last() =~= s@.subrange(start, k as int));
            assert(s@.subrange(start, k as int + 1).last() == s@[k as int]);
        }
        if b < 48 || b > 57 {
            proof {
                assert(ds[k - start] == s@[k as int]);
                assert(!all_digits(ds));
            }
            return None;
        }
        let d = (b - 48) as usize;
        if val > (usize::MAX - d) / 10 {
            proof {
                assert(val * 10 + d > usize::MAX) by (nonlinear_arith)
                    requires
                        val > (usize::MAX - d) / 10,
                        0 <= d <= 9,
                        val >= 0,
                ;
                if all_digits(ds) {
                    lemma_dec_val_mono(ds, k as int + 1 - start);
                    assert(ds.subrange(0, k as int + 1 - start) =~= s@.subrange(
                        start,
                        k as int + 1,
                    ));
                }
            }
            return None;
        }
        proof {
            assert(val * 10 + d <= usize::MAX) by (nonlinear_arith)
                requires
                    val <= (usize::MAX - d) / 10,
                    0 <= d <= 9,
                    val >= 0,
            ;
        }
        val = val * 10 + d;
        k = k + 1;
    }
    proof {
        assert(s@.subrange(start, n as int) =~= ds);
        lemma_dec_val_nonneg(ds);
    }
    Some(val)
}

/// What one simple query does under the full (authenticated) dispatcher:
/// the new store, the response body, and whether an authentication attempt
/// succeeded (which makes the connection switch to the authenticated
/// executor). `login_ok` is the credential store's verdict, consumed only
/// by `AUTH`.
pub open spec fn sp_execute_simple(
    m: StoreModel,
    okay: bool,
    login_ok: bool,
    args: Seq<Seq<u8>>,
) -> (StoreModel, Seq<u8>, bool) {
    if args.len() == 0 {
        (m, packet_err_resp(), false)
    } else {
        let verb = spec_upper(args[0]);
        let rest = args.skip(1);
        if verb == ascii_seq("LMOD"@) {
            let (m2, r) = crate::lmod::sp_lmod(m, okay, rest);
            (m2, r, false)
        } else if verb == ascii_seq("SYS"@) {
            (m, crate::sys::sp_sys(okay, rest), false)
        } else if verb == ascii_seq("CREATE"@) {
            let (m2, r) = crate::ddl::sp_create(m, okay, rest);
            (m2, r, false)
        } else if verb == ascii_seq("DROP"@) {
            let (m2, r) = crate::ddl::sp_ddl_drop(m, okay, rest);
            (m2, r, false)
        } else if verb == ascii_seq("SET"@) {
            let (m2, r) = crate::kv::sp_set(m, okay, rest);
            (m2, r, false)
        } else if verb == ascii_seq("GET"@) {
            (m, crate::kv::sp_get(m, rest), false)
        } else if verb == ascii_seq("AUTH"@) {
            if login_ok {
                (m, okay_resp(), true)
            } else {
                (m, bad_credentials_resp(), false)
            }
        } else {
            (m, unknown_action_resp(), false)
        }
    }
}

/// Law: with the registry poisoned, no simple query mutates the store.
pub proof fn lemma_execute_simple_poisoned(m: StoreModel, login_ok: bool, args: Seq<Seq<u8>>)
    ensures
        sp_execute_simple(m, false, login_ok, args).0 == m,
{
    if args.len() > 0 {
        crate::lmod::lemma_lmod_poisoned(m, args.skip(1));
        crate::ddl::lemma_create_poisoned(m, args.skip(1));
        crate::ddl::lemma_ddl_drop_poisoned(m, args.skip(1));
        crate::kv::lemma_set_poisoned(m, args.skip(1));
    }
}

/// Dispatch one simple query to its action handler. Returns the response
/// body and whether an authentication attempt succeeded.
pub fn execute_simple(
    store: &mut Corestore,
    reg: &Registry,
    login_ok: bool,
    buf: &[u8],
    elems: &[UnsafeSlice],
) -> (r: (Vec<u8>, bool))
    requires
        old(store).wf(),
        slices_in_range(elems@, 0, buf@.len() as int),
    ensures
        final(store).wf(),
        final(store)@ == sp_execute_simple(
            old(store)@,
            reg.spec_state_okay(),
            login_ok,
            args_of(buf@, elems@),
        ).0,
        r.0@ == sp_execute_simple(
            old(store)@,
            reg.spec_state_okay(),
            login_ok,
            args_of(buf@, elems@),
        ).1,
        r.1 == sp_execute_simple(
            old(store)@,
            reg.spec_state_okay(),
            login_ok,
            args_of(buf@, elems@),
        ).2,
{
    let ghost args = args_of(buf@, elems@);
    if elems.len() == 0 {
        return (write_packet_err(), false);
    }
    let verb = to_upper(elems[0].as_slice(buf));
    let rest = vstd::slice::slice_subrange(elems, 1, elems.len());
    proof {
        assert(verb@ == spec_upper(args[0]));
        assert(args_of(buf@, rest@) =~= args.skip(1));
        reveal_strlit("LMOD");
        reveal_strlit("SYS");
        reveal_strlit("CREATE");
        reveal_strlit("DROP");
        reveal_strlit("SET");
        reveal_strlit("GET");
        reveal_strlit("AUTH");
    }
    let tok_lmod = ascii_bytes("LMOD");
    let tok_sys = ascii_bytes("SYS");
    let tok_create = ascii_bytes("CREATE");
    let tok_drop = ascii_bytes("DROP");
    let tok_set = ascii_bytes("SET");
    let tok_get = ascii_bytes("GET");
    let tok_auth = ascii_bytes("AUTH");
    if crate::coremap::bytes_eq(verb.as_slice(), tok_lmod.as_slice()) {
        (crate::lmod::lmod(store, reg, buf, rest), false)
    } else if crate::coremap::bytes_eq(verb.as_slice(), tok_sys.as_slice()) {
        (crate::sys::sys(reg, buf, rest), false)
    } else if crate::coremap::bytes_eq(verb.as_slice(), tok_create.as_slice()) {
        (crate::ddl::create(store, reg, buf, rest), false)
    } else if crate::coremap::bytes_eq(verb.as_slice(), tok_drop.as_slice()) {
        (crate::ddl::ddl_drop(store, reg, buf, rest), false)
    } else if crate::coremap::bytes_eq(verb.as_slice(), tok_set.as_slice()) {
        (crate::kv::set(store, reg, buf, rest), false)
    } else if crate::coremap::bytes_eq(verb.as_slice(), tok_get.as_slice()) {
        (crate::kv::get(store, buf, rest), false)
    } else if crate::coremap::bytes_eq(verb.as_slice(), tok_auth.as_slice()) {
        if login_ok {
            (write_okay(), true)
        } else {
            (write_bad_credentials(), false)
        }
    } else {
        (write_unknown_action(), false)
    }
}

} // verus!
