use vstd::prelude::*;
use vstd::string::StringSliceAdditionalSpecFns;

use crate::protocol::SYM_LF;
use crate::protocol::SYM_PIPELINE;
use crate::protocol::SYM_SIMPLE;

verus! {

/// `!`: announces a response group (a response code or an error token).
pub const SYM_GROUP: u8 = 33;
/// `_`: announces a flat (monotype) array length.
pub const SYM_FLAT_ARRAY: u8 = 95;
/// `&`: announces a typed array length.
pub const SYM_TYPED_ARRAY: u8 = 38;
/// `?`: type symbol for binary payloads.
pub const TSYMBOL_BINARY: u8 = 63;
/// `+`: type symbol for unicode payloads.
pub const TSYMBOL_UNICODE: u8 = 43;

/// Decimal numeral of `n`, most significant digit first.
pub open spec fn spec_dec(n: int) -> Seq<u8>
    recommends
        n >= 0,
    decreases n,
{
    if n < 10 {
        seq![(48 + n) as u8]
    } else {
        spec_dec(n / 10).push((48 + n % 10) as u8)
    }
}

/// Render `n` as ASCII decimal digits.
pub fn write_dec(n: usize) -> (r: Vec<u8>)
    ensures
        r@ == spec_dec(n as int),
    decreases n,
{
    if n < 10 {
        let mut v: Vec<u8> = Vec::new();
        v.push(48 + n as u8);
        proof {
            assert(v@ =~= seq![(48 + n as int) as u8]);
        }
        v
    } else {
        let mut v = write_dec(n / 10);
        v.push(48 + (n % 10) as u8);
        v
    }
}

/// The bytes of an ASCII string, one byte per character.
pub open spec fn ascii_seq(cs: Seq<char>) -> Seq<u8> {
    Seq::new(cs.len(), |i: int| cs[i] as u8)
}

/// Copy an ASCII string into a byte vector.
pub fn ascii_bytes(s: &str) -> (r: Vec<u8>)
    requires
        vstd::string::is_ascii(s),
    ensures
        r@ == ascii_seq(s@),
{
    proof {
        broadcast use vstd::string::is_ascii_spec_bytes;

        assert(s.spec_bytes() =~= ascii_seq(s@));
    }
    vstd::string::StrSliceExecFns::as_bytes_vec(s)
}

/// A response group: `!<len>\n<token>\n`.
pub open spec fn spec_group(token: Seq<u8>) -> Seq<u8> {
    seq![SYM_GROUP] + spec_dec(token.len() as int) + seq![SYM_LF] + token + seq![SYM_LF]
}

/// Frame `token` as a response group.
pub fn build_group(token: &[u8]) -> (r: Vec<u8>)
    ensures
        r@ == spec_group(token@),
{
    let mut v: Vec<u8> = Vec::new();
    v.push(SYM_GROUP);
    let mut digits = write_dec(token.len());
    v.append(&mut digits);
    v.push(SYM_LF);
    v.extend_from_slice(token);
    v.push(SYM_LF);
    proof {
        assert(v@ =~= spec_group(token@));
    }
    v
}

/// A monotype element: `<tsym><len>\n<payload>\n`.
pub open spec fn spec_mono(tsym: u8, payload: Seq<u8>) -> Seq<u8> {
    seq![tsym] + spec_dec(payload.len() as int) + seq![SYM_LF] + payload + seq![SYM_LF]
}

/// Frame one element under its type symbol.
pub fn write_mono(tsym: u8, payload: &[u8]) -> (r: Vec<u8>)
    ensures
        r@ == spec_mono(tsym, payload@),
{
    let mut v: Vec<u8> = Vec::new();
    v.push(tsym);
    let mut digits = write_dec(payload.len());
    v.append(&mut digits);
    v.push(SYM_LF);
    v.extend_from_slice(payload);
    v.push(SYM_LF);
    proof {
        assert(v@ =~= spec_mono(tsym, payload@));
    }
    v
}

/// The simple query response header: the single byte `*`.
pub open spec fn spec_simple_header() -> Seq<u8> {
    seq![SYM_SIMPLE]
}

/// Write the simple query response header.
pub fn write_simple_query_header() -> (r: Vec<u8>)
    ensures
        r@ == spec_simple_header(),
{
    let mut v: Vec<u8> = Vec::new();
    v.push(SYM_SIMPLE);
    proof {
        assert(v@ =~= spec_simple_header());
    }
    v
}

/// The pipeline response header: `$<n>\n`.
pub open spec fn spec_pipeline_header(n: int) -> Seq<u8> {
    seq![SYM_PIPELINE] + spec_dec(n) + seq![SYM_LF]
}

/// Write the pipeline response header for `n` sub-responses.
pub fn write_pipeline_query_header(n: usize) -> (r: Vec<u8>)
    ensures
        r@ == spec_pipeline_header(n as int),
{
    let mut v: Vec<u8> = Vec::new();
    v.push(SYM_PIPELINE);
    let mut digits = write_dec(n);
    v.append(&mut digits);
    v.push(SYM_LF);
    proof {
        assert(v@ =~= spec_pipeline_header(n as int));
    }
    v
}

/// A flat array length line: `_<n>\n`.
pub open spec fn spec_flat_array_length(n: int) -> Seq<u8> {
    seq![SYM_FLAT_ARRAY] + spec_dec(n) + seq![SYM_LF]
}

/// Write the flat array length line.
pub fn write_flat_array_length(n: usize) -> (r: Vec<u8>)
    ensures
        r@ == spec_flat_array_length(n as int),
{
    let mut v: Vec<u8> = Vec::new();
    v.push(SYM_FLAT_ARRAY);
    let mut digits = write_dec(n);
    v.append(&mut digits);
    v.push(SYM_LF);
    proof {
        assert(v@ =~= spec_flat_array_length(n as int));
    }
    v
}

/// A typed array length line: `&<n>\n`.
pub open spec fn spec_typed_array_length(n: int) -> Seq<u8> {
    seq![SYM_TYPED_ARRAY] + spec_dec(n) + seq![SYM_LF]
}

/// Write the typed array length line.
pub fn write_array_length(n: usize) -> (r: Vec<u8>)
    ensures
        r@ == spec_typed_array_length(n as int),
{
    let mut v: Vec<u8> = Vec::new();
    v.push(SYM_TYPED_ARRAY);
    let mut digits = write_dec(n);
    v.append(&mut digits);
    v.push(SYM_LF);
    proof {
        assert(v@ =~= spec_typed_array_length(n as int));
    }
    v
}

// ---------------------------------------------------------------------------
// Canned reply groups. The numeric ones carry a response code, the token
// ones a fixed error word; all are `!<len>\n<body>\n`.
// ---------------------------------------------------------------------------

/// `!1\n0\n` — okay.
pub open spec fn okay_resp() -> Seq<u8> {
    spec_group(ascii_seq("0"@))
}

pub fn write_okay() -> (r: Vec<u8>)
    ensures
        r@ == okay_resp(),
{
    proof {
        reveal_strlit("0");
    }
    let t = ascii_bytes("0");
    build_group(t.as_slice())
}

/// `!1\n1\n` — nil / not found.
pub open spec fn nil_resp() -> Seq<u8> {
    spec_group(ascii_seq("1"@))
}

pub fn write_nil() -> (r: Vec<u8>)
    ensures
        r@ == nil_resp(),
{
    proof {
        reveal_strlit("1");
    }
    let t = ascii_bytes("1");
    build_group(t.as_slice())
}

/// `!1\n2\n` — overwrite error.
pub open spec fn overwrite_err_resp() -> Seq<u8> {
    spec_group(ascii_seq("2"@))
}

pub fn write_overwrite_err() -> (r: Vec<u8>)
    ensures
        r@ == overwrite_err_resp(),
{
    proof {
        reveal_strlit("2");
    }
    let t = ascii_bytes("2");
    build_group(t.as_slice())
}

/// `!1\n3\n` — action error (bad arity or malformed action).
pub open spec fn action_err_resp() -> Seq<u8> {
    spec_group(ascii_seq("3"@))
}

pub fn write_action_err() -> (r: Vec<u8>)
    ensures
        r@ == action_err_resp(),
{
    proof {
        reveal_strlit("3");
    }
    let t = ascii_bytes("3");
    build_group(t.as_slice())
}

/// `!1\n4\n` — packet error.
pub open spec fn packet_err_resp() -> Seq<u8> {
    spec_group(ascii_seq("4"@))
}

pub fn write_packet_err() -> (r: Vec<u8>)
    ensures
        r@ == packet_err_resp(),
{
    proof {
        reveal_strlit("4");
    }
    let t = ascii_bytes("4");
    build_group(t.as_slice())
}

/// `!15\nwrongtype-error\n`.
pub open spec fn wrongtype_err_resp() -> Seq<u8> {
    spec_group(ascii_seq("wrongtype-error"@))
}

pub fn write_wrongtype_err() -> (r: Vec<u8>)
    ensures
        r@ == wrongtype_err_resp(),
{
    proof {
        reveal_strlit("wrongtype-error");
    }
    let t = ascii_bytes("wrongtype-error");
    build_group(t.as_slice())
}

/// `!14\nencoding-error\n`.
pub open spec fn encoding_error_resp() -> Seq<u8> {
    spec_group(ascii_seq("encoding-error"@))
}

pub fn write_encoding_error() -> (r: Vec<u8>)
    ensures
        r@ == encoding_error_resp(),
{
    proof {
        reveal_strlit("encoding-error");
    }
    let t = ascii_bytes("encoding-error");
    build_group(t.as_slice())
}

/// `!12\nserver-error\n`.
pub open spec fn server_err_resp() -> Seq<u8> {
    spec_group(ascii_seq("server-error"@))
}

pub fn write_server_err() -> (r: Vec<u8>)
    ensures
        r@ == server_err_resp(),
{
    proof {
        reveal_strlit("server-error");
    }
    let t = ascii_bytes("server-error");
    build_group(t.as_slice())
}

/// `!14\nunknown-action\n`.
pub open spec fn unknown_action_resp() -> Seq<u8> {
    spec_group(ascii_seq("unknown-action"@))
}

pub fn write_unknown_action() -> (r: Vec<u8>)
    ensures
        r@ == unknown_action_resp(),
{
    proof {
        reveal_strlit("unknown-action");
    }
    let t = ascii_bytes("unknown-action");
    build_group(t.as_slice())
}

/// `!14\nbad-expression\n`.
pub open spec fn bad_expression_resp() -> Seq<u8> {
    spec_group(ascii_seq("bad-expression"@))
}

pub fn write_bad_expression() -> (r: Vec<u8>)
    ensures
        r@ == bad_expression_resp(),
{
    proof {
        reveal_strlit("bad-expression");
    }
    let t = ascii_bytes("bad-expression");
    build_group(t.as_slice())
}

/// `!23\ncontainer-name-too-long\n`.
pub open spec fn container_name_too_long_resp() -> Seq<u8> {
    spec_group(ascii_seq("container-name-too-long"@))
}

pub fn write_container_name_too_long() -> (r: Vec<u8>)
    ensures
        r@ == container_name_too_long_resp(),
{
    proof {
        reveal_strlit("container-name-too-long");
    }
    let t = ascii_bytes("container-name-too-long");
    build_group(t.as_slice())
}

/// `!23\ndefault-container-unset\n`.
pub open spec fn default_container_unset_resp() -> Seq<u8> {
    spec_group(ascii_seq("default-container-unset"@))
}

pub fn write_default_container_unset() -> (r: Vec<u8>)
    ensures
        r@ == default_container_unset_resp(),
{
    proof {
        reveal_strlit("default-container-unset");
    }
    let t = ascii_bytes("default-container-unset");
    build_group(t.as_slice())
}

/// `!15\nbad-credentials\n`.
pub open spec fn bad_credentials_resp() -> Seq<u8> {
    spec_group(ascii_seq("bad-credentials"@))
}

pub fn write_bad_credentials() -> (r: Vec<u8>)
    ensures
        r@ == bad_credentials_resp(),
{
    proof {
        reveal_strlit("bad-credentials");
    }
    let t = ascii_bytes("bad-credentials");
    build_group(t.as_slice())
}

/// `!17\nunknown-ddl-query\n`.
pub open spec fn unknown_ddl_query_resp() -> Seq<u8> {
    spec_group(ascii_seq("unknown-ddl-query"@))
}

pub fn write_unknown_ddl_query() -> (r: Vec<u8>)
    ensures
        r@ == unknown_ddl_query_resp(),
{
    proof {
        reveal_strlit("unknown-ddl-query");
    }
    let t = ascii_bytes("unknown-ddl-query");
    build_group(t.as_slice())
}

/// `!16\nunknown-property\n`.
pub open spec fn unknown_property_resp() -> Seq<u8> {
    spec_group(ascii_seq("unknown-property"@))
}

pub fn write_unknown_property() -> (r: Vec<u8>)
    ensures
        r@ == unknown_property_resp(),
{
    proof {
        reveal_strlit("unknown-property");
    }
    let t = ascii_bytes("unknown-property");
    build_group(t.as_slice())
}

/// `!14\nunknown-metric\n`.
pub open spec fn unknown_metric_resp() -> Seq<u8> {
    spec_group(ascii_seq("unknown-metric"@))
}

pub fn write_unknown_metric() -> (r: Vec<u8>)
    ensures
        r@ == unknown_metric_resp(),
{
    proof {
        reveal_strlit("unknown-metric");
    }
    let t = ascii_bytes("unknown-metric");
    build_group(t.as_slice())
}

/// `!14\nalready-exists\n`.
pub open spec fn already_exists_resp() -> Seq<u8> {
    spec_group(ascii_seq("already-exists"@))
}

pub fn write_already_exists() -> (r: Vec<u8>)
    ensures
        r@ == already_exists_resp(),
{
    proof {
        reveal_strlit("already-exists");
    }
    let t = ascii_bytes("already-exists");
    build_group(t.as_slice())
}

/// `!9\nnot-empty\n`.
pub open spec fn not_empty_resp() -> Seq<u8> {
    spec_group(ascii_seq("not-empty"@))
}

pub fn write_not_empty() -> (r: Vec<u8>)
    ensures
        r@ == not_empty_resp(),
{
    proof {
        reveal_strlit("not-empty");
    }
    let t = ascii_bytes("not-empty");
    build_group(t.as_slice())
}

/// `!19\ncontainer-not-found\n`.
pub open spec fn container_not_found_resp() -> Seq<u8> {
    spec_group(ascii_seq("container-not-found"@))
}

pub fn write_container_not_found() -> (r: Vec<u8>)
    ensures
        r@ == container_not_found_resp(),
{
    proof {
        reveal_strlit("container-not-found");
    }
    let t = ascii_bytes("container-not-found");
    build_group(t.as_slice())
}

/// `!11\nwrong-model\n`.
pub open spec fn wrong_model_resp() -> Seq<u8> {
    spec_group(ascii_seq("wrong-model"@))
}

pub fn write_wrong_model() -> (r: Vec<u8>)
    ensures
        r@ == wrong_model_resp(),
{
    proof {
        reveal_strlit("wrong-model");
    }
    let t = ascii_bytes("wrong-model");
    build_group(t.as_slice())
}

/// The okay group is distinct from every error group and from any monotype
/// element: errors and values can never be mistaken for an acknowledgement.
pub proof fn lemma_okay_resp_distinct()
    ensures
        okay_resp() != nil_resp(),
        okay_resp() != overwrite_err_resp(),
        okay_resp() != action_err_resp(),
        okay_resp() != packet_err_resp(),
        okay_resp() != wrongtype_err_resp(),
        okay_resp() != encoding_error_resp(),
        okay_resp() != server_err_resp(),
        okay_resp() != unknown_action_resp(),
        okay_resp() != bad_expression_resp(),
        okay_resp() != container_name_too_long_resp(),
        okay_resp() != default_container_unset_resp(),
        okay_resp() != bad_credentials_resp(),
        okay_resp() != unknown_ddl_query_resp(),
        okay_resp() != unknown_property_resp(),
        okay_resp() != unknown_metric_resp(),
        okay_resp() != already_exists_resp(),
        okay_resp() != not_empty_resp(),
        okay_resp() != container_not_found_resp(),
        okay_resp() != wrong_model_resp(),
        okay_resp() != bad_index_resp(),
        forall|tsym: u8, payload: Seq<u8>|
            tsym != SYM_GROUP ==> #[trigger] spec_mono(tsym, payload) != okay_resp(),
{
    reveal_strlit("0");
    reveal_strlit("1");
    reveal_strlit("2");
    reveal_strlit("3");
    reveal_strlit("4");
    reveal_strlit("wrongtype-error");
    reveal_strlit("encoding-error");
    reveal_strlit("server-error");
    reveal_strlit("unknown-action");
    reveal_strlit("bad-expression");
    reveal_strlit("container-name-too-long");
    reveal_strlit("default-container-unset");
    reveal_strlit("bad-credentials");
    reveal_strlit("unknown-ddl-query");
    reveal_strlit("unknown-property");
    reveal_strlit("unknown-metric");
    reveal_strlit("already-exists");
    reveal_strlit("not-empty");
    reveal_strlit("container-not-found");
    reveal_strlit("wrong-model");
    reveal_strlit("bad-index");
    assert(okay_resp() =~= seq![33u8, 49u8, 10u8, 48u8, 10u8]);
    assert(nil_resp() =~= seq![33u8, 49u8, 10u8, 49u8, 10u8]);
    assert(overwrite_err_resp() =~= seq![33u8, 49u8, 10u8, 50u8, 10u8]);
    assert(action_err_resp() =~= seq![33u8, 49u8, 10u8, 51u8, 10u8]);
    assert(packet_err_resp() =~= seq![33u8, 49u8, 10u8, 52u8, 10u8]);
    assert(okay_resp()[3] != nil_resp()[3]);
    assert(okay_resp()[3] != overwrite_err_resp()[3]);
    assert(okay_resp()[3] != action_err_resp()[3]);
    assert(okay_resp()[3] != packet_err_resp()[3]);
    assert(wrongtype_err_resp().len() != 5);
    assert(encoding_error_resp().len() != 5);
    assert(server_err_resp().len() != 5);
    assert(unknown_action_resp().len() != 5);
    assert(bad_expression_resp().len() != 5);
    assert(container_name_too_long_resp().len() != 5);
    assert(default_container_unset_resp().len() != 5);
    assert(bad_credentials_resp().len() != 5);
    assert(unknown_ddl_query_resp().len() != 5);
    assert(unknown_property_resp().len() != 5);
    assert(unknown_metric_resp().len() != 5);
    assert(already_exists_resp().len() != 5);
    assert(not_empty_resp().len() != 5);
    assert(container_not_found_resp().len() != 5);
    assert(wrong_model_resp().len() != 5);
    assert(bad_index_resp().len() != 5);
    assert forall|tsym: u8, payload: Seq<u8>|
        tsym != SYM_GROUP implies #[trigger] spec_mono(tsym, payload) != okay_resp() by {
        assert(spec_mono(tsym, payload)[0] == tsym);
        assert(okay_resp()[0] == SYM_GROUP);
    }
}

/// `!9\nbad-index\n`.
pub open spec fn bad_index_resp() -> Seq<u8> {
    spec_group(ascii_seq("bad-index"@))
}

pub fn write_bad_index() -> (r: Vec<u8>)
    ensures
        r@ == bad_index_resp(),
{
    proof {
        reveal_strlit("bad-index");
    }
    let t = ascii_bytes("bad-index");
    build_group(t.as_slice())
}

} // verus!
