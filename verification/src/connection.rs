use vstd::prelude::*;

use crate::memstore::Corestore;
use crate::memstore::StoreModel;
use crate::protocol::ParseError;
use crate::protocol::ParseResult;
use crate::protocol::Parser;
use crate::protocol::Query;
use crate::protocol::QueryRepr;
use crate::protocol::UnsafeSlice;
use crate::protocol::query_in_range;
use crate::protocol::slices_in_range;
use crate::protocol::sp_parse;
use crate::queryengine::args_of;
use crate::queryengine::execute_simple;
use crate::queryengine::sp_execute_simple;
use crate::registry::Registry;
use crate::responses::bad_credentials_resp;
use crate::responses::okay_resp;
use crate::responses::packet_err_resp;
use crate::responses::spec_pipeline_header;
use crate::responses::spec_simple_header;
use crate::responses::write_bad_credentials;
use crate::responses::write_okay;
use crate::responses::write_packet_err;
use crate::responses::write_pipeline_query_header;
use crate::responses::write_simple_query_header;
use crate::queryengine::spec_upper;
use crate::queryengine::to_upper;
use crate::responses::ascii_bytes;
use crate::responses::ascii_seq;

verus! {

broadcast use {
    vstd::slice::group_slice_axioms,
    crate::protocol::axiom_query_view_simple,
    crate::protocol::axiom_query_view_pipelined,
};

/// The simple query response header, `*`, as a byte array.
pub const SIMPLE_QUERY_HEADER: [u8; 1] = [42];

/// The two executors a connection can run under. The credential provider's
/// verdict on an `AUTH` attempt moves a connection from `Unauth` to `Auth`.
#[derive(Clone, Copy, Debug, PartialEq, Eq, Structural)]
pub enum Executor {
    /// Anonymous: only authentication commands are served.
    Unauth,
    /// Authenticated: the full dispatcher.
    Auth,
}

/// What comes out of reading and framing one query.
pub enum QueryResult {
    /// A complete frame plus the exact count of bytes to advance by.
    Q((Query, usize)),
    /// A fatal framing error with the full response to send before closing.
    E(Vec<u8>),
    /// A length failed to decode; reply wrongtype-error and close.
    Wrongtype,
    /// The peer went away cleanly.
    Disconnected,
}

/// The full response to a structurally bad packet: header plus the packet
/// error group.
pub open spec fn full_packet_err_resp() -> Seq<u8> {
    spec_simple_header() + packet_err_resp()
}

/// Try to frame one query out of the buffered bytes.
pub fn try_query(buffer: &[u8]) -> (r: ParseResult<(Query, usize)>)
    ensures
        match r {
            Ok((q, n)) => {
                &&& sp_parse(buffer@) == Ok::<(QueryRepr, int), ParseError>((q@, n as int))
                &&& 0 < n <= buffer@.len()
                &&& query_in_range(q@, n as int)
            },
            Err(e) => sp_parse(buffer@) == Err::<(QueryRepr, int), ParseError>(e),
        },
{
    Parser::parse(buffer)
}

/// Sort a framing outcome into what the connection loop must do next:
/// `None` asks for more bytes, everything else is final for this read.
pub fn classify_parse(r: ParseResult<(Query, usize)>) -> (q: Option<QueryResult>)
    ensures
        match r {
            Ok(p) => q matches Some(qr) && qr matches QueryResult::Q(p2) && p2 == p,
            Err(ParseError::NotEnough) => q is None,
            Err(ParseError::DatatypeParseFailure) => q == Some(QueryResult::Wrongtype),
            Err(ParseError::UnexpectedByte) => (q matches Some(qr) && qr matches QueryResult::E(
                resp,
            ) && resp@ == full_packet_err_resp()),
            Err(ParseError::BadPacket) => (q matches Some(qr) && qr matches QueryResult::E(resp)
                && resp@ == full_packet_err_resp()),
        },
{
    match r {
        Ok(p) => Some(QueryResult::Q(p)),
        Err(ParseError::NotEnough) => None,
        Err(ParseError::DatatypeParseFailure) => Some(QueryResult::Wrongtype),
        Err(ParseError::UnexpectedByte) | Err(ParseError::BadPacket) => {
            let mut resp = write_simple_query_header();
            let mut group = write_packet_err();
            resp.append(&mut group);
            proof {
                assert(resp@ =~= full_packet_err_resp());
            }
            Some(QueryResult::E(resp))
        },
    }
}

/// The byte strings each sub-query's element windows denote in buffer `b`.
pub open spec fn bodies_of(b: Seq<u8>, qs: Seq<Seq<UnsafeSlice>>) -> Seq<Seq<Seq<u8>>> {
    qs.map_values(|es: Seq<UnsafeSlice>| args_of(b, es))
}

/// What a pipeline does: run each sub-query in submission order against the
/// store the previous one left behind, and concatenate the response bodies
/// in the same order. Re-authentication inside a pipeline keeps the
/// authenticated executor, so the switch signal is dropped here.
pub open spec fn sp_pipeline(
    m: StoreModel,
    okay: bool,
    login_ok: bool,
    bodies: Seq<Seq<Seq<u8>>>,
) -> (StoreModel, Seq<u8>)
    decreases bodies.len(),
{
    if bodies.len() == 0 {
        (m, Seq::empty())
    } else {
        let (m1, r1, _grant) = sp_execute_simple(m, okay, login_ok, bodies[0]);
        let (m2, rs) = sp_pipeline(m1, okay, login_ok, bodies.skip(1));
        (m2, r1 + rs)
    }
}

/// What the authenticated executor does with one frame: a simple query gets
/// the `*` header and one body; a pipeline gets the `$<n>\n` header and the
/// `n` bodies in submission order.
pub open spec fn sp_execute_auth(
    m: StoreModel,
    okay: bool,
    login_ok: bool,
    b: Seq<u8>,
    q: QueryRepr,
) -> (StoreModel, Seq<u8>, bool) {
    match q {
        QueryRepr::Simple(es) => {
            let (m2, r, grant) = sp_execute_simple(m, okay, login_ok, args_of(b, es));
            (m2, spec_simple_header() + r, grant)
        },
        QueryRepr::Pipelined(qs) => {
            let (m2, rs) = sp_pipeline(m, okay, login_ok, bodies_of(b, qs));
            (m2, spec_pipeline_header(qs.len() as int) + rs, false)
        },
    }
}

/// What the anonymous executor does with one frame: only authentication
/// commands are served; a pipeline is refused outright after the header.
pub open spec fn sp_execute_unauth(
    m: StoreModel,
    okay: bool,
    login_ok: bool,
    b: Seq<u8>,
    q: QueryRepr,
) -> (StoreModel, Seq<u8>, bool) {
    match q {
        QueryRepr::Simple(es) => {
            let args = args_of(b, es);
            if args.len() > 0 && spec_upper(args[0]) == ascii_seq("AUTH"@) {
                if login_ok {
                    (m, spec_simple_header() + okay_resp(), true)
                } else {
                    (m, spec_simple_header() + bad_credentials_resp(), false)
                }
            } else {
                (m, spec_simple_header() + bad_credentials_resp(), false)
            }
        },
        QueryRepr::Pipelined(_) => (m, spec_simple_header() + bad_credentials_resp(), false),
    }
}

/// What one frame does under a given executor, and the executor the
/// connection runs under afterwards.
pub open spec fn sp_execute_query(
    ex: Executor,
    m: StoreModel,
    okay: bool,
    login_ok: bool,
    b: Seq<u8>,
    q: QueryRepr,
) -> (StoreModel, Seq<u8>, Executor) {
    match ex {
        Executor::Unauth => {
            let (m2, r, grant) = sp_execute_unauth(m, okay, login_ok, b, q);
            (
                m2,
                r,
                if grant {
                    Executor::Auth
                } else {
                    Executor::Unauth
                },
            )
        },
        Executor::Auth => {
            let (m2, r, _grant) = sp_execute_auth(m, okay, login_ok, b, q);
            (m2, r, Executor::Auth)
        },
    }
}

/// The individual response bodies of a pipeline, in submission order:
/// body `k` is the dispatcher's response to sub-query `k` against the
/// store state the first `k` sub-queries produced.
pub open spec fn sp_pipeline_responses(
    m: StoreModel,
    okay: bool,
    login_ok: bool,
    bodies: Seq<Seq<Seq<u8>>>,
) -> Seq<Seq<u8>>
    decreases bodies.len(),
{
    if bodies.len() == 0 {
        Seq::empty()
    } else {
        let (m1, r1, _grant) = sp_execute_simple(m, okay, login_ok, bodies[0]);
        seq![r1] + sp_pipeline_responses(m1, okay, login_ok, bodies.skip(1))
    }
}

/// All of `rs`, concatenated in order.
pub open spec fn concat_all(rs: Seq<Seq<u8>>) -> Seq<u8>
    decreases rs.len(),
{
    if rs.len() == 0 {
        Seq::empty()
    } else {
        rs[0] + concat_all(rs.skip(1))
    }
}

proof fn lemma_pipeline_concat(m: StoreModel, okay: bool, login_ok: bool, bodies: Seq<Seq<Seq<u8>>>)
    ensures
        sp_pipeline_responses(m, okay, login_ok, bodies).len() == bodies.len(),
        sp_pipeline(m, okay, login_ok, bodies).1 == concat_all(
            sp_pipeline_responses(m, okay, login_ok, bodies),
        ),
    decreases bodies.len(),
{
    if bodies.len() > 0 {
        let (m1, r1, _grant) = sp_execute_simple(m, okay, login_ok, bodies[0]);
        lemma_pipeline_concat(m1, okay, login_ok, bodies.skip(1));
        let rest = sp_pipeline_responses(m1, okay, login_ok, bodies.skip(1));
        assert((seq![r1] + rest).skip(1) =~= rest);
        assert((seq![r1] + rest)[0] == r1);
    }
}

/// Law: pipelined execution of `N` sub-queries writes exactly the header
/// `$N\n` followed by the `N` response bodies, concatenated in submission
/// order.
pub proof fn lemma_pipeline_writes_in_order(
    m: StoreModel,
    okay: bool,
    login_ok: bool,
    b: Seq<u8>,
    qs: Seq<Seq<UnsafeSlice>>,
)
    ensures
        sp_pipeline_responses(m, okay, login_ok, bodies_of(b, qs)).len() == qs.len(),
        sp_execute_auth(m, okay, login_ok, b, QueryRepr::Pipelined(qs)).1 == spec_pipeline_header(
            qs.len() as int,
        ) + concat_all(sp_pipeline_responses(m, okay, login_ok, bodies_of(b, qs))),
{
    lemma_pipeline_concat(m, okay, login_ok, bodies_of(b, qs));
}

/// Law: with the registry poisoned, no pipeline mutates the store.
proof fn lemma_pipeline_poisoned(m: StoreModel, login_ok: bool, bodies: Seq<Seq<Seq<u8>>>)
    ensures
        sp_pipeline(m, false, login_ok, bodies).0 == m,
    decreases bodies.len(),
{
    if bodies.len() > 0 {
        crate::queryengine::lemma_execute_simple_poisoned(m, login_ok, bodies[0]);
        lemma_pipeline_poisoned(m, login_ok, bodies.skip(1));
    }
}

/// Law: with the registry poisoned, no frame mutates the store — under
/// either executor, simple or pipelined. Together with the per-handler
/// fencing laws, the store a poisoned server leaves behind is exactly the
/// store it started with.
pub proof fn lemma_poisoned_store_unchanged(
    ex: Executor,
    m: StoreModel,
    login_ok: bool,
    b: Seq<u8>,
    q: QueryRepr,
)
    ensures
        sp_execute_query(ex, m, false, login_ok, b, q).0 == m,
{
    match q {
        QueryRepr::Simple(es) => {
            crate::queryengine::lemma_execute_simple_poisoned(m, login_ok, args_of(b, es));
        },
        QueryRepr::Pipelined(qs) => {
            lemma_pipeline_poisoned(m, login_ok, bodies_of(b, qs));
        },
    }
}

/// Execute one frame under the authenticated executor.
#[verifier::loop_isolation(false)]
pub fn execute_auth(
    store: &mut Corestore,
    reg: &Registry,
    login_ok: bool,
    buf: &[u8],
    query: Query,
) -> (r: (Vec<u8>, bool))
    requires
        old(store).wf(),
        query_in_range(query@, buf@.len() as int),
    ensures
        final(store).wf(),
        final(store)@ == sp_execute_auth(
            old(store)@,
            reg.spec_state_okay(),
            login_ok,
            buf@,
            query@,
        ).0,
        r.0@ == sp_execute_auth(old(store)@, reg.spec_state_okay(), login_ok, buf@, query@).1,
        r.1 == sp_execute_auth(old(store)@, reg.spec_state_okay(), login_ok, buf@, query@).2,
{
    let ghost m0 = store@;
    match query {
        Query::Simple(sq) => {
            let mut out = write_simple_query_header();
            let (mut body, grant) = execute_simple(store, reg, login_ok, buf, sq.as_slice());
            out.append(&mut body);
            proof {
                assert(out@ =~= sp_execute_auth(m0, reg.spec_state_okay(), login_ok, buf@, (
                Query::Simple(sq))@).1);
            }
            (out, grant)
        },
        Query::Pipelined(p) => {
            let ghost pval = p;
            let ghost qs = p@;
            let n = p.len();
            let inner = p.into_inner();
            let mut out = write_pipeline_query_header(n);
            proof {
                crate::protocol::axiom_query_view_pipelined(pval);
                assert(query@ == QueryRepr::Pipelined(qs));
                assert(query_in_range(QueryRepr::Pipelined(qs), buf@.len() as int));
                assert(inner@.len() == qs.len());
                assert forall|x: int| 0 <= x < inner@.len() implies slices_in_range(
                    (#[trigger] inner@[x])@,
                    0,
                    buf@.len() as int,
                ) by {
                    assert(inner@[x]@ == qs[x]);
                    crate::protocol::lemma_pipelined_in_range(qs, buf@.len() as int, x);
                }
            }
            let mut bodies_out = execute_pipeline(store, reg, login_ok, buf, inner);
            out.append(&mut bodies_out);
            proof {
                assert(bodies_of(buf@, Seq::new(inner@.len(), |i: int| inner@[i]@)) =~= bodies_of(
                    buf@,
                    qs,
                ));
                assert(out@ =~= spec_pipeline_header(qs.len() as int) + sp_pipeline(
                    m0,
                    reg.spec_state_okay(),
                    login_ok,
                    bodies_of(buf@, qs),
                ).1);
            }
            (out, false)
        },
    }
}

/// Run the sub-queries of a pipeline in submission order and concatenate
/// their response bodies in the same order.
#[verifier::loop_isolation(false)]
pub fn execute_pipeline(
    store: &mut Corestore,
    reg: &Registry,
    login_ok: bool,
    buf: &[u8],
    inner: Vec<Vec<UnsafeSlice>>,
) -> (r: Vec<u8>)
    requires
        old(store).wf(),
        forall|x: int|
            0 <= x < inner@.len() ==> slices_in_range(
                (#[trigger] inner@[x])@,
                0,
                buf@.len() as int,
            ),
    ensures
        final(store).wf(),
        ({
            let bodies = bodies_of(buf@, Seq::new(inner@.len(), |i: int| inner@[i]@));
            &&& final(store)@ == sp_pipeline(
                old(store)@,
                reg.spec_state_okay(),
                login_ok,
                bodies,
            ).0
            &&& r@ == sp_pipeline(old(store)@, reg.spec_state_okay(), login_ok, bodies).1
        }),
{
    let ghost m0 = store@;
    let ghost bodies = bodies_of(buf@, Seq::new(inner@.len(), |i: int| inner@[i]@));
    let mut out: Vec<u8> = Vec::new();
    let mut k: usize = 0;
    proof {
        assert(bodies.skip(0) =~= bodies);
        assert(Seq::<u8>::empty() + sp_pipeline(m0, reg.spec_state_okay(), login_ok, bodies).1
            =~= sp_pipeline(m0, reg.spec_state_okay(), login_ok, bodies).1);
    }
    while k < inner.len()
        invariant
            k <= inner@.len(),
            store.wf(),
            sp_pipeline(m0, reg.spec_state_okay(), login_ok, bodies) == ({
                let (mf, rs) = sp_pipeline(
                    store@,
                    reg.spec_state_okay(),
                    login_ok,
                    bodies.skip(k as int),
                );
                (mf, out@ + rs)
            }),
        decreases inner@.len() - k,
    {
        let ghost done_pre = out@;
        let sub = &inner[k];
        proof {
            assert(slices_in_range(sub@, 0, buf@.len() as int));
            assert(bodies.skip(k as int)[0] == args_of(buf@, sub@));
        }
        let (mut body, _grant) = execute_simple(store, reg, login_ok, buf, sub.as_slice());
        let ghost body_view = body@;
        out.append(&mut body);
        k = k + 1;
        proof {
            assert(bodies.skip(k - 1).skip(1) =~= bodies.skip(k as int));
            let (mf, rs) = sp_pipeline(
                store@,
                reg.spec_state_okay(),
                login_ok,
                bodies.skip(k as int),
            );
            assert(done_pre + (body_view + rs) =~= (done_pre + body_view) + rs);
        }
    }
    proof {
        assert(bodies.skip(k as int) =~= Seq::<Seq<Seq<u8>>>::empty());
        let (mf, rs) = sp_pipeline(store@, reg.spec_state_okay(), login_ok, bodies.skip(k as int));
        assert(out@ + rs =~= out@);
    }
    out
}

/// Execute one frame under the anonymous executor.
pub fn execute_unauth(
    store: &mut Corestore,
    reg: &Registry,
    login_ok: bool,
    buf: &[u8],
    query: Query,
) -> (r: (Vec<u8>, bool))
    requires
        old(store).wf(),
        query_in_range(query@, buf@.len() as int),
    ensures
        final(store).wf(),
        final(store)@ == old(store)@,
        r.0@ == sp_execute_unauth(old(store)@, reg.spec_state_okay(), login_ok, buf@, query@).1,
        r.1 == sp_execute_unauth(old(store)@, reg.spec_state_okay(), login_ok, buf@, query@).2,
{
    let ghost m0 = store@;
    let mut out = write_simple_query_header();
    match query {
        Query::Simple(sq) => {
            let elems = sq.as_slice();
            let ghost args = args_of(buf@, elems@);
            let is_auth = if elems.len() > 0 {
                proof {
                    reveal_strlit("AUTH");
                    assert(elems@[0].start + elems@[0].len <= buf@.len());
                }
                let verb = to_upper(elems[0].as_slice(buf));
                proof {
                    assert(verb@ == spec_upper(args[0]));
                }
                let tok_auth = ascii_bytes("AUTH");
                crate::coremap::bytes_eq(verb.as_slice(), tok_auth.as_slice())
            } else {
                false
            };
            if is_auth && login_ok {
                let mut body = write_okay();
                out.append(&mut body);
                proof {
                    assert(out@ =~= spec_simple_header() + okay_resp());
                }
                (out, true)
            } else {
                let mut body = write_bad_credentials();
                out.append(&mut body);
                proof {
                    assert(out@ =~= spec_simple_header() + bad_credentials_resp());
                }
                (out, false)
            }
        },
        Query::Pipelined(_) => {
            let mut body = write_bad_credentials();
            out.append(&mut body);
            proof {
                assert(out@ =~= spec_simple_header() + bad_credentials_resp());
            }
            (out, false)
        },
    }
}

/// Execute one validated frame under the connection's executor and advance
/// the executor state as authentication demands.
pub fn execute_query(
    executor: &mut Executor,
    store: &mut Corestore,
    reg: &Registry,
    login_ok: bool,
    buf: &[u8],
    query: Query,
) -> (r: Vec<u8>)
    requires
        old(store).wf(),
        query_in_range(query@, buf@.len() as int),
    ensures
        final(store).wf(),
        final(store)@ == sp_execute_query(
            *old(executor),
            old(store)@,
            reg.spec_state_okay(),
            login_ok,
            buf@,
            query@,
        ).0,
        r@ == sp_execute_query(
            *old(executor),
            old(store)@,
            reg.spec_state_okay(),
            login_ok,
            buf@,
            query@,
        ).1,
        *final(executor) == sp_execute_query(
            *old(executor),
            old(store)@,
            reg.spec_state_okay(),
            login_ok,
            buf@,
            query@,
        ).2,
{
    match *executor {
        Executor::Unauth => {
            let (resp, grant) = execute_unauth(store, reg, login_ok, buf, query);
            if grant {
                *executor = Executor::Auth;
            }
            resp
        },
        Executor::Auth => {
            let (resp, _grant) = execute_auth(store, reg, login_ok, buf, query);
            resp
        },
    }
}

} // verus!
