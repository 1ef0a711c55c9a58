use vstd::prelude::*;

verus! {

broadcast use vstd::slice::group_slice_axioms;

/// Line feed, the only line terminator the wire grammar knows.
pub const SYM_LF: u8 = 10;
/// `*`: announces a simple query.
pub const SYM_SIMPLE: u8 = 42;
/// `$`: announces a pipeline.
pub const SYM_PIPELINE: u8 = 36;

/// One parsed element: a `(start, len)` window into the connection's read
/// buffer. The indices are only as good as the buffer they were produced
/// for — resolving them against a different or already-advanced buffer gives
/// garbage, hence the cautionary name. [`Parser::parse`] guarantees that
/// every window it returns lies inside the consumed prefix of its input.
#[derive(Clone, Copy, Debug, PartialEq, Eq, Structural)]
pub struct UnsafeSlice {
    pub start: usize,
    pub len: usize,
}

impl UnsafeSlice {
    /// The bytes this window denotes inside buffer `b`.
    pub open spec fn view_in(self, b: Seq<u8>) -> Seq<u8> {
        b.subrange(self.start as int, self.start + self.len)
    }

    /// Create a new window.
    pub fn new(start: usize, len: usize) -> (r: UnsafeSlice)
        ensures
            r == (UnsafeSlice { start, len }),
    {
        UnsafeSlice { start, len }
    }

    /// Resolve the window against the buffer it was made for.
    pub fn as_slice<'a>(&self, buf: &'a [u8]) -> (r: &'a [u8])
        requires
            self.start + self.len <= buf@.len(),
        ensures
            r@ == self.view_in(buf@),
    {
        let _n = buf.len();
        vstd::slice::slice_subrange(buf, self.start, self.start + self.len)
    }
}

/// Everything that can go wrong while framing a query.
#[derive(Clone, Copy, Debug, PartialEq, Eq, Structural)]
pub enum ParseError {
    /// The buffer ends before the frame does; read more and retry.
    NotEnough,
    /// Structurally invalid data, e.g. an empty length line.
    BadPacket,
    /// The first byte announces neither a simple query nor a pipeline.
    UnexpectedByte,
    /// A length line holds a non-digit, or its value overflows `usize`.
    DatatypeParseFailure,
}

/// A generic result to indicate parsing errors through the [`ParseError`] enum.
pub type ParseResult<T> = Result<T, ParseError>;

// ---------------------------------------------------------------------------
// The grammar, stated as specification functions. `Parser` is proved to
// agree with these on every input, so the prefix-stability and framing
// lemmas below transfer to the executable parser.
// ---------------------------------------------------------------------------

/// Position of the first line feed at or after `i`, if any.
pub open spec fn find_lf(b: Seq<u8>, i: int) -> Option<int>
    decreases b.len() - i,
{
    if i < 0 || i >= b.len() {
        None
    } else if b[i] == SYM_LF {
        Some(i)
    } else {
        find_lf(b, i + 1)
    }
}

/// A pedantic line read at `i`: `Ok(j)` means the line is `b[i..j]` with the
/// terminating line feed at `j`; an empty line is a bad packet, a missing
/// line feed means the buffer is truncated.
pub open spec fn sp_line(b: Seq<u8>, i: int) -> Result<int, ParseError> {
    match find_lf(b, i) {
        None => Err(ParseError::NotEnough),
        Some(j) => if j == i {
            Err(ParseError::BadPacket)
        } else {
            Ok(j)
        },
    }
}

/// All bytes of `s` are ASCII decimal digits.
pub open spec fn all_digits(s: Seq<u8>) -> bool {
    forall|k: int| 0 <= k < s.len() ==> 48 <= #[trigger] s[k] <= 57
}

/// Value of the decimal numeral `s` (left-to-right accumulation).
pub open spec fn dec_val(s: Seq<u8>) -> int
    decreases s.len(),
{
    if s.len() == 0 {
        0
    } else {
        dec_val(s.drop_last()) * 10 + (s.last() - 48)
    }
}

/// A digit numeral's value is never negative.
pub proof fn lemma_dec_val_nonneg(s: Seq<u8>)
    requires
        all_digits(s),
    ensures
        dec_val(s) >= 0,
    decreases s.len(),
{
    if s.len() > 0 {
        assert(all_digits(s.drop_last()));
        lemma_dec_val_nonneg(s.drop_last());
    }
}

/// Extending a digit numeral on the right never shrinks its value.
pub proof fn lemma_dec_val_mono(s: Seq<u8>, m: int)
    requires
        all_digits(s),
        0 <= m <= s.len(),
    ensures
        dec_val(s.subrange(0, m)) <= dec_val(s),
    decreases s.len() - m,
{
    if m < s.len() {
        lemma_dec_val_mono(s, m + 1);
        let p = s.subrange(0, m + 1);
        assert(p.drop_last() =~= s.subrange(0, m));
        assert(all_digits(s.subrange(0, m)));
        lemma_dec_val_nonneg(s.subrange(0, m));
    } else {
        assert(s.subrange(0, m) =~= s);
    }
}

/// An unsigned size read at `i`: a pedantic line that must be all digits and
/// fit in `usize`. `Ok((value, next))` with `next` one past the line feed.
pub open spec fn sp_usize(b: Seq<u8>, i: int) -> Result<(int, int), ParseError> {
    match sp_line(b, i) {
        Err(e) => Err(e),
        Ok(j) => {
            let line = b.subrange(i, j);
            if !all_digits(line) || dec_val(line) > usize::MAX as int {
                Err(ParseError::DatatypeParseFailure)
            } else {
                Ok((dec_val(line), j + 1))
            }
        },
    }
}

/// `count` elements read back to back from `i`: each is a size line followed
/// by exactly that many payload bytes, with no separator after the payload.
pub open spec fn sp_elements(b: Seq<u8>, i: int, count: int) -> Result<
    (Seq<UnsafeSlice>, int),
    ParseError,
>
    decreases count,
{
    if count <= 0 {
        Ok((Seq::empty(), i))
    } else {
        match sp_usize(b, i) {
            Err(e) => Err(e),
            Ok((sz, j)) => if j + sz > b.len() {
                Err(ParseError::NotEnough)
            } else {
                match sp_elements(b, j + sz, count - 1) {
                    Err(e) => Err(e),
                    Ok((rest, end)) => Ok(
                        (seq![UnsafeSlice { start: j as usize, len: sz as usize }] + rest, end),
                    ),
                }
            },
        }
    }
}

/// A simple query body at `i`: an element count line, then that many elements.
pub open spec fn sp_simple(b: Seq<u8>, i: int) -> Result<(Seq<UnsafeSlice>, int), ParseError> {
    match sp_usize(b, i) {
        Err(e) => Err(e),
        Ok((cnt, j)) => sp_elements(b, j, cnt),
    }
}

/// `count` simple query bodies read back to back from `i`.
pub open spec fn sp_bodies(b: Seq<u8>, i: int, count: int) -> Result<
    (Seq<Seq<UnsafeSlice>>, int),
    ParseError,
>
    decreases count,
{
    if count <= 0 {
        Ok((Seq::empty(), i))
    } else {
        match sp_simple(b, i) {
            Err(e) => Err(e),
            Ok((q, j)) => match sp_bodies(b, j, count - 1) {
                Err(e) => Err(e),
                Ok((rest, end)) => Ok((seq![q] + rest, end)),
            },
        }
    }
}

/// The abstract form of a parsed frame.
pub enum QueryRepr {
    Simple(Seq<UnsafeSlice>),
    Pipelined(Seq<Seq<UnsafeSlice>>),
}

/// One whole frame at the start of `b`: `Ok((query, consumed))`.
pub open spec fn sp_parse(b: Seq<u8>) -> Result<(QueryRepr, int), ParseError> {
    if b.len() == 0 {
        Err(ParseError::NotEnough)
    } else if b[0] == SYM_SIMPLE {
        match sp_simple(b, 1) {
            Err(e) => Err(e),
            Ok((es, end)) => Ok((QueryRepr::Simple(es), end)),
        }
    } else if b[0] == SYM_PIPELINE {
        match sp_usize(b, 1) {
            Err(e) => Err(e),
            Ok((cnt, j)) => match sp_bodies(b, j, cnt) {
                Err(e) => Err(e),
                Ok((qs, end)) => Ok((QueryRepr::Pipelined(qs), end)),
            },
        }
    } else {
        Err(ParseError::UnexpectedByte)
    }
}

/// Every window of `es` lies within `[lo, hi)` of the buffer.
pub open spec fn slices_in_range(es: Seq<UnsafeSlice>, lo: int, hi: int) -> bool {
    forall|x: int|
        0 <= x < es.len() ==> lo <= #[trigger] es[x].start && es[x].start + es[x].len <= hi
}

/// Every element window of every sub-query lies within the first `n` bytes.
pub open spec fn bodies_in_range(qs: Seq<Seq<UnsafeSlice>>, n: int) -> bool {
    forall|x: int| 0 <= x < qs.len() ==> slices_in_range(#[trigger] qs[x], 0, n)
}

/// Every element window of `q` lies within the first `n` bytes.
pub open spec fn query_in_range(q: QueryRepr, n: int) -> bool {
    match q {
        QueryRepr::Simple(es) => slices_in_range(es, 0, n),
        QueryRepr::Pipelined(qs) => bodies_in_range(qs, n),
    }
}

// ---------------------------------------------------------------------------
// Executable frame types
// ---------------------------------------------------------------------------

/// An ordered sequence of element windows: one simple query.
#[derive(Debug)]
pub struct SimpleQuery {
    data: Vec<UnsafeSlice>,
}

impl View for SimpleQuery {
    type V = Seq<UnsafeSlice>;

    closed spec fn view(&self) -> Seq<UnsafeSlice> {
        self.data@
    }
}

impl SimpleQuery {
    /// The query's elements, in wire order.
    pub fn as_slice(&self) -> (r: &[UnsafeSlice])
        ensures
            r@ == self@,
    {
        self.data.as_slice()
    }
}

/// An ordered sequence of simple query bodies: one pipeline.
#[derive(Debug)]
pub struct PipelinedQuery {
    data: Vec<Vec<UnsafeSlice>>,
}

impl View for PipelinedQuery {
    type V = Seq<Seq<UnsafeSlice>>;

    closed spec fn view(&self) -> Seq<Seq<UnsafeSlice>> {
        Seq::new(self.data@.len(), |i: int| self.data@[i]@)
    }
}

impl PipelinedQuery {
    /// Number of sub-queries in the pipeline.
    pub fn len(&self) -> (r: usize)
        ensures
            r == self@.len(),
    {
        self.data.len()
    }

    /// Surrender the sub-queries, in submission order.
    pub fn into_inner(self) -> (r: Vec<Vec<UnsafeSlice>>)
        ensures
            r@.len() == self@.len(),
            forall|i: int| 0 <= i < r@.len() ==> #[trigger] r@[i]@ == self@[i],
    {
        self.data
    }
}

/// A parsed frame: either one simple query or a pipeline of them.
#[derive(Debug)]
pub enum Query {
    Simple(SimpleQuery),
    Pipelined(PipelinedQuery),
}

impl View for Query {
    type V = QueryRepr;

    closed spec fn view(&self) -> QueryRepr {
        match self {
            Query::Simple(s) => QueryRepr::Simple(s@),
            Query::Pipelined(p) => QueryRepr::Pipelined(p@),
        }
    }
}

// ---------------------------------------------------------------------------
// Encoding, and the round trip: a frame built from any element sequence
// parses back to exactly that sequence, consuming the whole frame.
// ---------------------------------------------------------------------------

/// One encoded element: its size line, then its bytes.
pub open spec fn enc_element(v: Seq<u8>) -> Seq<u8> {
    crate::responses::spec_dec(v.len() as int) + seq![SYM_LF] + v
}

/// Elements encoded back to back.
pub open spec fn enc_elements(vs: Seq<Seq<u8>>) -> Seq<u8>
    decreases vs.len(),
{
    if vs.len() == 0 {
        Seq::empty()
    } else {
        enc_element(vs[0]) + enc_elements(vs.skip(1))
    }
}

/// A whole simple query frame: `*`, the element count line, the elements.
pub open spec fn enc_simple(vs: Seq<Seq<u8>>) -> Seq<u8> {
    seq![SYM_SIMPLE] + crate::responses::spec_dec(vs.len() as int) + seq![SYM_LF] + enc_elements(
        vs,
    )
}

/// The decimal numeral of `n` is made of digits, reads back as `n`, and is
/// never empty.
pub proof fn lemma_spec_dec_value(n: int)
    requires
        n >= 0,
    ensures
        all_digits(crate::responses::spec_dec(n)),
        dec_val(crate::responses::spec_dec(n)) == n,
        crate::responses::spec_dec(n).len() >= 1,
    decreases n,
{
    let d = crate::responses::spec_dec(n);
    if n < 10 {
        assert(d =~= seq![(48 + n) as u8]);
        assert(d.drop_last() =~= Seq::<u8>::empty());
        assert(dec_val(d.drop_last()) == 0);
        assert(d.last() == (48 + n) as u8);
        assert(dec_val(d) == dec_val(d.drop_last()) * 10 + (d.last() - 48));
    } else {
        lemma_spec_dec_value(n / 10);
        let p = crate::responses::spec_dec(n / 10);
        assert(d == p.push((48 + n % 10) as u8));
        assert(d.drop_last() =~= p);
        assert(all_digits(d)) by {
            assert(forall|k: int| 0 <= k < p.len() ==> d[k] == p[k]);
        }
    }
}

/// Scanning for a line feed across digits lands on the terminator.
pub proof fn lemma_find_lf_after_digits(b: Seq<u8>, i: int, j: int)
    requires
        0 <= i <= j < b.len(),
        forall|t: int| i <= t < j ==> 48 <= #[trigger] b[t] <= 57,
        b[j] == SYM_LF,
    ensures
        find_lf(b, i) == Some(j),
    decreases j - i,
{
    if i < j {
        lemma_find_lf_after_digits(b, i + 1, j);
    }
}

/// A size line spelled out as `spec_dec(n)` followed by a line feed reads
/// back as the size `n`.
pub proof fn lemma_parse_usize_at(b: Seq<u8>, i: int, n: int)
    requires
        0 <= i,
        0 <= n <= usize::MAX as int,
        i + crate::responses::spec_dec(n).len() + 1 <= b.len(),
        b.subrange(i, i + crate::responses::spec_dec(n).len()) == crate::responses::spec_dec(n),
        b[i + crate::responses::spec_dec(n).len()] == SYM_LF,
    ensures
        sp_usize(b, i) == Ok::<(int, int), ParseError>(
            (n, i + crate::responses::spec_dec(n).len() + 1),
        ),
{
    lemma_spec_dec_value(n);
    let d = crate::responses::spec_dec(n);
    let j = i + d.len();
    assert(forall|t: int| i <= t < j ==> 48 <= #[trigger] b[t] <= 57) by {
        assert(forall|t: int| i <= t < j ==> b[t] == d[t - i]);
    }
    lemma_find_lf_after_digits(b, i, j);
    assert(b.subrange(i, j) == d);
}

/// Encoded elements read back as exactly the element sequence they were
/// built from, ending right after their last byte.
pub proof fn lemma_parse_enc_elements(b: Seq<u8>, i: int, vs: Seq<Seq<u8>>)
    requires
        0 <= i,
        b.len() <= usize::MAX,
        i + enc_elements(vs).len() <= b.len(),
        b.subrange(i, i + enc_elements(vs).len()) == enc_elements(vs),
        forall|x: int| 0 <= x < vs.len() ==> (#[trigger] vs[x]).len() <= usize::MAX,
    ensures
        sp_elements(b, i, vs.len() as int) matches Ok((ws, end)) && end == i + enc_elements(
            vs,
        ).len() && ws.len() == vs.len() && (forall|x: int|
            0 <= x < ws.len() ==> (#[trigger] ws[x]).view_in(b) == vs[x]),
    decreases vs.len(),
{
    if vs.len() == 0 {
    } else {
        let v0 = vs[0];
        let d = crate::responses::spec_dec(v0.len() as int);
        let e0 = enc_element(v0);
        let rest = enc_elements(vs.skip(1));
        assert(enc_elements(vs) == e0 + rest);
        assert(b.subrange(i, i + d.len()) =~= d) by {
            assert(forall|t: int|
                0 <= t < d.len() ==> b.subrange(i, i + enc_elements(vs).len())[t] == #[trigger] b[i
                    + t]);
        }
        assert(b[i + d.len()] == SYM_LF) by {
            assert(b.subrange(i, i + enc_elements(vs).len())[d.len() as int] == b[i + d.len()]);
            assert(e0[d.len() as int] == SYM_LF);
        }
        lemma_parse_usize_at(b, i, v0.len() as int);
        let j = i + d.len() + 1;
        assert(sp_usize(b, i) == Ok::<(int, int), ParseError>((v0.len() as int, j)));
        assert(vs[0].len() <= usize::MAX);
        assert(i + enc_elements(vs).len() <= b.len());
        assert(e0.len() == d.len() + 1 + v0.len());
        assert(e0.len() <= enc_elements(vs).len());
        assert(j + v0.len() <= b.len());
        let w0 = UnsafeSlice { start: j as usize, len: v0.len() as usize };
        assert(w0.start == j && w0.len == v0.len());
        assert forall|t: int| 0 <= t < v0.len() implies b[j + t] == v0[t] by {
            let k = d.len() + 1 + t;
            assert(b.subrange(i, i + enc_elements(vs).len() as int)[k] == b[i + k]);
            assert((e0 + rest)[k] == e0[k]);
            assert(e0[k] == v0[t]);
        }
        assert(w0.view_in(b) =~= v0);
        let i2 = j + v0.len();
        assert(b.subrange(i2, i2 + rest.len()) =~= rest) by {
            assert(forall|t: int|
                0 <= t < rest.len() ==> b.subrange(i, i + enc_elements(vs).len())[e0.len() + t]
                    == #[trigger] b[i2 + t]);
            assert(forall|t: int|
                0 <= t < rest.len() ==> (e0 + rest)[e0.len() + t] == rest[t]);
        }
        lemma_parse_enc_elements(b, i2, vs.skip(1));
        match sp_elements(b, i2, vs.skip(1).len() as int) {
            Ok((wrest, end)) => {
                assert(sp_elements(b, i, vs.len() as int) matches Ok((ws, e2))
                    && ws == seq![w0] + wrest && e2 == end);
                let ws = seq![w0] + wrest;
                assert(forall|x: int|
                    0 <= x < ws.len() ==> (#[trigger] ws[x]).view_in(b) == vs[x]) by {
                    assert(forall|x: int| 1 <= x < ws.len() ==> ws[x] == wrest[x - 1]);
                    assert(forall|x: int| 1 <= x < vs.len() ==> vs.skip(1)[x - 1] == vs[x]);
                    assert(ws[0] == w0);
                }
            },
            Err(_) => {
                assert(false);
            },
        }
    }
}

/// Encoding one more element extends the encoding on the right.
pub proof fn lemma_enc_elements_snoc(vs: Seq<Seq<u8>>, k: int)
    requires
        0 <= k < vs.len(),
    ensures
        enc_elements(vs.take(k + 1)) == enc_elements(vs.take(k)) + enc_element(vs[k]),
    decreases k,
{
    if k == 0 {
        assert(vs.take(1)[0] == vs[0]);
        assert(vs.take(1).skip(1) =~= Seq::<Seq<u8>>::empty());
        assert(vs.take(0) =~= Seq::<Seq<u8>>::empty());
        assert(enc_elements(vs.take(1)) =~= enc_elements(vs.take(0)) + enc_element(vs[0]));
    } else {
        lemma_enc_elements_snoc(vs.skip(1), k - 1);
        assert(vs.take(k + 1).skip(1) =~= vs.skip(1).take(k));
        assert(vs.take(k).skip(1) =~= vs.skip(1).take(k - 1));
        assert(vs.take(k + 1)[0] == vs[0]);
        assert(vs.take(k)[0] == vs[0]);
        assert(vs.skip(1)[k - 1] == vs[k]);
        assert(enc_elements(vs.take(k + 1)) =~= enc_elements(vs.take(k)) + enc_element(vs[k]));
    }
}

/// Build the wire frame for one simple query. By
/// [`lemma_encode_parse_round_trip`], feeding the result back to the
/// parser returns exactly these elements and consumes the whole frame.
#[verifier::loop_isolation(false)]
pub fn encode_simple_query(elems: &Vec<Vec<u8>>) -> (r: Vec<u8>)
    ensures
        r@ == enc_simple(elems@.map_values(|v: Vec<u8>| v@)),
{
    let ghost vals = elems@.map_values(|v: Vec<u8>| v@);
    let mut r: Vec<u8> = Vec::new();
    r.push(SYM_SIMPLE);
    let mut digits = crate::responses::write_dec(elems.len());
    r.append(&mut digits);
    r.push(SYM_LF);
    let ghost header = r@;
    proof {
        assert(header =~= seq![SYM_SIMPLE] + crate::responses::spec_dec(vals.len() as int)
            + seq![SYM_LF]);
        assert(vals.take(0) =~= Seq::<Seq<u8>>::empty());
        assert(r@ =~= header + enc_elements(vals.take(0)));
    }
    let mut k: usize = 0;
    while k < elems.len()
        invariant
            k <= elems@.len(),
            r@ == header + enc_elements(vals.take(k as int)),
        decreases elems@.len() - k,
    {
        let e = &elems[k];
        let mut digits = crate::responses::write_dec(e.len());
        r.append(&mut digits);
        r.push(SYM_LF);
        r.extend_from_slice(e.as_slice());
        k = k + 1;
        proof {
            lemma_enc_elements_snoc(vals, k as int - 1);
            assert(vals[k as int - 1] == elems@[k as int - 1]@);
            assert(r@ =~= header + enc_elements(vals.take(k as int)));
        }
    }
    proof {
        assert(vals.take(vals.len() as int) =~= vals);
        assert(r@ =~= enc_simple(vals));
    }
    r
}

/// The round trip: a frame built from any element sequence parses back to
/// exactly that element sequence, consuming the whole frame.
pub proof fn lemma_encode_parse_round_trip(vs: Seq<Seq<u8>>)
    requires
        vs.len() <= usize::MAX,
        enc_simple(vs).len() <= usize::MAX,
        forall|x: int| 0 <= x < vs.len() ==> (#[trigger] vs[x]).len() <= usize::MAX,
    ensures
        sp_parse(enc_simple(vs)) matches Ok((q, n)) && n == enc_simple(vs).len() && (
        q matches QueryRepr::Simple(ws) && ws.len() == vs.len() && (forall|x: int|
            0 <= x < ws.len() ==> (#[trigger] ws[x]).view_in(enc_simple(vs)) == vs[x])),
{
    let b = enc_simple(vs);
    let d = crate::responses::spec_dec(vs.len() as int);
    lemma_spec_dec_value(vs.len() as int);
    assert(b[0] == SYM_SIMPLE);
    assert(b.subrange(1, 1 + d.len() as int) =~= d);
    assert(b[1 + d.len() as int] == SYM_LF);
    lemma_parse_usize_at(b, 1, vs.len() as int);
    let j: int = 1 + d.len() as int + 1;
    assert(b.subrange(j, j + enc_elements(vs).len() as int) =~= enc_elements(vs));
    lemma_parse_enc_elements(b, j, vs);
}

/// One sub-query of an in-range pipeline is itself in range.
pub proof fn lemma_pipelined_in_range(qs: Seq<Seq<UnsafeSlice>>, n: int, x: int)
    requires
        query_in_range(QueryRepr::Pipelined(qs), n),
        0 <= x < qs.len(),
    ensures
        slices_in_range(qs[x], 0, n),
{
}

/// A simple frame abstracts to its element windows.
pub broadcast proof fn axiom_query_view_simple(sq: SimpleQuery)
    ensures
        (#[trigger] Query::Simple(sq)@) == QueryRepr::Simple(sq@),
{
}

/// A pipelined frame abstracts to its sub-query windows.
pub broadcast proof fn axiom_query_view_pipelined(p: PipelinedQuery)
    ensures
        (#[trigger] Query::Pipelined(p)@) == QueryRepr::Pipelined(p@),
{
}

// ---------------------------------------------------------------------------
// The executable parser
// ---------------------------------------------------------------------------

/// A cursor over the read buffer. Stateless between frames: [`Parser::parse`]
/// makes a fresh one per call.
pub struct Parser<'a> {
    buf: &'a [u8],
    cursor: usize,
}

impl<'a> Parser<'a> {
    pub closed spec fn wf(&self) -> bool {
        self.cursor <= self.buf@.len()
    }

    pub closed spec fn spec_buf(&self) -> Seq<u8> {
        self.buf@
    }

    pub closed spec fn spec_cursor(&self) -> int {
        self.cursor as int
    }

    /// Initialize a new parser over `slice`.
    pub fn new(slice: &'a [u8]) -> (r: Parser<'a>)
        ensures
            r.wf(),
            r.spec_buf() == slice@,
            r.spec_cursor() == 0,
    {
        Parser { buf: slice, cursor: 0 }
    }

    /// How many bytes are left from the cursor on.
    fn remaining(&self) -> (r: usize)
        requires
            self.wf(),
        ensures
            r == self.spec_buf().len() - self.spec_cursor(),
    {
        self.buf.len() - self.cursor
    }

    /// Do at least `size` bytes remain?
    fn has_remaining(&self, size: usize) -> (r: bool)
        requires
            self.wf(),
        ensures
            r == (self.spec_cursor() + size <= self.spec_buf().len()),
    {
        self.remaining() >= size
    }

    /// Is at least one byte left?
    fn not_exhausted(&self) -> (r: bool)
        requires
            self.wf(),
        ensures
            r == (self.spec_cursor() < self.spec_buf().len()),
    {
        self.cursor < self.buf.len()
    }

    /// The byte under the cursor.
    fn get_byte_at_cursor(&self) -> (r: u8)
        requires
            self.wf(),
            self.spec_cursor() < self.spec_buf().len(),
        ensures
            r == self.spec_buf()[self.spec_cursor()],
    {
        self.buf[self.cursor]
    }

    /// Claim the next `len` bytes as one element window.
    fn read_until(&mut self, len: usize) -> (r: ParseResult<UnsafeSlice>)
        requires
            old(self).wf(),
        ensures
            final(self).wf(),
            final(self).spec_buf() == old(self).spec_buf(),
            match r {
                Ok(sl) => {
                    &&& old(self).spec_cursor() + len <= old(self).spec_buf().len()
                    &&& sl.start == old(self).spec_cursor()
                    &&& sl.len == len
                    &&& final(self).spec_cursor() == old(self).spec_cursor() + len
                },
                Err(e) => {
                    &&& e == ParseError::NotEnough
                    &&& old(self).spec_cursor() + len > old(self).spec_buf().len()
                },
            },
    {
        if self.has_remaining(len) {
            proof {
                vstd::slice::axiom_spec_len(self.buf);
            }
            let slice = UnsafeSlice::new(self.cursor, len);
            self.cursor = self.cursor + len;
            Ok(slice)
        } else {
            Err(ParseError::NotEnough)
        }
    }

    /// Read a size line, rejecting an empty payload. `Ok((start, lf))` means
    /// the line is `buf[start..lf]` and the cursor now sits past the line feed.
    fn read_line_pedantic(&mut self) -> (r: ParseResult<(usize, usize)>)
        requires
            old(self).wf(),
        ensures
            final(self).wf(),
            final(self).spec_buf() == old(self).spec_buf(),
            match r {
                Ok((s, e)) => {
                    &&& sp_line(old(self).spec_buf(), old(self).spec_cursor()) == Ok::<
                        int,
                        ParseError,
                    >(e as int)
                    &&& s == old(self).spec_cursor()
                    &&& s < e <= old(self).spec_buf().len()
                    &&& final(self).spec_cursor() == e + 1
                },
                Err(err) => sp_line(old(self).spec_buf(), old(self).spec_cursor()) == Err::<
                    int,
                    ParseError,
                >(err),
            },
    {
        let buf = self.buf;
        let start = self.cursor;
        let mut cur = self.cursor;
        while cur < buf.len() && *vstd::slice::slice_index_get(buf, cur) != SYM_LF
            invariant
                start <= cur <= buf@.len(),
                find_lf(buf@, start as int) == find_lf(buf@, cur as int),
            decreases buf@.len() - cur,
        {
            proof {
                assert(find_lf(buf@, cur as int) == find_lf(buf@, cur as int + 1));
            }
            cur = cur + 1;
        }
        if cur < buf.len() {
            // line feed under the cursor
            proof {
                assert(find_lf(buf@, cur as int) == Some(cur as int));
            }
            if cur == start {
                self.cursor = cur;
                Err(ParseError::BadPacket)
            } else {
                self.cursor = cur + 1;
                Ok((start, cur))
            }
        } else {
            proof {
                assert(find_lf(buf@, cur as int) is None);
            }
            self.cursor = cur;
            Err(ParseError::NotEnough)
        }
    }

    /// Read a size line and decode it as a decimal `usize`.
    #[verifier::loop_isolation(false)]
    fn read_usize(&mut self) -> (r: ParseResult<usize>)
        requires
            old(self).wf(),
        ensures
            final(self).wf(),
            final(self).spec_buf() == old(self).spec_buf(),
            match r {
                Ok(v) => sp_usize(old(self).spec_buf(), old(self).spec_cursor()) == Ok::<
                    (int, int),
                    ParseError,
                >((v as int, final(self).spec_cursor())),
                Err(e) => sp_usize(old(self).spec_buf(), old(self).spec_cursor()) == Err::<
                    (int, int),
                    ParseError,
                >(e),
            },
    {
        let ghost b = self.buf@;
        let ghost oc = self.cursor as int;
        let line = match self.read_line_pedantic() {
            Ok(l) => l,
            Err(e) => {
                return Err(e);
            },
        };
        let (s, e) = line;
        let buf = self.buf;
        let ghost lineseq = b.subrange(s as int, e as int);
        let mut val: usize = 0;
        let mut k = s;
        while k < e
            invariant
                s <= k <= e <= b.len(),
                b == buf@,
                lineseq == b.subrange(s as int, e as int),
                all_digits(b.subrange(s as int, k as int)),
                val == dec_val(b.subrange(s as int, k as int)),
                self.wf(),
                self.spec_buf() == b,
                self.spec_cursor() == e + 1,
                s == oc,
                sp_line(b, oc) == Ok::<int, ParseError>(e as int),
            decreases e - k,
        {
            let byte = *vstd::slice::slice_index_get(buf, k);
            proof {
                assert(b.subrange(s as int, k as int + 1).drop_last() =~= b.subrange(
                    s as int,
                    k as int,
                ));
                assert(b.subrange(s as int, k as int + 1).last() == b[k as int]);
            }
            if byte < 48 || byte > 57 {
                proof {
                    assert(lineseq[k - s] == b[k as int]);
                    assert(!all_digits(lineseq));
                }
                return Err(ParseError::DatatypeParseFailure);
            }
            let d = (byte - 48) as usize;
            if val > (usize::MAX - d) / 10 {
                proof {
                    assert(val * 10 + d > usize::MAX) by (nonlinear_arith)
                        requires
                            val > (usize::MAX - d) / 10,
                            0 <= d <= 9,
                            val >= 0,
                    ;
                    if all_digits(lineseq) {
                        lemma_dec_val_mono(lineseq, k as int + 1 - s as int);
                        assert(lineseq.subrange(0, k as int + 1 - s as int) =~= b.subrange(
                            s as int,
                            k as int + 1,
                        ));
                    }
                }
                return Err(ParseError::DatatypeParseFailure);
            }
            proof {
                assert(val * 10 + d <= usize::MAX) by (nonlinear_arith)
                    requires
                        val <= (usize::MAX - d) / 10,
                        0 <= d <= 9,
                        val >= 0,
                ;
            }
            val = val * 10 + d;
            k = k + 1;
        }
        proof {
            assert(b.subrange(s as int, e as int) == lineseq);
        }
        Ok(val)
    }

    /// Parse one simple query body: a count line, then that many elements.
    #[verifier::loop_isolation(false)]
    fn next_elements(&mut self) -> (r: ParseResult<Vec<UnsafeSlice>>)
        requires
            old(self).wf(),
        ensures
            final(self).wf(),
            final(self).spec_buf() == old(self).spec_buf(),
            match r {
                Ok(v) => sp_simple(old(self).spec_buf(), old(self).spec_cursor()) == Ok::<
                    (Seq<UnsafeSlice>, int),
                    ParseError,
                >((v@, final(self).spec_cursor())),
                Err(e) => sp_simple(old(self).spec_buf(), old(self).spec_cursor()) == Err::<
                    (Seq<UnsafeSlice>, int),
                    ParseError,
                >(e),
            },
    {
        let ghost b = self.buf@;
        let element_count = match self.read_usize() {
            Ok(c) => c,
            Err(e) => {
                return Err(e);
            },
        };
        let ghost start = self.cursor as int;
        let mut data: Vec<UnsafeSlice> = Vec::new();
        let mut i: usize = 0;
        while i < element_count
            invariant
                i <= element_count,
                self.wf(),
                self.spec_buf() == b,
                data@.len() == i,
                sp_elements(b, start, element_count as int) == (match sp_elements(
                    b,
                    self.spec_cursor(),
                    element_count - i,
                ) {
                    Ok((rest, end)) => Ok::<(Seq<UnsafeSlice>, int), ParseError>(
                        (data@ + rest, end),
                    ),
                    Err(e) => Err::<(Seq<UnsafeSlice>, int), ParseError>(e),
                }),
            decreases element_count - i,
        {
            let ghost c0 = self.spec_cursor();
            let ghost d0 = data@;
            let element_size = match self.read_usize() {
                Ok(sz) => sz,
                Err(e) => {
                    return Err(e);
                },
            };
            let ghost j = self.spec_cursor();
            let element = match self.read_until(element_size) {
                Ok(el) => el,
                Err(e) => {
                    return Err(e);
                },
            };
            data.push(element);
            proof {
                let n = element_count as int - i as int;
                match sp_elements(b, j + element_size, n - 1) {
                    Ok((rest, end)) => {
                        assert(sp_elements(b, c0, n) == Ok::<(Seq<UnsafeSlice>, int), ParseError>(
                            (seq![element] + rest, end),
                        ));
                        assert(d0 + (seq![element] + rest) =~= data@ + rest);
                    },
                    Err(e) => {},
                }
            }
            i = i + 1;
        }
        proof {
            assert(data@ + Seq::<UnsafeSlice>::empty() =~= data@);
        }
        Ok(data)
    }

    /// Parse the next simple query (the `*` symbol has already been passed).
    fn next_simple_query(&mut self) -> (r: ParseResult<SimpleQuery>)
        requires
            old(self).wf(),
        ensures
            final(self).wf(),
            final(self).spec_buf() == old(self).spec_buf(),
            match r {
                Ok(q) => sp_simple(old(self).spec_buf(), old(self).spec_cursor()) == Ok::<
                    (Seq<UnsafeSlice>, int),
                    ParseError,
                >((q@, final(self).spec_cursor())),
                Err(e) => sp_simple(old(self).spec_buf(), old(self).spec_cursor()) == Err::<
                    (Seq<UnsafeSlice>, int),
                    ParseError,
                >(e),
            },
    {
        let data = match self.next_elements() {
            Ok(d) => d,
            Err(e) => {
                return Err(e);
            },
        };
        Ok(SimpleQuery { data })
    }

    /// Parse a pipelined query (the `$` symbol has already been passed).
    #[verifier::loop_isolation(false)]
    fn next_pipeline(&mut self) -> (r: ParseResult<PipelinedQuery>)
        requires
            old(self).wf(),
        ensures
            final(self).wf(),
            final(self).spec_buf() == old(self).spec_buf(),
            match r {
                Ok(p) => match sp_usize(old(self).spec_buf(), old(self).spec_cursor()) {
                    Ok((cnt, j)) => sp_bodies(old(self).spec_buf(), j, cnt) == Ok::<
                        (Seq<Seq<UnsafeSlice>>, int),
                        ParseError,
                    >((p@, final(self).spec_cursor())),
                    Err(_) => false,
                },
                Err(e) => match sp_usize(old(self).spec_buf(), old(self).spec_cursor()) {
                    Ok((cnt, j)) => sp_bodies(old(self).spec_buf(), j, cnt) == Err::<
                        (Seq<Seq<UnsafeSlice>>, int),
                        ParseError,
                    >(e),
                    Err(e2) => e == e2,
                },
            },
    {
        let ghost b = self.buf@;
        let query_count = match self.read_usize() {
            Ok(c) => c,
            Err(e) => {
                return Err(e);
            },
        };
        let ghost start = self.cursor as int;
        let mut queries: Vec<Vec<UnsafeSlice>> = Vec::new();
        let mut i: usize = 0;
        while i < query_count
            invariant
                i <= query_count,
                self.wf(),
                self.spec_buf() == b,
                queries@.len() == i,
                sp_bodies(b, start, query_count as int) == (match sp_bodies(
                    b,
                    self.spec_cursor(),
                    query_count - i,
                ) {
                    Ok((rest, end)) => Ok::<(Seq<Seq<UnsafeSlice>>, int), ParseError>(
                        (queries@.map_values(|q: Vec<UnsafeSlice>| q@) + rest, end),
                    ),
                    Err(e) => Err::<(Seq<Seq<UnsafeSlice>>, int), ParseError>(e),
                }),
            decreases query_count - i,
        {
            let ghost c0 = self.spec_cursor();
            let ghost q0 = queries@.map_values(|q: Vec<UnsafeSlice>| q@);
            let sq = match self.next_elements() {
                Ok(s) => s,
                Err(e) => {
                    return Err(e);
                },
            };
            queries.push(sq);
            proof {
                let n = query_count as int - i as int;
                assert(queries@.map_values(|q: Vec<UnsafeSlice>| q@) =~= q0.push(
                    queries@.last()@,
                ));
                match sp_bodies(b, self.spec_cursor(), n - 1) {
                    Ok((rest, end)) => {
                        assert(sp_bodies(b, c0, n) == Ok::<(Seq<Seq<UnsafeSlice>>, int), ParseError>(
                            (seq![queries@.last()@] + rest, end),
                        ));
                        assert(q0 + (seq![queries@.last()@] + rest) =~= q0.push(queries@.last()@)
                            + rest);
                    },
                    Err(e) => {},
                }
            }
            i = i + 1;
        }
        proof {
            let qv = queries@.map_values(|q: Vec<UnsafeSlice>| q@);
            assert(qv + Seq::<Seq<UnsafeSlice>>::empty() =~= qv);
        }
        let p = PipelinedQuery { data: queries };
        proof {
            assert(p@ =~= queries@.map_values(|q: Vec<UnsafeSlice>| q@));
        }
        Ok(p)
    }

    /// Parse a whole frame starting at the first symbol byte.
    fn parse_frame(&mut self) -> (r: ParseResult<Query>)
        requires
            old(self).wf(),
            old(self).spec_cursor() == 0,
        ensures
            final(self).wf(),
            final(self).spec_buf() == old(self).spec_buf(),
            match r {
                Ok(q) => sp_parse(old(self).spec_buf()) == Ok::<(QueryRepr, int), ParseError>(
                    (q@, final(self).spec_cursor()),
                ),
                Err(e) => sp_parse(old(self).spec_buf()) == Err::<(QueryRepr, int), ParseError>(e),
            },
    {
        if self.not_exhausted() {
            let first_byte = self.get_byte_at_cursor();
            self.cursor = self.cursor + 1;
            if first_byte == SYM_SIMPLE {
                let sq = match self.next_simple_query() {
                    Ok(q) => q,
                    Err(e) => {
                        return Err(e);
                    },
                };
                Ok(Query::Simple(sq))
            } else if first_byte == SYM_PIPELINE {
                let p = match self.next_pipeline() {
                    Ok(q) => q,
                    Err(e) => {
                        return Err(e);
                    },
                };
                Ok(Query::Pipelined(p))
            } else {
                Err(ParseError::UnexpectedByte)
            }
        } else {
            Err(ParseError::NotEnough)
        }
    }

    /// Parse one frame from the start of `buf`: on success the query plus the
    /// exact number of bytes the frame occupies, which the caller must
    /// advance its buffer by. The parser agrees with [`sp_parse`] on every
    /// input, and every element window lies inside the consumed prefix.
    pub fn parse(buf: &[u8]) -> (r: ParseResult<(Query, usize)>)
        ensures
            match r {
                Ok((q, n)) => {
                    &&& sp_parse(buf@) == Ok::<(QueryRepr, int), ParseError>((q@, n as int))
                    &&& 0 < n <= buf@.len()
                    &&& query_in_range(q@, n as int)
                },
                Err(e) => sp_parse(buf@) == Err::<(QueryRepr, int), ParseError>(e),
            },
    {
        let mut slf = Parser::new(buf);
        let body = match slf.parse_frame() {
            Ok(q) => q,
            Err(e) => {
                return Err(e);
            },
        };
        let consumed = slf.cursor;
        proof {
            vstd::slice::axiom_spec_len(buf);
            lemma_parse_range(buf@);
        }
        Ok((body, consumed))
    }
}

// ---------------------------------------------------------------------------
// Range facts: everything a successful parse returns points inside the
// consumed prefix of the buffer.
// ---------------------------------------------------------------------------

pub proof fn lemma_find_lf_range(b: Seq<u8>, i: int)
    ensures
        find_lf(b, i) matches Some(j) ==> 0 <= i <= j < b.len() && b[j] == SYM_LF && (forall|t: int|
            i <= t < j ==> b[t] != SYM_LF),
    decreases b.len() - i,
{
    if i < 0 || i >= b.len() {
    } else if b[i] == SYM_LF {
    } else {
        lemma_find_lf_range(b, i + 1);
    }
}

pub proof fn lemma_usize_range(b: Seq<u8>, i: int)
    ensures
        sp_usize(b, i) matches Ok((v, next)) ==> 0 <= i < next <= b.len() && 0 <= v
            <= usize::MAX,
{
    lemma_find_lf_range(b, i);
    match sp_usize(b, i) {
        Ok((v, next)) => {
            match find_lf(b, i) {
                Some(j) => {
                    lemma_dec_val_nonneg(b.subrange(i, j));
                },
                None => {},
            }
        },
        Err(_) => {},
    }
}

pub proof fn lemma_elements_range(b: Seq<u8>, i: int, c: int)
    requires
        0 <= i <= b.len(),
        b.len() <= usize::MAX,
    ensures
        sp_elements(b, i, c) matches Ok((es, end)) ==> i <= end <= b.len() && slices_in_range(
            es,
            i,
            end,
        ),
    decreases c,
{
    if c <= 0 {
    } else {
        lemma_usize_range(b, i);
        match sp_usize(b, i) {
            Ok((sz, j)) => {
                if j + sz <= b.len() {
                    lemma_elements_range(b, j + sz, c - 1);
                    match sp_elements(b, j + sz, c - 1) {
                        Ok((rest, end)) => {
                            let head = UnsafeSlice { start: j as usize, len: sz as usize };
                            let es = seq![head] + rest;
                            assert forall|x: int| 0 <= x < es.len() implies i
                                <= #[trigger] es[x].start && es[x].start + es[x].len <= end by {
                                if x == 0 {
                                    assert(es[x] == head);
                                } else {
                                    assert(es[x] == rest[x - 1]);
                                }
                            }
                        },
                        Err(_) => {},
                    }
                }
            },
            Err(_) => {},
        }
    }
}

pub proof fn lemma_simple_range(b: Seq<u8>, i: int)
    requires
        0 <= i <= b.len(),
        b.len() <= usize::MAX,
    ensures
        sp_simple(b, i) matches Ok((es, end)) ==> i <= end <= b.len() && slices_in_range(
            es,
            i,
            end,
        ),
{
    lemma_usize_range(b, i);
    match sp_usize(b, i) {
        Ok((cnt, j)) => {
            lemma_elements_range(b, j, cnt);
            match sp_elements(b, j, cnt) {
                Ok((es, end)) => {
                    assert forall|x: int| 0 <= x < es.len() implies i <= #[trigger] es[x].start
                        && es[x].start + es[x].len <= end by {}
                },
                Err(_) => {},
            }
        },
        Err(_) => {},
    }
}

pub proof fn lemma_bodies_range(b: Seq<u8>, i: int, c: int)
    requires
        0 <= i <= b.len(),
        b.len() <= usize::MAX,
    ensures
        sp_bodies(b, i, c) matches Ok((qs, end)) ==> i <= end <= b.len() && (forall|x: int|
            0 <= x < qs.len() ==> slices_in_range(#[trigger] qs[x], i, end)),
    decreases c,
{
    if c <= 0 {
    } else {
        lemma_simple_range(b, i);
        match sp_simple(b, i) {
            Ok((q, j)) => {
                lemma_bodies_range(b, j, c - 1);
                match sp_bodies(b, j, c - 1) {
                    Ok((rest, end)) => {
                        let qs = seq![q] + rest;
                        assert forall|x: int| 0 <= x < qs.len() implies slices_in_range(
                            #[trigger] qs[x],
                            i,
                            end,
                        ) by {
                            if x == 0 {
                                assert(qs[x] == q);
                            } else {
                                assert(qs[x] == rest[x - 1]);
                            }
                        }
                    },
                    Err(_) => {},
                }
            },
            Err(_) => {},
        }
    }
}

// ---------------------------------------------------------------------------
// Prefix stability: truncating the buffer can only turn a result into
// `NotEnough`, never into a different answer. Feeding more bytes after a
// complete frame never changes how the frame parses.
// ---------------------------------------------------------------------------

pub proof fn lemma_find_lf_prefix(b: Seq<u8>, k: int, i: int)
    requires
        0 <= k <= b.len(),
    ensures
        ({
            let p = b.subrange(0, k);
            match find_lf(b, i) {
                Some(j) => if j < k {
                    find_lf(p, i) == Some(j)
                } else {
                    find_lf(p, i) is None
                },
                None => find_lf(p, i) is None,
            }
        }),
    decreases b.len() - i,
{
    let p = b.subrange(0, k);
    lemma_find_lf_range(b, i);
    if i < 0 || i >= b.len() {
    } else if b[i] == SYM_LF {
        if i < k {
            assert(p[i] == b[i]);
        }
    } else {
        lemma_find_lf_prefix(b, k, i + 1);
        if i < k {
            assert(p[i] == b[i]);
        }
    }
}

pub proof fn lemma_usize_prefix(b: Seq<u8>, k: int, i: int)
    requires
        0 <= k <= b.len(),
    ensures
        ({
            let p = b.subrange(0, k);
            match sp_usize(b, i) {
                Ok((v, next)) => if next <= k {
                    sp_usize(p, i) == Ok::<(int, int), ParseError>((v, next))
                } else {
                    sp_usize(p, i) == Err::<(int, int), ParseError>(ParseError::NotEnough)
                },
                Err(e) => sp_usize(p, i) == Err::<(int, int), ParseError>(e) || sp_usize(p, i)
                    == Err::<(int, int), ParseError>(ParseError::NotEnough),
            }
        }),
{
    let p = b.subrange(0, k);
    lemma_find_lf_prefix(b, k, i);
    lemma_find_lf_range(b, i);
    match find_lf(b, i) {
        Some(j) => {
            if j < k {
                assert(p.subrange(i, j) =~= b.subrange(i, j));
            }
        },
        None => {},
    }
}

pub proof fn lemma_elements_prefix(b: Seq<u8>, k: int, i: int, c: int)
    requires
        0 <= i <= k <= b.len(),
        b.len() <= usize::MAX,
    ensures
        ({
            let p = b.subrange(0, k);
            match sp_elements(b, i, c) {
                Ok((es, end)) => if end <= k {
                    sp_elements(p, i, c) == Ok::<(Seq<UnsafeSlice>, int), ParseError>((es, end))
                } else {
                    sp_elements(p, i, c) == Err::<(Seq<UnsafeSlice>, int), ParseError>(
                        ParseError::NotEnough,
                    )
                },
                Err(e) => sp_elements(p, i, c) == Err::<(Seq<UnsafeSlice>, int), ParseError>(e)
                    || sp_elements(p, i, c) == Err::<(Seq<UnsafeSlice>, int), ParseError>(
                    ParseError::NotEnough,
                ),
            }
        }),
    decreases c,
{
    let p = b.subrange(0, k);
    if c <= 0 {
    } else {
        lemma_usize_prefix(b, k, i);
        lemma_usize_range(b, i);
        match sp_usize(b, i) {
            Ok((sz, j)) => {
                if j + sz <= b.len() {
                    lemma_elements_range(b, j + sz, c - 1);
                    if j <= k && j + sz <= k {
                        lemma_elements_prefix(b, k, j + sz, c - 1);
                    }
                }
            },
            Err(e) => {},
        }
    }
}

pub proof fn lemma_simple_prefix(b: Seq<u8>, k: int, i: int)
    requires
        0 <= i <= k <= b.len(),
        b.len() <= usize::MAX,
    ensures
        ({
            let p = b.subrange(0, k);
            match sp_simple(b, i) {
                Ok((es, end)) => if end <= k {
                    sp_simple(p, i) == Ok::<(Seq<UnsafeSlice>, int), ParseError>((es, end))
                } else {
                    sp_simple(p, i) == Err::<(Seq<UnsafeSlice>, int), ParseError>(
                        ParseError::NotEnough,
                    )
                },
                Err(e) => sp_simple(p, i) == Err::<(Seq<UnsafeSlice>, int), ParseError>(e)
                    || sp_simple(p, i) == Err::<(Seq<UnsafeSlice>, int), ParseError>(
                    ParseError::NotEnough,
                ),
            }
        }),
{
    lemma_usize_prefix(b, k, i);
    lemma_usize_range(b, i);
    match sp_usize(b, i) {
        Ok((cnt, j)) => {
            lemma_elements_range(b, j, cnt);
            if j <= k {
                lemma_elements_prefix(b, k, j, cnt);
            }
        },
        Err(e) => {},
    }
}

pub proof fn lemma_bodies_prefix(b: Seq<u8>, k: int, i: int, c: int)
    requires
        0 <= i <= k <= b.len(),
        b.len() <= usize::MAX,
    ensures
        ({
            let p = b.subrange(0, k);
            match sp_bodies(b, i, c) {
                Ok((qs, end)) => if end <= k {
                    sp_bodies(p, i, c) == Ok::<(Seq<Seq<UnsafeSlice>>, int), ParseError>((qs, end))
                } else {
                    sp_bodies(p, i, c) == Err::<(Seq<Seq<UnsafeSlice>>, int), ParseError>(
                        ParseError::NotEnough,
                    )
                },
                Err(e) => sp_bodies(p, i, c) == Err::<(Seq<Seq<UnsafeSlice>>, int), ParseError>(e)
                    || sp_bodies(p, i, c) == Err::<(Seq<Seq<UnsafeSlice>>, int), ParseError>(
                    ParseError::NotEnough,
                ),
            }
        }),
    decreases c,
{
    let p = b.subrange(0, k);
    if c <= 0 {
    } else {
        lemma_simple_prefix(b, k, i);
        lemma_simple_range(b, i);
        match sp_simple(b, i) {
            Ok((q, j)) => {
                lemma_bodies_range(b, j, c - 1);
                if j <= k {
                    lemma_bodies_prefix(b, k, j, c - 1);
                }
            },
            Err(e) => {},
        }
    }
}

/// Prefix stability of the whole parser: for any split point `k`, parsing
/// only the first `k` bytes either reports `NotEnough` or returns exactly
/// what parsing the full buffer returns (and then the frame fits in the
/// prefix, `n <= k`).
pub proof fn lemma_parse_prefix_stable(b: Seq<u8>, k: int)
    requires
        0 <= k <= b.len(),
        b.len() <= usize::MAX,
    ensures
        ({
            let p = b.subrange(0, k);
            match sp_parse(b) {
                Ok((q, n)) => if n <= k {
                    sp_parse(p) == Ok::<(QueryRepr, int), ParseError>((q, n))
                } else {
                    sp_parse(p) == Err::<(QueryRepr, int), ParseError>(ParseError::NotEnough)
                },
                Err(e) => sp_parse(p) == Err::<(QueryRepr, int), ParseError>(e) || sp_parse(p)
                    == Err::<(QueryRepr, int), ParseError>(ParseError::NotEnough),
            }
        }),
{
    let p = b.subrange(0, k);
    if b.len() == 0 {
    } else if k == 0 {
        lemma_parse_range(b);
        assert(p.len() == 0);
    } else {
        assert(p[0] == b[0]);
        if b[0] == SYM_SIMPLE {
            lemma_simple_prefix(b, k, 1);
            lemma_simple_range(b, 1);
        } else if b[0] == SYM_PIPELINE {
            lemma_usize_prefix(b, k, 1);
            lemma_usize_range(b, 1);
            match sp_usize(b, 1) {
                Ok((cnt, j)) => {
                    lemma_bodies_range(b, j, cnt);
                    if j <= k {
                        lemma_bodies_prefix(b, k, j, cnt);
                    }
                },
                Err(e) => {},
            }
        }
    }
}

/// A frame is consumed exactly: if parsing `b` yields a frame of `n` bytes,
/// then parsing just those `n` bytes yields the same frame and consumes all
/// of them.
pub proof fn lemma_parse_consumes_exact(b: Seq<u8>)
    requires
        b.len() <= usize::MAX,
    ensures
        sp_parse(b) matches Ok((q, n)) ==> sp_parse(b.subrange(0, n)) == Ok::<
            (QueryRepr, int),
            ParseError,
        >((q, n)) && n == b.subrange(0, n).len(),
{
    match sp_parse(b) {
        Ok((q, n)) => {
            lemma_parse_range(b);
            lemma_parse_prefix_stable(b, n);
        },
        Err(_) => {},
    }
}

/// A successful parse consumes a non-empty prefix, and every element window
/// it hands out points inside that prefix.
pub proof fn lemma_parse_range(b: Seq<u8>)
    requires
        b.len() <= usize::MAX,
    ensures
        sp_parse(b) matches Ok((q, n)) ==> 0 < n <= b.len() && query_in_range(q, n),
{
    if b.len() > 0 {
        if b[0] == SYM_SIMPLE {
            lemma_simple_range(b, 1);
        } else if b[0] == SYM_PIPELINE {
            lemma_usize_range(b, 1);
            match sp_usize(b, 1) {
                Ok((cnt, j)) => {
                    lemma_bodies_range(b, j, cnt);
                },
                Err(_) => {},
            }
        }
    }
}

} // verus!

