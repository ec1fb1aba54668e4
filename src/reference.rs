use vstd::prelude::*;
use crate::error::Error;
use crate::fragment::Fragment;
use crate::parsing::{is_alpha, is_digit, scan, span, Production};
use crate::path::{
    append_bytes, is_absolute_path, path_text, remove_dot_segments_of, remove_dots, remove_dots_in,
    segments_of, views, write_path, Path,
};
use crate::segment::{Segment, SegmentView};
use crate::pct::{pct_eq, pct_equiv};
use vstd::string::StringSliceAdditionalSpecFns;

verus! {

pub open spec fn is_scheme_char(c: u8) -> bool {
    is_alpha(c) || is_digit(c) || c == 0x2B || c == 0x2D || c == 0x2E
}

/// The number of scheme characters in a row from `i`.
pub open spec fn scheme_run(b: Seq<u8>, i: int) -> int
    decreases b.len() - i,
{
    if i < 0 || i >= b.len() || !is_scheme_char(b[i]) {
        0
    } else {
        1 + scheme_run(b, i + 1)
    }
}

/// The length of the scheme: a letter, then scheme characters, then `:`.
pub open spec fn scheme_of(b: Seq<u8>) -> Option<int> {
    let n = scheme_run(b, 0);
    if b.len() > 0 && is_alpha(b[0]) && n < b.len() && b[n] == 0x3A {
        Some(n)
    } else {
        None
    }
}

/// The length of a component of `p` announced by `mark` at `i`, if `mark` is there.
pub open spec fn marked_span(p: Production, mark: u8, b: Seq<u8>, i: int) -> Result<Option<int>, Error> {
    if 0 <= i < b.len() && b[i] == mark {
        match span(p, b, i + 1) {
            Ok(n) => Ok(Some(n)),
            Err(e) => Err(e),
        }
    } else {
        Ok(None)
    }
}

/// The length of the authority announced by `//` at `i`, if `//` is there.
pub open spec fn authority_span(b: Seq<u8>, i: int) -> Result<Option<int>, Error> {
    if 0 <= i && i + 1 < b.len() && b[i] == 0x2F && b[i + 1] == 0x2F {
        match span(Production::Authority, b, i + 2) {
            Ok(n) => Ok(Some(n)),
            Err(e) => Err(e),
        }
    } else {
        Ok(None)
    }
}

/// The lengths of the components of an IRI reference; a component is absent
/// exactly where its marker (`:`, `//`, `?`, `#`) is.
pub struct RefView {
    pub scheme: Option<int>,
    pub authority: Option<int>,
    pub path: int,
    pub query: Option<int>,
    pub fragment: Option<int>,
}

pub open spec fn opt_skip(o: Option<int>, extra: int) -> int {
    match o {
        Some(n) => n + extra,
        None => 0,
    }
}

pub open spec fn path_start(v: RefView) -> int {
    opt_skip(v.scheme, 1) + opt_skip(v.authority, 2)
}

pub open spec fn query_start(v: RefView) -> int {
    path_start(v) + v.path
}

pub open spec fn fragment_start(v: RefView) -> int {
    query_start(v) + opt_skip(v.query, 1)
}

pub open spec fn ref_end(v: RefView) -> int {
    fragment_start(v) + opt_skip(v.fragment, 1)
}

/// The top-level grammar of an IRI reference:
/// `[scheme ":"] ["//" authority] path ["?" query] ["#" fragment]`, each
/// component the longest match of its production, and nothing after.
pub open spec fn parse_ref(b: Seq<u8>) -> Result<RefView, Error> {
    let scheme = scheme_of(b);
    let pos0 = opt_skip(scheme, 1);
    match authority_span(b, pos0) {
        Err(e) => Err(e),
        Ok(a) => {
            let pos1 = pos0 + opt_skip(a, 2);
            match span(Production::Path, b, pos1) {
                Err(e) => Err(e),
                Ok(pl) => {
                    let pos2 = pos1 + pl;
                    match marked_span(Production::Query, 0x3F, b, pos2) {
                        Err(e) => Err(e),
                        Ok(q) => {
                            let pos3 = pos2 + opt_skip(q, 1);
                            match marked_span(Production::Fragment, 0x23, b, pos3) {
                                Err(e) => Err(e),
                                Ok(f) => if pos3 + opt_skip(f, 1) == b.len() {
                                    Ok(
                                        RefView {
                                            scheme,
                                            authority: a,
                                            path: pl,
                                            query: q,
                                            fragment: f,
                                        },
                                    )
                                } else {
                                    Err(Error::InvalidIriRef)
                                },
                            }
                        },
                    }
                },
            }
        },
    }
}

pub open spec fn opt_sub(b: Seq<u8>, o: Option<int>, start: int) -> Option<Seq<u8>> {
    match o {
        Some(n) => Some(b.subrange(start, start + n)),
        None => None,
    }
}

/// The scheme of `b` laid out as `v`.
pub open spec fn ref_scheme(b: Seq<u8>, v: RefView) -> Option<Seq<u8>> {
    opt_sub(b, v.scheme, 0)
}

pub open spec fn ref_authority(b: Seq<u8>, v: RefView) -> Option<Seq<u8>> {
    opt_sub(b, v.authority, opt_skip(v.scheme, 1) + 2)
}

pub open spec fn ref_path(b: Seq<u8>, v: RefView) -> Seq<u8> {
    b.subrange(path_start(v), path_start(v) + v.path)
}

pub open spec fn ref_query(b: Seq<u8>, v: RefView) -> Option<Seq<u8>> {
    opt_sub(b, v.query, query_start(v) + 1)
}

pub open spec fn ref_fragment(b: Seq<u8>, v: RefView) -> Option<Seq<u8>> {
    opt_sub(b, v.fragment, fragment_start(v) + 1)
}

/// `o` before `after`, or nothing.
pub open spec fn part_before(o: Option<Seq<u8>>, after: Seq<u8>) -> Seq<u8> {
    match o {
        Some(x) => x + after,
        None => Seq::empty(),
    }
}

/// `o` after `before`, or nothing.
pub open spec fn part_after(before: Seq<u8>, o: Option<Seq<u8>>) -> Seq<u8> {
    match o {
        Some(x) => before + x,
        None => Seq::empty(),
    }
}

/// The text of an IRI reference made of the given components.
pub open spec fn compose(
    scheme: Option<Seq<u8>>,
    authority: Option<Seq<u8>>,
    path: Seq<u8>,
    query: Option<Seq<u8>>,
    fragment: Option<Seq<u8>>,
) -> Seq<u8> {
    part_before(scheme, seq![0x3Au8]) + part_after(seq![0x2Fu8, 0x2Fu8], authority) + path
        + part_after(seq![0x3Fu8], query) + part_after(seq![0x23u8], fragment)
}

pub open spec fn opt_int(o: Option<usize>) -> Option<int> {
    match o {
        Some(n) => Some(n as int),
        None => None,
    }
}

fn is_scheme_char_exec(c: u8) -> (r: bool)
    ensures
        r == is_scheme_char(c),
{
    (0x41 <= c && c <= 0x5A) || (0x61 <= c && c <= 0x7A) || (0x30 <= c && c <= 0x39) || c == 0x2B
        || c == 0x2D || c == 0x2E
}

fn parse_scheme(b: &[u8]) -> (r: Option<usize>)
    ensures
        opt_int(r) == scheme_of(b@),
        r matches Some(n) ==> n < b@.len(),
{
    if b.len() == 0 || !((0x41 <= b[0] && b[0] <= 0x5A) || (0x61 <= b[0] && b[0] <= 0x7A)) {
        return None;
    }
    let mut i: usize = 0;
    while i < b.len() && is_scheme_char_exec(b[i])
        invariant
            i <= b@.len(),
            scheme_run(b@, 0) == i + scheme_run(b@, i as int),
        decreases b@.len() - i,
    {
        i = i + 1;
    }
    if i < b.len() && b[i] == 0x3A {
        Some(i)
    } else {
        None
    }
}

fn parse_marked(p: Production, mark: u8, b: &[u8], i: usize) -> (r: Result<Option<usize>, Error>)
    requires
        i <= b@.len(),
    ensures
        match r {
            Ok(o) => marked_span(p, mark, b@, i as int) == Ok::<Option<int>, Error>(opt_int(o)) && (
            o matches Some(n) ==> i + 1 + n <= b@.len()),
            Err(e) => marked_span(p, mark, b@, i as int) == Err::<Option<int>, Error>(e),
        },
{
    if i < b.len() && b[i] == mark {
        match scan(p, b, i + 1) {
            Ok(n) => Ok(Some(n)),
            Err(e) => Err(e),
        }
    } else {
        Ok(None)
    }
}

fn parse_authority(b: &[u8], i: usize) -> (r: Result<Option<usize>, Error>)
    requires
        i <= b@.len(),
    ensures
        match r {
            Ok(o) => authority_span(b@, i as int) == Ok::<Option<int>, Error>(opt_int(o)) && (
            o matches Some(n) ==> i + 2 + n <= b@.len()),
            Err(e) => authority_span(b@, i as int) == Err::<Option<int>, Error>(e),
        },
{
    if 1 < b.len() - i && b[i] == 0x2F && b[i + 1] == 0x2F {
        match scan(Production::Authority, b, i + 2) {
            Ok(n) => Ok(Some(n)),
            Err(e) => Err(e),
        }
    } else {
        Ok(None)
    }
}

fn skip(o: Option<usize>, extra: usize) -> (r: usize)
    requires
        o matches Some(n) ==> n + extra <= usize::MAX,
    ensures
        r == opt_skip(opt_int(o), extra as int),
{
    match o {
        Some(n) => n + extra,
        None => 0,
    }
}

proof fn lemma_span_bounds(p: Production, b: Seq<u8>, i: int)
    requires
        0 <= i <= b.len(),
    ensures
        span(p, b, i) matches Ok(n) ==> 0 <= n <= b.len() - i,
    decreases b.len() - i,
{
    if i < b.len() {
        match crate::parsing::unit_len(p, b, i) {
            Ok(k) => if k > 0 {
                crate::utf8::lemma_char_len(b, i);
                lemma_span_bounds(p, b, i + k);
            },
            Err(_) => {},
        }
    }
}

proof fn lemma_scheme_run_bounds(b: Seq<u8>, i: int)
    requires
        0 <= i <= b.len(),
    ensures
        0 <= scheme_run(b, i) <= b.len() - i,
    decreases b.len() - i,
{
    if i < b.len() {
        lemma_scheme_run_bounds(b, i + 1);
    }
}

/// The components of `v` lie within `b`, one after the other, with their
/// markers between them, and end where `b` does.
pub open spec fn laid_out(b: Seq<u8>, v: RefView) -> bool {
    &&& v.scheme matches Some(n) ==> 0 <= n && b[n] == 0x3A
    &&& v.authority matches Some(n) ==> 0 <= n && b[opt_skip(v.scheme, 1)] == 0x2F && b[opt_skip(
        v.scheme,
        1,
    ) + 1] == 0x2F
    &&& 0 <= v.path
    &&& v.query matches Some(n) ==> 0 <= n && b[query_start(v)] == 0x3F
    &&& v.fragment matches Some(n) ==> 0 <= n && b[fragment_start(v)] == 0x23
    &&& 0 <= path_start(v) <= query_start(v) <= fragment_start(v) <= ref_end(v)
    &&& ref_end(v) == b.len()
}

/// Where `b` parses, its components lie within it, one after the other, with
/// their markers between them, and end where `b` does.
pub proof fn lemma_layout(b: Seq<u8>)
    requires
        parse_ref(b) is Ok,
    ensures
        laid_out(b, parse_ref(b)->Ok_0),
{
    lemma_scheme_run_bounds(b, 0);
    let pos0 = opt_skip(scheme_of(b), 1);
    if 0 <= pos0 && pos0 + 1 < b.len() && b[pos0] == 0x2F && b[pos0 + 1] == 0x2F {
        lemma_span_bounds(Production::Authority, b, pos0 + 2);
    }
    let v = parse_ref(b)->Ok_0;
    lemma_span_bounds(Production::Path, b, path_start(v));
    let pos2 = query_start(v);
    if 0 <= pos2 < b.len() && b[pos2] == 0x3F {
        lemma_span_bounds(Production::Query, b, pos2 + 1);
    }
    let pos3 = fragment_start(v);
    if 0 <= pos3 < b.len() && b[pos3] == 0x23 {
        lemma_span_bounds(Production::Fragment, b, pos3 + 1);
    }
}

/// The components of `b` laid out as `v`, joined with their markers.
pub open spec fn recompose(b: Seq<u8>, v: RefView) -> Seq<u8> {
    compose(ref_scheme(b, v), ref_authority(b, v), ref_path(b, v), ref_query(b, v), ref_fragment(b, v))
}

/// Parsing neither changes nor normalises: the components of a parsed
/// reference, joined with their markers, give back its text byte for byte.
pub proof fn lemma_round_trip(b: Seq<u8>)
    requires
        parse_ref(b) is Ok,
    ensures
        recompose(b, parse_ref(b)->Ok_0) == b,
{
    lemma_layout(b);
    lemma_recompose(b, parse_ref(b)->Ok_0);
}

proof fn lemma_recompose(b: Seq<u8>, v: RefView)
    requires
        laid_out(b, v),
    ensures
        recompose(b, v) == b,
{
    let s0 = opt_skip(v.scheme, 1);
    let ps = path_start(v);
    let qs = query_start(v);
    let fs = fragment_start(v);
    let e = ref_end(v);
    let head = part_before(ref_scheme(b, v), seq![0x3Au8]);
    let auth = part_after(seq![0x2Fu8, 0x2Fu8], ref_authority(b, v));
    let q = part_after(seq![0x3Fu8], ref_query(b, v));
    let f = part_after(seq![0x23u8], ref_fragment(b, v));
    assert(head =~= b.subrange(0, s0));
    assert(auth =~= b.subrange(s0, ps));
    assert(q =~= b.subrange(qs, fs));
    assert(f =~= b.subrange(fs, e));
    assert(b =~= b.subrange(0, s0) + b.subrange(s0, ps) + b.subrange(ps, qs) + b.subrange(qs, fs)
        + b.subrange(fs, e));
}

pub open spec fn bytes_view<'b>(o: Option<&'b [u8]>) -> Option<Seq<u8>> {
    match o {
        Some(x) => Some(x@),
        None => None,
    }
}

/// The authority of an IRI reference, after its `//`.
#[derive(Clone, Copy, Debug)]
pub struct Authority<'a> {
    pub(crate) data: &'a [u8],
}

impl<'a> View for Authority<'a> {
    type V = Seq<u8>;

    open(crate) spec fn view(&self) -> Seq<u8> {
        self.data@
    }
}

impl<'a> Authority<'a> {
    /// Returns a reference to the byte representation of the authority.
    pub fn as_bytes(&self) -> (r: &'a [u8])
        ensures
            r@ == self@,
    {
        self.data
    }

    /// Checks if the authority is empty.
    pub fn is_empty(&self) -> (r: bool)
        ensures
            r == (self@.len() == 0),
    {
        self.data.len() == 0
    }
}

impl<'a> PartialEq for Authority<'a> {
    fn eq(&self, other: &Authority<'a>) -> (r: bool) {
        pct_eq(self.data, other.data)
    }
}

impl<'a> vstd::std_specs::cmp::PartialEqSpecImpl for Authority<'a> {
    open spec fn obeys_eq_spec() -> bool {
        true
    }

    open spec fn eq_spec(&self, other: &Authority<'a>) -> bool {
        pct_equiv(self@, other@)
    }
}

/// Two optional components are equivalent when both are absent, or both are
/// present and percent-decoded equivalent.
pub open spec fn opt_equiv(a: Option<Seq<u8>>, b: Option<Seq<u8>>) -> bool {
    match (a, b) {
        (Some(x), Some(y)) => pct_equiv(x, y),
        (None, None) => true,
        _ => false,
    }
}

/// The authority of a reference, empty where there is none.
pub open spec fn authority_or_empty(a: IriRefView) -> Seq<u8> {
    match ref_authority(a.bytes, a.layout) {
        Some(x) => x,
        None => Seq::empty(),
    }
}

/// Equivalence of two IRI references, component by component; the authority
/// is compared as a slice, empty where there is none.
pub open spec fn ref_equiv(a: IriRefView, b: IriRefView) -> bool {
    &&& opt_equiv(ref_scheme(a.bytes, a.layout), ref_scheme(b.bytes, b.layout))
    &&& pct_equiv(authority_or_empty(a), authority_or_empty(b))
    &&& pct_equiv(ref_path(a.bytes, a.layout), ref_path(b.bytes, b.layout))
    &&& opt_equiv(ref_query(a.bytes, a.layout), ref_query(b.bytes, b.layout))
    &&& opt_equiv(ref_fragment(a.bytes, a.layout), ref_fragment(b.bytes, b.layout))
}

fn opt_pct_eq(a: Option<&[u8]>, b: Option<&[u8]>) -> (r: bool)
    ensures
        r == opt_equiv(bytes_view(a), bytes_view(b)),
{
    match (a, b) {
        (Some(x), Some(y)) => pct_eq(x, y),
        (None, None) => true,
        _ => false,
    }
}

/// The segments of the base path that a relative path is merged after, and
/// whether the merged path is absolute: with an authority and an empty path,
/// the root; otherwise the base path without its last segment (an open last
/// segment stands for an empty one after it, which is the one dropped).
pub open spec fn merged(base_path: Seq<u8>, base_has_authority: bool, ref_path: Seq<u8>) -> (bool, Seq<SegmentView>) {
    if base_has_authority && base_path.len() == 0 {
        (true, segments_of(ref_path))
    } else {
        let bs = segments_of(base_path);
        let dir = if bs.len() > 0 && !bs.last().open {
            bs.drop_last()
        } else {
            bs
        };
        (is_absolute_path(base_path), dir + segments_of(ref_path))
    }
}

/// The text of the target of reference `r` resolved against base `b`.
pub open spec fn resolve_spec(r: IriRefView, b: IriRefView) -> Seq<u8> {
    let rs = ref_scheme(r.bytes, r.layout);
    let ra = ref_authority(r.bytes, r.layout);
    let rp = ref_path(r.bytes, r.layout);
    let rq = ref_query(r.bytes, r.layout);
    let rf = ref_fragment(r.bytes, r.layout);
    let bs = ref_scheme(b.bytes, b.layout);
    let ba = ref_authority(b.bytes, b.layout);
    let bp = ref_path(b.bytes, b.layout);
    let bq = ref_query(b.bytes, b.layout);
    if rs is Some {
        compose(rs, ra, remove_dot_segments_of(rp), rq, rf)
    } else if ra is Some {
        compose(bs, ra, remove_dot_segments_of(rp), rq, rf)
    } else if rp.len() == 0 {
        compose(bs, ba, bp, if rq is Some { rq } else { bq }, rf)
    } else if is_absolute_path(rp) {
        compose(bs, ba, remove_dot_segments_of(rp), rq, rf)
    } else {
        let (abs, segs) = merged(bp, ba is Some, rp);
        compose(bs, ba, path_text(abs, remove_dots(segs, abs)), rq, rf)
    }
}

/// The text of an IRI reference from its components.
pub fn compose_exec(
    scheme: Option<&[u8]>,
    authority: Option<&[u8]>,
    path: &[u8],
    query: Option<&[u8]>,
    fragment: Option<&[u8]>,
) -> (r: Vec<u8>)
    ensures
        r@ == compose(
            bytes_view(scheme),
            bytes_view(authority),
            path@,
            bytes_view(query),
            bytes_view(fragment),
        ),
{
    let mut out: Vec<u8> = Vec::new();
    match scheme {
        Some(x) => {
            append_bytes(&mut out, x);
            out.push(0x3A);
        },
        None => {},
    }
    assert(out@ =~= part_before(bytes_view(scheme), seq![0x3Au8]));
    let ghost o1 = out@;
    match authority {
        Some(x) => {
            out.push(0x2F);
            out.push(0x2F);
            append_bytes(&mut out, x);
        },
        None => {},
    }
    assert(out@ =~= o1 + part_after(seq![0x2Fu8, 0x2Fu8], bytes_view(authority)));
    append_bytes(&mut out, path);
    let ghost o2 = out@;
    match query {
        Some(x) => {
            out.push(0x3F);
            append_bytes(&mut out, x);
        },
        None => {},
    }
    assert(out@ =~= o2 + part_after(seq![0x3Fu8], bytes_view(query)));
    let ghost o3 = out@;
    match fragment {
        Some(x) => {
            out.push(0x23);
            append_bytes(&mut out, x);
        },
        None => {},
    }
    assert(out@ =~= o3 + part_after(seq![0x23u8], bytes_view(fragment)));
    out
}

/// The first `n` segments of `a`, then all of `b`.
fn concat_segments<'a>(a: &Vec<Segment<'a>>, n: usize, b: &Vec<Segment<'a>>) -> (r: Vec<Segment<'a>>)
    requires
        n <= a@.len(),
    ensures
        views(r@) == views(a@).take(n as int) + views(b@),
{
    let mut out: Vec<Segment<'a>> = Vec::new();
    let mut i: usize = 0;
    while i < n
        invariant
            i <= n <= a@.len(),
            views(out@) == views(a@).take(i as int),
        decreases n - i,
    {
        let ghost prev = out@;
        out.push(a[i]);
        assert(views(out@) =~= views(prev).push(a@[i as int]@));
        assert(views(out@) =~= views(a@).take(i + 1));
        i = i + 1;
    }
    let mut j: usize = 0;
    while j < b.len()
        invariant
            j <= b@.len(),
            views(out@) == views(a@).take(n as int) + views(b@).take(j as int),
        decreases b@.len() - j,
    {
        let ghost prev = out@;
        out.push(b[j]);
        assert(views(out@) =~= views(prev).push(b@[j as int]@));
        assert(views(out@) =~= views(a@).take(n as int) + views(b@).take(j + 1));
        j = j + 1;
    }
    assert(views(b@).take(j as int) =~= views(b@));
    out
}

/// What an IRI reference is: its bytes and the layout of its components.
pub struct IriRefView {
    pub bytes: Seq<u8>,
    pub layout: RefView,
}

/// A validated IRI reference over a borrowed buffer.
pub struct IriRef<'a> {
    data: &'a [u8],
    scheme: Option<usize>,
    authority: Option<usize>,
    path: usize,
    query: Option<usize>,
    fragment: Option<usize>,
}

impl<'a> View for IriRef<'a> {
    type V = IriRefView;

    closed spec fn view(&self) -> IriRefView {
        IriRefView {
            bytes: self.data@,
            layout: RefView {
                scheme: opt_int(self.scheme),
                authority: opt_int(self.authority),
                path: self.path as int,
                query: opt_int(self.query),
                fragment: opt_int(self.fragment),
            },
        }
    }
}

impl<'a> IriRef<'a> {
    #[verifier::type_invariant]
    closed spec fn inv(self) -> bool {
        &&& parse_ref(self.data@) == Ok::<RefView, Error>(self@.layout)
        &&& self.data@.len() <= usize::MAX
    }

    /// Parse an IRI reference.
    pub fn new(s: &'a str) -> (r: Result<IriRef<'a>, Error>)
        ensures
            match r {
                Ok(x) => x@.bytes == s.spec_bytes() && parse_ref(s.spec_bytes()) == Ok::<
                    RefView,
                    Error,
                >(x@.layout),
                Err(e) => parse_ref(s.spec_bytes()) == Err::<RefView, Error>(e),
            },
    {
        IriRef::from_bytes(s.as_bytes())
    }

    /// Parse an IRI reference held in a byte buffer.
    pub fn from_bytes(b: &'a [u8]) -> (r: Result<IriRef<'a>, Error>)
        ensures
            match r {
                Ok(x) => x@.bytes == b@ && parse_ref(b@) == Ok::<
                    RefView,
                    Error,
                >(x@.layout),
                Err(e) => parse_ref(b@) == Err::<RefView, Error>(e),
            },
    {
        let len = b.len();
        let scheme = parse_scheme(b);
        let pos0 = skip(scheme, 1);
        let authority = match parse_authority(b, pos0) {
            Ok(a) => a,
            Err(e) => {
                return Err(e);
            },
        };
        let pos1 = pos0 + skip(authority, 2);
        let path = match scan(Production::Path, b, pos1) {
            Ok(n) => n,
            Err(e) => {
                return Err(e);
            },
        };
        let pos2 = pos1 + path;
        let query = match parse_marked(Production::Query, 0x3F, b, pos2) {
            Ok(q) => q,
            Err(e) => {
                return Err(e);
            },
        };
        let pos3 = pos2 + skip(query, 1);
        let fragment = match parse_marked(Production::Fragment, 0x23, b, pos3) {
            Ok(f) => f,
            Err(e) => {
                return Err(e);
            },
        };
        let pos4 = pos3 + skip(fragment, 1);
        if pos4 == b.len() {
            Ok(IriRef { data: b, scheme, authority, path, query, fragment })
        } else {
            Err(Error::InvalidIriRef)
        }
    }

    /// Length in bytes.
    pub fn len(&self) -> (r: usize)
        ensures
            r == self@.bytes.len(),
    {
        self.data.len()
    }

    /// The whole text of the reference, as it was given.
    pub fn as_bytes(&self) -> (r: &'a [u8])
        ensures
            r@ == self@.bytes,
    {
        self.data
    }

    fn sub(&self, start: usize, len: usize) -> (r: &'a [u8])
        requires
            start + len <= self@.bytes.len(),
        ensures
            r@ == self@.bytes.subrange(start as int, start + len),
    {
        proof {
            use_type_invariant(self);
        }
        vstd::slice::slice_subrange(self.data, start, start + len)
    }

    fn path_offset(&self) -> (r: usize)
        ensures
            r == path_start(self@.layout),
    {
        proof {
            use_type_invariant(self);
            lemma_layout(self@.bytes);
        }
        let s0 = match self.scheme {
            Some(n) => n + 1,
            None => 0,
        };
        match self.authority {
            Some(a) => s0 + 2 + a,
            None => s0,
        }
    }

    /// The scheme, before the first `:`, if there is one.
    pub fn scheme(&self) -> (r: Option<&'a [u8]>)
        ensures
            bytes_view(r) == ref_scheme(self@.bytes, self@.layout),
    {
        proof {
            use_type_invariant(self);
            lemma_layout(self@.bytes);
        }
        match self.scheme {
            Some(n) => Some(self.sub(0, n)),
            None => None,
        }
    }

    /// Whether the reference has an authority, after `//`.
    pub fn has_authority(&self) -> (r: bool)
        ensures
            r == self@.layout.authority is Some,
    {
        self.authority.is_some()
    }

    /// The authority; empty where there is none.
    pub fn authority(&self) -> (r: Authority<'a>)
        ensures
            r@ == match ref_authority(self@.bytes, self@.layout) {
                Some(a) => a,
                None => Seq::<u8>::empty(),
            },
    {
        proof {
            use_type_invariant(self);
            lemma_layout(self@.bytes);
        }
        match self.authority {
            Some(a) => {
                let s0 = match self.scheme {
                    Some(n) => n + 1,
                    None => 0,
                };
                Authority { data: self.sub(s0 + 2, a) }
            },
            None => {
                let r = Authority { data: self.sub(0, 0) };
                assert(r@ =~= Seq::<u8>::empty());
                r
            },
        }
    }

    /// The path.
    pub fn path(&self) -> (r: Path<'a>)
        ensures
            r@ == ref_path(self@.bytes, self@.layout),
    {
        proof {
            use_type_invariant(self);
            lemma_layout(self@.bytes);
        }
        let offset = self.path_offset();
        Path { data: self.sub(offset, self.path) }
    }

    /// The query, after `?`, if there is one.
    pub fn query(&self) -> (r: Option<&'a [u8]>)
        ensures
            bytes_view(r) == ref_query(self@.bytes, self@.layout),
    {
        proof {
            use_type_invariant(self);
            lemma_layout(self@.bytes);
        }
        match self.query {
            Some(n) => {
                let offset = self.path_offset() + self.path;
                Some(self.sub(offset + 1, n))
            },
            None => None,
        }
    }

    /// The fragment, after `#`, if there is one.
    pub fn fragment(&self) -> (r: Option<Fragment<'a>>)
        ensures
            match r {
                Some(f) => ref_fragment(self@.bytes, self@.layout) == Some(f@),
                None => ref_fragment(self@.bytes, self@.layout) is None,
            },
    {
        proof {
            use_type_invariant(self);
            lemma_layout(self@.bytes);
        }
        match self.fragment {
            Some(n) => {
                let mut offset = self.path_offset() + self.path;
                match self.query {
                    Some(q) => {
                        offset = offset + q + 1;
                    },
                    None => {},
                }
                Some(Fragment { data: self.sub(offset + 1, n) })
            },
            None => None,
        }
    }

    fn fragment_bytes(&self) -> (r: Option<&'a [u8]>)
        ensures
            bytes_view(r) == ref_fragment(self@.bytes, self@.layout),
    {
        match self.fragment() {
            Some(f) => Some(f.data),
            None => None,
        }
    }

    fn authority_bytes(&self) -> (r: Option<&'a [u8]>)
        ensures
            bytes_view(r) == ref_authority(self@.bytes, self@.layout),
    {
        if self.has_authority() {
            Some(self.authority().data)
        } else {
            None
        }
    }

    /// Resolve this reference against `base`: the text of the target.
    pub fn resolve(&self, base: &IriRef) -> (r: Vec<u8>)
        ensures
            r@ == resolve_spec(self@, base@),
    {
        let rs = self.scheme();
        let ra = self.authority_bytes();
        let rp = self.path();
        let rq = self.query();
        let rf = self.fragment_bytes();
        let bs = base.scheme();
        let ba = base.authority_bytes();
        let bp = base.path();
        if rs.is_some() {
            let p = rp.remove_dot_segments();
            compose_exec(rs, ra, p.as_slice(), rq, rf)
        } else if ra.is_some() {
            let p = rp.remove_dot_segments();
            compose_exec(bs, ra, p.as_slice(), rq, rf)
        } else if rp.is_empty() {
            let q = if rq.is_some() {
                rq
            } else {
                base.query()
            };
            compose_exec(bs, ba, bp.as_bytes(), q, rf)
        } else if rp.is_absolute() {
            let p = rp.remove_dot_segments();
            compose_exec(bs, ba, p.as_slice(), rq, rf)
        } else {
            let rsegs = rp.segments();
            let (abs, segs) = if ba.is_some() && bp.is_empty() {
                (true, rsegs)
            } else {
                let bsegs = bp.segments();
                let n = bsegs.len();
                let keep = if n > 0 && !bsegs[n - 1].is_open() {
                    n - 1
                } else {
                    n
                };
                proof {
                    if n > 0 {
                        assert(views(bsegs@).last() == bsegs@[n - 1]@);
                        assert(views(bsegs@).take(n - 1) =~= views(bsegs@).drop_last());
                    }
                    assert(views(bsegs@).take(n as int) =~= views(bsegs@));
                }
                (bp.is_absolute(), concat_segments(&bsegs, keep, &rsegs))
            };
            let kept = remove_dots_in(&segs, abs);
            let mut p: Vec<u8> = Vec::new();
            write_path(&mut p, abs, &kept);
            assert(p@ =~= path_text(abs, remove_dots(views(segs@), abs)));
            compose_exec(bs, ba, p.as_slice(), rq, rf)
        }
    }
}

impl<'a> PartialEq for IriRef<'a> {
    fn eq(&self, other: &IriRef<'a>) -> (r: bool) {
        opt_pct_eq(self.scheme(), other.scheme()) && pct_eq(
            self.authority().as_bytes(),
            other.authority().as_bytes(),
        ) && pct_eq(self.path().as_bytes(), other.path().as_bytes()) && opt_pct_eq(
            self.query(),
            other.query(),
        ) && opt_pct_eq(self.fragment_bytes(), other.fragment_bytes())
    }
}

impl<'a> PartialEq<&'a str> for IriRef<'a> {
    fn eq(&self, other: &&'a str) -> (r: bool) {
        match IriRef::new(*other) {
            Ok(x) => <IriRef<'a> as PartialEq>::eq(self, &x),
            Err(_) => false,
        }
    }
}

impl<'a> vstd::std_specs::cmp::PartialEqSpecImpl<&'a str> for IriRef<'a> {
    open spec fn obeys_eq_spec() -> bool {
        true
    }

    /// A reference equals a string that parses to an equivalent reference.
    open spec fn eq_spec(&self, other: &&'a str) -> bool {
        match parse_ref(other.spec_bytes()) {
            Ok(v) => ref_equiv(self@, IriRefView { bytes: other.spec_bytes(), layout: v }),
            Err(_) => false,
        }
    }
}

impl<'a> vstd::std_specs::cmp::PartialEqSpecImpl for IriRef<'a> {
    open spec fn obeys_eq_spec() -> bool {
        true
    }

    open spec fn eq_spec(&self, other: &IriRef<'a>) -> bool {
        ref_equiv(self@, other@)
    }
}

} // verus!
