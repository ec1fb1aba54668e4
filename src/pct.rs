use vstd::prelude::*;
use std::cmp::Ordering;
use vstd::utf8::{decode_utf8, valid_utf8};

verus! {

/// What the percent-encoded text `s` decodes to: the characters of the bytes
/// that remain once each `%HH` triplet is replaced by its octet, read as UTF-8
/// by the decoder of `pct_str`; nothing where `s` holds a malformed triplet or
/// where that decoder refuses the octets.
pub uninterp spec fn pct_decoding(s: Seq<char>) -> Option<Seq<char>>;

/// What the bytes `b` decode to: nothing where they are no UTF-8 text.
pub open spec fn decoding(b: Seq<u8>) -> Option<Seq<char>> {
    if valid_utf8(b) {
        pct_decoding(decode_utf8(b))
    } else {
        None
    }
}

/// The value of a hexadecimal digit.
pub open spec fn hex_val(c: u8) -> int {
    if 0x30 <= c <= 0x39 {
        c - 0x30
    } else if 0x41 <= c <= 0x46 {
        c - 0x41 + 10
    } else {
        c - 0x61 + 10
    }
}

/// Whether a well-formed `%HH` triplet starts at `i`.
pub open spec fn triplet_at(b: Seq<u8>, i: int) -> bool {
    0 <= i && i + 2 < b.len() && b[i] == 0x25 && crate::parsing::is_hex(b[i + 1])
        && crate::parsing::is_hex(b[i + 2])
}

/// The octets of `b` from `i` on, each `%HH` triplet replaced by the octet it encodes.
pub open spec fn octets_from(b: Seq<u8>, i: int) -> Seq<u8>
    decreases b.len() - i,
{
    if i < 0 || i >= b.len() {
        Seq::empty()
    } else if triplet_at(b, i) {
        seq![(hex_val(b[i + 1]) * 16 + hex_val(b[i + 2])) as u8] + octets_from(b, i + 3)
    } else {
        seq![b[i]] + octets_from(b, i + 1)
    }
}

/// The octets that `b` encodes.
pub open spec fn octets(b: Seq<u8>) -> Seq<u8> {
    octets_from(b, 0)
}

/// Equivalence of two components by what they decode to; two components whose
/// octets are no text are compared by their octets.
pub open spec fn equiv_decoded(a: Seq<u8>, da: Option<Seq<char>>, b: Seq<u8>, db: Option<Seq<char>>) -> bool {
    match (da, db) {
        (Some(x), Some(y)) => x == y,
        (None, None) => octets(a) == octets(b),
        _ => false,
    }
}

/// Percent-decoded equivalence of two components.
pub open spec fn pct_equiv(a: Seq<u8>, b: Seq<u8>) -> bool {
    equiv_decoded(a, decoding(a), b, decoding(b))
}

pub open spec fn opt_view(d: &Option<String>) -> Option<Seq<char>> {
    match d {
        Some(s) => Some(s@),
        None => None,
    }
}

/// Relies on `std::str::from_utf8`: the same bytes as text, exactly where
/// they are valid UTF-8.
#[verifier::external_body]
fn utf8_text(b: &[u8]) -> (r: Option<&str>)
    ensures
        r is Some <==> valid_utf8(b@),
        r matches Some(s) ==> s@ == decode_utf8(b@),
{
    std::str::from_utf8(b).ok()
}

/// Relies on `pct_str::PctStr::new`, which checks the percent-encoding of a
/// string, and `pct_str::PctStr::decode`, which decodes a checked one.
#[verifier::external_body]
fn pct_decode_text(s: &str) -> (r: Option<String>)
    ensures
        opt_view(&r) == pct_decoding(s@),
{
    match pct_str::PctStr::new(s) {
        Ok(p) => Some(p.decode()),
        Err(_) => None,
    }
}

/// What the bytes `b` decode to.
pub fn pct_decode(b: &[u8]) -> (r: Option<String>)
    ensures
        opt_view(&r) == decoding(b@),
{
    match utf8_text(b) {
        Some(s) => pct_decode_text(s),
        None => None,
    }
}

/// Byte-for-byte equality of two slices.
pub fn bytes_eq(a: &[u8], b: &[u8]) -> (r: bool)
    ensures
        r == (a@ == b@),
{
    if a.len() != b.len() {
        return false;
    }
    let mut i: usize = 0;
    while i < a.len()
        invariant
            a@.len() == b@.len(),
            i <= a@.len(),
            a@.take(i as int) == b@.take(i as int),
        decreases a@.len() - i,
    {
        if a[i] != b[i] {
            assert(a@.take(i + 1)[i as int] != b@.take(i + 1)[i as int]);
            return false;
        }
        assert(a@.take(i + 1) =~= a@.take(i as int).push(a@[i as int]));
        assert(b@.take(i + 1) =~= b@.take(i as int).push(b@[i as int]));
        i = i + 1;
    }
    assert(a@ =~= a@.take(i as int));
    assert(b@ =~= b@.take(i as int));
    true
}

fn hex_val_exec(c: u8) -> (r: u8)
    requires
        crate::parsing::is_hex(c),
    ensures
        r as int == hex_val(c),
        r < 16,
{
    if 0x30 <= c && c <= 0x39 {
        c - 0x30
    } else if 0x41 <= c && c <= 0x46 {
        c - 0x41 + 10
    } else {
        c - 0x61 + 10
    }
}

/// The octets that `b` encodes, each `%HH` triplet replaced by its octet.
pub fn pct_octets(b: &[u8]) -> (r: Vec<u8>)
    ensures
        r@ == octets(b@),
{
    let mut out: Vec<u8> = Vec::new();
    let mut i: usize = 0;
    while i < b.len()
        invariant
            i <= b@.len(),
            octets(b@) == out@ + octets_from(b@, i as int),
        decreases b@.len() - i,
    {
        let ghost prev = out@;
        if b[i] == 0x25 && 2 < b.len() - i && (0x30 <= b[i + 1] && b[i + 1] <= 0x39 || 0x41 <= b[i
            + 1] && b[i + 1] <= 0x46 || 0x61 <= b[i + 1] && b[i + 1] <= 0x66) && (0x30 <= b[i + 2]
            && b[i + 2] <= 0x39 || 0x41 <= b[i + 2] && b[i + 2] <= 0x46 || 0x61 <= b[i + 2] && b[i
            + 2] <= 0x66) {
            let hi = hex_val_exec(b[i + 1]);
            let lo = hex_val_exec(b[i + 2]);
            out.push(hi * 16 + lo);
            assert(out@ + octets_from(b@, i + 3) =~= prev + octets_from(b@, i as int));
            i = i + 3;
        } else {
            out.push(b[i]);
            assert(out@ + octets_from(b@, i + 1) =~= prev + octets_from(b@, i as int));
            i = i + 1;
        }
    }
    assert(out@ =~= out@ + octets_from(b@, i as int));
    out
}

/// Equivalence of two components given what each decodes to.
pub fn decoded_equiv(a: &[u8], da: &Option<String>, b: &[u8], db: &Option<String>) -> (r: bool)
    ensures
        r == equiv_decoded(a@, opt_view(da), b@, opt_view(db)),
{
    match (da, db) {
        (Some(x), Some(y)) => x.eq(y),
        (None, None) => {
            let oa = pct_octets(a);
            let ob = pct_octets(b);
            bytes_eq(oa.as_slice(), ob.as_slice())
        },
        _ => false,
    }
}

/// Percent-decoded equivalence of two components.
pub fn pct_eq(a: &[u8], b: &[u8]) -> (r: bool)
    ensures
        r == pct_equiv(a@, b@),
{
    let da = pct_decode(a);
    let db = pct_decode(b);
    decoded_equiv(a, &da, b, &db)
}

/// Lexicographic order of two byte sequences.
pub open spec fn lex_cmp(a: Seq<u8>, b: Seq<u8>) -> Ordering
    decreases a.len(),
{
    if a.len() == 0 {
        if b.len() == 0 {
            Ordering::Equal
        } else {
            Ordering::Less
        }
    } else if b.len() == 0 {
        Ordering::Greater
    } else if a[0] < b[0] {
        Ordering::Less
    } else if a[0] > b[0] {
        Ordering::Greater
    } else {
        lex_cmp(a.drop_first(), b.drop_first())
    }
}

/// Order of two components: equal where they are equivalent, otherwise by the
/// octets they encode (for UTF-8 text, the order of the characters); two
/// components with the same octets that are not equivalent are not ordered.
pub open spec fn pct_order(a: Seq<u8>, b: Seq<u8>) -> Option<Ordering> {
    if pct_equiv(a, b) {
        Some(Ordering::Equal)
    } else {
        match lex_cmp(octets(a), octets(b)) {
            Ordering::Equal => None,
            o => Some(o),
        }
    }
}

/// Lexicographic order of two byte slices.
pub fn bytes_cmp(a: &[u8], b: &[u8]) -> (r: Ordering)
    ensures
        r == lex_cmp(a@, b@),
{
    let mut i: usize = 0;
    assert(a@.skip(0) =~= a@);
    assert(b@.skip(0) =~= b@);
    while i < a.len() && i < b.len() && a[i] == b[i]
        invariant
            i <= a@.len(),
            i <= b@.len(),
            lex_cmp(a@, b@) == lex_cmp(a@.skip(i as int), b@.skip(i as int)),
        decreases a@.len() - i,
    {
        assert(a@.skip(i as int).drop_first() =~= a@.skip(i + 1));
        assert(b@.skip(i as int).drop_first() =~= b@.skip(i + 1));
        i = i + 1;
    }
    if i == a.len() {
        if i == b.len() {
            Ordering::Equal
        } else {
            Ordering::Less
        }
    } else if i == b.len() {
        Ordering::Greater
    } else if a[i] < b[i] {
        Ordering::Less
    } else {
        Ordering::Greater
    }
}

/// Percent-decoded order of two components.
pub fn pct_cmp(a: &[u8], b: &[u8]) -> (r: Option<Ordering>)
    ensures
        r == pct_order(a@, b@),
{
    if pct_eq(a, b) {
        Some(Ordering::Equal)
    } else {
        let oa = pct_octets(a);
        let ob = pct_octets(b);
        match bytes_cmp(oa.as_slice(), ob.as_slice()) {
            Ordering::Equal => None,
            o => Some(o),
        }
    }
}

} // verus!
