use vstd::prelude::*;
use crate::error::Error;
use crate::utf8::{char_at, get_char};

verus! {

/// The grammar productions that the scanner recognises, each a class of characters.
#[derive(Clone, Copy, Debug, PartialEq, Eq, Structural)]
pub enum Production {
    /// `iauthority`, taken as a whole: userinfo, host and port characters.
    Authority,
    /// `ipath`: segments and their `/` separators.
    Path,
    /// `isegment`: one path segment.
    Segment,
    /// `iquery`.
    Query,
    /// `ifragment`.
    Fragment,
}

pub open spec fn is_alpha(c: u8) -> bool {
    (0x41 <= c <= 0x5A) || (0x61 <= c <= 0x7A)
}

pub open spec fn is_digit(c: u8) -> bool {
    0x30 <= c <= 0x39
}

pub open spec fn is_hex(c: u8) -> bool {
    is_digit(c) || (0x41 <= c <= 0x46) || (0x61 <= c <= 0x66)
}

/// `unreserved`: letters, digits, `-`, `.`, `_`, `~`.
pub open spec fn is_unreserved(c: u8) -> bool {
    is_alpha(c) || is_digit(c) || c == 0x2D || c == 0x2E || c == 0x5F || c == 0x7E
}

/// `sub-delims`: `!`, `$`, `&`, `'`, `(`, `)`, `*`, `+`, `,`, `;`, `=`.
pub open spec fn is_sub_delim(c: u8) -> bool {
    c == 0x21 || c == 0x24 || (0x26 <= c <= 0x2C) || c == 0x3B || c == 0x3D
}

/// The ASCII characters of a production, besides `%`.
pub open spec fn ascii_allowed(p: Production, c: u8) -> bool {
    is_unreserved(c) || is_sub_delim(c) || c == 0x3A || c == 0x40 || match p {
        Production::Authority => c == 0x5B || c == 0x5D,
        Production::Path => c == 0x2F,
        Production::Segment => false,
        Production::Query => c == 0x2F || c == 0x3F,
        Production::Fragment => c == 0x2F || c == 0x3F,
    }
}

/// `ucschar` of RFC 3987.
pub open spec fn is_ucschar(c: u32) -> bool {
    (0xA0 <= c <= 0xD7FF) || (0xF900 <= c <= 0xFDCF) || (0xFDF0 <= c <= 0xFFEF) || (0x10000
        <= c <= 0xDFFFD && c % 0x10000 <= 0xFFFD) || (0xE1000 <= c <= 0xEFFFD)
}

/// `iprivate` of RFC 3987.
pub open spec fn is_iprivate(c: u32) -> bool {
    (0xE000 <= c <= 0xF8FF) || (0xF0000 <= c <= 0xFFFFD) || (0x100000 <= c <= 0x10FFFD)
}

/// The non-ASCII characters of a production.
pub open spec fn unicode_allowed(p: Production, c: u32) -> bool {
    is_ucschar(c) || (p == Production::Query && is_iprivate(c))
}

/// The length of the one unit (character or `%HH` triplet) of `p` at `i`;
/// 0 where none starts there. A malformed `%` triplet ends the match.
pub open spec fn unit_len(p: Production, b: Seq<u8>, i: int) -> Result<int, Error> {
    if i < 0 || i >= b.len() {
        Ok(0)
    } else if b[i] == 0x25 {
        if i + 2 < b.len() && is_hex(b[i + 1]) && is_hex(b[i + 2]) {
            Ok(3)
        } else {
            Ok(0)
        }
    } else if b[i] < 0x80 {
        if ascii_allowed(p, b[i]) {
            Ok(1)
        } else {
            Ok(0)
        }
    } else {
        match char_at(b, i) {
            Ok(Some((c, n))) => if unicode_allowed(p, c) {
                Ok(n as int)
            } else {
                Ok(0)
            },
            Ok(None) => Ok(0),
            Err(()) => Err(Error::InvalidEncoding),
        }
    }
}

/// The length of the longest prefix of `b` from `i` made of units of `p`,
/// or the decoding error met on the way.
pub open spec fn span(p: Production, b: Seq<u8>, i: int) -> Result<int, Error>
    decreases b.len() - i,
{
    if i < 0 || i >= b.len() {
        Ok(0)
    } else {
        match unit_len(p, b, i) {
            Err(e) => Err(e),
            Ok(k) => if k <= 0 {
                Ok(0)
            } else {
                match span(p, b, i + k) {
                    Ok(m) => Ok(k + m),
                    Err(e) => Err(e),
                }
            },
        }
    }
}

/// `r` shifted by `d`.
pub open spec fn shifted(r: Result<int, Error>, d: int) -> Result<int, Error> {
    match r {
        Ok(m) => Ok(m + d),
        Err(e) => Err(e),
    }
}

fn unit(p: Production, b: &[u8], i: usize) -> (r: Result<usize, Error>)
    requires
        i < b@.len(),
    ensures
        match r {
            Ok(k) => unit_len(p, b@, i as int) == Ok::<int, Error>(k as int) && i + k <= b@.len(),
            Err(e) => unit_len(p, b@, i as int) == Err::<int, Error>(e),
        },
{
    let c = b[i];
    if c == 0x25 {
        if 2 < b.len() - i && is_hex_exec(b[i + 1]) && is_hex_exec(b[i + 2]) {
            Ok(3)
        } else {
            Ok(0)
        }
    } else if c < 0x80 {
        if ascii_allowed_exec(p, c) {
            Ok(1)
        } else {
            Ok(0)
        }
    } else {
        match get_char(b, i) {
            Ok(Some((ch, n))) => {
                if unicode_allowed_exec(p, ch as u32) {
                    Ok(n as usize)
                } else {
                    Ok(0)
                }
            },
            Ok(None) => Ok(0),
            Err(()) => Err(Error::InvalidEncoding),
        }
    }
}

fn is_hex_exec(c: u8) -> (r: bool)
    ensures
        r == is_hex(c),
{
    (0x30 <= c && c <= 0x39) || (0x41 <= c && c <= 0x46) || (0x61 <= c && c <= 0x66)
}

fn is_alpha_exec(c: u8) -> (r: bool)
    ensures
        r == is_alpha(c),
{
    (0x41 <= c && c <= 0x5A) || (0x61 <= c && c <= 0x7A)
}

fn ascii_allowed_exec(p: Production, c: u8) -> (r: bool)
    ensures
        r == ascii_allowed(p, c),
{
    let common = is_alpha_exec(c) || (0x30 <= c && c <= 0x39) || c == 0x2D || c == 0x2E || c
        == 0x5F || c == 0x7E || c == 0x21 || c == 0x24 || (0x26 <= c && c <= 0x2C) || c == 0x3B
        || c == 0x3D || c == 0x3A || c == 0x40;
    common || match p {
        Production::Authority => c == 0x5B || c == 0x5D,
        Production::Path => c == 0x2F,
        Production::Segment => false,
        Production::Query => c == 0x2F || c == 0x3F,
        Production::Fragment => c == 0x2F || c == 0x3F,
    }
}

fn unicode_allowed_exec(p: Production, c: u32) -> (r: bool)
    ensures
        r == unicode_allowed(p, c),
{
    let ucs = (0xA0 <= c && c <= 0xD7FF) || (0xF900 <= c && c <= 0xFDCF) || (0xFDF0 <= c && c
        <= 0xFFEF) || (0x10000 <= c && c <= 0xDFFFD && c % 0x10000 <= 0xFFFD) || (0xE1000 <= c && c
        <= 0xEFFFD);
    let private = (0xE000 <= c && c <= 0xF8FF) || (0xF0000 <= c && c <= 0xFFFFD) || (0x100000
        <= c && c <= 0x10FFFD);
    ucs || (matches!(p, Production::Query) && private)
}

/// Scan from `start` the longest prefix made of units of `p`: its length in
/// bytes, or the decoding error met on the way.
pub fn scan(p: Production, b: &[u8], start: usize) -> (r: Result<usize, Error>)
    requires
        start <= b@.len(),
    ensures
        match r {
            Ok(n) => span(p, b@, start as int) == Ok::<int, Error>(n as int) && start + n
                <= b@.len(),
            Err(e) => span(p, b@, start as int) == Err::<int, Error>(e),
        },
{
    let mut i = start;
    while i < b.len()
        invariant
            start <= i <= b@.len(),
            span(p, b@, start as int) == shifted(span(p, b@, i as int), i - start),
        decreases b@.len() - i,
    {
        match unit(p, b, i) {
            Err(e) => {
                return Err(e);
            },
            Ok(k) => {
                if k == 0 {
                    return Ok(i - start);
                }
                i = i + k;
            },
        }
    }
    Ok(i - start)
}

} // verus!
