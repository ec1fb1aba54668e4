use vstd::prelude::*;

verus! {

/// The byte at `i`, widened, or nothing past the end.
pub open spec fn byte_at(b: Seq<u8>, i: int) -> Option<u32> {
    if 0 <= i < b.len() {
        Some(b[i] as u32)
    } else {
        None
    }
}

/// A UTF-8 continuation byte (`10xxxxxx`).
pub open spec fn is_continuation(c: u8) -> bool {
    0x80 <= c < 0xC0
}

/// Number of bytes announced by a lead byte, 0 when it cannot lead a sequence.
pub open spec fn lead_len(a: u8) -> int {
    if a < 0x80 {
        1
    } else if 0xC0 <= a < 0xE0 {
        2
    } else if 0xE0 <= a < 0xF0 {
        3
    } else if 0xF0 <= a < 0xF8 {
        4
    } else {
        0
    }
}

/// The payload bits of a lead byte of a sequence of `n` bytes.
pub open spec fn lead_bits(a: u8, n: int) -> int {
    if n == 1 {
        a as int
    } else if n == 2 {
        a - 0xC0
    } else if n == 3 {
        a - 0xE0
    } else {
        a - 0xF0
    }
}

/// The codepoint made of the `n` bytes at `i`.
pub open spec fn combine(b: Seq<u8>, i: int, n: int) -> int
    decreases n,
{
    if n <= 1 {
        lead_bits(b[i], lead_len(b[i]))
    } else {
        combine(b, i, n - 1) * 64 + (b[i + n - 1] - 0x80)
    }
}

/// Decoding of one UTF-8 sequence at `i`: nothing at the end of the buffer,
/// an error on a bad lead byte or a missing or malformed continuation byte.
pub open spec fn codepoint_at(b: Seq<u8>, i: int) -> Result<Option<(u32, u8)>, ()> {
    if i < 0 || i >= b.len() {
        Ok(None)
    } else {
        let n = lead_len(b[i]);
        if n == 0 || i + n > b.len() {
            Err(())
        } else if exists|k: int| i < k < i + n && !is_continuation(#[trigger] b[k]) {
            Err(())
        } else {
            Ok(Some((combine(b, i, n) as u32, n as u8)))
        }
    }
}

/// A Unicode scalar value: below 0x110000 and not a surrogate.
pub open spec fn is_scalar(v: u32) -> bool {
    v < 0xD800 || (0xE000 <= v && v < 0x110000)
}

/// Decoding of one character at `i`: a codepoint that is no scalar value is an error.
pub open spec fn char_at(b: Seq<u8>, i: int) -> Result<Option<(u32, u8)>, ()> {
    match codepoint_at(b, i) {
        Ok(Some((c, n))) => if is_scalar(c) {
            Ok(Some((c, n)))
        } else {
            Err(())
        },
        r => r,
    }
}

pub proof fn lemma_char_len(b: Seq<u8>, i: int)
    ensures
        char_at(b, i) matches Ok(Some((c, n))) ==> 1 <= n <= 4 && i + n <= b.len(),
{
}

pub fn get_byte(buffer: &[u8], i: usize) -> (r: Option<u32>)
    ensures
        r == byte_at(buffer@, i as int),
{
    if i < buffer.len() {
        Some(buffer[i] as u32)
    } else {
        None
    }
}

spec fn cap(j: int) -> int {
    if j == 1 {
        128
    } else if j == 2 {
        8192
    } else if j == 3 {
        524288
    } else {
        33554432
    }
}

/// Return a codepoint and the size of its UTF-8 encoding.
pub fn get_codepoint(buffer: &[u8], i: usize) -> (r: Result<Option<(u32, u8)>, ()>)
    ensures
        r == codepoint_at(buffer@, i as int),
{
    if i >= buffer.len() {
        return Ok(None);
    }
    let a = buffer[i];
    let n: usize = if a < 0x80 {
        1
    } else if 0xC0 <= a && a < 0xE0 {
        2
    } else if 0xE0 <= a && a < 0xF0 {
        3
    } else if 0xF0 <= a && a < 0xF8 {
        4
    } else {
        0
    };
    if n == 0 || n > buffer.len() - i {
        return Err(());
    }
    let mut value: u32 = if n == 1 {
        a as u32
    } else if n == 2 {
        (a - 0xC0) as u32
    } else if n == 3 {
        (a - 0xE0) as u32
    } else {
        (a - 0xF0) as u32
    };
    let mut j: usize = 1;
    while j < n
        invariant
            1 <= j <= n <= 4,
            i + n <= buffer.len(),
            n == lead_len(buffer@[i as int]),
            value as int == combine(buffer@, i as int, j as int),
            value < cap(j as int),
            forall|k: int| i < k < i + j ==> is_continuation(#[trigger] buffer@[k]),
        decreases n - j,
    {
        let c = buffer[i + j];
        if c < 0x80 || c >= 0xC0 {
            assert(!is_continuation(buffer@[i + j]));
            return Err(());
        }
        value = value * 64 + (c - 0x80) as u32;
        j = j + 1;
    }
    Ok(Some((value, n as u8)))
}

/// Relies on `std::char::from_u32`: a character exactly for the scalar values.
#[verifier::external_body]
fn char_from_u32(v: u32) -> (r: Option<char>)
    ensures
        r is Some <==> is_scalar(v),
        r matches Some(c) ==> c as u32 == v,
{
    std::char::from_u32(v)
}

/// Return a character and the size of its UTF-8 encoding.
pub fn get_char(buffer: &[u8], i: usize) -> (r: Result<Option<(char, u8)>, ()>)
    ensures
        match r {
            Ok(Some((c, n))) => char_at(buffer@, i as int) == Ok::<Option<(u32, u8)>, ()>(
                Some((c as u32, n)),
            ),
            Ok(None) => char_at(buffer@, i as int) == Ok::<Option<(u32, u8)>, ()>(None),
            Err(()) => char_at(buffer@, i as int) == Err::<Option<(u32, u8)>, ()>(()),
        },
{
    match get_codepoint(buffer, i) {
        Ok(Some((codepoint, len))) => {
            match char_from_u32(codepoint) {
                Some(c) => Ok(Some((c, len))),
                None => Err(()),
            }
        },
        Ok(None) => Ok(None),
        Err(()) => Err(()),
    }
}

} // verus!
