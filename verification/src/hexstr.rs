//! Hexadecimal info-hash handling: validation, decoding a hex string into
//! raw bytes, and encoding bytes as uppercase hex. Info-hashes travel as
//! 40-character uppercase hex strings and as 20 raw bytes on the wire.

use vstd::prelude::*;

verus! {

pub open spec fn is_hex_digit(c: char) -> bool {
    ('0' <= c && c <= '9') || ('a' <= c && c <= 'f') || ('A' <= c && c <= 'F')
}

pub open spec fn is_hex_seq(s: Seq<char>) -> bool {
    forall|i: int| 0 <= i < s.len() ==> is_hex_digit(#[trigger] s[i])
}

/// Numeric value of one hex digit.
pub open spec fn hex_val(c: char) -> int {
    if '0' <= c && c <= '9' {
        c as int - '0' as int
    } else if 'a' <= c && c <= 'f' {
        10 + c as int - 'a' as int
    } else {
        10 + c as int - 'A' as int
    }
}

/// The uppercase hex digit for a value below 16.
pub open spec fn hex_digit_upper(n: int) -> char {
    if n == 0 { '0' } else if n == 1 { '1' } else if n == 2 { '2' }
    else if n == 3 { '3' } else if n == 4 { '4' } else if n == 5 { '5' }
    else if n == 6 { '6' } else if n == 7 { '7' } else if n == 8 { '8' }
    else if n == 9 { '9' } else if n == 10 { 'A' } else if n == 11 { 'B' }
    else if n == 12 { 'C' } else if n == 13 { 'D' } else if n == 14 { 'E' }
    else { 'F' }
}

/// Uppercase hex rendering of a byte sequence: two digits per byte,
/// high nibble first.
pub open spec fn bytes_to_hex_upper(b: Seq<u8>) -> Seq<char> {
    Seq::new(
        b.len() * 2,
        |i: int| if i % 2 == 0 {
            hex_digit_upper(b[i / 2] as int / 16)
        } else {
            hex_digit_upper(b[i / 2] as int % 16)
        },
    )
}

/// The bytes a hex string denotes; meaningful when the length is even and
/// every character is a hex digit.
pub open spec fn hex_to_bytes(s: Seq<char>) -> Seq<u8> {
    Seq::new(s.len() / 2, |i: int| (hex_val(s[2 * i]) * 16 + hex_val(s[2 * i + 1])) as u8)
}

pub fn is_hex_digit_char(c: char) -> (r: bool)
    ensures
        r == is_hex_digit(c),
{
    ('0' <= c && c <= '9') || ('a' <= c && c <= 'f') || ('A' <= c && c <= 'F')
}

pub fn hex_val_char(c: char) -> (r: u8)
    requires
        is_hex_digit(c),
    ensures
        r == hex_val(c),
        r < 16,
{
    if '0' <= c && c <= '9' {
        (c as u8) - ('0' as u8)
    } else if 'a' <= c && c <= 'f' {
        10 + (c as u8) - ('a' as u8)
    } else {
        10 + (c as u8) - ('A' as u8)
    }
}

pub fn hex_digit_upper_char(n: u8) -> (r: char)
    requires
        n < 16,
    ensures
        r == hex_digit_upper(n as int),
{
    match n {
        0 => '0', 1 => '1', 2 => '2', 3 => '3', 4 => '4', 5 => '5', 6 => '6',
        7 => '7', 8 => '8', 9 => '9', 10 => 'A', 11 => 'B', 12 => 'C',
        13 => 'D', 14 => 'E', _ => 'F',
    }
}

/// Encodes bytes as uppercase hex, high nibble first.
pub fn hex_encode_upper(b: &Vec<u8>) -> (r: String)
    ensures
        r@ == bytes_to_hex_upper(b@),
{
    let mut out: Vec<char> = Vec::new();
    let mut i: usize = 0;
    while i < b.len()
        invariant
            i <= b@.len(),
            out@ == bytes_to_hex_upper(b@.subrange(0, i as int)),
        decreases b@.len() - i,
    {
        out.push(hex_digit_upper_char(b[i] / 16));
        out.push(hex_digit_upper_char(b[i] % 16));
        i = i + 1;
        proof {
            assert(out@ =~= bytes_to_hex_upper(b@.subrange(0, i as int)));
        }
    }
    proof {
        assert(out@ =~= bytes_to_hex_upper(b@));
    }
    crate::text::chars_string(&out)
}

/// Decodes a hex string into bytes. Returns `None` exactly when the length
/// is odd or some character is not a hex digit.
pub fn hex_decode(s: &str) -> (r: Option<Vec<u8>>)
    ensures
        r is Some <==> (s@.len() % 2 == 0 && is_hex_seq(s@)),
        r is Some ==> r->Some_0@ == hex_to_bytes(s@),
{
    let cs = crate::text::str_chars(s);
    if cs.len() % 2 != 0 {
        return None;
    }
    let mut i: usize = 0;
    while i < cs.len()
        invariant
            cs@ == s@,
            i <= cs@.len(),
            forall|j: int| 0 <= j < i ==> is_hex_digit(#[trigger] cs@[j]),
        decreases cs@.len() - i,
    {
        if !is_hex_digit_char(cs[i]) {
            return None;
        }
        i = i + 1;
    }
    let mut out: Vec<u8> = Vec::new();
    let mut k: usize = 0;
    while k < cs.len() / 2
        invariant
            cs@ == s@,
            cs@.len() % 2 == 0,
            is_hex_seq(cs@),
            k <= cs@.len() / 2,
            out@ == hex_to_bytes(cs@).subrange(0, k as int),
        decreases cs@.len() / 2 - k,
    {
        let hi = hex_val_char(cs[2 * k]);
        let lo = hex_val_char(cs[2 * k + 1]);
        out.push(hi * 16 + lo);
        k = k + 1;
        proof {
            assert(out@ =~= hex_to_bytes(cs@).subrange(0, k as int));
        }
    }
    proof {
        assert(out@ =~= hex_to_bytes(cs@));
    }
    Some(out)
}

} // verus!
