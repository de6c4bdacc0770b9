use vstd::prelude::*;

use crate::errors::OracleError;

verus! {

/// Whether `c` is an ASCII hexadecimal digit (either case).
pub open spec fn is_hex_digit(c: char) -> bool {
    ('0' as u32 <= c as u32 && c as u32 <= '9' as u32) || ('a' as u32 <= c as u32 && c as u32
        <= 'f' as u32) || ('A' as u32 <= c as u32 && c as u32 <= 'F' as u32)
}

/// Numeric value of a hexadecimal digit; meaningful only when
/// `is_hex_digit(c)` holds.
pub open spec fn hex_val(c: char) -> int {
    if '0' as u32 <= c as u32 && c as u32 <= '9' as u32 {
        c as u32 - '0' as u32
    } else if 'a' as u32 <= c as u32 && c as u32 <= 'f' as u32 {
        c as u32 - 'a' as u32 + 10
    } else {
        c as u32 - 'A' as u32 + 10
    }
}

/// A string is decodable hexadecimal when its length is even and every
/// character is a hexadecimal digit.
pub open spec fn hex_ok(s: Seq<char>) -> bool {
    s.len() % 2 == 0 && forall|i: int| 0 <= i < s.len() ==> is_hex_digit(#[trigger] s[i])
}

/// The bytes a hexadecimal string encodes, two digits per byte, the first
/// digit of each pair being the high nibble.
pub open spec fn hex_bytes(s: Seq<char>) -> Seq<u8>
    decreases s.len(),
{
    if s.len() < 2 {
        Seq::empty()
    } else {
        seq![(hex_val(s[0]) * 16 + hex_val(s[1])) as u8] + hex_bytes(s.skip(2))
    }
}

fn hex_digit_value(c: char) -> (r: Option<u8>)
    ensures
        match r {
            Some(v) => is_hex_digit(c) && v == hex_val(c),
            None => !is_hex_digit(c),
        },
{
    let u = c as u32;
    if 48 <= u && u <= 57 {
        Some((u - 48) as u8)
    } else if 97 <= u && u <= 102 {
        Some((u - 87) as u8)
    } else if 65 <= u && u <= 70 {
        Some((u - 55) as u8)
    } else {
        None
    }
}

/// Decode a hexadecimal string (no marker handling here). Succeeds exactly
/// on decodable strings and returns their bytes.
pub fn decode_hex(s: &str) -> (r: Result<Vec<u8>, OracleError>)
    ensures
        match r {
            Ok(v) => hex_ok(s@) && v@ == hex_bytes(s@),
            Err(e) => !hex_ok(s@) && e is Encoding,
        },
{
    let n = s.unicode_len();
    if n % 2 != 0 {
        return Err(OracleError::Encoding);
    }
    let mut out: Vec<u8> = Vec::new();
    let mut i: usize = 0;
    proof {
        assert(s@.skip(0) =~= s@);
        assert(Seq::<u8>::empty() + hex_bytes(s@) =~= hex_bytes(s@));
    }
    while i < n
        invariant
            n == s@.len(),
            n % 2 == 0,
            i % 2 == 0,
            i <= n,
            forall|j: int| 0 <= j < i ==> is_hex_digit(#[trigger] s@[j]),
            hex_bytes(s@) == out@ + hex_bytes(s@.skip(i as int)),
        decreases n - i,
    {
        let c1 = s.get_char(i);
        let c2 = s.get_char(i + 1);
        let v1 = match hex_digit_value(c1) {
            Some(v) => v,
            None => {
                assert(!is_hex_digit(s@[i as int]));
                return Err(OracleError::Encoding);
            },
        };
        let v2 = match hex_digit_value(c2) {
            Some(v) => v,
            None => {
                assert(!is_hex_digit(s@[i as int + 1]));
                return Err(OracleError::Encoding);
            },
        };
        let byte: u8 = v1 * 16 + v2;
        proof {
            let t = s@.skip(i as int);
            assert(t.len() >= 2);
            assert(t[0] == s@[i as int]);
            assert(t[1] == s@[i as int + 1]);
            assert(t.skip(2) =~= s@.skip(i as int + 2));
            assert(hex_bytes(t) == seq![byte] + hex_bytes(s@.skip(i as int + 2)));
            assert(out@.push(byte) + hex_bytes(s@.skip(i as int + 2)) =~= out@ + hex_bytes(t));
        }
        out.push(byte);
        i = i + 2;
    }
    proof {
        assert(s@.skip(n as int).len() == 0);
        assert(out@ + hex_bytes(s@.skip(n as int)) =~= out@);
    }
    Ok(out)
}

/// The payload of a hexadecimal field after removing one optional leading
/// indicator marker.
pub open spec fn strip_hex_prefix(s: Seq<char>) -> Seq<char> {
    if s.len() >= 2 && s[0] == '0' && s[1] == 'x' {
        s.skip(2)
    } else {
        s
    }
}

fn strip_prefix_exec<'a>(s: &'a str) -> (r: &'a str)
    ensures
        r@ == strip_hex_prefix(s@),
{
    let n = s.unicode_len();
    if n >= 2 {
        let c0 = s.get_char(0);
        let c1 = s.get_char(1);
        if c0 == '0' && c1 == 'x' {
            let t = s.substring_char(2, n);
            proof {
                assert(t@ =~= s@.skip(2));
            }
            return t;
        }
    }
    s
}

/// Result of parsing a 32-byte hexadecimal field: the optional marker is
/// stripped and the payload must decode to exactly 32 bytes.
pub open spec fn parse_b256(s: Seq<char>) -> Option<Seq<u8>> {
    let t = strip_hex_prefix(s);
    if hex_ok(t) && hex_bytes(t).len() == 32 {
        Some(hex_bytes(t))
    } else {
        None
    }
}

/// Parse a hexadecimal field that must decode to exactly 32 bytes.
pub fn parse_hex_to_b256(s: &str) -> (r: Result<Vec<u8>, OracleError>)
    ensures
        match r {
            Ok(v) => parse_b256(s@) == Some(v@),
            Err(e) => parse_b256(s@) is None && e is Encoding,
        },
{
    let t = strip_prefix_exec(s);
    match decode_hex(t) {
        Ok(v) => {
            if v.len() == 32 {
                Ok(v)
            } else {
                Err(OracleError::Encoding)
            }
        },
        Err(e) => Err(e),
    }
}

/// Zero-extend a byte string on the left to exactly 32 bytes; meaningful
/// only when the input holds at most 32 bytes.
pub open spec fn pad32(b: Seq<u8>) -> Seq<u8> {
    Seq::new((32 - b.len()) as nat, |i: int| 0u8) + b
}

/// Result of parsing a hexadecimal field of at most 32 bytes, zero-padded
/// on the left to exactly 32 bytes.
pub open spec fn parse_b256_padded(s: Seq<char>) -> Option<Seq<u8>> {
    let t = strip_hex_prefix(s);
    if hex_ok(t) && hex_bytes(t).len() <= 32 {
        Some(pad32(hex_bytes(t)))
    } else {
        None
    }
}

/// Parse a hexadecimal field of at most 32 bytes, zero-padding shorter
/// values on the left; longer values are rejected.
pub fn parse_hex_to_b256_padded(s: &str) -> (r: Result<Vec<u8>, OracleError>)
    ensures
        match r {
            Ok(v) => parse_b256_padded(s@) == Some(v@) && v@.len() == 32,
            Err(e) => parse_b256_padded(s@) is None && e is Encoding,
        },
{
    let t = strip_prefix_exec(s);
    let bytes = match decode_hex(t) {
        Ok(v) => v,
        Err(e) => return Err(e),
    };
    if bytes.len() > 32 {
        return Err(OracleError::Encoding);
    }
    let pad: usize = 32 - bytes.len();
    let mut out: Vec<u8> = Vec::new();
    while out.len() < pad
        invariant
            out@.len() <= pad,
            forall|j: int| 0 <= j < out@.len() ==> out@[j] == 0u8,
        decreases pad - out@.len(),
    {
        out.push(0u8);
    }
    let mut i: usize = 0;
    while i < bytes.len()
        invariant
            pad == 32 - bytes@.len(),
            bytes@.len() <= 32,
            out@.len() == pad + i,
            i <= bytes@.len(),
            forall|j: int| 0 <= j < pad ==> out@[j] == 0u8,
            forall|j: int| pad <= j < pad + i ==> out@[j] == bytes@[j - pad],
        decreases bytes@.len() - i,
    {
        let b = bytes[i];
        out.push(b);
        i = i + 1;
    }
    proof {
        assert(out@ =~= pad32(bytes@));
    }
    Ok(out)
}

/// A leading indicator marker never changes what a decodable hexadecimal
/// field decodes to: for a payload that is itself decodable hexadecimal,
/// parsing the marked form gives exactly the bytes of the bare form.
pub proof fn lemma_prefix_transparent(s: Seq<char>)
    requires
        hex_ok(s),
    ensures
        parse_b256(seq!['0', 'x'] + s) == parse_b256(s),
        parse_b256_padded(seq!['0', 'x'] + s) == parse_b256_padded(s),
{
    let p = seq!['0', 'x'] + s;
    assert(p[0] == '0' && p[1] == 'x');
    assert(p.skip(2) =~= s);
    if s.len() >= 2 {
        assert(is_hex_digit(s[1]));
        assert(s[1] != 'x');
    }
    assert(strip_hex_prefix(p) == s);
    assert(strip_hex_prefix(s) == s);
}

} // verus!
