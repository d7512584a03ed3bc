use vstd::prelude::*;

verus! {

/// What decoding a time-ordered identifier string yields: the 128-bit
/// value on success, nothing when the string is not a well-formed
/// 26-character Crockford base-32 identifier.  The outcome depends on the
/// characters of the string alone.
pub uninterp spec fn ulid_decode(s: Seq<char>) -> Option<u128>;

/// Relies on `ulid::Ulid::from_string`: a pure Crockford base-32 decode of
/// the 26-character identifier form, `Err` exactly on malformed input.
#[verifier::external_body]
pub(crate) fn parse_ulid(s: &str) -> (r: Option<u128>)
    ensures
        r == ulid_decode(s@),
{
    match ulid::Ulid::from_string(s) {
        Ok(u) => Some(u.0),
        Err(_) => None,
    }
}

/// The lower-case hexadecimal digit for a value in `0..16`.
pub open spec fn hex_digit(d: int) -> char {
    if d == 0 {
        '0'
    } else if d == 1 {
        '1'
    } else if d == 2 {
        '2'
    } else if d == 3 {
        '3'
    } else if d == 4 {
        '4'
    } else if d == 5 {
        '5'
    } else if d == 6 {
        '6'
    } else if d == 7 {
        '7'
    } else if d == 8 {
        '8'
    } else if d == 9 {
        '9'
    } else if d == 10 {
        'a'
    } else if d == 11 {
        'b'
    } else if d == 12 {
        'c'
    } else if d == 13 {
        'd'
    } else if d == 14 {
        'e'
    } else {
        'f'
    }
}

/// `v` written as exactly `n` hexadecimal digits, most significant first.
pub open spec fn hex_digits(v: int, n: nat) -> Seq<char>
    decreases n,
{
    if n == 0 {
        Seq::empty()
    } else {
        hex_digits(v / 16, (n - 1) as nat).push(hex_digit(v % 16))
    }
}

/// The canonical textual form of a 128-bit value: its 32 hex digits
/// grouped 8-4-4-4-12 with hyphens.
pub open spec fn uuid_hyphenated(u: u128) -> Seq<char> {
    let h = hex_digits(u as int, 32);
    h.subrange(0, 8) + seq!['-'] + h.subrange(8, 12) + seq!['-'] + h.subrange(12, 16)
        + seq!['-'] + h.subrange(16, 20) + seq!['-'] + h.subrange(20, 32)
}

/// Relies on `uuid::Uuid::from_u128` (big-endian bit-for-bit) and the
/// `Hyphenated` display form: lower-case hex digits grouped 8-4-4-4-12.
#[verifier::external_body]
pub(crate) fn to_uuid_string(u: u128) -> (r: String)
    ensures
        r@ == uuid_hyphenated(u),
{
    uuid::Uuid::from_u128(u).hyphenated().to_string()
}

} // verus!
