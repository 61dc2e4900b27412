//! Hexadecimal digits, as they stand in a hex header.

use vstd::prelude::*;

verus! {

/// The lower-case digit of a value below sixteen.
pub open spec fn hex_digit(n: u8) -> u8 {
    if n < 10 {
        (0x30 + n) as u8
    } else {
        (0x61 + (n - 10)) as u8
    }
}

/// Two lower-case digits for each byte, high half first.
pub open spec fn hex_of(s: Seq<u8>) -> Seq<u8> {
    Seq::new(
        2 * s.len(),
        |i: int|
            if i % 2 == 0 {
                hex_digit(s[i / 2] >> 4)
            } else {
                hex_digit(s[i / 2] & 0xf)
            },
    )
}

/// The value of a digit of either case; `None` for any other byte.
pub open spec fn hex_value(b: u8) -> Option<u8> {
    if 0x30 <= b <= 0x39 {
        Some((b - 0x30) as u8)
    } else if 0x61 <= b <= 0x66 {
        Some((b - 0x61 + 10) as u8)
    } else if 0x41 <= b <= 0x46 {
        Some((b - 0x41 + 10) as u8)
    } else {
        None
    }
}

/// The byte that the digits `s[2 * i]` and `s[2 * i + 1]` spell.
pub open spec fn hex_pair(s: Seq<u8>, i: int) -> u8 {
    (hex_value(s[2 * i])->0 << 4) | hex_value(s[2 * i + 1])->0
}

/// The first fourteen bytes of `s` are there and are digits.
pub open spec fn is_hex14(s: Seq<u8>) -> bool {
    &&& s.len() >= 14
    &&& forall|i: int| 0 <= i < 14 ==> hex_value(#[trigger] s[i]) is Some
}

/// The seven bytes that the first fourteen digits of `s` spell.
pub open spec fn hex7(s: Seq<u8>) -> Option<Seq<u8>> {
    if is_hex14(s) {
        Some(Seq::new(7, |i: int| hex_pair(s, i)))
    } else {
        None
    }
}

/// The value of the hexadecimal digit `b`, in either case.
pub fn hex_val(b: u8) -> (v: Option<u8>)
    ensures
        v == hex_value(b),
{
    if 0x30 <= b && b <= 0x39 {
        Some(b - 0x30)
    } else if 0x61 <= b && b <= 0x66 {
        Some(b - 0x61 + 10)
    } else if 0x41 <= b && b <= 0x46 {
        Some(b - 0x41 + 10)
    } else {
        None
    }
}

/// Reads seven bytes from fourteen hexadecimal digits.
pub fn parse_hex(h: &[u8]) -> (r: Option<[u8; 7]>)
    ensures
        r is Some == hex7(h@) is Some,
        r is Some ==> r->0@ == hex7(h@)->0,
{
    let mut out: [u8; 7] = [0u8; 7];
    if h.len() < 14 {
        return None;
    }
    let mut i: usize = 0;
    while i < 7
        invariant
            i <= 7,
            h@.len() >= 14,
            forall|j: int| 0 <= j < 2 * i ==> hex_value(#[trigger] h@[j]) is Some,
            forall|j: int| 0 <= j < i ==> #[trigger] out@[j] == hex_pair(h@, j),
        decreases 7 - i,
    {
        let hi = match hex_val(h[i * 2]) {
            Some(v) => v,
            None => {
                assert(hex_value(h@[2 * i]) is None);
                return None;
            },
        };
        let lo = match hex_val(h[i * 2 + 1]) {
            Some(v) => v,
            None => {
                assert(hex_value(h@[2 * i + 1]) is None);
                return None;
            },
        };
        out[i] = (hi << 4) | lo;
        i = i + 1;
    }
    assert(out@ =~= hex7(h@)->0);
    Some(out)
}

/// The lower-case digit of `n`.
pub fn hex_char(n: u8) -> (d: u8)
    requires
        n < 16,
    ensures
        d == hex_digit(n),
{
    if n < 10 {
        0x30 + n
    } else {
        0x61 + (n - 10)
    }
}

/// Appends the digits of `b` to `out`.
pub fn push_hex(b: u8, out: &mut Vec<u8>)
    ensures
        final(out)@ == old(out)@ + seq![hex_digit(b >> 4), hex_digit(b & 0xf)],
{
    assert(b >> 4 < 16 && b & 0xf < 16) by (bit_vector);
    out.push(hex_char(b >> 4));
    out.push(hex_char(b & 0xf));
}

/// Digits read back give the bytes they were written from.
pub proof fn hex_round_trip(s: Seq<u8>, rest: Seq<u8>)
    requires
        s.len() == 7,
    ensures
        hex7(hex_of(s) + rest) == Some(s),
{
    let h = hex_of(s) + rest;
    assert forall|i: int| 0 <= i < 14 implies hex_value(#[trigger] h[i]) is Some by {
        let b = s[i / 2];
        assert(b >> 4 < 16 && b & 0xf < 16) by (bit_vector);
    }
    assert forall|i: int| 0 <= i < 7 implies hex_pair(h, i) == s[i] by {
        let b = s[i];
        assert(b >> 4 < 16 && b & 0xf < 16 && (b >> 4) << 4 | (b & 0xf) == b) by (bit_vector);
        assert((2 * i) / 2 == i && (2 * i + 1) / 2 == i);
        assert(h[2 * i] == hex_digit(b >> 4));
        assert(h[2 * i + 1] == hex_digit(b & 0xf));
    }
    assert(hex7(h)->0 =~= s);
}

} // verus!
