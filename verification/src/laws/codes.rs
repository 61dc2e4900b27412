//! Numbers, digits, checks and escapes, told by what they are worth.

use vstd::prelude::*;

use crate::frame::{HeaderView, ZDLE, ZHEX};
use crate::protocol::BinView;

verus! {

/// The number that four bytes stand for, the least significant first.
pub open spec fn worth(a: u8, b: u8, c: u8, d: u8) -> int {
    a + 0x100 * b + 0x1_0000 * c + 0x100_0000 * d
}

/// A word of 32 bits is written as the four digits of its number in base 256,
/// in either order, and read as it is written.
pub proof fn words_are_numbers(x: u32)
    ensures
        ({
            let s = crate::bytes::le32(x);
            s.len() == 4 && worth(s[0], s[1], s[2], s[3]) == x
        }),
        ({
            let s = crate::bytes::be32(x);
            s.len() == 4 && worth(s[3], s[2], s[1], s[0]) == x
        }),
{
    assert(((x & 0xff) as u8) as u32 + 0x100 * (((x >> 8) & 0xff) as u8) as u32 + 0x1_0000 * (((x
        >> 16) & 0xff) as u8) as u32 + 0x100_0000 * (((x >> 24) & 0xff) as u8) as u32 == x)
        by (bit_vector);
}

/// Four bytes are read as the number they are the digits of in base 256.
pub proof fn numbers_are_words(s: Seq<u8>)
    requires
        s.len() == 4,
    ensures
        crate::bytes::from_le32(s) == worth(s[0], s[1], s[2], s[3]),
        crate::bytes::from_be32(s) == worth(s[3], s[2], s[1], s[0]),
{
    lemma_worth(s[0], s[1], s[2], s[3]);
    lemma_worth(s[3], s[2], s[1], s[0]);
}

proof fn lemma_worth(a: u8, b: u8, c: u8, d: u8)
    ensures
        ((a as u32) | (b as u32) << 8 | (c as u32) << 16 | (d as u32) << 24) == worth(a, b, c, d),
{
    assert(((a as u32) | (b as u32) << 8 | (c as u32) << 16 | (d as u32) << 24) == (a as u32)
        + 0x100 * (b as u32) + 0x1_0000 * (c as u32) + 0x100_0000 * (d as u32)) by (bit_vector);
}

/// A word of 16 bits is written as its two digits in base 256, the most
/// significant first.
pub proof fn short_words_are_numbers(x: u16)
    ensures
        ({
            let s = crate::bytes::be16(x);
            s.len() == 2 && 0x100 * s[0] + s[1] == x
        }),
{
    assert(0x100 * ((x >> 8) as u8) as u16 + ((x & 0xff) as u8) as u16 == x) by (bit_vector);
}

/// The value of a hexadecimal digit of either case, or -1.
pub open spec fn digit_worth(d: u8) -> int {
    if 0x30 <= d <= 0x39 {
        d - 0x30
    } else if 0x61 <= d <= 0x66 {
        d - 0x57
    } else if 0x41 <= d <= 0x46 {
        d - 0x37
    } else {
        -1
    }
}

/// Each byte is written as two digits, the higher one first, with letters in
/// lower case.
pub proof fn digits_are_worth_bytes(s: Seq<u8>)
    ensures
        ({
            let h = crate::hex::hex_of(s);
            &&& h.len() == 2 * s.len()
            &&& forall|i: int|
                0 <= i < s.len() ==> #[trigger] s[i] == 16 * digit_worth(h[2 * i]) + digit_worth(
                    h[2 * i + 1],
                )
            &&& forall|k: int|
                0 <= k < h.len() ==> 0 <= digit_worth(#[trigger] h[k]) < 16 && !(0x41 <= h[k]
                    <= 0x46)
        }),
{
    let h = crate::hex::hex_of(s);
    assert forall|i: int| 0 <= i < s.len() implies #[trigger] s[i] == 16 * digit_worth(h[2 * i])
        + digit_worth(h[2 * i + 1]) by {
        let b = s[i];
        lemma_halves(b);
        assert((2 * i) / 2 == i && (2 * i + 1) / 2 == i);
        assert((2 * i) % 2 == 0 && (2 * i + 1) % 2 == 1);
        assert(h[2 * i] == crate::hex::hex_digit(b >> 4));
        assert(h[2 * i + 1] == crate::hex::hex_digit(b & 0xf));
    }
    assert forall|k: int| 0 <= k < h.len() implies 0 <= digit_worth(#[trigger] h[k]) < 16 && !(0x41
        <= h[k] <= 0x46) by {
        lemma_halves(s[k / 2]);
    }
}

proof fn lemma_halves(b: u8)
    ensures
        b >> 4 < 16,
        b & 0xf < 16,
        b == 16 * (b >> 4) + (b & 0xf),
{
    assert(b >> 4 < 16 && b & 0xf < 16 && b == 16 * (b >> 4) + (b & 0xf)) by (bit_vector);
}

proof fn lemma_join(hi: u8, lo: u8)
    requires
        hi < 16,
        lo < 16,
    ensures
        (hi << 4) | lo == 16 * hi + lo,
{
    assert(hi < 16 && lo < 16 ==> ((hi << 4) | lo) == 16 * hi + lo) by (bit_vector);
}

/// Fourteen digits of either case are read as the seven bytes they are worth;
/// anything that is no digit among them is refused.
pub proof fn digits_are_read(h: Seq<u8>)
    ensures
        crate::hex::hex7(h) is Some <==> h.len() >= 14 && forall|k: int|
            0 <= k < 14 ==> digit_worth(#[trigger] h[k]) >= 0,
        crate::hex::hex7(h) matches Some(v) ==> v.len() == 7 && forall|i: int|
            0 <= i < 7 ==> #[trigger] v[i] == 16 * digit_worth(h[2 * i]) + digit_worth(
                h[2 * i + 1],
            ),
{
    if h.len() >= 14 && (forall|k: int| 0 <= k < 14 ==> digit_worth(#[trigger] h[k]) >= 0) {
        assert forall|k: int| 0 <= k < 14 implies crate::hex::hex_value(#[trigger] h[k]) is Some by {
            assert(digit_worth(h[k]) >= 0);
        }
    }
    if crate::hex::is_hex14(h) {
        assert forall|k: int| 0 <= k < 14 implies digit_worth(#[trigger] h[k]) >= 0 by {
            assert(crate::hex::hex_value(h[k]) is Some);
        }
        let v = crate::hex::hex7(h)->0;
        assert forall|i: int| 0 <= i < 7 implies #[trigger] v[i] == 16 * digit_worth(h[2 * i])
            + digit_worth(h[2 * i + 1]) by {
            assert(crate::hex::hex_value(h[2 * i]) is Some);
            assert(crate::hex::hex_value(h[2 * i + 1]) is Some);
            let hi = crate::hex::hex_value(h[2 * i])->0;
            let lo = crate::hex::hex_value(h[2 * i + 1])->0;
            lemma_join(hi, lo);
            assert(v[i] == crate::hex::hex_pair(h, i));
        }
    }
}

/// The exclusive or of two messages of one length.
pub open spec fn mixed(a: Seq<u8>, b: Seq<u8>) -> Seq<u8> {
    Seq::new(a.len(), |i: int| a[i] ^ b[i])
}

proof fn lemma_crc16_shifts_mix(x: u16, y: u16, n: nat)
    ensures
        crate::crc::crc16_shifts(x ^ y, n) == crate::crc::crc16_shifts(x, n)
            ^ crate::crc::crc16_shifts(y, n),
    decreases n,
{
    if n > 0 {
        lemma_crc16_shifts_mix(x, y, (n - 1) as nat);
        let a = crate::crc::crc16_shifts(x, (n - 1) as nat);
        let b = crate::crc::crc16_shifts(y, (n - 1) as nat);
        assert((if (a ^ b) & 0x8000 != 0 {
            ((a ^ b) << 1) ^ 0x1021
        } else {
            (a ^ b) << 1
        }) == (if a & 0x8000 != 0 {
            (a << 1) ^ 0x1021
        } else {
            a << 1
        }) ^ (if b & 0x8000 != 0 {
            (b << 1) ^ 0x1021
        } else {
            b << 1
        })) by (bit_vector);
    }
}

/// The 16-bit check is a remainder: that of two mixed messages is that of the
/// one mixed with that of the other.
pub proof fn crc16_is_linear(a: Seq<u8>, b: Seq<u8>)
    requires
        a.len() == b.len(),
    ensures
        crate::crc::crc16_of(mixed(a, b)) == crate::crc::crc16_of(a) ^ crate::crc::crc16_of(b),
    decreases a.len(),
{
    if a.len() == 0 {
        assert(0u16 ^ 0u16 == 0u16) by (bit_vector);
    } else {
        let m = mixed(a, b);
        let d = a.drop_last();
        let e = b.drop_last();
        crc16_is_linear(d, e);
        assert(m.drop_last() =~= mixed(d, e));
        let c1 = crate::crc::crc16_of(d);
        let c2 = crate::crc::crc16_of(e);
        let x = a.last();
        let y = b.last();
        assert(m.last() == x ^ y);
        lemma_crc16_shifts_mix(c1 ^ ((x as u16) << 8), c2 ^ ((y as u16) << 8), 8);
        assert((c1 ^ c2) ^ (((x ^ y) as u16) << 8) == (c1 ^ ((x as u16) << 8)) ^ (c2 ^ ((
        y as u16) << 8))) by (bit_vector);
    }
}

/// A message with its 16-bit check behind it leaves no remainder.
pub proof fn crc16_leaves_nothing(s: Seq<u8>)
    ensures
        crate::crc::crc16_of(s + crate::bytes::be16(crate::crc::crc16_of(s))) == 0,
{
    let c = crate::crc::crc16_of(s);
    let w = crate::bytes::be16(c);
    let all = s + w;
    let one = all.drop_last();
    assert(one.drop_last() =~= s);
    assert(one.last() == (c >> 8) as u8);
    assert(all.last() == (c & 0xff) as u8);
    let x = c ^ (((c >> 8) as u8 as u16) << 8);
    assert(x == c & 0xff) by (bit_vector)
        requires
            x == c ^ (((c >> 8) as u8 as u16) << 8),
    ;
    reveal_with_fuel(crate::crc::crc16_shifts, 9);
    assert(x == c & 0xff ==> crate::crc::crc16_shift(crate::crc::crc16_shift(
        crate::crc::crc16_shift(crate::crc::crc16_shift(crate::crc::crc16_shift(
            crate::crc::crc16_shift(crate::crc::crc16_shift(crate::crc::crc16_shift(x)))))))) == x
        << 8) by (bit_vector);
    let y = (x << 8) ^ (((c & 0xff) as u8 as u16) << 8);
    assert(y == 0) by (bit_vector)
        requires
            x == c & 0xff,
            y == (x << 8) ^ (((c & 0xff) as u8 as u16) << 8),
    ;
    assert(crate::crc::crc16_shift(0) == 0) by (bit_vector);
    assert(crate::crc::crc16_of(one) == crate::crc::crc16_shifts(x, 8));
    assert(crate::crc::crc16_shifts(x, 8) == x << 8);
    assert(crate::crc::crc16_of(all) == crate::crc::crc16_shifts(y, 8));
    assert(crate::crc::crc16_shifts(0, 8) == 0);
}

proof fn lemma_crc32_more(c: u32, n: nat, m: nat)
    ensures
        crate::crc::crc32_shifts(crate::crc::crc32_shifts(c, n), m) == crate::crc::crc32_shifts(
            c,
            n + m,
        ),
    decreases m,
{
    if m > 0 {
        lemma_crc32_more(c, n, (m - 1) as nat);
    }
}

/// A byte may be mixed in eight steps earlier, as far up in the register.
proof fn lemma_crc32_early(c: u32, b: u8)
    ensures
        crate::crc::crc32_shifts(c, 8) ^ (b as u32) == crate::crc::crc32_shifts(
            c ^ ((b as u32) << 8),
            8,
        ),
{
    lemma_crc32_high(c, b as u32);
}

/// Eight steps of a register are those of its low byte, and the rest of it
/// moved down.
proof fn lemma_crc32_low(c: u32)
    ensures
        crate::crc::crc32_shifts(c, 8) == crate::crc::crc32_shifts(c & 0xff, 8) ^ (c >> 8),
{
    crate::crc::lemma_crc32_by_table(c, 0);
    assert(c ^ (0u8 as u32) == c) by (bit_vector);
}

/// A message with its 32-bit check behind it leaves a remainder that is the
/// same for all messages: that of a register of ones.
pub proof fn crc32_leaves_ones(s: Seq<u8>)
    ensures
        crate::crc::crc32_reg(s + crate::bytes::le32(crate::crc::crc32_of(s)))
            == crate::crc::crc32_shifts(0xffff_ffff, 32),
{
    let c = crate::crc::crc32_reg(s);
    let x = crate::crc::crc32_of(s);
    let w = crate::bytes::le32(x);
    let a4 = s + w;
    let a3 = a4.drop_last();
    let a2 = a3.drop_last();
    let a1 = a2.drop_last();
    assert(a1.drop_last() =~= s);
    let (b0, b1, b2, b3) = (w[0], w[1], w[2], w[3]);
    assert(a1.last() == b0 && a2.last() == b1 && a3.last() == b2 && a4.last() == b3);
    let r0 = c ^ (b0 as u32);
    let r1 = r0 ^ ((b1 as u32) << 8);
    let r2 = r1 ^ ((b2 as u32) << 16);
    let r3 = r2 ^ ((b3 as u32) << 24);
    assert(r3 == 0xffff_ffff) by (bit_vector)
        requires
            x == c ^ 0xffff_ffff,
            r3 == (((c ^ (b0 as u32)) ^ ((b1 as u32) << 8)) ^ ((b2 as u32) << 16)) ^ ((b3 as u32)
                << 24),
            b0 == (x & 0xff) as u8,
            b1 == ((x >> 8) & 0xff) as u8,
            b2 == ((x >> 16) & 0xff) as u8,
            b3 == ((x >> 24) & 0xff) as u8,
    ;
    // one byte after the other, each mixed in at the start
    assert(crate::crc::crc32_reg(a1) == crate::crc::crc32_shifts(r0, 8));
    lemma_crc32_early(r0, b1);
    lemma_crc32_more(r1, 8, 8);
    assert(crate::crc::crc32_reg(a2) == crate::crc::crc32_shifts(r1, 16));
    lemma_crc32_word(r1, b2, 8);
    lemma_crc32_more(r2, 16, 8);
    assert(crate::crc::crc32_reg(a3) == crate::crc::crc32_shifts(r2, 24));
    lemma_crc32_word(r2, b3, 16);
    lemma_crc32_more(r3, 24, 8);
    assert(crate::crc::crc32_reg(a4) == crate::crc::crc32_shifts(r3, 32));
}

/// A byte may be mixed in at the start, as far up in the register as it is
/// bytes away.
proof fn lemma_crc32_word(r: u32, b: u8, n: nat)
    requires
        n == 8 || n == 16,
    ensures
        crate::crc::crc32_shifts(r, n + 8) ^ (b as u32) == crate::crc::crc32_shifts(
            r ^ ((b as u32) << (n + 8) as u32),
            n + 8,
        ),
{
    let far = (b as u32) << ((n + 8) as u32);
    let m = crate::crc::crc32_shifts(r, n);
    lemma_crc32_more(r, n, 8);
    lemma_crc32_early(m, b);
    lemma_crc32_more(r ^ far, n, 8);
    if n == 8 {
        assert(((b as u32) << 8) << 8 == (b as u32) << 16 && (b as u32) << 8 <= 0xff_ffff)
            by (bit_vector);
        lemma_crc32_high(r, (b as u32) << 8);
    } else {
        let y = (b as u32) << 8;
        assert(y << 8 == (b as u32) << 16 && (y << 8) << 8 == (b as u32) << 24 && y <= 0xff_ffff
            && y << 8 <= 0xff_ffff) by (bit_vector)
            requires
                y == (b as u32) << 8,
        ;
        lemma_crc32_high(r, y << 8);
        lemma_crc32_high(crate::crc::crc32_shifts(r, 8), y);
        lemma_crc32_more(r, 8, 8);
        lemma_crc32_more(r ^ far, 8, 8);
    }
}

/// What is mixed in above the low byte moves down in eight steps.
proof fn lemma_crc32_high(c: u32, y: u32)
    requires
        y <= 0xff_ffff,
    ensures
        crate::crc::crc32_shifts(c ^ (y << 8), 8) == crate::crc::crc32_shifts(c, 8) ^ y,
{
    let x = c ^ (y << 8);
    lemma_crc32_low(c);
    lemma_crc32_low(x);
    assert(x & 0xff == c & 0xff && x >> 8 == (c >> 8) ^ y) by (bit_vector)
        requires
            x == c ^ (y << 8),
            y <= 0xff_ffff,
    ;
    let t = crate::crc::crc32_shifts(c & 0xff, 8);
    assert((t ^ (c >> 8)) ^ y == t ^ ((c >> 8) ^ y)) by (bit_vector);
}

/// A character that the line may take for itself.
pub open spec fn is_taken(b: u8) -> bool {
    b == 0x10 || b == 0x90 || b == 0x11 || b == 0x91 || b == 0x13 || b == 0x93
}

/// What is sent is safe on the line: no flow control character and no `DLE` of
/// either parity is in it, with all controls escaped no control character
/// but the escape itself, and no carriage return right behind an `@`. It is
/// at most twice as long as what it stands for.
pub proof fn escaped_is_safe(s: Seq<u8>, before: u8, ctl: bool)
    ensures
        ({
            let e = crate::frame::escape(s, before, ctl);
            &&& s.len() <= e.len() <= 2 * s.len()
            &&& forall|i: int| 0 <= i < e.len() ==> !is_taken(#[trigger] e[i])
            &&& ctl ==> forall|i: int|
                0 <= i < e.len() ==> (#[trigger] e[i]) & 0x60 != 0 || e[i] == ZDLE
            &&& forall|i: int, j: int|
                0 <= i && j == i + 1 && j < e.len() ==> !((#[trigger] e[i]) & 0x7f == 0x40 && (
                #[trigger] e[j]) & 0x7f == 0x0d)
            &&& s.len() > 0 && e.last() & 0x7f == 0x40 && !ctl ==> s.last() & 0x7f == 0x40
        }),
    decreases s.len(),
{
    let e = crate::frame::escape(s, before, ctl);
    if s.len() > 0 {
        let d = s.drop_last();
        let f = crate::frame::escape(d, before, ctl);
        let b = s.last();
        let last = crate::frame::prior(s, before);
        let unit = crate::frame::escape_byte(b, last, ctl);
        escaped_is_safe(d, before, ctl);
        lemma_unit_safe(b);
        assert(ZDLE & 0x7f != 0x40 && ZDLE & 0x7f != 0x0d) by (bit_vector);
        assert(e =~= f + unit);
        assert forall|i: int| 0 <= i < e.len() implies !is_taken(#[trigger] e[i]) && (ctl ==> e[i]
            & 0x60 != 0 || e[i] == ZDLE) by {
            if i < f.len() {
                assert(e[i] == f[i]);
            } else {
                assert(e[i] == unit[i - f.len()]);
            }
        }
        assert forall|i: int, j: int| 0 <= i && j == i + 1 && j < e.len() implies !((
        #[trigger] e[i]) & 0x7f == 0x40 && (#[trigger] e[j]) & 0x7f == 0x0d) by {
            if j < f.len() {
                assert(e[i] == f[i] && e[j] == f[j]);
            } else if i >= f.len() {
                assert(e[i] == unit[0] && e[j] == unit[1]);
            } else {
                assert(e[i] == f.last() && e[j] == unit[0]);
                if d.len() > 0 {
                    assert(last == d.last());
                }
            }
        }
    }
}

proof fn lemma_unit_safe(b: u8)
    ensures
        ({
            let q = b ^ 0x40;
            let quoted = b == 0x10 || b == 0x90 || b == 0x11 || b == 0x91 || b == 0x13 || b
                == 0x93 || b == 0x18 || b & 0x7f == 0x0d;
            &&& quoted || b & 0x60 == 0 ==> q != 0x10 && q != 0x90 && q != 0x11 && q != 0x91 && q
                != 0x13 && q != 0x93 && q & 0x60 != 0 && q & 0x7f != 0x0d
            &&& quoted ==> q & 0x7f != 0x40
            &&& b & 0x7f == 0x0d ==> b & 0x60 == 0
        }),
{
    assert(({
        let q = b ^ 0x40;
        let quoted = b == 0x10 || b == 0x90 || b == 0x11 || b == 0x91 || b == 0x13 || b == 0x93 || b
            == 0x18 || b & 0x7f == 0x0d;
        (quoted || b & 0x60 == 0 ==> q != 0x10 && q != 0x90 && q != 0x11 && q != 0x91 && q != 0x13
            && q != 0x93 && q & 0x60 != 0 && q & 0x7f != 0x0d) && (quoted ==> q & 0x7f != 0x40) && (
        b & 0x7f == 0x0d ==> b & 0x60 == 0)
    })) by (bit_vector);
}

/// What an escaped byte stands for: two letters for the rubouts, otherwise the
/// byte with one bit turned.
pub proof fn unquoted_turns_a_bit(e: u8)
    ensures
        crate::decode::unquoted(0x6c) == 0x7f,
        crate::decode::unquoted(0x6d) == 0xff,
        e != 0x6c && e != 0x6d ==> crate::decode::unquoted(e) ^ 0x40 == e,
{
    assert((e ^ 0x40) ^ 0x40 == e) by (bit_vector);
}

/// A hex header is heard just if its digits are worth a type, four bytes and
/// their check.
pub proof fn heard_hex_is_checked(s: Seq<u8>, typ: u8, data: Seq<u8>)
    requires
        s.len() >= 18,
        data.len() == 4,
    ensures
        crate::protocol::hex_header_in(s) == Some(HeaderView { enc: ZHEX, typ, data })
            <==> crate::hex::hex7(s.subrange(4, 18)) == Some(
            seq![typ] + data + crate::frame::check_of(seq![typ] + data, false),
        ),
{
    let all = seq![typ] + data + crate::frame::check_of(seq![typ] + data, false);
    assert(all.take(5) =~= seq![typ] + data);
    assert(all.skip(5) =~= crate::frame::check_of(seq![typ] + data, false));
    assert(all.subrange(1, 5) =~= data);
    if let Some(v) = crate::hex::hex7(s.subrange(4, 18)) {
        if crate::protocol::hex_header_in(s) == Some(HeaderView { enc: ZHEX, typ, data }) {
            assert(v.take(5) =~= seq![typ] + data) by {
                assert forall|i: int| 1 <= i < 5 implies v[i] == data[i - 1] by {
                    assert(v.subrange(1, 5)[i - 1] == v[i]);
                }
            }
            assert(v =~= v.take(5) + v.skip(5));
        }
    }
}

/// A hex header of which one digit arrives as another one is not heard.
pub proof fn changed_digit_is_not_heard(typ: u8, data: Seq<u8>, k: int, d: u8)
    requires
        data.len() == 4,
        0 <= k < 14,
        digit_worth(d) >= 0,
        digit_worth(d) != digit_worth(crate::frame::hex_header_of(typ, data)[4 + k]),
    ensures
        crate::protocol::hex_header_in(
            crate::frame::hex_header_of(typ, data).update(4 + k, d),
        ) is None,
{
    let s = crate::frame::hex_header_of(typ, data);
    let none = Seq::<u8>::empty();
    let x = s.update(4 + k, d);
    crate::round_trip::hex_header_round_trip(typ, data, none);
    assert(s + none =~= s);
    heard_hex_is_checked(s, typ, data);
    let body = seq![typ] + data;
    let sum = crate::frame::check_of(body, false);
    let v = body + sum;
    let h = s.subrange(4, 18);
    let g = x.subrange(4, 18);
    assert(g =~= h.update(k, d));
    digits_are_read(h);
    digits_are_read(g);
    if let Some(u) = crate::hex::hex7(g) {
        let j = k / 2;
        assert forall|i: int| 0 <= i < 7 && i != j implies #[trigger] u[i] == v[i] by {
            assert(g[2 * i] == h[2 * i] && g[2 * i + 1] == h[2 * i + 1]);
        }
        assert(digit_worth(h[k]) >= 0);
        assert(u[j] != v[j]) by {
            assert(u[j] == 16 * digit_worth(g[2 * j]) + digit_worth(g[2 * j + 1]));
            assert(v[j] == 16 * digit_worth(h[2 * j]) + digit_worth(h[2 * j + 1]));
        }
        assert(v.skip(5) =~= sum);
        if j < 5 {
            assert(u.take(5) =~= body.update(j, u[j]));
            crate::round_trip::check_tells_byte(body, j, u[j], false);
            assert(u.skip(5) =~= sum);
        } else {
            assert(u.take(5) =~= body);
            assert(u.skip(5)[j - 5] != sum[j - 5]);
        }
    }
}

/// A binary header is heard just if its bytes stand for a type, four bytes and
/// their check, of the width that its encoding says.
pub proof fn heard_binary_is_checked(s: Seq<u8>, enc: u8, typ: u8, data: Seq<u8>, n: nat)
    requires
        data.len() == 4,
    ensures
        ({
            let wide = enc == crate::frame::ZBIN32;
            crate::protocol::bin_header_in(s, enc) == BinView::Whole(
                HeaderView { enc, typ, data },
                n,
            ) <==> crate::decode::values_of(
                s,
                (if wide {
                    9nat
                } else {
                    7nat
                }),
            ) == Some(
                (seq![typ] + data + crate::frame::check_of(seq![typ] + data, wide), n),
            )
        }),
{
    let wide = enc == crate::frame::ZBIN32;
    let len = crate::protocol::bin_len(enc);
    let all = seq![typ] + data + crate::frame::check_of(seq![typ] + data, wide);
    assert(all.take(5) =~= seq![typ] + data);
    assert(all.skip(5) =~= crate::frame::check_of(seq![typ] + data, wide));
    assert(all.subrange(1, 5) =~= data);
    crate::decode::lemma_values_bound(s, len);
    if let Some((v, m)) = crate::decode::values_of(s, len) {
        if crate::protocol::bin_header_in(s, enc) == BinView::Whole(
            HeaderView { enc, typ, data },
            n,
        ) {
            assert(v.take(5) =~= seq![typ] + data) by {
                assert forall|i: int| 1 <= i < 5 implies v[i] == data[i - 1] by {
                    assert(v.subrange(1, 5)[i - 1] == v[i]);
                }
            }
            assert(v =~= v.take(5) + v.skip(5));
        }
    }
}

/// Positions in a file are counted up byte by byte, as long as they can be.
pub proof fn positions_add_up(pos: u64, n: nat)
    ensures
        pos + n <= u64::MAX ==> crate::protocol::advance(pos, n) == pos + n,
{
    if pos + n <= u64::MAX {
        vstd::arithmetic::div_mod::lemma_small_mod((pos + n) as nat, 0x1_0000_0000_0000_0000);
    }
}

/// A message and the check that is sent behind it leave the remainder of an
/// intact message, in either width.
pub proof fn check_leaves_remainder(s: Seq<u8>)
    ensures
        crate::frame::check_of(s, false).len() == 2,
        crate::crc::crc16_of(s + crate::frame::check_of(s, false)) == 0,
        crate::frame::check_of(s, true).len() == 4,
        crate::crc::crc32_reg(s + crate::frame::check_of(s, true)) == crate::crc::crc32_shifts(
            0xffff_ffff,
            32,
        ),
{
    crc16_leaves_nothing(s);
    crc32_leaves_ones(s);
}

} // verus!
