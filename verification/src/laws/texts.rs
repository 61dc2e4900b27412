//! Names and sizes in the text of an offer.

use vstd::prelude::*;

use crate::text::{
    lemma_base_has_no_separator, lemma_decimal, lemma_nul_of, lemma_text_has_no_nul,
};

verus! {

/// The offered name is the end of the given one: it holds neither kind of
/// slash, and begins after one or where the given name begins.
pub proof fn base_is_last_part(name: Seq<char>)
    ensures
        ({
            let b = crate::text::base_of(name);
            let n = name.len() - b.len();
            &&& n >= 0
            &&& b == name.skip(n)
            &&& n > 0 ==> name[n - 1] == '/' || name[n - 1] == '\\'
            &&& forall|i: int| 0 <= i < b.len() ==> #[trigger] b[i] != '/' && b[i] != '\\'
        }),
    decreases name.len(),
{
    lemma_base_has_no_separator(name);
    let b = crate::text::base_of(name);
    assert forall|i: int| 0 <= i < b.len() implies #[trigger] b[i] != '/' && b[i] != '\\' by {
        assert(!crate::text::is_separator(b[i]));
    }
    if name.len() == 0 || crate::text::is_separator(name.last()) {
        assert(b =~= name.skip(name.len() as int));
    } else {
        let d = name.drop_last();
        base_is_last_part(d);
        let n = d.len() - crate::text::base_of(d).len();
        assert(d.skip(n).push(name.last()) =~= name.skip(n));
    }
}

/// Ten to the power of `n`.
pub open spec fn ten_to(n: nat) -> nat
    decreases n,
{
    if n == 0 {
        1
    } else {
        10 * ten_to((n - 1) as nat)
    }
}

/// Digits are worth their places: those on the left count as often more as
/// there are numbers of the length of those on the right.
pub proof fn digits_have_places(a: Seq<char>, b: Seq<char>)
    requires
        forall|i: int| 0 <= i < b.len() ==> '0' <= #[trigger] b[i] <= '9',
        forall|i: int| 0 <= i < a.len() ==> '0' <= #[trigger] a[i] <= '9',
    ensures
        crate::text::number_of(a + b) == crate::text::number_of(a) * ten_to(b.len())
            + crate::text::number_of(b),
        b.len() == 1 ==> crate::text::number_of(b) == b[0] as int - '0' as int,
    decreases b.len(),
{
    if b.len() == 0 {
        assert(a + b =~= a);
        let x = crate::text::number_of(a) as int;
        assert(x * 1 == x) by (nonlinear_arith);
        assert(ten_to(0) == 1);
    } else {
        let c = b.drop_last();
        assert forall|i: int| 0 <= i < c.len() implies '0' <= #[trigger] c[i] <= '9' by {
            assert('0' <= b[i] <= '9');
        }
        digits_have_places(a, c);
        assert((a + b).drop_last() =~= a + c);
        assert((a + b).last() == b.last());
        assert('0' <= b[b.len() - 1] <= '9');
        let x = crate::text::number_of(a) as int;
        let t = ten_to(c.len()) as int;
        assert(10 * (x * t) == x * (10 * t)) by (nonlinear_arith);
        assert(ten_to(b.len()) == 10 * t);
        if b.len() == 1 {
            assert(crate::text::number_of(c) == 0);
        }
    }
}

/// The size is written with the digits that it is worth, and without zeros
/// before them.
pub proof fn decimal_is_worth_number(n: nat)
    ensures
        ({
            let d = crate::text::decimal_of(n);
            &&& d.len() > 0
            &&& forall|i: int| 0 <= i < d.len() ==> 0x30 <= #[trigger] d[i] <= 0x39
            &&& d.len() > 1 ==> d[0] != 0x30
            &&& crate::text::number_of(crate::text::digits_of(n)) == n
        }),
    decreases n,
{
    lemma_decimal(n);
    if n >= 10 {
        decimal_is_worth_number(n / 10);
        let d = crate::text::decimal_of(n / 10);
        assert(crate::text::decimal_of(n)[0] == d[0]);
        if d.len() == 1 {
            assert(d[0] != 0x30) by {
                if n / 10 >= 10 {
                    lemma_decimal(n / 10 / 10);
                } else {
                    assert(d =~= seq![(0x30 + n / 10) as u8]);
                }
            }
        }
    }
}

proof fn lemma_front(a: Seq<char>, s: Seq<char>)
    requires
        forall|i: int| 0 <= i < a.len() ==> crate::text::is_white(#[trigger] a[i]),
        s.len() == 0 || !crate::text::is_white(s[0]),
    ensures
        crate::text::trimmed_front(a + s) == s,
    decreases a.len(),
{
    if a.len() == 0 {
        assert(a + s =~= s);
    } else {
        assert(crate::text::is_white(a[0]));
        let t = a.skip(1);
        assert forall|i: int| 0 <= i < t.len() implies crate::text::is_white(#[trigger] t[i]) by {
            assert(crate::text::is_white(a[i + 1]));
        }
        assert((a + s).skip(1) =~= t + s);
        lemma_front(t, s);
    }
}

proof fn lemma_word_ends(w: Seq<char>, rest: Seq<char>)
    requires
        forall|i: int| 0 <= i < w.len() ==> !crate::text::is_white(#[trigger] w[i]),
        rest.len() == 0 || crate::text::is_white(rest[0]),
    ensures
        crate::text::up_to_white(w + rest) == w,
    decreases w.len(),
{
    let all = w + rest;
    if w.len() == 0 {
        assert(all =~= rest);
        assert(crate::text::up_to_white(all) =~= w);
    } else {
        let t = w.skip(1);
        assert(!crate::text::is_white(w[0]));
        assert forall|i: int| 0 <= i < t.len() implies !crate::text::is_white(#[trigger] t[i]) by {
            assert(!crate::text::is_white(w[i + 1]));
        }
        assert(all.skip(1) =~= t + rest);
        lemma_word_ends(t, rest);
        assert(seq![w[0]] + t =~= w);
    }
}

/// The size is the number that the first word spells, whatever white space is
/// before it and whatever follows it; a word that is no number of 64 bits
/// stands for zero.
pub proof fn size_is_first_word(a: Seq<char>, w: Seq<char>, rest: Seq<char>)
    requires
        forall|i: int| 0 <= i < a.len() ==> crate::text::is_white(#[trigger] a[i]),
        w.len() > 0,
        forall|i: int| 0 <= i < w.len() ==> !crate::text::is_white(#[trigger] w[i]),
        rest.len() == 0 || crate::text::is_white(rest[0]),
    ensures
        ({
            let n = crate::text::size_of_text(a + (w + rest));
            let digits = forall|i: int| 0 <= i < w.len() ==> '0' <= #[trigger] w[i] <= '9';
            &&& digits && crate::text::number_of(w) <= u64::MAX ==> n == crate::text::number_of(w)
            &&& digits && crate::text::number_of(w) > u64::MAX ==> n == 0
            &&& w[0] != '+' && !digits ==> n == 0
        }),
{
    assert(!crate::text::is_white(w[0]));
    lemma_front(a, w + rest);
    lemma_word_ends(w, rest);
    if forall|i: int| 0 <= i < w.len() ==> '0' <= #[trigger] w[i] <= '9' {
        assert('0' <= w[0] <= '9');
        assert(crate::text::unsigned_part(w) == w);
        assert forall|i: int| 0 <= i < w.len() implies crate::text::is_digit(#[trigger] w[i]) by {
            assert('0' <= w[i] <= '9');
        }
    } else if w[0] != '+' {
        let i = choose|i: int| 0 <= i < w.len() && !('0' <= #[trigger] w[i] <= '9');
        assert(!crate::text::is_digit(w[i]));
    }
}

/// A text of white space alone gives no size.
pub proof fn no_word_no_size(a: Seq<char>)
    requires
        forall|i: int| 0 <= i < a.len() ==> crate::text::is_white(#[trigger] a[i]),
    ensures
        crate::text::size_of_text(a) == 0,
{
    let none = Seq::<char>::empty();
    lemma_front(a, none);
    assert(a + none =~= a);
    assert(crate::text::up_to_white(none) =~= none);
    assert(crate::text::unsigned_part(none) =~= none);
}

proof fn lemma_encode_add(a: Seq<char>, b: Seq<char>)
    ensures
        vstd::utf8::encode_utf8(a + b) == vstd::utf8::encode_utf8(a) + vstd::utf8::encode_utf8(b),
    decreases a.len(),
{
    if a.len() == 0 {
        assert(a + b =~= b);
        assert(vstd::utf8::encode_utf8(a) + vstd::utf8::encode_utf8(b)
            =~= vstd::utf8::encode_utf8(b));
    } else {
        assert((a + b).drop_first() =~= a.drop_first() + b);
        assert((a + b)[0] == a[0]);
        lemma_encode_add(a.drop_first(), b);
        assert(vstd::utf8::encode_utf8(a + b) =~= vstd::utf8::encode_utf8(a)
            + vstd::utf8::encode_utf8(b));
    }
}

/// An offer as other senders write it, with a blank and more fields behind the
/// size, is read as one without them.
pub proof fn more_fields_are_passed_over(name: Seq<char>, size: u64, more: Seq<char>)
    requires
        forall|i: int| 0 <= i < name.len() ==> #[trigger] name[i] != '\0',
    ensures
        crate::text::offer_of(
            crate::text::offer_data(name, size) + vstd::utf8::encode_utf8(seq![' '] + more),
        ) == (crate::text::base_of(name), size),
{
    let none = Seq::<char>::empty();
    let n = size as nat;
    let d = crate::text::digits_of(n);
    let rest = seq![' '] + more;
    let bytes = vstd::utf8::encode_utf8(name);
    let digits = crate::text::decimal_of(n);
    let data = crate::text::offer_data(name, size) + vstd::utf8::encode_utf8(rest);
    lemma_decimal(n);
    assert forall|i: int| 0 <= i < d.len() implies '0' <= #[trigger] d[i] <= '9' by {
        assert(0x30 <= digits[i] <= 0x39);
    }
    assert(vstd::utf8::is_ascii_chars(d));
    vstd::utf8::is_ascii_chars_encode_utf8(d);
    assert forall|i: int| 0 <= i < d.len() implies vstd::utf8::encode_utf8(d)[i] == digits[i] by {
        assert(d[i] as u8 == vstd::utf8::encode_utf8(d)[i]);
    }
    assert(vstd::utf8::encode_utf8(d) =~= digits);
    lemma_encode_add(d, rest);
    lemma_text_has_no_nul(name);
    assert forall|j: int| 0 <= j < bytes.len() implies #[trigger] data[j] != 0 by {
        assert(bytes[j] != 0);
    }
    lemma_nul_of(data, bytes.len() as int);
    assert(data.take(bytes.len() as int) =~= bytes);
    assert(crate::text::after_nul(data) =~= vstd::utf8::encode_utf8(d + rest));
    vstd::utf8::encode_utf8_valid_utf8(name);
    vstd::utf8::encode_utf8_decode_utf8(name);
    vstd::utf8::encode_utf8_valid_utf8(d + rest);
    vstd::utf8::encode_utf8_decode_utf8(d + rest);
    assert forall|i: int| 0 <= i < d.len() implies !crate::text::is_white(#[trigger] d[i]) by {
        assert('0' <= d[i] <= '9');
    }
    size_is_first_word(none, d, rest);
    assert(none + (d + rest) =~= d + rest);
}

/// An offer without a NUL has a name and no size.
pub proof fn offer_may_lack_size(name: Seq<char>)
    requires
        forall|i: int| 0 <= i < name.len() ==> #[trigger] name[i] != '\0',
    ensures
        crate::text::offer_of(vstd::utf8::encode_utf8(name)) == (
            crate::text::base_of(name),
            0u64,
        ),
{
    let data = vstd::utf8::encode_utf8(name);
    let none = Seq::<char>::empty();
    lemma_text_has_no_nul(name);
    lemma_nul_of(data, data.len() as int);
    assert(data.take(data.len() as int) =~= data);
    vstd::utf8::encode_utf8_valid_utf8(name);
    vstd::utf8::encode_utf8_decode_utf8(name);
    vstd::utf8::encode_utf8_valid_utf8(none);
    vstd::utf8::encode_utf8_decode_utf8(none);
    assert(vstd::utf8::encode_utf8(none) =~= Seq::<u8>::empty());
    assert(crate::text::after_nul(data) =~= vstd::utf8::encode_utf8(none));
    no_word_no_size(none);
}

/// Text that comes as valid UTF-8 is kept as it is.
pub proof fn text_is_kept(s: Seq<char>)
    ensures
        crate::text::text_of(vstd::utf8::encode_utf8(s)) == s,
{
    vstd::utf8::encode_utf8_valid_utf8(s);
    vstd::utf8::encode_utf8_decode_utf8(s);
}

/// White space is one of these characters, and no other one.
pub proof fn white_space_is_listed(c: char)
    ensures
        crate::text::is_white(c) <==> seq![
            '\t',
            '\n',
            '\u{b}',
            '\u{c}',
            '\r',
            ' ',
            '\u{85}',
            '\u{a0}',
            '\u{1680}',
            '\u{2000}',
            '\u{2001}',
            '\u{2002}',
            '\u{2003}',
            '\u{2004}',
            '\u{2005}',
            '\u{2006}',
            '\u{2007}',
            '\u{2008}',
            '\u{2009}',
            '\u{200a}',
            '\u{2028}',
            '\u{2029}',
            '\u{202f}',
            '\u{205f}',
            '\u{3000}',
        ].contains(c),
{
    let list = seq![
        '\t',
        '\n',
        '\u{b}',
        '\u{c}',
        '\r',
        ' ',
        '\u{85}',
        '\u{a0}',
        '\u{1680}',
        '\u{2000}',
        '\u{2001}',
        '\u{2002}',
        '\u{2003}',
        '\u{2004}',
        '\u{2005}',
        '\u{2006}',
        '\u{2007}',
        '\u{2008}',
        '\u{2009}',
        '\u{200a}',
        '\u{2028}',
        '\u{2029}',
        '\u{202f}',
        '\u{205f}',
        '\u{3000}',
    ];
    if crate::text::is_white(c) {
        let u = c as u32;
        let i = if u <= 0x0d {
            u - 0x09
        } else if u == 0x20 {
            5
        } else if u == 0x85 {
            6
        } else if u == 0xa0 {
            7
        } else if u == 0x1680 {
            8
        } else if u <= 0x200a {
            u - 0x2000 + 9
        } else if u == 0x2028 {
            20
        } else if u == 0x2029 {
            21
        } else if u == 0x202f {
            22
        } else if u == 0x205f {
            23
        } else {
            24
        };
        assert(list[i] == c);
    }
}

} // verus!
