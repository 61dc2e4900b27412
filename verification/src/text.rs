//! The text of a file offer: a name, a NUL byte, the size in decimal, and
//! fields that are not used here.

use vstd::prelude::*;

verus! {

broadcast use vstd::seq_lib::group_seq_properties;

/// The text that [`lossy`] makes of bytes that are not valid UTF-8.
pub uninterp spec fn utf8_lossy(bytes: Seq<u8>) -> Seq<char>;

/// The text that received bytes stand for: what they encode where they are
/// valid UTF-8, the lossy reading elsewhere.
pub open spec fn text_of(bytes: Seq<u8>) -> Seq<char> {
    if vstd::utf8::valid_utf8(bytes) {
        vstd::utf8::decode_utf8(bytes)
    } else {
        utf8_lossy(bytes)
    }
}

/// Calls `String::from_utf8_lossy`. Bytes that are valid UTF-8 become the text
/// they encode. Of other bytes only this is claimed: the text depends on the
/// bytes alone.
#[verifier::external_body]
pub(crate) fn lossy(bytes: &[u8]) -> (s: String)
    ensures
        s@ == (if vstd::utf8::valid_utf8(bytes@) {
            vstd::utf8::decode_utf8(bytes@)
        } else {
            utf8_lossy(bytes@)
        }),
{
    String::from_utf8_lossy(bytes).into_owned()
}

/// A character with the Unicode property `White_Space`.
pub open spec fn is_white(c: char) -> bool {
    let u = c as u32;
    ||| 0x09 <= u <= 0x0d
    ||| u == 0x20
    ||| u == 0x85
    ||| u == 0xa0
    ||| u == 0x1680
    ||| 0x2000 <= u <= 0x200a
    ||| u == 0x2028
    ||| u == 0x2029
    ||| u == 0x202f
    ||| u == 0x205f
    ||| u == 0x3000
}

/// All characters of `s` are white space.
pub open spec fn is_blank(s: Seq<char>) -> bool {
    forall|i: int| 0 <= i < s.len() ==> is_white(#[trigger] s[i])
}

/// A character that separates the parts of a path.
pub open spec fn is_separator(c: char) -> bool {
    c == '/' || c == '\\'
}

/// What follows the last path separator of `s`: all of `s` if it has none.
pub open spec fn base_of(s: Seq<char>) -> Seq<char>
    decreases s.len(),
{
    if s.len() == 0 || is_separator(s.last()) {
        Seq::empty()
    } else {
        base_of(s.drop_last()).push(s.last())
    }
}

/// `s` from its first character that is not white space.
pub open spec fn trimmed_front(s: Seq<char>) -> Seq<char>
    decreases s.len(),
{
    if s.len() > 0 && is_white(s[0]) {
        trimmed_front(s.skip(1))
    } else {
        s
    }
}

/// `s` up to its first white space.
pub open spec fn up_to_white(s: Seq<char>) -> Seq<char>
    decreases s.len(),
{
    if s.len() == 0 || is_white(s[0]) {
        Seq::empty()
    } else {
        seq![s[0]] + up_to_white(s.skip(1))
    }
}

/// The first word of `s`; empty if there is none.
pub open spec fn first_word_of(s: Seq<char>) -> Seq<char> {
    up_to_white(trimmed_front(s))
}

pub open spec fn is_digit(c: char) -> bool {
    '0' <= c <= '9'
}

/// The number that the decimal digits `s` spell.
pub open spec fn number_of(s: Seq<char>) -> nat
    decreases s.len(),
{
    if s.len() == 0 {
        0
    } else {
        (10 * number_of(s.drop_last()) + (s.last() as int - '0' as int)) as nat
    }
}

/// `s` without the plus sign it may begin with.
pub open spec fn unsigned_part(s: Seq<char>) -> Seq<char> {
    if s.len() > 0 && s[0] == '+' {
        s.skip(1)
    } else {
        s
    }
}

/// The value of the word `s`: decimal digits, at least one, that a plus sign
/// may precede, with a value below 2^64. `None` for any other word.
pub open spec fn u64_of(s: Seq<char>) -> Option<u64> {
    let d = unsigned_part(s);
    if d.len() > 0 && (forall|i: int| 0 <= i < d.len() ==> is_digit(#[trigger] d[i])) && number_of(
        d,
    ) <= u64::MAX {
        Some(number_of(d) as u64)
    } else {
        None
    }
}

/// The size that the text after the file name gives: its first word, or zero
/// where that is no number.
pub open spec fn size_of_text(s: Seq<char>) -> u64 {
    match u64_of(first_word_of(s)) {
        Some(n) => n,
        None => 0,
    }
}

/// The decimal digits of `n`.
pub open spec fn decimal_of(n: nat) -> Seq<u8>
    decreases n,
{
    if n < 10 {
        seq![(0x30 + n) as u8]
    } else {
        decimal_of(n / 10).push((0x30 + n % 10) as u8)
    }
}

/// The place of the first NUL of `s`, or its length.
pub open spec fn nul_of(s: Seq<u8>) -> nat
    decreases s.len(),
{
    if s.len() == 0 || s[0] == 0 {
        0
    } else {
        1 + nul_of(s.skip(1))
    }
}

/// What follows the first NUL of `s`.
pub open spec fn after_nul(s: Seq<u8>) -> Seq<u8> {
    if nul_of(s) < s.len() {
        s.skip(nul_of(s) as int + 1)
    } else {
        Seq::empty()
    }
}

/// The name and the size that the data of a file subpacket give.
pub open spec fn offer_of(data: Seq<u8>) -> (Seq<char>, u64) {
    (
        base_of(text_of(data.take(nul_of(data) as int))),
        size_of_text(text_of(after_nul(data))),
    )
}

/// The data of a file subpacket for a file of this name and size.
pub open spec fn offer_data(name: Seq<char>, size: u64) -> Seq<u8> {
    vstd::utf8::encode_utf8(name) + seq![0u8] + decimal_of(size as nat)
}

/// Tells white space.
pub fn white(c: char) -> (r: bool)
    ensures
        r == is_white(c),
{
    let u = c as u32;
    (0x09 <= u && u <= 0x0d) || u == 0x20 || u == 0x85 || u == 0xa0 || u == 0x1680 || (0x2000 <= u
        && u <= 0x200a) || u == 0x2028 || u == 0x2029 || u == 0x202f || u == 0x205f || u == 0x3000
}

/// The characters of `s`.
pub fn chars_of(s: &str) -> (v: Vec<char>)
    ensures
        v@ == s@,
{
    let mut v: Vec<char> = Vec::new();
    for c in it: s.chars()
        invariant
            v@ == it.seq().take(it.index() as int),
            it.seq() == s@,
    {
        v.push(c);
        assert(v@ =~= it.seq().take(it.index() as int + 1));
    }
    assert(s@.take(s@.len() as int) =~= s@);
    v
}

/// Tells a text of nothing but white space.
pub fn blank(s: &str) -> (r: bool)
    ensures
        r == is_blank(s@),
{
    let v = chars_of(s);
    let mut i: usize = 0;
    while i < v.len()
        invariant
            i <= v.len(),
            v@ == s@,
            forall|j: int| 0 <= j < i ==> is_white(#[trigger] s@[j]),
        decreases v.len() - i,
    {
        if !white(v[i]) {
            assert(!is_white(s@[i as int]));
            return false;
        }
        i = i + 1;
    }
    true
}

pub proof fn lemma_base_of_suffix(s: Seq<char>, i: int)
    requires
        0 <= i <= s.len(),
        i == 0 || is_separator(s[i - 1]),
        forall|j: int| i <= j < s.len() ==> !is_separator(#[trigger] s[j]),
    ensures
        base_of(s) == s.skip(i),
    decreases s.len(),
{
    if s.len() == i {
        assert(s.skip(i) =~= Seq::<char>::empty());
        if i > 0 {
            assert(is_separator(s.last()));
        }
    } else {
        assert(!is_separator(s[s.len() - 1]));
        let t = s.drop_last();
        assert forall|j: int| i <= j < t.len() implies !is_separator(#[trigger] t[j]) by {
            assert(!is_separator(s[j]));
        }
        lemma_base_of_suffix(t, i);
        assert(t.skip(i).push(s.last()) =~= s.skip(i));
    }
}

/// The part of `name` after its last path separator.
pub fn base_name(name: &str) -> (r: String)
    ensures
        r@ == base_of(name@),
{
    let v = chars_of(name);
    let mut i: usize = v.len();
    while i > 0 && v[i - 1] != '/' && v[i - 1] != '\\'
        invariant
            i <= v.len(),
            v@ == name@,
            forall|j: int| i <= j < v.len() ==> !is_separator(#[trigger] v@[j]),
        decreases i,
    {
        i = i - 1;
    }
    proof {
        lemma_base_of_suffix(name@, i as int);
        assert(name@.subrange(i as int, name@.len() as int) =~= name@.skip(i as int));
    }
    name.substring_char(i, v.len()).to_owned()
}

proof fn lemma_number_push(s: Seq<char>, i: int)
    requires
        0 <= i < s.len(),
    ensures
        number_of(s.take(i + 1)) == (10 * number_of(s.take(i)) + (s[i] as int - '0' as int)) as nat,
{
    let t = s.take(i + 1);
    assert(t.drop_last() =~= s.take(i));
    assert(t.last() == s[i]);
}

proof fn lemma_number_grows(s: Seq<char>, i: int)
    requires
        0 <= i <= s.len(),
        forall|j: int| 0 <= j < s.len() ==> is_digit(#[trigger] s[j]),
    ensures
        number_of(s.take(i)) <= number_of(s),
    decreases s.len() - i,
{
    if i == s.len() {
        assert(s.take(i) =~= s);
    } else {
        lemma_number_push(s, i);
        assert(is_digit(s[i]));
        lemma_number_grows(s, i + 1);
    }
}

/// The value of a word of decimal digits.
pub fn parse_u64(s: &[char]) -> (r: Option<u64>)
    ensures
        r == u64_of(s@),
{
    let start: usize = if s.len() > 0 && s[0] == '+' {
        1
    } else {
        0
    };
    let ghost d = unsigned_part(s@);
    assert(d =~= s@.skip(start as int));
    if start == s.len() {
        return None;
    }
    let mut value: u64 = 0;
    let mut i: usize = start;
    while i < s.len()
        invariant
            start <= i <= s.len(),
            start <= 1,
            d == unsigned_part(s@),
            d == s@.skip(start as int),
            forall|j: int| 0 <= j < i - start ==> is_digit(#[trigger] d[j]),
            value == number_of(d.take(i - start)),
        decreases s.len() - i,
    {
        let c = s[i];
        assert(c == d[i - start]);
        if !('0' <= c && c <= '9') {
            assert(!is_digit(d[i - start]));
            return None;
        }
        let digit: u64 = (c as u32 - '0' as u32) as u64;
        proof {
            lemma_number_push(d, i - start);
        }
        if value > (u64::MAX - digit) / 10 {
            proof {
                assert(10 * value + digit > u64::MAX);
                if forall|j: int| 0 <= j < d.len() ==> is_digit(#[trigger] d[j]) {
                    lemma_number_grows(d, i - start + 1);
                }
            }
            return None;
        }
        value = 10 * value + digit;
        i = i + 1;
    }
    assert(d.take(d.len() as int) =~= d);
    Some(value)
}

/// The size that the text after a file name gives: the number its first word
/// spells, or zero.
pub fn leading_size(text: &str) -> (n: u64)
    ensures
        n == size_of_text(text@),
{
    let v = chars_of(text);
    let mut i: usize = 0;
    assert(v@.skip(0) =~= v@);
    while i < v.len() && white(v[i])
        invariant
            i <= v.len(),
            v@ == text@,
            trimmed_front(text@) == trimmed_front(v@.skip(i as int)),
        decreases v.len() - i,
    {
        assert(v@.skip(i as int).skip(1) =~= v@.skip(i + 1));
        i = i + 1;
    }
    let ghost rest = v@.skip(i as int);
    let mut word: Vec<char> = Vec::new();
    let ghost start = i;
    assert(word@ + up_to_white(rest) =~= up_to_white(rest));
    while i < v.len() && !white(v[i])
        invariant
            start <= i <= v.len(),
            rest == v@.skip(start as int),
            word@ + up_to_white(v@.skip(i as int)) == up_to_white(rest),
        decreases v.len() - i,
    {
        let ghost before = word@;
        let ghost cur = v@.skip(i as int);
        word.push(v[i]);
        assert(cur.skip(1) =~= v@.skip(i + 1));
        assert(before + (seq![cur[0]] + up_to_white(cur.skip(1))) =~= word@ + up_to_white(
            cur.skip(1),
        ));
        i = i + 1;
    }
    assert(word@ =~= first_word_of(text@));
    match parse_u64(word.as_slice()) {
        Some(n) => n,
        None => 0,
    }
}

/// The decimal digits of `n`.
pub fn decimal(n: u64) -> (v: Vec<u8>)
    ensures
        v@ == decimal_of(n as nat),
    decreases n,
{
    if n < 10 {
        let mut v: Vec<u8> = Vec::new();
        v.push(0x30 + n as u8);
        assert(v@ =~= seq![(0x30 + n) as u8]);
        v
    } else {
        let mut v = decimal(n / 10);
        v.push(0x30 + (n % 10) as u8);
        v
    }
}

pub proof fn lemma_nul_of(s: Seq<u8>, i: int)
    requires
        0 <= i <= s.len(),
        i == s.len() || s[i] == 0,
        forall|j: int| 0 <= j < i ==> #[trigger] s[j] != 0,
    ensures
        nul_of(s) == i,
    decreases i,
{
    if i > 0 {
        let t = s.skip(1);
        assert forall|j: int| 0 <= j < i - 1 implies #[trigger] t[j] != 0 by {
            assert(s[j + 1] != 0);
        }
        assert(s[0] != 0);
        lemma_nul_of(t, i - 1);
    }
}

/// What the text of a file name and the text after it say: the part of the
/// name after its last path separator, and the size.
pub fn file_info(name: &str, rest: &str) -> (r: (String, u64))
    ensures
        r.0@ == base_of(name@),
        r.1 == size_of_text(rest@),
{
    (base_name(name), leading_size(rest))
}

/// The name and the size that the data of a file subpacket give.
pub fn read_offer(data: &[u8]) -> (r: (String, u64))
    ensures
        (r.0@, r.1) == offer_of(data@),
{
    let mut nul: usize = 0;
    while nul < data.len() && data[nul] != 0
        invariant
            nul <= data.len(),
            forall|j: int| 0 <= j < nul ==> #[trigger] data@[j] != 0,
        decreases data.len() - nul,
    {
        nul = nul + 1;
    }
    proof {
        lemma_nul_of(data@, nul as int);
        assert(data@.subrange(0, nul as int) =~= data@.take(nul as int));
    }
    let name = lossy(vstd::slice::slice_subrange(data, 0, nul));
    let rest = if nul < data.len() {
        assert(data@.subrange(nul + 1, data@.len() as int) =~= after_nul(data@));
        lossy(vstd::slice::slice_subrange(data, nul + 1, data.len()))
    } else {
        let none: Vec<u8> = Vec::new();
        assert(none@ =~= after_nul(data@));
        lossy(none.as_slice())
    };
    file_info(name.as_str(), rest.as_str())
}

/// The data of the file subpacket that offers a file.
pub fn write_offer(name: &str, size: u64) -> (v: Vec<u8>)
    ensures
        v@ == offer_data(name@, size),
{
    let mut v = vstd::slice::slice_to_vec(name.as_bytes());
    v.push(0);
    let mut digits = decimal(size);
    v.append(&mut digits);
    assert(v@ =~= offer_data(name@, size));
    v
}

proof fn lemma_scalar_has_no_nul(c: char)
    requires
        c != '\0',
    ensures
        forall|i: int|
            0 <= i < vstd::utf8::encode_scalar(c as u32).len() ==> #[trigger] vstd::utf8::encode_scalar(
                c as u32,
            )[i] != 0,
{
    let v = c as u32;
    assert(0 < v < 0x80 ==> (v & 0x7F) as u8 != 0) by (bit_vector);
    assert((0xC0 | ((v >> 6) & 0x1F) as u8) != 0) by (bit_vector);
    assert((0xE0 | ((v >> 12) & 0x0F) as u8) != 0) by (bit_vector);
    assert((0xF0 | ((v >> 18) & 0x7) as u8) != 0) by (bit_vector);
    assert((0x80 | (v & 0x3F) as u8) != 0) by (bit_vector);
    assert((0x80 | ((v >> 6) & 0x3F) as u8) != 0) by (bit_vector);
    assert((0x80 | ((v >> 12) & 0x3F) as u8) != 0) by (bit_vector);
}

pub proof fn lemma_text_has_no_nul(s: Seq<char>)
    requires
        forall|i: int| 0 <= i < s.len() ==> #[trigger] s[i] != '\0',
    ensures
        forall|i: int|
            0 <= i < vstd::utf8::encode_utf8(s).len() ==> #[trigger] vstd::utf8::encode_utf8(s)[i]
                != 0,
    decreases s.len(),
{
    if s.len() > 0 {
        let first = vstd::utf8::encode_scalar(s[0] as u32);
        let rest = s.drop_first();
        lemma_scalar_has_no_nul(s[0]);
        assert forall|i: int| 0 <= i < rest.len() implies #[trigger] rest[i] != '\0' by {
            assert(s[i + 1] != '\0');
        }
        lemma_text_has_no_nul(rest);
        let all = vstd::utf8::encode_utf8(s);
        assert(all =~= first + vstd::utf8::encode_utf8(rest));
        assert forall|i: int| 0 <= i < all.len() implies #[trigger] all[i] != 0 by {
            if i < first.len() {
                assert(first[i] != 0);
            } else {
                assert(vstd::utf8::encode_utf8(rest)[i - first.len()] != 0);
            }
        }
    }
}

/// The decimal digits of `n` as characters.
pub open spec fn digits_of(n: nat) -> Seq<char> {
    decimal_of(n).map_values(|b: u8| b as char)
}

pub proof fn lemma_decimal(n: nat)
    ensures
        decimal_of(n).len() > 0,
        forall|i: int| 0 <= i < decimal_of(n).len() ==> 0x30 <= #[trigger] decimal_of(n)[i] <= 0x39,
        number_of(digits_of(n)) == n,
    decreases n,
{
    let d = digits_of(n);
    if n < 10 {
        assert(d.drop_last() =~= Seq::<char>::empty());
        assert(d.last() == (0x30 + n) as u8 as char);
        assert(number_of(d.drop_last()) == 0);
    } else {
        lemma_decimal(n / 10);
        assert(d.drop_last() =~= digits_of(n / 10));
        assert(d.last() == (0x30 + n % 10) as u8 as char);
    }
}

pub proof fn lemma_word(s: Seq<char>)
    requires
        forall|i: int| 0 <= i < s.len() ==> !is_white(#[trigger] s[i]),
    ensures
        up_to_white(s) == s,
    decreases s.len(),
{
    if s.len() > 0 {
        let t = s.skip(1);
        assert forall|i: int| 0 <= i < t.len() implies !is_white(#[trigger] t[i]) by {
            assert(!is_white(s[i + 1]));
        }
        assert(!is_white(s[0]));
        lemma_word(t);
        assert(seq![s[0]] + t =~= s);
    }
}

/// A size that was written in decimal is read back.
pub proof fn size_round_trip(size: u64)
    ensures
        size_of_text(text_of(decimal_of(size as nat))) == size,
{
    let n = size as nat;
    let d = digits_of(n);
    lemma_decimal(n);
    assert forall|i: int| 0 <= i < d.len() implies '0' <= #[trigger] d[i] <= '9' by {
        assert(0x30 <= decimal_of(n)[i] <= 0x39);
    }
    assert(vstd::utf8::is_ascii_chars(d));
    vstd::utf8::is_ascii_chars_encode_utf8(d);
    assert forall|i: int| 0 <= i < d.len() implies vstd::utf8::encode_utf8(d)[i] == decimal_of(
        n,
    )[i] by {
        assert(d[i] as u8 == vstd::utf8::encode_utf8(d)[i]);
    }
    assert(vstd::utf8::encode_utf8(d) =~= decimal_of(n));
    vstd::utf8::encode_utf8_valid_utf8(d);
    vstd::utf8::encode_utf8_decode_utf8(d);
    assert(!is_white(d[0]));
    lemma_word(d);
    assert(unsigned_part(d) == d);
}

/// An offer that was written is read back: the size, and the part of the name
/// after its last path separator. The name may hold anything but a NUL.
pub proof fn offer_round_trip(name: Seq<char>, size: u64)
    requires
        forall|i: int| 0 <= i < name.len() ==> #[trigger] name[i] != '\0',
    ensures
        offer_of(offer_data(name, size)) == (base_of(name), size),
{
    let bytes = vstd::utf8::encode_utf8(name);
    let data = offer_data(name, size);
    lemma_text_has_no_nul(name);
    assert forall|j: int| 0 <= j < bytes.len() implies #[trigger] data[j] != 0 by {
        assert(bytes[j] != 0);
    }
    lemma_nul_of(data, bytes.len() as int);
    assert(data.take(bytes.len() as int) =~= bytes);
    lemma_decimal(size as nat);
    assert(after_nul(data) =~= decimal_of(size as nat));
    vstd::utf8::encode_utf8_valid_utf8(name);
    vstd::utf8::encode_utf8_decode_utf8(name);
    size_round_trip(size);
}

/// A name without path separators is kept as it is.
pub proof fn base_of_plain(name: Seq<char>)
    requires
        forall|i: int| 0 <= i < name.len() ==> !is_separator(#[trigger] name[i]),
    ensures
        base_of(name) == name,
{
    lemma_base_of_suffix(name, 0);
    assert(name.skip(0) =~= name);
}

pub proof fn lemma_base_has_no_separator(name: Seq<char>)
    ensures
        forall|i: int| 0 <= i < base_of(name).len() ==> !is_separator(#[trigger] base_of(name)[i]),
    decreases name.len(),
{
    if name.len() > 0 && !is_separator(name.last()) {
        let head = base_of(name.drop_last());
        lemma_base_has_no_separator(name.drop_last());
        assert forall|i: int| 0 <= i < base_of(name).len() implies !is_separator(
            #[trigger] base_of(name)[i],
        ) by {
            if i < head.len() {
                assert(!is_separator(head[i]));
            }
        }
    }
}

/// Whatever a remote side calls its file, the offered name has no path
/// separator in it.
pub proof fn offered_name_is_plain(data: Seq<u8>)
    ensures
        forall|i: int|
            0 <= i < offer_of(data).0.len() ==> !is_separator(#[trigger] offer_of(data).0[i]),
{
    lemma_base_has_no_separator(text_of(data.take(nul_of(data) as int)));
}

} // verus!
