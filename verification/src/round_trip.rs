//! What one side encodes, the other side decodes: headers of both forms,
//! subpackets and file offers come back as they were, whatever follows them
//! on the line.

use vstd::prelude::*;

use crate::decode::RawView;
use crate::frame::{HeaderView, CAN, ZBIN, ZBIN32, ZDLE, ZHEX, ZPAD};
use crate::protocol::BinView;

verus! {

/// The escaped form of a sequence is that of its first byte and then that of
/// the rest.
pub proof fn lemma_escape_front(s: Seq<u8>, before: u8, ctl: bool)
    requires
        s.len() > 0,
    ensures
        crate::frame::escape(s, before, ctl) == crate::frame::escape_byte(s[0], before, ctl)
            + crate::frame::escape(s.skip(1), s[0], ctl),
    decreases s.len(),
{
    let t = s.skip(1);
    if s.len() == 1 {
        assert(s.drop_last() =~= Seq::<u8>::empty());
        assert(t =~= Seq::<u8>::empty());
        assert(crate::frame::escape(s.drop_last(), before, ctl) =~= Seq::<u8>::empty());
        assert(crate::frame::escape(t, s[0], ctl) =~= Seq::<u8>::empty());
    } else {
        let d = s.drop_last();
        lemma_escape_front(d, before, ctl);
        assert(d.skip(1) =~= t.drop_last());
        assert(crate::frame::prior(s, before) == crate::frame::prior(t, s[0]));
        assert(crate::frame::escape(s, before, ctl) =~= crate::frame::escape_byte(
            s[0],
            before,
            ctl,
        ) + crate::frame::escape(t, s[0], ctl));
    }
}

/// A byte and its sent form tell each other: an escaped byte is not taken for
/// a terminator or a cancel character, and a plain one not for an escape or a
/// flow control character.
pub proof fn lemma_escape_unit(b: u8, last: u8, ctl: bool)
    ensures
        crate::frame::must_escape(b, last, ctl) ==> {
            &&& crate::decode::unquoted(b ^ 0x40) == b
            &&& !crate::decode::is_end(b ^ 0x40)
            &&& b ^ 0x40 != CAN
        },
        !crate::frame::must_escape(b, last, ctl) ==> b != ZDLE && !crate::decode::is_flow(b),
{
    assert((b == 0x10 || b == 0x90 || b == 0x11 || b == 0x91 || b == 0x13 || b == 0x93 || b == 0x18
        || b & 0x7f == 0x0d || b & 0x60 == 0) ==> (b ^ 0x40) ^ 0x40 == b && (b ^ 0x40 < 0x68 || b
        ^ 0x40 > 0x6d) && b ^ 0x40 != 0x18) by (bit_vector);
}

/// Escaped bytes are read back.
pub proof fn values_round_trip(s: Seq<u8>, before: u8, ctl: bool, rest: Seq<u8>)
    ensures
        crate::decode::values_of(crate::frame::escape(s, before, ctl) + rest, s.len()) == Some(
            (s, crate::frame::escape(s, before, ctl).len()),
        ),
    decreases s.len(),
{
    let e = crate::frame::escape(s, before, ctl);
    if s.len() == 0 {
        assert(s =~= Seq::<u8>::empty());
    } else {
        let t = s.skip(1);
        lemma_escape_front(s, before, ctl);
        lemma_escape_unit(s[0], before, ctl);
        let et = crate::frame::escape(t, s[0], ctl);
        let unit = crate::frame::escape_byte(s[0], before, ctl);
        values_round_trip(t, s[0], ctl, rest);
        assert((e + rest).skip(unit.len() as int) =~= et + rest);
        assert(seq![s[0]] + t =~= s);
        assert((e + rest)[0] == unit[0]);
        if unit.len() == 2 {
            assert((e + rest)[1] == unit[1]);
        }
    }
}

/// The data of a subpacket are read back, with the terminator.
pub proof fn body_round_trip(s: Seq<u8>, before: u8, ctl: bool, end: u8, rest: Seq<u8>)
    requires
        crate::decode::is_end(end),
    ensures
        crate::decode::body_of(crate::frame::escape(s, before, ctl) + (seq![ZDLE, end] + rest))
            == Some((s, end, crate::frame::escape(s, before, ctl).len() + 2)),
    decreases s.len(),
{
    let e = crate::frame::escape(s, before, ctl);
    let tail = seq![ZDLE, end] + rest;
    if s.len() == 0 {
        assert(s =~= Seq::<u8>::empty());
        assert(e + tail =~= tail);
    } else {
        let t = s.skip(1);
        lemma_escape_front(s, before, ctl);
        lemma_escape_unit(s[0], before, ctl);
        let et = crate::frame::escape(t, s[0], ctl);
        let unit = crate::frame::escape_byte(s[0], before, ctl);
        body_round_trip(t, s[0], ctl, end, rest);
        assert((e + tail).skip(unit.len() as int) =~= et + tail);
        assert(seq![s[0]] + t =~= s);
        assert((e + tail)[0] == unit[0]);
        if unit.len() == 2 {
            assert((e + tail)[1] == unit[1]);
        }
    }
}

/// A subpacket is read back with its data and terminator and found intact,
/// and nothing after it is used up.
#[verifier::rlimit(40)]
pub proof fn subpacket_round_trip(data: Seq<u8>, end: u8, flags: u32, rest: Seq<u8>)
    requires
        crate::decode::is_end(end),
    ensures
        ({
            let wide = crate::frame::wide(flags);
            let r = RawView {
                data,
                end,
                crc: crate::frame::check_of(data.push(end), wide),
                used: crate::frame::subpacket_of(data, end, flags).len(),
            };
            &&& crate::decode::raw_of(
                crate::frame::subpacket_of(data, end, flags) + rest,
                crate::protocol::crc_len(wide),
            ) == Some(r)
            &&& crate::protocol::intact(r, wide)
        }),
{
    let ctl = crate::frame::escapes_controls(flags);
    let sum = crate::frame::check_of(data.push(end), crate::frame::wide(flags));
    let e = crate::frame::escape(data, 0, ctl);
    let c = crate::frame::escape(sum, end, ctl);
    let s = crate::frame::subpacket_of(data, end, flags) + rest;
    assert(s =~= e + (seq![ZDLE, end] + (c + rest)));
    body_round_trip(data, 0, ctl, end, c + rest);
    assert(s.skip(e.len() as int + 2) =~= c + rest);
    values_round_trip(sum, end, ctl, rest);
}

/// A binary header is read back.
pub proof fn bin_header_round_trip(typ: u8, data: Seq<u8>, flags: u32, rest: Seq<u8>)
    requires
        data.len() == 4,
    ensures
        ({
            let s = crate::frame::bin_header_of(typ, data, flags);
            let enc = if crate::frame::wide(flags) {
                ZBIN32
            } else {
                ZBIN
            };
            &&& s[0] == ZPAD && s[1] == ZDLE && s[2] == enc
            &&& crate::protocol::bin_header_in((s + rest).skip(3), enc) == BinView::Whole(
                HeaderView { enc, typ, data },
                (s.len() - 3) as nat,
            )
        }),
{
    let wide = crate::frame::wide(flags);
    let ctl = crate::frame::escapes_controls(flags);
    let body = seq![typ] + data;
    let sum = crate::frame::check_of(body, wide);
    let s = crate::frame::bin_header_of(typ, data, flags);
    let e = crate::frame::escape(body + sum, 0, ctl);
    values_round_trip(body + sum, 0, ctl, rest);
    assert((s + rest).skip(3) =~= e + rest);
    assert((body + sum).take(5) =~= body);
    assert((body + sum).skip(5) =~= sum);
    assert((body + sum).subrange(1, 5) =~= data);
}

/// A hex header is read back, and its line end goes with it.
pub proof fn hex_header_round_trip(typ: u8, data: Seq<u8>, rest: Seq<u8>)
    requires
        data.len() == 4,
    ensures
        ({
            let s = crate::frame::hex_header_of(typ, data);
            &&& s.len() >= 20
            &&& crate::protocol::signature_at(s + rest, 0)
            &&& crate::protocol::hex_header_in(s + rest) == Some(
                HeaderView { enc: ZHEX, typ, data },
            )
            &&& crate::protocol::after_eol((s + rest).skip(18)) == crate::protocol::after_eol(rest)
        }),
{
    let body = seq![typ] + data;
    let sum = crate::frame::check_of(body, false);
    let v = body + sum;
    let s = crate::frame::hex_header_of(typ, data);
    let digits = crate::hex::hex_of(v);
    assert((s + rest).subrange(4, 18) =~= digits + Seq::<u8>::empty());
    crate::hex::hex_round_trip(v, Seq::<u8>::empty());
    assert(v.take(5) =~= body);
    assert(v.skip(5) =~= sum);
    assert(v.subrange(1, 5) =~= data);
    let t = (s + rest).skip(18);
    assert(t[0] == 0x0d);
    assert(t.skip(1)[0] == 0x0a);
    if typ != crate::frame::ZACK && typ != crate::frame::ZFIN {
        assert(t.skip(1).skip(1)[0] == 0x11);
        assert(t.skip(1).skip(1).skip(1) =~= rest);
    } else {
        assert(t.skip(1).skip(1) =~= rest);
    }
    reveal_with_fuel(crate::protocol::after_eol, 4);
}

/// Two messages of one length that differ in a single byte have different
/// check bytes.
pub proof fn check_tells_byte(s: Seq<u8>, i: int, b: u8, wide: bool)
    requires
        0 <= i < s.len(),
        b != s[i],
    ensures
        crate::frame::check_of(s.update(i, b), wide) != crate::frame::check_of(s, wide),
{
    let t = s.update(i, b);
    if wide {
        crate::crc::crc32_tells_byte(s, i, b);
        crate::bytes::le32_round_trip(crate::crc::crc32_of(s));
        crate::bytes::le32_round_trip(crate::crc::crc32_of(t));
    } else {
        crate::crc::crc16_tells_byte(s, i, b);
        let x = crate::crc::crc16_of(s);
        let y = crate::crc::crc16_of(t);
        assert(x != y ==> (x >> 8) as u8 != (y >> 8) as u8 || (x & 0xff) as u8 != (y & 0xff) as u8)
            by (bit_vector);
        let p = crate::bytes::be16(x);
        let q = crate::bytes::be16(y);
        assert(p[0] != q[0] || p[1] != q[1]);
    }
}

} // verus!
