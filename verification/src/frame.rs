//! Frames on the wire: headers in hex and binary form, and data subpackets.
//!
//! Everything a side sends goes out in one of these three forms. Binary
//! headers and subpackets are escaped: a byte that a terminal line could
//! swallow is sent as `ZDLE` and the byte with bit six turned over.

use vstd::prelude::*;

use crate::bytes::{u16_be, u32_le};
use crate::crc::{crc16, Crc32};
use crate::hex::push_hex;

verus! {

broadcast use vstd::seq_lib::group_seq_properties;

pub const ZPAD: u8 = 0x2a;

pub const ZDLE: u8 = 0x18;

pub const ZBIN: u8 = 0x41;

pub const ZHEX: u8 = 0x42;

pub const ZBIN32: u8 = 0x43;

// frame types
pub const ZRQINIT: u8 = 0;

pub const ZRINIT: u8 = 1;

pub const ZSINIT: u8 = 2;

pub const ZACK: u8 = 3;

pub const ZFILE: u8 = 4;

pub const ZSKIP: u8 = 5;

pub const ZNAK: u8 = 6;

pub const ZABORT: u8 = 7;

pub const ZFIN: u8 = 8;

pub const ZRPOS: u8 = 9;

pub const ZDATA: u8 = 10;

pub const ZEOF: u8 = 11;

pub const ZFERR: u8 = 12;

/// Subpacket terminator: end of frame, a header follows.
pub const ZCRCE: u8 = 0x68;

/// Subpacket terminator: the frame continues, no response expected.
pub const ZCRCG: u8 = 0x69;

/// Subpacket terminator: the frame continues, `ZACK` expected.
pub const ZCRCQ: u8 = 0x6a;

/// Subpacket terminator: end of frame, `ZACK` expected.
pub const ZCRCW: u8 = 0x6b;

/// Escaped form of 0x7f.
pub const ZRUB0: u8 = 0x6c;

/// Escaped form of 0xff.
pub const ZRUB1: u8 = 0x6d;

// capability flags of ZRINIT
pub const CANFDX: u32 = 0x01;

pub const CANOVIO: u32 = 0x02;

pub const CANFC32: u32 = 0x20;

pub const ESCCTL: u32 = 0x40;

/// The cancel character, the same byte as `ZDLE`.
pub const CAN: u8 = 0x18;

/// A peer with these capabilities wants 32-bit checks.
pub open spec fn wide(flags: u32) -> bool {
    flags & CANFC32 != 0
}

/// A peer with these capabilities wants every control character escaped.
pub open spec fn escapes_controls(flags: u32) -> bool {
    flags & ESCCTL != 0
}

/// The byte `b` has to be escaped when it follows `last`.
pub open spec fn must_escape(b: u8, last: u8, ctl: bool) -> bool {
    ||| b == 0x10
    ||| b == 0x90
    ||| b == 0x11
    ||| b == 0x91
    ||| b == 0x13
    ||| b == 0x93
    ||| b == ZDLE
    ||| (b & 0x7f == 0x0d && last & 0x7f == 0x40)
    ||| (ctl && b & 0x60 == 0)
}

/// The form in which the byte `b` is sent after `last`.
pub open spec fn escape_byte(b: u8, last: u8, ctl: bool) -> Seq<u8> {
    if must_escape(b, last, ctl) {
        seq![ZDLE, b ^ 0x40]
    } else {
        seq![b]
    }
}

/// The byte before the last one of `s`, or `before` where there is none.
pub open spec fn prior(s: Seq<u8>, before: u8) -> u8 {
    if s.len() >= 2 {
        s[s.len() - 2]
    } else {
        before
    }
}

/// The form in which the bytes `s` are sent after the byte `before`.
pub open spec fn escape(s: Seq<u8>, before: u8, ctl: bool) -> Seq<u8>
    decreases s.len(),
{
    if s.len() == 0 {
        Seq::empty()
    } else {
        escape(s.drop_last(), before, ctl) + escape_byte(s.last(), prior(s, before), ctl)
    }
}

/// The check of `s`, as the bytes that are sent after it.
pub open spec fn check_of(s: Seq<u8>, wide: bool) -> Seq<u8> {
    if wide {
        crate::bytes::le32(crate::crc::crc32_of(s))
    } else {
        crate::bytes::be16(crate::crc::crc16_of(s))
    }
}

/// A hex header: signature, digits of type, data and check, line end, and
/// `XON` unless the frame is a `ZACK` or `ZFIN`.
pub open spec fn hex_header_of(typ: u8, data: Seq<u8>) -> Seq<u8> {
    let body = seq![typ] + data;
    seq![ZPAD, ZPAD, ZDLE, ZHEX] + crate::hex::hex_of(body + check_of(body, false)) + seq![
        0x0du8,
        0x0a,
    ] + (if typ != ZACK && typ != ZFIN {
        seq![0x11u8]
    } else {
        Seq::empty()
    })
}

/// A binary header for a peer with the capabilities `flags`.
pub open spec fn bin_header_of(typ: u8, data: Seq<u8>, flags: u32) -> Seq<u8> {
    let body = seq![typ] + data;
    seq![
        ZPAD,
        ZDLE,
        if wide(flags) {
            ZBIN32
        } else {
            ZBIN
        },
    ] + escape(body + check_of(body, wide(flags)), 0, escapes_controls(flags))
}

/// A data subpacket with the terminator `end` for a peer with the
/// capabilities `flags`.
pub open spec fn subpacket_of(data: Seq<u8>, end: u8, flags: u32) -> Seq<u8> {
    escape(data, 0, escapes_controls(flags)) + seq![ZDLE, end] + escape(
        check_of(data.push(end), wide(flags)),
        end,
        escapes_controls(flags),
    )
}

/// What a decoded header says.
#[verifier::ext_equal]
pub struct HeaderView {
    pub enc: u8,
    pub typ: u8,
    pub data: Seq<u8>,
}

/// A decoded header: its encoding, its frame type and four data bytes.
#[derive(Debug, PartialEq, Eq)]
pub struct Header {
    pub enc: u8,
    pub typ: u8,
    pub data: [u8; 4],
}

impl View for Header {
    type V = HeaderView;

    open spec fn view(&self) -> HeaderView {
        HeaderView { enc: self.enc, typ: self.typ, data: self.data@ }
    }
}

impl Header {
    /// The position that a `ZDATA`, `ZRPOS`, `ZEOF` or `ZACK` carries, least
    /// significant byte first.
    pub fn pos(&self) -> (p: u32)
        ensures
            p == crate::bytes::from_le32(self@.data),
    {
        (self.data[0] as u32) | (self.data[1] as u32) << 8 | (self.data[2] as u32) << 16 | (
        self.data[3] as u32) << 24
    }

    /// The capability flags of a `ZRINIT`, which stand in the last data byte
    /// first.
    pub fn flags(&self) -> (f: u32)
        ensures
            f == crate::bytes::from_be32(self@.data),
    {
        (self.data[3] as u32) | (self.data[2] as u32) << 8 | (self.data[1] as u32) << 16 | (
        self.data[0] as u32) << 24
    }
}

/// Encodes a hex header.
pub fn hex_header(typ: u8, data: [u8; 4]) -> (out: Vec<u8>)
    ensures
        out@ == hex_header_of(typ, data@),
{
    let five: [u8; 5] = [typ, data[0], data[1], data[2], data[3]];
    assert(five@ =~= seq![typ] + data@);
    let crc = u16_be(crc16(five.as_slice()));
    let mut out: Vec<u8> = vec![ZPAD, ZPAD, ZDLE, ZHEX];
    push_hex(five[0], &mut out);
    push_hex(five[1], &mut out);
    push_hex(five[2], &mut out);
    push_hex(five[3], &mut out);
    push_hex(five[4], &mut out);
    push_hex(crc[0], &mut out);
    push_hex(crc[1], &mut out);
    let ghost body = five@ + crc@;
    assert(out@ =~= seq![ZPAD, ZPAD, ZDLE, ZHEX] + crate::hex::hex_of(body));
    out.push(0x0d);
    out.push(0x0a);
    // XON after every hex header except ZACK and ZFIN
    if typ != ZACK && typ != ZFIN {
        out.push(0x11);
    }
    assert(out@ =~= hex_header_of(typ, data@));
    out
}

/// Appends the escaped form of `b` to `out`.
pub fn esc_byte(b: u8, last: u8, ctl: bool, out: &mut Vec<u8>)
    ensures
        final(out)@ == old(out)@ + escape_byte(b, last, ctl),
{
    let must = b == 0x10 || b == 0x90 || b == 0x11 || b == 0x91 || b == 0x13 || b == 0x93 || b
        == 0x18 || (b & 0x7f == 0x0d && last & 0x7f == 0x40) || (ctl && b & 0x60 == 0);
    if must {
        out.push(ZDLE);
        out.push(b ^ 0x40);
    } else {
        out.push(b);
    }
}

/// Appends the escaped form of `s`, sent after the byte `before`, to `out`.
fn esc_all(s: &[u8], before: u8, ctl: bool, out: &mut Vec<u8>)
    ensures
        final(out)@ == old(out)@ + escape(s@, before, ctl),
{
    let mut last = before;
    let mut i: usize = 0;
    while i < s.len()
        invariant
            i <= s.len(),
            out@ == old(out)@ + escape(s@.take(i as int), before, ctl),
            last == (if i == 0 {
                before
            } else {
                s@[i - 1]
            }),
        decreases s.len() - i,
    {
        proof {
            let next = s@.take(i + 1);
            assert(next.drop_last() =~= s@.take(i as int));
            assert(prior(next, before) == last);
        }
        let b = s[i];
        esc_byte(b, last, ctl, out);
        last = b;
        i = i + 1;
        assert(out@ =~= old(out)@ + escape(s@.take(i as int), before, ctl));
    }
    assert(s@.take(s@.len() as int) =~= s@);
}

/// The check of `s` for a peer that wants 32-bit checks or not.
pub fn check(s: &[u8], wide: bool, crc32: &Crc32) -> (c: Vec<u8>)
    ensures
        c@ == check_of(s@, wide),
{
    let mut c: Vec<u8> = Vec::new();
    if wide {
        let w = u32_le(crc32.crc32(s));
        c.push(w[0]);
        c.push(w[1]);
        c.push(w[2]);
        c.push(w[3]);
        assert(c@ =~= w@);
    } else {
        let w = u16_be(crc16(s));
        c.push(w[0]);
        c.push(w[1]);
        assert(c@ =~= w@);
    }
    c
}

/// Encodes a binary header.
pub fn bin_header(typ: u8, data: [u8; 4], flags: u32, crc32: &Crc32) -> (out: Vec<u8>)
    ensures
        out@ == bin_header_of(typ, data@, flags),
{
    let w = flags & CANFC32 != 0;
    let mut out: Vec<u8> = vec![ZPAD, ZDLE, if w { ZBIN32 } else { ZBIN }];
    let mut five: Vec<u8> = vec![typ, data[0], data[1], data[2], data[3]];
    assert(five@ =~= seq![typ] + data@);
    let mut c = check(five.as_slice(), w, crc32);
    five.append(&mut c);
    esc_all(five.as_slice(), 0, flags & ESCCTL != 0, &mut out);
    assert(out@ =~= bin_header_of(typ, data@, flags));
    out
}

/// Encodes a data subpacket.
pub fn subpacket(data: &[u8], end: u8, flags: u32, crc32: &Crc32) -> (out: Vec<u8>)
    ensures
        out@ == subpacket_of(data@, end, flags),
{
    let w = flags & CANFC32 != 0;
    let ctl = flags & ESCCTL != 0;
    let mut out: Vec<u8> = Vec::new();
    esc_all(data, 0, ctl, &mut out);
    out.push(ZDLE);
    out.push(end);
    let mut body = vstd::slice::slice_to_vec(data);
    body.push(end);
    let c = check(body.as_slice(), w, crc32);
    esc_all(c.as_slice(), end, ctl, &mut out);
    assert(out@ =~= subpacket_of(data@, end, flags));
    out
}

} // verus!
