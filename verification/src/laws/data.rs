//! File data: what a sender frames is what a receiver stores.

use vstd::prelude::*;

use crate::event::EventView;
use crate::frame::{CAN, ZCRCE, ZCRCQ, ZCRCW, ZDLE, ZRPOS};
use crate::protocol::{Run, Session};

verus! {

/// No subpacket is begun.
pub open spec fn no_subpacket(z: Session) -> bool {
    &&& z.sp_data.len() == 0
    &&& !z.sp_esc
    &&& z.sp_end is None
    &&& z.sp_crc.len() == 0
}

/// The escaped bytes `s` hold no `ZDLE` that a cancel character follows.
pub open spec fn clean(s: Seq<u8>) -> bool
    decreases s.len(),
{
    if s.len() == 0 {
        true
    } else if s[0] == ZDLE {
        s.len() == 1 || (s[1] != CAN && clean(s.skip(2)))
    } else {
        clean(s.skip(1))
    }
}

/// The start of clean bytes is clean.
pub proof fn lemma_clean_take(s: Seq<u8>, k: int)
    requires
        clean(s),
        0 <= k <= s.len(),
    ensures
        clean(s.take(k)),
    decreases s.len(),
{
    let t = s.take(k);
    if k > 0 {
        if s[0] == ZDLE {
            if k > 1 {
                assert(t.skip(2) =~= s.skip(2).take(k - 2));
                lemma_clean_take(s.skip(2), k - 2);
            }
        } else {
            assert(t.skip(1) =~= s.skip(1).take(k - 1));
            lemma_clean_take(s.skip(1), k - 1);
        }
    }
}

/// What a side escapes is clean.
pub proof fn lemma_clean_escape(s: Seq<u8>, before: u8, ctl: bool, tail: Seq<u8>)
    requires
        clean(tail),
    ensures
        clean(crate::frame::escape(s, before, ctl) + tail),
    decreases s.len(),
{
    let e = crate::frame::escape(s, before, ctl) + tail;
    if s.len() == 0 {
        assert(e =~= tail);
    } else {
        crate::round_trip::lemma_escape_front(s, before, ctl);
        crate::round_trip::lemma_escape_unit(s[0], before, ctl);
        let unit = crate::frame::escape_byte(s[0], before, ctl);
        let rest = crate::frame::escape(s.skip(1), s[0], ctl) + tail;
        assert(e =~= unit + rest);
        lemma_clean_escape(s.skip(1), s[0], ctl, tail);
        assert(e.skip(unit.len() as int) =~= rest);
        assert(e[0] == unit[0]);
        if unit.len() == 2 {
            assert(e[1] == unit[1]);
        }
    }
}

/// The bytes of a subpacket with the check bytes `sum`, whatever these are.
pub open spec fn framed(data: Seq<u8>, end: u8, sum: Seq<u8>, ctl: bool) -> Seq<u8> {
    crate::frame::escape(data, 0, ctl) + seq![ZDLE, end] + crate::frame::escape(sum, end, ctl)
}

/// A framed subpacket is clean.
pub proof fn lemma_clean_framed(data: Seq<u8>, end: u8, sum: Seq<u8>, ctl: bool)
    requires
        crate::decode::is_end(end),
    ensures
        clean(framed(data, end, sum, ctl)),
{
    let none = Seq::<u8>::empty();
    let c = crate::frame::escape(sum, end, ctl);
    lemma_clean_escape(sum, end, ctl, none);
    assert(c + none =~= c);
    let t = seq![ZDLE, end] + c;
    assert(t.skip(2) =~= c);
    lemma_clean_escape(data, 0, ctl, t);
    assert(framed(data, end, sum, ctl) =~= crate::frame::escape(data, 0, ctl) + t);
}

/// A framed subpacket is read back whole.
pub proof fn lemma_framed_raw(data: Seq<u8>, end: u8, sum: Seq<u8>, ctl: bool)
    requires
        crate::decode::is_end(end),
    ensures
        ({
            let s = framed(data, end, sum, ctl);
            crate::decode::raw_of(s, sum.len()) == Some(
                crate::decode::RawView { data, end, crc: sum, used: s.len() },
            )
        }),
{
    let none = Seq::<u8>::empty();
    let e = crate::frame::escape(data, 0, ctl);
    let c = crate::frame::escape(sum, end, ctl);
    let s = framed(data, end, sum, ctl);
    assert(s =~= e + (seq![ZDLE, end] + c));
    crate::round_trip::body_round_trip(data, 0, ctl, end, c);
    assert(s.skip(e.len() as int + 2) =~= c + none);
    crate::round_trip::values_round_trip(sum, end, ctl, none);
}

/// Bytes without any `ZDLE` are clean.
pub proof fn lemma_clean_plain(s: Seq<u8>)
    requires
        forall|i: int| 0 <= i < s.len() ==> #[trigger] s[i] != ZDLE,
    ensures
        clean(s),
    decreases s.len(),
{
    if s.len() > 0 {
        let t = s.skip(1);
        assert(s[0] != ZDLE);
        assert forall|i: int| 0 <= i < t.len() implies #[trigger] t[i] != ZDLE by {
            assert(s[i + 1] != ZDLE);
        }
        lemma_clean_plain(t);
    }
}

/// In clean bytes no cancel character follows another one.
pub proof fn lemma_clean_apart(s: Seq<u8>, i: int)
    requires
        clean(s),
        0 <= i < s.len() - 1,
    ensures
        s[i] != CAN || s[i + 1] != CAN,
    decreases s.len(),
{
    if s[0] == ZDLE {
        if i == 1 {
            assert(s[1] != CAN);
        } else if i > 1 {
            lemma_clean_apart(s.skip(2), i - 2);
        }
    } else if i > 0 {
        lemma_clean_apart(s.skip(1), i - 1);
    }
}

/// Clean bytes do not end a transfer, nor does their end together with what
/// follows if it is no cancel character.
pub proof fn lemma_clean_not_cut(s: Seq<u8>, rest: Seq<u8>)
    requires
        clean(s),
        s.len() > 0,
        rest.len() == 0 || s.last() != CAN,
    ensures
        !crate::protocol::cut_off(s + rest, s.len() as int),
{
    let all = s + rest;
    crate::protocol::lemma_find_cancels(all);
    if let Some(p) = crate::protocol::find_cancels(all) {
        if p < s.len() {
            assert(all[p] == CAN && all[p + 1] == CAN);
            assert(all[p] == s[p]);
            if p + 1 < s.len() {
                assert(all[p + 1] == s[p + 1]);
                lemma_clean_apart(s, p);
            }
        }
    }
}

/// The escaped form of some bytes does not end with a cancel character.
pub proof fn lemma_escape_last(s: Seq<u8>, before: u8, ctl: bool)
    requires
        s.len() > 0,
    ensures
        crate::frame::escape(s, before, ctl).len() > 0,
        crate::frame::escape(s, before, ctl).last() != CAN,
{
    crate::round_trip::lemma_escape_unit(s.last(), crate::frame::prior(s, before), ctl);
    let unit = crate::frame::escape_byte(s.last(), crate::frame::prior(s, before), ctl);
    assert(crate::frame::escape(s, before, ctl).last() == unit.last());
}

/// A binary header is clean and does not end with a cancel character.
pub proof fn lemma_clean_bin_header(typ: u8, data: Seq<u8>, flags: u32, tail: Seq<u8>)
    requires
        clean(tail),
    ensures
        clean(crate::frame::bin_header_of(typ, data, flags) + tail),
        crate::frame::bin_header_of(typ, data, flags).last() != CAN,
{
    let body = seq![typ] + data;
    let v = body + crate::frame::check_of(body, crate::frame::wide(flags));
    let ctl = crate::frame::escapes_controls(flags);
    let e = crate::frame::escape(v, 0, ctl);
    lemma_clean_escape(v, 0, ctl, tail);
    lemma_escape_last(v, 0, ctl);
    let s = crate::frame::bin_header_of(typ, data, flags);
    let all = s + tail;
    assert(all.skip(1).skip(2) =~= e + tail);
    assert(clean(all.skip(1)));
    assert(s.last() == e.last());
}

/// A hex header is clean.
pub proof fn lemma_clean_hex_header(typ: u8, data: Seq<u8>)
    requires
        data.len() == 4,
    ensures
        clean(crate::frame::hex_header_of(typ, data)),
        crate::frame::hex_header_of(typ, data).len() >= 20,
        crate::frame::hex_header_of(typ, data)[17] != CAN,
{
    let s = crate::frame::hex_header_of(typ, data);
    let body = seq![typ] + data;
    let v = body + crate::frame::check_of(body, false);
    let t = s.skip(1).skip(1).skip(2);
    assert forall|i: int| 0 <= i < t.len() implies #[trigger] t[i] != ZDLE by {
        assert(t[i] == s[i + 4]);
        if i < 14 {
            let b = v[i / 2];
            assert(b >> 4 < 16 && b & 0xf < 16) by (bit_vector);
            assert(s[i + 4] == crate::hex::hex_of(v)[i]);
        }
    }
    lemma_clean_plain(t);
    assert(clean(s.skip(1).skip(1)));
    assert(clean(s.skip(1)));
    assert(s[17] == t[13]);
}

/// A session between two bytes of a subpacket.
pub open spec fn calm(z: Session) -> bool {
    !z.sp_esc && z.can_count == 0
}

/// A data byte that is not escaped.
proof fn lemma_data_plain(r: Run, rest: Seq<u8>)
    requires
        calm(r.z),
        r.z.sp_end is None,
        r.z.buf.len() > 0,
        r.z.buf[0] != ZDLE,
        rest == r.z.buf.skip(1),
    ensures
        r.step_data() == r.to(
            Session {
                buf: rest,
                sp_data: if crate::decode::is_flow(r.z.buf[0]) {
                    r.z.sp_data
                } else {
                    r.z.sp_data.push(r.z.buf[0])
                },
                ..r.z
            },
        ).step_data(),
{
    crate::protocol::lemma_data_byte(r);
    crate::protocol::lemma_fifth_due(r.z);
}

/// A data byte that is escaped, or the terminator.
proof fn lemma_data_pair(r: Run, rest: Seq<u8>)
    requires
        calm(r.z),
        r.z.sp_end is None,
        r.z.buf.len() > 1,
        r.z.buf[0] == ZDLE,
        r.z.buf[1] != CAN,
        rest == r.z.buf.skip(2),
    ensures
        ({
            let e = r.z.buf[1];
            r.step_data() == r.to(
                if crate::decode::is_end(e) {
                    Session { buf: rest, sp_end: Some(e), ..r.z }
                } else {
                    Session {
                        buf: rest,
                        sp_data: r.z.sp_data.push(crate::decode::unquoted(e)),
                        ..r.z
                    }
                },
            ).step_data()
        }),
{
    crate::protocol::lemma_data_byte(r);
    crate::protocol::lemma_fifth_due(r.z);
    let half = r.to(r.z.sp_byte());
    crate::protocol::lemma_data_byte(half);
    crate::protocol::lemma_fifth_due(half.z);
    assert(half.z.buf.skip(1) =~= rest);
}

/// The start of an escape, with nothing behind it.
proof fn lemma_half_pair(r: Run)
    requires
        calm(r.z),
        r.z.buf.len() == 1,
        r.z.buf[0] == ZDLE,
        r.z.sp_crc.len() < crate::protocol::crc_len(r.z.sp_wide),
    ensures
        r.step_data().out == r.out,
{
    crate::protocol::lemma_data_byte(r);
    crate::protocol::lemma_fifth_due(r.z);
    let half = r.to(r.z.sp_byte());
    assert(half.step_data() == half) by {
        reveal(Run::step_data);
    }
}

/// Reading clean bytes as the data of a subpacket is decoding them. Without
/// the terminator nothing happens yet.
proof fn lemma_body_steps(r: Run, s: Seq<u8>, tail: Seq<u8>)
    requires
        calm(r.z),
        r.z.sp_end is None,
        r.z.sp_crc.len() == 0,
        clean(s),
        r.z.buf == s + tail,
    ensures
        match crate::decode::body_of(s) {
            Some((d, e, n)) => r.step_data() == r.to(
                Session {
                    buf: s.skip(n as int) + tail,
                    sp_data: r.z.sp_data + d,
                    sp_end: Some(e),
                    ..r.z
                },
            ).step_data(),
            None => tail.len() == 0 ==> r.step_data().out == r.out,
        },
    decreases s.len(),
{
    if s.len() == 0 {
        if tail.len() == 0 {
            reveal(Run::step_data);
        }
    } else if s[0] != ZDLE {
        let t = s.skip(1);
        assert(r.z.buf.skip(1) =~= t + tail);
        lemma_data_plain(r, t + tail);
        let d0 = if crate::decode::is_flow(s[0]) {
            r.z.sp_data
        } else {
            r.z.sp_data.push(s[0])
        };
        lemma_body_steps(r.to(Session { buf: t + tail, sp_data: d0, ..r.z }), t, tail);
        if let Some((d, e, n)) = crate::decode::body_of(t) {
            crate::decode::lemma_body_bound(t);
            assert(r.z.sp_data.push(s[0]) + d =~= r.z.sp_data + (seq![s[0]] + d));
            assert(t.skip(n as int) =~= s.skip(n as int + 1));
        }
    } else if s.len() == 1 {
        if tail.len() == 0 {
            assert(r.z.buf =~= s);
            lemma_half_pair(r);
        }
    } else {
        let t = s.skip(2);
        assert(r.z.buf.skip(2) =~= t + tail);
        lemma_data_pair(r, t + tail);
        if crate::decode::is_end(s[1]) {
            assert(r.z.sp_data + Seq::<u8>::empty() =~= r.z.sp_data);
        } else {
            let b = crate::decode::unquoted(s[1]);
            lemma_body_steps(
                r.to(Session { buf: t + tail, sp_data: r.z.sp_data.push(b), ..r.z }),
                t,
                tail,
            );
            if let Some((d, e, n)) = crate::decode::body_of(t) {
                crate::decode::lemma_body_bound(t);
                assert(r.z.sp_data.push(b) + d =~= r.z.sp_data + (seq![b] + d));
                assert(t.skip(n as int) =~= s.skip(n as int + 2));
            }
        }
    }
}

/// A check byte that is not escaped, or line noise.
proof fn lemma_crc_plain(r: Run, rest: Seq<u8>)
    requires
        calm(r.z),
        r.z.sp_end is Some,
        r.z.sp_crc.len() < crate::protocol::crc_len(r.z.sp_wide),
        r.z.buf.len() > 0,
        r.z.buf[0] != ZDLE,
        rest == r.z.buf.skip(1),
    ensures
        ({
            let b = r.z.buf[0];
            let q = r.to(Session { buf: rest, sp_crc: r.z.sp_crc.push(b), ..r.z });
            r.step_data() == if crate::decode::is_flow(b) {
                r.to(Session { buf: rest, ..r.z }).step_data()
            } else if q.z.sp_crc.len() >= crate::protocol::crc_len(r.z.sp_wide) {
                q.finish_subpacket()
            } else {
                q.step_data()
            }
        }),
{
    crate::protocol::lemma_data_byte(r);
    crate::protocol::lemma_fifth_due(r.z);
}

/// A check byte that is escaped.
proof fn lemma_crc_pair(r: Run, rest: Seq<u8>)
    requires
        calm(r.z),
        r.z.sp_end is Some,
        r.z.sp_crc.len() < crate::protocol::crc_len(r.z.sp_wide),
        r.z.buf.len() > 1,
        r.z.buf[0] == ZDLE,
        r.z.buf[1] != CAN,
        rest == r.z.buf.skip(2),
    ensures
        ({
            let b = crate::decode::unquoted(r.z.buf[1]);
            let q = r.to(Session { buf: rest, sp_crc: r.z.sp_crc.push(b), ..r.z });
            r.step_data() == if q.z.sp_crc.len() >= crate::protocol::crc_len(r.z.sp_wide) {
                q.finish_subpacket()
            } else {
                q.step_data()
            }
        }),
{
    crate::protocol::lemma_data_byte(r);
    crate::protocol::lemma_fifth_due(r.z);
    let half = r.to(r.z.sp_byte());
    crate::protocol::lemma_data_byte(half);
    crate::protocol::lemma_fifth_due(half.z);
    assert(half.z.buf.skip(1) =~= rest);
}

/// Reading clean bytes as the check of a subpacket is decoding them. Before
/// the last one nothing happens yet.
proof fn lemma_values_steps(r: Run, s: Seq<u8>, tail: Seq<u8>)
    requires
        calm(r.z),
        r.z.sp_end is Some,
        r.z.sp_crc.len() < crate::protocol::crc_len(r.z.sp_wide),
        clean(s),
        r.z.buf == s + tail,
    ensures
        ({
            let need = (crate::protocol::crc_len(r.z.sp_wide) - r.z.sp_crc.len()) as nat;
            match crate::decode::values_of(s, need) {
                Some((v, n)) => r.step_data() == r.to(
                    Session { buf: s.skip(n as int) + tail, sp_crc: r.z.sp_crc + v, ..r.z },
                ).finish_subpacket(),
                None => tail.len() == 0 ==> r.step_data().out == r.out,
            }
        }),
    decreases s.len(), 0int,
{
    let need = (crate::protocol::crc_len(r.z.sp_wide) - r.z.sp_crc.len()) as nat;
    if s.len() == 0 {
        if tail.len() == 0 {
            reveal(Run::step_data);
        }
    } else if s[0] == ZDLE {
        if s.len() == 1 {
            if tail.len() == 0 {
                assert(r.z.buf =~= s);
                lemma_half_pair(r);
            }
        } else {
            let t = s.skip(2);
            let b = crate::decode::unquoted(s[1]);
            assert(r.z.buf.skip(2) =~= t + tail);
            lemma_crc_pair(r, t + tail);
            let q = r.to(Session { buf: t + tail, sp_crc: r.z.sp_crc.push(b), ..r.z });
            lemma_after_value(r, q, t, b, need, tail);
            if let Some((v, n)) = crate::decode::values_of(t, (need - 1) as nat) {
                crate::decode::lemma_values_bound(t, (need - 1) as nat);
                assert(t.skip(n as int) =~= s.skip(n as int + 2));
            }
        }
    } else {
        let t = s.skip(1);
        assert(r.z.buf.skip(1) =~= t + tail);
        lemma_crc_plain(r, t + tail);
        if crate::decode::is_flow(s[0]) {
            lemma_values_steps(r.to(r.z.with_buf(t + tail)), t, tail);
            if let Some((v, n)) = crate::decode::values_of(t, need) {
                crate::decode::lemma_values_bound(t, need);
                assert(t.skip(n as int) =~= s.skip(n as int + 1));
            }
        } else {
            let q = r.to(Session { buf: t + tail, sp_crc: r.z.sp_crc.push(s[0]), ..r.z });
            lemma_after_value(r, q, t, s[0], need, tail);
            if let Some((v, n)) = crate::decode::values_of(t, (need - 1) as nat) {
                crate::decode::lemma_values_bound(t, (need - 1) as nat);
                assert(t.skip(n as int) =~= s.skip(n as int + 1));
            }
        }
    }
}

/// What follows the check byte `b`.
proof fn lemma_after_value(r: Run, q: Run, t: Seq<u8>, b: u8, need: nat, tail: Seq<u8>)
    requires
        calm(r.z),
        r.z.sp_end is Some,
        clean(t),
        need > 0,
        r.z.sp_crc.len() + need == crate::protocol::crc_len(r.z.sp_wide),
        q == r.to(Session { buf: t + tail, sp_crc: r.z.sp_crc.push(b), ..r.z }),
    ensures
        ({
            let after = if need == 1 {
                q.finish_subpacket()
            } else {
                q.step_data()
            };
            match crate::decode::values_of(t, (need - 1) as nat) {
                Some((v, n)) => after == r.to(
                    Session {
                        buf: t.skip(n as int) + tail,
                        sp_crc: r.z.sp_crc + (seq![b] + v),
                        ..r.z
                    },
                ).finish_subpacket(),
                None => tail.len() == 0 ==> after.out == r.out,
            }
        }),
    decreases t.len(), 1int,
{
    if need == 1 {
        assert(t.skip(0) =~= t);
        assert(r.z.sp_crc.push(b) =~= r.z.sp_crc + (seq![b] + Seq::<u8>::empty()));
    } else {
        lemma_values_steps(q, t, tail);
        if let Some((v, n)) = crate::decode::values_of(t, (need - 1) as nat) {
            assert(r.z.sp_crc.push(b) + v =~= r.z.sp_crc + (seq![b] + v));
        }
    }
}

/// Reading a clean subpacket byte by byte is decoding it at once. As long as
/// it is not whole, nothing happens.
pub proof fn subpacket_is_decoded(r: Run, s: Seq<u8>, tail: Seq<u8>)
    requires
        no_subpacket(r.z),
        r.z.can_count == 0,
        clean(s),
        r.z.buf == s + tail,
    ensures
        match crate::decode::raw_of(s, crate::protocol::crc_len(r.z.sp_wide)) {
            Some(raw) => r.step_data() == r.to(
                Session {
                    buf: s.skip(raw.used as int) + tail,
                    sp_data: raw.data,
                    sp_end: Some(raw.end),
                    sp_crc: raw.crc,
                    ..r.z
                },
            ).finish_subpacket(),
            None => tail.len() == 0 ==> r.step_data().out == r.out,
        },
{
    lemma_body_steps(r, s, tail);
    crate::decode::lemma_body_bound(s);
    if let Some((d, e, n)) = crate::decode::body_of(s) {
        let t = s.skip(n as int);
        let q = r.to(
            Session { buf: t + tail, sp_data: r.z.sp_data + d, sp_end: Some(e), ..r.z },
        );
        lemma_clean_after_body(s);
        lemma_values_steps(q, t, tail);
        assert(r.z.sp_data + d =~= d);
        let len = crate::protocol::crc_len(r.z.sp_wide);
        if let Some((v, m)) = crate::decode::values_of(t, len) {
            crate::decode::lemma_values_bound(t, len);
            assert(t.skip(m as int) =~= s.skip((n + m) as int));
            assert(r.z.sp_crc + v =~= v);
        }
    }
}

/// What follows the data of a clean subpacket is clean.
proof fn lemma_clean_after_body(s: Seq<u8>)
    requires
        clean(s),
    ensures
        crate::decode::body_of(s) matches Some((d, e, n)) ==> clean(s.skip(n as int)),
    decreases s.len(),
{
    crate::decode::lemma_body_bound(s);
    if s.len() > 0 {
        if s[0] == ZDLE {
            if s.len() > 1 && !crate::decode::is_end(s[1]) {
                lemma_clean_after_body(s.skip(2));
                crate::decode::lemma_body_bound(s.skip(2));
                if let Some((d, e, n)) = crate::decode::body_of(s.skip(2)) {
                    assert(s.skip(2).skip(n as int) =~= s.skip(n as int + 2));
                }
            }
        } else {
            lemma_clean_after_body(s.skip(1));
            crate::decode::lemma_body_bound(s.skip(1));
            if let Some((d, e, n)) = crate::decode::body_of(s.skip(1)) {
                assert(s.skip(1).skip(n as int) =~= s.skip(n as int + 1));
            }
        }
    }
}

/// What a receiver tells after an intact subpacket.
pub open spec fn taken(z: Session, data: Seq<u8>, end: u8) -> Seq<EventView> {
    let pos = crate::protocol::advance(z.recv_pos, data.len());
    seq![
        EventView::Store(data),
        EventView::Progress {
            name: z.recv_name,
            done: pos,
            total: z.recv_size,
            dir: "down"@,
        },
    ] + (if end == ZCRCQ || end == ZCRCW {
        seq![
            EventView::Write(
                crate::frame::hex_header_of(crate::frame::ZACK, crate::protocol::pos_data(pos)),
            ),
        ]
    } else {
        Seq::empty()
    })
}

/// The session of a receiver after an intact subpacket.
pub open spec fn moved(z: Session, data: Seq<u8>, end: u8) -> Session {
    Session {
        recv_pos: crate::protocol::advance(z.recv_pos, data.len()),
        in_data_frame: z.in_data_frame && end != ZCRCE && end != ZCRCW,
        ..z
    }
}

/// An intact subpacket is stored.
pub proof fn lemma_intact_is_stored(r: Run, data: Seq<u8>, end: u8, tail: Seq<u8>)
    requires
        no_subpacket(r.z),
        r.z.recv_open,
    ensures
        r.to(
            Session {
                buf: tail,
                sp_data: data,
                sp_end: Some(end),
                sp_crc: crate::frame::check_of(data.push(end), r.z.sp_wide),
                ..r.z
            },
        ).finish_subpacket() == (Run {
            z: moved(r.z, data, end).with_buf(tail),
            out: r.out + taken(r.z, data, end),
        }),
{
    reveal(Run::finish_subpacket);
    let q = r.to(
        Session {
            buf: tail,
            sp_data: data,
            sp_end: Some(end),
            sp_crc: crate::frame::check_of(data.push(end), r.z.sp_wide),
            ..r.z
        },
    ).finish_subpacket();
    assert(q.out =~= r.out + taken(r.z, data, end));
    assert(q.z =~= moved(r.z, data, end).with_buf(tail));
}

/// A receiver stores exactly the data that the sender framed, and its
/// position moves on by as many bytes, where the subpacket has a check of the
/// width that its header announced.
pub proof fn subpacket_is_stored(r: Run, data: Seq<u8>, end: u8, flags: u32, tail: Seq<u8>)
    requires
        no_subpacket(r.z),
        r.z.can_count == 0,
        r.z.recv_open,
        crate::decode::is_end(end),
        crate::frame::wide(flags) == r.z.sp_wide,
        r.z.buf == crate::frame::subpacket_of(data, end, flags) + tail,
    ensures
        r.step_data() == (Run {
            z: moved(r.z, data, end).with_buf(tail),
            out: r.out + taken(r.z, data, end),
        }),
{
    let s = crate::frame::subpacket_of(data, end, flags);
    let sum = crate::frame::check_of(data.push(end), crate::frame::wide(flags));
    let ctl = crate::frame::escapes_controls(flags);
    assert(s == framed(data, end, sum, ctl));
    lemma_clean_framed(data, end, sum, ctl);
    lemma_framed_raw(data, end, sum, ctl);
    subpacket_is_decoded(r, s, tail);
    assert(s.skip(s.len() as int) + tail =~= tail);
    lemma_intact_is_stored(r, data, end, tail);
}

/// A subpacket whose check bytes are not those of its data and terminator is
/// not stored: the position stays, and the sender is told to go on from it.
pub proof fn wrong_check_is_refused(
    r: Run,
    data: Seq<u8>,
    end: u8,
    sum: Seq<u8>,
    ctl: bool,
    tail: Seq<u8>,
)
    requires
        no_subpacket(r.z),
        r.z.can_count == 0,
        crate::decode::is_end(end),
        sum.len() == crate::protocol::crc_len(r.z.sp_wide),
        sum != crate::frame::check_of(data.push(end), r.z.sp_wide),
        r.z.buf == framed(data, end, sum, ctl) + tail,
    ensures
        r.step_data() == r.to(Session { buf: tail, in_data_frame: false, ..r.z }).write(
            crate::frame::hex_header_of(ZRPOS, crate::protocol::pos_data(r.z.recv_pos)),
        ),
{
    let s = framed(data, end, sum, ctl);
    lemma_clean_framed(data, end, sum, ctl);
    lemma_framed_raw(data, end, sum, ctl);
    subpacket_is_decoded(r, s, tail);
    assert(s.skip(s.len() as int) + tail =~= tail);
    reveal(Run::finish_subpacket);
    assert(r.step_data().z =~= (Session { buf: tail, in_data_frame: false, ..r.z }));
}

/// A subpacket in which one data byte arrives changed is not stored.
pub proof fn changed_byte_is_refused(
    r: Run,
    data: Seq<u8>,
    end: u8,
    i: int,
    b: u8,
    ctl: bool,
    tail: Seq<u8>,
)
    requires
        no_subpacket(r.z),
        r.z.can_count == 0,
        crate::decode::is_end(end),
        0 <= i < data.len(),
        b != data[i],
        r.z.buf == framed(
            data.update(i, b),
            end,
            crate::frame::check_of(data.push(end), r.z.sp_wide),
            ctl,
        ) + tail,
    ensures
        r.step_data() == r.to(Session { buf: tail, in_data_frame: false, ..r.z }).write(
            crate::frame::hex_header_of(ZRPOS, crate::protocol::pos_data(r.z.recv_pos)),
        ),
{
    let w = r.z.sp_wide;
    let sent = data.push(end);
    let sum = crate::frame::check_of(sent, w);
    let seen = data.update(i, b).push(end);
    assert(seen =~= sent.update(i, b));
    crate::round_trip::check_tells_byte(sent, i, b, w);
    wrong_check_is_refused(r, data.update(i, b), end, sum, ctl, tail);
}

} // verus!
