//! Bytes in pieces: it does not matter how the line cuts them up.

use vstd::prelude::*;

use crate::frame::{CAN, ZDLE};
use crate::laws::data::{
    lemma_clean_apart, lemma_clean_framed, lemma_clean_take, lemma_framed_raw,
};
use crate::laws::line::{lemma_settle_once, lemma_step_nothing};
use crate::protocol::{Run, Session, State};

verus! {

/// The bytes of all parts, one part after the other.
pub open spec fn joined(parts: Seq<Seq<u8>>) -> Seq<u8>
    decreases parts.len(),
{
    if parts.len() == 0 {
        Seq::empty()
    } else {
        parts[0] + joined(parts.skip(1))
    }
}

/// A run after all pieces were fed, one call each.
pub open spec fn fed(r: Run, pieces: Seq<Seq<u8>>) -> Run
    decreases pieces.len(),
{
    if pieces.len() == 0 {
        r
    } else {
        fed(r.feed(pieces[0]), pieces.skip(1))
    }
}

/// Pieces without bytes do nothing.
pub proof fn lemma_fed_nothing(r: Run, pieces: Seq<Seq<u8>>)
    requires
        r.step() == r,
        r.z.state != State::SendOpening,
        r.z.state != State::Idle,
        joined(pieces).len() == 0,
    ensures
        fed(r, pieces) == r,
    decreases pieces.len(),
{
    if pieces.len() > 0 {
        assert(pieces[0].len() == 0);
        assert(r.z.buf + pieces[0] =~= r.z.buf);
        assert(r.to(r.z.with_buf(r.z.buf + pieces[0])) == r);
        assert(r.feed(pieces[0]) == r) by {
            reveal(Run::steps);
            reveal(Run::settle);
        }
        lemma_fed_nothing(r, pieces.skip(1));
    }
}

/// After `c` cancel characters, no two of them are next to each other in `s`.
spec fn apart(c: u8, s: Seq<u8>) -> bool {
    &&& c <= 1
    &&& c == 1 ==> s.len() == 0 || s[0] != CAN
    &&& forall|i: int, j: int|
        0 <= i && j == i + 1 && j < s.len() ==> #[trigger] s[i] != CAN || #[trigger] s[j] != CAN
}

proof fn lemma_clean_is_apart(s: Seq<u8>)
    requires
        crate::laws::data::clean(s),
    ensures
        apart(0, s),
{
    assert forall|i: int, j: int| 0 <= i && j == i + 1 && j < s.len() implies #[trigger] s[i] != CAN
        || #[trigger] s[j] != CAN by {
        lemma_clean_apart(s, i);
    }
}

proof fn lemma_apart_take(c: u8, s: Seq<u8>, b: Seq<u8>)
    requires
        apart(c, s + b),
    ensures
        apart(c, s),
{
    let all = s + b;
    assert(s.len() > 0 ==> s[0] == all[0]);
    assert forall|i: int, j: int| 0 <= i && j == i + 1 && j < s.len() implies #[trigger] s[i] != CAN
        || #[trigger] s[j] != CAN by {
        assert(all[i] != CAN || all[j] != CAN);
    }
}

proof fn lemma_apart_skip(c: u8, s: Seq<u8>)
    requires
        apart(c, s),
        s.len() > 0,
    ensures
        apart(crate::protocol::cancels_after(c, s[0]) as u8, s.skip(1)),
{
    let u = s.skip(1);
    assert(u.len() > 0 ==> s[0] != CAN || s[1] != CAN);
    assert forall|i: int, j: int| 0 <= i && j == i + 1 && j < u.len() implies #[trigger] u[i] != CAN
        || #[trigger] u[j] != CAN by {
        assert(s[i + 1] != CAN || s[j + 1] != CAN);
    }
}

proof fn lemma_apart_not_due(z: Session)
    requires
        apart(z.can_count, z.buf),
        z.buf.len() > 0,
    ensures
        !z.fifth_due(),
{
    crate::protocol::lemma_fifth_due(z);
    assert(z.buf.len() > 1 ==> z.buf[0] != CAN || z.buf[1] != CAN);
}

/// Bytes of a subpacket that do not finish it may be read first.
proof fn lemma_data_pieces(r: Run, b: Seq<u8>)
    requires
        r.step_data().out == r.out,
        apart(r.z.can_count, r.z.buf + b),
    ensures
        r.step_data().z.buf.len() == 0,
        r.step_data().z.state == r.z.state,
        r.step_data().z.in_data_frame == r.z.in_data_frame,
        r.step_data().z.pending_zfile == r.z.pending_zfile,
        r.to(r.z.with_buf(r.z.buf + b)).step_data() == r.step_data().to(
            r.step_data().z.with_buf(b),
        ).step_data(),
    decreases r.z.buf.len(),
{
    let s = r.z.buf;
    let all = r.to(r.z.with_buf(s + b));
    if s.len() == 0 {
        assert(s + b =~= b);
        assert(r.step_data() == r) by {
            reveal(Run::step_data);
        }
    } else {
        assert((s + b)[0] == s[0]);
        lemma_apart_take(r.z.can_count, s, b);
        lemma_apart_not_due(r.z);
        lemma_apart_not_due(all.z);
        lemma_apart_skip(r.z.can_count, s + b);
        crate::protocol::lemma_data_byte(r);
        crate::protocol::lemma_data_byte(all);
        let next = r.to(r.z.sp_byte());
        assert((s + b).skip(1) =~= s.skip(1) + b);
        assert(all.to(all.z.sp_byte()) == next.to(next.z.with_buf(next.z.buf + b)));
        crate::laws::kept::lemma_finish_grows(next);
        lemma_data_pieces(next, b);
    }
}

/// File data are due, none are begun, and no bytes are at hand.
pub open spec fn awaits_data(z: Session) -> bool {
    &&& z.state == State::Receiving
    &&& z.in_data_frame
    &&& z.recv_open
    &&& !z.pending_zfile
    &&& z.can_count == 0
    &&& z.buf.len() == 0
    &&& crate::laws::data::no_subpacket(z)
}

/// The receiver after the start `x` of a subpacket.
spec fn midway(r: Run, x: Seq<u8>) -> Run {
    r.to(r.z.with_buf(x)).step_data()
}

/// The next piece `y` of the subpacket `x + y + ..`.
proof fn lemma_data_piece(r: Run, x: Seq<u8>, y: Seq<u8>)
    requires
        awaits_data(r.z),
        crate::laws::data::clean(x + y),
        midway(r, x).out == r.out,
        midway(r, x + y).z.buf.len() == 0,
        y.len() > 0 || x.len() == 0,
        y.len() == 0 ==> midway(r, x + y).out == r.out,
    ensures
        midway(r, x).feed(y) == midway(r, x + y),
{
    let m = midway(r, x);
    let a = r.to(r.z.with_buf(x));
    lemma_clean_is_apart(x + y);
    lemma_data_pieces(a, y);
    assert(m.z.buf + y =~= y);
    let b = m.to(m.z.with_buf(y));
    if y.len() == 0 {
        assert(x + y =~= x);
        assert(m.z.buf =~= y);
        lemma_step_nothing(m);
    } else {
        assert(b.step() == b.step_data()) by {
            reveal(Run::step);
            reveal(Run::dispatch);
        }
        lemma_settle_once(b);
    }
}

/// All pieces of a subpacket `t` of which `x` has been fed.
proof fn lemma_data_fed(r: Run, t: Seq<u8>, x: Seq<u8>, pieces: Seq<Seq<u8>>)
    requires
        awaits_data(r.z),
        crate::laws::data::clean(t),
        x + joined(pieces) == t,
        x.len() < t.len(),
        crate::decode::raw_of(t, crate::protocol::crc_len(r.z.sp_wide)) matches Some(raw)
            && raw.used == t.len(),
        midway(r, t).z.buf.len() == 0,
        midway(r, t).step() == midway(r, t),
        midway(r, t).z.state == State::Receiving,
    ensures
        fed(midway(r, x), pieces) == midway(r, t),
    decreases pieces.len(),
{
    let y = pieces[0];
    let rest = pieces.skip(1);
    assert(pieces.len() > 0);
    let z = x + y;
    assert(z + joined(rest) =~= t);
    assert(t.take(x.len() as int) =~= x);
    assert(t.take(z.len() as int) =~= z);
    lemma_part_waits(r, t, x.len() as int);
    lemma_clean_take(t, x.len() as int);
    lemma_clean_take(t, z.len() as int);
    lemma_clean_is_apart(x);
    lemma_clean_is_apart(z);
    assert(x + Seq::<u8>::empty() =~= x);
    assert(z + Seq::<u8>::empty() =~= z);
    if z.len() < t.len() {
        lemma_part_waits(r, t, z.len() as int);
        lemma_data_pieces(r.to(r.z.with_buf(z)), Seq::empty());
        if y.len() == 0 {
            assert(z =~= x);
            lemma_data_pieces(r.to(r.z.with_buf(x)), Seq::empty());
            let m = midway(r, x);
            assert(m.z.buf + y =~= m.z.buf);
            lemma_step_nothing(m);
        } else {
            lemma_data_piece(r, x, y);
        }
        lemma_data_fed(r, t, z, rest);
    } else {
        assert(z =~= t);
        lemma_data_piece(r, x, y);
        assert(joined(rest) =~= Seq::<u8>::empty());
        lemma_fed_nothing(midway(r, t), rest);
    }
}

/// The start of a subpacket causes nothing.
proof fn lemma_part_waits(r: Run, t: Seq<u8>, k: int)
    requires
        awaits_data(r.z),
        crate::laws::data::clean(t),
        0 <= k < t.len(),
        crate::decode::raw_of(t, crate::protocol::crc_len(r.z.sp_wide)) matches Some(raw)
            && raw.used == t.len(),
    ensures
        midway(r, t.take(k)).out == r.out,
{
    let x = t.take(k);
    let len = crate::protocol::crc_len(r.z.sp_wide);
    if crate::decode::raw_of(x, len) is Some {
        crate::decode::raw_stable(x, len, t.skip(k));
        crate::decode::lemma_raw_bound(x, len);
        assert(x + t.skip(k) =~= t);
    }
    lemma_clean_take(t, k);
    assert(x + Seq::<u8>::empty() =~= x);
    crate::laws::data::subpacket_is_decoded(r.to(r.z.with_buf(x)), x, Seq::empty());
}

/// The escaped bytes `t` without the flow control characters that the line has
/// put between them.
pub open spec fn stripped(t: Seq<u8>) -> Seq<u8>
    decreases t.len(),
{
    if t.len() == 0 {
        Seq::empty()
    } else if t[0] == ZDLE {
        if t.len() == 1 {
            t
        } else {
            seq![t[0], t[1]] + stripped(t.skip(2))
        }
    } else if crate::decode::is_flow(t[0]) {
        stripped(t.skip(1))
    } else {
        seq![t[0]] + stripped(t.skip(1))
    }
}

proof fn lemma_stripped_clean(t: Seq<u8>)
    requires
        crate::laws::data::clean(stripped(t)),
    ensures
        crate::laws::data::clean(t),
    decreases t.len(),
{
    let s = stripped(t);
    if t.len() > 0 {
        if t[0] == ZDLE {
            if t.len() > 1 {
                assert(s.skip(2) =~= stripped(t.skip(2)));
                lemma_stripped_clean(t.skip(2));
            }
        } else if crate::decode::is_flow(t[0]) {
            lemma_stripped_clean(t.skip(1));
        } else {
            assert(s.skip(1) =~= stripped(t.skip(1)));
            lemma_stripped_clean(t.skip(1));
        }
    }
}

proof fn lemma_stripped_values(t: Seq<u8>, need: nat)
    requires
        crate::laws::data::clean(t),
        crate::decode::values_of(stripped(t), need) is Some,
    ensures
        ({
            let (v, m) = crate::decode::values_of(stripped(t), need)->0;
            &&& crate::decode::values_of(t, need) matches Some((w, n))
            &&& w == v
            &&& n <= t.len()
            &&& stripped(t.skip(n as int)) == stripped(t).skip(m as int)
        }),
    decreases t.len(),
{
    let s = stripped(t);
    if need == 0 {
        assert(t.skip(0) =~= t);
        assert(s.skip(0) =~= s);
    } else if t.len() > 0 {
        if t[0] == ZDLE {
            if t.len() > 1 {
                let u = t.skip(2);
                assert(s.skip(2) =~= stripped(u));
                lemma_stripped_values(u, (need - 1) as nat);
                let (w, n) = crate::decode::values_of(u, (need - 1) as nat)->0;
                let (v, m) = crate::decode::values_of(stripped(u), (need - 1) as nat)->0;
                crate::decode::lemma_values_bound(stripped(u), (need - 1) as nat);
                assert(u.skip(n as int) =~= t.skip(n as int + 2));
                assert(stripped(u).skip(m as int) =~= s.skip(m as int + 2));
            }
        } else {
            let u = t.skip(1);
            if crate::decode::is_flow(t[0]) {
                lemma_stripped_values(u, need);
                let (w, n) = crate::decode::values_of(u, need)->0;
                assert(u.skip(n as int) =~= t.skip(n as int + 1));
            } else {
                assert(s.skip(1) =~= stripped(u));
                lemma_stripped_values(u, (need - 1) as nat);
                let (w, n) = crate::decode::values_of(u, (need - 1) as nat)->0;
                let (v, m) = crate::decode::values_of(stripped(u), (need - 1) as nat)->0;
                crate::decode::lemma_values_bound(stripped(u), (need - 1) as nat);
                assert(u.skip(n as int) =~= t.skip(n as int + 1));
                assert(stripped(u).skip(m as int) =~= s.skip(m as int + 1));
            }
        }
    }
}

proof fn lemma_stripped_body(t: Seq<u8>)
    requires
        crate::laws::data::clean(t),
        crate::decode::body_of(stripped(t)) is Some,
    ensures
        ({
            let (d, e, m) = crate::decode::body_of(stripped(t))->0;
            &&& crate::decode::body_of(t) matches Some((dd, ee, n))
            &&& dd == d
            &&& ee == e
            &&& n <= t.len()
            &&& stripped(t.skip(n as int)) == stripped(t).skip(m as int)
            &&& crate::laws::data::clean(t.skip(n as int))
        }),
    decreases t.len(),
{
    let s = stripped(t);
    if t.len() > 0 {
        if t[0] == ZDLE {
            if t.len() > 1 {
                let u = t.skip(2);
                assert(s.skip(2) =~= stripped(u));
                if !crate::decode::is_end(t[1]) {
                    lemma_stripped_body(u);
                    let (dd, ee, n) = crate::decode::body_of(u)->0;
                    let (d, e, m) = crate::decode::body_of(stripped(u))->0;
                    crate::decode::lemma_body_bound(stripped(u));
                    assert(u.skip(n as int) =~= t.skip(n as int + 2));
                    assert(stripped(u).skip(m as int) =~= s.skip(m as int + 2));
                }
            }
        } else {
            let u = t.skip(1);
            if crate::decode::is_flow(t[0]) {
                lemma_stripped_body(u);
                let (dd, ee, n) = crate::decode::body_of(u)->0;
                assert(u.skip(n as int) =~= t.skip(n as int + 1));
            } else {
                assert(s.skip(1) =~= stripped(u));
                lemma_stripped_body(u);
                let (dd, ee, n) = crate::decode::body_of(u)->0;
                let (d, e, m) = crate::decode::body_of(stripped(u))->0;
                crate::decode::lemma_body_bound(stripped(u));
                assert(u.skip(n as int) =~= t.skip(n as int + 1));
                assert(stripped(u).skip(m as int) =~= s.skip(m as int + 1));
            }
        }
    }
}

proof fn lemma_stripped_nothing(t: Seq<u8>)
    requires
        stripped(t).len() == 0,
        t.len() > 0,
    ensures
        crate::decode::is_flow(t.last()),
    decreases t.len(),
{
    if t.len() > 1 {
        lemma_stripped_nothing(t.skip(1));
    }
}

/// A disturbed subpacket is decoded as the undisturbed one.
proof fn lemma_stripped_raw(t: Seq<u8>, data: Seq<u8>, end: u8, sum: Seq<u8>, ctl: bool)
    requires
        crate::decode::is_end(end),
        t.len() > 0,
        !crate::decode::is_flow(t.last()),
        stripped(t) == crate::laws::data::framed(data, end, sum, ctl),
    ensures
        crate::laws::data::clean(t),
        crate::decode::raw_of(t, sum.len()) == Some(
            crate::decode::RawView { data, end, crc: sum, used: t.len() },
        ),
{
    let s = stripped(t);
    lemma_clean_framed(data, end, sum, ctl);
    lemma_stripped_clean(t);
    lemma_framed_raw(data, end, sum, ctl);
    crate::decode::lemma_body_bound(s);
    lemma_stripped_body(t);
    let (d, e, m) = crate::decode::body_of(s)->0;
    let (dd, ee, n) = crate::decode::body_of(t)->0;
    let u = t.skip(n as int);
    lemma_stripped_values(u, sum.len());
    let (v, m2) = crate::decode::values_of(stripped(u), sum.len())->0;
    let (w, n2) = crate::decode::values_of(u, sum.len())->0;
    let rest = u.skip(n2 as int);
    assert(stripped(rest).len() == 0);
    if rest.len() > 0 {
        lemma_stripped_nothing(rest);
        assert(rest.last() == t.last());
    }
}

/// A subpacket is stored as it was sent, in whatever pieces it comes and
/// wherever the line puts flow control characters into it: not right after a
/// `ZDLE`, which they would be part of, and not behind it.
pub proof fn disturbed_data_are_stored(
    r: Run,
    data: Seq<u8>,
    end: u8,
    flags: u32,
    t: Seq<u8>,
    pieces: Seq<Seq<u8>>,
)
    requires
        r.z.wf(),
        awaits_data(r.z),
        crate::decode::is_end(end),
        crate::frame::wide(flags) == r.z.sp_wide,
        stripped(t) == crate::frame::subpacket_of(data, end, flags),
        t.len() > 0,
        !crate::decode::is_flow(t.last()),
        joined(pieces) == t,
    ensures
        fed(r, pieces) == (Run {
            z: crate::laws::data::moved(r.z, data, end),
            out: r.out + crate::laws::data::taken(r.z, data, end),
        }),
{
    let none = Seq::<u8>::empty();
    let sum = crate::frame::check_of(data.push(end), r.z.sp_wide);
    let ctl = crate::frame::escapes_controls(flags);
    assert(stripped(t) == crate::laws::data::framed(data, end, sum, ctl));
    lemma_stripped_raw(t, data, end, sum, ctl);
    let a = r.to(r.z.with_buf(t));
    assert(t + none =~= t);
    crate::laws::data::subpacket_is_decoded(a, t, none);
    assert(t.skip(t.len() as int) + none =~= none);
    crate::laws::data::lemma_intact_is_stored(a, data, end, none);
    assert(r.z.buf =~= none);
    let f = midway(r, t);
    assert(f.z =~= crate::laws::data::moved(r.z, data, end));
    lemma_step_nothing(f);
    assert(midway(r, none) == r) by {
        reveal(Run::step_data);
    }
    assert(none + joined(pieces) =~= t);
    lemma_data_fed(r, t, none, pieces);
}

/// Bytes that are not disturbed are stripped of nothing.
proof fn lemma_stripped_same(s: Seq<u8>, before: u8, ctl: bool, tail: Seq<u8>)
    requires
        stripped(tail) == tail,
    ensures
        stripped(crate::frame::escape(s, before, ctl) + tail) == crate::frame::escape(
            s,
            before,
            ctl,
        ) + tail,
    decreases s.len(),
{
    let e = crate::frame::escape(s, before, ctl) + tail;
    if s.len() == 0 {
        assert(e =~= tail);
    } else {
        crate::round_trip::lemma_escape_front(s, before, ctl);
        crate::round_trip::lemma_escape_unit(s[0], before, ctl);
        let unit = crate::frame::escape_byte(s[0], before, ctl);
        let rest = crate::frame::escape(s.skip(1), s[0], ctl) + tail;
        assert(e =~= unit + rest);
        lemma_stripped_same(s.skip(1), s[0], ctl, tail);
        assert(e.skip(unit.len() as int) =~= rest);
        assert(e[0] == unit[0]);
        if unit.len() == 2 {
            assert(e[1] == unit[1]);
            assert(seq![e[0], e[1]] + rest =~= e);
        } else {
            assert(seq![e[0]] + rest =~= e);
        }
    }
}

/// File data may come in any pieces.
pub proof fn data_in_pieces(r: Run, data: Seq<u8>, end: u8, flags: u32, pieces: Seq<Seq<u8>>)
    requires
        r.z.wf(),
        awaits_data(r.z),
        crate::decode::is_end(end),
        crate::frame::wide(flags) == r.z.sp_wide,
        joined(pieces) == crate::frame::subpacket_of(data, end, flags),
    ensures
        fed(r, pieces) == (Run {
            z: crate::laws::data::moved(r.z, data, end),
            out: r.out + crate::laws::data::taken(r.z, data, end),
        }),
{
    let none = Seq::<u8>::empty();
    let s = crate::frame::subpacket_of(data, end, flags);
    let sum = crate::frame::check_of(data.push(end), crate::frame::wide(flags));
    let ctl = crate::frame::escapes_controls(flags);
    let c = crate::frame::escape(sum, end, ctl);
    lemma_stripped_same(sum, end, ctl, none);
    assert(c + none =~= c);
    let t = seq![ZDLE, end] + c;
    assert(t.skip(2) =~= c);
    assert(seq![t[0], t[1]] + c =~= t);
    lemma_stripped_same(data, 0, ctl, t);
    assert(s =~= crate::frame::escape(data, 0, ctl) + t);
    lemma_last_no_flow(sum, end, ctl);
    assert(s.last() == c.last());
    disturbed_data_are_stored(r, data, end, flags, s, pieces);
}

/// The escaped form of some bytes does not end with a flow control character.
proof fn lemma_last_no_flow(s: Seq<u8>, before: u8, ctl: bool)
    requires
        s.len() > 0,
    ensures
        crate::frame::escape(s, before, ctl).len() > 0,
        !crate::decode::is_flow(crate::frame::escape(s, before, ctl).last()),
{
    let b = s.last();
    let last = crate::frame::prior(s, before);
    crate::round_trip::lemma_escape_unit(b, last, ctl);
    assert((b == 0x10 || b == 0x90 || b == 0x11 || b == 0x91 || b == 0x13 || b == 0x93 || b == 0x18
        || b & 0x7f == 0x0d || b & 0x60 == 0) ==> b ^ 0x40 != 0x11 && b ^ 0x40 != 0x13 && b ^ 0x40
        != 0x91 && b ^ 0x40 != 0x93) by (bit_vector);
    let unit = crate::frame::escape_byte(b, last, ctl);
    assert(crate::frame::escape(s, before, ctl).last() == unit.last());
}

} // verus!
