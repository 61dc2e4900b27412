//! Five cancel characters in a row end any transfer.

use vstd::prelude::*;

use crate::event::EventView;
use crate::frame::{CAN, ZDLE, ZHEX, ZPAD};
use crate::laws::line::{
    lemma_only_shown_joins, lemma_rest_step, lemma_rest_steps, lemma_shown_forward,
};
use crate::protocol::{BinView, Run, Session, State};

verus! {

/// The events of a session that the remote side ended.
pub open spec fn abort_told(out: Seq<EventView>) -> Seq<EventView> {
    out.push(EventView::Error("remote aborted the transfer"@)).push(EventView::Finished)
}

/// Five cancel characters.
pub open spec fn five_cancels() -> Seq<u8> {
    seq![CAN, CAN, CAN, CAN, CAN]
}

/// Nothing but cancel characters.
pub open spec fn all_cancel(s: Seq<u8>) -> bool {
    forall|i: int| 0 <= i < s.len() ==> #[trigger] s[i] == CAN
}

/// No star, which every header begins with.
pub open spec fn no_star(s: Seq<u8>) -> bool {
    forall|i: int| 0 <= i < s.len() ==> #[trigger] s[i] != ZPAD
}

/// Five cancel characters, and behind them what begins no header.
pub open spec fn calls_off(c: Seq<u8>) -> bool {
    &&& c.len() >= 5
    &&& all_cancel(c.take(5))
    &&& no_star(c)
}

proof fn lemma_calls_off(z: Session, c: Seq<u8>)
    requires
        calls_off(c),
        z.buf == c,
        z.can_count < 5,
    ensures
        z.fifth_due(),
{
    reveal(Session::fifth_due);
    assert forall|i: int| 0 <= i < 5 implies #[trigger] c[i] == CAN by {
        assert(c.take(5)[i] == CAN);
    }
}

/// The session has just been ended by the remote side, and what is left begins
/// no header.
spec fn over(q: Run, out: Seq<EventView>) -> bool {
    &&& crate::laws::line::at_rest(q.z)
    &&& no_star(q.z.buf)
    &&& q.out == abort_told(out)
}

/// The bytes at hand end the session.
spec fn ends(a: Run, out: Seq<EventView>) -> bool {
    &&& a.steps().z.state == State::Idle
    &&& crate::laws::line::only_shown(abort_told(out), a.steps().out)
}

proof fn lemma_over_is_plain(q: Run, out: Seq<EventView>)
    requires
        over(q, out),
    ensures
        crate::laws::line::no_header(q.z.buf),
{
    assert forall|p: int| !#[trigger] crate::protocol::signature_at(q.z.buf, p) by {
        if crate::protocol::signature_at(q.z.buf, p) {
            assert(q.z.buf[p] != ZPAD);
        }
    }
}

proof fn lemma_over_ends(q: Run, out: Seq<EventView>)
    requires
        over(q, out),
    ensures
        ends(q, out),
{
    lemma_over_is_plain(q, out);
    lemma_rest_steps(q);
}

/// What ends the session after one more step ends it.
proof fn lemma_ends_later(a: Run, out: Seq<EventView>)
    requires
        a.step().z.buf.len() < a.z.buf.len(),
        ends(a.step(), out),
    ensures
        ends(a, out),
{
    reveal(Run::steps);
}

/// What has ended the session has ended it for good.
proof fn lemma_ends_now(a: Run, out: Seq<EventView>)
    requires
        over(a.step(), out),
    ensures
        ends(a, out),
{
    reveal(Run::steps);
    if a.step().z.buf.len() < a.z.buf.len() {
        lemma_over_ends(a.step(), out);
    } else {
        let told = abort_told(out);
        assert(told.take(told.len() as int) =~= told);
    }
}

/// Where headers are looked for in a transfer, cancel characters end it if
/// together with those counted before they are five.
proof fn lemma_cancel_frame(r: Run)
    requires
        r.z.can_count < 5,
        r.z.fifth_due(),
        no_star(r.z.buf),
    ensures
        over(r.step_frame(), r.out),
        r.step_frame().z.buf.len() <= r.z.buf.len(),
    decreases r.z.buf.len(),
{
    reveal(Session::fifth_due);
    assert(r.z.buf[0] == CAN);
    crate::protocol::lemma_frame_byte(r);
    let n = crate::protocol::cancels_after(r.z.can_count, CAN);
    if n >= 5 {
        assert(r.aborted(0).out =~= abort_told(r.out));
    } else {
        let next = r.to(Session { can_count: n as u8, ..r.z.past(1) });
        assert forall|i: int| 0 <= i < 5 - next.z.can_count implies #[trigger] next.z.buf[i]
            == CAN by {
            assert(r.z.buf[i + 1] == CAN);
        }
        lemma_cancel_frame(next);
    }
}

/// Where file data are due, cancel characters end the transfer if together
/// with those counted before they are five.
proof fn lemma_cancel_data(r: Run)
    requires
        r.z.can_count < 5,
        r.z.fifth_due(),
        no_star(r.z.buf),
    ensures
        over(r.step_data(), r.out),
        r.step_data().z.buf.len() < r.z.buf.len(),
{
    reveal(Session::fifth_due);
    crate::protocol::lemma_data_byte(r);
    assert(r.aborted(5 - r.z.can_count).out =~= abort_told(r.out));
}

/// Cancel characters after bytes that hold no five of them.
proof fn lemma_cancel_tail(s: Seq<u8>, c: Seq<u8>)
    requires
        calls_off(c),
        crate::protocol::find_cancels(s) is None,
    ensures
        ({
            let all = s + c;
            &&& crate::protocol::find_cancels(all) matches Some(p)
            &&& p <= s.len()
            &&& p + 5 <= all.len()
            &&& no_star(all.skip(p + 4))
        }),
{
    let all = s + c;
    crate::protocol::lemma_find_cancels(s);
    crate::protocol::lemma_find_cancels(all);
    assert(crate::protocol::cancels_at(all, s.len() as int)) by {
        assert forall|i: int| 0 <= i < 5 implies #[trigger] c[i] == CAN by {
            assert(c.take(5)[i] == CAN);
        }
        let k = s.len() as int;
        assert(all[k] == c[0] && all[k + 1] == c[1] && all[k + 2] == c[2]);
        assert(all[k + 3] == c[3] && all[k + 4] == c[4]);
    }
    let p = crate::protocol::find_cancels(all)->0;
    if p + 5 <= s.len() {
        assert(crate::protocol::cancels_at(s, p));
    }
    assert forall|i: int| 0 <= i < all.len() - (p + 4) implies #[trigger] all.skip(p + 4)[i]
        != ZPAD by {
        if p + 4 + i < s.len() {
            assert(all[p + i + 4] == CAN);
        } else {
            assert(all[p + i + 4] == c[p + i + 4 - s.len()]);
        }
    }
}

/// Cancel characters in the buffer end the transfer.
proof fn lemma_cancelled_ends(r: Run, s: Seq<u8>, c: Seq<u8>)
    requires
        calls_off(c),
        crate::protocol::find_cancels(s) is None,
        r.z.buf == s + c,
    ensures
        over(r.cancelled(), r.out),
        r.cancelled().z.buf.len() < r.z.buf.len(),
{
    lemma_cancel_tail(s, c);
    reveal(Run::cancelled);
    crate::protocol::lemma_find_cancels(r.z.buf);
    let p = crate::protocol::find_cancels(r.z.buf)->0;
    assert(r.aborted(p + 4).out =~= abort_told(r.out));
}

/// While a file subpacket is awaited.
proof fn lemma_pending_ends(r: Run, a: Run, c: Seq<u8>)
    requires
        calls_off(c),
        r.z.wf(),
        r.z.pending_zfile,
        r.step() == r,
        a == r.to(r.z.with_buf(r.z.buf + c)),
    ensures
        ends(a, r.out),
{
    let s = r.z.buf;
    let len = crate::protocol::crc_len(r.z.sp_wide);
    assert(crate::decode::raw_of(s, len) is None && crate::protocol::find_cancels(s) is None) by {
        lemma_pending_waits(r);
    }
    crate::decode::raw_reaches(s, len, c);
    lemma_cancel_tail(s, c);
    lemma_cancelled_ends(a, s, c);
    let q = a.cancelled();
    assert(a.on_pending() == q) by {
        reveal(Run::on_pending);
    }
    assert(a.step() == q.step()) by {
        reveal(Run::step);
    }
    lemma_over_is_plain(q, r.out);
    lemma_rest_step(q);
    lemma_over_ends(q, r.out);
    assert(q.steps() == a.steps()) by {
        reveal(Run::steps);
        if q.step().z.buf.len() >= q.z.buf.len() {
            lemma_quiet_step(q);
        }
    }
}

/// A step that uses no bytes up changes nothing, out of a transfer.
proof fn lemma_quiet_step(q: Run)
    requires
        crate::laws::line::at_rest(q.z),
        q.step().z.buf.len() >= q.z.buf.len(),
        no_star(q.z.buf),
    ensures
        q.step() == q,
        q.step().steps() == q.step(),
{
    assert(q.step() == q) by {
        reveal(Run::step);
        reveal(Run::dispatch);
        reveal(Run::step_terminal);
        crate::protocol::lemma_find_signature(q.z.buf);
        if let Some(p) = crate::protocol::find_signature(q.z.buf) {
            assert(crate::protocol::signature_at(q.z.buf, p));
            assert(q.z.buf[p] != ZPAD);
        }
    }
    reveal(Run::steps);
}

proof fn lemma_pending_waits(r: Run)
    requires
        r.z.wf(),
        r.z.pending_zfile,
        r.step() == r,
    ensures
        crate::decode::raw_of(r.z.buf, crate::protocol::crc_len(r.z.sp_wide)) is None,
        crate::protocol::find_cancels(r.z.buf) is None,
{
    let q = r.on_pending();
    crate::protocol::lemma_on_pending(r);
    crate::protocol::lemma_find_cancels(r.z.buf);
    crate::decode::lemma_raw_bound(r.z.buf, crate::protocol::crc_len(r.z.sp_wide));
    reveal(Run::step);
    reveal(Run::on_pending);
    reveal(Run::cancelled);
    if !q.z.pending_zfile {
        crate::laws::kept::lemma_dispatch_grows(q);
        assert(q.out.len() > r.out.len());
    }
}

/// Where headers are looked for: the start of one may be at hand.
proof fn lemma_frame_ends(a: Run, s: Seq<u8>, c: Seq<u8>)
    requires
        calls_off(c),
        a.z.wf(),
        crate::laws::line::listens(a.z),
        a.z.state != State::Idle,
        a.z.buf == s + c,
        s.len() == 0 || s[0] == ZPAD,
        s.len() < 3 || (s.len() == 3 && s[1] == ZPAD && s[2] == ZDLE),
    ensures
        ends(a, a.out),
    decreases s.len(),
{
    assert(a.step() == a.step_frame()) by {
        reveal(Run::step);
        reveal(Run::dispatch);
    }
    if s.len() == 0 {
        assert(s + c =~= c);
        lemma_calls_off(a.z, c);
        lemma_cancel_frame(a);
        lemma_ends_now(a, a.out);
    } else {
        let b = a.to(a.z.dropped());
        crate::protocol::lemma_frame_start(a);
        assert(a.step_header() == b) by {
            reveal(Run::step_header);
            assert(c.take(5)[0] == CAN && c.take(5)[1] == CAN && c.take(5)[2] == CAN);
            let k = s.len() as int;
            assert(a.z.buf[k] == c[0] && a.z.buf[k + 1] == c[1] && a.z.buf[k + 2] == c[2]);
        }
        let t = s.skip(1);
        assert(b.z.buf =~= t + c);
        if t.len() == 0 || t[0] == ZPAD {
            lemma_frame_ends(b, t, c);
        } else {
            assert(b.step() == b.step_frame()) by {
                reveal(Run::step);
                reveal(Run::dispatch);
            }
            crate::protocol::lemma_frame_byte(b);
            let n = crate::protocol::cancels_after(0, t[0]);
            let d = b.to(Session { can_count: n as u8, ..b.z.past(1) });
            assert(d.z.buf =~= t.skip(1) + c);
            assert(d.z.buf =~= c);
            lemma_calls_off(d.z, c);
            lemma_cancel_frame(d);
            lemma_ends_now(b, a.out);
        }
        lemma_ends_later(a, a.out);
    }
}

/// Where a header has begun and is not whole.
proof fn lemma_partial_ends(r: Run, a: Run, c: Seq<u8>)
    requires
        calls_off(c),
        r.z.wf(),
        crate::laws::line::listens(r.z),
        r.z.state != State::Idle,
        r.z.buf.len() > 0,
        r.z.buf[0] == ZPAD,
        r.step_header() == r,
        a == r.to(r.z.with_buf(r.z.buf + c)),
        r.z.buf.len() > 3 || (r.z.buf.len() == 3 && r.z.buf[1] != ZPAD),
    ensures
        ends(a, r.out),
{
    let s = r.z.buf;
    let all = a.z.buf;
    assert(all[0] == s[0] && all[1] == s[1] && all[2] == s[2]);
    assert(a.step() == a.step_header()) by {
        crate::protocol::lemma_frame_start(a);
        reveal(Run::step);
        reveal(Run::dispatch);
    }
    lemma_partial_waits(r);
    lemma_cancel_tail(s, c);
    lemma_cancelled_ends(a, s, c);
    assert(a.step_header() == a.cancelled()) by {
        reveal(Run::step_header);
        reveal(Run::step_bin);
        if s[1] != ZPAD {
            assert(all.skip(3) =~= s.skip(3) + c);
            crate::decode::values_reach(s.skip(3), crate::protocol::bin_len(s[2]), c);
        } else {
            assert(all[3] == s[3]);
        }
    }
    lemma_ends_now(a, r.out);
}

proof fn lemma_partial_waits(r: Run)
    requires
        r.z.wf(),
        r.z.buf.len() > 3 || (r.z.buf.len() == 3 && r.z.buf[1] != ZPAD),
        r.z.buf[0] == ZPAD,
        r.step_header() == r,
    ensures
        crate::protocol::find_cancels(r.z.buf) is None,
        r.z.buf[1] == ZPAD ==> r.z.buf[2] == ZDLE && r.z.buf[3] == ZHEX && r.z.buf.len() < 18,
        r.z.buf[1] != ZPAD ==> r.z.buf[1] == ZDLE && (r.z.buf[2] == crate::frame::ZBIN
            || r.z.buf[2] == crate::frame::ZBIN32) && crate::protocol::bin_header_in(
            r.z.buf.skip(3),
            r.z.buf[2],
        ) is Partial,
{
    let s = r.z.buf;
    crate::laws::settled::lemma_cancelled_shrinks(r);
    crate::protocol::lemma_find_cancels(s);
    reveal(Run::step_header);
    if s[1] == ZPAD {
        if s.len() >= 18 && crate::protocol::hex_header_in(s) is Some {
            crate::protocol::lemma_take_hex(r, crate::protocol::hex_header_in(s)->0);
        }
    } else {
        reveal(Run::step_bin);
        crate::decode::lemma_values_bound(s.skip(3), crate::protocol::bin_len(s[2]));
        if let BinView::Whole(h, n) = crate::protocol::bin_header_in(s.skip(3), s[2]) {
            crate::protocol::lemma_on_header(r.to(r.z.past(3 + n as int)), h);
        }
    }
}

/// Five cancel characters end any transfer also where other bytes come with
/// them, as long as these begin no header: the session is told to have ended,
/// and all that may follow is text for the terminal.
pub proof fn calling_off_aborts(r: Run, c: Seq<u8>)
    requires
        r.z.wf(),
        r.z.state != State::Idle,
        r.z.state != State::SendOpening,
        r.step() == r,
        calls_off(c),
    ensures
        r.feed(c).z.state == State::Idle,
        crate::laws::line::only_shown(abort_told(r.out), r.feed(c).out),
{
    let s = r.z.buf;
    let a = r.to(r.z.with_buf(s + c));
    if r.z.pending_zfile {
        lemma_pending_ends(r, a, c);
    } else if r.z.state == State::Receiving && r.z.in_data_frame {
        assert(s.len() == 0) by {
            crate::protocol::lemma_step_data(r);
            reveal(Run::step);
            reveal(Run::dispatch);
        }
        assert(s + c =~= c);
        lemma_calls_off(a.z, c);
        lemma_cancel_data(a);
        assert(a.step() == a.step_data()) by {
            reveal(Run::step);
            reveal(Run::dispatch);
        }
        lemma_ends_now(a, r.out);
    } else {
        assert(r.step() == r.step_frame()) by {
            reveal(Run::step);
            reveal(Run::dispatch);
        }
        if s.len() > 0 && s[0] != ZPAD {
            if r.z.can_count == 4 && s[0] == CAN {
                crate::protocol::lemma_frame_byte(r);
                assert(r.aborted(0).out.len() > r.out.len());
            } else {
                crate::laws::settled::lemma_noise_is_used(r);
            }
        }
        crate::protocol::lemma_frame_start(r);
        if s.len() < 3 {
            lemma_frame_ends(a, s, c);
        } else if s.len() == 3 && s[1] == ZPAD {
            assert(s[2] == ZDLE) by {
                reveal(Run::step_header);
            }
            lemma_frame_ends(a, s, c);
        } else {
            lemma_partial_ends(r, a, c);
        }
    }
    let q = a.steps();
    let n = q.z.buf.len() - 64;
    assert(ends(a, r.out));
    reveal(Run::settle);
    if q.z.buf.len() > 8192 {
        lemma_shown_forward(q, n);
        lemma_only_shown_joins(abort_told(r.out), q.out, q.forward(n).out);
    }
}

/// Five cancel characters in a row end any transfer, whatever it waits for:
/// a header, the rest of one, a file subpacket, file data or their check. The
/// bytes at hand have been dealt with as far as they go, which is so whenever
/// bytes were fed.
pub proof fn five_cancels_abort(r: Run)
    requires
        r.z.wf(),
        r.z.state != State::Idle,
        r.z.state != State::SendOpening,
        r.step() == r,
    ensures
        r.feed(five_cancels()).z.state == State::Idle,
        crate::laws::line::only_shown(abort_told(r.out), r.feed(five_cancels()).out),
{
    calling_off_aborts(r, five_cancels());
}

/// What a side writes when its user gives up ends the session of the other
/// side, wherever that one is.
pub proof fn giving_up_reaches_peer(side: Run, peer: Run)
    requires
        side.z.state != State::Idle,
        peer.z.wf(),
        peer.z.state != State::Idle,
        peer.z.state != State::SendOpening,
        peer.step() == peer,
    ensures
        ({
            let told = side.cancel().out[side.out.len() as int];
            let q = peer.feed(told->Write_0);
            &&& told is Write
            &&& side.cancel().z.state == State::Idle
            &&& q.z.state == State::Idle
            &&& crate::laws::line::only_shown(abort_told(peer.out), q.out)
        }),
{
    let told = side.cancel().out[side.out.len() as int];
    assert(calls_off(told->Write_0));
    calling_off_aborts(peer, told->Write_0);
}

} // verus!
