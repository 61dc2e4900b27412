//! Bytes that are fed are dealt with as far as they go.

use vstd::prelude::*;

use crate::frame::{HeaderView, CAN, ZPAD};
use crate::protocol::{BinView, Run, Session, State};

verus! {

/// Cancel characters that end a session are used up.
pub proof fn lemma_cancelled_shrinks(r: Run)
    ensures
        crate::protocol::find_cancels(r.z.buf) is Some ==> r.cancelled().z.buf.len()
            < r.z.buf.len(),
{
    reveal(Run::cancelled);
    crate::protocol::lemma_find_cancels(r.z.buf);
}

/// The next byte is the fifth cancel character, and headers are looked for.
pub open spec fn poised(z: Session) -> bool {
    &&& crate::laws::line::listens(z)
    &&& z.state != State::Idle
    &&& z.can_count == 4
    &&& z.buf.len() > 0
    &&& z.buf[0] == CAN
}

/// Line noise is used up, but for a fifth cancel character.
pub proof fn lemma_noise_is_used(r: Run)
    requires
        r.z.wf(),
        r.z.state != State::Idle,
        r.z.buf.len() > 0,
        r.z.buf[0] != ZPAD,
        r.z.can_count != 4 || r.z.buf[0] != CAN,
    ensures
        r.step_frame().z.buf.len() < r.z.buf.len(),
{
    crate::protocol::lemma_frame_byte(r);
    let n = crate::protocol::cancels_after(r.z.can_count, r.z.buf[0]);
    crate::protocol::lemma_step_frame(r.to(Session { can_count: n as u8, ..r.z.past(1) }));
}

/// After a header no cancel characters are counted.
pub proof fn lemma_header_calms(r: Run, h: HeaderView)
    ensures
        r.on_header(h).z.can_count == 0,
{
    reveal(Run::heard);
    reveal(Run::on_pending);
    reveal(Run::cancelled);
}

proof fn lemma_frame_calm(r: Run)
    requires
        r.z.wf(),
        r.z.state != State::Idle,
    ensures
        !poised(r.step_frame().z),
    decreases r.z.buf.len(),
{
    let s = r.z.buf;
    if s.len() == 0 || s[0] == ZPAD {
        crate::protocol::lemma_frame_start(r);
        reveal(Run::step_header);
        reveal(Run::step_bin);
        reveal(Run::cancelled);
        if s.len() >= 18 && crate::protocol::hex_header_in(s) is Some {
            let q = r.to(r.z.with_buf(crate::protocol::after_eol(s.skip(18))));
            lemma_header_calms(q, crate::protocol::hex_header_in(s)->0);
        }
        if s.len() >= 3 {
            if let BinView::Whole(h, n) = crate::protocol::bin_header_in(s.skip(3), s[2]) {
                lemma_header_calms(r.to(r.z.past(3 + n as int)), h);
            }
        }
    } else {
        crate::protocol::lemma_frame_byte(r);
        let n = crate::protocol::cancels_after(r.z.can_count, s[0]);
        if n < 5 {
            lemma_frame_calm(r.to(Session { can_count: n as u8, ..r.z.past(1) }));
        }
    }
}

proof fn lemma_data_calm(r: Run)
    requires
        r.z.wf(),
        r.z.state == State::Receiving,
    ensures
        !poised(r.step_data().z),
    decreases r.z.buf.len(),
{
    if r.z.buf.len() == 0 {
        reveal(Run::step_data);
    } else {
        crate::protocol::lemma_data_byte(r);
        crate::protocol::lemma_fifth_due(r.z);
        if !r.z.fifth_due() {
            let next = r.to(r.z.sp_byte());
            if r.z.sp_end is Some && next.z.sp_crc.len() >= crate::protocol::crc_len(r.z.sp_wide) {
                assert(next.finish_subpacket().z.can_count == next.z.can_count
                    && next.finish_subpacket().z.buf == next.z.buf) by {
                    reveal(Run::finish_subpacket);
                }
                if next.z.can_count == 4 && next.z.buf.len() > 0 && next.z.buf[0] == CAN {
                    assert(r.z.buf[1] == CAN);
                }
            } else {
                lemma_data_calm(next);
            }
        }
    }
}

proof fn lemma_terminal_calm(r: Run)
    requires
        r.z.state == State::Idle,
    ensures
        !poised(r.step_terminal().z),
{
    reveal(Run::step_terminal);
    reveal(Run::step_signature);
    if let Some(p) = crate::protocol::find_signature(r.z.buf) {
        let m = if p > 0 {
            r.forward(p)
        } else {
            r
        };
        if m.z.buf.len() >= 18 && crate::protocol::hex_header_in(m.z.buf) is Some {
            let q = m.to(m.z.with_buf(crate::protocol::after_eol(m.z.buf.skip(18))));
            lemma_header_calms(q, crate::protocol::hex_header_in(m.z.buf)->0);
        }
    }
}

proof fn lemma_dispatch_calm(r: Run)
    requires
        r.z.wf(),
    ensures
        !poised(r.dispatch().z),
{
    reveal(Run::dispatch);
    if r.z.state == State::Idle {
        lemma_terminal_calm(r.to(r.z.after_farewell()));
    } else if r.z.state == State::Receiving && r.z.in_data_frame {
        lemma_data_calm(r);
    } else {
        lemma_frame_calm(r);
    }
}

/// No step leaves a fifth cancel character to the next one.
proof fn lemma_step_calm(r: Run)
    requires
        r.z.wf(),
    ensures
        !poised(r.step().z),
{
    reveal(Run::step);
    if r.z.state != State::SendOpening {
        if r.z.pending_zfile {
            crate::protocol::lemma_on_pending(r);
            lemma_dispatch_calm(r.on_pending());
        } else {
            lemma_dispatch_calm(r);
        }
    }
}

/// Out of a transfer a step uses bytes up or changes nothing.
proof fn lemma_terminal_settles(r: Run)
    requires
        r.z.wf(),
    ensures
        r.step_terminal().z.buf.len() <= r.z.buf.len(),
        r.step_terminal().z.buf.len() == r.z.buf.len() ==> r.step_terminal() == r
            && r.z.buf.len() < 18,
{
    crate::protocol::lemma_find_signature(r.z.buf);
    reveal(Run::step_terminal);
    reveal(Run::step_signature);
    if let Some(p) = crate::protocol::find_signature(r.z.buf) {
        let m = if p > 0 {
            r.forward(p)
        } else {
            r
        };
        if m.z.buf.len() >= 18 && crate::protocol::hex_header_in(m.z.buf) is Some {
            crate::protocol::lemma_take_hex(m, crate::protocol::hex_header_in(m.z.buf)->0);
        }
    }
}

/// Where a header is looked for a step uses bytes up or changes nothing.
proof fn lemma_header_settles(r: Run)
    requires
        r.z.wf(),
    ensures
        r.step_header().z.buf.len() <= r.z.buf.len(),
        r.step_header().z.buf.len() == r.z.buf.len() ==> r.step_header() == r,
{
    let s = r.z.buf;
    crate::protocol::lemma_step_header(r);
    lemma_cancelled_shrinks(r);
    crate::protocol::lemma_find_cancels(s);
    crate::protocol::lemma_no_cancels(r);
    reveal(Run::step_header);
    if s.len() >= 3 {
        if s[1] == ZPAD {
            if s.len() >= 18 && crate::protocol::hex_header_in(s) is Some {
                crate::protocol::lemma_take_hex(r, crate::protocol::hex_header_in(s)->0);
            }
        } else {
            reveal(Run::step_bin);
            crate::decode::lemma_values_bound(s.skip(3), crate::protocol::bin_len(s[2]));
            if let BinView::Whole(h, n) = crate::protocol::bin_header_in(s.skip(3), s[2]) {
                crate::protocol::lemma_on_header(r.to(r.z.past(3 + n as int)), h);
            }
        }
    }
}

proof fn lemma_idle_settles(r: Run)
    requires
        r.z.wf(),
        r.z.state == State::Idle,
    ensures
        r.step().z.buf.len() < r.z.buf.len() || (r.step().step() == r.step()
            && r.step().z.buf.len() < 18),
{
    let a = r.to(r.z.after_farewell());
    lemma_terminal_settles(a);
    assert(r.step() == a.step_terminal()) by {
        reveal(Run::step);
        reveal(Run::dispatch);
    }
    if a.step_terminal() == a {
        assert(a.step() == a) by {
            reveal(Run::step);
            reveal(Run::dispatch);
        }
    }
}

proof fn lemma_pending_settles(r: Run)
    requires
        r.z.wf(),
        r.z.pending_zfile,
    ensures
        r.step().z.buf.len() < r.z.buf.len() || r.step() == r,
{
    let q = r.on_pending();
    crate::protocol::lemma_on_pending(r);
    crate::protocol::lemma_dispatch(q);
    crate::decode::lemma_raw_bound(r.z.buf, crate::protocol::crc_len(r.z.sp_wide));
    lemma_cancelled_shrinks(r);
    crate::protocol::lemma_find_cancels(r.z.buf);
    crate::protocol::lemma_no_cancels(r);
    assert(q.z.buf.len() < r.z.buf.len() || q == r) by {
        reveal(Run::on_pending);
    }
    reveal(Run::step);
}

/// A step uses bytes up, or another one would change nothing.
proof fn lemma_step_settles(r: Run)
    requires
        r.z.wf(),
        !poised(r.z),
    ensures
        r.step().z.buf.len() < r.z.buf.len() || (r.step().step() == r.step() && (
        r.step().z.state == State::Idle ==> r.step().z.buf.len() < 18)),
{
    if r.z.state == State::SendOpening {
        reveal(Run::step);
    } else if r.z.pending_zfile {
        lemma_pending_settles(r);
    } else if r.z.state == State::Idle {
        lemma_idle_settles(r);
    } else if r.z.state == State::Receiving && r.z.in_data_frame {
        assert(r.step() == r.step_data()) by {
            reveal(Run::step);
            reveal(Run::dispatch);
        }
        crate::protocol::lemma_step_data(r);
        if r.z.buf.len() == 0 {
            crate::laws::line::lemma_step_nothing(r);
        }
    } else {
        assert(r.step() == r.step_frame()) by {
            reveal(Run::step);
            reveal(Run::dispatch);
        }
        if r.z.buf.len() > 0 && r.z.buf[0] != ZPAD {
            lemma_noise_is_used(r);
        } else {
            crate::protocol::lemma_frame_start(r);
            lemma_header_settles(r);
            crate::protocol::lemma_step_frame(r);
        }
    }
}

proof fn lemma_steps_settle(r: Run)
    requires
        r.z.wf(),
        !poised(r.z),
    ensures
        r.steps().step() == r.steps(),
        r.steps().z.state == State::Idle ==> r.steps().z.buf.len() < 18,
    decreases r.z.buf.len(),
{
    reveal(Run::steps);
    crate::protocol::lemma_step(r);
    lemma_step_settles(r);
    if r.step().z.buf.len() < r.z.buf.len() {
        lemma_step_calm(r);
        lemma_steps_settle(r.step());
    }
}

/// Once bytes are fed, nothing more can be done with those at hand: another
/// step changes nothing. It is otherwise only if the first of them is the
/// fifth cancel character where headers are looked for.
pub proof fn feed_settles(r: Run, data: Seq<u8>)
    requires
        r.z.wf(),
        !poised(r.z.with_buf(r.z.buf + data)),
    ensures
        r.feed(data).step() == r.feed(data),
{
    let a = r.to(r.z.with_buf(r.z.buf + data));
    lemma_steps_settle(a);
    reveal(Run::settle);
    if r.z.state == State::SendOpening {
        reveal(Run::step);
    }
}

/// If the first of the bytes at hand is the fifth cancel character where
/// headers are looked for, the session ends, and all of them wait for the next
/// ones, up to a bound.
pub proof fn fifth_cancel_is_left(r: Run, data: Seq<u8>)
    requires
        r.z.wf(),
        poised(r.z.with_buf(r.z.buf + data)),
    ensures
        ({
            let s = r.z.buf + data;
            let q = r.to(r.z.with_buf(s)).aborted(0);
            r.feed(data) == if s.len() > 8192 {
                q.forward(s.len() - 64)
            } else {
                q
            }
        }),
{
    let s = r.z.buf + data;
    let a = r.to(r.z.with_buf(s));
    assert(s.skip(0) =~= s);
    assert(a.step() == a.aborted(0)) by {
        crate::protocol::lemma_frame_byte(a);
        reveal(Run::step);
        reveal(Run::dispatch);
    }
    reveal(Run::steps);
    reveal(Run::settle);
}

/// Out of a transfer no more than seventeen bytes are kept back once bytes
/// were fed, but for those that the fifth cancel character leads.
pub proof fn idle_buffer_is_small(r: Run, data: Seq<u8>)
    requires
        r.z.wf(),
        !poised(r.z.with_buf(r.z.buf + data)),
        r.feed(data).z.state == State::Idle,
    ensures
        r.feed(data).z.buf.len() < 18,
{
    let a = r.to(r.z.with_buf(r.z.buf + data));
    lemma_steps_settle(a);
    reveal(Run::settle);
}

} // verus!
