//! Events are never taken back: whatever happens, the list only grows.

use vstd::prelude::*;

use crate::event::EventView;
use crate::frame::{HeaderView, ZPAD};
use crate::protocol::{BinView, Run, Session, State};

verus! {

/// The list `after` begins with the events of `before`.
pub open spec fn grown(before: Seq<EventView>, after: Seq<EventView>) -> bool {
    &&& before.len() <= after.len()
    &&& after.take(before.len() as int) == before
}

proof fn lemma_grown_joins(a: Seq<EventView>, b: Seq<EventView>, c: Seq<EventView>)
    requires
        grown(a, b),
        grown(b, c),
    ensures
        grown(a, c),
{
    assert(c.take(b.len() as int).take(a.len() as int) =~= c.take(a.len() as int));
}

proof fn lemma_grown_same(a: Seq<EventView>)
    ensures
        grown(a, a),
{
    assert(a.take(a.len() as int) =~= a);
}

proof fn lemma_grown_emit(r: Run, e: EventView)
    ensures
        grown(r.out, r.emit(e).out),
{
    assert(r.emit(e).out.take(r.out.len() as int) =~= r.out);
}

proof fn lemma_cancelled_grows(r: Run)
    ensures
        grown(r.out, r.cancelled().out),
{
    reveal(Run::cancelled);
    assert(r.cancelled().out.take(r.out.len() as int) =~= r.out);
}

proof fn lemma_pending_grows(r: Run)
    ensures
        grown(r.out, r.on_pending().out),
{
    lemma_cancelled_grows(r);
    reveal(Run::on_pending);
    lemma_grown_same(r.out);
    match crate::decode::raw_of(r.z.buf, crate::protocol::crc_len(r.z.sp_wide)) {
        Some(raw) => {
            let (name, size) = crate::text::offer_of(raw.data);
            lemma_grown_emit(r, EventView::RecvOffer { name, size });
        },
        None => {},
    }
}

proof fn lemma_header_grows(r: Run, h: HeaderView)
    ensures
        grown(r.out, r.on_header(h).out),
{
    lemma_pending_grows(
        r.to(
            Session {
                can_count: 0,
                farewell: false,
                in_data_frame: false,
                sp_wide: h.enc == crate::frame::ZBIN32,
                state: State::RecvWaitFile,
                pending_zfile: true,
                ..r.z
            },
        ),
    );
    let q = r.on_header(h).out;
    assert(q.len() >= r.out.len() && q.take(r.out.len() as int) =~= r.out) by {
        reveal(Run::heard);
    }
}

pub proof fn lemma_finish_grows(r: Run)
    ensures
        grown(r.out, r.finish_subpacket().out),
        r.finish_subpacket().out.len() > r.out.len(),
{
    reveal(Run::finish_subpacket);
    assert(r.finish_subpacket().out.take(r.out.len() as int) =~= r.out);
}

pub proof fn lemma_data_grows(r: Run)
    ensures
        grown(r.out, r.step_data().out),
    decreases r.z.buf.len(),
{
    if r.z.buf.len() == 0 {
        reveal(Run::step_data);
        lemma_grown_same(r.out);
    } else {
        crate::protocol::lemma_data_byte(r);
        if r.z.fifth_due() {
            assert(r.aborted(5 - r.z.can_count).out.take(r.out.len() as int) =~= r.out);
        } else {
            let next = r.to(r.z.sp_byte());
            lemma_finish_grows(next);
            lemma_data_grows(next);
        }
    }
}

proof fn lemma_frame_grows(r: Run)
    ensures
        grown(r.out, r.step_frame().out),
    decreases r.z.buf.len(),
{
    let s = r.z.buf;
    if s.len() == 0 || s[0] == ZPAD {
        lemma_start_grows(r);
        crate::protocol::lemma_frame_start(r);
    } else {
        crate::protocol::lemma_frame_byte(r);
        let n = crate::protocol::cancels_after(r.z.can_count, s[0]);
        if n >= 5 {
            assert(r.aborted(0).out.take(r.out.len() as int) =~= r.out);
        } else {
            lemma_frame_grows(r.to(Session { can_count: n as u8, ..r.z.past(1) }));
        }
    }
}

proof fn lemma_start_grows(r: Run)
    ensures
        grown(r.out, r.step_header().out),
{
    lemma_grown_same(r.out);
    let s = r.z.buf;
    if s.len() >= 18 && crate::protocol::hex_header_in(s) is Some {
        lemma_header_grows(
            r.to(r.z.with_buf(crate::protocol::after_eol(s.skip(18)))),
            crate::protocol::hex_header_in(s)->0,
        );
    }
    lemma_cancelled_grows(r);
    reveal(Run::step_header);
    reveal(Run::step_bin);
    match crate::protocol::bin_header_in(s.skip(3), s[2]) {
        BinView::Whole(h, n) => lemma_header_grows(r.to(r.z.past(3 + n as int)), h),
        BinView::Damaged(n) => {
            let w = crate::frame::hex_header_of(crate::frame::ZNAK, crate::protocol::zeros());
            lemma_grown_emit(r, EventView::Write(w));
        },
        BinView::Partial => {},
    }
}

proof fn lemma_signature_grows(r: Run)
    ensures
        grown(r.out, r.step_signature().out),
{
    lemma_grown_same(r.out);
    let s = r.z.buf;
    if s.len() >= 18 {
        match crate::protocol::hex_header_in(s) {
            Some(h) => lemma_header_grows(
                r.to(r.z.with_buf(crate::protocol::after_eol(s.skip(18)))),
                h,
            ),
            None => lemma_grown_emit(r, EventView::Forward(s.take(1))),
        }
    }
    reveal(Run::step_signature);
}

proof fn lemma_terminal_grows(r: Run)
    ensures
        grown(r.out, r.step_terminal().out),
{
    lemma_grown_same(r.out);
    let s = r.z.buf;
    match crate::protocol::find_signature(s) {
        None => lemma_grown_emit(r, EventView::Forward(s.take(s.len() - 3))),
        Some(p) => {
            lemma_grown_emit(r, EventView::Forward(s.take(p)));
            lemma_signature_grows(r);
            lemma_signature_grows(r.forward(p));
            lemma_grown_joins(r.out, r.forward(p).out, r.forward(p).step_signature().out);
        },
    }
    reveal(Run::step_terminal);
}

pub proof fn lemma_dispatch_grows(q: Run)
    ensures
        grown(q.out, q.dispatch().out),
{
    lemma_terminal_grows(q.to(q.z.after_farewell()));
    lemma_data_grows(q);
    lemma_frame_grows(q);
    reveal(Run::dispatch);
}

proof fn lemma_step_grows(r: Run)
    ensures
        grown(r.out, r.step().out),
{
    let q = if r.z.pending_zfile {
        r.on_pending()
    } else {
        r
    };
    lemma_grown_same(r.out);
    lemma_pending_grows(r);
    lemma_dispatch_grows(q);
    lemma_grown_joins(r.out, q.out, q.dispatch().out);
    lemma_grown_same(r.out);
    reveal(Run::step);
}

pub proof fn lemma_steps_grow(r: Run)
    requires
        r.z.wf(),
    ensures
        grown(r.out, r.steps().out),
    decreases r.z.buf.len(),
{
    reveal(Run::steps);
    lemma_step_grows(r);
    crate::protocol::lemma_step(r);
    if r.step().z.buf.len() < r.z.buf.len() {
        lemma_steps_grow(r.step());
        lemma_grown_joins(r.out, r.step().out, r.steps().out);
    }
}

proof fn lemma_settle_grows(r: Run)
    requires
        r.z.wf(),
    ensures
        grown(r.out, r.settle().out),
{
    reveal(Run::settle);
    let q = r.steps();
    lemma_steps_grow(r);
    lemma_grown_same(q.out);
    lemma_grown_emit(q, EventView::Forward(q.z.buf.take(q.z.buf.len() - 64)));
    lemma_grown_joins(r.out, q.out, r.settle().out);
}

/// Bytes that are fed take back no event.
pub proof fn feed_keeps_events(r: Run, data: Seq<u8>)
    requires
        r.z.wf(),
    ensures
        grown(r.out, r.feed(data).out),
{
    lemma_grown_same(r.out);
    lemma_settle_grows(r.to(r.z.with_buf(r.z.buf + data)));
}

/// Nor does any other call.
pub proof fn calls_keep_events(
    r: Run,
    path: Seq<char>,
    reason: Seq<char>,
    paths: Seq<Seq<char>>,
    name: Option<Seq<char>>,
    size: Option<u64>,
    reads: Seq<Seq<u8>>,
)
    requires
        r.z.wf(),
    ensures
        grown(r.out, r.accepted().out),
        grown(r.out, r.not_accepted(path, reason).out),
        grown(r.out, r.start_send(paths).out),
        grown(r.out, r.opened(name, size).out),
        grown(r.out, r.not_opened(reason).out),
        grown(r.out, r.cancel().out),
        grown(r.out, r.pump(reads).out),
{
    lemma_grown_same(r.out);
    let n = r.out.len() as int;
    assert(r.accepted().out.take(n) =~= r.out);
    assert(r.not_accepted(path, reason).out.take(n) =~= r.out);
    assert(r.start_send(paths).out.take(n) =~= r.out);
    assert(r.cancel().out.take(n) =~= r.out);
    assert(r.pump(reads).out.take(n) =~= r.out);
    lemma_opened_grows(r, name, size);
    lemma_not_opened_grows(r, reason);
}

proof fn lemma_opened_grows(r: Run, name: Option<Seq<char>>, size: Option<u64>)
    requires
        r.z.wf(),
    ensures
        grown(r.out, r.opened(name, size).out),
{
    lemma_grown_same(r.out);
    if r.z.state == State::SendOpening {
        let name = match name {
            Some(n) => n,
            None => "file"@,
        };
        let size = match size {
            Some(n) => n,
            None => 0,
        };
        let flags = r.z.peer_flags;
        let w = crate::frame::bin_header_of(
            crate::frame::ZFILE,
            crate::protocol::zeros(),
            flags,
        ) + crate::frame::subpacket_of(
            crate::text::offer_data(name, size),
            crate::frame::ZCRCW,
            flags,
        );
        let q = r.to(
            Session {
                send_open: true,
                send_name: name,
                send_size: size,
                send_pos: 0,
                state: State::SendWaitPos,
                ..r.z
            },
        ).write(w);
        lemma_grown_emit(r, EventView::Write(w));
        lemma_settle_grows(q);
        lemma_grown_joins(r.out, q.out, q.settle().out);
    }
}

proof fn lemma_not_opened_grows(r: Run, reason: Seq<char>)
    requires
        r.z.wf(),
    ensures
        grown(r.out, r.not_opened(reason).out),
{
    lemma_grown_same(r.out);
    if r.z.state == State::SendOpening {
        let q = r.error("cannot open "@ + r.z.files[r.z.file_idx] + ": "@ + reason).to(
            Session { file_idx: r.z.file_idx + 1, ..r.z },
        ).next_file(r.z.resume);
        assert(q.out.take(r.out.len() as int) =~= r.out);
        lemma_settle_grows(q);
        lemma_grown_joins(r.out, q.out, q.settle().out);
    }
}

} // verus!
