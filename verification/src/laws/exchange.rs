//! A file goes from one engine to another, from the first word to the end.

use vstd::prelude::*;

use crate::event::EventView;
use crate::frame::{CANFC32, CANFDX, CANOVIO, ZDATA, ZRINIT, ZRPOS, ZRQINIT};
use crate::laws::line::{bin_header_is_heard, hex_header_is_heard, lemma_step_nothing};
use crate::laws::offer::offer_arrives;
use crate::laws::session::{receive_begins, send_begins};
use crate::laws::transfer::{lemma_stored_quiet, position_request_resyncs};
use crate::laws::upload::{
    lemma_fed_one, lemma_nothing_written, lemma_one_burst, lemma_taken_then_completed, pump_writes,
};
use crate::protocol::{Run, Session, State};

verus! {

/// The receiver of a file, once it has heard the offer and its user accepted.
pub open spec fn willing(s: Run, r: Run, name: Seq<char>, size: u64) -> Run {
    crate::laws::upload::hears(r, s, s.opened(Some(name), Some(size))).accepted()
}

/// A file from the offer to the end: the sender has opened a file of this name
/// and size, the receiver hears the offer and its user accepts, the sender
/// hears where to start, the receiver hears the answer, and then all that is
/// written while the file is read and pumped. Each side hears just what the
/// other one writes.
pub open spec fn delivered(
    s: Run,
    r: Run,
    name: Seq<char>,
    size: u64,
    batches: Seq<Seq<Seq<u8>>>,
) -> (Run, Run) {
    let s1 = s.opened(Some(name), Some(size));
    let r1 = willing(s, r, name, size);
    let s2 = crate::laws::upload::hears(s1, r, r1);
    let r2 = crate::laws::upload::hears(r1, s1, s2);
    crate::laws::upload::conveyed(s2, r2, batches)
}

/// The sender of a file, once its receiver has asked for the start.
pub open spec fn started(s: Run, name: Seq<char>, size: u64) -> Run {
    s.opened(Some(name), Some(size)).feed(
        crate::frame::hex_header_of(ZRPOS, crate::protocol::pos_data(0)),
    )
}

/// A whole file is received as it was read: once the sender has come to the
/// end, the receiver has stored just the bytes that were sent, and tells that
/// the file is done. Positions are sent with 32 bits, so the file is to end
/// below 4 GiB.
pub proof fn whole_file_is_received(
    s: Run,
    r: Run,
    name: Seq<char>,
    size: u64,
    batches: Seq<Seq<Seq<u8>>>,
)
    requires
        s.z.wf(),
        s.z.state == State::SendOpening,
        s.z.buf.len() == 0,
        r.z.wf(),
        r.z.state == State::RecvWaitFile || r.z.state == State::RecvWaitNext,
        !r.z.pending_zfile,
        r.z.buf.len() == 0,
        forall|i: int| 0 <= i < name.len() ==> #[trigger] name[i] != '\0',
        delivered(s, r, name, size, batches).0.z.state != State::Streaming,
        delivered(s, r, name, size, batches).0.z.send_pos <= u32::MAX,
    ensures
        ({
            let (p, q) = delivered(s, r, name, size, batches);
            &&& p.z.state == State::SendWaitEofAck
            &&& q.z.state == State::RecvWaitNext
            &&& crate::laws::transfer::stored(q.out) == crate::laws::transfer::stored(r.out)
                + crate::laws::transfer::sent(started(s, name, size), batches)
            &&& q.out.contains(
                EventView::Done { name: crate::text::base_of(name), dir: "down"@ },
            )
        }),
{
    let flags = s.z.peer_flags;
    let s2 = started(s, name, size);
    let r1 = r.feed(crate::laws::offer::offer_bytes(name, size, flags)).accepted();
    let r2 = r1.feed(crate::frame::bin_header_of(ZDATA, crate::protocol::pos_data(0), flags));
    lemma_delivery_starts(s, r, name, size);
    lemma_written_start(s, r, name, size);
    lemma_conveyed(s2, r2, batches);
    let q = delivered(s, r, name, size, batches).1;
    assert(q.out[q.out.len() - 2] == EventView::Done {
        name: crate::text::base_of(name),
        dir: "down"@,
    });
}

/// However much of the file the batches hold, what was sent arrives.
proof fn lemma_conveyed(s: Run, r: Run, batches: Seq<Seq<Seq<u8>>>)
    requires
        crate::laws::transfer::in_step(s.z, r.z),
        crate::laws::upload::conveyed(s, r, batches).0.z.state != State::Streaming,
        crate::laws::upload::conveyed(s, r, batches).0.z.send_pos <= u32::MAX,
    ensures
        ({
            let (p, q) = crate::laws::upload::conveyed(s, r, batches);
            &&& p.z.state == State::SendWaitEofAck
            &&& q.z.state == State::RecvWaitNext
            &&& crate::laws::transfer::stored(q.out) == crate::laws::transfer::stored(r.out)
                + crate::laws::transfer::sent(s, batches)
            &&& crate::laws::upload::completed(r, q)
        }),
    decreases batches.len(),
{
    let reads = batches[0];
    let rest = batches.skip(1);
    let p = s.pump(reads);
    let q = crate::laws::upload::hears(r, s, p);
    let here = crate::laws::pieces::joined(crate::laws::transfer::sent_of(s, reads));
    assert(crate::laws::upload::conveyed(s, r, batches) == crate::laws::upload::conveyed(
        p,
        q,
        rest,
    ));
    assert(crate::laws::transfer::stored(r.out) + here + crate::laws::transfer::sent(p, rest)
        =~= crate::laws::transfer::stored(r.out) + crate::laws::transfer::sent(s, batches));
    pump_writes(s, reads);
    if p.z.state == State::Streaming {
        lemma_one_burst(s, r, reads);
        lemma_conveyed(p, q, rest);
        lemma_taken_then_completed(r, q, crate::laws::upload::conveyed(p, q, rest).1);
    } else {
        assert(crate::laws::upload::conveyed(p, q, rest) == (p, q));
        lemma_one_burst(s, r, reads);
        assert(crate::laws::transfer::sent(p, rest) =~= Seq::<u8>::empty());
        assert(crate::laws::transfer::stored(r.out) + here + crate::laws::transfer::sent(p, rest)
            =~= crate::laws::transfer::stored(r.out) + here);
    }
}

/// What is written until the file is read: the offer, the request for the
/// start and the answer.
pub proof fn lemma_written_start(s: Run, r: Run, name: Seq<char>, size: u64)
    requires
        s.z.wf(),
        s.z.state == State::SendOpening,
        s.z.buf.len() == 0,
        r.z.wf(),
        r.z.state == State::RecvWaitFile || r.z.state == State::RecvWaitNext,
        !r.z.pending_zfile,
        r.z.buf.len() == 0,
        forall|i: int| 0 <= i < name.len() ==> #[trigger] name[i] != '\0',
    ensures
        ({
            let flags = s.z.peer_flags;
            let start = crate::protocol::pos_data(0);
            let s1 = s.opened(Some(name), Some(size));
            let r1 = willing(s, r, name, size);
            let s2 = started(s, name, size);
            let r2 = r1.feed(crate::frame::bin_header_of(ZDATA, start, flags));
            &&& r1 == r.feed(crate::laws::offer::offer_bytes(name, size, flags)).accepted()
            &&& crate::laws::upload::hears(s1, r, r1) == s2
            &&& crate::laws::upload::hears(r1, s1, s2) == r2
            &&& s1.out == s.out.push(
                EventView::Write(crate::laws::offer::offer_bytes(name, size, flags)),
            )
            &&& r1.out == r.out.push(
                EventView::RecvOffer { name: crate::text::base_of(name), size },
            ).push(EventView::Write(crate::frame::hex_header_of(ZRPOS, start)))
            &&& s2.out == s1.out.push(EventView::Seek(0)).push(
                EventView::Write(crate::frame::bin_header_of(ZDATA, start, flags)),
            )
            &&& r2.out == r1.out
            &&& s2.z == (Session {
                send_open: true,
                send_name: name,
                send_size: size,
                send_pos: 0,
                state: State::Streaming,
                can_count: 0,
                ..s.z
            })
            &&& r1.z.recv_name == crate::text::base_of(name)
            &&& r2.z.buf.len() == 0
            &&& r2.z.recv_name == crate::text::base_of(name)
            &&& r2.z.recv_size == size
        }),
{
    let flags = s.z.peer_flags;
    let start = crate::protocol::pos_data(0);
    let s1 = s.opened(Some(name), Some(size));
    let line = crate::laws::offer::offer_bytes(name, size, flags);
    let w = s.to(
        Session {
            send_open: true,
            send_name: name,
            send_size: size,
            send_pos: 0,
            state: State::SendWaitPos,
            ..s.z
        },
    ).write(line);
    lemma_step_nothing(w);
    assert(s1 == w);
    lemma_wrote(s, s1, line);
    lemma_fed_one(r, line);
    offer_arrives(r, name, size, flags);
    let r1 = crate::laws::offer::asked(r, name, size, flags).accepted();
    assert(r1.out.take(r.out.len() as int) =~= r.out);
    lemma_wrote_second(r, r1, crate::frame::hex_header_of(ZRPOS, start));
    lemma_fed_one(s1, crate::frame::hex_header_of(ZRPOS, start));
    position_request_resyncs(s1, r1);
    let s2 = started(s, name, size);
    let answer = crate::frame::bin_header_of(ZDATA, start, flags);
    assert(s2.out.take(s1.out.len() as int) =~= s1.out);
    lemma_wrote_second(s1, s2, answer);
    lemma_fed_one(r1, answer);
    assert(s2.z == (Session { state: State::Streaming, can_count: 0, ..s1.z })) by {
        hex_header_is_heard(s1, ZRPOS, start);
        reveal(Run::heard);
        crate::bytes::le32_round_trip(0);
    }
    let r2 = r1.feed(answer);
    assert(r2.z.recv_name == r1.z.recv_name && r2.z.recv_size == r1.z.recv_size) by {
        bin_header_is_heard(r1, ZDATA, start, flags);
        reveal(Run::heard);
        crate::bytes::le32_round_trip(0);
    }
}

/// One thing was written.
pub proof fn lemma_wrote(a: Run, b: Run, w: Seq<u8>)
    requires
        b.out == a.out.push(EventView::Write(w)),
    ensures
        crate::laws::upload::written(crate::laws::upload::news(a, b)) == seq![w],
{
    let n = crate::laws::upload::news(a, b);
    assert(n =~= seq![EventView::Write(w)]);
    assert(n.drop_last() =~= Seq::<EventView>::empty());
    assert(crate::laws::upload::written(n.drop_last()) =~= Seq::<Seq<u8>>::empty());
    assert(crate::laws::upload::written(n) =~= seq![w]);
}

/// One thing was written, behind something else.
pub proof fn lemma_wrote_second(a: Run, b: Run, w: Seq<u8>)
    requires
        b.out.len() == a.out.len() + 2,
        b.out.take(a.out.len() as int) == a.out,
        !(b.out[a.out.len() as int] is Write),
        b.out[a.out.len() as int + 1] == EventView::Write(w),
    ensures
        crate::laws::upload::written(crate::laws::upload::news(a, b)) == seq![w],
{
    let n = crate::laws::upload::news(a, b);
    assert(n[0] == b.out[a.out.len() as int]);
    assert(n.last() == EventView::Write(w));
    lemma_nothing_written(n.drop_last());
    assert(crate::laws::upload::written(n) =~= seq![w]);
}

/// Offer, acceptance and the request for the start bring both sides in step.
pub proof fn lemma_delivery_starts(s: Run, r: Run, name: Seq<char>, size: u64)
    requires
        s.z.wf(),
        s.z.state == State::SendOpening,
        s.z.buf.len() == 0,
        r.z.wf(),
        r.z.state == State::RecvWaitFile || r.z.state == State::RecvWaitNext,
        !r.z.pending_zfile,
        r.z.buf.len() == 0,
        forall|i: int| 0 <= i < name.len() ==> #[trigger] name[i] != '\0',
    ensures
        ({
            let flags = s.z.peer_flags;
            let s2 = started(s, name, size);
            let r1 = r.feed(crate::laws::offer::offer_bytes(name, size, flags)).accepted();
            let r2 = r1.feed(
                crate::frame::bin_header_of(ZDATA, crate::protocol::pos_data(0), flags),
            );
            &&& crate::laws::transfer::in_step(s2.z, r2.z)
            &&& s2.z.send_size == size
            &&& s2.z.send_pos == 0
            &&& r2.z.recv_name == crate::text::base_of(name)
            &&& crate::laws::transfer::stored(r2.out) == crate::laws::transfer::stored(r.out)
        }),
{
    let flags = s.z.peer_flags;
    let start = crate::protocol::pos_data(0);
    let s1 = s.opened(Some(name), Some(size));
    let w = s.to(
        Session {
            send_open: true,
            send_name: name,
            send_size: size,
            send_pos: 0,
            state: State::SendWaitPos,
            ..s.z
        },
    ).write(crate::laws::offer::offer_bytes(name, size, flags));
    lemma_step_nothing(w);
    assert(s1 == w);
    offer_arrives(r, name, size, flags);
    let r1 = crate::laws::offer::asked(r, name, size, flags).accepted();
    assert(r1.out.take(r.out.len() as int) =~= r.out);
    lemma_stored_quiet(r.out, r1.out);
    position_request_resyncs(s1, r1);
    assert(started(s, name, size).z == (Session {
        state: State::Streaming,
        can_count: 0,
        ..s1.z
    })) by {
        hex_header_is_heard(s1, ZRPOS, start);
        reveal(Run::heard);
        crate::bytes::le32_round_trip(0);
    }
    let r2 = r1.feed(crate::frame::bin_header_of(ZDATA, start, flags));
    assert(r2.z.recv_name == r1.z.recv_name) by {
        bin_header_is_heard(r1, ZDATA, start, flags);
        reveal(Run::heard);
        crate::bytes::le32_round_trip(0);
    }
}

/// An engine that has done nothing yet.
pub open spec fn newborn() -> Run {
    Run { z: crate::protocol::fresh(), out: Seq::empty() }
}

/// A new engine that was told that the other side wants to send.
pub open spec fn invited() -> Run {
    newborn().feed(crate::frame::hex_header_of(ZRQINIT, crate::protocol::zeros()))
}

/// A new engine that was told what an invited one answers, and then was given
/// files to send.
pub open spec fn told(paths: Seq<Seq<char>>) -> Run {
    newborn().feed(
        crate::frame::hex_header_of(ZRINIT, crate::protocol::our_flags()),
    ).start_send(paths)
}

/// Two new engines understand each other. The receiver's answer to the
/// invitation starts the sender, which checks its data with 32 bits as the
/// receiver allows, and a whole file then arrives.
pub proof fn engines_exchange_file(
    paths: Seq<Seq<char>>,
    name: Seq<char>,
    size: u64,
    batches: Seq<Seq<Seq<u8>>>,
)
    requires
        paths.len() > 0,
        forall|i: int| 0 <= i < name.len() ==> #[trigger] name[i] != '\0',
        delivered(told(paths), invited(), name, size, batches).0.z.state != State::Streaming,
        delivered(told(paths), invited(), name, size, batches).0.z.send_pos <= u32::MAX,
    ensures
        invited().out == seq![
            EventView::Write(crate::frame::hex_header_of(ZRINIT, crate::protocol::our_flags())),
        ],
        told(paths).out == seq![EventView::SendReady],
        crate::frame::wide(told(paths).z.peer_flags),
        ({
            let (p, q) = delivered(told(paths), invited(), name, size, batches);
            &&& p.z.state == State::SendWaitEofAck
            &&& q.z.state == State::RecvWaitNext
            &&& crate::laws::transfer::stored(q.out) == crate::laws::transfer::sent(
                started(told(paths), name, size),
                batches,
            )
            &&& q.out.contains(
                EventView::Done { name: crate::text::base_of(name), dir: "down"@ },
            )
        }),
{
    let flags = CANFDX | CANOVIO | CANFC32;
    assert((0x01u32 | 0x02u32 | 0x20u32) & 0x20u32 != 0) by (bit_vector);
    receive_begins(newborn(), crate::protocol::zeros());
    send_begins(newborn(), flags);
    let s = told(paths);
    let r = invited();
    assert(r.out =~= seq![
        EventView::Write(crate::frame::hex_header_of(ZRINIT, crate::protocol::our_flags())),
    ]);
    assert(s.out =~= seq![EventView::SendReady]);
    whole_file_is_received(s, r, name, size, batches);
    assert(r.out.drop_last() =~= Seq::<EventView>::empty());
    assert(crate::laws::transfer::stored(r.out.drop_last()).len() == 0);
    assert(crate::laws::transfer::stored(r.out) =~= Seq::<u8>::empty());
    let all = crate::laws::transfer::sent(started(s, name, size), batches);
    assert(crate::laws::transfer::stored(r.out) + all =~= all);
}

} // verus!
