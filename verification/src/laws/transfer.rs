//! Two sides of a transfer: what one engine sends, another one receives.

use vstd::prelude::*;

use crate::event::EventView;
use crate::frame::{HeaderView, ZCRCE, ZCRCG, ZDATA, ZEOF, ZHEX, ZRINIT, ZRPOS};
use crate::laws::data::subpacket_is_stored;
use crate::laws::line::{bin_header_is_heard, hex_header_is_heard, lemma_step_nothing};
use crate::protocol::{Run, Session, State, BURST_READS, READ_LEN};

verus! {

/// The bytes that a list of events appends to the file being received.
pub open spec fn stored(out: Seq<EventView>) -> Seq<u8>
    decreases out.len(),
{
    if out.len() == 0 {
        Seq::empty()
    } else {
        stored(out.drop_last()) + (match out.last() {
            EventView::Store(b) => b,
            _ => Seq::empty(),
        })
    }
}

/// The reads that a burst sends: the first ones, up to one that gave nothing
/// or one that reached the size.
pub open spec fn used(reads: Seq<Seq<u8>>, pos: u64, size: u64, left: nat) -> Seq<Seq<u8>>
    decreases left,
{
    if left == 0 || reads.len() == 0 || reads[0].len() == 0 {
        Seq::empty()
    } else {
        let next = crate::protocol::advance(pos, reads[0].len());
        if next >= size {
            seq![reads[0]]
        } else {
            seq![reads[0]] + used(reads.skip(1), next, size, (left - 1) as nat)
        }
    }
}

/// The list `after` is `before` and then data for the file and how far it has
/// come, only.
pub open spec fn only_taken(before: Seq<EventView>, after: Seq<EventView>) -> bool {
    &&& before.len() <= after.len()
    &&& after.take(before.len() as int) == before
    &&& forall|i: int|
        before.len() <= i < after.len() ==> #[trigger] after[i] is Store || after[i] is Progress
}

/// The last that was told is how far the file being received has come.
pub open spec fn tells_progress(q: Run) -> bool {
    &&& q.out.len() > 0
    &&& q.out.last() == EventView::Progress {
        name: q.z.recv_name,
        done: q.z.recv_pos,
        total: q.z.recv_size,
        dir: "down"@,
    }
}

proof fn lemma_only_taken_joins(a: Seq<EventView>, b: Seq<EventView>, c: Seq<EventView>)
    requires
        only_taken(a, b),
        only_taken(b, c),
    ensures
        only_taken(a, c),
{
    assert(c.take(b.len() as int).take(a.len() as int) =~= c.take(a.len() as int));
    assert forall|i: int| a.len() <= i < c.len() implies #[trigger] c[i] is Store
        || c[i] is Progress by {
        if i < b.len() {
            assert(c.take(b.len() as int)[i] == c[i]);
            assert(b[i] is Store || b[i] is Progress);
        }
    }
}

proof fn lemma_taken_only(out: Seq<EventView>, z: Session, data: Seq<u8>, end: u8)
    requires
        end == ZCRCE || end == ZCRCG,
    ensures
        ({
            let q = Run {
                z: crate::laws::data::moved(z, data, end),
                out: out + crate::laws::data::taken(z, data, end),
            };
            only_taken(out, q.out) && tells_progress(q)
        }),
{
    let all = out + crate::laws::data::taken(z, data, end);
    assert(all.take(out.len() as int) =~= out);
}

proof fn lemma_stored_taken(out: Seq<EventView>, z: Session, data: Seq<u8>, end: u8)
    requires
        end == ZCRCE || end == ZCRCG,
    ensures
        stored(out + crate::laws::data::taken(z, data, end)) == stored(out) + data,
{
    let all = out + crate::laws::data::taken(z, data, end);
    let one = all.drop_last();
    assert(one.drop_last() =~= out);
    assert(one.last() == EventView::Store(data));
    assert(stored(one) == stored(out) + data);
    assert(stored(all) =~= stored(one));
}

/// One burst, subpacket by subpacket.
proof fn lemma_burst(r: Run, reads: Seq<Seq<u8>>, size: u64, flags: u32, left: nat)
    requires
        r.z.wf(),
        crate::laws::pieces::awaits_data(r.z),
        crate::frame::wide(flags) == r.z.sp_wide,
    ensures
        ({
            let (pos, bytes) = crate::protocol::burst(reads, r.z.recv_pos, size, flags, left);
            let parts = used(reads, r.z.recv_pos, size, left);
            let q = r.to(r.z.with_buf(bytes)).steps();
            &&& q.z == (Session {
                recv_pos: pos,
                in_data_frame: parts.len() == 0 || pos < size,
                ..r.z
            })
            &&& stored(q.out) == stored(r.out) + crate::laws::pieces::joined(parts)
            &&& only_taken(r.out, q.out)
            &&& parts.len() > 0 ==> tells_progress(q)
            &&& parts.len() == 0 ==> q.out == r.out
        }),
    decreases left,
{
    let none = Seq::<u8>::empty();
    let (pos, bytes) = crate::protocol::burst(reads, r.z.recv_pos, size, flags, left);
    let parts = used(reads, r.z.recv_pos, size, left);
    let a = r.to(r.z.with_buf(bytes));
    assert(r.z.buf =~= none);
    if left == 0 || reads.len() == 0 || reads[0].len() == 0 {
        lemma_step_nothing(a);
        assert(r.out.take(r.out.len() as int) =~= r.out);
        assert(crate::laws::pieces::joined(parts) =~= none);
        assert(stored(r.out) + crate::laws::pieces::joined(parts) =~= stored(r.out));
    } else {
        let next = crate::protocol::advance(r.z.recv_pos, reads[0].len());
        let end = if next >= size {
            ZCRCE
        } else {
            ZCRCG
        };
        let (rest_pos, rest) = crate::protocol::burst(
            reads.skip(1),
            next,
            size,
            flags,
            (left - 1) as nat,
        );
        let tail = if next >= size {
            none
        } else {
            rest
        };
        let sp = crate::frame::subpacket_of(reads[0], end, flags);
        assert(bytes =~= sp + tail);
        subpacket_is_stored(a, reads[0], end, flags, tail);
        let q = a.step_data();
        assert(a.step() == q) by {
            reveal(Run::step);
            reveal(Run::dispatch);
        }
        lemma_stored_taken(r.out, a.z, reads[0], end);
        lemma_taken_only(r.out, a.z, reads[0], end);
        assert(sp.len() >= 2);
        assert(a.steps() == q.steps()) by {
            reveal(Run::steps);
        }
        if next >= size {
            lemma_step_nothing(q);
            assert(parts.skip(1) =~= Seq::<Seq<u8>>::empty());
            assert(crate::laws::pieces::joined(parts.skip(1)) =~= none);
            assert(crate::laws::pieces::joined(parts) =~= reads[0]);
        } else {
            let r1 = q.to(q.z.with_buf(none));
            lemma_burst(r1, reads.skip(1), size, flags, (left - 1) as nat);
            assert(r1.to(r1.z.with_buf(rest)) == q);
            lemma_only_taken_joins(r.out, q.out, q.steps().out);
            let more = used(reads.skip(1), next, size, (left - 1) as nat);
            assert(parts.skip(1) =~= more);
            assert(stored(r.out) + reads[0] + crate::laws::pieces::joined(more) =~= stored(r.out)
                + crate::laws::pieces::joined(parts));
            lemma_short_burst(reads.skip(1), next, size, flags, (left - 1) as nat);
        }
    }
}

/// A burst that sends nothing stays where it is; another one has bytes.
pub proof fn lemma_short_burst(reads: Seq<Seq<u8>>, pos: u64, size: u64, flags: u32, left: nat)
    ensures
        ({
            let (end, bytes) = crate::protocol::burst(reads, pos, size, flags, left);
            &&& used(reads, pos, size, left).len() == 0 ==> end == pos && bytes.len() == 0
            &&& used(reads, pos, size, left).len() > 0 ==> bytes.len() > 0
        }),
{
    if left > 0 && reads.len() > 0 && reads[0].len() > 0 {
        assert(crate::frame::subpacket_of(reads[0], ZCRCE, flags).len() >= 2);
        assert(crate::frame::subpacket_of(reads[0], ZCRCG, flags).len() >= 2);
    }
}

/// The sender streams from just the place where the receiver waits for data.
pub open spec fn in_step(s: Session, r: Session) -> bool {
    &&& s.state == State::Streaming
    &&& s.send_open
    &&& r.wf()
    &&& crate::laws::pieces::awaits_data(r)
    &&& crate::frame::wide(s.peer_flags) == r.sp_wide
    &&& s.send_pos == r.recv_pos
}

/// What a call of `pump` writes of the file.
pub open spec fn line_of(s: Run, reads: Seq<Seq<u8>>) -> Seq<u8> {
    crate::protocol::line_of(
        crate::protocol::burst(
            reads,
            s.z.send_pos,
            s.z.send_size,
            s.z.peer_flags,
            BURST_READS as nat,
        ).1,
        s.z.peer_flags,
    )
}

/// The reads that a call of `pump` uses.
pub open spec fn sent_of(s: Run, reads: Seq<Seq<u8>>) -> Seq<Seq<u8>> {
    used(reads, s.z.send_pos, s.z.send_size, BURST_READS as nat)
}

/// What a sender pumps is what a receiver stores: byte for byte, at the same
/// position. Both sides are then ready for the next burst, or the sender has
/// come to the end and the receiver waits for a header.
pub proof fn pumped_is_stored(s: Run, r: Run, reads: Seq<Seq<u8>>)
    requires
        in_step(s.z, r.z),
    ensures
        ({
            let p = s.pump(reads);
            let q = r.feed(line_of(s, reads));
            &&& p.out[s.out.len() as int] == EventView::Write(line_of(s, reads))
            &&& only_taken(r.out, q.out)
            &&& tells_progress(q)
            &&& stored(q.out) == stored(r.out) + crate::laws::pieces::joined(sent_of(s, reads))
            &&& q.z == (Session {
                recv_pos: p.z.send_pos,
                in_data_frame: p.z.state == State::Streaming,
                ..r.z
            })
            &&& p.z.state == State::Streaming ==> in_step(p.z, q.z)
            &&& p.z.state != State::Streaming ==> p.z.state == State::SendWaitEofAck
        }),
{
    let none = Seq::<u8>::empty();
    let flags = s.z.peer_flags;
    let (pos, bytes) = crate::protocol::burst(
        reads,
        s.z.send_pos,
        s.z.send_size,
        flags,
        BURST_READS as nat,
    );
    let w = line_of(s, reads);
    assert(r.z.buf + w =~= w);
    let a = r.to(r.z.with_buf(w));
    lemma_short_burst(reads, s.z.send_pos, s.z.send_size, flags, BURST_READS as nat);
    assert(r.z.buf =~= none);
    if bytes.len() > 0 {
        lemma_burst(r, reads, s.z.send_size, flags, BURST_READS as nat);
    } else {
        assert(w + none =~= w);
        subpacket_is_stored(a, none, ZCRCE, flags, none);
        let q = a.step_data();
        assert(a.step() == q) by {
            reveal(Run::step);
            reveal(Run::dispatch);
        }
        assert(w.len() >= 2);
        crate::laws::line::lemma_settle_once(a);
        lemma_stored_taken(r.out, a.z, none, ZCRCE);
        lemma_taken_only(r.out, a.z, none, ZCRCE);
        assert(stored(r.out) + none =~= stored(r.out));
        assert(crate::laws::pieces::joined(sent_of(s, reads)) =~= none);
    }
    reveal(Run::settle);
}

proof fn lemma_burst_end(reads: Seq<Seq<u8>>, pos: u64, size: u64, flags: u32, left: nat)
    ensures
        crate::protocol::burst(reads, pos, size, flags, left).0 == crate::protocol::advance(
            pos,
            crate::laws::pieces::joined(used(reads, pos, size, left)).len(),
        ),
    decreases left,
{
    let parts = used(reads, pos, size, left);
    if left == 0 || reads.len() == 0 || reads[0].len() == 0 {
        assert(crate::laws::pieces::joined(parts) =~= Seq::<u8>::empty());
    } else {
        let next = crate::protocol::advance(pos, reads[0].len());
        if next >= size {
            assert(parts.skip(1) =~= Seq::<Seq<u8>>::empty());
            assert(crate::laws::pieces::joined(parts.skip(1)) =~= Seq::<u8>::empty());
        } else {
            let more = used(reads.skip(1), next, size, (left - 1) as nat);
            assert(parts.skip(1) =~= more);
            lemma_burst_end(reads.skip(1), next, size, flags, (left - 1) as nat);
            let m = 0x1_0000_0000_0000_0000int;
            let a = reads[0].len() as int;
            let b = crate::laws::pieces::joined(more).len() as int;
            vstd::arithmetic::div_mod::lemma_add_mod_noop(pos + a, b, m);
            vstd::arithmetic::div_mod::lemma_add_mod_noop((pos + a) % m, b, m);
            vstd::arithmetic::div_mod::lemma_mod_twice(pos + a, m);
        }
    }
}

/// Each call of `pump` moves the sender on by just the bytes it sends; it asks
/// to be called again only if it has sent some and the size is not reached.
pub proof fn pump_advances(s: Run, reads: Seq<Seq<u8>>)
    requires
        s.z.state == State::Streaming,
        s.z.send_open,
        s.z.send_pos + crate::laws::pieces::joined(sent_of(s, reads)).len() <= u64::MAX,
    ensures
        ({
            let p = s.pump(reads);
            &&& p.z.send_pos == s.z.send_pos + crate::laws::pieces::joined(sent_of(s, reads)).len()
            &&& p.z.state == State::Streaming ==> s.z.send_pos < p.z.send_pos < s.z.send_size
        }),
{
    let flags = s.z.peer_flags;
    lemma_burst_end(reads, s.z.send_pos, s.z.send_size, flags, BURST_READS as nat);
    lemma_short_burst(reads, s.z.send_pos, s.z.send_size, flags, BURST_READS as nat);
    let parts = sent_of(s, reads);
    if parts.len() > 0 {
        assert(parts[0] == reads[0]);
        assert(crate::laws::pieces::joined(parts).len() >= parts[0].len());
    }
}

/// A read that failed, or of a file that was cut short, is the end of a file:
/// it is told, and the sender no longer streams.
pub proof fn failed_read_ends_file(s: Run, reads: Seq<Seq<u8>>)
    requires
        s.z.state == State::Streaming,
        s.z.send_open,
        s.z.send_pos < s.z.send_size,
        reads.len() == 0 || reads[0].len() == 0,
    ensures
        ({
            let p = s.pump(reads);
            &&& p.z == s.z.with_state(State::SendWaitEofAck)
            &&& p.out.contains(EventView::Error("cannot read the rest of "@ + s.z.send_name))
        }),
{
    let p = s.pump(reads);
    assert(p.out[s.out.len() as int + 2] == EventView::Error(
        "cannot read the rest of "@ + s.z.send_name,
    ));
}

/// A sender after one call of `pump` for each batch of reads.
pub open spec fn pumped(s: Run, batches: Seq<Seq<Seq<u8>>>) -> Run
    decreases batches.len(),
{
    if batches.len() == 0 {
        s
    } else {
        pumped(s.pump(batches[0]), batches.skip(1))
    }
}

/// No read gives more than was asked for.
pub open spec fn short_reads(reads: Seq<Seq<u8>>) -> bool {
    forall|i: int| 0 <= i < reads.len() ==> (#[trigger] reads[i]).len() <= READ_LEN
}

proof fn lemma_burst_short(reads: Seq<Seq<u8>>, pos: u64, size: u64, left: nat)
    requires
        short_reads(reads),
    ensures
        crate::laws::pieces::joined(used(reads, pos, size, left)).len() <= left * READ_LEN,
    decreases left,
{
    let parts = used(reads, pos, size, left);
    if !(left == 0 || reads.len() == 0 || reads[0].len() == 0) {
        let next = crate::protocol::advance(pos, reads[0].len());
        let rest = reads.skip(1);
        assert forall|i: int| 0 <= i < rest.len() implies (#[trigger] rest[i]).len() <= READ_LEN by {
            assert(reads[i + 1].len() <= READ_LEN);
        }
        lemma_burst_short(rest, next, size, (left - 1) as nat);
        assert(left * READ_LEN == (left - 1) * READ_LEN + READ_LEN) by (nonlinear_arith);
        assert(parts[0].len() <= READ_LEN);
        if next >= size {
            assert(parts.skip(1) =~= Seq::<Seq<u8>>::empty());
            assert(crate::laws::pieces::joined(parts.skip(1)).len() == 0);
        } else {
            assert(parts.skip(1) =~= used(rest, next, size, (left - 1) as nat));
        }
    }
}

/// Calling `pump` until it returns false comes to an end, whatever the reads
/// give, in at most one call more than there are bytes to send.
pub proof fn pump_ends(s: Run, batches: Seq<Seq<Seq<u8>>>)
    requires
        s.z.state == State::Streaming,
        s.z.send_open,
        s.z.send_pos + BURST_READS * READ_LEN <= u64::MAX,
        s.z.send_size + BURST_READS * READ_LEN <= u64::MAX,
        forall|i: int| 0 <= i < batches.len() ==> short_reads(#[trigger] batches[i]),
        batches.len() > 0,
        batches.len() > s.z.send_size - s.z.send_pos,
    ensures
        pumped(s, batches).z.state != State::Streaming,
    decreases batches.len(),
{
    let reads = batches[0];
    let rest = batches.skip(1);
    let p = s.pump(reads);
    assert(short_reads(batches[0]));
    lemma_burst_short(reads, s.z.send_pos, s.z.send_size, BURST_READS as nat);
    pump_advances(s, reads);
    if p.z.state == State::Streaming {
        assert forall|i: int| 0 <= i < rest.len() implies short_reads(#[trigger] rest[i]) by {
            assert(short_reads(batches[i + 1]));
        }
        pump_ends(p, rest);
    } else {
        lemma_pumped_rests(p, rest);
    }
}

proof fn lemma_pumped_rests(s: Run, batches: Seq<Seq<Seq<u8>>>)
    requires
        s.z.state != State::Streaming,
    ensures
        pumped(s, batches) == s,
    decreases batches.len(),
{
    if batches.len() > 0 {
        lemma_pumped_rests(s, batches.skip(1));
    }
}

/// A whole file, burst by burst: what the two sides are after each batch of
/// reads was pumped and what was written was fed.
pub open spec fn exchanged(s: Run, r: Run, batches: Seq<Seq<Seq<u8>>>) -> (Run, Run)
    decreases batches.len(),
{
    if batches.len() == 0 || s.z.state != State::Streaming {
        (s, r)
    } else {
        exchanged(s.pump(batches[0]), r.feed(line_of(s, batches[0])), batches.skip(1))
    }
}

/// The bytes of the file that the sender sends of batches of reads.
pub open spec fn sent(s: Run, batches: Seq<Seq<Seq<u8>>>) -> Seq<u8>
    decreases batches.len(),
{
    if batches.len() == 0 || s.z.state != State::Streaming {
        Seq::empty()
    } else {
        crate::laws::pieces::joined(sent_of(s, batches[0])) + sent(
            s.pump(batches[0]),
            batches.skip(1),
        )
    }
}

/// However many bursts it takes, the receiver has stored what the sender has
/// sent, and both are at the same position. When the sender reaches the end,
/// the receiver waits for a header.
pub proof fn file_arrives(s: Run, r: Run, batches: Seq<Seq<Seq<u8>>>)
    requires
        in_step(s.z, r.z),
    ensures
        ({
            let (p, q) = exchanged(s, r, batches);
            &&& stored(q.out) == stored(r.out) + sent(s, batches)
            &&& q.z.recv_pos == p.z.send_pos
            &&& p.z.state == State::Streaming ==> in_step(p.z, q.z)
            &&& p.z.state != State::Streaming ==> {
                &&& p.z.state == State::SendWaitEofAck
                &&& q.z == (Session { recv_pos: p.z.send_pos, in_data_frame: false, ..r.z })
            }
        }),
    decreases batches.len(),
{
    if batches.len() == 0 {
        assert(stored(r.out) + sent(s, batches) =~= stored(r.out));
    } else {
        let reads = batches[0];
        let p = s.pump(reads);
        let q = r.feed(line_of(s, reads));
        pumped_is_stored(s, r, reads);
        let rest = batches.skip(1);
        assert(exchanged(s, r, batches) == exchanged(p, q, rest));
        assert(stored(r.out) + crate::laws::pieces::joined(sent_of(s, reads)) + sent(p, rest)
            =~= stored(r.out) + sent(s, batches));
        if p.z.state == State::Streaming {
            file_arrives(p, q, rest);
        } else {
            assert(exchanged(p, q, rest) == (p, q));
            assert(sent(p, rest) =~= Seq::<u8>::empty());
            assert(stored(q.out) + sent(p, rest) =~= stored(q.out));
        }
    }
}

/// A file that ends where the receiver stands is complete: it is flushed and
/// closed, and the next file is asked for. Positions are sent with 32 bits, so
/// this is so for files below 4 GiB.
pub proof fn end_completes_file(r: Run)
    requires
        r.z.wf(),
        crate::laws::line::listens(r.z),
        r.z.state == State::Receiving,
        r.z.buf.len() == 0,
        r.z.recv_pos <= u32::MAX,
    ensures
        ({
            let q = r.feed(
                crate::frame::hex_header_of(ZEOF, crate::protocol::pos_data(r.z.recv_pos)),
            );
            &&& q.z == (Session {
                recv_open: false,
                state: State::RecvWaitNext,
                can_count: 0,
                ..r.z
            })
            &&& q.out == r.out + seq![
                EventView::Sync,
                EventView::Done { name: r.z.recv_name, dir: "down"@ },
                EventView::Write(
                    crate::frame::hex_header_of(ZRINIT, crate::protocol::our_flags()),
                ),
            ]
        }),
{
    let data = crate::protocol::pos_data(r.z.recv_pos);
    hex_header_is_heard(r, ZEOF, data);
    crate::bytes::le32_round_trip(r.z.recv_pos as u32);
    reveal(Run::heard);
    let q = r.on_header(HeaderView { enc: ZHEX, typ: ZEOF, data });
    assert(q.out =~= r.out + seq![
        EventView::Sync,
        EventView::Done { name: r.z.recv_name, dir: "down"@ },
        EventView::Write(crate::frame::hex_header_of(ZRINIT, crate::protocol::our_flags())),
    ]);
}

/// A receiver that asks for its position brings the sender there, wherever the
/// sender was in the file: the file is read from that position on, and once
/// the sender's answer arrives both sides are in step.
pub proof fn position_request_resyncs(s: Run, r: Run)
    requires
        s.z.wf(),
        s.z.sends(),
        crate::laws::line::listens(s.z),
        s.z.buf.len() == 0,
        r.z.wf(),
        r.z.state == State::Receiving,
        crate::laws::line::listens(r.z),
        r.z.buf.len() == 0,
        r.z.recv_pos <= u32::MAX,
    ensures
        ({
            let p = s.feed(
                crate::frame::hex_header_of(ZRPOS, crate::protocol::pos_data(r.z.recv_pos)),
            );
            let answer = crate::frame::bin_header_of(
                ZDATA,
                crate::protocol::pos_data(r.z.recv_pos),
                s.z.peer_flags,
            );
            let q = r.feed(answer);
            &&& p.out == s.out.push(EventView::Seek(r.z.recv_pos)).push(EventView::Write(answer))
            &&& q.out == r.out
            &&& in_step(p.z, q.z)
        }),
{
    let data = crate::protocol::pos_data(r.z.recv_pos);
    let flags = s.z.peer_flags;
    hex_header_is_heard(s, ZRPOS, data);
    bin_header_is_heard(r, ZDATA, data, flags);
    crate::bytes::le32_round_trip(r.z.recv_pos as u32);
    reveal(Run::heard);
}

/// Events that store nothing leave what is stored.
pub proof fn lemma_stored_quiet(a: Seq<EventView>, b: Seq<EventView>)
    requires
        a.len() <= b.len(),
        b.take(a.len() as int) == a,
        forall|i: int| a.len() <= i < b.len() ==> !(#[trigger] b[i] is Store),
    ensures
        stored(b) == stored(a),
    decreases b.len(),
{
    if a.len() == b.len() {
        assert(b.take(a.len() as int) =~= b);
    } else {
        assert(!(b[b.len() - 1] is Store));
        let c = b.drop_last();
        assert(c.take(a.len() as int) =~= b.take(a.len() as int));
        lemma_stored_quiet(a, c);
        assert(stored(b) =~= stored(c));
    }
}

/// A call of `pump` sends the first reads, each whole: it stops before a read
/// that gave nothing, behind the one that reaches the size, or after as many
/// as a call takes, and nowhere else.
pub proof fn burst_goes_as_far_as_it_can(s: Run, reads: Seq<Seq<u8>>)
    requires
        s.z.send_pos + crate::laws::pieces::joined(reads).len() <= u64::MAX,
    ensures
        ({
            let k = sent_of(s, reads).len() as int;
            let sent = crate::laws::pieces::joined(reads.take(k)).len();
            &&& k <= 8
            &&& k <= reads.len()
            &&& sent_of(s, reads) == reads.take(k)
            &&& k == 8 || k == reads.len() || reads[k].len() == 0 || s.z.send_pos + sent
                >= s.z.send_size
            &&& forall|i: int|
                0 < i < k ==> s.z.send_pos + crate::laws::pieces::joined(
                    #[trigger] reads.take(i),
                ).len() < s.z.send_size
            &&& forall|i: int| 0 <= i < k ==> (#[trigger] reads[i]).len() > 0
        }),
{
    lemma_used_far(reads, s.z.send_pos, s.z.send_size, BURST_READS as nat);
}

proof fn lemma_used_far(reads: Seq<Seq<u8>>, pos: u64, size: u64, left: nat)
    requires
        pos + crate::laws::pieces::joined(reads).len() <= u64::MAX,
    ensures
        ({
            let parts = used(reads, pos, size, left);
            let k = parts.len() as int;
            let sent = crate::laws::pieces::joined(reads.take(k)).len();
            &&& k <= left
            &&& k <= reads.len()
            &&& parts == reads.take(k)
            &&& k == left || k == reads.len() || reads[k].len() == 0 || pos + sent >= size
            &&& forall|i: int|
                0 < i < k ==> pos + crate::laws::pieces::joined(#[trigger] reads.take(i)).len()
                    < size
            &&& forall|i: int| 0 <= i < k ==> (#[trigger] reads[i]).len() > 0
        }),
    decreases left,
{
    let parts = used(reads, pos, size, left);
    if left == 0 || reads.len() == 0 || reads[0].len() == 0 {
        assert(parts =~= reads.take(0));
    } else {
        let rest = reads.skip(1);
        let next = crate::protocol::advance(pos, reads[0].len());
        assert(next == pos + reads[0].len()) by {
            vstd::arithmetic::div_mod::lemma_small_mod(
                (pos + reads[0].len()) as nat,
                0x1_0000_0000_0000_0000,
            );
        }
        if next >= size {
            assert(parts =~= reads.take(1));
            assert(reads.take(1).skip(1) =~= Seq::<Seq<u8>>::empty());
            assert(crate::laws::pieces::joined(reads.take(1).skip(1)).len() == 0);
            assert(crate::laws::pieces::joined(reads.take(1)).len() == reads[0].len());
        } else {
            lemma_used_far(rest, next, size, (left - 1) as nat);
            let more = used(rest, next, size, (left - 1) as nat);
            let k = more.len() as int;
            assert(parts =~= reads.take(k + 1));
            assert(reads.take(k + 1).skip(1) =~= rest.take(k));
            assert forall|i: int| 0 < i < k + 1 implies pos + crate::laws::pieces::joined(
                #[trigger] reads.take(i),
            ).len() < size by {
                assert(reads.take(i).skip(1) =~= rest.take(i - 1));
                if i == 1 {
                    assert(crate::laws::pieces::joined(rest.take(0)).len() == 0);
                }
            }
            assert forall|i: int| 0 <= i < k + 1 implies (#[trigger] reads[i]).len() > 0 by {
                if i > 0 {
                    assert(rest[i - 1].len() > 0);
                }
            }
            if k < rest.len() {
                assert(rest[k] == reads[k + 1]);
            }
        }
    }
}

} // verus!
