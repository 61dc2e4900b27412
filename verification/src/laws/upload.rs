//! Uploads, told by what the engines write: each side hears just the bytes that
//! the other one asks to be written, in order.

use vstd::prelude::*;

use crate::event::EventView;
use crate::frame::{ZEOF, ZRINIT};
use crate::laws::transfer::{end_completes_file, lemma_stored_quiet, pumped_is_stored};
use crate::protocol::{Run, Session, State, BURST_READS};

verus! {

/// The bytes that a list of events asks to be written, event by event.
pub open spec fn written(out: Seq<EventView>) -> Seq<Seq<u8>>
    decreases out.len(),
{
    if out.len() == 0 {
        Seq::empty()
    } else {
        written(out.drop_last()) + (match out.last() {
            EventView::Write(b) => seq![b],
            _ => Seq::empty(),
        })
    }
}

/// The events that came between two runs of an engine.
pub open spec fn news(before: Run, after: Run) -> Seq<EventView> {
    after.out.skip(before.out.len() as int)
}

/// The run `r` after it has heard all that another engine wrote between two of
/// its runs.
pub open spec fn hears(r: Run, before: Run, after: Run) -> Run {
    crate::laws::pieces::fed(r, written(news(before, after)))
}

pub proof fn lemma_written_add(a: Seq<EventView>, b: Seq<EventView>)
    ensures
        written(a + b) == written(a) + written(b),
    decreases b.len(),
{
    if b.len() == 0 {
        assert(a + b =~= a);
        assert(written(a) + written(b) =~= written(a));
    } else {
        assert((a + b).drop_last() =~= a + b.drop_last());
        lemma_written_add(a, b.drop_last());
        assert((a + b).last() == b.last());
        assert(written(a + b) =~= written(a) + written(b));
    }
}

/// Events without writes write nothing.
pub proof fn lemma_nothing_written(out: Seq<EventView>)
    requires
        forall|i: int| 0 <= i < out.len() ==> !(#[trigger] out[i] is Write),
    ensures
        written(out) == Seq::<Seq<u8>>::empty(),
    decreases out.len(),
{
    if out.len() > 0 {
        let t = out.drop_last();
        assert(!(out[out.len() - 1] is Write));
        assert forall|i: int| 0 <= i < t.len() implies !(#[trigger] t[i] is Write) by {
            assert(!(out[i] is Write));
        }
        lemma_nothing_written(t);
    }
}

pub proof fn lemma_fed_one(r: Run, a: Seq<u8>)
    ensures
        crate::laws::pieces::fed(r, seq![a]) == r.feed(a),
{
    reveal_with_fuel(crate::laws::pieces::fed, 2);
    assert(seq![a].skip(1) =~= Seq::<Seq<u8>>::empty());
}

pub proof fn lemma_fed_two(r: Run, a: Seq<u8>, b: Seq<u8>)
    ensures
        crate::laws::pieces::fed(r, seq![a, b]) == r.feed(a).feed(b),
{
    assert(seq![a, b].skip(1) =~= seq![b]);
    lemma_fed_one(r.feed(a), b);
    reveal_with_fuel(crate::laws::pieces::fed, 2);
}

/// What a call of `pump` writes: a piece of the file, and behind the last
/// piece that the file ends here. The last event of a call that ends the file
/// gives the position at which the sender stands, in four bytes, and how far
/// it has come is told.
pub proof fn pump_writes(s: Run, reads: Seq<Seq<u8>>)
    requires
        s.z.state == State::Streaming,
        s.z.send_open,
    ensures
        ({
            let p = s.pump(reads);
            let line = crate::laws::transfer::line_of(s, reads);
            let end = crate::frame::hex_header_of(
                ZEOF,
                crate::bytes::le32(p.z.send_pos as u32),
            );
            &&& p.out.len() >= s.out.len() + 2
            &&& p.out.take(s.out.len() as int) == s.out
            &&& written(news(s, p)) == if p.z.state == State::Streaming {
                seq![line]
            } else {
                seq![line, end]
            }
            &&& p.z.state != State::Streaming ==> p.out.last() == EventView::Write(end)
            &&& p.z.state != State::Streaming ==> p.z.state == State::SendWaitEofAck
            &&& p.out[s.out.len() as int + 1] == EventView::Progress {
                name: s.z.send_name,
                done: p.z.send_pos,
                total: s.z.send_size,
                dir: "up"@,
            }
            &&& p.z == (Session { send_pos: p.z.send_pos, state: p.z.state, ..s.z })
        }),
{
    let p = s.pump(reads);
    let n = news(s, p);
    let line = crate::laws::transfer::line_of(s, reads);
    assert(p.out.take(s.out.len() as int) =~= s.out);
    assert(n[0] == EventView::Write(line));
    let a = n.take(2);
    let b = n.skip(2);
    assert(n =~= a + b);
    lemma_written_add(a, b);
    reveal_with_fuel(written, 3);
    assert(a.drop_last().drop_last() =~= Seq::<EventView>::empty());
    assert(written(a) =~= seq![line]);
    if p.z.state == State::Streaming {
        assert(b =~= Seq::<EventView>::empty());
        assert(seq![line] + Seq::<Seq<u8>>::empty() =~= seq![line]);
    } else {
        let end = crate::frame::hex_header_of(ZEOF, crate::bytes::le32(p.z.send_pos as u32));
        assert(b.last() == EventView::Write(end));
        lemma_nothing_written(b.drop_last());
        assert(written(b) =~= seq![end]);
        assert(seq![line] + seq![end] =~= seq![line, end]);
    }
}

/// The two sides after each batch of reads was pumped and the receiver heard
/// all that was written.
pub open spec fn conveyed(s: Run, r: Run, batches: Seq<Seq<Seq<u8>>>) -> (Run, Run)
    decreases batches.len(),
{
    if batches.len() == 0 || s.z.state != State::Streaming {
        (s, r)
    } else {
        let p = s.pump(batches[0]);
        conveyed(p, hears(r, s, p), batches.skip(1))
    }
}

/// The bytes of all reads, batch by batch.
pub open spec fn content(batches: Seq<Seq<Seq<u8>>>) -> Seq<u8>
    decreases batches.len(),
{
    if batches.len() == 0 {
        Seq::empty()
    } else {
        crate::laws::pieces::joined(batches[0]) + content(batches.skip(1))
    }
}

/// The events of a receiver that has completed a file: data and how far it has
/// come, then that the file is done, and an invitation for the next one.
pub open spec fn completed(before: Run, after: Run) -> bool {
    let n = after.out.len() as int;
    &&& n >= before.out.len() + 3
    &&& crate::laws::transfer::only_taken(before.out, after.out.take(n - 3))
    &&& after.out[n - 3] == EventView::Sync
    &&& after.out[n - 2] == EventView::Done { name: before.z.recv_name, dir: "down"@ }
    &&& after.out[n - 1] == EventView::Write(
        crate::frame::hex_header_of(ZRINIT, crate::protocol::our_flags()),
    )
}

/// One call of `pump`, heard by the receiver.
pub proof fn lemma_one_burst(s: Run, r: Run, reads: Seq<Seq<u8>>)
    requires
        crate::laws::transfer::in_step(s.z, r.z),
        s.pump(reads).z.state != State::Streaming ==> s.pump(reads).z.send_pos <= u32::MAX,
    ensures
        ({
            let p = s.pump(reads);
            let q = hears(r, s, p);
            &&& crate::laws::transfer::stored(q.out) == crate::laws::transfer::stored(r.out)
                + crate::laws::pieces::joined(crate::laws::transfer::sent_of(s, reads))
            &&& p.z.state == State::Streaming ==> {
                &&& crate::laws::transfer::in_step(p.z, q.z)
                &&& q.z == (Session { recv_pos: p.z.send_pos, ..r.z })
                &&& crate::laws::transfer::only_taken(r.out, q.out)
            }
            &&& p.z.state != State::Streaming ==> {
                &&& completed(r, q)
                &&& q.z == (Session {
                    recv_pos: p.z.send_pos,
                    in_data_frame: false,
                    recv_open: false,
                    state: State::RecvWaitNext,
                    can_count: 0,
                    ..r.z
                })
            }
        }),
{
    let p = s.pump(reads);
    let line = crate::laws::transfer::line_of(s, reads);
    pumped_is_stored(s, r, reads);
    pump_writes(s, reads);
    let m = r.feed(line);
    if p.z.state == State::Streaming {
        lemma_fed_one(r, line);
    } else {
        let end = crate::frame::hex_header_of(ZEOF, crate::bytes::le32(p.z.send_pos as u32));
        lemma_fed_two(r, line, end);
        end_completes_file(m);
        let q = m.feed(end);
        assert(q.out.take(m.out.len() as int) =~= m.out);
        assert(q.out.take(q.out.len() - 3) =~= m.out);
        lemma_stored_quiet(m.out, q.out);
    }
}

pub proof fn lemma_taken_then_completed(a: Run, b: Run, c: Run)
    requires
        crate::laws::transfer::only_taken(a.out, b.out),
        completed(b, c),
        a.z.recv_name == b.z.recv_name,
    ensures
        completed(a, c),
{
    let n = c.out.len() as int;
    let m = c.out.take(n - 3);
    assert(m.take(b.out.len() as int).take(a.out.len() as int) =~= m.take(a.out.len() as int));
    assert forall|i: int| a.out.len() <= i < m.len() implies #[trigger] m[i] is Store
        || m[i] is Progress by {
        if i < b.out.len() {
            assert(m.take(b.out.len() as int)[i] == m[i]);
            assert(b.out[i] is Store || b.out[i] is Progress);
        }
    }
}

/// Reads that a call of `pump` uses to the last.
proof fn lemma_all_used(reads: Seq<Seq<u8>>, pos: u64, size: u64, left: nat)
    requires
        reads.len() <= left,
        forall|i: int| 0 <= i < reads.len() ==> (#[trigger] reads[i]).len() > 0,
        pos + crate::laws::pieces::joined(reads).len() <= size,
    ensures
        crate::laws::transfer::used(reads, pos, size, left) == reads,
    decreases left,
{
    if reads.len() == 0 {
        assert(crate::laws::transfer::used(reads, pos, size, left) =~= reads);
    } else {
        let rest = reads.skip(1);
        assert(reads[0].len() > 0);
        assert forall|i: int| 0 <= i < rest.len() implies (#[trigger] rest[i]).len() > 0 by {
            assert(reads[i + 1].len() > 0);
        }
        let next = crate::protocol::advance(pos, reads[0].len());
        assert(next == pos + reads[0].len()) by {
            vstd::arithmetic::div_mod::lemma_small_mod(
                (pos + reads[0].len()) as nat,
                0x1_0000_0000_0000_0000,
            );
        }
        if next >= size {
            if rest.len() > 0 {
                assert(rest[0].len() > 0);
                assert(crate::laws::pieces::joined(rest).len() >= rest[0].len());
            }
            assert(reads =~= seq![reads[0]]);
        } else {
            lemma_all_used(rest, next, size, (left - 1) as nat);
            assert(reads =~= seq![reads[0]] + rest);
        }
    }
}

/// Batches of reads such as an application hands over: each holds as many
/// reads as a call takes at most, each read gave something, and a batch without
/// reads means that nothing is left.
pub open spec fn proper(batches: Seq<Seq<Seq<u8>>>) -> bool {
    &&& forall|i: int| 0 <= i < batches.len() ==> (#[trigger] batches[i]).len() <= BURST_READS
    &&& forall|i: int, j: int|
        0 <= i < batches.len() && 0 <= j < batches[i].len() ==> (#[trigger] batches[i][j]).len() > 0
    &&& batches.len() > 0
    &&& forall|i: int| 0 <= i < batches.len() ==> (#[trigger] batches[i]).len() > 0 || (
    batches.len() == 1)
}

proof fn lemma_proper_skip(batches: Seq<Seq<Seq<u8>>>)
    requires
        proper(batches),
        batches.len() > 1,
    ensures
        proper(batches.skip(1)),
        content(batches.skip(1)).len() > 0,
{
    let rest = batches.skip(1);
    assert forall|i: int| 0 <= i < rest.len() implies (#[trigger] rest[i]).len() <= BURST_READS
        && (rest[i].len() > 0 || rest.len() == 1) by {
        assert(batches[i + 1].len() > 0 && batches[i + 1].len() <= BURST_READS);
    }
    assert forall|i: int, j: int|
        0 <= i < rest.len() && 0 <= j < rest[i].len() implies (#[trigger] rest[i][j]).len()
        > 0 by {
        assert(batches[i + 1][j].len() > 0);
    }
    assert(batches[1].len() > 0);
    assert(batches[1][0].len() > 0);
    assert(rest[0] == batches[1]);
    assert(crate::laws::pieces::joined(rest[0]).len() >= rest[0][0].len());
}

/// What is left of a file arrives. For any sender and receiver in step, if the
/// receiver hears all that the sender writes while the rest of the file is
/// read and pumped, then it has stored just these bytes, and the file is done.
/// The sender stands at its size and streams no more. Positions are sent with
/// 32 bits, so the file is to end below 4 GiB.
pub proof fn rest_of_file_arrives(s: Run, r: Run, batches: Seq<Seq<Seq<u8>>>)
    requires
        crate::laws::transfer::in_step(s.z, r.z),
        proper(batches),
        s.z.send_pos + content(batches).len() == s.z.send_size,
        s.z.send_size <= u32::MAX,
    ensures
        ({
            let (p, q) = conveyed(s, r, batches);
            &&& crate::laws::transfer::stored(q.out) == crate::laws::transfer::stored(r.out)
                + content(batches)
            &&& completed(r, q)
            &&& p.z == (Session {
                send_pos: s.z.send_size,
                state: State::SendWaitEofAck,
                ..s.z
            })
            &&& q.z == (Session {
                recv_pos: s.z.send_size,
                in_data_frame: false,
                recv_open: false,
                state: State::RecvWaitNext,
                can_count: 0,
                ..r.z
            })
        }),
    decreases batches.len(),
{
    let reads = batches[0];
    let rest = batches.skip(1);
    let p = s.pump(reads);
    let q = hears(r, s, p);
    assert(reads.len() <= BURST_READS);
    assert forall|i: int| 0 <= i < reads.len() implies (#[trigger] reads[i]).len() > 0 by {
        assert(batches[0][i].len() > 0);
    }
    lemma_all_used(reads, s.z.send_pos, s.z.send_size, BURST_READS as nat);
    crate::laws::transfer::pump_advances(s, reads);
    pump_writes(s, reads);
    let here = crate::laws::pieces::joined(reads);
    let all = crate::laws::transfer::stored(r.out) + here + content(rest);
    assert(all =~= crate::laws::transfer::stored(r.out) + content(batches));
    if rest.len() > 0 {
        lemma_proper_skip(batches);
        assert(reads.len() > 0);
        assert(reads[0].len() > 0);
        assert(here.len() >= reads[0].len());
        lemma_goes_on(s, reads);
        lemma_one_burst(s, r, reads);
        rest_of_file_arrives(p, q, rest);
        let (p2, q2) = conveyed(p, q, rest);
        assert(conveyed(s, r, batches) == (p2, q2));
        lemma_taken_then_completed(r, q, q2);
    } else {
        assert(content(rest) =~= Seq::<u8>::empty());
        assert(p.z.state != State::Streaming);
        lemma_one_burst(s, r, reads);
        assert(conveyed(p, q, rest) == (p, q));
        assert(conveyed(s, r, batches) == (p, q));
    }
}

/// A burst that sends something and does not reach the size goes on.
proof fn lemma_goes_on(s: Run, reads: Seq<Seq<u8>>)
    requires
        s.z.state == State::Streaming,
        s.z.send_open,
        crate::laws::transfer::sent_of(s, reads).len() > 0,
        s.pump(reads).z.send_pos < s.z.send_size,
    ensures
        s.pump(reads).z.state == State::Streaming,
{
    let flags = s.z.peer_flags;
    crate::laws::transfer::lemma_short_burst(
        reads,
        s.z.send_pos,
        s.z.send_size,
        flags,
        BURST_READS as nat,
    );
}

} // verus!
