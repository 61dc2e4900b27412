//! Downloads, from any sender: however it cuts a file into subpackets, the file
//! is stored whole.

use vstd::prelude::*;

use crate::event::EventView;
use crate::frame::{ZCRCE, ZCRCG, ZCRCQ, ZCRCW, ZEOF};
use crate::laws::pieces::data_in_pieces;
use crate::laws::transfer::{end_completes_file, lemma_stored_quiet};
use crate::protocol::{Run, Session, State};

verus! {

/// A subpacket: its data and its terminator.
pub struct Chunk {
    pub data: Seq<u8>,
    pub end: u8,
}

/// The subpackets of a frame: all but the last one say that more follow.
pub open spec fn frame_of(chunks: Seq<Chunk>) -> bool {
    &&& chunks.len() > 0
    &&& forall|i: int|
        0 <= i < chunks.len() - 1 ==> (#[trigger] chunks[i]).end == ZCRCG || chunks[i].end == ZCRCQ
    &&& chunks.last().end == ZCRCE || chunks.last().end == ZCRCW
}

/// The bytes of the subpackets of a list.
pub open spec fn chunk_bytes(chunks: Seq<Chunk>) -> Seq<u8>
    decreases chunks.len(),
{
    if chunks.len() == 0 {
        Seq::empty()
    } else {
        chunks[0].data + chunk_bytes(chunks.skip(1))
    }
}

/// The receiver after it has heard the subpackets of a list, each one whole.
pub open spec fn took(r: Run, chunks: Seq<Chunk>, flags: u32) -> Run
    decreases chunks.len(),
{
    if chunks.len() == 0 {
        r
    } else {
        took(
            r.feed(crate::frame::subpacket_of(chunks[0].data, chunks[0].end, flags)),
            chunks.skip(1),
            flags,
        )
    }
}

proof fn lemma_stored_any(out: Seq<EventView>, z: Session, data: Seq<u8>, end: u8)
    ensures
        crate::laws::transfer::stored(out + crate::laws::data::taken(z, data, end))
            == crate::laws::transfer::stored(out) + data,
{
    let all = out + crate::laws::data::taken(z, data, end);
    let one = out.push(EventView::Store(data));
    assert(one.drop_last() =~= out);
    assert(crate::laws::transfer::stored(one) == crate::laws::transfer::stored(out) + data);
    assert(all.take(one.len() as int) =~= one);
    assert forall|i: int| one.len() <= i < all.len() implies !(#[trigger] all[i] is Store) by {
        assert(all[i] == crate::laws::data::taken(z, data, end)[i - out.len()]);
    }
    lemma_stored_quiet(one, all);
}

/// A frame of file data is stored as it was sent, whatever subpackets it is
/// cut into: the file has just these bytes more, and the receiver stands
/// behind them and waits for a header.
pub proof fn frame_is_stored(r: Run, chunks: Seq<Chunk>, flags: u32)
    requires
        r.z.wf(),
        crate::laws::pieces::awaits_data(r.z),
        crate::frame::wide(flags) == r.z.sp_wide,
        frame_of(chunks),
        r.z.recv_pos + chunk_bytes(chunks).len() <= u64::MAX,
    ensures
        ({
            let q = took(r, chunks, flags);
            &&& crate::laws::transfer::stored(q.out) == crate::laws::transfer::stored(r.out)
                + chunk_bytes(chunks)
            &&& q.z == (Session {
                recv_pos: (r.z.recv_pos + chunk_bytes(chunks).len()) as u64,
                in_data_frame: false,
                ..r.z
            })
        }),
    decreases chunks.len(),
{
    let c = chunks[0];
    let rest = chunks.skip(1);
    let line = crate::frame::subpacket_of(c.data, c.end, flags);
    assert(c.end == ZCRCE || c.end == ZCRCG || c.end == ZCRCQ || c.end == ZCRCW) by {
        if chunks.len() == 1 {
            assert(chunks.last() == c);
        }
    }
    let one = seq![line];
    assert(one.skip(1) =~= Seq::<Seq<u8>>::empty());
    assert(crate::laws::pieces::joined(one.skip(1)) =~= Seq::<u8>::empty());
    assert(crate::laws::pieces::joined(one) =~= line);
    data_in_pieces(r, c.data, c.end, flags, one);
    crate::laws::upload::lemma_fed_one(r, line);
    let q = r.feed(line);
    lemma_stored_any(r.out, r.z, c.data, c.end);
    crate::laws::codes::positions_add_up(r.z.recv_pos, c.data.len());
    assert(crate::laws::transfer::stored(r.out) + c.data + chunk_bytes(rest)
        =~= crate::laws::transfer::stored(r.out) + chunk_bytes(chunks));
    if chunks.len() == 1 {
        assert(chunk_bytes(rest) =~= Seq::<u8>::empty());
        assert(chunks.last() == c);
        assert(took(q, rest, flags) == q);
        assert(crate::laws::transfer::stored(r.out) + c.data + chunk_bytes(rest)
            =~= crate::laws::transfer::stored(r.out) + c.data);
    } else {
        assert forall|i: int| 0 <= i < rest.len() - 1 implies (#[trigger] rest[i]).end == ZCRCG
            || rest[i].end == ZCRCQ by {
            assert(chunks[i + 1].end == ZCRCG || chunks[i + 1].end == ZCRCQ);
        }
        assert(rest.last() == chunks.last());
        frame_is_stored(q, rest, flags);
    }
}

/// A file is done once the sender says that it ends where the received data
/// end: it is flushed, closed and told of under its name.
pub proof fn download_is_completed(r: Run, chunks: Seq<Chunk>, flags: u32)
    requires
        r.z.wf(),
        crate::laws::pieces::awaits_data(r.z),
        crate::frame::wide(flags) == r.z.sp_wide,
        frame_of(chunks),
        r.z.recv_pos + chunk_bytes(chunks).len() <= u32::MAX,
    ensures
        ({
            let m = took(r, chunks, flags);
            let end = (r.z.recv_pos + chunk_bytes(chunks).len()) as u32;
            let q = m.feed(crate::frame::hex_header_of(ZEOF, crate::bytes::le32(end)));
            &&& crate::laws::transfer::stored(q.out) == crate::laws::transfer::stored(r.out)
                + chunk_bytes(chunks)
            &&& q.out.len() == m.out.len() + 3
            &&& q.out.take(m.out.len() as int) == m.out
            &&& q.out[m.out.len() as int] == EventView::Sync
            &&& q.out[m.out.len() as int + 1] == EventView::Done {
                name: r.z.recv_name,
                dir: "down"@,
            }
            &&& q.z.state == State::RecvWaitNext
            &&& !q.z.recv_open
        }),
{
    frame_is_stored(r, chunks, flags);
    let m = took(r, chunks, flags);
    end_completes_file(m);
    let q = m.feed(crate::frame::hex_header_of(ZEOF, crate::protocol::pos_data(m.z.recv_pos)));
    assert(q.out.take(m.out.len() as int) =~= m.out);
    lemma_stored_quiet(m.out, q.out);
}

} // verus!
