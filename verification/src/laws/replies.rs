//! What each header calls for, in each state.

use vstd::prelude::*;

use crate::event::EventView;
use crate::frame::{
    HeaderView, CAN, ZABORT, ZACK, ZDATA, ZEOF, ZFERR, ZFILE, ZFIN, ZNAK, ZPAD, ZRINIT, ZRPOS,
    ZRQINIT, ZSINIT, ZSKIP,
};
use crate::laws::codes::numbers_are_words;
use crate::laws::exchange::{lemma_wrote, lemma_wrote_second, lemma_written_start};
use crate::laws::transfer::position_request_resyncs;
use crate::laws::upload::lemma_fed_one;
use crate::protocol::{Run, Session, State};

verus! {

/// The position that the data of a header give, least significant byte first.
pub open spec fn position_in(h: HeaderView) -> int {
    crate::laws::codes::worth(h.data[0], h.data[1], h.data[2], h.data[3])
}

/// The run `r` with no cancel characters counted and nothing of an earlier
/// session awaited, as any header leaves it.
pub open spec fn attentive(r: Run) -> Run {
    r.to(Session { can_count: 0, farewell: false, ..r.z })
}

/// An invitation is answered in any state: this side receives.
pub proof fn invitation_is_answered(r: Run, h: HeaderView)
    requires
        h.typ == ZRQINIT,
    ensures
        ({
            let q = r.on_header(h);
            &&& q.out == r.out.push(
                EventView::Write(
                    crate::frame::hex_header_of(ZRINIT, seq![0u8, 0, 0, 0x23]),
                ),
            )
            &&& q.z == (Session {
                peer_flags: 0,
                state: State::RecvWaitFile,
                ..attentive(r).z
            })
        }),
{
    reveal(Run::heard);
    let flags = crate::protocol::our_flags();
    assert((0x01u32 | 0x02u32 | 0x20u32) == 0x23 && ((0x23u32 & 0xff) as u8 == 0x23u8) && (((
    0x23u32 >> 8) & 0xff) as u8 == 0u8) && (((0x23u32 >> 16) & 0xff) as u8 == 0u8) && (((0x23u32
        >> 24) & 0xff) as u8 == 0u8))
        by (bit_vector);
    assert(flags =~= seq![0u8, 0, 0, 0x23]);
}

/// A receiver's capabilities are kept by any side that sends or may send, and
/// by no other one.
pub proof fn capabilities_are_kept(r: Run, h: HeaderView)
    requires
        h.typ == ZRINIT,
        h.data.len() == 4,
    ensures
        ({
            let q = r.on_header(h);
            let d = h.data;
            let told = crate::laws::codes::worth(d[3], d[2], d[1], d[0]);
            let sends = r.z.state == State::Idle || r.z.state == State::SendWaitFiles || r.z.state
                == State::SendWaitPos || r.z.state == State::Streaming || r.z.state
                == State::SendWaitEofAck;
            &&& sends ==> q.z.peer_flags == told
            &&& !sends ==> q == attentive(r)
            &&& r.z.state == State::SendWaitFiles || r.z.state == State::SendWaitPos || r.z.state
                == State::Streaming ==> q.out == r.out && q.z == (Session {
                peer_flags: q.z.peer_flags,
                ..attentive(r).z
            })
        }),
{
    numbers_are_words(h.data);
    reveal(Run::heard);
}

/// An attention string is acknowledged, in any state, and changes nothing.
pub proof fn attention_is_acknowledged(r: Run, h: HeaderView)
    requires
        h.typ == ZSINIT,
    ensures
        r.on_header(h).z == attentive(r).z,
        r.on_header(h).out == r.out.push(
            EventView::Write(crate::frame::hex_header_of(ZACK, seq![0u8, 0, 0, 0])),
        ),
{
    reveal(Run::heard);
}

/// Data or an end for another place than the receiver stands at are refused:
/// the sender is told the place, nothing is stored, and the file is not done.
pub proof fn other_places_are_refused(r: Run, h: HeaderView)
    requires
        h.typ == ZDATA || h.typ == ZEOF,
        h.data.len() == 4,
        r.z.state == State::Receiving,
        position_in(h) != r.z.recv_pos,
    ensures
        r.on_header(h).z == attentive(r).z,
        r.on_header(h).out == r.out.push(
            EventView::Write(
                crate::frame::hex_header_of(ZRPOS, crate::bytes::le32(r.z.recv_pos as u32)),
            ),
        ),
{
    numbers_are_words(h.data);
    reveal(Run::heard);
}

/// Data for the place that the receiver stands at are taken, with checks of
/// the width that the header has.
pub proof fn data_in_place_are_taken(r: Run, h: HeaderView)
    requires
        h.typ == ZDATA,
        h.data.len() == 4,
        r.z.state == State::Receiving,
        position_in(h) == r.z.recv_pos,
    ensures
        ({
            let q = r.on_header(h);
            &&& q.out == r.out
            &&& q.z.in_data_frame
            &&& q.z.sp_wide == (h.enc == crate::frame::ZBIN32)
            &&& crate::laws::data::no_subpacket(q.z)
            &&& q.z.state == State::Receiving
            &&& q.z.recv_pos == r.z.recv_pos
            &&& q.z.recv_open == r.z.recv_open
            &&& q.z.recv_name == r.z.recv_name
            &&& q.z.recv_size == r.z.recv_size
        }),
{
    numbers_are_words(h.data);
    reveal(Run::heard);
}

/// A sender goes where the receiver asks it to, anywhere in its file.
pub proof fn sender_goes_to_place(r: Run, h: HeaderView)
    requires
        h.typ == ZRPOS,
        h.data.len() == 4,
        r.z.state == State::SendWaitPos || r.z.state == State::Streaming || r.z.state
            == State::SendWaitEofAck,
        r.z.send_open,
    ensures
        ({
            let q = r.on_header(h);
            let pos = position_in(h) as u64;
            &&& q.z == (Session { send_pos: pos, state: State::Streaming, ..attentive(r).z })
            &&& q.out == r.out.push(EventView::Seek(pos)).push(
                EventView::Write(
                    crate::frame::bin_header_of(
                        ZDATA,
                        crate::bytes::le32(pos as u32),
                        r.z.peer_flags,
                    ),
                ),
            )
        }),
{
    numbers_are_words(h.data);
    reveal(Run::heard);
}

/// A file that the receiver does not want is told of and passed over.
pub proof fn unwanted_file_is_passed_over(r: Run, h: HeaderView)
    requires
        h.typ == ZSKIP,
        r.z.wf(),
        r.z.state == State::SendWaitPos || r.z.state == State::Streaming,
    ensures
        ({
            let q = r.on_header(h);
            let n = r.out.len() as int;
            let more = r.z.file_idx + 1 < r.z.files.len();
            &&& q.out.len() >= n + 2
            &&& q.out.take(n) == r.out
            &&& q.out[n] == EventView::Error("remote skipped "@ + r.z.send_name)
            &&& q.out[n + 1] == EventView::Release
            &&& q.z.file_idx == r.z.file_idx + 1
            &&& q.z.files == r.z.files
            &&& !q.z.send_open
            &&& more ==> q.z.state == State::SendOpening && q.out.len() == n + 2
            &&& !more ==> q.z.state == State::FinWait && q.out == q.out.take(n + 2).push(
                EventView::Write(crate::frame::hex_header_of(ZFIN, seq![0u8, 0, 0, 0])),
            )
        }),
{
    reveal(Run::heard);
    let q = r.on_header(h);
    let n = r.out.len() as int;
    assert(q.out.take(n) =~= r.out);
    if r.z.file_idx + 1 >= r.z.files.len() {
        assert(q.out =~= q.out.take(n + 2).push(q.out.last()));
    }
}

/// An offer that was not understood is made again: the same file is asked for.
pub proof fn offer_is_made_again(r: Run, h: HeaderView)
    requires
        h.typ == ZNAK,
        r.z.wf(),
        r.z.state == State::SendWaitPos,
    ensures
        r.on_header(h).out == r.out,
        r.on_header(h).z.state == State::SendOpening,
        r.on_header(h).z.files == r.z.files,
        r.on_header(h).z.file_idx == r.z.file_idx,
{
    reveal(Run::heard);
}

/// A side that gives up ends the session in any state: the user is told, the
/// other side is answered, and nothing is left open.
pub proof fn remote_abort_ends(r: Run, h: HeaderView)
    requires
        h.typ == ZABORT || h.typ == ZFERR,
    ensures
        r.on_header(h).z.closed(),
        r.on_header(h).z.buf == r.z.buf,
        r.on_header(h).out == r.out.push(
            EventView::Error("remote aborted the transfer"@),
        ).push(EventView::Write(crate::frame::hex_header_of(ZFIN, seq![0u8, 0, 0, 0]))).push(
            EventView::Finished,
        ),
{
    reveal(Run::heard);
}

/// A header that a state does not wait for.
pub open spec fn out_of_place(state: State, typ: u8) -> bool {
    ||| (typ == ZDATA || typ == ZEOF) && state != State::Receiving
    ||| typ == ZRPOS && state != State::SendWaitPos && state != State::Streaming && state
        != State::SendWaitEofAck
    ||| typ == ZSKIP && state != State::SendWaitPos && state != State::Streaming
    ||| typ == ZNAK && state != State::SendWaitPos
    ||| typ == ZFIN && state != State::FinWait && state != State::RecvWaitNext && state
        != State::RecvWaitFile
    ||| typ != ZRQINIT && typ != ZRINIT && typ != ZSINIT && typ != ZFILE && typ != ZDATA && typ
        != ZEOF && typ != ZRPOS && typ != ZSKIP && typ != ZNAK && typ != ZFIN && typ != ZABORT
        && typ != ZFERR
}

/// A header that the session does not wait for is passed over.
pub proof fn headers_out_of_place_do_nothing(r: Run, h: HeaderView)
    requires
        out_of_place(r.z.state, h.typ),
    ensures
        r.on_header(h) == attentive(r),
{
    reveal(Run::heard);
}

/// A file that could not be created is declined: the user is told why, the
/// sender hears it, and goes on to its next file or says that it is done.
pub proof fn declined_file_is_passed_over(
    s: Run,
    r: Run,
    name: Seq<char>,
    size: u64,
    path: Seq<char>,
    reason: Seq<char>,
)
    requires
        crate::laws::list::facing(s.z, r.z),
        forall|i: int| 0 <= i < name.len() ==> #[trigger] name[i] != '\0',
    ensures
        ({
            let s1 = s.opened(Some(name), Some(size));
            let r1 = crate::laws::upload::hears(r, s, s1);
            let r2 = r1.not_accepted(path, reason);
            let s2 = crate::laws::upload::hears(s1, r1, r2);
            &&& r1.z.state == State::RecvWaitAccept
            &&& r2.out == r1.out.push(
                EventView::Error("cannot create "@ + path + ": "@ + reason),
            ).push(EventView::Write(crate::frame::hex_header_of(ZSKIP, seq![0u8, 0, 0, 0])))
            &&& r2.z.state == State::RecvWaitNext
            &&& crate::laws::transfer::stored(r2.out) == crate::laws::transfer::stored(r.out)
            &&& s2.out[s1.out.len() as int] == EventView::Error("remote skipped "@ + name)
            &&& s2.out[s1.out.len() as int + 1] == EventView::Release
            &&& s2.z.file_idx == s.z.file_idx + 1
            &&& s.z.file_idx + 1 < s.z.files.len() ==> s2.z.state == State::SendOpening
            &&& s.z.file_idx + 1 == s.z.files.len() ==> s2.z.state == State::FinWait
        }),
{
    let flags = s.z.peer_flags;
    let line = crate::laws::offer::offer_bytes(name, size, flags);
    let s1 = s.opened(Some(name), Some(size));
    lemma_written_start(s, r, name, size);
    lemma_wrote(s, s1, line);
    lemma_fed_one(r, line);
    crate::laws::offer::offer_arrives(r, name, size, flags);
    let r1 = crate::laws::offer::asked(r, name, size, flags);
    let r2 = r1.not_accepted(path, reason);
    let skip = crate::frame::hex_header_of(ZSKIP, crate::protocol::zeros());
    assert(r2.out.take(r1.out.len() as int) =~= r1.out);
    lemma_wrote_second(r1, r2, skip);
    lemma_fed_one(s1, skip);
    let w = s.to(
        Session {
            send_open: true,
            send_name: name,
            send_size: size,
            send_pos: 0,
            state: State::SendWaitPos,
            ..s.z
        },
    ).write(line);
    crate::laws::line::lemma_step_nothing(w);
    assert(s1 == w);
    crate::laws::line::hex_header_is_heard(s1, ZSKIP, crate::protocol::zeros());
    unwanted_file_is_passed_over(
        s1,
        HeaderView { enc: crate::frame::ZHEX, typ: ZSKIP, data: crate::protocol::zeros() },
    );
    assert(r2.out.take(r.out.len() as int) =~= r.out);
    crate::laws::transfer::lemma_stored_quiet(r.out, r2.out);
}

/// Data that arrive damaged are sent again: the receiver stores nothing and
/// asks for its place, the sender hears it, and both go on from that place.
pub proof fn damaged_data_are_sent_again(
    s: Run,
    r: Run,
    data: Seq<u8>,
    end: u8,
    sum: Seq<u8>,
    ctl: bool,
)
    requires
        s.z.wf(),
        s.z.sends(),
        crate::laws::line::listens(s.z),
        s.z.buf.len() == 0,
        r.z.wf(),
        crate::laws::pieces::awaits_data(r.z),
        r.z.recv_pos <= u32::MAX,
        crate::decode::is_end(end),
        sum.len() == crate::protocol::crc_len(r.z.sp_wide),
        sum != crate::frame::check_of(data.push(end), r.z.sp_wide),
    ensures
        ({
            let r1 = r.feed(crate::laws::data::framed(data, end, sum, ctl));
            let s1 = crate::laws::upload::hears(s, r, r1);
            let r2 = crate::laws::upload::hears(r1, s, s1);
            &&& crate::laws::transfer::stored(r1.out) == crate::laws::transfer::stored(r.out)
            &&& s1.out[s.out.len() as int] == EventView::Seek(r.z.recv_pos)
            &&& crate::laws::transfer::in_step(s1.z, r2.z)
            &&& r2.z.recv_pos == r.z.recv_pos
        }),
{
    let none = Seq::<u8>::empty();
    let line = crate::laws::data::framed(data, end, sum, ctl);
    let a = r.to(r.z.with_buf(line));
    assert(r.z.buf + line =~= line);
    assert(line + none =~= line);
    assert(r.z.buf =~= none);
    crate::laws::data::wrong_check_is_refused(a, data, end, sum, ctl, none);
    assert(a.step() == a.step_data()) by {
        reveal(Run::step);
        reveal(Run::dispatch);
    }
    assert(line.len() >= 2);
    crate::laws::line::lemma_settle_once(a);
    let r1 = r.feed(line);
    let place = crate::frame::hex_header_of(ZRPOS, crate::protocol::pos_data(r.z.recv_pos));
    assert(r1.out == r.out.push(EventView::Write(place)));
    assert(r1.z == (Session { in_data_frame: false, ..r.z }));
    lemma_wrote(r, r1, place);
    lemma_fed_one(s, place);
    position_request_resyncs(s, r1);
    let s1 = s.feed(place);
    let answer = crate::frame::bin_header_of(
        ZDATA,
        crate::protocol::pos_data(r.z.recv_pos),
        s.z.peer_flags,
    );
    assert(s1.out.take(s.out.len() as int) =~= s.out);
    lemma_wrote_second(s, s1, answer);
    lemma_fed_one(r1, answer);
    assert(r1.out.take(r.out.len() as int) =~= r.out);
    crate::laws::transfer::lemma_stored_quiet(r.out, r1.out);
    crate::laws::line::bin_header_is_heard(
        r1,
        ZDATA,
        crate::protocol::pos_data(r.z.recv_pos),
        s.z.peer_flags,
    );
    crate::bytes::le32_round_trip(r.z.recv_pos as u32);
    reveal(Run::heard);
}

/// A list of files is asked for from its first one on, as it was given.
pub proof fn first_file_is_asked_for(r: Run, paths: Seq<Seq<char>>)
    requires
        r.z.state == State::SendWaitFiles,
        paths.len() > 0,
    ensures
        ({
            let q = r.start_send(paths);
            &&& q.z.state == State::SendOpening
            &&& q.z.files == paths
            &&& q.z.file_idx == 0
            &&& q.out == r.out
            &&& q.z.peer_flags == r.z.peer_flags
            &&& q.z.buf == r.z.buf
        }),
{
}

/// A file is offered by its name and size; without a name as `file`, without a
/// size as empty.
pub proof fn file_is_offered(r: Run, name: Option<Seq<char>>, size: Option<u64>)
    requires
        r.z.state == State::SendOpening,
        r.z.buf.len() == 0,
    ensures
        ({
            let q = r.opened(name, size);
            let n = match name {
                Some(n) => n,
                None => seq!['f', 'i', 'l', 'e'],
            };
            let k = match size {
                Some(k) => k,
                None => 0,
            };
            &&& q.out == r.out.push(
                EventView::Write(crate::laws::offer::offer_bytes(n, k, r.z.peer_flags)),
            )
            &&& q.z.state == State::SendWaitPos
            &&& q.z.send_open
            &&& q.z.send_name == n
            &&& q.z.send_size == k
            &&& q.z.send_pos == 0
        }),
{
    reveal_strlit("file");
    assert("file"@ =~= seq!['f', 'i', 'l', 'e']);
    let n = match name {
        Some(n) => n,
        None => seq!['f', 'i', 'l', 'e'],
    };
    let k = match size {
        Some(k) => k,
        None => 0,
    };
    let w = r.to(
        Session {
            send_open: true,
            send_name: n,
            send_size: k,
            send_pos: 0,
            state: State::SendWaitPos,
            ..r.z
        },
    ).write(crate::laws::offer::offer_bytes(n, k, r.z.peer_flags));
    crate::laws::line::lemma_step_nothing(w);
}

/// Fewer than five cancel characters in a row change nothing but their count,
/// and another byte behind them makes it start anew.
pub proof fn few_cancels_do_nothing(r: Run, n: nat, b: u8)
    requires
        r.z.wf(),
        crate::laws::line::listens(r.z),
        r.z.state != State::Idle,
        r.z.buf.len() == 0,
        r.z.can_count + n < 5,
        b != CAN,
        b != ZPAD,
    ensures
        ({
            let s = Seq::new(n, |i: int| CAN);
            &&& r.feed(s) == r.to(Session { can_count: (r.z.can_count + n) as u8, ..r.z })
            &&& r.feed(s.push(b)) == r.to(Session { can_count: 0, ..r.z })
        }),
{
    let none = Seq::<u8>::empty();
    let s = Seq::new(n, |i: int| CAN);
    assert(r.z.buf =~= none);
    assert(r.z.buf + s =~= s + none);
    assert(r.z.buf + s.push(b) =~= s + seq![b]);
    if n > 0 {
        lemma_few_cancels(r, n, none);
        let a = r.to(r.z.with_buf(s + none));
        let q = r.to(Session { can_count: (r.z.can_count + n) as u8, buf: none, ..r.z });
        assert(q.step_frame() == q) by {
            crate::protocol::lemma_frame_start(q);
            reveal(Run::step_header);
        }
        assert(a.step() == q) by {
            reveal(Run::step);
            reveal(Run::dispatch);
        }
        crate::laws::line::lemma_settle_once(a);
    } else {
        assert(s + none =~= none);
        crate::laws::line::lemma_step_nothing(r);
    }
    lemma_few_cancels(r, n, seq![b]);
    let a = r.to(r.z.with_buf(s + seq![b]));
    let m = r.to(
        Session { can_count: (r.z.can_count + n) as u8, buf: seq![b], ..r.z },
    );
    let q = r.to(Session { can_count: 0, buf: none, ..r.z });
    crate::protocol::lemma_frame_byte(m);
    assert(seq![b].skip(1) =~= none);
    assert(q.step_frame() == q) by {
        crate::protocol::lemma_frame_start(q);
        reveal(Run::step_header);
    }
    assert(a.step() == q) by {
        reveal(Run::step);
        reveal(Run::dispatch);
    }
    crate::laws::line::lemma_settle_once(a);
}

proof fn lemma_few_cancels(r: Run, n: nat, rest: Seq<u8>)
    requires
        r.z.can_count + n < 5,
    ensures
        r.to(r.z.with_buf(Seq::new(n, |i: int| CAN) + rest)).step_frame() == r.to(
            Session { can_count: (r.z.can_count + n) as u8, buf: rest, ..r.z },
        ).step_frame(),
    decreases n,
{
    let s = Seq::new(n, |i: int| CAN);
    let a = r.to(r.z.with_buf(s + rest));
    if n == 0 {
        assert(s + rest =~= rest);
    } else {
        crate::protocol::lemma_frame_byte(a);
        let m = (n - 1) as nat;
        assert((s + rest).skip(1) =~= Seq::new(m, |i: int| CAN) + rest);
        lemma_few_cancels(
            r.to(Session { can_count: (r.z.can_count + 1) as u8, ..r.z }),
            m,
            rest,
        );
    }
}

/// The sender's last word is the letter O twice, with at most two characters
/// of the end of a line before it.
pub proof fn last_word_is_two_letters(s: Seq<u8>, n: int)
    requires
        0 <= n <= 2,
        n + 2 <= s.len(),
        forall|i: int|
            0 <= i < n ==> #[trigger] s[i] == 0x0d || s[i] == 0x0a || s[i] == 0x8d || s[i] == 0x8a
                || s[i] == 0x11 || s[i] == 0x13,
        s[n] == 0x4f,
    ensures
        crate::protocol::word_whole(s) <==> s[n + 1] == 0x4f,
        crate::protocol::word_whole(s) ==> crate::protocol::late_line_end(s) == n,
{
    assert(n > 0 ==> crate::protocol::is_eol(s[0]));
    assert(n > 1 ==> crate::protocol::is_eol(s[1]));
}

/// Bytes that begin neither with the letter O nor with the end of a line are
/// no last word.
pub proof fn other_bytes_are_no_word(s: Seq<u8>)
    requires
        s.len() > 0,
        s[0] != 0x4f,
        s[0] != 0x0d && s[0] != 0x0a && s[0] != 0x8d && s[0] != 0x8a && s[0] != 0x11 && s[0]
            != 0x13,
    ensures
        !crate::protocol::word_whole(s),
        !crate::protocol::word_begun(s),
{
}

} // verus!
