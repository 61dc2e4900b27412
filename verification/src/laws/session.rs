//! Sessions: how they begin and end, and how a list of files is worked off.

use vstd::prelude::*;

use crate::event::EventView;
use crate::frame::{CAN, ZFIN, ZRINIT, ZRQINIT};
use crate::laws::line::{hex_header_is_heard, lemma_step_nothing, terminal_bytes_are_shown};
use crate::protocol::{Run, Session, State};

verus! {

/// A remote side that wants to send is answered with this side's capabilities.
pub proof fn receive_begins(r: Run, data: Seq<u8>)
    requires
        r.z.wf(),
        crate::laws::line::at_rest(r.z),
        r.z.buf.len() == 0,
        data.len() == 4,
    ensures
        r.feed(crate::frame::hex_header_of(ZRQINIT, data)) == r.to(
            Session { peer_flags: 0, state: State::RecvWaitFile, can_count: 0, ..r.z },
        ).write(crate::frame::hex_header_of(ZRINIT, crate::protocol::our_flags())),
{
    hex_header_is_heard(r, ZRQINIT, data);
    reveal(Run::heard);
}

/// Of a remote side that is ready to receive, the capabilities are kept and
/// the user is told.
pub proof fn send_begins(r: Run, flags: u32)
    requires
        r.z.wf(),
        crate::laws::line::at_rest(r.z),
        r.z.buf.len() == 0,
    ensures
        r.feed(crate::frame::hex_header_of(ZRINIT, crate::bytes::be32(flags))) == r.to(
            Session { peer_flags: flags, state: State::SendWaitFiles, can_count: 0, ..r.z },
        ).emit(EventView::SendReady),
{
    hex_header_is_heard(r, ZRINIT, crate::bytes::be32(flags));
    crate::bytes::be32_round_trip(flags);
    reveal(Run::heard);
}

/// A sender that has said it is done answers the receiver's farewell, and the
/// session is over.
pub proof fn send_ends(r: Run)
    requires
        r.z.wf(),
        r.z.state == State::FinWait,
        r.z.buf.len() == 0,
    ensures
        ({
            let q = r.feed(crate::frame::hex_header_of(ZFIN, crate::protocol::zeros()));
            &&& q.out == r.out.push(EventView::Write(seq![0x4fu8, 0x4f])).push(EventView::Finished)
            &&& q.z.closed()
        }),
{
    hex_header_is_heard(r, ZFIN, crate::protocol::zeros());
    reveal(Run::heard);
}

/// A receiver answers the sender's farewell, and the session is over. Only the
/// sender's last word may still come.
pub proof fn receive_ends(r: Run)
    requires
        r.z.wf(),
        r.z.state == State::RecvWaitNext || r.z.state == State::RecvWaitFile
            && !r.z.pending_zfile,
        r.z.buf.len() == 0,
    ensures
        ({
            let fin = crate::frame::hex_header_of(ZFIN, crate::protocol::zeros());
            let q = r.feed(fin);
            &&& q.out == r.out.push(EventView::Write(fin)).push(EventView::Finished)
            &&& q.z.closed()
            &&& q.z.farewell
            &&& q.z.buf.len() == 0
        }),
{
    hex_header_is_heard(r, ZFIN, crate::protocol::zeros());
    reveal(Run::heard);
}

/// The sender's last word, the letter O twice, is swallowed, and with it what
/// is late of the line before: what comes behind it is shown as if it had not
/// come.
pub proof fn last_word_is_swallowed(r: Run, data: Seq<u8>)
    requires
        r.z.wf(),
        r.z.farewell,
        crate::protocol::word_whole(r.z.buf + data),
        ({
            let s = r.z.buf + data;
            crate::laws::line::no_header(s.skip(crate::protocol::late_line_end(s) + 2))
        }),
    ensures
        ({
            let s = r.z.buf + data;
            let rest = s.skip(crate::protocol::late_line_end(s) + 2);
            let q = r.feed(data);
            &&& q.z == (Session { buf: q.z.buf, farewell: false, ..r.z })
            &&& q.z.buf.len() < 18
            &&& crate::laws::line::shown(q.out) + q.z.buf == crate::laws::line::shown(r.out) + rest
            &&& crate::laws::line::only_shown(r.out, q.out)
        }),
{
    let s = r.z.buf + data;
    lemma_farewell_over(
        r.to(r.z.with_buf(s)),
        r.to(
            Session {
                buf: s.skip(crate::protocol::late_line_end(s) + 2),
                farewell: false,
                ..r.z
            },
        ),
    );
    reveal(Run::settle);
}

/// Anything else that comes after a session is shown: one letter O, say, or
/// line ends that no last word follows.
pub proof fn other_words_are_shown(r: Run, data: Seq<u8>)
    requires
        r.z.wf(),
        r.z.farewell,
        !crate::protocol::word_whole(r.z.buf + data),
        crate::laws::line::no_header(r.z.buf + data),
    ensures
        ({
            let s = r.z.buf + data;
            let q = r.feed(data);
            &&& q.z == (Session {
                buf: q.z.buf,
                farewell: crate::protocol::word_begun(s),
                ..r.z
            })
            &&& q.z.buf.len() < 18
            &&& crate::laws::line::shown(q.out) + q.z.buf == crate::laws::line::shown(r.out) + s
            &&& crate::laws::line::only_shown(r.out, q.out)
        }),
{
    let s = r.z.buf + data;
    if crate::protocol::word_begun(s) {
        last_word_in_pieces(r, data);
        assert(r.out.take(r.out.len() as int) =~= r.out);
    } else {
        lemma_farewell_over(
            r.to(r.z.with_buf(s)),
            r.to(Session { buf: s, farewell: false, ..r.z }),
        );
        reveal(Run::settle);
    }
}

/// The sender's last word may come in pieces: the start of it is kept.
pub proof fn last_word_in_pieces(r: Run, data: Seq<u8>)
    requires
        r.z.wf(),
        r.z.farewell,
        crate::protocol::word_begun(r.z.buf + data),
    ensures
        r.feed(data) == r.to(r.z.with_buf(r.z.buf + data)),
{
    let a = r.to(r.z.with_buf(r.z.buf + data));
    assert(a.step() == a) by {
        reveal(Run::step);
        reveal(Run::dispatch);
        reveal(Run::step_terminal);
    }
    reveal(Run::steps);
    reveal(Run::settle);
}

/// Once the last word has come, or cannot come, the line is the terminal's.
proof fn lemma_farewell_over(a: Run, b: Run)
    requires
        a.z.state == State::Idle,
        !a.z.pending_zfile,
        b == a.to(a.z.after_farewell()),
        !b.z.farewell,
        b.z.buf.len() <= a.z.buf.len(),
        crate::laws::line::no_header(b.z.buf),
    ensures
        a.steps().z == b.z.with_buf(a.steps().z.buf),
        a.steps().z.buf.len() < 18,
        crate::laws::line::shown(a.steps().out) + a.steps().z.buf == crate::laws::line::shown(
            a.out,
        ) + b.z.buf,
        crate::laws::line::only_shown(a.out, a.steps().out),
{
    assert(b.z.after_farewell() == b.z);
    assert(a.step() == b.step()) by {
        reveal(Run::step);
        reveal(Run::dispatch);
    }
    crate::laws::line::lemma_rest_step(b);
    crate::laws::line::lemma_rest_steps(b.step());
    crate::laws::line::lemma_only_shown_joins(a.out, b.step().out, b.step().steps().out);
    reveal(Run::steps);
}

/// After a file was received the sender asks for the next one of its list;
/// after the last one it says that it is done.
pub proof fn next_file_is_asked_for(r: Run, flags: u32)
    requires
        r.z.wf(),
        r.z.state == State::SendWaitEofAck,
        r.z.buf.len() == 0,
    ensures
        ({
            let q = r.feed(crate::frame::hex_header_of(ZRINIT, crate::bytes::be32(flags)));
            let told = r.out.push(EventView::Done { name: r.z.send_name, dir: "up"@ }).push(
                EventView::Release,
            );
            if r.z.file_idx + 1 < r.z.files.len() {
                &&& q.out == told
                &&& q.z == (Session {
                    peer_flags: flags,
                    can_count: 0,
                    send_open: false,
                    file_idx: r.z.file_idx + 1,
                    state: State::SendOpening,
                    resume: true,
                    ..r.z
                })
            } else {
                &&& q.out == told.push(
                    EventView::Write(
                        crate::frame::hex_header_of(ZFIN, crate::protocol::zeros()),
                    ),
                )
                &&& q.z == (Session {
                    peer_flags: flags,
                    can_count: 0,
                    send_open: false,
                    file_idx: r.z.file_idx + 1,
                    state: State::FinWait,
                    ..r.z
                })
            }
        }),
{
    hex_header_is_heard(r, ZRINIT, crate::bytes::be32(flags));
    crate::bytes::be32_round_trip(flags);
    reveal(Run::heard);
}

/// A sender after it failed to open one file after the other, for these
/// reasons.
pub open spec fn all_failed(r: Run, reasons: Seq<Seq<char>>) -> Run
    decreases reasons.len(),
{
    if reasons.len() == 0 {
        r
    } else {
        all_failed(r.not_opened(reasons[0]), reasons.skip(1))
    }
}

/// What is told of files that could not be opened.
pub open spec fn failures(files: Seq<Seq<char>>, reasons: Seq<Seq<char>>) -> Seq<EventView> {
    Seq::new(
        reasons.len(),
        |i: int| EventView::Error("cannot open "@ + files[i] + ": "@ + reasons[i]),
    )
}

/// A file that cannot be opened is told of and passed over. If no file of the
/// rest of the list can be opened, each is told of, in order, and the session
/// is closed.
pub proof fn unopened_files_are_passed_over(r: Run, reasons: Seq<Seq<char>>)
    requires
        r.z.wf(),
        r.z.state == State::SendOpening,
        r.z.buf.len() == 0,
        reasons.len() == r.z.files.len() - r.z.file_idx,
    ensures
        all_failed(r, reasons).z == (Session {
            file_idx: r.z.files.len() as int,
            state: State::FinWait,
            ..r.z
        }),
        all_failed(r, reasons).out == (r.out + failures(r.z.files.skip(r.z.file_idx), reasons)).push(
            EventView::Write(crate::frame::hex_header_of(ZFIN, crate::protocol::zeros())),
        ),
    decreases reasons.len(),
{
    let rest = r.z.files.skip(r.z.file_idx);
    let told = failures(rest, reasons);
    let q = r.not_opened(reasons[0]);
    let more = reasons.skip(1);
    let first = EventView::Error("cannot open "@ + r.z.files[r.z.file_idx] + ": "@ + reasons[0]);
    assert(told[0] == first);
    assert(all_failed(r, reasons) == all_failed(q, more));
    if r.z.file_idx + 1 < r.z.files.len() {
        assert(q.z == (Session { file_idx: r.z.file_idx + 1, ..r.z }));
        assert(q.out == r.out.push(first));
        unopened_files_are_passed_over(q, more);
        let later = failures(q.z.files.skip(q.z.file_idx), more);
        assert(r.out.push(first) + later =~= r.out + told) by {
            assert forall|i: int| 0 <= i < later.len() implies later[i] == told[i + 1] by {
                assert(q.z.files.skip(q.z.file_idx)[i] == rest[i + 1]);
            }
        }
    } else {
        let last = r.error("cannot open "@ + r.z.files[r.z.file_idx] + ": "@ + reasons[0]).to(
            Session { file_idx: r.z.file_idx + 1, ..r.z },
        ).next_file(r.z.resume);
        lemma_step_nothing(last);
        assert(q == last);
        assert(all_failed(q, more) == q);
        assert(r.out.push(first) =~= r.out + told);
    }
}

/// Giving up ends any session, at once and for good: the remote side is sent
/// cancel characters, and nothing is left open. Without a session nothing
/// happens.
pub proof fn cancel_ends(r: Run)
    ensures
        r.z.state == State::Idle ==> r.cancel() == r,
        r.z.state != State::Idle ==> r.cancel().z.closed() && r.cancel().out == r.out.push(
            EventView::Write(seq![CAN, CAN, CAN, CAN, CAN, 8u8, 8, 8, 8, 8]),
        ).push(EventView::Error("transfer cancelled"@)).push(EventView::Finished),
        r.cancel().cancel() == r.cancel(),
{
}

/// After the user gave up, the line is the terminal's again.
pub proof fn cancel_gives_line_back(r: Run, data: Seq<u8>)
    requires
        r.z.state != State::Idle,
        crate::laws::line::no_header(r.z.buf + data),
    ensures
        ({
            let c = r.cancel();
            let q = c.feed(data);
            &&& q.z.state == State::Idle
            &&& q.z.buf.len() < 18
            &&& crate::laws::line::shown(q.out) + q.z.buf == crate::laws::line::shown(c.out) + (
            r.z.buf + data)
            &&& crate::laws::line::only_shown(c.out, q.out)
        }),
{
    terminal_bytes_are_shown(r.cancel(), data);
}

/// A call that the session does not wait for changes nothing.
pub proof fn calls_out_of_turn_do_nothing(
    r: Run,
    path: Seq<char>,
    reason: Seq<char>,
    paths: Seq<Seq<char>>,
    name: Option<Seq<char>>,
    size: Option<u64>,
    reads: Seq<Seq<u8>>,
)
    ensures
        r.z.state != State::RecvWaitAccept ==> r.accepted() == r && r.not_accepted(path, reason)
            == r,
        r.z.state != State::SendWaitFiles || paths.len() == 0 ==> r.start_send(paths) == r,
        r.z.state != State::SendOpening ==> r.opened(name, size) == r && r.not_opened(reason) == r,
        r.z.state != State::Streaming ==> r.pump(reads) == r,
{
}

} // verus!
