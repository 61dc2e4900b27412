//! Whole sessions: a list of files goes from one engine to another, and both
//! give the line back to the terminal.

use vstd::prelude::*;

use crate::event::EventView;
use crate::frame::{CANFC32, CANFDX, CANOVIO, ZFIN, ZRINIT};
use crate::laws::exchange::{lemma_delivery_starts, lemma_wrote, lemma_written_start};
use crate::laws::session::{
    last_word_is_swallowed, next_file_is_asked_for, receive_begins, receive_ends, send_begins,
    send_ends,
};
use crate::laws::upload::{lemma_fed_one, lemma_nothing_written, rest_of_file_arrives};
use crate::protocol::{Run, Session, State};

verus! {

/// A file to send: its name, and what is read of it, call by call.
pub struct Upload {
    pub name: Seq<char>,
    pub batches: Seq<Seq<Seq<u8>>>,
}

/// The name can be offered, and the file was read to its end, which is below
/// 4 GiB.
pub open spec fn sendable(f: Upload) -> bool {
    &&& forall|i: int| 0 <= i < f.name.len() ==> #[trigger] f.name[i] != '\0'
    &&& crate::laws::upload::proper(f.batches)
    &&& crate::laws::upload::content(f.batches).len() <= u32::MAX
}

/// The size of a file to send.
pub open spec fn size_of(f: Upload) -> u64 {
    crate::laws::upload::content(f.batches).len() as u64
}

/// The events `after` begin with `before`, and nothing behind is for the
/// terminal.
pub open spec fn unseen(before: Seq<EventView>, after: Seq<EventView>) -> bool {
    &&& before.len() <= after.len()
    &&& after.take(before.len() as int) == before
    &&& forall|i: int| before.len() <= i < after.len() ==> !(#[trigger] after[i] is Forward)
}

/// The event `e` stands in `after` behind the events `before`.
pub open spec fn told(before: Seq<EventView>, after: Seq<EventView>, e: EventView) -> bool {
    exists|i: int| before.len() <= i < after.len() && #[trigger] after[i] == e
}

proof fn lemma_unseen_joins(a: Seq<EventView>, b: Seq<EventView>, c: Seq<EventView>)
    requires
        unseen(a, b),
        unseen(b, c),
    ensures
        unseen(a, c),
{
    assert(c.take(b.len() as int).take(a.len() as int) =~= c.take(a.len() as int));
    assert forall|i: int| a.len() <= i < c.len() implies !(#[trigger] c[i] is Forward) by {
        if i < b.len() {
            assert(c.take(b.len() as int)[i] == c[i]);
            assert(!(b[i] is Forward));
        }
    }
}

proof fn lemma_unseen_keeps(a: Seq<EventView>, b: Seq<EventView>, i: int)
    requires
        unseen(a, b),
        0 <= i < a.len(),
    ensures
        b[i] == a[i],
{
    assert(b.take(a.len() as int)[i] == b[i]);
}

/// A file goes over: it is offered, accepted, read, pumped and heard, and then
/// the sender hears that the receiver is ready for the next one.
pub open spec fn gone_over(s: Run, r: Run, f: Upload) -> (Run, Run) {
    let (p, q) = crate::laws::exchange::delivered(s, r, f.name, size_of(f), f.batches);
    let asked = crate::laws::exchange::willing(s, r, f.name, size_of(f));
    (crate::laws::upload::hears(p, asked, q), q)
}

/// A sender that is to open a file, and a receiver that waits for one.
pub open spec fn facing(s: Session, r: Session) -> bool {
    &&& s.wf()
    &&& s.state == State::SendOpening
    &&& s.buf.len() == 0
    &&& r.wf()
    &&& r.state == State::RecvWaitFile || r.state == State::RecvWaitNext
    &&& !r.pending_zfile
    &&& r.buf.len() == 0
}

/// What a receiver writes from its acceptance to the end of a file.
proof fn lemma_ready_again(a: Run, q: Run)
    requires
        crate::laws::upload::completed(a, q),
    ensures
        crate::laws::upload::written(crate::laws::upload::news(a, q)) == seq![
            crate::frame::hex_header_of(ZRINIT, crate::protocol::our_flags()),
        ],
        unseen(a.out, q.out),
{
    let w = crate::frame::hex_header_of(ZRINIT, crate::protocol::our_flags());
    let len = q.out.len() as int;
    let m = q.out.take(len - 3);
    assert forall|i: int| a.out.len() <= i < len - 1 implies !(#[trigger] q.out[i] is Write)
        && !(q.out[i] is Forward) by {
        if i < len - 3 {
            assert(m[i] == q.out[i]);
        }
    }
    assert(q.out.take(a.out.len() as int) =~= m.take(a.out.len() as int));
    let n = crate::laws::upload::news(a, q);
    let t = n.drop_last();
    assert forall|i: int| 0 <= i < t.len() implies !(#[trigger] t[i] is Write) by {
        assert(t[i] == q.out[a.out.len() + i]);
    }
    lemma_nothing_written(t);
    assert(n.last() == EventView::Write(w));
    assert(crate::laws::upload::written(n) =~= seq![w]);
}

/// The sender of a file keeps its events while it pumps, and shows nothing.
proof fn lemma_pumping_unseen(s: Run, r: Run, batches: Seq<Seq<Seq<u8>>>)
    requires
        s.z.send_open,
    ensures
        unseen(s.out, crate::laws::upload::conveyed(s, r, batches).0.out),
    decreases batches.len(),
{
    assert(s.out.take(s.out.len() as int) =~= s.out);
    if batches.len() > 0 && s.z.state == State::Streaming {
        let p = s.pump(batches[0]);
        crate::laws::upload::pump_writes(s, batches[0]);
        assert(unseen(s.out, p.out));
        lemma_pumping_unseen(p, crate::laws::upload::hears(r, s, p), batches.skip(1));
        lemma_unseen_joins(
            s.out,
            p.out,
            crate::laws::upload::conveyed(s, r, batches).0.out,
        );
    }
}

/// A file goes over whole. The receiver has stored just what was read, and its
/// user was asked about the file, by the last part of its name and its size,
/// and told when it was done; so was the user of the sender. Nothing of it
/// gets on a terminal. The sender then asks for its next file, or says that it
/// is done.
pub proof fn file_goes_over(s: Run, r: Run, f: Upload)
    requires
        facing(s.z, r.z),
        sendable(f),
    ensures
        ({
            let (p, q) = gone_over(s, r, f);
            let name = crate::text::base_of(f.name);
            &&& crate::laws::transfer::stored(q.out) == crate::laws::transfer::stored(r.out)
                + crate::laws::upload::content(f.batches)
            &&& told(r.out, q.out, EventView::RecvOffer { name, size: size_of(f) })
            &&& told(r.out, q.out, EventView::Done { name, dir: "down"@ })
            &&& told(s.out, p.out, EventView::Done { name: f.name, dir: "up"@ })
            &&& unseen(s.out, p.out)
            &&& unseen(r.out, q.out)
            &&& p.z.files == s.z.files
            &&& p.z.file_idx == s.z.file_idx + 1
            &&& q.z.state == State::RecvWaitNext
            &&& q.z.wf()
            &&& q.z.buf.len() == 0
            &&& s.z.file_idx + 1 < s.z.files.len() ==> facing(p.z, q.z)
            &&& s.z.file_idx + 1 == s.z.files.len() ==> {
                &&& p.z.wf()
                &&& p.z.state == State::FinWait
                &&& p.z.buf.len() == 0
                &&& p.out.last() == EventView::Write(
                    crate::frame::hex_header_of(ZFIN, crate::protocol::zeros()),
                )
            }
        }),
{
    let name = f.name;
    let size = size_of(f);
    let flags = CANFDX | CANOVIO | CANFC32;
    let s1 = s.opened(Some(name), Some(size));
    let s2 = crate::laws::exchange::started(s, name, size);
    let r1 = crate::laws::exchange::willing(s, r, name, size);
    let r2 = crate::laws::upload::hears(r1, s1, s2);
    lemma_delivery_starts(s, r, name, size);
    lemma_written_start(s, r, name, size);
    rest_of_file_arrives(s2, r2, f.batches);
    let (s3, q) = crate::laws::exchange::delivered(s, r, name, size, f.batches);
    assert((s3, q) == crate::laws::upload::conveyed(s2, r2, f.batches));
    let ready = crate::frame::hex_header_of(ZRINIT, crate::protocol::our_flags());
    assert(crate::laws::upload::completed(r2, q));
    assert(crate::laws::upload::completed(r1, q)) by {
        assert(r1.out == r2.out);
        assert(r1.z.recv_name == r2.z.recv_name);
    }
    lemma_ready_again(r1, q);
    lemma_fed_one(s3, ready);
    let p = s3.feed(ready);
    assert(s3.z.wf());
    next_file_is_asked_for(s3, flags);
    // the receiver
    assert(r1.out.take(r.out.len() as int) =~= r.out);
    assert(unseen(r.out, r1.out));
    lemma_unseen_joins(r.out, r1.out, q.out);
    let i = r.out.len() as int;
    lemma_unseen_keeps(r1.out, q.out, i);
    assert(q.out[i] == EventView::RecvOffer { name: crate::text::base_of(name), size });
    assert(q.out[q.out.len() - 2] == EventView::Done {
        name: crate::text::base_of(name),
        dir: "down"@,
    });
    // the sender
    assert(s2.out.take(s.out.len() as int) =~= s.out);
    assert(unseen(s.out, s2.out));
    lemma_pumping_unseen(s2, r2, f.batches);
    lemma_unseen_joins(s.out, s2.out, s3.out);
    assert(p.out.take(s3.out.len() as int) =~= s3.out);
    assert(unseen(s3.out, p.out));
    lemma_unseen_joins(s.out, s3.out, p.out);
    assert(p.out[s3.out.len() as int] == EventView::Done { name, dir: "up"@ });
}

/// A list of files goes over, one after the other.
pub open spec fn all_over(s: Run, r: Run, files: Seq<Upload>) -> (Run, Run)
    decreases files.len(),
{
    if files.len() == 0 {
        (s, r)
    } else {
        let (p, q) = gone_over(s, r, files[0]);
        all_over(p, q, files.skip(1))
    }
}

/// The bytes of all files, one after the other.
pub open spec fn contents(files: Seq<Upload>) -> Seq<u8>
    decreases files.len(),
{
    if files.len() == 0 {
        Seq::empty()
    } else {
        crate::laws::upload::content(files[0].batches) + contents(files.skip(1))
    }
}

/// Of each file it was told on both sides that it is done: to the sender
/// between the events `a` and `b`, to the receiver between `c` and `d`.
pub open spec fn each_told(
    a: Seq<EventView>,
    b: Seq<EventView>,
    c: Seq<EventView>,
    d: Seq<EventView>,
    files: Seq<Upload>,
) -> bool {
    forall|i: int| 0 <= i < files.len() ==> done_told(a, b, c, d, #[trigger] files[i])
}

/// Of the file `f` it was told on both sides that it is done.
pub open spec fn done_told(
    a: Seq<EventView>,
    b: Seq<EventView>,
    c: Seq<EventView>,
    d: Seq<EventView>,
    f: Upload,
) -> bool {
    &&& told(a, b, EventView::Done { name: f.name, dir: "up"@ })
    &&& told(c, d, EventView::Done { name: crate::text::base_of(f.name), dir: "down"@ })
}

proof fn lemma_each_told(
    s: Run,
    r: Run,
    p: Run,
    q: Run,
    p2: Run,
    q2: Run,
    files: Seq<Upload>,
)
    requires
        files.len() > 0,
        unseen(s.out, p.out),
        unseen(r.out, q.out),
        unseen(p.out, p2.out),
        unseen(q.out, q2.out),
        done_told(s.out, p.out, r.out, q.out, files[0]),
        each_told(p.out, p2.out, q.out, q2.out, files.skip(1)),
    ensures
        each_told(s.out, p2.out, r.out, q2.out, files),
{
    assert forall|i: int| 0 <= i < files.len() implies done_told(
        s.out,
        p2.out,
        r.out,
        q2.out,
        #[trigger] files[i],
    ) by {
        let f = files[i];
        let up = EventView::Done { name: f.name, dir: "up"@ };
        let down = EventView::Done { name: crate::text::base_of(f.name), dir: "down"@ };
        if i == 0 {
            lemma_told_stays(s.out, p.out, p2.out, up);
            lemma_told_stays(r.out, q.out, q2.out, down);
        } else {
            assert(f == files.skip(1)[i - 1]);
            lemma_told_earlier(s.out, p.out, p2.out, up);
            lemma_told_earlier(r.out, q.out, q2.out, down);
        }
    }
}

proof fn lemma_told_earlier(
    a: Seq<EventView>,
    b: Seq<EventView>,
    c: Seq<EventView>,
    e: EventView,
)
    requires
        a.len() <= b.len(),
        told(b, c, e),
    ensures
        told(a, c, e),
{
    let i = choose|i: int| b.len() <= i < c.len() && #[trigger] c[i] == e;
    assert(c[i] == e);
}

/// All files of a list go over, in order: each is stored whole and told to be
/// done on both sides, and after the last one the sender says that it is done.
pub proof fn files_go_over(s: Run, r: Run, files: Seq<Upload>)
    requires
        facing(s.z, r.z),
        files.len() > 0,
        s.z.file_idx + files.len() == s.z.files.len(),
        forall|i: int| 0 <= i < files.len() ==> sendable(#[trigger] files[i]),
    ensures
        ({
            let (p, q) = all_over(s, r, files);
            &&& crate::laws::transfer::stored(q.out) == crate::laws::transfer::stored(r.out)
                + contents(files)
            &&& each_told(s.out, p.out, r.out, q.out, files)
            &&& unseen(s.out, p.out)
            &&& unseen(r.out, q.out)
            &&& p.z.wf()
            &&& p.z.state == State::FinWait
            &&& p.z.buf.len() == 0
            &&& p.out.last() == EventView::Write(
                crate::frame::hex_header_of(ZFIN, crate::protocol::zeros()),
            )
            &&& p.out.len() > s.out.len()
            &&& q.z.wf()
            &&& q.z.state == State::RecvWaitNext
            &&& q.z.buf.len() == 0
        }),
    decreases files.len(),
{
    let f = files[0];
    let rest = files.skip(1);
    let (p, q) = gone_over(s, r, f);
    assert(sendable(files[0]));
    file_goes_over(s, r, f);
    let (p2, q2) = all_over(s, r, files);
    assert((p2, q2) == all_over(p, q, rest));
    let here = crate::laws::upload::content(f.batches);
    assert(crate::laws::transfer::stored(r.out) + here + contents(rest)
        =~= crate::laws::transfer::stored(r.out) + contents(files));
    if rest.len() == 0 {
        assert((p2, q2) == (p, q));
        assert(contents(rest) =~= Seq::<u8>::empty());
        assert(crate::laws::transfer::stored(r.out) + here + contents(rest)
            =~= crate::laws::transfer::stored(r.out) + here);
    } else {
        assert forall|i: int| 0 <= i < rest.len() implies sendable(#[trigger] rest[i]) by {
            assert(sendable(files[i + 1]));
        }
        files_go_over(p, q, rest);
        lemma_unseen_joins(s.out, p.out, p2.out);
        lemma_unseen_joins(r.out, q.out, q2.out);
        lemma_each_told(s, r, p, q, p2, q2, files);
    }
}

proof fn lemma_told_stays(
    a: Seq<EventView>,
    b: Seq<EventView>,
    c: Seq<EventView>,
    e: EventView,
)
    requires
        told(a, b, e),
        unseen(b, c),
    ensures
        told(a, c, e),
{
    let i = choose|i: int| a.len() <= i < b.len() && #[trigger] b[i] == e;
    lemma_unseen_keeps(b, c, i);
    assert(c[i] == e);
}

/// The end of a session: the receiver hears that the sender is done, the
/// sender hears the answer, and the receiver hears the last word.
pub open spec fn parted(s: Run, r: Run, fin: Seq<u8>) -> (Run, Run) {
    let r1 = r.feed(fin);
    let s1 = crate::laws::upload::hears(s, r, r1);
    (s1, crate::laws::upload::hears(r1, s, s1))
}

/// Two sides part: both sessions are over, both users are told, and the lines
/// are the terminals' again, without any trace of the transfer.
pub proof fn sides_part(s: Run, r: Run)
    requires
        s.z.wf(),
        s.z.state == State::FinWait,
        s.z.buf.len() == 0,
        r.z.wf(),
        r.z.state == State::RecvWaitNext,
        r.z.buf.len() == 0,
    ensures
        ({
            let (p, q) = parted(
                s,
                r,
                crate::frame::hex_header_of(ZFIN, crate::protocol::zeros()),
            );
            &&& p.z.closed()
            &&& q.z.closed()
            &&& !q.z.farewell
            &&& p.z.buf.len() == 0
            &&& q.z.buf.len() == 0
            &&& p.out.last() == EventView::Finished
            &&& told(r.out, q.out, EventView::Finished)
            &&& unseen(s.out, p.out)
            &&& crate::laws::line::shown(q.out) == crate::laws::line::shown(r.out)
            &&& crate::laws::transfer::stored(q.out) == crate::laws::transfer::stored(r.out)
        }),
{
    let fin = crate::frame::hex_header_of(ZFIN, crate::protocol::zeros());
    let word = seq![0x4fu8, 0x4f];
    let none = Seq::<u8>::empty();
    receive_ends(r);
    let r1 = r.feed(fin);
    assert(r1.z.wf()) by {
        crate::laws::line::hex_header_is_heard(r, ZFIN, crate::protocol::zeros());
        crate::protocol::lemma_on_header(
            r,
            crate::frame::HeaderView {
                enc: crate::frame::ZHEX,
                typ: ZFIN,
                data: crate::protocol::zeros(),
            },
        );
    }
    lemma_wrote_first(r, r1, fin);
    lemma_fed_one(s, fin);
    send_ends(s);
    let s1 = s.feed(fin);
    crate::laws::line::hex_header_is_heard(s, ZFIN, crate::protocol::zeros());
    crate::protocol::lemma_on_header(
        s,
        crate::frame::HeaderView {
            enc: crate::frame::ZHEX,
            typ: ZFIN,
            data: crate::protocol::zeros(),
        },
    );
    lemma_wrote_first(s, s1, word);
    lemma_fed_one(r1, word);
    assert(s1.out.take(s.out.len() as int) =~= s.out);
    assert(r1.z.buf + word =~= word);
    assert(word.skip(2) =~= none);
    last_word_is_swallowed(r1, word);
    let q = r1.feed(word);
    lemma_hidden(r.out, r1.out);
    assert(crate::laws::line::shown(r1.out) + none =~= crate::laws::line::shown(r1.out));
    crate::laws::list::lemma_shown_grows(r1.out, q.out);
    assert(crate::laws::line::shown(q.out) + q.z.buf == crate::laws::line::shown(r1.out));
    assert(q.z.buf =~= none);
    assert(crate::laws::line::shown(q.out) + none =~= crate::laws::line::shown(q.out));
    assert(r1.out.take(r.out.len() as int) =~= r.out);
    crate::laws::transfer::lemma_stored_quiet(r.out, r1.out);
    crate::laws::transfer::lemma_stored_quiet(r1.out, q.out);
    let i = r.out.len() as int + 1;
    assert(q.out.take(r1.out.len() as int)[i] == q.out[i]);
    assert(q.out[i] == EventView::Finished);
}

/// One thing was written, and something else came behind it.
proof fn lemma_wrote_first(a: Run, b: Run, w: Seq<u8>)
    requires
        b.out == a.out.push(EventView::Write(w)).push(EventView::Finished),
    ensures
        crate::laws::upload::written(crate::laws::upload::news(a, b)) == seq![w],
{
    let n = crate::laws::upload::news(a, b);
    let m = Run { z: a.z, out: a.out.push(EventView::Write(w)) };
    lemma_wrote(a, m, w);
    assert(n.drop_last() =~= crate::laws::upload::news(a, m));
    assert(crate::laws::upload::written(n) =~= seq![w]);
}

/// Bytes shown are never taken back.
pub proof fn lemma_shown_grows(a: Seq<EventView>, b: Seq<EventView>)
    requires
        crate::laws::line::only_shown(a, b),
    ensures
        crate::laws::line::shown(b).len() >= crate::laws::line::shown(a).len(),
    decreases b.len(),
{
    if a.len() == b.len() {
        assert(b.take(a.len() as int) =~= b);
    } else {
        let c = b.drop_last();
        assert(c.take(a.len() as int) =~= b.take(a.len() as int));
        lemma_shown_grows(a, c);
    }
}

/// Events that are not for the terminal leave what is shown.
proof fn lemma_hidden(a: Seq<EventView>, b: Seq<EventView>)
    requires
        b == a.push(b[a.len() as int]).push(EventView::Finished),
        !(b[a.len() as int] is Forward),
        b.len() == a.len() + 2,
    ensures
        crate::laws::line::shown(b) == crate::laws::line::shown(a),
{
    let m = b.drop_last();
    assert(m.drop_last() =~= a);
    assert(crate::laws::line::shown(m) =~= crate::laws::line::shown(a));
    assert(crate::laws::line::shown(b) =~= crate::laws::line::shown(m));
}

/// A new engine that has heard what an invited one answers, and then was given
/// files to send.
pub open spec fn asked_to_send(paths: Seq<Seq<char>>) -> Run {
    crate::laws::upload::hears(
        crate::laws::exchange::newborn(),
        crate::laws::exchange::newborn(),
        crate::laws::exchange::invited(),
    ).start_send(paths)
}

/// A whole session between two new engines. Each hears just what the other one
/// writes, from the answer to the invitation to the last word. All files
/// arrive, in order and whole, both sides end their sessions, and nothing of
/// it gets on a terminal.
pub proof fn session_goes_through(paths: Seq<Seq<char>>, files: Seq<Upload>)
    requires
        files.len() > 0,
        paths.len() == files.len(),
        forall|i: int| 0 <= i < files.len() ==> sendable(#[trigger] files[i]),
    ensures
        ({
            let s = asked_to_send(paths);
            let r = crate::laws::exchange::invited();
            let (s1, r1) = all_over(s, r, files);
            let (p, q) = parted(
                s1,
                r1,
                crate::frame::hex_header_of(ZFIN, crate::protocol::zeros()),
            );
            &&& s1.out.last() == EventView::Write(
                crate::frame::hex_header_of(ZFIN, crate::protocol::zeros()),
            )
            &&& crate::laws::transfer::stored(q.out) == contents(files)
            &&& crate::laws::line::shown(q.out).len() == 0
            &&& p.z.closed()
            &&& q.z.closed()
            &&& p.out.last() == EventView::Finished
        }),
{
    let flags = CANFDX | CANOVIO | CANFC32;
    let none = Seq::<EventView>::empty();
    let n = crate::laws::exchange::newborn();
    let r = crate::laws::exchange::invited();
    let ready = crate::frame::hex_header_of(ZRINIT, crate::protocol::our_flags());
    receive_begins(n, crate::protocol::zeros());
    send_begins(n, flags);
    lemma_wrote(n, r, ready);
    lemma_fed_one(n, ready);
    let s = asked_to_send(paths);
    assert(facing(s.z, r.z));
    files_go_over(s, r, files);
    let (s1, r1) = all_over(s, r, files);
    sides_part(s1, r1);
    assert(r.out =~= none.push(EventView::Write(ready)));
    assert(r.out.drop_last() =~= none);
    assert(crate::laws::line::shown(none).len() == 0);
    assert(crate::laws::line::shown(r.out).len() == 0);
    lemma_unseen_shown(r.out, r1.out);
    assert(crate::laws::transfer::stored(none) =~= Seq::<u8>::empty());
    assert(crate::laws::transfer::stored(r.out) =~= Seq::<u8>::empty());
    assert(crate::laws::transfer::stored(r.out) + contents(files) =~= contents(files));
}

/// Events that are not for the terminal leave what is shown.
proof fn lemma_unseen_shown(a: Seq<EventView>, b: Seq<EventView>)
    requires
        unseen(a, b),
    ensures
        crate::laws::line::shown(b) == crate::laws::line::shown(a),
    decreases b.len(),
{
    if a.len() == b.len() {
        assert(b.take(a.len() as int) =~= b);
    } else {
        let c = b.drop_last();
        assert(!(b[b.len() - 1] is Forward));
        assert(c.take(a.len() as int) =~= b.take(a.len() as int));
        lemma_unseen_shown(a, c);
        assert(crate::laws::line::shown(b) =~= crate::laws::line::shown(c));
    }
}

} // verus!
