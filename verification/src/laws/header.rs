//! Headers in pieces: they are heard however the line cuts them up.

use vstd::prelude::*;

use crate::frame::{HeaderView, CAN, ZACK, ZBIN, ZBIN32, ZFIN, ZHEX, ZPAD};
use crate::laws::line::{
    lemma_bin_header, lemma_bin_waits, lemma_hex_not_cut, lemma_noise, lemma_settle_once,
    lemma_step_nothing,
};
use crate::laws::settled::lemma_header_calms;
use crate::protocol::{Run, Session, State};

verus! {

/// The bytes of `pieces` that come behind the piece with which the first `n`
/// are complete.
pub open spec fn late_of(pieces: Seq<Seq<u8>>, n: int) -> Seq<u8>
    decreases pieces.len(),
{
    if pieces.len() == 0 {
        Seq::empty()
    } else if pieces[0].len() >= n {
        crate::laws::pieces::joined(pieces.skip(1))
    } else {
        late_of(pieces.skip(1), n - pieces[0].len())
    }
}

/// A run after the characters `late` of a line end. In a transfer they are
/// noise. Out of one they are kept back for the terminal, or for the last
/// word that may follow them; while a file is being opened all bytes wait.
pub open spec fn and_late(q: Run, late: Seq<u8>) -> Run {
    if q.z.state == State::Idle || q.z.state == State::SendOpening {
        q.to(q.z.with_buf(late))
    } else {
        q
    }
}

/// Characters that may follow a hex header.
spec fn line_end(s: Seq<u8>) -> bool {
    forall|i: int| 0 <= i < s.len() ==> crate::protocol::is_eol(#[trigger] s[i])
}

/// A run whose header has been heard, with room for the rest of its line.
spec fn ready_for(q: Run, n: nat) -> bool {
    &&& q.z.wf()
    &&& q.z.buf.len() == 0
    &&& q.z.can_count == 0
    &&& q.z.state == State::SendOpening ==> q.z.resume
    &&& n <= 3
    &&& q.z.farewell ==> n <= 2
    &&& n > 0 ==> crate::laws::line::listens(q.z) || q.z.state == State::SendOpening
}

/// One piece of a line end.
proof fn lemma_late_piece(q: Run, x: Seq<u8>, y: Seq<u8>)
    requires
        ready_for(q, (x + y).len()),
        line_end(x + y),
    ensures
        and_late(q, x).feed(y) == and_late(q, x + y),
{
    let m = and_late(q, x);
    let none = Seq::<u8>::empty();
    assert(q.z.buf =~= none);
    if q.z.state == State::Idle {
        let a = m.to(m.z.with_buf(x + y));
        assert(q.z.farewell ==> crate::protocol::word_begun(x + y));
        assert(a.z.after_farewell() == a.z);
        assert(a.step() == a) by {
            reveal(Run::step);
            reveal(Run::dispatch);
            reveal(Run::step_terminal);
        }
        reveal(Run::steps);
        reveal(Run::settle);
    } else if q.z.state == State::SendOpening {
    } else if y.len() == 0 {
        assert(q.z.buf + y =~= none);
        lemma_step_nothing(q);
    } else {
        let a = q.to(q.z.with_buf(y));
        assert(q.z.buf + y =~= y);
        assert forall|i: int| 0 <= i < y.len() implies #[trigger] y[i] != ZPAD && y[i] != CAN by {
            assert(crate::protocol::is_eol((x + y)[x.len() + i]));
        }
        assert(y + none =~= y);
        lemma_noise(a, y, none);
        let b = q.to(Session { buf: none, can_count: 0, ..q.z });
        assert(b == q);
        assert(a.step() == q.step()) by {
            reveal(Run::step);
            reveal(Run::dispatch);
        }
        lemma_step_nothing(q);
        lemma_settle_once(a);
    }
}

/// A line end of which `x` has come.
proof fn lemma_late_fed(q: Run, x: Seq<u8>, pieces: Seq<Seq<u8>>)
    requires
        ready_for(q, (x + crate::laws::pieces::joined(pieces)).len()),
        line_end(x + crate::laws::pieces::joined(pieces)),
    ensures
        crate::laws::pieces::fed(and_late(q, x), pieces) == and_late(
            q,
            x + crate::laws::pieces::joined(pieces),
        ),
    decreases pieces.len(),
{
    let all = x + crate::laws::pieces::joined(pieces);
    if pieces.len() == 0 {
        assert(all =~= x);
    } else {
        let y = pieces[0];
        let rest = pieces.skip(1);
        assert((x + y) + crate::laws::pieces::joined(rest) =~= all);
        assert forall|i: int| 0 <= i < (x + y).len() implies crate::protocol::is_eol(
            #[trigger] (x + y)[i],
        ) by {
            assert((x + y)[i] == all[i]);
        }
        lemma_late_piece(q, x, y);
        lemma_late_fed(q, x + y, rest);
    }
}

/// What follows the digits of a hex header.
proof fn lemma_hex_tail(typ: u8, data: Seq<u8>)
    requires
        data.len() == 4,
    ensures
        ({
            let s = crate::frame::hex_header_of(typ, data);
            &&& 20 <= s.len() <= 21
            &&& typ == ZFIN ==> s.len() == 20
            &&& line_end(s.skip(18))
        }),
{
    let s = crate::frame::hex_header_of(typ, data);
    crate::round_trip::hex_header_round_trip(typ, data, Seq::empty());
    let t = s.skip(18);
    assert(t[0] == 0x0d && t[1] == 0x0a);
    if typ != ZACK && typ != ZFIN {
        assert(t[2] == 0x11);
    }
}

/// What a header leaves behind.
proof fn lemma_heard_ready(r: Run, h: HeaderView)
    requires
        r.z.wf(),
        crate::laws::line::listens(r.z),
        r.z.buf.len() == 0,
    ensures
        ({
            let q = r.on_header(h);
            &&& q.z.wf()
            &&& q.z.buf.len() == 0
            &&& q.z.can_count == 0
            &&& q.z.state == State::SendOpening ==> q.z.resume
            &&& q.z.farewell ==> h.typ == ZFIN
        }),
{
    crate::protocol::lemma_on_header(r, h);
    lemma_header_calms(r, h);
    reveal(Run::heard);
    reveal(Run::on_pending);
    reveal(Run::cancelled);
}

/// The start `x` of a header has come.
spec fn begun(r: Run, x: Seq<u8>) -> Run {
    r.to(Session { buf: x, farewell: r.z.farewell && x.len() == 0, ..r.z })
}

/// The start of a hex header is kept.
proof fn lemma_hex_waits(r: Run, typ: u8, data: Seq<u8>, k: int)
    requires
        crate::laws::line::listens(r.z),
        data.len() == 4,
        0 <= k < 18,
    ensures
        ({
            let q = begun(r, crate::frame::hex_header_of(typ, data).take(k));
            q.step() == q
        }),
{
    let s = crate::frame::hex_header_of(typ, data);
    let none = Seq::<u8>::empty();
    let a = s.take(k);
    let q = begun(r, a);
    crate::round_trip::hex_header_round_trip(typ, data, none);
    assert(s + none =~= s);
    if k == 0 {
        lemma_step_nothing(q);
    } else if r.z.state == State::Idle {
        assert(q.step() == q) by {
            reveal(Run::step);
            reveal(Run::dispatch);
            reveal(Run::step_terminal);
            reveal(Run::step_signature);
            if k >= 4 {
                assert(crate::protocol::signature_at(a, 0));
            }
        }
    } else {
        assert(a[0] == s[0]);
        assert(k > 2 ==> a[1] == s[1] && a[2] == s[2]);
        assert(k > 3 ==> a[3] == s[3]);
        crate::laws::data::lemma_clean_hex_header(typ, data);
        crate::laws::data::lemma_clean_take(s, k);
        crate::laws::data::lemma_clean_not_cut(a, none);
        assert(a + none =~= a);
        crate::protocol::lemma_find_cancels(a);
        crate::protocol::lemma_frame_start(q);
        assert(q.step() == q) by {
            reveal(Run::step);
            reveal(Run::dispatch);
            reveal(Run::step_header);
        }
    }
}

/// The first eighteen bytes of a hex header, and what has come behind them,
/// make it heard.
proof fn lemma_hex_heard(a: Run, r: Run, typ: u8, data: Seq<u8>, k: int)
    requires
        crate::laws::line::listens(r.z),
        r.z.buf.len() == 0,
        data.len() == 4,
        18 <= k <= crate::frame::hex_header_of(typ, data).len(),
        a == r.to(
            Session {
                buf: crate::frame::hex_header_of(typ, data).take(k),
                farewell: a.z.farewell,
                ..r.z
            },
        ),
    ensures
        a.step() == r.on_header(HeaderView { enc: ZHEX, typ, data }),
{
    let s = crate::frame::hex_header_of(typ, data);
    let h = HeaderView { enc: ZHEX, typ, data };
    let none = Seq::<u8>::empty();
    let x = s.take(k);
    crate::round_trip::hex_header_round_trip(typ, data, none);
    lemma_hex_tail(typ, data);
    assert(s + none =~= s);
    assert(r.z.buf =~= none);
    assert(x.subrange(4, 18) =~= s.subrange(4, 18));
    assert(crate::protocol::hex_header_in(x) == Some(h));
    let t = x.skip(18);
    assert forall|i: int| 0 <= i < t.len() implies crate::protocol::is_eol(#[trigger] t[i]) by {
        assert(t[i] == s.skip(18)[i]);
    }
    lemma_line_end_goes(t);
    assert(x[0] == s[0] && x[1] == s[1] && x[2] == s[2] && x[3] == s[3]);
    let b = a.to(a.z.after_farewell());
    if a.z.state == State::Idle {
        assert(b.z == (Session { farewell: b.z.farewell, ..a.z }));
        assert(crate::protocol::signature_at(x, 0));
        assert(crate::protocol::find_signature(x) == Some(0int));
        assert(b.take_hex(h) == r.on_header(h));
        assert(b.step_terminal() == b.take_hex(h)) by {
            reveal(Run::step_terminal);
            reveal(Run::step_signature);
        }
    } else {
        lemma_hex_not_cut(typ, data, k);
        crate::protocol::lemma_frame_start(a);
        assert(a.take_hex(h) == r.on_header(h));
        assert(a.step_header() == a.take_hex(h)) by {
            reveal(Run::step_header);
        }
    }
    reveal(Run::step);
    reveal(Run::dispatch);
}

proof fn lemma_line_end_goes(t: Seq<u8>)
    requires
        line_end(t),
    ensures
        crate::protocol::after_eol(t) == Seq::<u8>::empty(),
    decreases t.len(),
{
    if t.len() > 0 {
        assert(crate::protocol::is_eol(t[0]));
        let u = t.skip(1);
        assert forall|i: int| 0 <= i < u.len() implies crate::protocol::is_eol(#[trigger] u[i]) by {
            assert(crate::protocol::is_eol(t[i + 1]));
        }
        lemma_line_end_goes(u);
    } else {
        assert(t =~= Seq::<u8>::empty());
    }
}

/// The first piece of what is left of a sequence.
proof fn lemma_first_piece(s: Seq<u8>, j: int, pieces: Seq<Seq<u8>>)
    requires
        0 <= j < s.len(),
        crate::laws::pieces::joined(pieces) == s.skip(j),
    ensures
        pieces.len() > 0,
        j + pieces[0].len() <= s.len(),
        s.take(j) + pieces[0] == s.take(j + pieces[0].len()),
        crate::laws::pieces::joined(pieces.skip(1)) == s.skip(j + pieces[0].len()),
{
    let all = crate::laws::pieces::joined(pieces);
    assert(all.len() > 0);
    let y = pieces[0];
    let rest = crate::laws::pieces::joined(pieces.skip(1));
    assert(all == y + rest);
    let k = j + y.len();
    assert forall|i: int| 0 <= i < y.len() implies y[i] == s[j + i] by {
        assert(all[i] == s.skip(j)[i]);
    }
    assert(s.take(j) + y =~= s.take(k));
    assert forall|i: int| 0 <= i < rest.len() implies rest[i] == s[k + i] by {
        assert(all[y.len() + i] == s.skip(j)[y.len() + i]);
    }
    assert(rest =~= s.skip(k));
}

/// One piece that does not complete a hex header.
proof fn lemma_hex_piece(r: Run, typ: u8, data: Seq<u8>, j: int, k: int)
    requires
        r.z.wf(),
        crate::laws::line::listens(r.z),
        r.z.buf.len() == 0,
        data.len() == 4,
        0 <= j <= k < 18,
    ensures
        ({
            let s = crate::frame::hex_header_of(typ, data);
            begun(r, s.take(j)).feed(s.subrange(j, k)) == begun(r, s.take(k))
        }),
{
    let s = crate::frame::hex_header_of(typ, data);
    crate::round_trip::hex_header_round_trip(typ, data, Seq::empty());
    let m = begun(r, s.take(j));
    let next = begun(r, s.take(k));
    assert(s.take(j) + s.subrange(j, k) =~= s.take(k));
    let a = m.to(m.z.with_buf(s.take(k)));
    lemma_hex_waits(r, typ, data, k);
    if a != next {
        assert(a.z.after_farewell() == next.z) by {
            assert(a.z.buf[0] == s[0]);
        }
        assert(next.z.after_farewell() == next.z);
        assert(a.step() == next.step()) by {
            reveal(Run::step);
            reveal(Run::dispatch);
        }
    }
    reveal(Run::steps);
    reveal(Run::settle);
}

/// A hex header of which `j` bytes have come.
#[verifier::spinoff_prover]
#[verifier::rlimit(40)]
proof fn lemma_hex_fed(r: Run, typ: u8, data: Seq<u8>, j: int, pieces: Seq<Seq<u8>>)
    requires
        r.z.wf(),
        crate::laws::line::listens(r.z),
        r.z.buf.len() == 0,
        data.len() == 4,
        0 <= j < 18,
        crate::laws::pieces::joined(pieces) == crate::frame::hex_header_of(typ, data).skip(j),
        ({
            let q = r.on_header(HeaderView { enc: ZHEX, typ, data });
            late_of(pieces, 18 - j).len() == 0 || crate::laws::line::listens(q.z) || q.z.state
                == State::SendOpening
        }),
    ensures
        crate::laws::pieces::fed(
            begun(r, crate::frame::hex_header_of(typ, data).take(j)),
            pieces,
        ) == and_late(
            r.on_header(HeaderView { enc: ZHEX, typ, data }),
            late_of(pieces, 18 - j),
        ),
    decreases pieces.len(),
{
    let s = crate::frame::hex_header_of(typ, data);
    let h = HeaderView { enc: ZHEX, typ, data };
    let q = r.on_header(h);
    let none = Seq::<u8>::empty();
    lemma_hex_tail(typ, data);
    lemma_first_piece(s, j, pieces);
    let y = pieces[0];
    let rest = pieces.skip(1);
    let k = j + y.len();
    assert(y =~= s.subrange(j, k)) by {
        assert forall|i: int| 0 <= i < y.len() implies y[i] == s[j + i] by {
            assert((s.take(j) + y)[j + i] == s.take(k)[j + i]);
        }
    }
    if k < 18 {
        lemma_hex_piece(r, typ, data, j, k);
        lemma_hex_fed(r, typ, data, k, rest);
    } else {
        let m = begun(r, s.take(j));
        let a = m.to(m.z.with_buf(s.take(k)));
        let late = crate::laws::pieces::joined(rest);
        lemma_hex_heard(a, r, typ, data, k);
        lemma_heard_ready(r, h);
        lemma_settle_once(a);
        assert(m.feed(y) == q);
        assert(q.z.buf =~= none);
        assert(and_late(q, none) == q);
        assert(none + late =~= late);
        assert forall|i: int| 0 <= i < late.len() implies crate::protocol::is_eol(
            #[trigger] late[i],
        ) by {
            assert(late[i] == s.skip(18)[k - 18 + i]);
        }
        lemma_late_fed(q, none, rest);
    }
}

/// A hex header may come in any pieces, cut anywhere, in a transfer or out of
/// one: it is heard as if it came whole. Its line end is dropped with it; what
/// of it comes in later pieces is noise in a transfer, and out of one is kept
/// back for the terminal or the sender's last word. Only right behind a header
/// that file data or a file subpacket follow is there no telling a late line
/// end from those.
pub proof fn hex_header_in_pieces(r: Run, typ: u8, data: Seq<u8>, pieces: Seq<Seq<u8>>)
    requires
        r.z.wf(),
        crate::laws::line::listens(r.z),
        r.z.buf.len() == 0,
        data.len() == 4,
        crate::laws::pieces::joined(pieces) == crate::frame::hex_header_of(typ, data),
        ({
            let q = r.on_header(HeaderView { enc: ZHEX, typ, data });
            late_of(pieces, 18).len() == 0 || crate::laws::line::listens(q.z) || q.z.state
                == State::SendOpening
        }),
    ensures
        crate::laws::pieces::fed(r, pieces) == and_late(
            r.on_header(HeaderView { enc: ZHEX, typ, data }),
            late_of(pieces, 18),
        ),
{
    let s = crate::frame::hex_header_of(typ, data);
    assert(s.skip(0) =~= s);
    assert(s.take(0) =~= r.z.buf);
    assert(begun(r, s.take(0)) == r);
    lemma_hex_fed(r, typ, data, 0, pieces);
}

/// A binary header of which `j` bytes have come.
proof fn lemma_bin_fed(
    r: Run,
    typ: u8,
    data: Seq<u8>,
    flags: u32,
    j: int,
    pieces: Seq<Seq<u8>>,
)
    requires
        r.z.wf(),
        crate::laws::line::listens(r.z),
        r.z.state != State::Idle,
        r.z.buf.len() == 0,
        data.len() == 4,
        0 <= j < crate::frame::bin_header_of(typ, data, flags).len(),
        crate::laws::pieces::joined(pieces) == crate::frame::bin_header_of(typ, data, flags).skip(
            j,
        ),
    ensures
        crate::laws::pieces::fed(
            r.to(r.z.with_buf(crate::frame::bin_header_of(typ, data, flags).take(j))),
            pieces,
        ) == r.on_header(
            HeaderView {
                enc: if crate::frame::wide(flags) {
                    ZBIN32
                } else {
                    ZBIN
                },
                typ,
                data,
            },
        ),
    decreases pieces.len(),
{
    let s = crate::frame::bin_header_of(typ, data, flags);
    let none = Seq::<u8>::empty();
    let h = HeaderView {
        enc: if crate::frame::wide(flags) {
            ZBIN32
        } else {
            ZBIN
        },
        typ,
        data,
    };
    lemma_first_piece(s, j, pieces);
    let rest = pieces.skip(1);
    let k = j + pieces[0].len();
    let m = r.to(r.z.with_buf(s.take(j)));
    let a = r.to(r.z.with_buf(s.take(k)));
    if k < s.len() {
        lemma_bin_waits(r, typ, data, flags, k);
        assert(m.feed(pieces[0]) == a) by {
            reveal(Run::steps);
            reveal(Run::settle);
        }
        lemma_bin_fed(r, typ, data, flags, k, rest);
    } else {
        let q = r.on_header(h);
        assert(s.take(k) =~= s + none);
        assert(r.z.buf =~= none);
        assert(r.to(r.z.with_buf(none)) == r);
        lemma_bin_header(r, typ, data, flags, none);
        lemma_heard_ready(r, h);
        lemma_settle_once(a);
        assert(crate::laws::pieces::joined(rest) =~= none);
        assert(none + none =~= none);
        assert(q.z.buf =~= none);
        assert(and_late(q, none) == q);
        lemma_late_fed(q, none, rest);
    }
}

/// In a transfer a binary header may come in any pieces, cut anywhere.
pub proof fn bin_header_in_pieces(
    r: Run,
    typ: u8,
    data: Seq<u8>,
    flags: u32,
    pieces: Seq<Seq<u8>>,
)
    requires
        r.z.wf(),
        crate::laws::line::listens(r.z),
        r.z.state != State::Idle,
        r.z.buf.len() == 0,
        data.len() == 4,
        crate::laws::pieces::joined(pieces) == crate::frame::bin_header_of(typ, data, flags),
    ensures
        crate::laws::pieces::fed(r, pieces) == r.on_header(
            HeaderView {
                enc: if crate::frame::wide(flags) {
                    ZBIN32
                } else {
                    ZBIN
                },
                typ,
                data,
            },
        ),
{
    let s = crate::frame::bin_header_of(typ, data, flags);
    assert(s.skip(0) =~= s);
    assert(s.take(0) =~= r.z.buf);
    assert(r.to(r.z.with_buf(s.take(0))) == r);
    lemma_bin_fed(r, typ, data, flags, 0, pieces);
}

} // verus!
