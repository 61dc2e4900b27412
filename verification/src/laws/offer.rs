//! Offers of files: they arrive, however the line cuts them up.

use vstd::prelude::*;

use crate::event::EventView;
use crate::frame::{CAN, ZCRCW, ZFILE};
use crate::laws::line::lemma_step_nothing;
use crate::protocol::{Run, Session, State};

verus! {

/// The bytes with which a sender offers a file.
pub open spec fn offer_bytes(name: Seq<char>, size: u64, flags: u32) -> Seq<u8> {
    crate::frame::bin_header_of(ZFILE, crate::protocol::zeros(), flags)
        + crate::frame::subpacket_of(crate::text::offer_data(name, size), ZCRCW, flags)
}

/// A receiver that was offered this file.
pub open spec fn asked(r: Run, name: Seq<char>, size: u64, flags: u32) -> Run {
    r.to(
        Session {
            recv_name: crate::text::base_of(name),
            recv_size: size,
            in_data_frame: false,
            sp_wide: crate::frame::wide(flags),
            can_count: 0,
            state: State::RecvWaitAccept,
            ..r.z
        },
    ).emit(EventView::RecvOffer { name: crate::text::base_of(name), size })
}

/// A receiver that has heard the header of an offer, and the start `x` of the
/// subpacket after it.
spec fn promised(r: Run, flags: u32, x: Seq<u8>) -> Run {
    r.to(
        Session {
            buf: x,
            in_data_frame: false,
            sp_wide: crate::frame::wide(flags),
            can_count: 0,
            state: State::RecvWaitFile,
            pending_zfile: true,
            ..r.z
        },
    )
}

/// A receiver in a transfer that listens and has no bytes at hand.
pub open spec fn ready(z: Session) -> bool {
    &&& z.wf()
    &&& z.state != State::Idle
    &&& crate::laws::line::listens(z)
    &&& z.buf.len() == 0
}

/// The header of an offer.
spec fn offer_head(flags: u32) -> Seq<u8> {
    crate::frame::bin_header_of(ZFILE, crate::protocol::zeros(), flags)
}

/// The subpacket of an offer.
spec fn offer_body(name: Seq<char>, size: u64, flags: u32) -> Seq<u8> {
    crate::frame::subpacket_of(crate::text::offer_data(name, size), ZCRCW, flags)
}

/// The subpacket of an offer that is not whole is awaited.
proof fn lemma_promise_waits(r: Run, name: Seq<char>, size: u64, flags: u32, k: int)
    requires
        0 <= k < offer_body(name, size, flags).len(),
    ensures
        promised(r, flags, offer_body(name, size, flags).take(k)).on_pending() == promised(
            r,
            flags,
            offer_body(name, size, flags).take(k),
        ),
{
    let none = Seq::<u8>::empty();
    let sp = offer_body(name, size, flags);
    let x = sp.take(k);
    let wide = crate::frame::wide(flags);
    let data = crate::text::offer_data(name, size);
    let len = crate::protocol::crc_len(wide);
    crate::round_trip::subpacket_round_trip(data, ZCRCW, flags, none);
    assert(sp + none =~= sp);
    if crate::decode::raw_of(x, len) is Some {
        crate::decode::raw_stable(x, len, sp.skip(k));
        crate::decode::lemma_raw_bound(x, len);
        assert(x + sp.skip(k) =~= sp);
    }
    lemma_body_clean(name, size, flags);
    crate::laws::data::lemma_clean_take(sp, k);
    if k > 0 {
        crate::laws::data::lemma_clean_not_cut(x, none);
        assert(x + none =~= x);
    }
    crate::protocol::lemma_find_cancels(x);
    crate::protocol::lemma_no_cancels(promised(r, flags, x));
    reveal(Run::on_pending);
}

proof fn lemma_body_clean(name: Seq<char>, size: u64, flags: u32)
    ensures
        crate::laws::data::clean(offer_body(name, size, flags)),
        offer_body(name, size, flags).len() > 0,
        offer_body(name, size, flags).last() != CAN,
{
    let data = crate::text::offer_data(name, size);
    let sum = crate::frame::check_of(data.push(ZCRCW), crate::frame::wide(flags));
    let ctl = crate::frame::escapes_controls(flags);
    let c = crate::frame::escape(sum, ZCRCW, ctl);
    assert(offer_body(name, size, flags) == crate::laws::data::framed(data, ZCRCW, sum, ctl));
    crate::laws::data::lemma_clean_framed(data, ZCRCW, sum, ctl);
    crate::laws::data::lemma_escape_last(sum, ZCRCW, ctl);
    assert(offer_body(name, size, flags).last() == c.last());
}

/// The subpacket of an offer that is whole is taken.
proof fn lemma_promise_kept(r: Run, name: Seq<char>, size: u64, flags: u32)
    requires
        ready(r.z),
        forall|i: int| 0 <= i < name.len() ==> #[trigger] name[i] != '\0',
    ensures
        promised(r, flags, offer_body(name, size, flags)).on_pending() == asked(
            r,
            name,
            size,
            flags,
        ),
{
    let none = Seq::<u8>::empty();
    let sp = offer_body(name, size, flags);
    let data = crate::text::offer_data(name, size);
    crate::round_trip::subpacket_round_trip(data, ZCRCW, flags, none);
    assert(sp + none =~= sp);
    assert(sp.skip(sp.len() as int) =~= none);
    crate::text::offer_round_trip(name, size);
    lemma_body_clean(name, size, flags);
    crate::laws::data::lemma_clean_not_cut(sp, none);
    assert(r.z.buf =~= none);
    reveal(Run::on_pending);
}

/// The header of an offer is heard, whatever has come behind it.
proof fn lemma_promise_made(r: Run, flags: u32, x: Seq<u8>)
    requires
        ready(r.z),
    ensures
        r.to(r.z.with_buf(offer_head(flags) + x)).step() == promised(r, flags, x).on_pending(),
        offer_head(flags).len() > 0,
{
    crate::laws::line::lemma_bin_header(r, ZFILE, crate::protocol::zeros(), flags, x);
    let q = r.to(r.z.with_buf(x));
    reveal(Run::heard);
    assert(q.to(Session { can_count: 0, farewell: false, ..q.z }).z.farewell == r.z.farewell);
}

/// The receiver after the start `x` of an offer.
spec fn midway(r: Run, flags: u32, x: Seq<u8>) -> Run {
    let n = offer_head(flags).len() as int;
    if x.len() < n {
        r.to(r.z.with_buf(x))
    } else {
        promised(r, flags, x.skip(n))
    }
}

/// The start of an offer is kept.
proof fn lemma_midway_waits(r: Run, name: Seq<char>, size: u64, flags: u32, k: int)
    requires
        ready(r.z),
        0 <= k < offer_bytes(name, size, flags).len(),
    ensures
        ({
            let m = midway(r, flags, offer_bytes(name, size, flags).take(k));
            &&& m.step() == m
            &&& m.z.state != State::Idle
            &&& m.z.state != State::SendOpening
        }),
{
    let s = offer_bytes(name, size, flags);
    let head = offer_head(flags);
    let x = s.take(k);
    if k < head.len() {
        assert(x =~= head.take(k));
        crate::laws::line::lemma_bin_waits(r, ZFILE, crate::protocol::zeros(), flags, k);
    } else {
        let sp = offer_body(name, size, flags);
        assert(x.skip(head.len() as int) =~= sp.take(k - head.len()));
        lemma_promise_waits(r, name, size, flags, k - head.len());
        reveal(Run::step);
    }
}

/// The receiver after the first `k` bytes of an offer.
spec fn offered(r: Run, name: Seq<char>, size: u64, flags: u32, k: int) -> Run {
    let s = offer_bytes(name, size, flags);
    if k < s.len() {
        midway(r, flags, s.take(k))
    } else {
        asked(r, name, size, flags)
    }
}

/// A run that is left alone once it is reached in one step is what comes of
/// feeding.
proof fn lemma_arrives(m: Run, y: Seq<u8>, next: Run)
    requires
        m.z.state != State::SendOpening,
        next.z.state != State::Idle,
        next.step() == next,
        ({
            let a = m.to(m.z.with_buf(m.z.buf + y));
            a == next || a.step() == next
        }),
    ensures
        m.feed(y) == next,
{
    let a = m.to(m.z.with_buf(m.z.buf + y));
    reveal(Run::steps);
    assert(next.steps() == next);
    assert(a.steps() == next);
    reveal(Run::settle);
}

/// Once the subpacket of an offer is whole, it is taken.
proof fn lemma_offer_whole(r: Run, name: Seq<char>, size: u64, flags: u32)
    requires
        ready(r.z),
        forall|i: int| 0 <= i < name.len() ==> #[trigger] name[i] != '\0',
    ensures
        asked(r, name, size, flags).step() == asked(r, name, size, flags),
        promised(r, flags, offer_body(name, size, flags)).step() == asked(r, name, size, flags),
{
    let q = asked(r, name, size, flags);
    lemma_promise_kept(r, name, size, flags);
    lemma_step_nothing(q);
    reveal(Run::step);
}

/// The bytes from `j` to `k` of an offer, of which `j` have come.
proof fn lemma_offer_piece(r: Run, name: Seq<char>, size: u64, flags: u32, j: int, k: int)
    requires
        ready(r.z),
        forall|i: int| 0 <= i < name.len() ==> #[trigger] name[i] != '\0',
        0 <= j <= k <= offer_bytes(name, size, flags).len(),
        j < offer_bytes(name, size, flags).len(),
    ensures
        offered(r, name, size, flags, j).feed(
            offer_bytes(name, size, flags).subrange(j, k),
        ) == offered(r, name, size, flags, k),
{
    let s = offer_bytes(name, size, flags);
    let head = offer_head(flags);
    let sp = offer_body(name, size, flags);
    let n = head.len() as int;
    let y = s.subrange(j, k);
    let m = offered(r, name, size, flags, j);
    let next = offered(r, name, size, flags, k);
    let a = m.to(m.z.with_buf(m.z.buf + y));
    let x = s.take(k).skip(n);
    lemma_midway_waits(r, name, size, flags, j);
    lemma_offer_whole(r, name, size, flags);
    if k < s.len() {
        lemma_midway_waits(r, name, size, flags, k);
    }
    if k < n {
        lemma_body_clean(name, size, flags);
        assert(m.z.buf + y =~= s.take(k));
    } else if j < n {
        assert(m.z.buf + y =~= head + x);
        lemma_promise_made(r, flags, x);
        if k < s.len() {
            assert(x =~= sp.take(k - n));
            lemma_promise_waits(r, name, size, flags, k - n);
        } else {
            assert(x =~= sp);
            lemma_promise_kept(r, name, size, flags);
        }
    } else {
        assert(m.z.buf + y =~= x);
        if k == s.len() {
            assert(x =~= sp);
        }
    }
    lemma_arrives(m, y, next);
}

/// An offer arrives: the user of the receiver is asked about a file of this
/// size and of the last part of this name.
pub proof fn offer_arrives(r: Run, name: Seq<char>, size: u64, flags: u32)
    requires
        ready(r.z),
        forall|i: int| 0 <= i < name.len() ==> #[trigger] name[i] != '\0',
    ensures
        r.feed(offer_bytes(name, size, flags)) == asked(r, name, size, flags),
{
    let s = offer_bytes(name, size, flags);
    lemma_body_clean(name, size, flags);
    lemma_promise_made(r, flags, Seq::empty());
    lemma_offer_piece(r, name, size, flags, 0, s.len() as int);
    assert(s.take(0) =~= Seq::<u8>::empty());
    assert(s.subrange(0, s.len() as int) =~= s);
    assert(r.z.buf =~= Seq::<u8>::empty());
    assert(offered(r, name, size, flags, 0) == r);
}

proof fn lemma_offer_fed(
    r: Run,
    name: Seq<char>,
    size: u64,
    flags: u32,
    j: int,
    pieces: Seq<Seq<u8>>,
)
    requires
        ready(r.z),
        forall|i: int| 0 <= i < name.len() ==> #[trigger] name[i] != '\0',
        0 <= j < offer_bytes(name, size, flags).len(),
        crate::laws::pieces::joined(pieces) == offer_bytes(name, size, flags).skip(j),
    ensures
        crate::laws::pieces::fed(offered(r, name, size, flags, j), pieces) == asked(
            r,
            name,
            size,
            flags,
        ),
    decreases pieces.len(),
{
    let s = offer_bytes(name, size, flags);
    assert(pieces.len() > 0);
    let y = pieces[0];
    let rest = pieces.skip(1);
    let k = j + y.len();
    assert(k <= s.len()) by {
        assert(s.skip(j).len() == y.len() + crate::laws::pieces::joined(rest).len());
    }
    assert(y =~= s.subrange(j, k)) by {
        assert forall|i: int| 0 <= i < y.len() implies y[i] == s[j + i] by {
            assert(s.skip(j)[i] == crate::laws::pieces::joined(pieces)[i]);
        }
    }
    assert(crate::laws::pieces::joined(rest) =~= s.skip(k)) by {
        assert forall|i: int| 0 <= i < s.len() - k implies crate::laws::pieces::joined(rest)[i]
            == s[k + i] by {
            assert(s.skip(j)[y.len() + i] == crate::laws::pieces::joined(pieces)[y.len() + i]);
        }
    }
    lemma_offer_piece(r, name, size, flags, j, k);
    if k < s.len() {
        lemma_offer_fed(r, name, size, flags, k, rest);
    } else {
        let q = asked(r, name, size, flags);
        lemma_step_nothing(q);
        crate::laws::pieces::lemma_fed_nothing(q, rest);
    }
}

/// An offer may come in any pieces, cut anywhere.
pub proof fn offer_in_pieces(
    r: Run,
    name: Seq<char>,
    size: u64,
    flags: u32,
    pieces: Seq<Seq<u8>>,
)
    requires
        ready(r.z),
        forall|i: int| 0 <= i < name.len() ==> #[trigger] name[i] != '\0',
        crate::laws::pieces::joined(pieces) == offer_bytes(name, size, flags),
    ensures
        crate::laws::pieces::fed(r, pieces) == asked(r, name, size, flags),
{
    let s = offer_bytes(name, size, flags);
    lemma_body_clean(name, size, flags);
    lemma_promise_made(r, flags, Seq::empty());
    assert(s.skip(0) =~= s);
    assert(s.take(0) =~= Seq::<u8>::empty());
    assert(r.z.buf =~= Seq::<u8>::empty());
    assert(offered(r, name, size, flags, 0) == r);
    lemma_offer_fed(r, name, size, flags, 0, pieces);
}

} // verus!
