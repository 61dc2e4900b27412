//! The line: what becomes of bytes that are fed.

use vstd::prelude::*;

use crate::event::EventView;
use crate::frame::{HeaderView, CAN, ZBIN, ZBIN32, ZHEX, ZPAD};
use crate::protocol::{Run, Session, State};

verus! {

/// No bytes, no step.
pub proof fn lemma_step_nothing(r: Run)
    requires
        r.z.buf.len() == 0,
    ensures
        r.step() == r,
        r.steps() == r,
        r.settle() == r,
{
    assert(r.z.after_farewell() == r.z);
    assert(r.step() == r) by {
        reveal(Run::step);
        reveal(Run::dispatch);
        reveal(Run::on_pending);
        reveal(Run::cancelled);
        reveal(Run::step_terminal);
        reveal(Run::step_data);
        reveal(Run::step_frame);
        reveal(Run::step_header);
    }
    reveal(Run::steps);
    reveal(Run::settle);
}

/// If one step uses up all bytes, that is all that happens.
pub proof fn lemma_settle_once(r: Run)
    requires
        r.z.buf.len() > 0,
        r.step().z.buf.len() == 0,
    ensures
        r.settle() == r.step(),
{
    lemma_step_nothing(r.step());
    reveal(Run::steps);
    reveal(Run::settle);
}

/// Headers are looked for on the line: no file is being opened, no file
/// subpacket is awaited, and no file data are due.
pub open spec fn listens(z: Session) -> bool {
    &&& z.state != State::SendOpening
    &&& !z.pending_zfile
    &&& !(z.state == State::Receiving && z.in_data_frame)
}

/// A hex header is not taken for cancel characters.
pub proof fn lemma_hex_not_cut(typ: u8, data: Seq<u8>, k: int)
    requires
        data.len() == 4,
        18 <= k <= crate::frame::hex_header_of(typ, data).len(),
    ensures
        !crate::protocol::cut_off(crate::frame::hex_header_of(typ, data).take(k), 18),
{
    let s = crate::frame::hex_header_of(typ, data);
    let head = s.take(18);
    let rest = s.take(k).skip(18);
    crate::laws::data::lemma_clean_hex_header(typ, data);
    crate::laws::data::lemma_clean_take(s, 18);
    crate::laws::data::lemma_clean_not_cut(head, rest);
    assert(head + rest =~= s.take(k));
}

/// A step takes the hex header that the buffer holds.
pub proof fn lemma_hex_step(r: Run, typ: u8, data: Seq<u8>)
    requires
        listens(r.z),
        r.z.buf.len() == 0,
        data.len() == 4,
    ensures
        r.to(r.z.with_buf(crate::frame::hex_header_of(typ, data))).step() == r.on_header(
            HeaderView { enc: ZHEX, typ, data },
        ),
{
    let s = crate::frame::hex_header_of(typ, data);
    let h = HeaderView { enc: ZHEX, typ, data };
    let none = Seq::<u8>::empty();
    assert(s + none =~= s);
    let a = r.to(r.z.with_buf(s));
    crate::round_trip::hex_header_round_trip(typ, data, none);
    assert(crate::protocol::after_eol(s.skip(18)) == none);
    assert(r.z.buf =~= none);
    assert(a.z.with_buf(none) == r.z);
    assert(a.take_hex(h) == r.on_header(h));
    reveal(Run::step);
    reveal(Run::dispatch);
    if a.z.state == State::Idle {
        lemma_hex_idle(r, typ, data);
    } else {
        lemma_hex_frame(a, typ, data);
    }
}

proof fn lemma_hex_idle(r: Run, typ: u8, data: Seq<u8>)
    requires
        r.z.buf.len() == 0,
        data.len() == 4,
    ensures
        r.to(r.z.with_buf(crate::frame::hex_header_of(typ, data))).step_idle() == r.on_header(
            HeaderView { enc: ZHEX, typ, data },
        ),
{
    let s = crate::frame::hex_header_of(typ, data);
    let h = HeaderView { enc: ZHEX, typ, data };
    let none = Seq::<u8>::empty();
    assert(s + none =~= s);
    assert(r.z.buf =~= none);
    crate::round_trip::hex_header_round_trip(typ, data, none);
    let a = r.to(r.z.with_buf(s));
    let b = a.to(a.z.after_farewell());
    assert(b.z == (Session { farewell: b.z.farewell, ..a.z }));
    assert(crate::protocol::find_signature(s) == Some(0int));
    assert(b.step_terminal() == b.take_hex(h)) by {
        reveal(Run::step_terminal);
        reveal(Run::step_signature);
    }
    assert(b.z.with_buf(none) == (Session { farewell: b.z.farewell, ..r.z }));
}

proof fn lemma_hex_frame(a: Run, typ: u8, data: Seq<u8>)
    requires
        a.z.buf == crate::frame::hex_header_of(typ, data),
        data.len() == 4,
    ensures
        a.step_frame() == a.take_hex(HeaderView { enc: ZHEX, typ, data }),
{
    let s = crate::frame::hex_header_of(typ, data);
    let none = Seq::<u8>::empty();
    assert(s + none =~= s);
    crate::round_trip::hex_header_round_trip(typ, data, none);
    lemma_hex_not_cut(typ, data, s.len() as int);
    assert(s.take(s.len() as int) =~= s);
    crate::protocol::lemma_frame_start(a);
    reveal(Run::step_header);
}

/// A hex header is heard, in a transfer or out of one.
pub proof fn hex_header_is_heard(r: Run, typ: u8, data: Seq<u8>)
    requires
        r.z.wf(),
        listens(r.z),
        r.z.buf.len() == 0,
        data.len() == 4,
    ensures
        r.feed(crate::frame::hex_header_of(typ, data)) == r.on_header(
            HeaderView { enc: ZHEX, typ, data },
        ),
{
    let s = crate::frame::hex_header_of(typ, data);
    assert(r.z.buf + s =~= s);
    let a = r.to(r.z.with_buf(s));
    lemma_hex_step(r, typ, data);
    crate::protocol::lemma_on_header(r, HeaderView { enc: ZHEX, typ, data });
    crate::round_trip::hex_header_round_trip(typ, data, Seq::empty());
    lemma_settle_once(a);
}

/// A binary header is heard in a transfer, with a check of either width.
pub proof fn bin_header_is_heard(r: Run, typ: u8, data: Seq<u8>, flags: u32)
    requires
        r.z.wf(),
        listens(r.z),
        r.z.state != State::Idle,
        r.z.buf.len() == 0,
        data.len() == 4,
    ensures
        r.feed(crate::frame::bin_header_of(typ, data, flags)) == r.on_header(
            HeaderView {
                enc: if crate::frame::wide(flags) {
                    ZBIN32
                } else {
                    ZBIN
                },
                typ,
                data,
            },
        ),
{
    let none = Seq::<u8>::empty();
    let s = crate::frame::bin_header_of(typ, data, flags);
    lemma_bin_header(r, typ, data, flags, none);
    assert(s + none =~= s);
    assert(r.z.buf + s =~= s);
    assert(r.z.buf =~= none);
    let a = r.to(r.z.with_buf(s));
    assert(r.to(r.z.with_buf(none)) == r);
    let h = HeaderView {
        enc: if crate::frame::wide(flags) {
            ZBIN32
        } else {
            ZBIN
        },
        typ,
        data,
    };
    crate::protocol::lemma_on_header(r, h);
    lemma_settle_once(a);
}

/// A step takes the binary header at the front of the buffer.
pub proof fn lemma_bin_header(r: Run, typ: u8, data: Seq<u8>, flags: u32, rest: Seq<u8>)
    requires
        listens(r.z),
        r.z.state != State::Idle,
        data.len() == 4,
    ensures
        r.to(r.z.with_buf(crate::frame::bin_header_of(typ, data, flags) + rest)).step() == r.to(
            r.z.with_buf(rest),
        ).on_header(
            HeaderView {
                enc: if crate::frame::wide(flags) {
                    ZBIN32
                } else {
                    ZBIN
                },
                typ,
                data,
            },
        ),
{
    let s = crate::frame::bin_header_of(typ, data, flags);
    let all = s + rest;
    let a = r.to(r.z.with_buf(all));
    crate::round_trip::bin_header_round_trip(typ, data, flags, rest);
    assert(all[0] == s[0] && all[1] == s[1] && all[2] == s[2]);
    assert(all.skip(s.len() as int) =~= rest);
    crate::laws::data::lemma_clean_bin_header(typ, data, flags, Seq::empty());
    assert(s + Seq::<u8>::empty() =~= s);
    crate::laws::data::lemma_clean_not_cut(s, rest);
    reveal(Run::step);
    reveal(Run::dispatch);
    reveal(Run::step_frame);
    reveal(Run::step_header);
    reveal(Run::step_bin);
}

/// The bytes that a list of events sends to the terminal.
pub open spec fn shown(out: Seq<EventView>) -> Seq<u8>
    decreases out.len(),
{
    if out.len() == 0 {
        Seq::empty()
    } else {
        shown(out.drop_last()) + (match out.last() {
            EventView::Forward(b) => b,
            _ => Seq::empty(),
        })
    }
}

/// The list `after` is `before` and then bytes for the terminal only.
pub open spec fn only_shown(before: Seq<EventView>, after: Seq<EventView>) -> bool {
    &&& before.len() <= after.len()
    &&& after.take(before.len() as int) == before
    &&& forall|i: int| before.len() <= i < after.len() ==> #[trigger] after[i] is Forward
}

pub proof fn lemma_only_shown_joins(a: Seq<EventView>, b: Seq<EventView>, c: Seq<EventView>)
    requires
        only_shown(a, b),
        only_shown(b, c),
    ensures
        only_shown(a, c),
{
    assert(c.take(b.len() as int).take(a.len() as int) =~= c.take(a.len() as int));
    assert forall|i: int| a.len() <= i < c.len() implies #[trigger] c[i] is Forward by {
        if i < b.len() {
            assert(c.take(b.len() as int)[i] == c[i]);
            assert(b[i] is Forward);
        }
    }
}

/// No transfer is on, and nothing of the last one is awaited.
pub open spec fn at_rest(z: Session) -> bool {
    z.state == State::Idle && !z.pending_zfile && !z.farewell
}

/// There is no valid hex header in `s`.
pub open spec fn no_header(s: Seq<u8>) -> bool {
    forall|p: int|
        #[trigger] crate::protocol::signature_at(s, p) && p + 18 <= s.len()
            ==> crate::protocol::hex_header_in(s.skip(p)) is None
}

proof fn lemma_no_header_skip(s: Seq<u8>, n: int)
    requires
        no_header(s),
        0 <= n <= s.len(),
    ensures
        no_header(s.skip(n)),
{
    let t = s.skip(n);
    assert forall|p: int| #[trigger]
        crate::protocol::signature_at(t, p) && p + 18 <= t.len() implies crate::protocol::hex_header_in(
        t.skip(p),
    ) is None by {
        assert(crate::protocol::signature_at(s, n + p));
        assert(t.skip(p) =~= s.skip(n + p));
    }
}

pub proof fn lemma_shown_forward(r: Run, n: int)
    requires
        0 <= n <= r.z.buf.len(),
    ensures
        shown(r.forward(n).out) + r.forward(n).z.buf == shown(r.out) + r.z.buf,
        only_shown(r.out, r.forward(n).out),
{
    let out = r.forward(n).out;
    assert(out.take(r.out.len() as int) =~= r.out);
    assert(out.drop_last() =~= r.out);
    assert(r.z.buf.take(n) + r.z.buf.skip(n) =~= r.z.buf);
    assert(shown(out) + r.z.buf.skip(n) =~= shown(r.out) + (r.z.buf.take(n) + r.z.buf.skip(n)));
}

/// One step out of a transfer only moves bytes to the terminal, and stops
/// only when few are left.
pub proof fn lemma_rest_step(r: Run)
    requires
        at_rest(r.z),
        no_header(r.z.buf),
    ensures
        r.step().z == r.z.with_buf(r.step().z.buf),
        no_header(r.step().z.buf),
        r.step().z.buf.len() <= r.z.buf.len(),
        shown(r.step().out) + r.step().z.buf == shown(r.out) + r.z.buf,
        only_shown(r.out, r.step().out),
        r.step().z.buf.len() < r.z.buf.len() || r.step().z.buf.len() < 18,
{
    reveal(Run::step);
    reveal(Run::dispatch);
    reveal(Run::step_terminal);
    reveal(Run::step_signature);
    crate::protocol::lemma_find_signature(r.z.buf);
    assert(r.out.take(r.out.len() as int) =~= r.out);
    match crate::protocol::find_signature(r.z.buf) {
        None => {
            if r.z.buf.len() > 3 {
                lemma_shown_forward(r, r.z.buf.len() - 3);
                lemma_no_header_skip(r.z.buf, r.z.buf.len() - 3);
            }
        },
        Some(p) => {
            let m = if p > 0 {
                r.forward(p)
            } else {
                r
            };
            assert(r.z.buf.skip(0) =~= r.z.buf);
            assert(m.z.buf == r.z.buf.skip(p));
            lemma_no_header_skip(r.z.buf, p);
            if p > 0 {
                lemma_shown_forward(r, p);
            }
            if m.z.buf.len() >= 18 {
                lemma_shown_forward(m, 1);
                lemma_only_shown_joins(r.out, m.out, m.forward(1).out);
                lemma_no_header_skip(m.z.buf, 1);
            }
        },
    }
}

pub proof fn lemma_rest_steps(r: Run)
    requires
        at_rest(r.z),
        no_header(r.z.buf),
    ensures
        r.steps().z == r.z.with_buf(r.steps().z.buf),
        r.steps().z.buf.len() < 18,
        shown(r.steps().out) + r.steps().z.buf == shown(r.out) + r.z.buf,
        only_shown(r.out, r.steps().out),
    decreases r.z.buf.len(),
{
    reveal(Run::steps);
    lemma_rest_step(r);
    if r.step().z.buf.len() < r.z.buf.len() {
        lemma_rest_steps(r.step());
        lemma_only_shown_joins(r.out, r.step().out, r.steps().out);
    }
}

/// Out of a transfer the line is the terminal's: unless a valid header comes,
/// every byte is shown, in order and unchanged, but for fewer than eighteen
/// that are kept back because a header may have begun. Nothing else happens.
pub proof fn terminal_bytes_are_shown(r: Run, data: Seq<u8>)
    requires
        at_rest(r.z),
        no_header(r.z.buf + data),
    ensures
        r.feed(data).z == r.z.with_buf(r.feed(data).z.buf),
        r.feed(data).z.buf.len() < 18,
        shown(r.feed(data).out) + r.feed(data).z.buf == shown(r.out) + (r.z.buf + data),
        only_shown(r.out, r.feed(data).out),
{
    reveal(Run::settle);
    lemma_rest_steps(r.to(r.z.with_buf(r.z.buf + data)));
}

/// Without the start of a header at most three bytes are kept back, and the
/// others are shown at once.
pub proof fn plain_bytes_are_shown(r: Run, data: Seq<u8>)
    requires
        at_rest(r.z),
        crate::protocol::find_signature(r.z.buf + data) is None,
    ensures
        ({
            let s = r.z.buf + data;
            let a = r.to(r.z.with_buf(s));
            r.feed(data) == if s.len() > 3 {
                a.forward(s.len() - 3)
            } else {
                a
            }
        }),
{
    let s = r.z.buf + data;
    let a = r.to(r.z.with_buf(s));
    reveal(Run::settle);
    reveal(Run::steps);
    reveal(Run::step);
    reveal(Run::dispatch);
    reveal(Run::step_terminal);
    if s.len() > 3 {
        let b = a.forward(s.len() - 3);
        assert(a.step() == b);
        assert(crate::protocol::find_signature(b.z.buf) is None);
        assert(b.step() == b);
        assert(b.steps() == b);
    } else {
        assert(a.step() == a);
    }
}

/// The start of a binary header is kept.
pub proof fn lemma_bin_waits(r: Run, typ: u8, data: Seq<u8>, flags: u32, k: int)
    requires
        listens(r.z),
        r.z.state != State::Idle,
        data.len() == 4,
        0 <= k < crate::frame::bin_header_of(typ, data, flags).len(),
    ensures
        ({
            let q = r.to(r.z.with_buf(crate::frame::bin_header_of(typ, data, flags).take(k)));
            q.step() == q
        }),
{
    let s = crate::frame::bin_header_of(typ, data, flags);
    let a = s.take(k);
    let q = r.to(r.z.with_buf(a));
    crate::round_trip::bin_header_round_trip(typ, data, flags, Seq::empty());
    assert(s + Seq::<u8>::empty() =~= s);
    let need = crate::protocol::bin_len(s[2]);
    if k >= 3 && crate::decode::values_of(a.skip(3), need) is Some {
        crate::decode::values_stable(a.skip(3), need, s.skip(k));
        crate::decode::lemma_values_bound(a.skip(3), need);
        assert(a.skip(3) + s.skip(k) =~= s.skip(3));
    }
    crate::laws::data::lemma_clean_bin_header(typ, data, flags, Seq::empty());
    crate::laws::data::lemma_clean_take(s, k);
    if k > 0 {
        crate::laws::data::lemma_clean_not_cut(a, Seq::empty());
        assert(a + Seq::<u8>::empty() =~= a);
    }
    crate::protocol::lemma_no_cancels(q);
    assert(k > 0 ==> a[0] == s[0]);
    assert(k > 2 ==> a[1] == s[1] && a[2] == s[2]);
    crate::protocol::lemma_frame_start(q);
    reveal(Run::step);
    reveal(Run::dispatch);
    reveal(Run::step_header);
    reveal(Run::step_bin);
}

/// Line noise: neither the start of a header nor a cancel character.
pub open spec fn is_noise(s: Seq<u8>) -> bool {
    forall|i: int| 0 <= i < s.len() ==> #[trigger] s[i] != ZPAD && s[i] != CAN
}

pub proof fn lemma_noise(r: Run, noise: Seq<u8>, rest: Seq<u8>)
    requires
        is_noise(noise),
        r.z.buf == noise + rest,
        noise.len() > 0,
    ensures
        r.step_frame() == r.to(Session { buf: rest, can_count: 0, ..r.z }).step_frame(),
    decreases noise.len(),
{
    assert(r.z.buf[0] == noise[0]);
    crate::protocol::lemma_frame_byte(r);
    let t = noise.skip(1);
    let next = r.to(Session { can_count: 0, ..r.z.past(1) });
    assert(next.z.buf =~= t + rest);
    if t.len() > 0 {
        assert forall|i: int| 0 <= i < t.len() implies #[trigger] t[i] != ZPAD && t[i] != CAN by {
            assert(noise[i + 1] != ZPAD && noise[i + 1] != CAN);
        }
        lemma_noise(next, t, rest);
    } else {
        assert(t + rest =~= rest);
    }
}

/// In a transfer, line noise before a header is dropped.
pub proof fn noise_is_dropped(r: Run, noise: Seq<u8>, typ: u8, data: Seq<u8>)
    requires
        r.z.wf(),
        listens(r.z),
        r.z.state != State::Idle,
        r.z.buf.len() == 0,
        is_noise(noise),
        noise.len() > 0,
        data.len() == 4,
    ensures
        r.feed(noise + crate::frame::hex_header_of(typ, data)) == r.on_header(
            HeaderView { enc: ZHEX, typ, data },
        ),
{
    let s = crate::frame::hex_header_of(typ, data);
    let h = HeaderView { enc: ZHEX, typ, data };
    let a = r.to(r.z.with_buf(noise + s));
    let q = r.to(Session { can_count: 0, ..r.z });
    let b = q.to(q.z.with_buf(s));
    assert(r.z.buf + (noise + s) =~= noise + s);
    assert(r.z.buf + s =~= s);
    lemma_noise(a, noise, s);
    assert(a.step() == b.step()) by {
        reveal(Run::step);
        reveal(Run::dispatch);
    }
    hex_header_is_heard(q, typ, data);
    crate::protocol::lemma_on_header(q, h);
    lemma_hex_step(q, typ, data);
    lemma_settle_once(a);
}

} // verus!
