//! What stands around headers on the line, and headers that arrive damaged.

use vstd::prelude::*;

use crate::event::EventView;
use crate::frame::{HeaderView, CAN, ZBIN, ZBIN32, ZDLE, ZHEX, ZNAK, ZPAD};
use crate::protocol::{Run, Session, State};

verus! {

/// A character that ends the line of a header.
pub open spec fn ends_header(b: u8) -> bool {
    b == 0x0d || b == 0x0a || b == 0x8d || b == 0x8a || b == 0x11 || b == 0x13
}

/// Behind a header the characters of a line end are dropped, and nothing else.
pub proof fn only_line_ends_are_dropped(s: Seq<u8>)
    ensures
        ({
            let t = crate::protocol::after_eol(s);
            let n = s.len() - t.len();
            &&& n >= 0
            &&& t == s.skip(n)
            &&& t.len() > 0 ==> !ends_header(t[0])
            &&& forall|i: int| 0 <= i < n ==> ends_header(#[trigger] s[i])
        }),
    decreases s.len(),
{
    let t = crate::protocol::after_eol(s);
    if s.len() > 0 && crate::protocol::is_eol(s[0]) {
        let u = s.skip(1);
        only_line_ends_are_dropped(u);
        let n = u.len() - t.len();
        assert(u.skip(n) =~= s.skip(n + 1));
        assert forall|i: int| 0 <= i < n + 1 implies ends_header(#[trigger] s[i]) by {
            if i > 0 {
                assert(ends_header(u[i - 1]));
            }
        }
    } else {
        assert(t =~= s.skip(0));
    }
}

/// What comes right behind a hex header, out of a transfer or in one, is left
/// for after it.
pub proof fn bytes_behind_header_stay(r: Run, typ: u8, data: Seq<u8>, rest: Seq<u8>)
    requires
        crate::laws::line::listens(r.z),
        !r.z.farewell,
        r.z.buf.len() == 0,
        data.len() == 4,
        rest.len() == 0 || !ends_header(rest[0]),
    ensures
        r.to(r.z.with_buf(crate::frame::hex_header_of(typ, data) + rest)).step() == r.to(
            r.z.with_buf(rest),
        ).on_header(HeaderView { enc: ZHEX, typ, data }),
{
    let s = crate::frame::hex_header_of(typ, data);
    let h = HeaderView { enc: ZHEX, typ, data };
    let x = s + rest;
    let a = r.to(r.z.with_buf(x));
    crate::round_trip::hex_header_round_trip(typ, data, rest);
    assert(crate::protocol::after_eol(rest) == rest);
    assert(x[0] == s[0] && x[1] == s[1] && x[2] == s[2] && x[3] == s[3]);
    assert(a.take_hex(h) == r.to(r.z.with_buf(rest)).on_header(h));
    reveal(Run::step);
    reveal(Run::dispatch);
    if r.z.state == State::Idle {
        assert(crate::protocol::find_signature(x) == Some(0int));
        reveal(Run::step_terminal);
        reveal(Run::step_signature);
    } else {
        let head = s.take(18);
        let tail = s.skip(18) + rest;
        crate::laws::data::lemma_clean_hex_header(typ, data);
        crate::laws::data::lemma_clean_take(s, 18);
        crate::laws::data::lemma_clean_not_cut(head, tail);
        assert(head + tail =~= x);
        crate::protocol::lemma_frame_start(a);
        reveal(Run::step_header);
    }
}

/// A star that starts no header does not keep the next one from being heard.
pub proof fn stray_star_is_dropped(r: Run, b: u8, typ: u8, data: Seq<u8>)
    requires
        r.z.wf(),
        crate::laws::line::listens(r.z),
        r.z.state != State::Idle,
        r.z.buf.len() == 0,
        data.len() == 4,
        b != ZPAD,
        b != CAN,
    ensures
        r.feed(seq![ZPAD, b] + crate::frame::hex_header_of(typ, data)) == r.on_header(
            HeaderView { enc: ZHEX, typ, data },
        ),
{
    let s = crate::frame::hex_header_of(typ, data);
    let h = HeaderView { enc: ZHEX, typ, data };
    let x = seq![ZPAD, b] + s;
    let a = r.to(r.z.with_buf(x));
    let c = r.to(Session { can_count: 0, ..r.z });
    let m = c.to(c.z.with_buf(seq![b] + s));
    assert(r.z.buf + x =~= x);
    assert(x.skip(1) =~= seq![b] + s);
    crate::round_trip::hex_header_round_trip(typ, data, Seq::empty());
    assert(a.step() == m) by {
        crate::protocol::lemma_frame_start(a);
        reveal(Run::step);
        reveal(Run::dispatch);
        reveal(Run::step_header);
    }
    crate::laws::line::noise_is_dropped(c, seq![b], typ, data);
    assert(c.z.buf + (seq![b] + s) =~= seq![b] + s);
    assert(c.feed(seq![b] + s) == m.settle());
    assert(a.steps() == m.steps()) by {
        reveal(Run::steps);
    }
    reveal(Run::settle);
}

/// A binary header whose check is wrong is not heard but asked for again.
pub proof fn damaged_header_is_asked_again(r: Run, enc: u8, x: Seq<u8>, v: Seq<u8>)
    requires
        r.z.wf(),
        crate::laws::line::listens(r.z),
        r.z.state != State::Idle,
        r.z.buf.len() == 0,
        enc == ZBIN || enc == ZBIN32,
        crate::decode::values_of(
            x,
            (if enc == ZBIN32 {
                9nat
            } else {
                7nat
            }),
        ) == Some((v, x.len())),
        v.skip(5) != crate::frame::check_of(v.take(5), enc == ZBIN32),
        crate::protocol::find_cancels(seq![ZPAD, ZDLE, enc] + x) is None,
    ensures
        r.feed(seq![ZPAD, ZDLE, enc] + x).out == r.out.push(
            EventView::Write(crate::frame::hex_header_of(ZNAK, seq![0u8, 0, 0, 0])),
        ),
        r.feed(seq![ZPAD, ZDLE, enc] + x).z == (Session { can_count: 0, ..r.z }),
{
    let s = seq![ZPAD, ZDLE, enc] + x;
    let a = r.to(r.z.with_buf(s));
    assert(r.z.buf + s =~= s);
    assert(s.skip(3) =~= x);
    assert(s.skip(3 + x.len() as int) =~= r.z.buf);
    assert(crate::protocol::zeros() =~= seq![0u8, 0, 0, 0]);
    crate::protocol::lemma_frame_start(a);
    reveal(Run::step);
    reveal(Run::dispatch);
    reveal(Run::step_header);
    reveal(Run::step_bin);
    crate::laws::line::lemma_settle_once(a);
}

/// A hex header of which one digit arrives as another one is passed over, and
/// the next header is heard.
pub proof fn changed_digit_is_passed_over(
    r: Run,
    lost: HeaderView,
    k: int,
    d: u8,
    typ: u8,
    data: Seq<u8>,
)
    requires
        r.z.wf(),
        crate::laws::line::listens(r.z),
        r.z.state != State::Idle,
        r.z.buf.len() == 0,
        lost.data.len() == 4,
        data.len() == 4,
        0 <= k < 14,
        crate::laws::codes::digit_worth(d) >= 0,
        crate::laws::codes::digit_worth(d) != crate::laws::codes::digit_worth(
            crate::frame::hex_header_of(lost.typ, lost.data)[4 + k],
        ),
    ensures
        r.feed(
            crate::frame::hex_header_of(lost.typ, lost.data).update(4 + k, d)
                + crate::frame::hex_header_of(typ, data),
        ) == r.on_header(HeaderView { enc: ZHEX, typ, data }),
{
    let none = Seq::<u8>::empty();
    let whole = crate::frame::hex_header_of(lost.typ, lost.data);
    let x = whole.update(4 + k, d);
    let s = crate::frame::hex_header_of(typ, data);
    let all = x + s;
    let a = r.to(r.z.with_buf(all));
    assert(r.z.buf + all =~= all);
    crate::round_trip::hex_header_round_trip(lost.typ, lost.data, none);
    assert(whole + none =~= whole);
    crate::laws::codes::changed_digit_is_not_heard(lost.typ, lost.data, k, d);
    lemma_digits_and_line_end(lost.typ, lost.data);
    assert(all.subrange(4, 18) =~= x.subrange(4, 18));
    let b = r.to(Session { can_count: 0, ..r.z.with_buf(x.skip(1) + s) });
    assert(all.skip(1) =~= x.skip(1) + s);
    assert(!crate::protocol::cut_off(all, 18)) by {
        crate::protocol::lemma_find_cancels(all);
        if let Some(p) = crate::protocol::find_cancels(all) {
            assert(p >= 18 || all[p] == x[p]);
            assert(p >= 18 || all[p + 1] == x[p + 1]);
        }
    }
    assert(a.step() == b) by {
        crate::protocol::lemma_frame_start(a);
        reveal(Run::step);
        reveal(Run::dispatch);
        reveal(Run::step_header);
    }
    let c = r.to(Session { can_count: 0, ..r.z.with_buf(x.skip(2) + s) });
    assert((x.skip(1) + s).skip(1) =~= x.skip(2) + s);
    assert(b.step() == c) by {
        crate::protocol::lemma_frame_start(b);
        reveal(Run::step);
        reveal(Run::dispatch);
        reveal(Run::step_header);
    }
    let m = r.to(Session { can_count: 1, ..r.z });
    let e = m.to(m.z.with_buf(x.skip(3) + s));
    assert((x.skip(2) + s).skip(1) =~= x.skip(3) + s);
    assert(c.step() == e.step()) by {
        crate::protocol::lemma_frame_byte(c);
        reveal(Run::step);
        reveal(Run::dispatch);
    }
    let noise = x.skip(3);
    assert(crate::laws::line::is_noise(noise)) by {
        assert forall|i: int| 0 <= i < noise.len() implies #[trigger] noise[i] != ZPAD && noise[i]
            != CAN by {
            assert(noise[i] == x[i + 3]);
        }
    }
    crate::laws::line::noise_is_dropped(m, noise, typ, data);
    assert(m.z.buf + (noise + s) =~= noise + s);
    assert(m.feed(noise + s) == e.settle());
    let h = HeaderView { enc: ZHEX, typ, data };
    let q = r.to(Session { can_count: 0, ..r.z });
    let f = q.to(q.z.with_buf(s));
    crate::laws::line::lemma_noise(e, noise, s);
    assert(e.step() == f.step()) by {
        reveal(Run::step);
        reveal(Run::dispatch);
    }
    crate::laws::line::lemma_hex_step(q, typ, data);
    crate::protocol::lemma_on_header(q, h);
    lemma_steps_like(c, e);
    assert(a.steps() == b.steps()) by {
        reveal(Run::steps);
    }
    assert(b.steps() == c.steps()) by {
        reveal(Run::steps);
    }
    reveal(Run::settle);
}

/// Two runs that do the same with the next step end up alike, if it uses some
/// bytes up.
proof fn lemma_steps_like(c: Run, e: Run)
    requires
        c.step() == e.step(),
        c.z.buf.len() > 0,
        e.z.buf.len() > 0,
        e.step().z.buf.len() < e.z.buf.len(),
        c.z.buf.len() >= e.z.buf.len(),
    ensures
        c.steps() == e.steps(),
{
    reveal(Run::steps);
}

/// What a hex header is made of, behind its start.
proof fn lemma_digits_and_line_end(typ: u8, data: Seq<u8>)
    requires
        data.len() == 4,
    ensures
        ({
            let s = crate::frame::hex_header_of(typ, data);
            &&& s.len() >= 20
            &&& s[0] == ZPAD && s[1] == ZPAD && s[2] == ZDLE && s[3] == ZHEX
            &&& forall|i: int| 4 <= i < s.len() ==> #[trigger] s[i] != ZPAD && s[i] != CAN
        }),
{
    let none = Seq::<u8>::empty();
    let s = crate::frame::hex_header_of(typ, data);
    crate::round_trip::hex_header_round_trip(typ, data, none);
    assert(s + none =~= s);
    let h = s.subrange(4, 18);
    crate::laws::codes::digits_are_read(h);
    crate::laws::codes::heard_hex_is_checked(s, typ, data);
    assert forall|i: int| 4 <= i < s.len() implies #[trigger] s[i] != ZPAD && s[i] != CAN by {
        if i < 18 {
            assert(crate::laws::codes::digit_worth(h[i - 4]) >= 0);
        } else {
            assert(s[i] == 0x0d || s[i] == 0x0a || s[i] == 0x11);
        }
    }
}

} // verus!
