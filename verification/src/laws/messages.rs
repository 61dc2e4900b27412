//! What the user interface gets: all that the engine tells, and to the terminal
//! the bytes of the line.

use vstd::prelude::*;

use crate::event::EventView;
use crate::protocol::Run;
use crate::route::{forwarded_is_displayed, ActionView, EmitView, MessageView, PayloadView};

verus! {

/// The bytes that the messages of a list carry to the terminal, in order.
pub open spec fn carried(messages: Seq<MessageView>) -> Seq<u8>
    decreases messages.len(),
{
    if messages.len() == 0 {
        Seq::empty()
    } else {
        carried(messages.drop_last()) + (match messages.last().payload {
            PayloadView::Data { id, data } => if messages.last().channel == "pty://data"@ {
                data
            } else {
                Seq::empty()
            },
            _ => Seq::empty(),
        })
    }
}

/// The pty that a message is about.
pub open spec fn about(m: MessageView) -> Seq<char> {
    match m.payload {
        PayloadView::Data { id, data } => id,
        PayloadView::Exit { id } => id,
        PayloadView::Offer { id, name, size } => id,
        PayloadView::Progress { id, name, done, total, dir } => id,
        PayloadView::Note { id, text } => id,
    }
}

/// What the user interface reads out of a message: the channel says what it
/// is about.
pub open spec fn notice_in(m: MessageView) -> Option<EmitView> {
    let c = m.channel;
    match m.payload {
        PayloadView::Data { id, data } => if c == "pty://data"@ {
            Some(EmitView::Data(data))
        } else {
            None
        },
        PayloadView::Offer { id, name, size } => if c == "zmodem://offer"@ {
            Some(EmitView::Offer { name, size })
        } else {
            None
        },
        PayloadView::Progress { id, name, done, total, dir } => if c == "zmodem://progress"@ {
            Some(EmitView::Progress { name, done, total, dir })
        } else {
            None
        },
        PayloadView::Exit { id } => if c == "zmodem://send-ready"@ {
            Some(EmitView::SendReady)
        } else if c == "zmodem://finished"@ {
            Some(EmitView::Finished)
        } else {
            None
        },
        PayloadView::Note { id, text } => if c == "zmodem://done"@ {
            Some(EmitView::Done { name: text })
        } else if c == "zmodem://error"@ {
            Some(EmitView::Error(text))
        } else {
            None
        },
    }
}

/// The channels that share a payload differ.
proof fn lemma_channels_differ()
    ensures
        "zmodem://send-ready"@ != "zmodem://finished"@,
        "zmodem://done"@ != "zmodem://error"@,
        "pty://exit"@ != "zmodem://send-ready"@,
        "pty://exit"@ != "zmodem://finished"@,
{
    reveal_strlit("zmodem://send-ready");
    reveal_strlit("zmodem://finished");
    reveal_strlit("zmodem://done");
    reveal_strlit("zmodem://error");
    reveal_strlit("pty://exit");
    assert("zmodem://send-ready"@.len() != "zmodem://finished"@.len());
    assert("zmodem://done"@.len() != "zmodem://error"@.len());
    assert("pty://exit"@.len() != "zmodem://send-ready"@.len());
    assert("pty://exit"@.len() != "zmodem://finished"@.len());
}

/// A message tells all of a notice and nothing else: the user interface reads
/// the notice back out of it, and which pty it is about.
pub proof fn message_tells_notice(id: Seq<char>, e: EmitView)
    ensures
        notice_in(crate::route::message_of(id, e)) == Some(e),
        about(crate::route::message_of(id, e)) == id,
{
    lemma_channels_differ();
}

/// The message that a program has ended is taken for no notice of a transfer.
pub proof fn exit_is_no_notice(id: Seq<char>)
    ensures
        notice_in(
            MessageView { channel: "pty://exit"@, payload: PayloadView::Exit { id } },
        ) is None,
{
    lemma_channels_differ();
}

/// The terminal gets the bytes of the notices: the messages that they become
/// carry all of them, in order, and no others.
pub proof fn displayed_is_carried(id: Seq<char>, emits: Seq<EmitView>)
    ensures
        carried(emits.map_values(|e: EmitView| crate::route::message_of(id, e)))
            == crate::route::displayed(emits),
    decreases emits.len(),
{
    let f = |e: EmitView| crate::route::message_of(id, e);
    let all = emits.map_values(f);
    if emits.len() > 0 {
        let t = emits.drop_last();
        displayed_is_carried(id, t);
        assert(all.drop_last() =~= t.map_values(f));
        assert(all.last() == crate::route::message_of(id, emits.last()));
        assert(carried(all) =~= crate::route::displayed(emits));
    }
}

/// While there is no engine for a pty, its bytes go to the terminal as they
/// were read.
pub proof fn raw_is_carried(id: Seq<char>, raw: Seq<u8>)
    ensures
        carried(seq![crate::route::message_of(id, EmitView::Data(raw))]) == raw,
{
    let all = seq![crate::route::message_of(id, EmitView::Data(raw))];
    assert(all.drop_last() =~= Seq::<MessageView>::empty());
    assert(carried(all.drop_last()) =~= Seq::<u8>::empty());
    assert(carried(all) =~= raw);
}

/// Out of a transfer the terminal shows the line: the messages about bytes
/// that were fed, together with what is kept back, carry just these bytes.
pub proof fn terminal_shows_line(id: Seq<char>, r: Run, data: Seq<u8>)
    requires
        crate::laws::line::at_rest(r.z),
        crate::laws::line::no_header(r.z.buf + data),
    ensures
        ({
            let q = r.feed(data);
            let emits = crate::route::emits_of(q.out.skip(r.out.len() as int));
            carried(emits.map_values(|e: EmitView| crate::route::message_of(id, e))) + q.z.buf
                == r.z.buf + data
        }),
{
    let q = r.feed(data);
    let new = q.out.skip(r.out.len() as int);
    crate::laws::line::terminal_bytes_are_shown(r, data);
    forwarded_is_displayed(new);
    displayed_is_carried(id, crate::route::emits_of(new));
    assert(q.out.take(r.out.len() as int) == r.out);
    assert(r.out + new =~= q.out);
    lemma_shown_add(r.out, new);
    let a = crate::laws::line::shown(r.out);
    let b = crate::laws::line::shown(new);
    let x = b + q.z.buf;
    let y = r.z.buf + data;
    assert(a + x =~= a + b + q.z.buf);
    assert((a + x).skip(a.len() as int) =~= x);
    assert((a + y).skip(a.len() as int) =~= y);
}

proof fn lemma_shown_add(a: Seq<EventView>, b: Seq<EventView>)
    ensures
        crate::laws::line::shown(a + b) == crate::laws::line::shown(a) + crate::laws::line::shown(
            b,
        ),
    decreases b.len(),
{
    if b.len() == 0 {
        assert(a + b =~= a);
        assert(crate::laws::line::shown(a) + crate::laws::line::shown(b)
            =~= crate::laws::line::shown(a));
    } else {
        assert((a + b).drop_last() =~= a + b.drop_last());
        lemma_shown_add(a, b.drop_last());
        assert((a + b).last() == b.last());
        assert(crate::laws::line::shown(a + b) =~= crate::laws::line::shown(a)
            + crate::laws::line::shown(b));
    }
}

/// Events are routed one by one: what two lists of events come to, one after
/// the other, is what they come to together.
pub proof fn routing_is_piecewise(a: Seq<EventView>, b: Seq<EventView>)
    ensures
        crate::route::actions_of(a + b) == crate::route::actions_of(a) + crate::route::actions_of(
            b,
        ),
        crate::route::emits_of(a + b) == crate::route::emits_of(a) + crate::route::emits_of(b),
        crate::route::pump_emits_of(a + b) == crate::route::pump_emits_of(a)
            + crate::route::pump_emits_of(b),
    decreases b.len(),
{
    if b.len() == 0 {
        assert(a + b =~= a);
        assert(crate::route::actions_of(a) + crate::route::actions_of(b)
            =~= crate::route::actions_of(a));
        assert(crate::route::emits_of(a) + crate::route::emits_of(b) =~= crate::route::emits_of(a));
        assert(crate::route::pump_emits_of(a) + crate::route::pump_emits_of(b)
            =~= crate::route::pump_emits_of(a));
    } else {
        assert((a + b).drop_last() =~= a + b.drop_last());
        routing_is_piecewise(a, b.drop_last());
        assert((a + b).last() == b.last());
        assert(crate::route::actions_of(a + b) =~= crate::route::actions_of(a)
            + crate::route::actions_of(b));
        assert(crate::route::emits_of(a + b) =~= crate::route::emits_of(a)
            + crate::route::emits_of(b));
        assert(crate::route::pump_emits_of(a + b) =~= crate::route::pump_emits_of(a)
            + crate::route::pump_emits_of(b));
    }
}

/// The event that an action or a notice comes from, as far as it tells.
pub open spec fn comes_from(
    actions: Seq<ActionView>,
    emits: Seq<EmitView>,
    e: EventView,
) -> bool {
    match e {
        EventView::Write(b) => emits.len() == 0 && actions == seq![ActionView::Write(b)],
        EventView::Store(b) => emits.len() == 0 && actions == seq![ActionView::Store(b)],
        EventView::Seek(p) => emits.len() == 0 && actions == seq![ActionView::Seek(p)],
        EventView::Sync => emits.len() == 0 && actions == seq![ActionView::Sync],
        EventView::Release => emits.len() == 0 && actions == seq![ActionView::Release],
        EventView::Finished => actions == seq![ActionView::Close] && emits == seq![
            EmitView::Finished,
        ],
        EventView::Forward(b) => actions.len() == 0 && emits == seq![EmitView::Data(b)],
        EventView::RecvOffer { name, size } => actions.len() == 0 && emits == seq![
            EmitView::Offer { name, size },
        ],
        EventView::SendReady => actions.len() == 0 && emits == seq![EmitView::SendReady],
        EventView::Progress { name, done, total, dir } => actions.len() == 0 && emits == seq![
            EmitView::Progress { name, done, total, dir },
        ],
        EventView::Done { name, dir } => actions.len() == 0 && emits == seq![
            EmitView::Done { name },
        ],
        EventView::Error(t) => actions.len() == 0 && emits == seq![EmitView::Error(t)],
    }
}

/// No event is lost, doubled or changed on its way.
pub proof fn event_is_routed(e: EventView)
    ensures
        comes_from(
            crate::route::actions_of(seq![e]),
            crate::route::emits_of(seq![e]),
            e,
        ),
{
    let one = seq![e];
    assert(one.drop_last() =~= Seq::<EventView>::empty());
    assert(crate::route::actions_of(one.drop_last()) =~= Seq::<ActionView>::empty());
    assert(crate::route::emits_of(one.drop_last()) =~= Seq::<EmitView>::empty());
    assert(crate::route::actions_of(one) =~= crate::route::action_of(e));
    assert(crate::route::emits_of(one) =~= crate::route::emit_of(e));
}

/// The bytes that actions write to the pty, action by action.
pub open spec fn put(actions: Seq<ActionView>) -> Seq<Seq<u8>>
    decreases actions.len(),
{
    if actions.len() == 0 {
        Seq::empty()
    } else {
        put(actions.drop_last()) + (match actions.last() {
            ActionView::Write(b) => seq![b],
            _ => Seq::empty(),
        })
    }
}

/// The pty gets the bytes that the engine writes: all of them, in order, and
/// no others.
pub proof fn written_is_put(events: Seq<EventView>)
    ensures
        put(crate::route::actions_of(events)) == crate::laws::upload::written(events),
    decreases events.len(),
{
    if events.len() > 0 {
        let t = events.drop_last();
        let a = crate::route::action_of(events.last());
        written_is_put(t);
        let all = crate::route::actions_of(t) + a;
        if a.len() == 0 {
            assert(all =~= crate::route::actions_of(t));
            assert(put(all) =~= put(crate::route::actions_of(t)) + Seq::<Seq<u8>>::empty());
        } else {
            assert(all.drop_last() =~= crate::route::actions_of(t));
        }
        assert(put(all) =~= crate::laws::upload::written(events));
    }
}

} // verus!
