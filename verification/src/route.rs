//! Where the events of an engine go: to the pty and the files of the transfer
//! at once, to the user interface afterwards.

use vstd::prelude::*;

use crate::event::{Event, EventView};

verus! {

/// What is to be done with the pty or the files of the transfer.
#[derive(Debug, PartialEq, Eq)]
pub enum Action {
    /// write these bytes to the pty and flush it
    Write(Vec<u8>),
    /// append these bytes to the file being received
    Store(Vec<u8>),
    /// flush the file being received to disk and close it
    Sync,
    /// go to this position of the file being sent
    Seek(u64),
    /// close the file being sent
    Release,
    /// close both files
    Close,
}

/// An action with its contents as mathematical values.
#[verifier::ext_equal]
pub enum ActionView {
    Write(Seq<u8>),
    Store(Seq<u8>),
    Sync,
    Seek(u64),
    Release,
    Close,
}

impl View for Action {
    type V = ActionView;

    open spec fn view(&self) -> ActionView {
        match self {
            Action::Write(b) => ActionView::Write(b@),
            Action::Store(b) => ActionView::Store(b@),
            Action::Sync => ActionView::Sync,
            Action::Seek(p) => ActionView::Seek(*p),
            Action::Release => ActionView::Release,
            Action::Close => ActionView::Close,
        }
    }
}

/// What is to be told to the user interface, once the session is no longer
/// locked.
#[derive(Debug, PartialEq, Eq)]
pub enum Emit {
    Data(Vec<u8>),
    Offer { name: String, size: u64 },
    SendReady,
    Progress { name: String, done: u64, total: u64, dir: String },
    Done { name: String },
    Error(String),
    Finished,
}

/// A notice with its contents as mathematical values.
#[verifier::ext_equal]
pub enum EmitView {
    Data(Seq<u8>),
    Offer { name: Seq<char>, size: u64 },
    SendReady,
    Progress { name: Seq<char>, done: u64, total: u64, dir: Seq<char> },
    Done { name: Seq<char> },
    Error(Seq<char>),
    Finished,
}

impl View for Emit {
    type V = EmitView;

    open spec fn view(&self) -> EmitView {
        match self {
            Emit::Data(b) => EmitView::Data(b@),
            Emit::Offer { name, size } => EmitView::Offer { name: name@, size: *size },
            Emit::SendReady => EmitView::SendReady,
            Emit::Progress { name, done, total, dir } => EmitView::Progress {
                name: name@,
                done: *done,
                total: *total,
                dir: dir@,
            },
            Emit::Done { name } => EmitView::Done { name: name@ },
            Emit::Error(s) => EmitView::Error(s@),
            Emit::Finished => EmitView::Finished,
        }
    }
}

/// The actions of a list.
pub open spec fn actions_view(s: Seq<Action>) -> Seq<ActionView> {
    s.map_values(|a: Action| a@)
}

/// The notices of a list.
pub open spec fn emits_view(s: Seq<Emit>) -> Seq<EmitView> {
    s.map_values(|e: Emit| e@)
}

/// What an event asks to be done: nothing, or one thing.
pub open spec fn action_of(e: EventView) -> Seq<ActionView> {
    match e {
        EventView::Write(b) => seq![ActionView::Write(b)],
        EventView::Store(b) => seq![ActionView::Store(b)],
        EventView::Sync => seq![ActionView::Sync],
        EventView::Seek(p) => seq![ActionView::Seek(p)],
        EventView::Release => seq![ActionView::Release],
        EventView::Finished => seq![ActionView::Close],
        _ => Seq::empty(),
    }
}

/// What an event tells the user interface: nothing, or one thing.
pub open spec fn emit_of(e: EventView) -> Seq<EmitView> {
    match e {
        EventView::Forward(b) => seq![EmitView::Data(b)],
        EventView::RecvOffer { name, size } => seq![EmitView::Offer { name, size }],
        EventView::SendReady => seq![EmitView::SendReady],
        EventView::Progress { name, done, total, dir } => seq![
            EmitView::Progress { name, done, total, dir },
        ],
        EventView::Done { name, dir } => seq![EmitView::Done { name }],
        EventView::Error(s) => seq![EmitView::Error(s)],
        EventView::Finished => seq![EmitView::Finished],
        _ => Seq::empty(),
    }
}

/// An event that no call of `pump` causes.
pub open spec fn is_foreign(e: EventView) -> bool {
    e is Forward || e is RecvOffer || e is SendReady
}

/// What an event of the pump tells the user interface.
pub open spec fn pump_emit_of(e: EventView) -> Seq<EmitView> {
    if is_foreign(e) {
        Seq::empty()
    } else {
        emit_of(e)
    }
}

/// What the events of a list ask to be done, in order.
pub open spec fn actions_of(events: Seq<EventView>) -> Seq<ActionView>
    decreases events.len(),
{
    if events.len() == 0 {
        Seq::empty()
    } else {
        actions_of(events.drop_last()) + action_of(events.last())
    }
}

/// What the events of a list tell the user interface, in order.
pub open spec fn emits_of(events: Seq<EventView>) -> Seq<EmitView>
    decreases events.len(),
{
    if events.len() == 0 {
        Seq::empty()
    } else {
        emits_of(events.drop_last()) + emit_of(events.last())
    }
}

/// What the events of a call of `pump` tell the user interface, in order.
pub open spec fn pump_emits_of(events: Seq<EventView>) -> Seq<EmitView>
    decreases events.len(),
{
    if events.len() == 0 {
        Seq::empty()
    } else {
        pump_emits_of(events.drop_last()) + pump_emit_of(events.last())
    }
}

fn act(actions: &mut Vec<Action>, a: Action)
    ensures
        actions_view(final(actions)@) == actions_view(old(actions)@) + seq![a@],
{
    actions.push(a);
    assert(actions_view(actions@) =~= actions_view(old(actions)@) + seq![a@]);
}

fn tell(emits: &mut Vec<Emit>, e: Emit)
    ensures
        emits_view(final(emits)@) == emits_view(old(emits)@) + seq![e@],
{
    emits.push(e);
    assert(emits_view(emits@) =~= emits_view(old(emits)@) + seq![e@]);
}

/// Routes one event.
fn route(ev: Event, actions: &mut Vec<Action>, emits: &mut Vec<Emit>)
    ensures
        actions_view(final(actions)@) == actions_view(old(actions)@) + action_of(ev@),
        emits_view(final(emits)@) == emits_view(old(emits)@) + emit_of(ev@),
{
    proof {
        assert(actions_view(actions@) + Seq::<ActionView>::empty() =~= actions_view(actions@));
        assert(emits_view(emits@) + Seq::<EmitView>::empty() =~= emits_view(emits@));
    }
    match ev {
        Event::Write(w) => act(actions, Action::Write(w)),
        Event::Store(d) => act(actions, Action::Store(d)),
        Event::Sync => act(actions, Action::Sync),
        Event::Seek(p) => act(actions, Action::Seek(p)),
        Event::Release => act(actions, Action::Release),
        Event::Forward(d) => tell(emits, Emit::Data(d)),
        Event::RecvOffer { name, size } => tell(emits, Emit::Offer { name, size }),
        Event::SendReady => tell(emits, Emit::SendReady),
        Event::Progress { name, done, total, dir } => tell(
            emits,
            Emit::Progress { name, done, total, dir: dir.to_owned() },
        ),
        Event::Done { name, dir: _ } => tell(emits, Emit::Done { name }),
        Event::Error(e) => tell(emits, Emit::Error(e)),
        Event::Finished => {
            act(actions, Action::Close);
            tell(emits, Emit::Finished);
        },
    }
}

/// Routes the events of an engine: what is to be done is returned, what is to
/// be told is appended to `emits`.
pub fn apply_zm_events(events: Vec<Event>, emits: &mut Vec<Emit>) -> (actions: Vec<Action>)
    ensures
        actions_view(actions@) == actions_of(crate::event::events_of(events@)),
        emits_view(final(emits)@) == emits_view(old(emits)@) + emits_of(
            crate::event::events_of(events@),
        ),
{
    let mut actions: Vec<Action> = Vec::new();
    let ghost all = crate::event::events_of(events@);
    assert(actions_view(actions@) =~= Seq::<ActionView>::empty());
    assert(emits_view(emits@) + Seq::<EmitView>::empty() =~= emits_view(emits@));
    assert(all.take(0) =~= Seq::<EventView>::empty());
    for ev in it: events.into_iter()
        invariant
            all == crate::event::events_of(it.seq()),
            actions_view(actions@) == actions_of(all.take(it.index() as int)),
            emits_view(emits@) == emits_view(old(emits)@) + emits_of(all.take(it.index() as int)),
    {
        let ghost next = all.take(it.index() as int + 1);
        assert(next.drop_last() =~= all.take(it.index() as int));
        assert(next.last() == ev@);
        proof {
            let a = emits_view(old(emits)@);
            let b = emits_of(next.drop_last());
            assert(a + b + emit_of(ev@) =~= a + (b + emit_of(ev@)));
        }
        route(ev, &mut actions, emits);
    }
    assert(all.take(all.len() as int) =~= all);
    actions
}

/// Routes the events of a call of `pump`: like [`apply_zm_events`], but events
/// that no such call causes are dropped.
pub fn apply_pump(events: Vec<Event>, emits: &mut Vec<Emit>) -> (actions: Vec<Action>)
    ensures
        actions_view(actions@) == actions_of(crate::event::events_of(events@)),
        emits_view(final(emits)@) == emits_view(old(emits)@) + pump_emits_of(
            crate::event::events_of(events@),
        ),
{
    let mut actions: Vec<Action> = Vec::new();
    let ghost all = crate::event::events_of(events@);
    assert(actions_view(actions@) =~= Seq::<ActionView>::empty());
    assert(emits_view(emits@) + Seq::<EmitView>::empty() =~= emits_view(emits@));
    assert(all.take(0) =~= Seq::<EventView>::empty());
    for ev in it: events.into_iter()
        invariant
            all == crate::event::events_of(it.seq()),
            actions_view(actions@) == actions_of(all.take(it.index() as int)),
            emits_view(emits@) == emits_view(old(emits)@) + pump_emits_of(
                all.take(it.index() as int),
            ),
    {
        let ghost next = all.take(it.index() as int + 1);
        assert(next.drop_last() =~= all.take(it.index() as int));
        assert(next.last() == ev@);
        proof {
            let a = emits_view(old(emits)@);
            let b = pump_emits_of(next.drop_last());
            assert(a + b + pump_emit_of(ev@) =~= a + (b + pump_emit_of(ev@)));
            assert(actions_of(next.drop_last()) + Seq::<ActionView>::empty() =~= actions_of(
                next.drop_last(),
            ));
            assert(a + b + Seq::<EmitView>::empty() =~= a + b);
        }
        match ev {
            Event::Forward(_) => {},
            Event::RecvOffer { name: _, size: _ } => {},
            Event::SendReady => {},
            other => route(other, &mut actions, emits),
        }
    }
    assert(all.take(all.len() as int) =~= all);
    actions
}

/// Bytes of a pty for its terminal.
#[derive(Debug, PartialEq, Eq)]
pub struct PtyData {
    pub id: String,
    pub data: Vec<u8>,
}

/// Something happened to a pty that its name says all of.
#[derive(Debug, PartialEq, Eq)]
pub struct PtyExit {
    pub id: String,
}

/// A file is offered.
#[derive(Debug, PartialEq, Eq)]
pub struct ZmOffer {
    pub id: String,
    pub name: String,
    pub size: u64,
}

/// A transfer has come so far.
#[derive(Debug, PartialEq, Eq)]
pub struct ZmProgress {
    pub id: String,
    pub name: String,
    pub done: u64,
    pub total: u64,
    pub dir: String,
}

/// A text about a transfer.
#[derive(Debug, PartialEq, Eq)]
pub struct ZmNote {
    pub id: String,
    pub text: String,
}

/// What a message carries.
#[derive(Debug, PartialEq, Eq)]
pub enum Payload {
    Data(PtyData),
    Exit(PtyExit),
    Offer(ZmOffer),
    Progress(ZmProgress),
    Note(ZmNote),
}

/// A message to the user interface.
#[derive(Debug, PartialEq, Eq)]
pub struct Message {
    pub channel: &'static str,
    pub payload: Payload,
}

/// A payload with its contents as mathematical values.
#[verifier::ext_equal]
pub enum PayloadView {
    Data { id: Seq<char>, data: Seq<u8> },
    Exit { id: Seq<char> },
    Offer { id: Seq<char>, name: Seq<char>, size: u64 },
    Progress { id: Seq<char>, name: Seq<char>, done: u64, total: u64, dir: Seq<char> },
    Note { id: Seq<char>, text: Seq<char> },
}

/// A message with its contents as mathematical values.
#[verifier::ext_equal]
pub struct MessageView {
    pub channel: Seq<char>,
    pub payload: PayloadView,
}

impl View for Message {
    type V = MessageView;

    open spec fn view(&self) -> MessageView {
        MessageView {
            channel: self.channel@,
            payload: match self.payload {
                Payload::Data(p) => PayloadView::Data { id: p.id@, data: p.data@ },
                Payload::Exit(p) => PayloadView::Exit { id: p.id@ },
                Payload::Offer(p) => PayloadView::Offer {
                    id: p.id@,
                    name: p.name@,
                    size: p.size,
                },
                Payload::Progress(p) => PayloadView::Progress {
                    id: p.id@,
                    name: p.name@,
                    done: p.done,
                    total: p.total,
                    dir: p.dir@,
                },
                Payload::Note(p) => PayloadView::Note { id: p.id@, text: p.text@ },
            },
        }
    }
}

/// The messages of a list.
pub open spec fn messages_view(s: Seq<Message>) -> Seq<MessageView> {
    s.map_values(|m: Message| m@)
}

/// The message that a notice about the pty `id` becomes.
pub open spec fn message_of(id: Seq<char>, e: EmitView) -> MessageView {
    match e {
        EmitView::Data(data) => MessageView {
            channel: "pty://data"@,
            payload: PayloadView::Data { id, data },
        },
        EmitView::Offer { name, size } => MessageView {
            channel: "zmodem://offer"@,
            payload: PayloadView::Offer { id, name, size },
        },
        EmitView::SendReady => MessageView {
            channel: "zmodem://send-ready"@,
            payload: PayloadView::Exit { id },
        },
        EmitView::Progress { name, done, total, dir } => MessageView {
            channel: "zmodem://progress"@,
            payload: PayloadView::Progress { id, name, done, total, dir },
        },
        EmitView::Done { name } => MessageView {
            channel: "zmodem://done"@,
            payload: PayloadView::Note { id, text: name },
        },
        EmitView::Error(text) => MessageView {
            channel: "zmodem://error"@,
            payload: PayloadView::Note { id, text },
        },
        EmitView::Finished => MessageView {
            channel: "zmodem://finished"@,
            payload: PayloadView::Exit { id },
        },
    }
}

/// The message that a notice becomes.
pub fn message(id: &str, e: Emit) -> (m: Message)
    ensures
        m@ == message_of(id@, e@),
{
    let id = id.to_owned();
    match e {
        Emit::Data(data) => Message {
            channel: "pty://data",
            payload: Payload::Data(PtyData { id, data }),
        },
        Emit::Offer { name, size } => Message {
            channel: "zmodem://offer",
            payload: Payload::Offer(ZmOffer { id, name, size }),
        },
        Emit::SendReady => Message {
            channel: "zmodem://send-ready",
            payload: Payload::Exit(PtyExit { id }),
        },
        Emit::Progress { name, done, total, dir } => Message {
            channel: "zmodem://progress",
            payload: Payload::Progress(ZmProgress { id, name, done, total, dir }),
        },
        Emit::Done { name } => Message {
            channel: "zmodem://done",
            payload: Payload::Note(ZmNote { id, text: name }),
        },
        Emit::Error(text) => Message {
            channel: "zmodem://error",
            payload: Payload::Note(ZmNote { id, text }),
        },
        Emit::Finished => Message {
            channel: "zmodem://finished",
            payload: Payload::Exit(PtyExit { id }),
        },
    }
}

/// The messages that notices about the pty `id` become, in order.
pub fn flush_emits(id: &str, emits: Vec<Emit>) -> (messages: Vec<Message>)
    ensures
        messages_view(messages@) == emits_view(emits@).map_values(
            |e: EmitView| message_of(id@, e),
        ),
        crate::laws::messages::carried(messages_view(messages@)) == displayed(emits_view(emits@)),
{
    let mut messages: Vec<Message> = Vec::new();
    let ghost all = emits_view(emits@);
    for e in it: emits.into_iter()
        invariant
            all == emits_view(it.seq()),
            messages@.len() == it.index(),
            forall|i: int|
                0 <= i < it.index() ==> (#[trigger] messages@[i])@ == message_of(id@, all[i]),
    {
        assert(e@ == all[it.index() as int]);
        messages.push(message(id, e));
    }
    assert(messages_view(messages@) =~= all.map_values(|e: EmitView| message_of(id@, e)));
    proof {
        crate::laws::messages::displayed_is_carried(id@, all);
    }
    messages
}

/// The messages about bytes that were read from the pty `id`: what its engine
/// made of them, or the bytes themselves while there is no engine for it yet.
pub fn read_messages(id: &str, emits: Option<Vec<Emit>>, raw: Vec<u8>) -> (messages: Vec<Message>)
    ensures
        messages_view(messages@) == match emits {
            Some(e) => emits_view(e@).map_values(|e: EmitView| message_of(id@, e)),
            None => seq![message_of(id@, EmitView::Data(raw@))],
        },
        crate::laws::messages::carried(messages_view(messages@)) == match emits {
            Some(e) => displayed(emits_view(e@)),
            None => raw@,
        },
{
    match emits {
        Some(e) => flush_emits(id, e),
        None => {
            let mut messages: Vec<Message> = Vec::new();
            messages.push(message(id, Emit::Data(raw)));
            assert(messages_view(messages@) =~= seq![message_of(id@, EmitView::Data(raw@))]);
            proof {
                crate::laws::messages::raw_is_carried(id@, raw@);
            }
            messages
        },
    }
}

/// The message that the program in the pty `id` has ended.
pub fn exit_message(id: &str) -> (m: Message)
    ensures
        m@ == (MessageView { channel: "pty://exit"@, payload: PayloadView::Exit { id: id@ } }),
{
    Message { channel: "pty://exit", payload: Payload::Exit(PtyExit { id: id.to_owned() }) }
}

proof fn lemma_no_foreign(events: Seq<EventView>)
    requires
        forall|i: int| 0 <= i < events.len() ==> !is_foreign(#[trigger] events[i]),
    ensures
        pump_emits_of(events) == emits_of(events),
    decreases events.len(),
{
    if events.len() > 0 {
        assert(!is_foreign(events[events.len() - 1]));
        let t = events.drop_last();
        assert forall|i: int| 0 <= i < t.len() implies !is_foreign(#[trigger] t[i]) by {
            assert(!is_foreign(events[i]));
        }
        lemma_no_foreign(t);
    }
}

/// Of what a call of `pump` causes nothing is dropped.
pub proof fn pump_drops_nothing(r: crate::protocol::Run, reads: Seq<Seq<u8>>)
    ensures
        ({
            let new = r.pump(reads).out.skip(r.out.len() as int);
            pump_emits_of(new) == emits_of(new)
        }),
{
    let new = r.pump(reads).out.skip(r.out.len() as int);
    lemma_no_foreign(new);
}

/// The bytes that notices hand to the terminal.
pub open spec fn displayed(emits: Seq<EmitView>) -> Seq<u8>
    decreases emits.len(),
{
    if emits.len() == 0 {
        Seq::empty()
    } else {
        displayed(emits.drop_last()) + (match emits.last() {
            EmitView::Data(b) => b,
            _ => Seq::empty(),
        })
    }
}

/// The terminal gets the bytes that the engine forwards: all of them, in
/// order, and no others.
pub proof fn forwarded_is_displayed(events: Seq<EventView>)
    ensures
        displayed(emits_of(events)) == crate::laws::line::shown(events),
    decreases events.len(),
{
    if events.len() > 0 {
        let t = events.drop_last();
        let e = emit_of(events.last());
        forwarded_is_displayed(t);
        let all = emits_of(t) + e;
        if e.len() == 0 {
            assert(all =~= emits_of(t));
            assert(displayed(all) =~= displayed(emits_of(t)) + Seq::<u8>::empty());
        } else {
            assert(all.drop_last() =~= emits_of(t));
        }
    }
}

/// The bytes that actions append to the file being received.
pub open spec fn appended(actions: Seq<ActionView>) -> Seq<u8>
    decreases actions.len(),
{
    if actions.len() == 0 {
        Seq::empty()
    } else {
        appended(actions.drop_last()) + (match actions.last() {
            ActionView::Store(b) => b,
            _ => Seq::empty(),
        })
    }
}

/// The file gets the bytes that the engine stores: all of them, in order, and
/// no others.
pub proof fn stored_is_appended(events: Seq<EventView>)
    ensures
        appended(actions_of(events)) == crate::laws::transfer::stored(events),
    decreases events.len(),
{
    if events.len() > 0 {
        let t = events.drop_last();
        let a = action_of(events.last());
        stored_is_appended(t);
        let all = actions_of(t) + a;
        if a.len() == 0 {
            assert(all =~= actions_of(t));
            assert(appended(all) =~= appended(actions_of(t)) + Seq::<u8>::empty());
        } else {
            assert(all.drop_last() =~= actions_of(t));
        }
    }
}

} // verus!
