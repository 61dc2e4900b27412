//! Views keep what a value holds: the bytes, the texts and the numbers in it,
//! and how many items a list has and in which order.

use vstd::prelude::*;

use crate::event::{Event, EventView};
use crate::launch::{Dir, DirView, Launch};
use crate::route::{Action, ActionView, Emit, EmitView, Message, Payload, PayloadView};

verus! {

/// A list of texts or of byte vectors is seen item by item.
pub proof fn texts_are_seen(texts: Seq<String>, reads: Seq<Vec<u8>>)
    ensures
        crate::engine::texts_of(texts).len() == texts.len(),
        forall|i: int|
            0 <= i < texts.len() ==> #[trigger] crate::engine::texts_of(texts)[i] == texts[i]@,
        crate::engine::reads_of(reads).len() == reads.len(),
        forall|i: int|
            0 <= i < reads.len() ==> #[trigger] crate::engine::reads_of(reads)[i] == reads[i]@,
{
}

/// A list of events is seen event by event.
pub proof fn events_are_seen(events: Seq<Event>)
    ensures
        crate::event::events_of(events).len() == events.len(),
        forall|i: int|
            0 <= i < events.len() ==> #[trigger] crate::event::events_of(events)[i] == events[i]@,
{
}

/// Lists of actions, of notices and of messages are seen item by item.
pub proof fn lists_are_seen(actions: Seq<Action>, emits: Seq<Emit>, messages: Seq<Message>)
    ensures
        crate::route::actions_view(actions).len() == actions.len(),
        forall|i: int|
            0 <= i < actions.len() ==> #[trigger] crate::route::actions_view(actions)[i]
                == actions[i]@,
        crate::route::emits_view(emits).len() == emits.len(),
        forall|i: int|
            0 <= i < emits.len() ==> #[trigger] crate::route::emits_view(emits)[i] == emits[i]@,
        crate::route::messages_view(messages).len() == messages.len(),
        forall|i: int|
            0 <= i < messages.len() ==> #[trigger] crate::route::messages_view(messages)[i]
                == messages[i]@,
{
}

/// What an event carries is seen as it is.
pub proof fn event_is_seen(e: Event)
    ensures
        e matches Event::Forward(b) ==> e@ == EventView::Forward(b@),
        e matches Event::Write(b) ==> e@ == EventView::Write(b@),
        e matches Event::Store(b) ==> e@ == EventView::Store(b@),
        e matches Event::Error(t) ==> e@ == EventView::Error(t@),
        e matches Event::Seek(p) ==> e@ == EventView::Seek(p),
        e matches Event::RecvOffer { name, size } ==> e@->RecvOffer_name == name@
            && e@->RecvOffer_size == size && e@ is RecvOffer,
        e matches Event::Done { name, dir } ==> e@->Done_name == name@ && e@->Done_dir == dir@
            && e@ is Done,
        e matches Event::Progress { name, done, total, dir } ==> e@ is Progress
            && e@->Progress_name == name@ && e@->done == done && e@->total == total
            && e@->Progress_dir == dir@,
        e is SendReady <==> e@ is SendReady,
        e is Finished <==> e@ is Finished,
        e is Sync <==> e@ is Sync,
        e is Release <==> e@ is Release,
{
}

/// What an action or a notice carries is seen as it is.
pub proof fn outcome_is_seen(a: Action, e: Emit)
    ensures
        a matches Action::Write(b) ==> a@ == ActionView::Write(b@),
        a matches Action::Store(b) ==> a@ == ActionView::Store(b@),
        a matches Action::Seek(p) ==> a@ == ActionView::Seek(p),
        a is Sync <==> a@ is Sync,
        a is Release <==> a@ is Release,
        a is Close <==> a@ is Close,
        e matches Emit::Data(b) ==> e@ == EmitView::Data(b@),
        e matches Emit::Error(t) ==> e@ == EmitView::Error(t@),
        e matches Emit::Offer { name, size } ==> e@ is Offer && e@->Offer_name == name@ && e@->size
            == size,
        e matches Emit::Done { name } ==> e@ is Done && e@->Done_name == name@,
        e matches Emit::Progress { name, done, total, dir } ==> e@ is Progress
            && e@->Progress_name == name@ && e@->done == done && e@->total == total && e@->dir
            == dir@,
        e is SendReady <==> e@ is SendReady,
        e is Finished <==> e@ is Finished,
{
}

/// What a message carries is seen as it is.
pub proof fn message_is_seen(m: Message)
    ensures
        m@.channel == m.channel@,
        m.payload matches Payload::Data(p) ==> m@.payload == (PayloadView::Data {
            id: p.id@,
            data: p.data@,
        }),
        m.payload matches Payload::Exit(p) ==> m@.payload == (PayloadView::Exit { id: p.id@ }),
        m.payload matches Payload::Offer(p) ==> m@.payload == (PayloadView::Offer {
            id: p.id@,
            name: p.name@,
            size: p.size,
        }),
        m.payload matches Payload::Progress(p) ==> m@.payload == (PayloadView::Progress {
            id: p.id@,
            name: p.name@,
            done: p.done,
            total: p.total,
            dir: p.dir@,
        }),
        m.payload matches Payload::Note(p) ==> m@.payload == (PayloadView::Note {
            id: p.id@,
            text: p.text@,
        }),
{
}

/// A program to run is seen with each of its arguments, and a list of
/// directories with each directory.
pub proof fn program_is_seen(l: Launch, dirs: Seq<Dir>)
    ensures
        l@.program == l.program@,
        l@.args.len() == l.args@.len(),
        forall|i: int| 0 <= i < l.args@.len() ==> #[trigger] l@.args[i] == l.args@[i]@,
        crate::launch::dirs_view(dirs).len() == dirs.len(),
        forall|i: int|
            0 <= i < dirs.len() ==> #[trigger] crate::launch::dirs_view(dirs)[i] == match dirs[i] {
                Dir::At(s) => DirView::At(s@),
                Dir::InHome(s) => DirView::InHome(s@),
            },
{
}

} // verus!
