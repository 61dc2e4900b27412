//! What the engine asks its surroundings to do.

use vstd::prelude::*;

verus! {

/// A request or a notification of the engine. They are to be carried out in
/// the order in which they come.
#[derive(Debug, PartialEq, Eq)]
pub enum Event {
    /// bytes that belong to the terminal display
    Forward(Vec<u8>),
    /// bytes to write to the pty
    Write(Vec<u8>),
    /// remote sz offers a file: ask the user where to save it
    RecvOffer { name: String, size: u64 },
    /// remote rz is waiting: ask the user which files to send
    SendReady,
    Progress { name: String, done: u64, total: u64, dir: &'static str },
    Done { name: String, dir: &'static str },
    Error(String),
    /// transfer session fully over, back to plain terminal; a file that is
    /// still open for the session is no longer needed
    Finished,
    /// bytes to append to the file that is being received
    Store(Vec<u8>),
    /// the file that is being received is complete: flush it to disk and
    /// close it
    Sync,
    /// read the file that is being sent from this position on
    Seek(u64),
    /// the file that is being sent is no longer needed
    Release,
}

/// An event with its contents as mathematical values.
#[verifier::ext_equal]
pub enum EventView {
    Forward(Seq<u8>),
    Write(Seq<u8>),
    RecvOffer { name: Seq<char>, size: u64 },
    SendReady,
    Progress { name: Seq<char>, done: u64, total: u64, dir: Seq<char> },
    Done { name: Seq<char>, dir: Seq<char> },
    Error(Seq<char>),
    Finished,
    Store(Seq<u8>),
    Sync,
    Seek(u64),
    Release,
}

impl View for Event {
    type V = EventView;

    open spec fn view(&self) -> EventView {
        match self {
            Event::Forward(b) => EventView::Forward(b@),
            Event::Write(b) => EventView::Write(b@),
            Event::RecvOffer { name, size } => EventView::RecvOffer { name: name@, size: *size },
            Event::SendReady => EventView::SendReady,
            Event::Progress { name, done, total, dir } => EventView::Progress {
                name: name@,
                done: *done,
                total: *total,
                dir: dir@,
            },
            Event::Done { name, dir } => EventView::Done { name: name@, dir: dir@ },
            Event::Error(s) => EventView::Error(s@),
            Event::Finished => EventView::Finished,
            Event::Store(b) => EventView::Store(b@),
            Event::Sync => EventView::Sync,
            Event::Seek(p) => EventView::Seek(*p),
            Event::Release => EventView::Release,
        }
    }
}

/// The events of a list.
pub open spec fn events_of(s: Seq<Event>) -> Seq<EventView> {
    s.map_values(|e: Event| e@)
}

/// Appends an event.
pub(crate) fn emit(out: &mut Vec<Event>, e: Event)
    ensures
        events_of(final(out)@) == events_of(old(out)@).push(e@),
{
    out.push(e);
    assert(events_of(out@) =~= events_of(old(out)@).push(e@));
}

} // verus!
