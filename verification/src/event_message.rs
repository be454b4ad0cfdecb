//! Control messages that a worker job posts back to the reactor thread over
//! the notification channel.
use vstd::prelude::*;
use crate::frame::{Frame, FrameView};

verus! {

/// A control message to the reactor: re-arm a connection's registration,
/// close it, or hand over something a frame delivered.
pub enum EventMessage {
    /// The handler finished a unit of work; interest must be re-registered.
    ReArm(u64),
    /// The connection must be removed and its socket released.
    Close(u64),
    /// A ping frame arrived and a pong must be queued.
    Ping(u64, Frame),
    /// A pong frame arrived (logged and dropped).
    Pong(u64, Vec<u8>),
    /// A complete text message arrived.
    TextFrame(u64, String),
    /// A complete binary message arrived.
    BinaryFrame(u64, Vec<u8>),
}

/// The mathematical value of an `EventMessage`.
pub enum EventMessageView {
    ReArm(u64),
    Close(u64),
    Ping(u64, FrameView),
    Pong(u64, Seq<u8>),
    TextFrame(u64, Seq<char>),
    BinaryFrame(u64, Seq<u8>),
}

impl View for EventMessage {
    type V = EventMessageView;

    open spec fn view(&self) -> EventMessageView {
        match self {
            EventMessage::ReArm(t) => EventMessageView::ReArm(*t),
            EventMessage::Close(t) => EventMessageView::Close(*t),
            EventMessage::Ping(t, f) => EventMessageView::Ping(*t, f@),
            EventMessage::Pong(t, p) => EventMessageView::Pong(*t, p@),
            EventMessage::TextFrame(t, s) => EventMessageView::TextFrame(*t, s@),
            EventMessage::BinaryFrame(t, p) => EventMessageView::BinaryFrame(*t, p@),
        }
    }
}

/// The values of a whole batch of messages, in order.
pub open spec fn messages_view(v: Seq<EventMessage>) -> Seq<EventMessageView> {
    v.map_values(|m: EventMessage| m@)
}

} // verus!
