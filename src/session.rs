//! The decisions of one client connection. The connection waits for a
//! submission and for notifications at once; whichever comes first is an
//! event, and the session answers with the actions to perform.
use vstd::prelude::*;

use crate::types::{OrderRequest, ProtocolError, TradeNotification};

verus! {

#[derive(Clone, Copy, Debug, PartialEq, Eq, Structural)]
pub enum SessionState {
    /// Waiting for a submission or a notification.
    Reading,
    /// A reply or a notification is being written.
    Writing,
    /// The connection is over.
    Closed,
}

pub enum SessionEvent {
    /// A submission arrived and was decoded into the accepted requests and
    /// the indices of the rejected records.
    Orders(Vec<OrderRequest>, Vec<u32>),
    /// Reading a submission failed.
    ReadFailed(ProtocolError),
    /// The dispatcher has a notification for this client.
    Notification(TradeNotification),
    /// The notification queue was closed: the server shuts down.
    SinkClosed,
    /// What the last actions asked to write has been written.
    Written,
}

pub enum SessionAction {
    /// Give the requests ids and admit them to the book.
    Admit(Vec<OrderRequest>),
    /// Send a type-2 frame listing the rejected record indices.
    ReportRejected(Vec<u32>),
    /// Send a type-4 frame describing the error.
    ReportError(ProtocolError),
    /// Send the notification's frame.
    Send(TradeNotification),
    /// Close the connection.
    Close,
}

/// The next state and the actions, in order, for an event.
pub open spec fn session_next(state: SessionState, event: SessionEvent) -> (
    SessionState,
    Seq<SessionAction>,
) {
    if state == SessionState::Closed {
        (SessionState::Closed, Seq::empty())
    } else {
        match event {
            SessionEvent::Written => (SessionState::Reading, Seq::empty()),
            SessionEvent::Orders(valid, invalid) => if invalid@.len() == 0 {
                (SessionState::Reading, seq![SessionAction::Admit(valid)])
            } else {
                (
                    SessionState::Writing,
                    seq![SessionAction::Admit(valid), SessionAction::ReportRejected(invalid)],
                )
            },
            SessionEvent::ReadFailed(e) => if e == ProtocolError::ConnectionClosed {
                (SessionState::Closed, seq![SessionAction::Close])
            } else if e.fatal() {
                (SessionState::Closed, seq![SessionAction::ReportError(e), SessionAction::Close])
            } else {
                (SessionState::Writing, seq![SessionAction::ReportError(e)])
            },
            SessionEvent::Notification(n) => (SessionState::Writing, seq![SessionAction::Send(n)]),
            SessionEvent::SinkClosed => (SessionState::Closed, seq![SessionAction::Close]),
        }
    }
}

/// Take one step of the connection's state machine. A peer that closed
/// the connection is let go without a reply; another fatal error is
/// reported, then the connection closes; a non-fatal one is reported and
/// the session goes on. Rejected records are reported after the accepted
/// ones are admitted.
pub fn session_step(state: SessionState, event: SessionEvent) -> (r: (
    SessionState,
    Vec<SessionAction>,
))
    ensures
        (r.0, r.1@) == session_next(state, event),
{
    let mut actions: Vec<SessionAction> = Vec::new();
    if state == SessionState::Closed {
        return (SessionState::Closed, actions);
    }
    match event {
        SessionEvent::Written => (SessionState::Reading, actions),
        SessionEvent::Orders(valid, invalid) => {
            let rejected = invalid.len() > 0;
            actions.push(SessionAction::Admit(valid));
            if rejected {
                actions.push(SessionAction::ReportRejected(invalid));
                (SessionState::Writing, actions)
            } else {
                (SessionState::Reading, actions)
            }
        },
        SessionEvent::ReadFailed(e) => {
            let closed = match e {
                ProtocolError::ConnectionClosed => true,
                _ => false,
            };
            if closed {
                actions.push(SessionAction::Close);
                (SessionState::Closed, actions)
            } else if e.is_fatal() {
                actions.push(SessionAction::ReportError(e));
                actions.push(SessionAction::Close);
                (SessionState::Closed, actions)
            } else {
                actions.push(SessionAction::ReportError(e));
                (SessionState::Writing, actions)
            }
        },
        SessionEvent::Notification(n) => {
            actions.push(SessionAction::Send(n));
            (SessionState::Writing, actions)
        },
        SessionEvent::SinkClosed => {
            actions.push(SessionAction::Close);
            (SessionState::Closed, actions)
        },
    }
}

} // verus!
