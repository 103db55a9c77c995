use vstd::prelude::*;

use crate::events::UserEvent;

verus! {

/// What a client's connection delivered.
#[derive(Debug, PartialEq, Eq)]
pub enum Frame {
    Binary(Vec<u8>),
    /// The client closes; its close frame, if any, is kept by the caller.
    Close,
    Ping(Vec<u8>),
    /// Any other kind of frame.
    Other,
    /// The stream ended or failed.
    End,
}

/// What a client session does with a frame.
#[derive(Debug, PartialEq, Eq)]
pub enum SessionAction {
    /// Hand the event to the hub.
    Forward(UserEvent),
    /// Answer with a pong holding these bytes.
    Pong(Vec<u8>),
    /// End the session, echoing the client's close frame.
    Close,
    /// End the session without a close frame.
    Stop,
    /// Nothing to do.
    Ignore,
}

/// Decides what a session does with one incoming frame: binary frames are
/// decoded as client events (a frame that does not decode ends the session
/// without a close frame), a close ends it with the client's close frame, a
/// ping is answered, other frames are ignored, and the end of the stream
/// ends the session.
pub fn handle_message(frame: Frame) -> (r: SessionAction)
    ensures
        match frame {
            Frame::Binary(b) => match UserEvent::parse(b@) {
                Some(e) => r == SessionAction::Forward(e),
                None => r == SessionAction::Stop,
            },
            Frame::Close => r == SessionAction::Close,
            Frame::Ping(p) => r matches SessionAction::Pong(q) && q@ == p@,
            Frame::Other => r == SessionAction::Ignore,
            Frame::End => r == SessionAction::Stop,
        },
{
    match frame {
        Frame::Binary(b) => match UserEvent::decode(b.as_slice()) {
            Some(e) => SessionAction::Forward(e),
            None => SessionAction::Stop,
        },
        Frame::Close => SessionAction::Close,
        Frame::Ping(p) => SessionAction::Pong(p),
        Frame::Other => SessionAction::Ignore,
        Frame::End => SessionAction::Stop,
    }
}

} // verus!
