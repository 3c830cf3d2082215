//! The data carried between the transport, the dispatch loop and the callers.

use vstd::prelude::*;

verus! {

/// A decoded inbound wire message: a reply to a call, an error reply to a
/// call, or an out-of-band push notification.
pub enum InboundMessage {
    Reply { id: i64, result: Vec<u8> },
    ErrorReply { id: i64, code: i64, message: Vec<u8> },
    Notification { payload: Vec<u8> },
}

/// Mathematical view of an inbound message.
pub enum MsgView {
    Reply { id: int, result: Seq<u8> },
    ErrorReply { id: int, code: int, message: Seq<u8> },
    Notification { payload: Seq<u8> },
}

impl View for InboundMessage {
    type V = MsgView;

    open spec fn view(&self) -> MsgView {
        match self {
            InboundMessage::Reply { id, result } => MsgView::Reply {
                id: *id as int,
                result: result@,
            },
            InboundMessage::ErrorReply { id, code, message } => MsgView::ErrorReply {
                id: *id as int,
                code: *code as int,
                message: message@,
            },
            InboundMessage::Notification { payload } => MsgView::Notification {
                payload: payload@,
            },
        }
    }
}

/// An inbound transport frame as the dispatch loop sees it. Only text frames
/// carry protocol content; the payloads of control frames are never read.
pub enum Frame {
    Text(Vec<u8>),
    Ping,
    Pong,
    Binary,
}

/// Mathematical view of a frame.
pub enum FrameView {
    Text(Seq<u8>),
    Ping,
    Pong,
    Binary,
}

impl View for Frame {
    type V = FrameView;

    open spec fn view(&self) -> FrameView {
        match self {
            Frame::Text(payload) => FrameView::Text(payload@),
            Frame::Ping => FrameView::Ping,
            Frame::Pong => FrameView::Pong,
            Frame::Binary => FrameView::Binary,
        }
    }
}

/// The errors a single call can end with: a well-formed error reply from the
/// counterparty, or cancellation because the dispatch loop terminated while
/// the call was still pending.
pub enum DeribitError {
    RemoteError { code: i64, message: Vec<u8> },
    CancelledError,
}

} // verus!
