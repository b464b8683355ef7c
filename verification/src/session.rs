//! Per-connection session decisions: what the reader task does with each
//! socket read, which reply makes the writer stop, and the connection's
//! lifecycle state machine. The socket and task plumbing around these
//! decisions performs the reads, sends and writes.

use crate::protocol::{spec_decode, ClientId, Frame, FrameView, MessageType};
use crate::result::InvalidMessage;
use vstd::prelude::*;
use vstd::slice::slice_subrange;

verus! {

/// What the reader task does with one socket read.
#[derive(Debug)]
pub enum ReaderAction {
    /// Forward this frame to the engine's inbound queue; when `last` holds
    /// the frame is a Quit and the reader stops after forwarding it.
    Forward { frame: Frame, last: bool },
    /// Drop the line: it did not decode. The connection stays open; only
    /// this one request is lost.
    Ignore { error: InvalidMessage },
}

/// The value of a synthesized Quit frame for a disconnecting client.
pub open spec fn quit_frame_view(client: ClientId) -> FrameView {
    FrameView { typ: MessageType::QUIT, topic: Seq::empty(), content: None, sender: client }
}

/// The reader task's decision for one read of `n` bytes into `buf`. A read
/// of fewer than 2 bytes is a disconnect (a clean FIN, or the platform
/// quirk of a 1-byte read on shutdown): a Quit is synthesized and the
/// reader stops. Otherwise the line without its two terminator bytes is
/// decoded; a decoded Quit is forwarded and stops the reader, any other
/// command is forwarded, and a line that fails to decode is dropped.
pub fn reader_step(buf: &[u8], n: usize, client: ClientId) -> (r: ReaderAction)
    requires
        n <= buf@.len(),
    ensures
        n < 2 ==> (r matches ReaderAction::Forward { frame, last } && frame@ == quit_frame_view(
            client,
        ) && last),
        n >= 2 ==> match spec_decode(buf@.subrange(0, n - 2), client) {
            Ok(fv) => r matches ReaderAction::Forward { frame, last } && frame@ == fv && last == (
            fv.typ == MessageType::QUIT),
            Err(fault) => r matches ReaderAction::Ignore { error } && error.details@
                == crate::protocol::fault_details(fault),
        },
{
    if n < 2 {
        ReaderAction::Forward {
            frame: Frame(MessageType::QUIT, Vec::new(), None, client),
            last: true,
        }
    } else {
        let line = slice_subrange(buf, 0, n - 2);
        match Frame::decode(line, client) {
            Ok(frame) => {
                let last = match frame.0 {
                    MessageType::QUIT => true,
                    _ => false,
                };
                ReaderAction::Forward { frame, last }
            },
            Err(error) => ReaderAction::Ignore { error },
        }
    }
}

/// Whether a reply, once written, ends the writer task: exactly the QUIT
/// reply, after which the connection is closed.
pub fn writer_should_close(frame: &Frame) -> (r: bool)
    ensures
        r == (frame@.typ == MessageType::QUIT),
{
    match frame.0 {
        MessageType::QUIT => true,
        _ => false,
    }
}

/// The lifecycle of one connection.
#[derive(Debug, Clone, Copy, PartialEq, Eq, Structural)]
pub enum SessionState {
    /// Normal traffic moves through the connection.
    Connected,
    /// A Quit command, short read or I/O error happened; the final QUIT
    /// reply has not been written yet.
    Closing,
    /// The final QUIT reply was written; terminal.
    Closed,
}

/// What happens to a connection.
#[derive(Debug, Clone, Copy, PartialEq, Eq, Structural)]
pub enum SessionEvent {
    /// A Subscribe or Publish command moved through: normal traffic.
    Traffic,
    /// A Quit command, a short read, or an I/O error.
    Disconnect,
    /// The writer wrote the final QUIT reply.
    QuitWritten,
}

/// The connection's state machine: traffic keeps it connected, a disconnect
/// starts the close, and writing the QUIT reply completes it. Any other
/// combination leaves the state as it is.
pub open spec fn spec_session_step(s: SessionState, e: SessionEvent) -> SessionState {
    match (s, e) {
        (SessionState::Connected, SessionEvent::Traffic) => SessionState::Connected,
        (SessionState::Connected, SessionEvent::Disconnect) => SessionState::Closing,
        (SessionState::Closing, SessionEvent::QuitWritten) => SessionState::Closed,
        _ => s,
    }
}

impl SessionState {
    /// The state after one event, exactly as [`spec_session_step`] says.
    pub fn step(self, e: SessionEvent) -> (r: SessionState)
        ensures
            r == spec_session_step(self, e),
    {
        match (self, e) {
            (SessionState::Connected, SessionEvent::Traffic) => SessionState::Connected,
            (SessionState::Connected, SessionEvent::Disconnect) => SessionState::Closing,
            (SessionState::Closing, SessionEvent::QuitWritten) => SessionState::Closed,
            _ => self,
        }
    }
}

} // verus!
