//! One client connection: what to do with each read and each write.
//!
//! The connection is either reading or closed, and once closed it stays so.
//! Whoever owns the socket performs the reads and writes and reports how they
//! went; the decisions are taken here.

use crate::command::{
    command_of,
    contents_after,
    pong_text,
    ready_reply,
    reply_to,
    Command,
    CommandView,
};
use crate::decode::{decode_frame, parse_resp};
use crate::reply::{encode_reply, encode_status};
use crate::text::names;
use crate::store::Store;
use vstd::prelude::*;

verus! {

/// The state of a connection.
#[derive(Clone, Copy, Debug, PartialEq, Eq, Structural)]
pub enum Phase {
    /// Waiting for the next request.
    Reading,
    /// Done; nothing more is read or written.
    Closed,
}

/// How a read from the socket went.
pub enum Incoming<'a> {
    /// These bytes arrived; none at all means that the peer has closed.
    Data(&'a [u8]),
    /// The read failed.
    Failed,
}

/// What to do after a read.
#[derive(Debug, PartialEq, Eq)]
pub enum Step {
    /// Stop serving the connection.
    Close,
    /// Send nothing and read again.
    Skip,
    /// Send these bytes, then read again.
    Send(Vec<u8>),
    /// Take hold of the store, carry the command out on it, send its reply,
    /// then read again.
    Consult(Command),
}

/// A read as mathematical data.
pub enum IncomingView {
    Data(Seq<u8>),
    Failed,
}

/// A step as mathematical data.
pub enum StepView {
    Close,
    Skip,
    Send(Seq<u8>),
    Consult(CommandView),
}

impl<'a> View for Incoming<'a> {
    type V = IncomingView;

    open spec fn view(&self) -> IncomingView {
        match self {
            Incoming::Data(bytes) => IncomingView::Data(bytes@),
            Incoming::Failed => IncomingView::Failed,
        }
    }
}

impl View for Step {
    type V = StepView;

    open spec fn view(&self) -> StepView {
        match self {
            Step::Close => StepView::Close,
            Step::Skip => StepView::Skip,
            Step::Send(bytes) => StepView::Send(bytes@),
            Step::Consult(command) => StepView::Consult(command@),
        }
    }
}

/// The step that a command calls for: one that uses the store is handed
/// out to be carried out on it; the reply to any other is ready to send.
pub open spec fn step_for_command(command: CommandView) -> StepView {
    match ready_reply(command) {
        Some(reply) => StepView::Send(encode_reply(reply)),
        None => StepView::Consult(command),
    }
}

/// The step that follows a read on a connection in the given phase. A
/// closed connection stays closed. A failed read and a read of no bytes
/// close it. Bytes that do not decode are skipped without a reply.
pub open spec fn step_after(phase: Phase, incoming: IncomingView) -> StepView {
    match (phase, incoming) {
        (Phase::Closed, _) => StepView::Close,
        (Phase::Reading, IncomingView::Failed) => StepView::Close,
        (Phase::Reading, IncomingView::Data(bytes)) => {
            if bytes.len() == 0 {
                StepView::Close
            } else {
                match decode_frame(bytes) {
                    Some(frame) => step_for_command(command_of(frame)),
                    None => StepView::Skip,
                }
            }
        },
    }
}

/// The phase that a step leaves the connection in.
pub open spec fn phase_after(step: StepView) -> Phase {
    if step is Close {
        Phase::Closed
    } else {
        Phase::Reading
    }
}

/// Whether the first element of a frame is the name of a command that the
/// server knows.
pub open spec fn has_known_name(frame: Seq<Seq<char>>) -> bool {
    frame.len() > 0 && (names(frame[0], "ECHO"@) || names(frame[0], "SET"@) || names(
        frame[0],
        "GET"@,
    ))
}

/// Every request that decodes to a frame without a known name is answered
/// with the status `PONG`, and the connection goes on reading.
pub proof fn lemma_unknown_name_is_answered(bytes: Seq<u8>)
    requires
        decode_frame(bytes) matches Some(frame) && !has_known_name(frame),
    ensures
        step_after(Phase::Reading, IncomingView::Data(bytes)) == StepView::Send(
            encode_status(pong_text()),
        ),
        phase_after(step_after(Phase::Reading, IncomingView::Data(bytes))) == Phase::Reading,
{
}

/// Bytes that do not decode are skipped: nothing is sent, and the
/// connection goes on reading.
pub proof fn lemma_malformed_is_skipped(bytes: Seq<u8>)
    requires
        bytes.len() > 0,
        decode_frame(bytes) is None,
    ensures
        step_after(Phase::Reading, IncomingView::Data(bytes)) == StepView::Skip,
        phase_after(step_after(Phase::Reading, IncomingView::Data(bytes))) == Phase::Reading,
{
}

/// A closed connection stays closed, whatever is read.
pub proof fn lemma_closed_is_final(incoming: IncomingView)
    ensures
        phase_after(step_after(Phase::Closed, incoming)) == Phase::Closed,
{
}

/// A client connection.
pub struct Connection {
    phase: Phase,
}

impl Connection {
    /// The phase that the connection is in.
    pub closed spec fn phase(&self) -> Phase {
        self.phase
    }

    /// A connection that has just been accepted.
    pub fn open() -> (connection: Connection)
        ensures
            connection.phase() == Phase::Reading,
    {
        Connection { phase: Phase::Reading }
    }

    /// Tells whether the connection is still being served.
    pub fn is_open(&self) -> (r: bool)
        ensures
            r == (self.phase() == Phase::Reading),
    {
        match self.phase {
            Phase::Reading => true,
            Phase::Closed => false,
        }
    }

    /// Takes note of a read and says what to do next.
    pub fn on_read(&mut self, incoming: Incoming) -> (step: Step)
        ensures
            step@ == step_after(old(self).phase(), incoming@),
            final(self).phase() == phase_after(step@),
    {
        if !self.is_open() {
            return Step::Close;
        }
        let bytes = match incoming {
            Incoming::Data(bytes) => bytes,
            Incoming::Failed => {
                self.phase = Phase::Closed;
                return Step::Close;
            },
        };
        if bytes.len() == 0 {
            self.phase = Phase::Closed;
            return Step::Close;
        }
        match parse_resp(bytes) {
            Some(args) => {
                match Command::from_frame(&args).reply_without_store() {
                    Ok(reply) => Step::Send(reply.encode()),
                    Err(command) => Step::Consult(command),
                }
            },
            None => Step::Skip,
        }
    }

    /// Takes note of how a write went: a failed write closes the connection.
    pub fn on_write(&mut self, written: bool)
        ensures
            final(self).phase() == if written {
                old(self).phase()
            } else {
                Phase::Closed
            },
    {
        if !written {
            self.phase = Phase::Closed;
        }
    }
}

/// Carries out on `store` a command that was handed out for it, at the
/// present reading of the store's clock, which may be any that is not less
/// than the one before, and gives the bytes to send.
pub fn consult(store: &mut Store, command: Command) -> (bytes: Vec<u8>)
    ensures
        final(store).latest_reading() >= old(store).latest_reading(),
        bytes@ == encode_reply(
            reply_to(command@, old(store)@, final(store).latest_reading()),
        ),
        final(store)@ == contents_after(command@, old(store)@, final(store).latest_reading()),
{
    let reply = command.execute(store);
    reply.encode()
}

} // verus!
