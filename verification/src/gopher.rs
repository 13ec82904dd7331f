//! The Gopher wire codec: one request/response cycle as a sequence of
//! steps. The library decides each step; whoever owns the socket carries it
//! out and reports what happened.

pub mod request;
pub mod response;

use request::{request_bytes, Request};
use response::{ItemType, Response, ResponseOutcome};
use std::rc::Rc;
use vstd::prelude::*;

verus! {

/// The most bytes asked for in one read.
pub const MAX_CHUNK_SIZE: usize = 4096;

/// Seconds allowed for a connection attempt, for a single read, and for
/// reading a whole response.
pub const TIMEOUT_SECS: u64 = 5;

/// The line that ends a menu or a text file: a dot, then CR LF.
pub const TERMINATOR: [u8; 3] = [0x2e, 0x0d, 0x0a];

/// Where a request/response cycle stands.
#[derive(Clone, Copy, Debug, PartialEq, Eq, Structural)]
pub enum Phase {
    /// Waiting to hear whether the connection was made.
    Connecting,
    /// Waiting to hear whether the request was written.
    Sending,
    /// Waiting for the next read.
    Receiving,
    /// The cycle is over.
    Closed,
}

/// Why a read gave no bytes.
#[derive(Clone, Copy, Debug, PartialEq, Eq, Structural)]
pub enum ReadError {
    /// The read was interrupted before it got anything.
    Interrupted,
    /// The read deadline passed.
    TimedOut,
    /// The read would have blocked.
    WouldBlock,
    /// Anything else.
    Other,
}

/// What happened when the last step was carried out.
#[derive(Debug)]
pub enum WireEvent {
    /// The connection is open.
    Connected,
    /// No address of the server accepted a connection.
    ConnectFailed,
    /// The request was written in full.
    Sent,
    /// Writing the request failed.
    SendFailed,
    /// A read returned `chunk`, empty at the end of the stream;
    /// `elapsed_secs` whole seconds have passed since reading began.
    Read { chunk: Vec<u8>, elapsed_secs: u64 },
    /// A read failed.
    ReadFailed(ReadError),
}

/// What to do next.
#[derive(Debug)]
pub enum WireAction {
    /// Open a connection to this `host:port`.
    Connect(Rc<String>),
    /// Write these bytes.
    Send(Vec<u8>),
    /// Read up to `MAX_CHUNK_SIZE` bytes.
    Receive,
    /// The cycle is over and this is its response.
    Finish(Response),
    /// The cycle is over: the last error is not one the codec absorbs.
    Fail,
}

/// One request/response cycle in progress.
pub struct Exchange {
    phase: Phase,
    item_type: ItemType,
    server_details: Rc<String>,
    selector: Rc<String>,
    buffer: Vec<u8>,
}

/// A cycle in progress as plain values.
pub struct ExchangeState {
    pub phase: Phase,
    pub item_type: ItemType,
    pub server_details: Seq<char>,
    pub selector: Seq<char>,
    pub buffer: Seq<u8>,
}

/// A step as plain values.
pub enum WireStep {
    Connect(Seq<char>),
    Send(Seq<u8>),
    Receive,
    Finish(Seq<u8>, ResponseOutcome),
    Fail,
}

impl View for WireAction {
    type V = WireStep;

    open spec fn view(&self) -> WireStep {
        match self {
            WireAction::Connect(server_details) => WireStep::Connect(server_details@),
            WireAction::Send(bytes) => WireStep::Send(bytes@),
            WireAction::Receive => WireStep::Receive,
            WireAction::Finish(response) => WireStep::Finish(
                response.buffer@,
                response.response_outcome,
            ),
            WireAction::Fail => WireStep::Fail,
        }
    }
}

impl View for Exchange {
    type V = ExchangeState;

    closed spec fn view(&self) -> ExchangeState {
        ExchangeState {
            phase: self.phase,
            item_type: self.item_type,
            server_details: self.server_details@,
            selector: self.selector@,
            buffer: self.buffer@,
        }
    }
}

/// `b` ends with `tail`.
pub open spec fn ends_with(b: Seq<u8>, tail: Seq<u8>) -> bool {
    b.len() >= tail.len() && b.subrange(b.len() - tail.len(), b.len() as int) == tail
}

/// Whether responses of this kind end with the terminator line.
pub open spec fn is_terminated(item_type: ItemType) -> bool {
    item_type is Text || item_type is Directory
}

/// The response made of a stream that ended cleanly. Text and directory
/// responses must end with the terminator, which is cut off; without it the
/// bytes are kept and the end line is reported missing. Other responses are
/// complete as they are.
pub open spec fn finished(buffer: Seq<u8>, item_type: ItemType) -> (Seq<u8>, ResponseOutcome) {
    if !is_terminated(item_type) {
        (buffer, ResponseOutcome::Complete)
    } else if ends_with(buffer, TERMINATOR@) {
        (buffer.take(buffer.len() - TERMINATOR@.len()), ResponseOutcome::Complete)
    } else {
        (buffer, ResponseOutcome::MissingEndLine)
    }
}

/// A menu that is nothing but the terminator is complete and empty.
pub proof fn lemma_bare_terminator()
    ensures
        finished(TERMINATOR@, ItemType::Directory) == (
            Seq::<u8>::empty(),
            ResponseOutcome::Complete,
        ),
{
    assert(TERMINATOR@.subrange(0, TERMINATOR@.len() as int) =~= TERMINATOR@);
    assert(TERMINATOR@.take(0) =~= Seq::<u8>::empty());
}

/// A text or directory response is complete exactly when it ends with the
/// terminator; a response of any other kind always is.
pub proof fn lemma_complete_iff_terminated(buffer: Seq<u8>, item_type: ItemType)
    ensures
        finished(buffer, item_type).1 is Complete <==> !is_terminated(item_type) || ends_with(
            buffer,
            TERMINATOR@,
        ),
        finished(buffer, item_type).1 is Complete || finished(buffer, item_type).1
            is MissingEndLine,
{
}

/// The state after the cycle has ended.
pub open spec fn closed(s: ExchangeState) -> ExchangeState {
    ExchangeState { phase: Phase::Closed, buffer: Seq::empty(), ..s }
}

/// The receiving phase: what one read leads to.
///
/// An empty chunk is the end of the stream. A chunk that arrives once the
/// overall deadline has passed ends the cycle with what was read so far. An
/// interrupted read is tried again; a timed-out read ends the cycle.
pub open spec fn received(s: ExchangeState, event: WireEvent) -> (ExchangeState, WireStep) {
    match event {
        WireEvent::Read { chunk, elapsed_secs } => {
            if chunk@.len() == 0 {
                let (bytes, outcome) = finished(s.buffer, s.item_type);
                (closed(s), WireStep::Finish(bytes, outcome))
            } else if elapsed_secs >= TIMEOUT_SECS {
                (closed(s), WireStep::Finish(s.buffer + chunk@, ResponseOutcome::FileTooLong))
            } else {
                (ExchangeState { buffer: s.buffer + chunk@, ..s }, WireStep::Receive)
            }
        },
        WireEvent::ReadFailed(ReadError::Interrupted) => (s, WireStep::Receive),
        WireEvent::ReadFailed(ReadError::TimedOut) | WireEvent::ReadFailed(
            ReadError::WouldBlock,
        ) => (closed(s), WireStep::Finish(s.buffer, ResponseOutcome::Timeout)),
        _ => (closed(s), WireStep::Fail),
    }
}

/// The whole cycle: the state and the step that follow `event`.
///
/// A failed connection is a response of its own kind, with no bytes. A
/// failed write, a failed read of any other kind, and an event that does not
/// answer the step last asked for, end the cycle in failure.
pub open spec fn advanced(s: ExchangeState, event: WireEvent) -> (ExchangeState, WireStep) {
    match s.phase {
        Phase::Connecting => match event {
            WireEvent::Connected => (
                ExchangeState { phase: Phase::Sending, ..s },
                WireStep::Send(request_bytes(s.selector)),
            ),
            WireEvent::ConnectFailed => (
                closed(s),
                WireStep::Finish(Seq::empty(), ResponseOutcome::ConnectionFailed),
            ),
            _ => (closed(s), WireStep::Fail),
        },
        Phase::Sending => match event {
            WireEvent::Sent => (ExchangeState { phase: Phase::Receiving, ..s }, WireStep::Receive),
            _ => (closed(s), WireStep::Fail),
        },
        Phase::Receiving => received(s, event),
        Phase::Closed => (s, WireStep::Fail),
    }
}

/// Whether `buffer` ends with `tail`.
pub fn has_suffix(buffer: &Vec<u8>, tail: &[u8]) -> (r: bool)
    ensures
        r == ends_with(buffer@, tail@),
{
    let n = buffer.len();
    let m = tail.len();
    if n < m {
        return false;
    }
    let mut i: usize = 0;
    while i < m
        invariant
            m <= n,
            n == buffer.len(),
            m == tail.len(),
            i <= m,
            forall|j: int| 0 <= j < i ==> buffer@[n - m + j] == tail@[j],
        decreases m - i,
    {
        if buffer[n - m + i] != tail[i] {
            assert(buffer@.subrange(n - m, n as int)[i as int] != tail@[i as int]);
            return false;
        }
        i = i + 1;
    }
    assert(buffer@.subrange(n - m, n as int) =~= tail@);
    true
}

/// Makes the response of a stream that ended cleanly.
pub fn finish(buffer: Vec<u8>, item_type: ItemType) -> (response: Response)
    ensures
        (response.buffer@, response.response_outcome) == finished(buffer@, item_type),
{
    let mut buffer = buffer;
    match item_type {
        ItemType::Text | ItemType::Directory => {
            if has_suffix(&buffer, TERMINATOR.as_slice()) {
                let keep = buffer.len() - TERMINATOR.len();
                buffer.truncate(keep);
                Response::new(buffer, ResponseOutcome::Complete)
            } else {
                Response::new(buffer, ResponseOutcome::MissingEndLine)
            }
        },
        _ => Response::new(buffer, ResponseOutcome::Complete),
    }
}

/// Begins a request/response cycle: the first step is to connect.
pub fn send_and_recv(request: &Request) -> (r: (Exchange, WireAction))
    ensures
        r.0@ == (ExchangeState {
            phase: Phase::Connecting,
            item_type: request.item_type,
            server_details: request.server_details@,
            selector: request.selector@,
            buffer: Seq::empty(),
        }),
        r.1@ == WireStep::Connect(request.server_details@),
{
    let exchange = Exchange {
        phase: Phase::Connecting,
        item_type: request.item_type,
        server_details: request.server_details.clone(),
        selector: request.selector.clone(),
        buffer: Vec::new(),
    };
    (exchange, WireAction::Connect(request.server_details.clone()))
}

impl Exchange {
    /// Where the cycle stands.
    pub fn phase(&self) -> (phase: Phase)
        ensures
            phase == self@.phase,
    {
        self.phase
    }

    /// Ends the cycle and hands out what was read.
    fn close(&mut self) -> (buffer: Vec<u8>)
        ensures
            buffer@ == old(self)@.buffer,
            final(self)@ == closed(old(self)@),
    {
        let mut buffer: Vec<u8> = Vec::new();
        std::mem::swap(&mut self.buffer, &mut buffer);
        self.phase = Phase::Closed;
        buffer
    }

    /// Takes the outcome of a read while the response is being received.
    pub fn recv(&mut self, event: WireEvent) -> (action: WireAction)
        ensures
            (final(self)@, action@) == received(old(self)@, event),
    {
        match event {
            WireEvent::Read { chunk, elapsed_secs } => {
                let mut chunk = chunk;
                if chunk.len() == 0 {
                    let item_type = self.item_type;
                    let buffer = self.close();
                    WireAction::Finish(finish(buffer, item_type))
                } else {
                    self.buffer.append(&mut chunk);
                    if elapsed_secs >= TIMEOUT_SECS {
                        let buffer = self.close();
                        WireAction::Finish(Response::new(buffer, ResponseOutcome::FileTooLong))
                    } else {
                        WireAction::Receive
                    }
                }
            },
            WireEvent::ReadFailed(ReadError::Interrupted) => WireAction::Receive,
            WireEvent::ReadFailed(ReadError::TimedOut) | WireEvent::ReadFailed(
                ReadError::WouldBlock,
            ) => {
                let buffer = self.close();
                WireAction::Finish(Response::new(buffer, ResponseOutcome::Timeout))
            },
            _ => {
                let _ = self.close();
                WireAction::Fail
            },
        }
    }

    /// Takes the outcome of the step last asked for and says what to do next.
    pub fn advance(&mut self, event: WireEvent) -> (action: WireAction)
        ensures
            (final(self)@, action@) == advanced(old(self)@, event),
    {
        match self.phase {
            Phase::Connecting => match event {
                WireEvent::Connected => {
                    self.phase = Phase::Sending;
                    let mut bytes = self.selector.as_str().as_bytes_vec();
                    bytes.push(0x0d);
                    bytes.push(0x0a);
                    assert(bytes@ =~= request_bytes(self.selector@));
                    WireAction::Send(bytes)
                },
                WireEvent::ConnectFailed => {
                    let _ = self.close();
                    WireAction::Finish(
                        Response::new(Vec::new(), ResponseOutcome::ConnectionFailed),
                    )
                },
                _ => {
                    let _ = self.close();
                    WireAction::Fail
                },
            },
            Phase::Sending => match event {
                WireEvent::Sent => {
                    self.phase = Phase::Receiving;
                    WireAction::Receive
                },
                _ => {
                    let _ = self.close();
                    WireAction::Fail
                },
            },
            Phase::Receiving => self.recv(event),
            Phase::Closed => WireAction::Fail,
        }
    }
}

} // verus!
