//! One worker owns one connection: it connects, optionally announces the
//! placement directive, then transmits every chunk handed to it until the
//! connection or the channel ends. The state machine here decides; the
//! surrounding task merely performs the I/O it calls for.

use vstd::prelude::*;

use crate::numfmt::{push_dec_u32, spec_dec};

verus! {

/// Why a worker stopped. `ChannelClosed` is the one orderly end: no more
/// chunks will ever arrive.
#[derive(Clone, Copy, Debug, PartialEq, Eq, Structural)]
pub enum StopReason {
    /// Connecting, or sending the placement directive, failed.
    ConnectFailed,
    /// A chunk write failed mid-stream.
    TransmitFailed,
    /// The chunk channel was closed; shutdown, not a failure.
    ChannelClosed,
}

/// The worker's lifecycle.
#[derive(Clone, Copy, Debug, PartialEq, Eq, Structural)]
pub enum WorkerState {
    /// Opening the connection and sending the placement directive.
    Connecting,
    /// Waiting for chunks and writing each one out in full.
    Active,
    /// No further transitions; the supervisor launches any replacement.
    Stopped(StopReason),
}

/// What the surrounding task reports back to the state machine.
#[derive(Clone, Copy, Debug, PartialEq, Eq, Structural)]
pub enum WorkerEvent {
    /// The connection is open and the directive, if any, was sent.
    Connected,
    /// Opening the connection or sending the directive failed.
    ConnectError,
    /// One chunk was written out in full.
    WriteOk,
    /// Writing a chunk failed.
    WriteError,
    /// The chunk channel has no sender left.
    ChannelClosed,
}

/// Whether a state is final.
pub open spec fn spec_is_stopped(s: WorkerState) -> bool {
    s is Stopped
}

/// The worker's transition function. A stopped worker stays stopped; a
/// connection-stage failure and a transmission-stage failure stop it with
/// distinct reasons; a closed channel stops it without an error.
pub open spec fn spec_worker_step(s: WorkerState, e: WorkerEvent) -> WorkerState {
    match s {
        WorkerState::Connecting => match e {
            WorkerEvent::Connected => WorkerState::Active,
            WorkerEvent::ConnectError => WorkerState::Stopped(StopReason::ConnectFailed),
            _ => s,
        },
        WorkerState::Active => match e {
            WorkerEvent::WriteOk => WorkerState::Active,
            WorkerEvent::WriteError => WorkerState::Stopped(StopReason::TransmitFailed),
            WorkerEvent::ChannelClosed => WorkerState::Stopped(StopReason::ChannelClosed),
            _ => s,
        },
        WorkerState::Stopped(_) => s,
    }
}

/// Advances the worker's state on an event.
pub fn worker_step(s: WorkerState, e: WorkerEvent) -> (r: WorkerState)
    ensures
        r == spec_worker_step(s, e),
        spec_is_stopped(s) ==> r == s,
{
    match s {
        WorkerState::Connecting => match e {
            WorkerEvent::Connected => WorkerState::Active,
            WorkerEvent::ConnectError => WorkerState::Stopped(StopReason::ConnectFailed),
            _ => s,
        },
        WorkerState::Active => match e {
            WorkerEvent::WriteOk => WorkerState::Active,
            WorkerEvent::WriteError => WorkerState::Stopped(StopReason::TransmitFailed),
            WorkerEvent::ChannelClosed => WorkerState::Stopped(StopReason::ChannelClosed),
            _ => s,
        },
        WorkerState::Stopped(_) => s,
    }
}

/// The placement directive: `OFFSET <x> <y>\n`.
pub open spec fn spec_offset_line(x: u32, y: u32) -> Seq<u8> {
    seq![79u8, 70u8, 70u8, 83u8, 69u8, 84u8, 32u8] + spec_dec(x as nat) + seq![32u8] + spec_dec(
        y as nat,
    ) + seq![10u8]
}

/// Builds the placement directive a worker sends right after connecting.
pub fn offset_line(x: u32, y: u32) -> (r: Vec<u8>)
    ensures
        r@ == spec_offset_line(x, y),
{
    let mut out: Vec<u8> = Vec::new();
    out.push(79);
    out.push(70);
    out.push(70);
    out.push(83);
    out.push(69);
    out.push(84);
    out.push(32);
    push_dec_u32(&mut out, x);
    out.push(32);
    push_dec_u32(&mut out, y);
    out.push(10);
    assert(out@ =~= spec_offset_line(x, y));
    out
}

/// The handshake request: `SIZE\n`.
pub open spec fn spec_size_request() -> Seq<u8> {
    seq![83u8, 73u8, 90u8, 69u8, 10u8]
}

/// Builds the one-shot canvas-size query.
pub fn size_request() -> (r: Vec<u8>)
    ensures
        r@ == spec_size_request(),
{
    let mut out: Vec<u8> = Vec::new();
    out.push(83);
    out.push(73);
    out.push(90);
    out.push(69);
    out.push(10);
    assert(out@ =~= spec_size_request());
    out
}

} // verus!
