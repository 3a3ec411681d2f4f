//! What the handling of a frame asks of its surroundings.
//!
//! A frame is handled in steps. Each step tells what is to be done next, and the outcome of that is
//! handed to the method of `Upstreamer` that carries on: `after_transmit`, `after_inspect`,
//! `after_write`, `after_connect`, `after_reassemble`, `after_inspect_datagram`, `after_bind` or
//! `after_send_datagram`.
use vstd::prelude::*;

use crate::addr::SocketAddrV4;
use crate::packet::{Tcp, Udp};
use crate::transmission::Transmission;

#[allow(unused_imports)]
use crate::transmission::Outgoing;

verus! {

/// Represents the reason why a frame could not be handled.
#[derive(Clone, Copy, Debug, PartialEq, Eq, Structural)]
pub enum Failure {
    /// A frame could not be sent to the source.
    Link,
    /// Payload could not be written to a stream.
    Stream,
    /// Payload does not fit in the cache of a connection.
    Cache,
    /// A stream could not be connected.
    Connect,
    /// A datagram worker could not be bound.
    Bind,
    /// A datagram could not be sent.
    Datagram,
}

/// Represents what is to be done at once and cannot fail.
#[derive(Clone, Copy, Debug, PartialEq, Eq, Structural)]
pub enum Command {
    /// Nothing.
    Nothing,
    /// Drop the stream worker of the connection.
    Drop(u64),
    /// Close the stream worker of the connection.
    Close(u64),
    /// Set the source port of the datagram worker at `index`.
    SetSource { index: usize, src_port: u16 },
}

/// Represents how handling carries on after a transmission.
#[derive(Clone, Copy, Debug, PartialEq, Eq, Structural)]
pub enum AfterTransmit {
    /// The frame is handled.
    Finish,
    /// Trigger sending remaining data.
    Flush { dst: SocketAddrV4, src_port: u16 },
    /// Note the retransmission, and trigger sending remaining data.
    Retransmitted { dst: SocketAddrV4, src_port: u16 },
    /// Clean up, and report `failure`.
    Reset { dst: SocketAddrV4, src_port: u16, failure: Failure },
    /// The stream is ready for use.
    Established { dst: SocketAddrV4, src_port: u16 },
}

/// Represents `len` bytes on their way to a stream, after which the window of the connection has
/// room for `remaining` bytes.
#[derive(Clone, Copy, Debug, PartialEq, Eq, Structural)]
pub struct Delivery {
    pub dst: SocketAddrV4,
    pub src_port: u16,
    pub len: u32,
    pub remaining: u16,
}

/// Represents what is to be done next, where `J` stands for transmissions and `B` for bytes.
pub enum Next<J, B> {
    /// Nothing, the frame is handled.
    Finish,
    /// Report a failure.
    Fail(Failure),
    /// Send all frames of a transmission.
    Transmit { job: J, then: AfterTransmit },
    /// Add the frame to the fragments of its datagram.
    Reassemble,
    /// Find out if the stream worker of the connection is closed.
    Inspect { key: u64, tcp: Tcp, payload: B },
    /// Write to the stream of the connection.
    Write { key: u64, payload: B, delivery: Delivery },
    /// Connect a stream for the connection to `dst` through `remote`.
    Connect { key: u64, dst: SocketAddrV4, remote: SocketAddrV4, tcp: Tcp },
    /// Find out if the datagram worker at `index` is closed.
    InspectDatagram { index: usize, udp: Udp, payload: B },
    /// Bind a datagram worker at `index`.
    Bind {
        index: usize,
        src_port: u16,
        local_port: u16,
        remote: SocketAddrV4,
        dst: SocketAddrV4,
        payload: B,
    },
    /// Send a datagram through the datagram worker at `index`.
    SendDatagram { index: usize, dst: SocketAddrV4, payload: B },
}

/// Represents a step in the handling of a frame: `command` is to be done first, then `next`.
pub struct Step<J, B> {
    pub command: Command,
    pub next: Next<J, B>,
}

impl View for Next<Transmission, Vec<u8>> {
    type V = Next<Outgoing, Seq<u8>>;

    open spec fn view(&self) -> Next<Outgoing, Seq<u8>> {
        match *self {
            Next::Finish => Next::Finish,
            Next::Fail(failure) => Next::Fail(failure),
            Next::Transmit { job, then } => Next::Transmit { job: job@, then },
            Next::Reassemble => Next::Reassemble,
            Next::Inspect { key, tcp, payload } => Next::Inspect { key, tcp, payload: payload@ },
            Next::Write { key, payload, delivery } => Next::Write {
                key,
                payload: payload@,
                delivery,
            },
            Next::Connect { key, dst, remote, tcp } => Next::Connect { key, dst, remote, tcp },
            Next::InspectDatagram { index, udp, payload } => Next::InspectDatagram {
                index,
                udp,
                payload: payload@,
            },
            Next::Bind { index, src_port, local_port, remote, dst, payload } => Next::Bind {
                index,
                src_port,
                local_port,
                remote,
                dst,
                payload: payload@,
            },
            Next::SendDatagram { index, dst, payload } => Next::SendDatagram {
                index,
                dst,
                payload: payload@,
            },
        }
    }
}

impl View for Step<Transmission, Vec<u8>> {
    type V = Step<Outgoing, Seq<u8>>;

    open spec fn view(&self) -> Step<Outgoing, Seq<u8>> {
        Step { command: self.command, next: self.next@ }
    }
}

impl Step<Outgoing, Seq<u8>> {
    /// Whether a transmission that the step asks for is proper.
    pub open spec fn wf(self) -> bool {
        match self.next {
            Next::Transmit { job, .. } => job.wf(),
            _ => true,
        }
    }
}

/// What a step asks for is seen as it is, with bytes as sequences.
pub proof fn law_step_is_seen_as_it_is(step: Step<Transmission, Vec<u8>>)
    ensures
        step@.command == step.command,
        step.next is Finish <==> step@.next is Finish,
        step.next is Reassemble <==> step@.next is Reassemble,
        step.next matches Next::Fail(failure) ==> (step@.next matches Next::Fail(seen) && seen
            == failure),
        step.next matches Next::Transmit { job, then } ==> (step@.next matches Next::Transmit {
            job: seen,
            then: after,
        } && seen == job@ && after == then),
        step.next matches Next::Inspect { key, tcp, payload } ==> (step@.next
            matches Next::Inspect { key: k, tcp: t, payload: p } && k == key && t == tcp && p
            == payload@),
        step.next matches Next::Write { key, payload, delivery } ==> (step@.next
            matches Next::Write { key: k, payload: p, delivery: d } && k == key && p == payload@
            && d == delivery),
        step.next matches Next::Connect { key, dst, remote, tcp } ==> (step@.next
            matches Next::Connect { key: k, dst: d, remote: r, tcp: t } && k == key && d == dst
            && r == remote && t == tcp),
        step.next matches Next::InspectDatagram { index, udp, payload } ==> (step@.next
            matches Next::InspectDatagram { index: i, udp: u, payload: p } && i == index && u
            == udp && p == payload@),
        step.next matches Next::Bind { index, src_port, local_port, remote, dst, payload } ==> (
        step@.next matches Next::Bind {
            index: i,
            src_port: s,
            local_port: l,
            remote: r,
            dst: d,
            payload: p,
        } && i == index && s == src_port && l == local_port && r == remote && d == dst && p
            == payload@),
        step.next matches Next::SendDatagram { index, dst, payload } ==> (step@.next
            matches Next::SendDatagram { index: i, dst: d, payload: p } && i == index && d == dst
            && p == payload@),
{
}

} // verus!
