//! The workers that bring traffic of the proxy to the source.
//!
//! A worker is told what came of reading from its socket, and says how reading goes on.
use vstd::prelude::*;

use crate::addr::SocketAddrV4;
use crate::cacher::CacheError;
use crate::downstream::Downstreamer;
use crate::transmission::Transmission;
use crate::upstream::TIMEDOUT_WAIT;

#[allow(unused_imports)]
use crate::addr::flow;
#[allow(unused_imports)]
use crate::transmission::Outgoing;

verus! {

/// Represents what came of reading from a stream.
pub enum StreamRead {
    /// Some bytes, or none at the end of the stream.
    Bytes(Vec<u8>),
    /// Nothing came in time.
    TimedOut,
    /// The stream failed.
    Failed,
}

/// Represents what came of reading from a datagram socket.
pub enum DatagramRead {
    /// A datagram from `addr`.
    Datagram { addr: SocketAddrV4, payload: Vec<u8> },
    /// Nothing came in time.
    TimedOut,
    /// The socket failed.
    Failed,
}

/// Represents how reading goes on.
pub enum Reading {
    /// Send all frames of a transmission, then read again.
    Transmit(Transmission),
    /// Report that the bytes could not be cached, then read again.
    Refuse(CacheError),
    /// Wait for some milliseconds, then read again.
    Wait(u64),
    /// Stop reading.
    Stop,
}

/// Represents a worker of a SOCKS5 TCP stream.
#[derive(Clone, Copy, Debug, PartialEq, Eq, Structural)]
pub struct StreamWorker {
    pub src_port: u16,
    pub dst: SocketAddrV4,
    pub is_closed: bool,
}

impl StreamWorker {
    /// Opens a new `StreamWorker`.
    pub fn connect(src_port: u16, dst: SocketAddrV4) -> (result: StreamWorker)
        ensures
            result == (StreamWorker { src_port, dst, is_closed: false }),
    {
        StreamWorker { src_port, dst, is_closed: false }
    }

    /// Closes the worker.
    pub fn close(&mut self)
        ensures
            *final(self) == (StreamWorker { is_closed: true, ..*old(self) }),
    {
        self.is_closed = true;
    }

    /// Returns if the worker is closed.
    pub fn is_closed(&self) -> (result: bool)
        ensures
            result == self.is_closed,
    {
        self.is_closed
    }

    /// Carries on after a read: bytes are queued for the source, the end of the stream and a
    /// failure close the worker, and a closed worker drops what it reads.
    pub fn receive(&mut self, tx: &mut Downstreamer, read: StreamRead) -> (result: Reading)
        requires
            old(tx)@.wf(),
        ensures
            final(tx)@.wf(),
            match read {
                StreamRead::Bytes(payload) => if old(self).is_closed {
                    &&& *final(self) == *old(self)
                    &&& final(tx)@ == old(tx)@
                    &&& result == Reading::Stop
                } else if payload@.len() == 0 {
                    &&& *final(self) == (StreamWorker { is_closed: true, ..*old(self) })
                    &&& final(tx)@ == old(tx)@
                    &&& result == Reading::Stop
                } else {
                    let key = flow(old(self).src_port, old(self).dst);
                    &&& *final(self) == *old(self)
                    &&& if old(tx)@.has_room_for(key, payload@) {
                        let queued = old(tx)@.queued(key, payload@);
                        &&& final(tx)@ == queued.flushed(key)
                        &&& result is Transmit
                        &&& result->Transmit_0@ == queued.flush(old(self).dst, old(self).src_port)
                        &&& result->Transmit_0@.wf()
                    } else {
                        &&& final(tx)@ == old(tx)@.opened(key)
                        &&& result == Reading::Refuse(CacheError::Full)
                    }
                },
                StreamRead::TimedOut => {
                    &&& *final(self) == *old(self)
                    &&& final(tx)@ == old(tx)@
                    &&& result == Reading::Wait(TIMEDOUT_WAIT)
                },
                StreamRead::Failed => {
                    &&& *final(self) == (StreamWorker { is_closed: true, ..*old(self) })
                    &&& final(tx)@ == old(tx)@
                    &&& result == Reading::Stop
                },
            },
    {
        match read {
            StreamRead::Bytes(payload) => {
                if self.is_closed {
                    return Reading::Stop;
                }
                if payload.len() == 0 {
                    self.is_closed = true;
                    return Reading::Stop;
                }

                // Send
                match tx.append_to_cache(self.dst, self.src_port, payload.as_slice()) {
                    Ok(transmission) => Reading::Transmit(transmission),
                    Err(e) => Reading::Refuse(e),
                }
            },
            StreamRead::TimedOut => Reading::Wait(TIMEDOUT_WAIT),
            StreamRead::Failed => {
                self.is_closed = true;
                Reading::Stop
            },
        }
    }
}

/// Represents a worker of a SOCKS5 UDP client.
#[derive(Clone, Copy, Debug, PartialEq, Eq, Structural)]
pub struct DatagramWorker {
    pub src_port: u16,
    pub local_port: u16,
    pub is_closed: bool,
}

impl DatagramWorker {
    /// Creates a new `DatagramWorker`.
    pub fn bind(src_port: u16, local_port: u16) -> (result: DatagramWorker)
        ensures
            result == (DatagramWorker { src_port, local_port, is_closed: false }),
    {
        DatagramWorker { src_port, local_port, is_closed: false }
    }

    /// Sets the source port of the `DatagramWorker`.
    pub fn set_src_port(&mut self, src_port: u16)
        ensures
            *final(self) == (DatagramWorker { src_port, ..*old(self) }),
    {
        self.src_port = src_port;
    }

    /// Get the source port of the `DatagramWorker`.
    pub fn get_src_port(&self) -> (result: u16)
        ensures
            result == self.src_port,
    {
        self.src_port
    }

    /// Returns if the worker is closed.
    pub fn is_closed(&self) -> (result: bool)
        ensures
            result == self.is_closed,
    {
        self.is_closed
    }

    /// Carries on after a read: a datagram is sent to the port of the source that the worker
    /// serves, a failure closes the worker, and a closed worker drops what it reads.
    pub fn receive(&mut self, tx: &Downstreamer, read: DatagramRead) -> (result: Reading)
        ensures
            match read {
                DatagramRead::Datagram { addr, payload } => {
                    &&& *final(self) == *old(self)
                    &&& old(self).is_closed ==> result == Reading::Stop
                    &&& !old(self).is_closed ==> {
                        &&& result is Transmit
                        &&& result->Transmit_0@ == (Outgoing::Datagram {
                            dst: addr,
                            src_port: old(self).src_port,
                            payload: payload@,
                            offset: 0,
                        })
                        &&& result->Transmit_0@.wf()
                    }
                },
                DatagramRead::TimedOut => {
                    &&& *final(self) == *old(self)
                    &&& result == Reading::Wait(TIMEDOUT_WAIT)
                },
                DatagramRead::Failed => {
                    &&& *final(self) == (DatagramWorker { is_closed: true, ..*old(self) })
                    &&& result == Reading::Stop
                },
            },
    {
        match read {
            DatagramRead::Datagram { addr, payload } => {
                if self.is_closed {
                    return Reading::Stop;
                }

                // Send
                Reading::Transmit(tx.send_udp(addr, self.src_port, payload.as_slice()))
            },
            DatagramRead::TimedOut => Reading::Wait(TIMEDOUT_WAIT),
            DatagramRead::Failed => {
                self.is_closed = true;
                Reading::Stop
            },
        }
    }
}

/// A stream worker is open at first and serves the connection it was made for, and stays closed
/// once it was closed.
pub proof fn law_stream_worker_is_closed_once(
    src_port: u16,
    dst: SocketAddrV4,
    fresh: StreamWorker,
    worker: &mut StreamWorker,
    asked: &StreamWorker,
    is_closed: bool,
)
    requires
        call_ensures(StreamWorker::connect, (src_port, dst), fresh),
        call_ensures(StreamWorker::close, (worker,), ()),
        call_ensures(StreamWorker::is_closed, (asked,), is_closed),
    ensures
        fresh.src_port == src_port && fresh.dst == dst && !fresh.is_closed,
        final(worker).is_closed,
        final(worker).src_port == old(worker).src_port,
        final(worker).dst == old(worker).dst,
        is_closed == asked.is_closed,
{
}

/// An open stream worker queues what it reads for its connection, and is closed by the end of the
/// stream and by a failure. A closed one queues nothing and never opens. After a timeout reading
/// goes on in 20 milliseconds.
pub proof fn law_stream_worker_queues_bytes(
    worker: &mut StreamWorker,
    tx: &mut Downstreamer,
    read: StreamRead,
    result: Reading,
)
    requires
        call_ensures(StreamWorker::receive, (worker, tx, read), result),
    ensures
        final(worker).src_port == old(worker).src_port,
        final(worker).dst == old(worker).dst,
        old(worker).is_closed ==> final(worker).is_closed && final(tx)@ == old(tx)@,
        match read {
            StreamRead::Bytes(payload) => {
                let key = flow(old(worker).src_port, old(worker).dst);
                let queued = old(tx)@.queued(key, payload@);
                &&& final(worker).is_closed == (old(worker).is_closed || payload@.len() == 0)
                &&& final(worker).is_closed ==> result == Reading::Stop && final(tx)@ == old(tx)@
                &&& !final(worker).is_closed && old(tx)@.has_room_for(key, payload@) ==> {
                    &&& final(tx)@ == queued.flushed(key)
                    &&& result matches Reading::Transmit(job) && job@ == queued.flush(
                        old(worker).dst,
                        old(worker).src_port,
                    )
                }
                &&& !final(worker).is_closed && !old(tx)@.has_room_for(key, payload@) ==> {
                    &&& final(tx)@ == old(tx)@.opened(key)
                    &&& result == Reading::Refuse(CacheError::Full)
                }
            },
            StreamRead::TimedOut => {
                &&& final(worker).is_closed == old(worker).is_closed
                &&& final(tx)@ == old(tx)@
                &&& result == Reading::Wait(20)
            },
            StreamRead::Failed => {
                &&& final(worker).is_closed
                &&& final(tx)@ == old(tx)@
                &&& result == Reading::Stop
            },
        },
{
}

/// A datagram worker is open at first and serves the port that it was last told.
pub proof fn law_datagram_worker_serves_its_port(
    src_port: u16,
    local_port: u16,
    fresh: DatagramWorker,
    worker: &mut DatagramWorker,
    asked: &DatagramWorker,
    told: u16,
    is_closed: bool,
)
    requires
        call_ensures(DatagramWorker::bind, (src_port, local_port), fresh),
        call_ensures(DatagramWorker::set_src_port, (worker, src_port), ()),
        call_ensures(DatagramWorker::get_src_port, (asked,), told),
        call_ensures(DatagramWorker::is_closed, (asked,), is_closed),
    ensures
        fresh.src_port == src_port && fresh.local_port == local_port && !fresh.is_closed,
        final(worker).src_port == src_port,
        final(worker).local_port == old(worker).local_port,
        final(worker).is_closed == old(worker).is_closed,
        told == asked.src_port,
        is_closed == asked.is_closed,
{
}

/// An open datagram worker sends what it reads, empty datagrams too, from where it came to the port
/// of the source that it serves, and is closed by a failure alone. A closed one sends nothing.
/// After a timeout reading goes on in 20 milliseconds.
pub proof fn law_datagram_worker_sends_datagrams(
    worker: &mut DatagramWorker,
    tx: &Downstreamer,
    read: DatagramRead,
    result: Reading,
)
    requires
        call_ensures(DatagramWorker::receive, (worker, tx, read), result),
    ensures
        final(worker).src_port == old(worker).src_port,
        final(worker).local_port == old(worker).local_port,
        final(worker).is_closed <==> old(worker).is_closed || read is Failed,
        match read {
            DatagramRead::Datagram { addr, payload } => if old(worker).is_closed {
                result == Reading::Stop
            } else {
                result matches Reading::Transmit(job) && job@ == (Outgoing::Datagram {
                    dst: addr,
                    src_port: old(worker).src_port,
                    payload: payload@,
                    offset: 0,
                })
            },
            DatagramRead::TimedOut => result == Reading::Wait(20),
            DatagramRead::Failed => result == Reading::Stop,
        },
{
}

} // verus!
