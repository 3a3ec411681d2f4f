# pcap2socks

The protocol core of a proxy that takes the traffic of another host from a packet capture interface
and forwards it to a SOCKS5 server, written in Rust and verified with Verus.

The core neither sends nor receives, starts no threads and reads no clock: it is told what was
received, and says what is to be sent.

## Layout

- `src/lib.rs`: the choice of a network interface.
- `src/addr.rs`, `src/packet.rs`: addresses and the layers of frames.
- `src/sequence.rs`: arithmetic on TCP sequence numbers.
- `src/cacher.rs`: caches of TCP payload.
- `src/transmission.rs`, `src/downstream.rs`: traffic to the source, with segmentation of streams and
  fragmentation of datagrams.
- `src/step.rs`, `src/upstream.rs`: traffic from the source to the proxy.
- `src/worker.rs`: traffic from the proxy to the source.
- `src/logging.rs`: how messages are logged.
- `src/downstream_laws.rs`, `src/upstream_laws.rs`: what holds of the whole.
- `app/`: sockets, threads and the logger around the core. The capture interface, the reassembly of
  fragments and the SOCKS client are supplied through the traits of `app/link.rs`.
- `tests/`: tests of the core.
