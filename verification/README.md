# noq_datagram

The datagram side of a QUIC connection, verified with Verus: the queues that application datagrams
pass through, the control messages that accompany a UDP datagram to and from the kernel, and the
benchmarks that measure it all.

- `src/datagrams.rs`: the queues of received and outgoing datagrams, and the interface of a
  connection to them
- `src/frame.rs`: DATAGRAM frames and the packet they are written into
- `src/payload.rs`: reference-counted buffers, as the `bytes` crate provides them
- `src/words.rs`: integers as bytes
- `src/cmsg/`: control messages, in general, on Unix systems and on Windows
- `src/bench/`: what the benchmarks are configured with, send, count and report
- `app/`: the datagram benchmark: command line, endpoints, printing

Every function in `src/` carries a contract. Proof functions named `law_*` state what holds of the
library as a whole. Items marked `external_body` and `assume_specification` are believed, not proved;
each names the outside function it stands for.
