//! Unreliable datagrams: the send and receive queues of a connection, the control messages a
//! UDP socket exchanges with the kernel, and the accounting of the datagram benchmark.

pub mod bench;
pub mod cmsg;
pub mod datagrams;
pub mod frame;
pub mod payload;
pub mod words;
