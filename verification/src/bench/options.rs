//! What a benchmark run is configured with, and the transport settings that follow from it.

use vstd::prelude::*;

use super::names::{CipherSuite, Congestion, Direction, RuntimeType, SendMode};
use crate::frame::VARINT_BOUND;

verus! {

/// How many packets the peer of a stream benchmark may receive before it must acknowledge.
pub const STREAM_ACK_THRESHOLD: u32 = 10;

/// Options for the stream benchmark.
#[derive(Debug, Clone, Copy)]
pub struct Opt {
    /// The total number of clients which should be created
    pub clients: usize,
    /// The total number of streams which should be created
    pub streams: usize,
    /// The amount of concurrent streams which should be used
    pub max_streams: usize,
    /// Number of bytes to transmit from server to client
    pub download_size: u64,
    /// Number of bytes to transmit from client to server
    pub upload_size: u64,
    /// Show connection stats the at the end of the benchmark
    pub stats: bool,
    /// Whether to use the unordered read API
    pub read_unordered: bool,
    /// Allows to configure the desired cipher suite
    pub cipher: CipherSuite,
    /// Starting guess for maximum UDP payload size
    pub initial_mtu: u16,
    /// The runtime type to use
    pub runtime_type: RuntimeType,
}

/// Options for the datagram benchmark.
#[derive(Debug, Clone, Copy)]
pub struct DatagramOpt {
    /// Number of parallel client connections (each floods independently).
    pub clients: usize,
    /// Direction of the flood.
    pub direction: Direction,
    /// Datagram payload size in bytes. Clamped to the negotiated max datagram size.
    pub packet_size: usize,
    /// Total bytes to send per direction.
    pub total_bytes: u64,
    /// How the sender issues datagrams.
    pub send_mode: SendMode,
    /// How many datagrams are sent or received in one call.
    pub batch_size: usize,
    /// Congestion controller.
    pub congestion: Congestion,
    /// Whether streams share the connection fairly.
    pub send_fairness: bool,
    /// How many bytes of datagrams may wait to be sent.
    pub datagram_send_buffer: usize,
    /// How many bytes of received datagrams are buffered. If unset, the default is kept.
    pub datagram_recv_buffer: Option<usize>,
    /// How many packets the peer may receive before it must acknowledge. If unset, the peer is
    /// not asked.
    pub ack_frequency: Option<u32>,
    /// Starting guess for maximum UDP payload size.
    pub initial_mtu: u16,
    /// Print connection stats at the end.
    pub stats: bool,
    /// Runtime type.
    pub runtime_type: RuntimeType,
    /// Cipher suite.
    pub cipher: CipherSuite,
}

/// What a benchmark changes of the default transport configuration. A setting that is `None` keeps
/// its default.
#[derive(Debug, Clone, Copy)]
pub struct TransportSettings {
    pub initial_mtu: u16,
    pub max_concurrent_uni_streams: Option<u64>,
    pub send_fairness: Option<bool>,
    pub datagram_send_buffer_size: Option<usize>,
    pub datagram_receive_buffer_size: Option<usize>,
    pub enable_segmentation_offload: Option<bool>,
    pub congestion: Option<Congestion>,
    /// The threshold of the ACK frequency extension, which is off by default
    pub ack_eliciting_threshold: Option<u32>,
}

/// Shared by the stream and the datagram options, so the helpers that create endpoints and
/// connections can be used by both benchmarks.
pub trait BenchOpt: Sized {
    /// The cipher suite that was asked for.
    spec fn wanted_cipher(&self) -> CipherSuite;

    /// Whether the options can be put into a transport configuration.
    spec fn is_valid(&self) -> bool;

    /// The settings that the options stand for.
    spec fn settings(&self) -> TransportSettings;

    /// Desired cipher suite for the TLS handshake.
    fn cipher(&self) -> (c: CipherSuite)
        ensures
            c == self.wanted_cipher(),
    ;

    /// Transport settings to use for this benchmark run.
    fn transport_config(&self) -> (t: TransportSettings)
        requires
            self.is_valid(),
        ensures
            t == self.settings(),
    ;
}

/// The settings of a stream benchmark.
///
/// The amount of concurrent streams is a parameter, so everything else about streams is left at
/// its default.
pub open spec fn stream_settings(opt: Opt) -> TransportSettings {
    TransportSettings {
        initial_mtu: opt.initial_mtu,
        max_concurrent_uni_streams: Some(opt.max_streams as u64),
        send_fairness: None,
        datagram_send_buffer_size: None,
        datagram_receive_buffer_size: None,
        enable_segmentation_offload: None,
        congestion: None,
        ack_eliciting_threshold: Some(STREAM_ACK_THRESHOLD),
    }
}

/// The settings of a stream benchmark. The number of concurrent streams has to be one that a
/// variable-length integer can hold.
pub fn transport_config(opt: &Opt) -> (t: TransportSettings)
    requires
        opt.max_streams < VARINT_BOUND,
    ensures
        t == stream_settings(*opt),
{
    TransportSettings {
        initial_mtu: opt.initial_mtu,
        max_concurrent_uni_streams: Some(opt.max_streams as u64),
        send_fairness: None,
        datagram_send_buffer_size: None,
        datagram_receive_buffer_size: None,
        enable_segmentation_offload: None,
        congestion: None,
        ack_eliciting_threshold: Some(STREAM_ACK_THRESHOLD),
    }
}

impl BenchOpt for Opt {
    open spec fn wanted_cipher(&self) -> CipherSuite {
        self.cipher
    }

    open spec fn is_valid(&self) -> bool {
        self.max_streams < VARINT_BOUND
    }

    open spec fn settings(&self) -> TransportSettings {
        stream_settings(*self)
    }

    fn cipher(&self) -> CipherSuite {
        self.cipher
    }

    fn transport_config(&self) -> TransportSettings {
        transport_config(self)
    }
}

impl BenchOpt for DatagramOpt {
    open spec fn wanted_cipher(&self) -> CipherSuite {
        self.cipher
    }

    open spec fn is_valid(&self) -> bool {
        true
    }

    /// The receive buffer is set only where one was asked for: to leave it unset keeps the default,
    /// which enables datagrams.
    open spec fn settings(&self) -> TransportSettings {
        TransportSettings {
            initial_mtu: self.initial_mtu,
            max_concurrent_uni_streams: None,
            send_fairness: Some(self.send_fairness),
            datagram_send_buffer_size: Some(self.datagram_send_buffer),
            datagram_receive_buffer_size: self.datagram_recv_buffer,
            enable_segmentation_offload: Some(true),
            congestion: Some(self.congestion),
            ack_eliciting_threshold: self.ack_frequency,
        }
    }

    fn cipher(&self) -> CipherSuite {
        self.cipher
    }

    fn transport_config(&self) -> TransportSettings {
        TransportSettings {
            initial_mtu: self.initial_mtu,
            max_concurrent_uni_streams: None,
            send_fairness: Some(self.send_fairness),
            datagram_send_buffer_size: Some(self.datagram_send_buffer),
            datagram_receive_buffer_size: self.datagram_recv_buffer,
            enable_segmentation_offload: Some(true),
            congestion: Some(self.congestion),
            ack_eliciting_threshold: self.ack_frequency,
        }
    }
}

/// The settings of a datagram benchmark are those that were asked for, each in its place: nothing
/// that was asked for is lost, and what was not is left at its default.
pub proof fn law_datagram_settings_are_those_asked_for(
    opt: DatagramOpt,
    t: TransportSettings,
    cipher: CipherSuite,
)
    requires
        call_ensures(<DatagramOpt as BenchOpt>::transport_config, (&opt,), t),
        call_ensures(<DatagramOpt as BenchOpt>::cipher, (&opt,), cipher),
    ensures
        t.congestion == Some(opt.congestion),
        t.initial_mtu == opt.initial_mtu,
        t.send_fairness == Some(opt.send_fairness),
        t.datagram_send_buffer_size == Some(opt.datagram_send_buffer),
        t.datagram_receive_buffer_size == opt.datagram_recv_buffer,
        t.ack_eliciting_threshold == opt.ack_frequency,
        t.enable_segmentation_offload == Some(true),
        t.max_concurrent_uni_streams is None,
        cipher == opt.cipher,
        opt.is_valid(),
{
}

/// Options that ask for different things give settings that differ in just those.
pub proof fn law_datagram_settings_tell_options_apart(
    a: DatagramOpt,
    b: DatagramOpt,
    s: TransportSettings,
    t: TransportSettings,
)
    requires
        call_ensures(<DatagramOpt as BenchOpt>::transport_config, (&a,), s),
        call_ensures(<DatagramOpt as BenchOpt>::transport_config, (&b,), t),
    ensures
        s.congestion == t.congestion <==> a.congestion == b.congestion,
        s.initial_mtu == t.initial_mtu <==> a.initial_mtu == b.initial_mtu,
        s.send_fairness == t.send_fairness <==> a.send_fairness == b.send_fairness,
        s.datagram_send_buffer_size == t.datagram_send_buffer_size <==> a.datagram_send_buffer
            == b.datagram_send_buffer,
        s.datagram_receive_buffer_size == t.datagram_receive_buffer_size <==>
            a.datagram_recv_buffer == b.datagram_recv_buffer,
        s.ack_eliciting_threshold == t.ack_eliciting_threshold <==> a.ack_frequency
            == b.ack_frequency,
{
}

/// The settings of a stream benchmark are the number of streams and the MTU that were asked for and
/// an acknowledgement for every ten packets; all else is left at its default.
pub proof fn law_stream_settings_are_those_asked_for(
    opt: Opt,
    t: TransportSettings,
    u: TransportSettings,
    cipher: CipherSuite,
)
    requires
        call_ensures(transport_config, (&opt,), t),
        call_ensures(<Opt as BenchOpt>::transport_config, (&opt,), u),
        call_ensures(<Opt as BenchOpt>::cipher, (&opt,), cipher),
        opt.max_streams <= u64::MAX,
    ensures
        t == u,
        t.max_concurrent_uni_streams is Some,
        t.max_concurrent_uni_streams->0 == opt.max_streams,
        t.initial_mtu == opt.initial_mtu,
        t.ack_eliciting_threshold == Some(10u32),
        t.send_fairness is None,
        t.datagram_send_buffer_size is None,
        t.datagram_receive_buffer_size is None,
        t.enable_segmentation_offload is None,
        t.congestion is None,
        cipher == opt.cipher,
        opt.is_valid() <==> opt.max_streams < 0x4000_0000_0000_0000,
{
}

} // verus!
