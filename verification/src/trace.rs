//! The timing record of one request: a stamp for each lifecycle event,
//! taken from what the transport and the TLS layer log, and the durations
//! of the phases between them.

use crate::text::{contains, has_infix, remove_all, same_text, starts_with, without_all};
use vstd::prelude::*;

verus! {

/// The lifecycle events of one request, in the order in which a request
/// normally passes them.
#[derive(Clone, Copy, Debug, PartialEq, Eq, Structural)]
pub enum TracePhase {
    /// The request was taken from the connection pool's queue.
    Start,
    GetConn,
    DnsStart,
    DnsDone,
    TcpStart,
    TcpDone,
    TlsStart,
    TlsDone,
    HttpStart,
    /// The request bytes were handed to the socket.
    Written,
    GotFirstResponseByte,
    Done,
}

/// What the transport reports about a connection, told apart by the
/// component that reports and by how its message begins.
#[derive(Clone, Copy, Debug, PartialEq, Eq, Structural)]
pub enum TransportSignal {
    PoolCheckout,
    ConnectBegin,
    Connecting,
    Connected,
    Resolving,
    ClientHandshake,
    HandshakeComplete,
    Received,
    Flushed,
}

/// What the TLS layer reports while a secure connection is set up.
#[derive(Clone, Copy, Debug, PartialEq, Eq, Structural)]
pub enum TlsSignal {
    ClientHello,
    ServerCert,
    CipherSuite,
}

/// The mathematical content of a trace: one millisecond timestamp per
/// lifecycle event, zero where the event was not observed.
pub struct TraceModel {
    pub is_tls: bool,
    pub cipher: Seq<char>,
    pub start: u64,
    pub get_conn: u64,
    pub dns_start: u64,
    pub dns_done: u64,
    pub tcp_start: u64,
    pub tcp_done: u64,
    pub tls_start: u64,
    pub tls_done: u64,
    pub http_start: u64,
    pub written: u64,
    pub got_first_response_byte: u64,
    pub done: u64,
}

/// The time between two stamps, in milliseconds: zero unless both were
/// taken, else their difference, reduced to 32 bits.
pub open spec fn elapsed(from: u64, to: u64) -> u32 {
    if from == 0 || to == 0 {
        0u32
    } else {
        ((to - from) % 0x1_0000_0000) as u32
    }
}

impl TraceModel {
    pub open spec fn blank() -> TraceModel {
        TraceModel {
            is_tls: false,
            cipher: Seq::empty(),
            start: 0,
            get_conn: 0,
            dns_start: 0,
            dns_done: 0,
            tcp_start: 0,
            tcp_done: 0,
            tls_start: 0,
            tls_done: 0,
            http_start: 0,
            written: 0,
            got_first_response_byte: 0,
            done: 0,
        }
    }

    /// The timestamp kept for `phase`.
    pub open spec fn at(self, phase: TracePhase) -> u64 {
        match phase {
            TracePhase::Start => self.start,
            TracePhase::GetConn => self.get_conn,
            TracePhase::DnsStart => self.dns_start,
            TracePhase::DnsDone => self.dns_done,
            TracePhase::TcpStart => self.tcp_start,
            TracePhase::TcpDone => self.tcp_done,
            TracePhase::TlsStart => self.tls_start,
            TracePhase::TlsDone => self.tls_done,
            TracePhase::HttpStart => self.http_start,
            TracePhase::Written => self.written,
            TracePhase::GotFirstResponseByte => self.got_first_response_byte,
            TracePhase::Done => self.done,
        }
    }

    /// The trace with `phase` stamped at `at` and everything else kept.
    pub open spec fn stamped(self, phase: TracePhase, at: u64) -> TraceModel {
        match phase {
            TracePhase::Start => TraceModel { start: at, ..self },
            TracePhase::GetConn => TraceModel { get_conn: at, ..self },
            TracePhase::DnsStart => TraceModel { dns_start: at, ..self },
            TracePhase::DnsDone => TraceModel { dns_done: at, ..self },
            TracePhase::TcpStart => TraceModel { tcp_start: at, ..self },
            TracePhase::TcpDone => TraceModel { tcp_done: at, ..self },
            TracePhase::TlsStart => TraceModel { tls_start: at, ..self },
            TracePhase::TlsDone => TraceModel { tls_done: at, ..self },
            TracePhase::HttpStart => TraceModel { http_start: at, ..self },
            TracePhase::Written => TraceModel { written: at, ..self },
            TracePhase::GotFirstResponseByte => TraceModel { got_first_response_byte: at, ..self },
            TracePhase::Done => TraceModel { done: at, ..self },
        }
    }

    pub open spec fn with_cipher(self, cipher: Seq<char>) -> TraceModel {
        TraceModel { cipher, ..self }
    }

    pub open spec fn with_tls(self) -> TraceModel {
        TraceModel { is_tls: true, ..self }
    }

    /// The trace after the TLS layer said `message` at time `at`.
    pub open spec fn after_tls_signal(self, message: Seq<char>, at: u64) -> TraceModel {
        match tls_signal(message) {
            Some(TlsSignal::ClientHello) => self.stamped(TracePhase::TlsStart, at),
            Some(TlsSignal::ServerCert) => self.stamped(TracePhase::TlsDone, at),
            Some(TlsSignal::CipherSuite) => self.with_cipher(cipher_name(message)),
            None => self,
        }
    }

    /// The trace after the transport gave `signal` at time `at`. The first
    /// response byte is stamped once; every other stamp is taken anew.
    pub open spec fn after_transport_signal(self, signal: TransportSignal, at: u64) -> TraceModel {
        match signal {
            TransportSignal::PoolCheckout => self.stamped(TracePhase::Start, at),
            TransportSignal::ConnectBegin => self.stamped(TracePhase::GetConn, at),
            TransportSignal::Connecting => self.stamped(TracePhase::DnsDone, at).stamped(
                TracePhase::TcpStart,
                at,
            ),
            TransportSignal::Connected => self.stamped(TracePhase::TcpDone, at),
            TransportSignal::Resolving => self.stamped(TracePhase::DnsStart, at),
            TransportSignal::ClientHandshake => self.stamped(TracePhase::HttpStart, at),
            TransportSignal::HandshakeComplete => self.stamped(TracePhase::Written, at),
            TransportSignal::Received => if self.got_first_response_byte == 0 {
                self.stamped(TracePhase::GotFirstResponseByte, at)
            } else {
                self
            },
            TransportSignal::Flushed => self.stamped(TracePhase::Written, at),
        }
    }

    /// The trace after an event of component `target` with text `message`,
    /// observed at time `at`. Events of other components count only while a
    /// secure connection is traced, and an event without text never counts.
    pub open spec fn after_event(
        self,
        target: Seq<char>,
        message: Option<Seq<char>>,
        at: u64,
    ) -> TraceModel {
        if !"hyper::"@.is_prefix_of(target) && !self.is_tls {
            self
        } else {
            match message {
                None => self,
                Some(m) => {
                    let secured = if self.is_tls {
                        self.after_tls_signal(m, at)
                    } else {
                        self
                    };
                    match transport_signal(target, m) {
                        Some(signal) => secured.after_transport_signal(signal, at),
                        None => secured,
                    }
                },
            }
        }
    }
}

/// The TLS signal that a message stands for, if any.
pub open spec fn tls_signal(message: Seq<char>) -> Option<TlsSignal> {
    if "Sending ClientHello Message"@.is_prefix_of(message) {
        Some(TlsSignal::ClientHello)
    } else if "Server cert is"@.is_prefix_of(message) {
        Some(TlsSignal::ServerCert)
    } else if "Using ciphersuite "@.is_prefix_of(message) {
        Some(TlsSignal::CipherSuite)
    } else {
        None
    }
}

/// The cipher suite that a cipher-suite message names.
pub open spec fn cipher_name(message: Seq<char>) -> Seq<char> {
    without_all(message, "Using ciphersuite "@)
}

/// The transport signal that a component's message stands for, if any.
pub open spec fn transport_signal(target: Seq<char>, message: Seq<char>) -> Option<
    TransportSignal,
> {
    if target == "hyper::client::pool"@ {
        if has_infix(message, "checkout waiting for idle connection"@) {
            Some(TransportSignal::PoolCheckout)
        } else {
            None
        }
    } else if target == "hyper::client::connect::http"@ {
        if "Http::connect;"@.is_prefix_of(message) {
            Some(TransportSignal::ConnectBegin)
        } else if "connecting to"@.is_prefix_of(message) {
            Some(TransportSignal::Connecting)
        } else if "connected to"@.is_prefix_of(message) {
            Some(TransportSignal::Connected)
        } else {
            None
        }
    } else if target == "hyper::client::connect::dns"@ {
        if "resolving host"@.is_prefix_of(message) {
            Some(TransportSignal::Resolving)
        } else {
            None
        }
    } else if target == "hyper::client::conn"@ {
        if "client handshake"@.is_prefix_of(message) {
            Some(TransportSignal::ClientHandshake)
        } else {
            None
        }
    } else if target == "hyper::client::client"@ {
        if "handshake complete"@.is_prefix_of(message) {
            Some(TransportSignal::HandshakeComplete)
        } else {
            None
        }
    } else if target == "hyper::proto::h1::io"@ {
        if "received "@.is_prefix_of(message) {
            Some(TransportSignal::Received)
        } else if "flushed "@.is_prefix_of(message) {
            Some(TransportSignal::Flushed)
        } else {
            None
        }
    } else {
        None
    }
}

/// The text of an event's message, if it has one.
pub open spec fn text_of(message: Option<&str>) -> Option<Seq<char>> {
    match message {
        Some(m) => Some(m@),
        None => None,
    }
}

/// Reads a TLS message.
pub fn classify_tls(message: &str) -> (r: Option<TlsSignal>)
    ensures
        r == tls_signal(message@),
{
    if starts_with(message, "Sending ClientHello Message") {
        Some(TlsSignal::ClientHello)
    } else if starts_with(message, "Server cert is") {
        Some(TlsSignal::ServerCert)
    } else if starts_with(message, "Using ciphersuite ") {
        Some(TlsSignal::CipherSuite)
    } else {
        None
    }
}

/// Reads a transport message of component `target`.
pub fn classify_transport(target: &str, message: &str) -> (r: Option<TransportSignal>)
    ensures
        r == transport_signal(target@, message@),
{
    if same_text(target, "hyper::client::pool") {
        if contains(message, "checkout waiting for idle connection") {
            Some(TransportSignal::PoolCheckout)
        } else {
            None
        }
    } else if same_text(target, "hyper::client::connect::http") {
        if starts_with(message, "Http::connect;") {
            Some(TransportSignal::ConnectBegin)
        } else if starts_with(message, "connecting to") {
            Some(TransportSignal::Connecting)
        } else if starts_with(message, "connected to") {
            Some(TransportSignal::Connected)
        } else {
            None
        }
    } else if same_text(target, "hyper::client::connect::dns") {
        if starts_with(message, "resolving host") {
            Some(TransportSignal::Resolving)
        } else {
            None
        }
    } else if same_text(target, "hyper::client::conn") {
        if starts_with(message, "client handshake") {
            Some(TransportSignal::ClientHandshake)
        } else {
            None
        }
    } else if same_text(target, "hyper::client::client") {
        if starts_with(message, "handshake complete") {
            Some(TransportSignal::HandshakeComplete)
        } else {
            None
        }
    } else if same_text(target, "hyper::proto::h1::io") {
        if starts_with(message, "received ") {
            Some(TransportSignal::Received)
        } else if starts_with(message, "flushed ") {
            Some(TransportSignal::Flushed)
        } else {
            None
        }
    } else {
        None
    }
}

/// The timing record of one request.
#[derive(Debug)]
pub struct HTTPTrace {
    is_tls_value: bool,
    cipher_value: String,
    start_value: u64,
    get_conn_value: u64,
    dns_start_value: u64,
    dns_done_value: u64,
    tcp_start_value: u64,
    tcp_done_value: u64,
    tls_start_value: u64,
    tls_done_value: u64,
    http_start_value: u64,
    written_value: u64,
    got_first_response_byte_value: u64,
    done_value: u64,
}

impl View for HTTPTrace {
    type V = TraceModel;

    closed spec fn view(&self) -> TraceModel {
        TraceModel {
            is_tls: self.is_tls_value,
            cipher: self.cipher_value@,
            start: self.start_value,
            get_conn: self.get_conn_value,
            dns_start: self.dns_start_value,
            dns_done: self.dns_done_value,
            tcp_start: self.tcp_start_value,
            tcp_done: self.tcp_done_value,
            tls_start: self.tls_start_value,
            tls_done: self.tls_done_value,
            http_start: self.http_start_value,
            written: self.written_value,
            got_first_response_byte: self.got_first_response_byte_value,
            done: self.done_value,
        }
    }
}

/// The wall clock in milliseconds since the Unix epoch: the system time,
/// turned into a `chrono::DateTime<Utc>` (its `From<SystemTime>`) and read
/// with `DateTime::timestamp_millis`. Nothing is claimed of the value: two
/// readings may be equal or go backwards. Unlike `Utc::now`, the
/// conversion takes a clock that stands before 1970, which then reads as
/// a very large number.
#[verifier::external_body]
fn clock_millis() -> u64 {
    chrono::DateTime::<chrono::Utc>::from(std::time::SystemTime::now()).timestamp_millis() as u64
}

/// The difference of two stamps as the stats report it.
fn span(from: u64, to: u64) -> (d: u32)
    ensures
        d == elapsed(from, to),
{
    if from == 0 || to == 0 {
        return 0;
    }
    let wide: u64 = to.wrapping_sub(from);
    let d: u32 = (wide & 0xffff_ffff) as u32;
    proof {
        lemma_low_bits(from, to, wide);
    }
    d
}

proof fn lemma_low_bits(from: u64, to: u64, wide: u64)
    requires
        wide as int == (if to >= from {
            to - from
        } else {
            to - from + 0x1_0000_0000_0000_0000
        }),
    ensures
        (wide & 0xffff_ffff) as int == (to - from) % 0x1_0000_0000,
        (wide & 0xffff_ffff) <= 0xffff_ffff,
{
    assert((wide & 0xffff_ffff) == wide % 0x1_0000_0000) by (bit_vector);
    assert((wide & 0xffff_ffff) <= 0xffff_ffff) by (bit_vector);
    let d = to - from;
    if to < from {
        assert((d + 0x1_0000_0000_0000_0000) % 0x1_0000_0000 == d % 0x1_0000_0000) by {
            vstd::arithmetic::div_mod::lemma_mod_multiples_vanish(
                0x1_0000_0000,
                d,
                0x1_0000_0000,
            );
        }
    }
}

impl HTTPTrace {
    /// A trace on which nothing was observed.
    pub fn new() -> (t: HTTPTrace)
        ensures
            t@ == TraceModel::blank(),
    {
        HTTPTrace {
            is_tls_value: false,
            cipher_value: String::new(),
            start_value: 0,
            get_conn_value: 0,
            dns_start_value: 0,
            dns_done_value: 0,
            tcp_start_value: 0,
            tcp_done_value: 0,
            tls_start_value: 0,
            tls_done_value: 0,
            http_start_value: 0,
            written_value: 0,
            got_first_response_byte_value: 0,
            done_value: 0,
        }
    }

    /// Forgets everything observed, ready for the next request.
    pub fn reset(&mut self)
        ensures
            final(self)@ == TraceModel::blank(),
    {
        self.set_cipher(String::new());
        self.is_tls_value = false;
        self.start_value = 0;
        self.get_conn_value = 0;
        self.dns_start_value = 0;
        self.dns_done_value = 0;
        self.tcp_start_value = 0;
        self.tcp_done_value = 0;
        self.tls_start_value = 0;
        self.tls_done_value = 0;
        self.http_start_value = 0;
        self.written_value = 0;
        self.got_first_response_byte_value = 0;
        self.done_value = 0;
    }

    /// The current time as the stamps record it.
    pub fn now(&self) -> u64 {
        clock_millis()
    }

    pub fn set_cipher(&mut self, value: String)
        ensures
            final(self)@ == old(self)@.with_cipher(value@),
    {
        self.cipher_value = value;
    }

    pub fn get_cipher(&self) -> (cipher: String)
        ensures
            cipher@ == self@.cipher,
    {
        self.cipher_value.clone()
    }

    pub fn is_tls(&self) -> (b: bool)
        ensures
            b == self@.is_tls,
    {
        self.is_tls_value
    }

    /// Marks the request as one over a secure connection.
    pub fn tls(&mut self)
        ensures
            final(self)@ == old(self)@.with_tls(),
    {
        self.is_tls_value = true;
    }

    /// The timestamp kept for `phase`, zero if it was not observed.
    pub fn timestamp(&self, phase: TracePhase) -> (at: u64)
        ensures
            at == self@.at(phase),
    {
        match phase {
            TracePhase::Start => self.start_value,
            TracePhase::GetConn => self.get_conn_value,
            TracePhase::DnsStart => self.dns_start_value,
            TracePhase::DnsDone => self.dns_done_value,
            TracePhase::TcpStart => self.tcp_start_value,
            TracePhase::TcpDone => self.tcp_done_value,
            TracePhase::TlsStart => self.tls_start_value,
            TracePhase::TlsDone => self.tls_done_value,
            TracePhase::HttpStart => self.http_start_value,
            TracePhase::Written => self.written_value,
            TracePhase::GotFirstResponseByte => self.got_first_response_byte_value,
            TracePhase::Done => self.done_value,
        }
    }

    /// Stamps `phase` at time `at`.
    pub fn stamp(&mut self, phase: TracePhase, at: u64)
        ensures
            final(self)@ == old(self)@.stamped(phase, at),
    {
        match phase {
            TracePhase::Start => {
                self.start_value = at;
            },
            TracePhase::GetConn => {
                self.get_conn_value = at;
            },
            TracePhase::DnsStart => {
                self.dns_start_value = at;
            },
            TracePhase::DnsDone => {
                self.dns_done_value = at;
            },
            TracePhase::TcpStart => {
                self.tcp_start_value = at;
            },
            TracePhase::TcpDone => {
                self.tcp_done_value = at;
            },
            TracePhase::TlsStart => {
                self.tls_start_value = at;
            },
            TracePhase::TlsDone => {
                self.tls_done_value = at;
            },
            TracePhase::HttpStart => {
                self.http_start_value = at;
            },
            TracePhase::Written => {
                self.written_value = at;
            },
            TracePhase::GotFirstResponseByte => {
                self.got_first_response_byte_value = at;
            },
            TracePhase::Done => {
                self.done_value = at;
            },
        }
    }

    /// Stamps `phase` at the current time.
    pub fn stamp_now(&mut self, phase: TracePhase)
        ensures
            exists|at: u64| final(self)@ == old(self)@.stamped(phase, at),
    {
        let at: u64 = self.now();
        self.stamp(phase, at);
    }

    pub fn get_conn_from_pool(&mut self)
        ensures
            exists|at: u64| final(self)@ == old(self)@.stamped(TracePhase::Start, at),
    {
        self.stamp_now(TracePhase::Start)
    }

    pub fn get_conn(&mut self)
        ensures
            exists|at: u64| final(self)@ == old(self)@.stamped(TracePhase::GetConn, at),
    {
        self.stamp_now(TracePhase::GetConn)
    }

    pub fn dns_start(&mut self)
        ensures
            exists|at: u64| final(self)@ == old(self)@.stamped(TracePhase::DnsStart, at),
    {
        self.stamp_now(TracePhase::DnsStart)
    }

    pub fn dns_done(&mut self)
        ensures
            exists|at: u64| final(self)@ == old(self)@.stamped(TracePhase::DnsDone, at),
    {
        self.stamp_now(TracePhase::DnsDone)
    }

    pub fn tcp_start(&mut self)
        ensures
            exists|at: u64| final(self)@ == old(self)@.stamped(TracePhase::TcpStart, at),
    {
        self.stamp_now(TracePhase::TcpStart)
    }

    pub fn tcp_done(&mut self)
        ensures
            exists|at: u64| final(self)@ == old(self)@.stamped(TracePhase::TcpDone, at),
    {
        self.stamp_now(TracePhase::TcpDone)
    }

    pub fn tls_start(&mut self)
        ensures
            exists|at: u64| final(self)@ == old(self)@.stamped(TracePhase::TlsStart, at),
    {
        self.stamp_now(TracePhase::TlsStart)
    }

    pub fn tls_done(&mut self)
        ensures
            exists|at: u64| final(self)@ == old(self)@.stamped(TracePhase::TlsDone, at),
    {
        self.stamp_now(TracePhase::TlsDone)
    }

    pub fn http_start(&mut self)
        ensures
            exists|at: u64| final(self)@ == old(self)@.stamped(TracePhase::HttpStart, at),
    {
        self.stamp_now(TracePhase::HttpStart)
    }

    pub fn got_first_response_byte(&mut self)
        ensures
            exists|at: u64|
                final(self)@ == old(self)@.stamped(TracePhase::GotFirstResponseByte, at),
    {
        self.stamp_now(TracePhase::GotFirstResponseByte)
    }

    pub fn written(&mut self)
        ensures
            exists|at: u64| final(self)@ == old(self)@.stamped(TracePhase::Written, at),
    {
        self.stamp_now(TracePhase::Written)
    }

    pub fn done(&mut self)
        ensures
            exists|at: u64| final(self)@ == old(self)@.stamped(TracePhase::Done, at),
    {
        self.stamp_now(TracePhase::Done)
    }

    /// Milliseconds from the start of the HTTP exchange until the request was written.
    pub fn send_consuming(&self) -> (d: u32)
        ensures
            d == elapsed(self@.http_start, self@.written),
    {
        span(self.http_start_value, self.written_value)
    }

    /// Milliseconds spent resolving the host name.
    pub fn dns_consuming(&self) -> (d: u32)
        ensures
            d == elapsed(self@.dns_start, self@.dns_done),
    {
        span(self.dns_start_value, self.dns_done_value)
    }

    /// Milliseconds spent opening the TCP connection.
    pub fn tcp_consuming(&self) -> (d: u32)
        ensures
            d == elapsed(self@.tcp_start, self@.tcp_done),
    {
        span(self.tcp_start_value, self.tcp_done_value)
    }

    /// Milliseconds spent on the TLS handshake.
    pub fn tls_consuming(&self) -> (d: u32)
        ensures
            d == elapsed(self@.tls_start, self@.tls_done),
    {
        span(self.tls_start_value, self.tls_done_value)
    }

    /// Milliseconds between the request being written and the first response byte.
    pub fn server_processing_consuming(&self) -> (d: u32)
        ensures
            d == elapsed(self@.written, self@.got_first_response_byte),
    {
        span(self.written_value, self.got_first_response_byte_value)
    }

    /// Milliseconds between the first response byte and the end of the body.
    pub fn content_transfer_consuming(&self) -> (d: u32)
        ensures
            d == elapsed(self@.got_first_response_byte, self@.done),
    {
        span(self.got_first_response_byte_value, self.done_value)
    }

    /// Milliseconds of the whole request.
    pub fn consuming(&self) -> (d: u32)
        ensures
            d == elapsed(self@.start, self@.done),
    {
        span(self.start_value, self.done_value)
    }

    /// Takes in what the TLS layer said at time `at`.
    pub fn record_tls_signal(&mut self, message: &str, at: u64)
        ensures
            final(self)@ == old(self)@.after_tls_signal(message@, at),
    {
        match classify_tls(message) {
            Some(TlsSignal::ClientHello) => self.stamp(TracePhase::TlsStart, at),
            Some(TlsSignal::ServerCert) => self.stamp(TracePhase::TlsDone, at),
            Some(TlsSignal::CipherSuite) => {
                let cipher = remove_all(message, "Using ciphersuite ");
                self.set_cipher(cipher);
            },
            None => {},
        }
    }

    /// Takes in a transport signal given at time `at`.
    pub fn record_transport_signal(&mut self, signal: TransportSignal, at: u64)
        ensures
            final(self)@ == old(self)@.after_transport_signal(signal, at),
    {
        match signal {
            TransportSignal::PoolCheckout => self.stamp(TracePhase::Start, at),
            TransportSignal::ConnectBegin => self.stamp(TracePhase::GetConn, at),
            TransportSignal::Connecting => {
                self.stamp(TracePhase::DnsDone, at);
                self.stamp(TracePhase::TcpStart, at);
            },
            TransportSignal::Connected => self.stamp(TracePhase::TcpDone, at),
            TransportSignal::Resolving => self.stamp(TracePhase::DnsStart, at),
            TransportSignal::ClientHandshake => self.stamp(TracePhase::HttpStart, at),
            TransportSignal::HandshakeComplete => self.stamp(TracePhase::Written, at),
            TransportSignal::Received => {
                if self.got_first_response_byte_value == 0 {
                    self.stamp(TracePhase::GotFirstResponseByte, at);
                }
            },
            TransportSignal::Flushed => self.stamp(TracePhase::Written, at),
        }
    }

    /// Takes in one event of the transport's log, observed at time `at`.
    pub fn record_event(&mut self, target: &str, message: Option<&str>, at: u64)
        ensures
            final(self)@ == old(self)@.after_event(target@, text_of(message), at),
    {
        if !starts_with(target, "hyper::") && !self.is_tls() {
            return ;
        }
        match message {
            None => {},
            Some(m) => {
                if self.is_tls() {
                    self.record_tls_signal(m, at);
                }
                match classify_transport(target, m) {
                    Some(signal) => self.record_transport_signal(signal, at),
                    None => {},
                }
            },
        }
    }
}

/// The sink of the transport's log events: it feeds each event to the
/// trace of the request in flight.
#[derive(Debug, Clone, Copy)]
pub struct HTTPTraceLayer;

impl HTTPTraceLayer {
    /// Takes in one event at the current time.
    pub fn on_event(&self, trace: &mut HTTPTrace, target: &str, message: Option<&str>)
        ensures
            exists|at: u64|
                final(trace)@ == #[trigger] old(trace)@.after_event(target@, text_of(message), at),
    {
        let at: u64 = trace.now();
        trace.record_event(target, message, at);
    }
}

/// Where either stamp is missing, no time is reported.
pub proof fn lemma_elapsed_zero_when_missing(from: u64, to: u64)
    requires
        from == 0 || to == 0,
    ensures
        elapsed(from, to) == 0,
{
}

/// Where both stamps were taken, the later not before the earlier and
/// fewer than 2^32 milliseconds after it, the time reported is their
/// difference.
pub proof fn lemma_elapsed_is_difference(from: u64, to: u64)
    requires
        from != 0,
        to != 0,
        from <= to,
        to - from < 0x1_0000_0000,
    ensures
        elapsed(from, to) == to - from,
{
}

/// An event that stands for no signal leaves the trace as it is.
pub proof fn lemma_unknown_event_is_ignored(
    trace: TraceModel,
    target: Seq<char>,
    message: Seq<char>,
    at: u64,
)
    requires
        transport_signal(target, message).is_none(),
        !trace.is_tls || tls_signal(message).is_none(),
    ensures
        trace.after_event(target, Some(message), at) == trace,
{
}

/// An event never changes whether the connection counts as secure, and
/// stamps no time but the one at which it was observed.
pub proof fn lemma_event_stamps_its_time(
    trace: TraceModel,
    target: Seq<char>,
    message: Option<Seq<char>>,
    at: u64,
    phase: TracePhase,
)
    ensures
        trace.after_event(target, message, at).is_tls == trace.is_tls,
        trace.after_event(target, message, at).at(phase) == trace.at(phase) || trace.after_event(
            target,
            message,
            at,
        ).at(phase) == at,
{
}

} // verus!
