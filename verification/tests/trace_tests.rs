use cyberapi::http_request::HTTPStats;
use cyberapi::trace::{
    classify_tls, classify_transport, HTTPTrace, HTTPTraceLayer, TlsSignal, TracePhase,
    TransportSignal,
};

#[test]
fn new_trace_is_blank() {
    let trace = HTTPTrace::new();
    assert!(!trace.is_tls());
    assert_eq!(trace.get_cipher(), "");
    assert_eq!(trace.timestamp(TracePhase::Start), 0);
    assert_eq!(trace.timestamp(TracePhase::Done), 0);
    assert_eq!(trace.consuming(), 0);
}

#[test]
fn dns_lookup_is_the_difference_of_its_stamps() {
    let mut trace = HTTPTrace::new();
    trace.stamp(TracePhase::DnsStart, 1_000);
    trace.stamp(TracePhase::DnsDone, 1_030);
    assert_eq!(trace.dns_consuming(), 30);
    assert_eq!(HTTPStats::from_trace(&trace).dns_lookup, 30);
}

#[test]
fn dns_lookup_is_zero_when_a_stamp_is_missing() {
    let mut trace = HTTPTrace::new();
    trace.stamp(TracePhase::DnsStart, 1_000);
    assert_eq!(trace.dns_consuming(), 0);
    let mut other = HTTPTrace::new();
    other.stamp(TracePhase::DnsDone, 1_000);
    assert_eq!(other.dns_consuming(), 0);
    assert_eq!(HTTPTrace::new().dns_consuming(), 0);
}

#[test]
fn every_phase_has_its_duration() {
    let mut trace = HTTPTrace::new();
    trace.stamp(TracePhase::Start, 100);
    trace.stamp(TracePhase::DnsStart, 110);
    trace.stamp(TracePhase::DnsDone, 125);
    trace.stamp(TracePhase::TcpStart, 125);
    trace.stamp(TracePhase::TcpDone, 160);
    trace.stamp(TracePhase::TlsStart, 161);
    trace.stamp(TracePhase::TlsDone, 201);
    trace.stamp(TracePhase::HttpStart, 202);
    trace.stamp(TracePhase::Written, 204);
    trace.stamp(TracePhase::GotFirstResponseByte, 304);
    trace.stamp(TracePhase::Done, 350);
    assert_eq!(trace.dns_consuming(), 15);
    assert_eq!(trace.tcp_consuming(), 35);
    assert_eq!(trace.tls_consuming(), 40);
    assert_eq!(trace.send_consuming(), 2);
    assert_eq!(trace.server_processing_consuming(), 100);
    assert_eq!(trace.content_transfer_consuming(), 46);
    assert_eq!(trace.consuming(), 250);
}

#[test]
fn a_clock_that_went_back_wraps_the_duration() {
    let mut trace = HTTPTrace::new();
    trace.stamp(TracePhase::DnsStart, 10);
    trace.stamp(TracePhase::DnsDone, 5);
    assert_eq!(trace.dns_consuming(), 4_294_967_291);
}

#[test]
fn a_long_duration_keeps_its_low_32_bits() {
    let mut trace = HTTPTrace::new();
    trace.stamp(TracePhase::Start, 1);
    trace.stamp(TracePhase::Done, 1 + 0x1_0000_0007);
    assert_eq!(trace.consuming(), 7);
}

#[test]
fn stamps_at_the_current_time_are_taken() {
    let mut trace = HTTPTrace::new();
    assert!(trace.now() > 1_600_000_000_000);
    trace.get_conn_from_pool();
    trace.get_conn();
    trace.dns_start();
    trace.dns_done();
    trace.tcp_start();
    trace.tcp_done();
    trace.tls_start();
    trace.tls_done();
    trace.http_start();
    trace.written();
    trace.got_first_response_byte();
    trace.done();
    for phase in [
        TracePhase::Start,
        TracePhase::GetConn,
        TracePhase::DnsStart,
        TracePhase::DnsDone,
        TracePhase::TcpStart,
        TracePhase::TcpDone,
        TracePhase::TlsStart,
        TracePhase::TlsDone,
        TracePhase::HttpStart,
        TracePhase::Written,
        TracePhase::GotFirstResponseByte,
        TracePhase::Done,
    ] {
        assert!(trace.timestamp(phase) > 1_600_000_000_000);
    }
}

#[test]
fn reset_forgets_everything() {
    let mut trace = HTTPTrace::new();
    trace.tls();
    trace.set_cipher("TLS13_AES_128_GCM_SHA256".to_string());
    trace.stamp(TracePhase::Start, 5);
    trace.stamp(TracePhase::Done, 9);
    trace.reset();
    assert!(!trace.is_tls());
    assert_eq!(trace.get_cipher(), "");
    assert_eq!(trace.timestamp(TracePhase::Start), 0);
    assert_eq!(trace.timestamp(TracePhase::Done), 0);
}

#[test]
fn transport_messages_are_told_apart() {
    assert_eq!(
        classify_transport("hyper::client::pool", "checkout waiting for idle connection: (\"http\", example.com)"),
        Some(TransportSignal::PoolCheckout)
    );
    assert_eq!(
        classify_transport("hyper::client::pool", "xx checkout waiting for idle connection"),
        Some(TransportSignal::PoolCheckout)
    );
    assert_eq!(classify_transport("hyper::client::pool", "pooling idle connection"), None);
    assert_eq!(
        classify_transport("hyper::client::connect::http", "Http::connect; scheme=Some(\"http\")"),
        Some(TransportSignal::ConnectBegin)
    );
    assert_eq!(
        classify_transport("hyper::client::connect::http", "connecting to 93.184.216.34:80"),
        Some(TransportSignal::Connecting)
    );
    assert_eq!(
        classify_transport("hyper::client::connect::http", "connected to 93.184.216.34:80"),
        Some(TransportSignal::Connected)
    );
    assert_eq!(
        classify_transport("hyper::client::connect::dns", "resolving host=\"example.com\""),
        Some(TransportSignal::Resolving)
    );
    assert_eq!(
        classify_transport("hyper::client::conn", "client handshake Http1"),
        Some(TransportSignal::ClientHandshake)
    );
    assert_eq!(
        classify_transport("hyper::client::client", "handshake complete, spawning background dispatcher task"),
        Some(TransportSignal::HandshakeComplete)
    );
    assert_eq!(
        classify_transport("hyper::proto::h1::io", "received 512 bytes"),
        Some(TransportSignal::Received)
    );
    assert_eq!(
        classify_transport("hyper::proto::h1::io", "flushed 78 bytes"),
        Some(TransportSignal::Flushed)
    );
    assert_eq!(classify_transport("hyper::proto::h1::io", "parsed 3 headers"), None);
    assert_eq!(classify_transport("hyper::proto::h1::conn", "received 512 bytes"), None);
    assert_eq!(classify_transport("hyper::client::conn", " client handshake"), None);
}

#[test]
fn tls_messages_are_told_apart() {
    assert_eq!(classify_tls("Sending ClientHello Message { .. }"), Some(TlsSignal::ClientHello));
    assert_eq!(classify_tls("Server cert is [..]"), Some(TlsSignal::ServerCert));
    assert_eq!(
        classify_tls("Using ciphersuite TLS13_AES_256_GCM_SHA384"),
        Some(TlsSignal::CipherSuite)
    );
    assert_eq!(classify_tls("Using ciphersuite"), None);
    assert_eq!(classify_tls("Not resuming any session"), None);
}

#[test]
fn events_stamp_their_phases() {
    let mut trace = HTTPTrace::new();
    trace.record_event("hyper::client::pool", Some("checkout waiting for idle connection: x"), 10);
    trace.record_event("hyper::client::connect::http", Some("Http::connect; scheme=Some(\"http\")"), 11);
    trace.record_event("hyper::client::connect::dns", Some("resolving host=\"example.com\""), 12);
    trace.record_event("hyper::client::connect::http", Some("connecting to 93.184.216.34:80"), 20);
    trace.record_event("hyper::client::connect::http", Some("connected to 93.184.216.34:80"), 31);
    trace.record_event("hyper::client::conn", Some("client handshake Http1"), 32);
    trace.record_event("hyper::client::client", Some("handshake complete, spawning"), 33);
    trace.record_event("hyper::proto::h1::io", Some("flushed 78 bytes"), 35);
    trace.record_event("hyper::proto::h1::io", Some("received 512 bytes"), 90);
    assert_eq!(trace.timestamp(TracePhase::Start), 10);
    assert_eq!(trace.timestamp(TracePhase::GetConn), 11);
    assert_eq!(trace.timestamp(TracePhase::DnsStart), 12);
    assert_eq!(trace.timestamp(TracePhase::DnsDone), 20);
    assert_eq!(trace.timestamp(TracePhase::TcpStart), 20);
    assert_eq!(trace.timestamp(TracePhase::TcpDone), 31);
    assert_eq!(trace.timestamp(TracePhase::HttpStart), 32);
    assert_eq!(trace.timestamp(TracePhase::Written), 35);
    assert_eq!(trace.timestamp(TracePhase::GotFirstResponseByte), 90);
    assert_eq!(trace.timestamp(TracePhase::TlsStart), 0);
    assert_eq!(trace.timestamp(TracePhase::Done), 0);
    assert_eq!(trace.dns_consuming(), 8);
    assert_eq!(trace.tcp_consuming(), 11);
    assert_eq!(trace.send_consuming(), 3);
    assert_eq!(trace.server_processing_consuming(), 55);
}

#[test]
fn the_first_response_byte_is_stamped_once() {
    let mut trace = HTTPTrace::new();
    trace.record_event("hyper::proto::h1::io", Some("received 512 bytes"), 90);
    trace.record_event("hyper::proto::h1::io", Some("received 100 bytes"), 95);
    assert_eq!(trace.timestamp(TracePhase::GotFirstResponseByte), 90);
    trace.record_transport_signal(TransportSignal::Flushed, 96);
    trace.record_transport_signal(TransportSignal::Flushed, 99);
    assert_eq!(trace.timestamp(TracePhase::Written), 99);
}

#[test]
fn events_without_text_or_from_elsewhere_are_ignored() {
    let mut trace = HTTPTrace::new();
    trace.record_event("hyper::client::connect::dns", None, 12);
    assert_eq!(trace.timestamp(TracePhase::DnsStart), 0);
    trace.record_event("rustls::client::hs", Some("Sending ClientHello Message"), 13);
    assert_eq!(trace.timestamp(TracePhase::TlsStart), 0);
    trace.record_event("hyper::client::connect::dns", Some("unknown words"), 14);
    assert_eq!(trace.timestamp(TracePhase::DnsStart), 0);
    trace.record_event("hyper::client::pool", Some("Sending ClientHello Message"), 15);
    assert_eq!(trace.timestamp(TracePhase::TlsStart), 0);
}

#[test]
fn tls_events_count_on_a_secure_connection() {
    let mut trace = HTTPTrace::new();
    trace.tls();
    assert!(trace.is_tls());
    trace.record_event("rustls::client::hs", Some("Sending ClientHello Message { .. }"), 40);
    trace.record_event("rustls::client::hs", Some("Using ciphersuite TLS13_AES_256_GCM_SHA384"), 45);
    trace.record_event("rustls::client::tls13", Some("Server cert is [Certificate(..)]"), 70);
    trace.record_event("rustls::client::hs", None, 80);
    assert_eq!(trace.timestamp(TracePhase::TlsStart), 40);
    assert_eq!(trace.timestamp(TracePhase::TlsDone), 70);
    assert_eq!(trace.get_cipher(), "TLS13_AES_256_GCM_SHA384");
    assert_eq!(trace.tls_consuming(), 30);
    let stats = HTTPStats::from_trace(&trace);
    assert!(stats.is_https);
    assert_eq!(stats.cipher, "TLS13_AES_256_GCM_SHA384");
    assert_eq!(stats.tls, 30);
}

#[test]
fn the_cipher_name_loses_every_copy_of_the_lead() {
    let mut trace = HTTPTrace::new();
    trace.record_tls_signal("Using ciphersuite A Using ciphersuite B", 1);
    assert_eq!(trace.get_cipher(), "A B");
}

#[test]
fn the_layer_takes_events_at_the_current_time() {
    let mut trace = HTTPTrace::new();
    let layer = HTTPTraceLayer;
    layer.on_event(&mut trace, "hyper::client::connect::dns", Some("resolving host=\"a\""));
    assert!(trace.timestamp(TracePhase::DnsStart) > 1_600_000_000_000);
    assert_eq!(trace.timestamp(TracePhase::DnsDone), 0);
}

#[test]
fn stats_follow_the_trace() {
    let mut trace = HTTPTrace::new();
    trace.stamp(TracePhase::Start, 100);
    trace.stamp(TracePhase::TcpStart, 125);
    trace.stamp(TracePhase::TcpDone, 160);
    trace.stamp(TracePhase::Done, 350);
    let stats = HTTPStats::from_trace(&trace);
    assert_eq!(stats.remote_addr, "");
    assert!(!stats.is_https);
    assert_eq!(stats.tcp, 35);
    assert_eq!(stats.total, 250);
    assert_eq!(stats.dns_lookup, 0);
    let blank = HTTPStats::new();
    assert_eq!(blank.total, 0);
    assert_eq!(blank.cipher, "");
}
