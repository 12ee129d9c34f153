use udp_transports::hysteria::auth::{
    auth_request_headers, padding_from, random_auth_padding, read_auth_response, Welcome,
    AUTH_PADDING_MAX, AUTH_PADDING_MIN,
};
use udp_transports::hysteria::config::{
    auth_request_padding, auth_response_padding, padding_text, tcp_request_padding,
    tcp_response_padding, CommonHeaderCCRX, CommonHeaderPadding, FrameTypeTCPRequest,
    MaxDatagramFrameSize, Padding, RequestHeaderAuth, ResponseHeaderUDPEnabled, Status,
    StatusAuthOK, URLHost, URLPath, CLOSE_ERR_CODE_OK, CLOSE_ERR_CODE_PROTOCOL_ERROR,
    IDLE_CLEANUP_INTERVAL_MS, UDP_MESSAGE_CHAN_SIZE,
};
use udp_transports::hysteria::conn::{
    decode_varint, encode_varint, stream_refusal, ConnError, InterConn, InterStreamConn, ReadStep,
};
use udp_transports::hysteria::context::{ContextValues, DatagramFromContext};
use udp_transports::hysteria::error::HysteriaError;
use udp_transports::hysteria::headers::find_header;
use udp_transports::hysteria::hub::{
    file_answer, handle_request, is_authenticated, masq_content_type, parse_receive_rate,
    resolve_masq_file, try_auth, AuthRequest, AuthStep, AuthValidator, FileMasqHandler,
    HysteriaListener, MasqType, MasqueradeHandler, NotFoundMasqHandler, ProxyMasqHandler,
    Response, Served, StringMasqHandler, StubListenerFactory,
};
use udp_transports::hysteria::proto_config::Config;
use udp_transports::hysteria::udp_sessions::{Fed, UdpSessionManager};
use udp_transports::hysteria::udphop::{
    to_addrs, BufPool, HopError, PacketQueue, UdpHopPacketConn, DEFAULT_HOP_INTERVAL_NS,
    MIN_HOP_INTERVAL_NS, PACKET_QUEUE_SIZE, UDP_BUFFER_SIZE,
};
use udp_transports::net::{IpAddress, SocketAddress};
use udp_transports::text::{Count, Text};

const LOOPBACK: IpAddress = IpAddress::V4(0x7F00_0001);
const SECOND_NS: u64 = 1_000_000_000;

fn local() -> SocketAddress {
    SocketAddress::new(LOOPBACK, 80)
}

fn remote() -> SocketAddress {
    SocketAddress::new(LOOPBACK, 443)
}

// Names and padding.

#[test]
fn config_constants_match_go() {
    assert_eq!(CLOSE_ERR_CODE_OK, 0x100);
    assert_eq!(CLOSE_ERR_CODE_PROTOCOL_ERROR, 0x101);
    assert_eq!(URLHost, "hysteria");
    assert_eq!(URLPath, "/auth");
    assert_eq!(RequestHeaderAuth, "Hysteria-Auth");
    assert_eq!(ResponseHeaderUDPEnabled, "Hysteria-UDP");
    assert_eq!(CommonHeaderCCRX, "Hysteria-CC-RX");
    assert_eq!(CommonHeaderPadding, "Hysteria-Padding");
    assert_eq!(StatusAuthOK, 233);
    assert_eq!(FrameTypeTCPRequest, 0x401);
    assert_eq!(MaxDatagramFrameSize, 1200);
    assert_eq!(UDP_MESSAGE_CHAN_SIZE, 1024);
    assert_eq!(IDLE_CLEANUP_INTERVAL_MS, 1000);
}

#[test]
fn padding_lengths_in_range() {
    let cases = [
        (auth_request_padding().get(), 256, 2048),
        (auth_response_padding().get(), 256, 2048),
        (tcp_request_padding().get(), 64, 512),
        (tcp_response_padding().get(), 128, 1024),
    ];
    for (p, lo, hi) in cases {
        for _ in 0..32 {
            let s = p.generate();
            assert!(
                s.len() >= lo && s.len() <= hi,
                "padding len {} out of [{}, {}]",
                s.len(),
                lo,
                hi
            );
            assert!(s.bytes().all(|b| b.is_ascii_alphanumeric()));
        }
    }
}

#[test]
fn padding_equal_min_max_returns_exact_size() {
    let p = Padding::new(100, 100);
    for _ in 0..16 {
        assert_eq!(p.generate().len(), 100);
    }
}

#[test]
fn padding_char_distribution_covers_alphabet() {
    let p = Padding::new(0, 4000);
    let mut seen = std::collections::HashSet::new();
    for _ in 0..32 {
        let s = p.generate();
        for c in s.chars() {
            seen.insert(c);
        }
    }
    assert!(
        seen.len() >= 50,
        "padding char distribution skewed: only {} distinct chars",
        seen.len()
    );
}

#[test]
fn padding_characters_by_byte() {
    assert_eq!(padding_text(&[0, 25, 26, 51, 52, 61, 62, 255]), "azAZ09ah");
}

#[test]
fn status_default_is_null() {
    assert_eq!(Status::default(), Status::Null);
}

#[test]
fn status_repr_matches_go_iota() {
    assert_eq!(Status::Null as i32, 0);
    assert_eq!(Status::Active as i32, 1);
    assert_eq!(Status::Inactive as i32, 2);
}

// Errors.

#[test]
fn error_display_messages_match_go() {
    assert_eq!(HysteriaError::MissingTlsConfig.message(), "tls config is nil");
    assert_eq!(HysteriaError::MissingValidator.message(), "validator is nil");
    assert_eq!(HysteriaError::AddressIsDomain.message(), "address is domain");
    assert_eq!(
        HysteriaError::UnknownMasqType("foo".into()).message(),
        "unknown masq type: foo"
    );
    assert_eq!(HysteriaError::AuthFailed(403).message(), "auth failed code 403");
    assert_eq!(
        HysteriaError::UnsupportedCongestionType("cubic".into()).message(),
        "unsupported congestion type: cubic"
    );
    assert_eq!(
        HysteriaError::UnsupportedBbrProfile("weird".into()).message(),
        "unsupported BBR profile: weird"
    );
    assert_eq!(HysteriaError::ConnectionClosed.message(), "connection closed");
}

#[test]
fn error_from_io_error_conversion() {
    let cause = std::io::Error::new(std::io::ErrorKind::UnexpectedEof, "eof");
    let err = HysteriaError::Io(cause.to_string());
    assert!(matches!(err, HysteriaError::Io(_)));
    assert_eq!(err.message(), "io error: eof");
}

#[test]
fn invalid_udphop_message_contains_detail() {
    let e = HysteriaError::InvalidUdpHop("hopIntervalMin < 5s".into());
    assert!(e.message().contains("hopIntervalMin < 5s"));
}

// Streams.

#[test]
fn encode_varint_one_byte() {
    assert_eq!(encode_varint(0x3F), vec![0x3F]);
}

#[test]
fn encode_varint_frame_type_tcp_request() {
    let v = encode_varint(0x401);
    assert_eq!(v, vec![0x44, 0x01]);
}

#[test]
fn encode_varint_two_byte_boundary() {
    assert_eq!(encode_varint(0x3FFF).len(), 2);
}

#[test]
fn encode_varint_four_bytes() {
    assert_eq!(encode_varint(0x4000).len(), 4);
}

#[test]
fn encode_varint_eight_bytes() {
    assert_eq!(encode_varint(0x4000_0000).len(), 8);
    assert_eq!(
        encode_varint(0x0102_0304_0506_0708),
        vec![0xC1, 0x02, 0x03, 0x04, 0x05, 0x06, 0x07, 0x08]
    );
    assert_eq!(encode_varint(u64::MAX), vec![0xFF; 8]);
}

#[test]
fn numbers_that_fit_are_read_back() {
    for v in [0, 0x3F, 0x40, 0x3FFF, 0x4000, 0x3FFF_FFFF, 0x4000_0000, (1 << 62) - 1] {
        let mut bytes = encode_varint(v);
        let len = bytes.len();
        assert!(decode_varint(&bytes[..len - 1]).is_none());
        bytes.push(0xEE);
        assert_eq!(decode_varint(&bytes), Some((v, len)));
    }
    assert!(decode_varint(&[]).is_none());
}

#[test]
fn inter_stream_conn_constructs() {
    let c = InterStreamConn::new(local(), remote(), false);
    assert_eq!(c.local_addr(), local());
    assert_eq!(c.remote_addr(), remote());
}

#[test]
fn the_first_write_of_a_client_names_the_stream() {
    let mut c = InterStreamConn::new(local(), remote(), true);
    assert_eq!(c.write(b"ab"), vec![0x44, 0x01, b'a', b'b']);
    assert_eq!(c.write(b"cd"), b"cd".to_vec());
    let mut s = InterStreamConn::new(local(), remote(), false);
    assert_eq!(s.write(b"ef"), b"ef".to_vec());
    assert_eq!(stream_refusal(Some(0x401)), None);
    assert_eq!(stream_refusal(Some(0x402)), Some(0x101));
    assert_eq!(stream_refusal(None), Some(0x101));
}

// Sessions.

#[test]
fn inter_conn_create_and_close() {
    let mut conn = InterConn::new(local(), remote(), 42, UDP_MESSAGE_CHAN_SIZE, 0);
    assert_eq!(conn.id(), 42);
    assert!(!conn.is_closed());
    assert!(conn.close());
    assert!(conn.is_closed());
    assert!(!conn.close());
    assert_eq!(conn.write(b"x"), Err(ConnError::BrokenPipe));
}

#[test]
fn inter_conn_read_returns_fed_data() {
    let mut conn = InterConn::new(local(), remote(), 1, UDP_MESSAGE_CHAN_SIZE, 0);
    conn.feed(vec![1, 2, 3, 4]);
    let mut buf = [0u8; 16];
    assert_eq!(conn.read(&mut buf, 9), ReadStep::Ready(4));
    assert_eq!(&buf[..4], &[1, 2, 3, 4]);
    assert_eq!(conn.last_active(), 9);
    assert_eq!(conn.read(&mut buf, 10), ReadStep::Wait);
}

#[test]
fn a_session_drops_what_does_not_fit_and_ends_when_it_is_read() {
    let mut conn = InterConn::new(local(), remote(), 1, 2, 0);
    for byte in [1, 2, 3] {
        conn.feed(vec![byte; 4]);
    }
    let mut small = [0u8; 3];
    assert_eq!(conn.read(&mut small, 1), ReadStep::Failed(ConnError::WriteZero));
    conn.close();
    conn.feed(vec![9]);
    let mut buf = [0u8; 4];
    assert_eq!(conn.read(&mut buf, 1), ReadStep::Ready(4));
    assert_eq!(buf, [2; 4]);
    assert_eq!(conn.read(&mut buf, 1), ReadStep::Failed(ConnError::UnexpectedEof));
}

#[test]
fn inter_conn_write_with_id_prefix_and_callback() {
    let conn = InterConn::new(local(), remote(), 100, UDP_MESSAGE_CHAN_SIZE, 0);
    let (got, n) = conn.write(&[10, 20, 30]).unwrap();
    assert_eq!(n, 3);
    assert_eq!(&got[..4], &[0, 0, 0, 100]);
    assert_eq!(&got[4..], &[10, 20, 30]);
}

#[test]
fn udp_session_manager_create_assigns_incrementing_ids() {
    let mut mgr = UdpSessionManager::new(60_000);
    let (s1, _) = mgr.create_session(local(), remote(), 0).unwrap();
    let (s2, _) = mgr.create_session(local(), remote(), 0).unwrap();
    assert_eq!(s1, 1);
    assert_eq!(s2, 2);
    assert_eq!(mgr.session_count(), 2);
}

#[test]
fn inter_conn_touch_updates_last_active() {
    let mut conn = InterConn::new(local(), remote(), 1, 8, 5);
    let before = conn.last_active();
    conn.touch(10);
    let after = conn.last_active();
    assert!(after > before);
}

#[test]
fn datagrams_go_to_the_session_that_they_name() {
    let mut client = UdpSessionManager::new(1_000);
    let mut server = UdpSessionManager::new(1_000);
    let (id, _) = client.create_session(local(), remote(), 0).unwrap();
    let (datagram, _) = client.session(id).unwrap().write(b"ping").unwrap();
    assert_eq!(server.feed(&datagram, remote(), local(), 5), Fed::Opened(id));
    assert_eq!(server.feed(&datagram, remote(), local(), 6), Fed::Delivered(id));
    assert_eq!(server.feed(&[0, 0, 1], remote(), local(), 6), Fed::Ignored);
    let mut conn = server.take_session(id).unwrap();
    let mut buf = [0u8; 8];
    assert_eq!(conn.read(&mut buf, 7), ReadStep::Ready(4));
    assert_eq!(&buf[..4], b"ping");
    assert!(server.put_session(conn).is_none());
    assert_eq!(server.session_count(), 1);
}

#[test]
fn idle_and_closed_sessions_are_forgotten() {
    let mut mgr = UdpSessionManager::new(1_000);
    let (a, _) = mgr.create_session(local(), remote(), 0).unwrap();
    let (b, _) = mgr.create_session(local(), remote(), 500).unwrap();
    let ended = mgr.clean(1_001).unwrap();
    assert_eq!(ended.len(), 1);
    assert_eq!(ended[0].id(), a);
    assert!(ended[0].is_closed());
    assert!(mgr.session(b).is_some());
    assert!(mgr.close_session(b));
    assert!(!mgr.close_session(b));
    assert_eq!(mgr.session_count(), 0);

    mgr.feed(&[0, 0, 0, 9, 1], local(), remote(), 2_000);
    assert!(mgr.close_session(9));
    assert_eq!(mgr.session_count(), 1);
    assert_eq!(mgr.close_all().len(), 1);
    assert!(matches!(
        mgr.create_session(local(), remote(), 0),
        Err(HysteriaError::ConnectionClosed)
    ));
    assert!(mgr.clean(9_999).is_none());
}

#[test]
fn every_session_ends_once() {
    let mut mgr = UdpSessionManager::new(10);
    for i in 0..20 {
        mgr.create_session(local(), remote(), i).unwrap();
    }
    let mut idle: Vec<u32> = mgr.clean(20).unwrap().iter().map(|c| c.id()).collect();
    idle.sort_unstable();
    assert_eq!(idle, (1..=10).collect::<Vec<u32>>());
    let mut rest: Vec<u32> = mgr.close_all().iter().map(|c| c.id()).collect();
    rest.sort_unstable();
    assert_eq!(rest, (11..=20).collect::<Vec<u32>>());
    assert_eq!(mgr.session_count(), 0);
}

// Context.

struct TestCtx {
    datagram: bool,
}

impl ContextValues for TestCtx {
    fn wants_datagrams(&self) -> bool {
        self.datagram
    }

    fn secret(&self) -> Option<Text> {
        None
    }

    fn datagram(&self) -> bool {
        self.datagram
    }

    fn auth_secret(&self) -> Option<&str> {
        None
    }
}

#[test]
fn datagram_flag_roundtrip() {
    let mut ctx = TestCtx { datagram: false };
    assert!(!ctx.datagram());
    ctx.datagram = true;
    assert!(ctx.datagram_from());
}

// Strangers.

fn make_config(masq_type: &str) -> Config {
    Config {
        masq_type: masq_type.into(),
        masq_file: "/var/www".into(),
        masq_url: "https://example.com".into(),
        masq_url_rewrite_host: true,
        masq_url_insecure: false,
        masq_string: "hello".into(),
        masq_string_headers: vec![("X-Custom".into(), "value".into())],
        masq_string_status_code: 201,
        ..Config::default()
    }
}

#[test]
fn masq_type_from_config_not_found_default() {
    let c = Config::default();
    assert_eq!(MasqType::from_config(&c).unwrap(), MasqType::NotFound);
}

#[test]
fn masq_type_from_config_explicit_404() {
    let c = make_config("404");
    assert_eq!(MasqType::from_config(&c).unwrap(), MasqType::NotFound);
}

#[test]
fn masq_type_from_config_file() {
    let c = make_config("file");
    assert_eq!(MasqType::from_config(&c).unwrap(), MasqType::File("/var/www".into()));
}

#[test]
fn masq_type_from_config_proxy() {
    let c = make_config("proxy");
    let m = MasqType::from_config(&c).unwrap();
    match m {
        MasqType::Proxy { url, rewrite_host, insecure } => {
            assert_eq!(url, "https://example.com");
            assert!(rewrite_host);
            assert!(!insecure);
        },
        _ => panic!("expected Proxy"),
    }
}

#[test]
fn masq_type_from_config_string() {
    let c = make_config("string");
    let m = MasqType::from_config(&c).unwrap();
    match m {
        MasqType::String { body, headers, status_code } => {
            assert_eq!(body, "hello");
            assert_eq!(find_header(&headers, "X-Custom"), Some("value"));
            assert_eq!(status_code, 201);
        },
        _ => panic!("expected String"),
    }
}

#[test]
fn masq_type_from_config_string_default_status() {
    let mut c = make_config("string");
    c.masq_string_status_code = 0;
    let m = MasqType::from_config(&c).unwrap();
    match m {
        MasqType::String { status_code, .. } => assert_eq!(status_code, 200),
        _ => panic!(),
    }
    c.masq_string_status_code = -1;
    match MasqType::from_config(&c).unwrap() {
        MasqType::String { status_code, .. } => assert_eq!(status_code, 65535),
        _ => panic!(),
    }
}

#[test]
fn masq_type_from_config_invalid_errors() {
    let c = make_config("unknown");
    assert!(MasqType::from_config(&c).is_err());
    assert_eq!(
        MasqType::from_config(&make_config("Weird")),
        Err(HysteriaError::UnknownMasqType("weird".into()))
    );
}

#[test]
fn masq_type_from_config_case_insensitive() {
    let c = make_config("FILE");
    assert_eq!(MasqType::from_config(&c).unwrap(), MasqType::File("/var/www".into()));
}

fn answer(s: Served) -> Response {
    match s {
        Served::Answer(r) => r,
        other => panic!("expected an answer, got {other:?}"),
    }
}

#[test]
fn not_found_masq_handler_returns_404() {
    let r = answer(NotFoundMasqHandler.serve("GET", "/anything"));
    assert_eq!(r.status, 404);
    assert_eq!(r.body, b"404 page not found\n");
}

#[test]
fn string_masq_handler_returns_configured_response() {
    let h = StringMasqHandler {
        body: "custom body".into(),
        headers: vec![("X-Test".into(), "yes".into())],
        status_code: 418,
    };
    let r = answer(h.serve("POST", "/x"));
    assert_eq!(r.status, 418);
    assert_eq!(find_header(&r.headers, "X-Test"), Some("yes"));
    assert_eq!(r.body, b"custom body");
}

#[test]
fn proxy_masq_handler_returns_503() {
    let h = ProxyMasqHandler { url: String::new(), rewrite_host: false, insecure: false };
    let r = answer(h.serve("GET", "/proxy"));
    assert_eq!(r.status, 503);
    assert_eq!(r.body, b"Service Unavailable");
    assert_eq!(find_header(&r.headers, "Content-Type"), Some("text/plain; charset=utf-8"));
}

#[test]
fn stub_listener_factory_returns_closed() {
    let r = StubListenerFactory.listen(local());
    assert!(matches!(r, Err(HysteriaError::ConnectionClosed)));
}

#[test]
fn hysteria_listener_construct_and_close() {
    let mut l = HysteriaListener::new(local(), MasqType::NotFound);
    assert!(!l.is_closed());
    assert!(!l.close());
    assert!(l.is_closed());
    let mut l = HysteriaListener::new(local(), MasqType::NotFound);
    l.start();
    assert!(l.close());
}

#[test]
fn hysteria_listener_accessors() {
    let l = HysteriaListener::new(remote(), MasqType::File("/tmp".into()));
    assert_eq!(l.bind_addr(), remote());
    assert_eq!(l.masq_type(), &MasqType::File("/tmp".into()));
}

#[test]
fn build_handler_maps_all_masq_types() {
    let n = MasqType::NotFound.build_handler();
    let r = answer(n.serve("GET", "/"));
    assert_eq!((r.status, r.body.as_slice()), (404, &b"404 page not found\n"[..]));
    let p = MasqType::Proxy { url: "https://e.com".into(), rewrite_host: false, insecure: false }
        .build_handler();
    assert_eq!(answer(p.serve("GET", "/")).status, 503);
    let s = MasqType::String { body: "ok".into(), headers: vec![], status_code: 200 }
        .build_handler();
    let r = answer(s.serve("GET", "/"));
    assert_eq!((r.status, r.body.as_slice()), (200, &b"ok"[..]));
    let f = MasqType::File("/srv".into()).build_handler();
    assert_eq!(
        f.serve("GET", "/a/./b"),
        Served::ReadFile {
            root: "/srv".into(),
            path: vec!["a".into(), "b".into()],
            head: false
        }
    );
}

#[test]
fn not_found_handler_go_exact_body() {
    let r = answer(NotFoundMasqHandler.serve("GET", "/anything"));
    assert_eq!(r.status, 404);
    assert_eq!(r.body, b"404 page not found\n");
    assert_eq!(find_header(&r.headers, "Content-Type").unwrap(), "text/plain; charset=utf-8");
    assert_eq!(find_header(&r.headers, "X-Content-Type-Options").unwrap(), "nosniff");
}

#[test]
fn file_masq_serves_file_content() {
    let h = FileMasqHandler::new("/srv");
    match h.serve("GET", "/page.html") {
        Served::ReadFile { path, head, .. } => {
            assert_eq!(path, vec!["page.html".to_string()]);
            let r = file_answer(&path[0], Some(b"<h1>hi</h1>".to_vec()), head);
            assert_eq!(r.status, 200);
            assert_eq!(r.body, b"<h1>hi</h1>");
            assert_eq!(
                find_header(&r.headers, "Content-Type").unwrap(),
                "text/html; charset=utf-8"
            );
        },
        other => panic!("expected a file, got {other:?}"),
    }
}

#[test]
fn file_masq_directory_serves_index_html() {
    assert_eq!(resolve_masq_file("/sub").unwrap(), vec!["sub".to_string()]);
    assert_eq!(resolve_masq_file("/sub/").unwrap(), vec!["sub".to_string()]);
    assert!(resolve_masq_file("/").unwrap().is_empty());
    let r = file_answer("index.html", Some(b"index page".to_vec()), false);
    assert_eq!((r.status, r.body.as_slice()), (200, &b"index page"[..]));
    assert_eq!(file_answer("index.html", None, false).status, 404);
}

#[test]
fn file_masq_missing_file_404_go_body() {
    let r = file_answer("nope.html", None, false);
    assert_eq!(r.status, 404);
    assert_eq!(r.body, b"404 page not found\n");
    assert_eq!(find_header(&r.headers, "Content-Type").unwrap(), "text/plain; charset=utf-8");
}

#[test]
fn file_masq_traversal_rejected() {
    let h = FileMasqHandler::new("/srv");
    let r = answer(h.serve("GET", "/../secret.txt"));
    assert_eq!(r.status, 404);
    assert_ne!(r.body, b"secret");
    match h.serve("GET", "/%2e%2e/secret.txt") {
        Served::ReadFile { path, .. } => {
            assert_eq!(path, vec!["%2e%2e".to_string(), "secret.txt".to_string()])
        },
        other => panic!("expected a file, got {other:?}"),
    }
}

#[test]
fn file_masq_method_not_allowed() {
    let h = FileMasqHandler::new("/srv");
    let r = answer(h.serve("POST", "/x.html"));
    assert_eq!(r.status, 405);
    assert_eq!(find_header(&r.headers, "Allow").unwrap(), "GET, HEAD");
    assert_eq!(r.body, b"Method Not Allowed\n");
    assert!(matches!(h.serve("HEAD", "/"), Served::ReadFile { head: true, .. }));
    let r = file_answer("index.html", None, true);
    assert_eq!(r.status, 404);
    assert!(r.body.is_empty());
}

#[test]
fn content_types_by_extension() {
    for (name, kind) in [
        ("a.html", "text/html; charset=utf-8"),
        ("a.htm", "text/html; charset=utf-8"),
        ("a.b.css", "text/css; charset=utf-8"),
        ("x.js", "text/javascript; charset=utf-8"),
        ("x.json", "application/json; charset=utf-8"),
        ("x.png", "image/png"),
        ("x.jpg", "image/jpeg"),
        ("x.jpeg", "image/jpeg"),
        ("x.svg", "image/svg+xml"),
        ("x.ico", "image/x-icon"),
        ("x.txt", "text/plain; charset=utf-8"),
        ("x.woff2", "font/woff2"),
        (".html", "application/octet-stream"),
        ("html", "application/octet-stream"),
        ("x.", "application/octet-stream"),
        ("x.HTML", "application/octet-stream"),
    ] {
        assert_eq!(masq_content_type(name), kind, "{name}");
    }
}

// Letting clients in.

struct OneClient;

impl AuthValidator for OneClient {
    fn client_of(&self, _auth: Text) -> Option<Text> {
        unreachable!()
    }

    fn clients(&self) -> Count {
        unreachable!()
    }

    fn validate(&self, auth: &str) -> Option<String> {
        if auth == "secret" {
            Some("user".into())
        } else {
            None
        }
    }

    fn count(&self) -> usize {
        1
    }
}

struct NoClients;

impl AuthValidator for NoClients {
    fn client_of(&self, _auth: Text) -> Option<Text> {
        unreachable!()
    }

    fn clients(&self) -> Count {
        unreachable!()
    }

    fn validate(&self, _auth: &str) -> Option<String> {
        None
    }

    fn count(&self) -> usize {
        0
    }
}

fn auth_request(auth: &str) -> AuthRequest {
    AuthRequest {
        method: "POST".into(),
        host: "hysteria".into(),
        path: "/auth".into(),
        auth_header: auth.into(),
        brutal_down_bps: 77,
    }
}

#[test]
fn a_known_secret_lets_a_client_in() {
    let masq = MasqType::NotFound.build_handler();
    match handle_request(&auth_request("secret"), Some(&OneClient), "", 1234, &masq) {
        AuthStep::LetIn { response, client_down } => {
            assert_eq!(client_down, 77);
            assert_eq!(response.status, 233);
            assert_eq!(find_header(&response.headers, "Hysteria-UDP"), Some("true"));
            assert_eq!(find_header(&response.headers, "Hysteria-CC-RX"), Some("1234"));
            assert_eq!(find_header(&response.headers, "Hysteria-Padding"), Some("0"));
            assert!(response.body.is_empty());
        },
        other => panic!("expected to be let in, got {other:?}"),
    }
}

#[test]
fn a_wrong_secret_is_answered_like_a_stranger() {
    let masq = MasqType::String { body: "masqueraded".into(), headers: vec![], status_code: 200 }
        .build_handler();
    let wrong = handle_request(&auth_request("wrong-password"), Some(&OneClient), "", 0, &masq);
    match &wrong {
        AuthStep::Masquerade(Served::Answer(r)) => {
            assert_eq!(r.status, 200);
            assert_eq!(r.body, b"masqueraded");
        },
        other => panic!("expected the stranger's answer, got {other:?}"),
    }
    assert_eq!(wrong, handle_request::<OneClient>(&auth_request("secret"), None, "", 9, &masq));
    let mut elsewhere = auth_request("secret");
    elsewhere.path = "/index.html".into();
    assert_eq!(wrong, handle_request(&elsewhere, Some(&OneClient), "", 0, &masq));
}

#[test]
fn who_is_let_in() {
    assert!(is_authenticated(&auth_request("secret"), Some(&OneClient), "other"));
    assert!(!is_authenticated(&auth_request("other"), Some(&OneClient), "other"));
    assert!(is_authenticated(&auth_request("other"), Some(&NoClients), "other"));
    assert!(is_authenticated::<NoClients>(&auth_request("other"), None, "other"));
    assert!(!is_authenticated::<NoClients>(&auth_request(""), None, ""));
    for change in 0..3 {
        let mut r = auth_request("secret");
        match change {
            0 => r.method = "GET".into(),
            1 => r.host = "example.com".into(),
            _ => r.path = "/".into(),
        }
        assert!(!is_authenticated(&r, Some(&OneClient), "secret"));
    }
}

#[test]
fn a_validator_alone_decides_whatever_the_host() {
    let mut r = auth_request("secret");
    r.host = "example.com".into();
    let a = try_auth(&r, Some(&OneClient)).unwrap();
    assert_eq!((a.status_code, a.udp_enabled, a.brutal_down_bps), (233, true, 77));
    let response = a.to_response();
    assert_eq!(find_header(&response.headers, "Hysteria-CC-RX"), Some("77"));
    assert!(try_auth(&auth_request("x"), Some(&OneClient)).is_none());
    assert!(try_auth::<OneClient>(&auth_request("secret"), None).is_none());
    r.method = "GET".into();
    assert!(try_auth(&r, Some(&OneClient)).is_none());
}

#[test]
fn rates_that_cannot_be_read_are_none() {
    assert_eq!(parse_receive_rate("18446744073709551615"), u64::MAX);
    assert_eq!(parse_receive_rate("18446744073709551616"), 0);
    assert_eq!(parse_receive_rate("+5"), 5);
    assert_eq!(parse_receive_rate("-5"), 0);
    assert_eq!(parse_receive_rate(" 5"), 0);
    assert_eq!(parse_receive_rate(""), 0);
}

// Introducing oneself.

#[test]
fn random_auth_padding_length_in_range() {
    for _ in 0..20 {
        let p = random_auth_padding();
        let byte_len = p.len() / 2;
        assert!(
            (AUTH_PADDING_MIN..=AUTH_PADDING_MAX).contains(&byte_len),
            "padding byte len {byte_len} not in range"
        );
        assert!(p.chars().all(|c| c.is_ascii_hexdigit()));
    }
}

#[test]
fn padding_is_hexadecimal() {
    assert_eq!(padding_from(&[0x00, 0x0F, 0xA5, 0xFF]), "000fa5ff");
    assert_ne!(random_auth_padding(), random_auth_padding());
}

#[test]
fn the_request_names_secret_rate_and_padding() {
    let h = auth_request_headers("pw", 65_536, "00ff");
    assert_eq!(find_header(&h, "Hysteria-Auth"), Some("pw"));
    assert_eq!(find_header(&h, "Hysteria-CC-RX"), Some("65536"));
    assert_eq!(find_header(&h, "Hysteria-Padding"), Some("00ff"));
    assert_eq!(find_header(&h, "hysteria-auth"), None);
}

#[test]
fn the_answer_is_read() {
    let welcome = |udp, rate| read_auth_response(233, udp, rate);
    assert_eq!(
        welcome(Some("TRUE"), Some("99")),
        Ok(Welcome { udp_enabled: true, cc_rx_down: 99 })
    );
    assert_eq!(
        welcome(Some("1"), Some("Auto")),
        Ok(Welcome { udp_enabled: true, cc_rx_down: 0 })
    );
    assert_eq!(
        welcome(Some("yes"), Some("x")),
        Ok(Welcome { udp_enabled: false, cc_rx_down: 0 })
    );
    assert_eq!(welcome(None, None), Ok(Welcome { udp_enabled: false, cc_rx_down: 0 }));
    assert_eq!(
        read_auth_response(403, None, None),
        Err("hysteria auth failed: status 403 Forbidden (expected 233)".to_string())
    );
}

// Changing ports.

#[test]
fn to_addrs_basic() {
    let addrs = to_addrs(LOOPBACK, &[80, 443, 8080]);
    assert_eq!(addrs.len(), 3);
    assert_eq!(addrs[0].port(), 80);
    assert_eq!(addrs[1].port(), 443);
    assert_eq!(addrs[2].port(), 8080);
    assert_eq!(addrs[0].ip(), LOOPBACK);
    assert_eq!(to_addrs(LOOPBACK, &[65_536 + 7])[0].port(), 7);
}

#[test]
fn to_addrs_empty() {
    assert!(to_addrs(LOOPBACK, &[]).is_empty());
}

#[test]
fn udphop_constants_match_go() {
    assert_eq!(UDP_BUFFER_SIZE, 1500);
    assert_eq!(DEFAULT_HOP_INTERVAL_NS, 30 * SECOND_NS);
    assert_eq!(MIN_HOP_INTERVAL_NS, 5 * SECOND_NS);
    assert_eq!(PACKET_QUEUE_SIZE, 1024);
}

fn hopping(min_secs: u64, max_secs: u64) -> UdpHopPacketConn {
    UdpHopPacketConn::new(
        to_addrs(LOOPBACK, &[80, 81, 82]),
        min_secs * SECOND_NS,
        max_secs * SECOND_NS,
        1,
        0,
    )
    .unwrap()
}

#[test]
fn next_hop_interval_equal_min_max_returns_min() {
    assert_eq!(hopping(10, 10).next_hop_interval(), 10 * SECOND_NS);
}

#[test]
fn next_hop_interval_within_range() {
    let conn = hopping(10, 20);
    for _ in 0..50 {
        let i = conn.next_hop_interval();
        assert!(i >= 10 * SECOND_NS && i <= 20 * SECOND_NS, "got {i}");
    }
    assert_eq!(conn.interval_with(7), 10_007_000_000);
}

#[test]
fn intervals_that_make_no_sense_are_refused() {
    let refused = |addrs: &[u32], min, max| {
        match UdpHopPacketConn::new(to_addrs(LOOPBACK, addrs), min, max, 1, 0) {
            Err(HysteriaError::InvalidUdpHop(text)) => text,
            _ => panic!("expected a refusal"),
        }
    };
    assert_eq!(refused(&[], 0, 0), "len(addrs) == 0");
    assert_eq!(refused(&[1], 1_500_000_000, 0), "hopIntervalMin 1.5s < 5s");
    assert_eq!(refused(&[1], 0, 4 * SECOND_NS), "hopIntervalMax 4s < 5s");
    assert_eq!(refused(&[1], 0, 6 * SECOND_NS), "hopIntervalMax 6s < hopIntervalMin 30s");
}

#[test]
fn a_hop_keeps_the_last_two_sockets() {
    let mut conn = hopping(0, 0);
    assert_eq!(conn.write_to().unwrap(), (1, SocketAddress::new(LOOPBACK, 80)));
    assert_eq!(conn.hop_to(2), Some(SocketAddress::new(LOOPBACK, 82)));
    assert_eq!(conn.addr_index(), 2);
    assert_eq!(conn.hop_done(2), Some(None));
    assert_eq!(conn.hop_done(3), Some(Some(1)));
    assert_eq!(conn.local_conn().unwrap(), 3);
    let target = conn.hop_begin().unwrap();
    assert!(conn.addrs().contains(&target));
    assert_eq!(conn.close(), (Some(2), Some(3)));
    assert_eq!(conn.close(), (None, None));
    assert_eq!(conn.hop_begin(), None);
    assert_eq!(conn.hop_done(4), None);
    assert_eq!(conn.write_to(), Err(HopError::Closed));
    assert!(conn.addrs().is_empty());
}

#[test]
fn recv_loop_recycles_bufs_to_pool() {
    let addr = SocketAddress::new(LOOPBACK, 40001);
    let mut queue = PacketQueue::new();
    let mut buf = [0u8; UDP_BUFFER_SIZE];
    for _ in 0..8 {
        let mut slot = queue.take_buffer();
        slot[..16].fill(0xAB);
        queue.received(slot, 16, addr);
        let (n, from) = queue.read_from(&mut buf).expect("read_from");
        assert_eq!(n, 16);
        assert_eq!(from, addr);
        assert!(buf[..n].iter().all(|&b| b == 0xAB));
    }
    assert!(queue.pool.bufs.len() >= 1);
    assert!(queue.pool.allocs <= 2);
}

#[test]
fn nothing_is_read_where_nothing_came() {
    let mut queue = PacketQueue::new();
    let mut buf = [0u8; 4];
    assert_eq!(queue.read_from(&mut buf), Err(HopError::Wait));
    let slot = queue.take_buffer();
    queue.timed_out(slot, "timed out".to_string());
    assert_eq!(queue.read_from(&mut buf), Err(HopError::Socket("timed out".to_string())));
    let slot = queue.take_buffer();
    queue.received(slot, 5, local());
    assert_eq!(queue.read_from(&mut buf), Err(HopError::ShortBuffer));
    assert_eq!(queue.pool.allocs, 1);
}

#[test]
fn buf_pool_get_put_reuses() {
    let mut pool = BufPool::new();
    let b = pool.get();
    assert_eq!(b.len(), UDP_BUFFER_SIZE);
    assert_eq!(pool.allocs, 1);
    pool.put(b);
    let b2 = pool.get();
    assert_eq!(pool.allocs, 1, "must reuse instead of realloc");
    pool.put(b2);
    assert_eq!(pool.bufs.len(), 1);
}
