use udp_transports::hysteria::dialer::{
    receive_windows, transport_plan, ClientManager, ConnectStep, DialDestination, HysteriaClient,
    QuicConfig, StubDialerFactory,
};
use udp_transports::hysteria::config::Status;
use udp_transports::hysteria::error::HysteriaError;
use udp_transports::hysteria::headers::find_header;
use udp_transports::hysteria::hub::MasqType;
use udp_transports::hysteria::obfs::{
    parse_range_string, parse_udp_obfs, salamander_obfuscate, UdpObfs,
};
use udp_transports::hysteria::proto_config::{
    apply_masquerade_json, default_config as default_hysteria_config, parse_hysteria_config,
    Config as HysteriaConfig, ConfigExt,
};
use udp_transports::hysteria::quic_params::{
    default_hysteria_quic_params, parse_bandwidth_bps, parse_quic_params, QuicParams,
};
use udp_transports::hysteria::register::{
    dial_plan, listen_plan, resolve_dest_to_socket_addr, Address,
};
use udp_transports::json::{ErrorKind, Json, Number};
use udp_transports::kcp::register::{parse_kcp_config, PROTOCOL_NAME};
use udp_transports::net::{IpAddress, SocketAddress};

fn to_json(v: &serde_json::Value) -> Json {
    match v {
        serde_json::Value::Null => Json::Null,
        serde_json::Value::Bool(b) => Json::Bool(*b),
        serde_json::Value::Number(n) => Json::Number(match (n.as_u64(), n.as_i64()) {
            (Some(u), _) => Number::Unsigned(u),
            (None, Some(i)) => Number::Negative(i),
            (None, None) => Number::Fraction,
        }),
        serde_json::Value::String(s) => Json::Text(s.clone()),
        serde_json::Value::Array(items) => Json::List(items.iter().map(to_json).collect()),
        serde_json::Value::Object(fields) => {
            Json::Object(fields.iter().map(|(k, v)| (k.clone(), to_json(v))).collect())
        },
    }
}

fn json(text: &str) -> Json {
    let v: serde_json::Value = serde_json::from_str(text).unwrap();
    to_json(&v)
}

// Settings of the datagram protocol.

fn err_msg(text: &str) -> String {
    parse_kcp_config(Some(&json(text)))
        .err()
        .unwrap_or_else(|| panic!("expected error for {text}"))
        .message()
}

#[test]
fn parse_kcp_config_none_returns_default() {
    let cfg = parse_kcp_config(None).unwrap();
    assert_eq!(cfg.mtu, 1350);
    assert_eq!(cfg.tti, 50);
    assert_eq!(PROTOCOL_NAME, "mkcp");
}

#[test]
fn parse_kcp_config_basic_fields() {
    let v = json(
        r#"{"mtu":1400,"tti":30,"uplinkCapacity":10,"downlinkCapacity":50,"cwndMultiplier":5,"maxSendingWindow":4194304}"#,
    );
    let cfg = parse_kcp_config(Some(&v)).unwrap();
    assert_eq!(cfg.mtu, 1400);
    assert_eq!(cfg.tti, 30);
    assert_eq!(cfg.uplink_capacity, 10);
    assert_eq!(cfg.downlink_capacity, 50);
    assert_eq!(cfg.cwnd_multiplier, 5);
    assert_eq!(cfg.max_sending_window, 4194304);
}

#[test]
fn parse_kcp_config_non_object_returns_err() {
    let r = parse_kcp_config(Some(&json(r#""not-an-object""#)));
    assert!(r.is_err());
    assert_eq!(r.unwrap_err().kind(), ErrorKind::InvalidData);
}

#[test]
fn parse_kcp_config_rejects_removed_header() {
    let err = match parse_kcp_config(Some(&json(r#"{"header":{"type":"srtp"}}"#))) {
        Err(e) => e,
        Ok(_) => panic!("expected removed-feature error for header"),
    };
    assert_eq!(err.kind(), ErrorKind::InvalidInput);
    assert_eq!(
        err.message(),
        "The feature mkcp header & seed has been removed and migrated to \
         finalmask/udp header-* & mkcp-original & mkcp-aes128gcm. Please update your \
         config(s) according to release note and documentation."
    );
}

#[test]
fn parse_kcp_config_rejects_removed_seed() {
    let err = match parse_kcp_config(Some(&json(r#"{"seed":"pw"}"#))) {
        Err(e) => e,
        Ok(_) => panic!("expected removed-feature error for seed"),
    };
    assert!(err.message().contains("The feature mkcp header & seed has been removed"));
}

#[test]
fn tslk_rejects_mtu_below_21() {
    let msg = err_msg(r#"{"mtu":20}"#);
    assert!(msg.contains("Mtu must be at least 21"), "got: {msg}");
}

#[test]
fn tslk_rejects_negative_mtu() {
    let msg = err_msg(r#"{"mtu":-1}"#);
    assert!(msg.contains("mtu must be non-negative"), "got: {msg}");
    assert_eq!(msg, "kcpSettings.mtu must be non-negative (got -1)");
}

#[test]
fn tslk_rejects_tti_too_small() {
    let msg = err_msg(r#"{"tti":9}"#);
    assert!(msg.contains("invalid mKCP TTI"), "got: {msg}");
}

#[test]
fn tslk_rejects_tti_too_large() {
    let msg = err_msg(r#"{"tti":5001}"#);
    assert!(msg.contains("invalid mKCP TTI"), "got: {msg}");
    assert_eq!(msg, "invalid mKCP TTI: 5001");
}

#[test]
fn tslk_accepts_tti_at_upper_bound() {
    let cfg = parse_kcp_config(Some(&json(r#"{"tti":5000}"#))).expect("tti=5000 is accepted");
    assert_eq!(cfg.tti, 5000);
}

#[test]
fn tslk_accepts_tti_at_lower_bound() {
    let cfg = parse_kcp_config(Some(&json(r#"{"tti":10}"#))).expect("tti=10 is accepted");
    assert_eq!(cfg.tti, 10);
}

#[test]
fn tslk_rejects_tti_negative() {
    let msg = err_msg(r#"{"tti":-5}"#);
    assert!(msg.contains("tti must be non-negative"), "got: {msg}");
}

#[test]
fn tslk_rejects_cwnd_multiplier_zero() {
    let msg = err_msg(r#"{"cwndMultiplier":0}"#);
    assert!(msg.contains("CwndMultiplier must be at least 1"), "got: {msg}");
}

#[test]
fn tslk_rejects_cwnd_multiplier_negative() {
    let msg = err_msg(r#"{"cwndMultiplier":-3}"#);
    assert!(msg.contains("cwndMultiplier must be non-negative"), "got: {msg}");
}

#[test]
fn tslk_rejects_max_sending_window_smaller_than_mtu() {
    let msg = err_msg(r#"{"mtu":1400,"maxSendingWindow":1399}"#);
    assert!(msg.contains("MaxSendingWindow must be >= Mtu"), "got: {msg}");
}

#[test]
fn tslk_rejects_negative_uplink_capacity() {
    let msg = err_msg(r#"{"uplinkCapacity":-1}"#);
    assert!(msg.contains("uplinkCapacity must be non-negative"), "got: {msg}");
}

#[test]
fn tslk_rejects_negative_downlink_capacity() {
    let msg = err_msg(r#"{"downlinkCapacity":-1}"#);
    assert!(msg.contains("downlinkCapacity must be non-negative"), "got: {msg}");
}

#[test]
fn tslk_rejects_negative_max_sending_window() {
    let msg = err_msg(r#"{"maxSendingWindow":-1}"#);
    assert!(msg.contains("maxSendingWindow must be non-negative"), "got: {msg}");
}

#[test]
fn tslk_accepts_minimal_valid_kcp_settings() {
    let cfg = parse_kcp_config(Some(&json(
        r#"{"mtu":21,"tti":10,"cwndMultiplier":1,"maxSendingWindow":21}"#,
    )))
    .expect("minimal valid kcp settings");
    assert_eq!(cfg.mtu, 21);
    assert_eq!(cfg.tti, 10);
    assert_eq!(cfg.cwnd_multiplier, 1);
}

#[test]
fn tslk_rejects_non_numeric_field() {
    let msg = err_msg(r#"{"mtu":"abc"}"#);
    assert!(msg.contains("mtu must be a number"), "got: {msg}");
}

#[test]
fn a_number_that_is_too_long_keeps_its_low_half() {
    let cfg = parse_kcp_config(Some(&json(r#"{"uplinkCapacity":4294967303}"#))).unwrap();
    assert_eq!(cfg.uplink_capacity, 7);
    let msg = err_msg(r#"{"mtu":1.5}"#);
    assert_eq!(msg, "kcpSettings.mtu must be a number");
}

// Settings of the QUIC transport.

#[test]
fn default_config_has_udp_idle_timeout_60() {
    let c = default_hysteria_config();
    assert_eq!(c.udp_idle_timeout, 60);
}

#[test]
fn default_config_other_fields_default() {
    let c = default_hysteria_config();
    assert_eq!(c.auth, "");
    assert_eq!(c.masq_type, "");
    assert_eq!(c.version, 0);
}

#[test]
fn config_ext_accessors() {
    let c = HysteriaConfig {
        udp_idle_timeout: 120,
        auth: "secret-token".into(),
        masq_type: "404".into(),
        ..HysteriaConfig::default()
    };
    assert_eq!(c.udp_idle_timeout_secs(), 120);
    assert_eq!(c.auth(), "secret-token");
    assert_eq!(c.masq_type(), "404");
}

fn full_config() -> HysteriaConfig {
    HysteriaConfig {
        version: 2,
        auth: "server-auth".into(),
        udp_idle_timeout: 60,
        masq_type: "string".into(),
        masq_file: "/var/www".into(),
        masq_url: "https://masq.example.com".into(),
        masq_url_rewrite_host: true,
        masq_url_insecure: false,
        masq_string: "hello".into(),
        masq_string_headers: vec![
            ("X-Custom".into(), "value".into()),
            ("X-Other".into(), "v2".into()),
        ],
        masq_string_status_code: 201,
    }
}

#[test]
fn masq_from_config_to_config_roundtrip_variants() {
    let direct = HysteriaConfig {
        version: 2,
        auth: "server-auth".into(),
        udp_idle_timeout: 60,
        ..HysteriaConfig::default()
    };
    let cases: Vec<(HysteriaConfig, MasqType)> = vec![
        (
            HysteriaConfig { masq_type: String::new(), ..direct.duplicate() },
            MasqType::NotFound,
        ),
        (
            HysteriaConfig {
                masq_type: "file".into(),
                masq_file: "/var/www".into(),
                ..direct.duplicate()
            },
            MasqType::File("/var/www".into()),
        ),
        (
            HysteriaConfig {
                masq_type: "proxy".into(),
                masq_url: "https://masq.example.com".into(),
                masq_url_rewrite_host: true,
                masq_url_insecure: true,
                ..direct.duplicate()
            },
            MasqType::Proxy {
                url: "https://masq.example.com".into(),
                rewrite_host: true,
                insecure: true,
            },
        ),
        (
            HysteriaConfig {
                masq_type: "string".into(),
                masq_string: "hello".into(),
                masq_string_headers: vec![("X-Custom".into(), "value".into())],
                masq_string_status_code: 201,
                ..direct.duplicate()
            },
            MasqType::String {
                body: "hello".into(),
                headers: vec![("X-Custom".into(), "value".into())],
                status_code: 201,
            },
        ),
    ];
    for (src, m) in cases {
        assert_eq!(MasqType::from_config(&src).unwrap(), m);
        let mut out = HysteriaConfig::default();
        m.to_config(&mut out);
        assert_eq!(out.masq_type, src.masq_type);
        assert_eq!(out.masq_file, src.masq_file);
        assert_eq!(out.masq_url, src.masq_url);
        assert_eq!(out.masq_url_rewrite_host, src.masq_url_rewrite_host);
        assert_eq!(out.masq_url_insecure, src.masq_url_insecure);
        assert_eq!(out.masq_string, src.masq_string);
        assert_eq!(out.masq_string_headers, src.masq_string_headers);
        assert_eq!(out.masq_string_status_code, src.masq_string_status_code);
    }
}

#[test]
fn transport_config_direct_fields_documented_consumers() {
    let c = full_config();
    assert_eq!(c.version, 2);
    assert_eq!(c.auth, "server-auth");
    assert_eq!(c.udp_idle_timeout, 60);
}

#[test]
fn masq_json_to_proto_roundtrip() {
    let mut c = HysteriaConfig::default();
    apply_masquerade_json(
        &mut c,
        &json(
            r#"{"type":"string","content":"page body","headers":{"X-A":"1"},"statusCode":200}"#,
        ),
    )
    .unwrap();
    let m = MasqType::from_config(&c).unwrap();
    let mut out = HysteriaConfig::default();
    m.to_config(&mut out);
    assert_eq!(out, c);
}

#[test]
fn the_status_of_a_text_is_never_written_as_zero() {
    let mut c = full_config();
    c.masq_type = "string".to_string();
    c.masq_string_status_code = 65536;
    let m = MasqType::from_config(&c).unwrap();
    let mut out = full_config();
    m.to_config(&mut out);
    assert_eq!(out.masq_string_status_code, 200);
    assert_eq!(out.auth, "server-auth");
    match MasqType::from_config(&out).unwrap() {
        MasqType::String { status_code, .. } => assert_eq!(status_code, 200),
        other => panic!("expected a text, got {other:?}"),
    }
}

#[test]
fn masquerade_that_is_no_object_is_refused() {
    let mut c = full_config();
    let e = apply_masquerade_json(&mut c, &json("7")).unwrap_err();
    assert_eq!(e.message(), "masquerade must be a JSON object");
    assert_eq!(c, full_config());
    let e = apply_masquerade_json(&mut c, &json(r#"{"type":"404","headers":[]}"#)).unwrap_err();
    assert_eq!(e.kind(), ErrorKind::InvalidInput);
    assert_eq!(e.message(), "masquerade.headers must be a JSON object");
    assert_eq!(c.masq_type, "404");
    assert_eq!(c.masq_string_status_code, 201);
}

#[test]
fn parse_hysteria_config_none_returns_default() {
    let cfg = parse_hysteria_config(None).unwrap();
    assert_eq!(cfg.auth, "");
    assert_eq!(cfg.udp_idle_timeout, 60);
}

#[test]
fn parse_hysteria_config_basic_fields() {
    let v = json(r#"{"auth":"my-token","udpIdleTimeout":120,"version":2}"#);
    let cfg = parse_hysteria_config(Some(&v)).unwrap();
    assert_eq!(cfg.auth, "my-token");
    assert_eq!(cfg.udp_idle_timeout, 120);
    assert_eq!(cfg.version, 2);
}

#[test]
fn parse_hysteria_config_non_object_returns_err() {
    let r = parse_hysteria_config(Some(&json(r#""not-an-object""#)));
    assert!(r.is_err());
    assert_eq!(r.unwrap_err().kind(), ErrorKind::InvalidData);
}

#[test]
fn parse_hysteria_config_masquerade_object() {
    let v = json(r#"{"auth":"t","masquerade":{"type":"file","dir":"/var/www"}}"#);
    let cfg = parse_hysteria_config(Some(&v)).unwrap();
    assert_eq!(cfg.masq_type, "file");
    assert_eq!(cfg.masq_file, "/var/www");
    assert_eq!(MasqType::from_config(&cfg).unwrap(), MasqType::File("/var/www".into()));

    let v = json(
        r#"{"masquerade":{"type":"proxy","url":"https://e.com","rewriteHost":true,"insecure":true}}"#,
    );
    let cfg = parse_hysteria_config(Some(&v)).unwrap();
    assert!(cfg.masq_url_rewrite_host);
    assert!(cfg.masq_url_insecure);
    assert!(matches!(
        MasqType::from_config(&cfg).unwrap(),
        MasqType::Proxy { url, rewrite_host: true, insecure: true } if url == "https://e.com"
    ));

    let v = json(
        r#"{"masquerade":{"type":"string","content":"hi","headers":{"X-A":"1"},"statusCode":418}}"#,
    );
    let cfg = parse_hysteria_config(Some(&v)).unwrap();
    assert_eq!(cfg.masq_string, "hi");
    assert_eq!(find_header(&cfg.masq_string_headers, "X-A").unwrap(), "1");
    assert_eq!(cfg.masq_string_status_code, 418);
    assert!(matches!(
        MasqType::from_config(&cfg).unwrap(),
        MasqType::String { body, status_code: 418, .. } if body == "hi"
    ));
}

#[test]
fn parse_hysteria_config_no_masquerade_untouched() {
    let cfg = parse_hysteria_config(Some(&json(r#"{"auth":"t"}"#))).unwrap();
    assert_eq!(cfg.masq_type, "");
    assert_eq!(MasqType::from_config(&cfg).unwrap(), MasqType::NotFound);
}

// QUIC.

#[test]
fn bandwidth_go_parity() {
    assert_eq!(parse_bandwidth_bps("").unwrap(), 0);
    assert_eq!(parse_bandwidth_bps("  ").unwrap(), 0);
    assert_eq!(parse_bandwidth_bps("100 mbps").unwrap(), 13_107_200);
    assert_eq!(parse_bandwidth_bps("500 kbps").unwrap(), 64_000);
    assert_eq!(parse_bandwidth_bps("1 gbps").unwrap(), 134_217_728);
    assert_eq!(parse_bandwidth_bps("1000").unwrap(), 125);
    assert_eq!(parse_bandwidth_bps("100 M").unwrap(), 13_107_200);
    assert_eq!(parse_bandwidth_bps("1.5 mbps").unwrap(), 196_608);
    assert_eq!(parse_bandwidth_bps("1 TBPS").unwrap(), 137_438_953_472);
    assert_eq!(parse_bandwidth_bps("1.999 b").unwrap(), 0);
    assert!(parse_bandwidth_bps("100 gbpsx").is_err());
    assert!(parse_bandwidth_bps("abc").is_err());
}

fn in_double_precision(number: &str, mul: u64) -> u64 {
    let val: f64 = number.parse().unwrap();
    (val * mul as f64) as u64 / 8
}

#[test]
fn bandwidth_is_computed_in_double_precision() {
    let numbers = [
        "0.1",
        "0.3",
        "7.999999999999999999",
        "8.0000000000000000001",
        "7.9999999999999996",
        "7.9999999999999995559107901499373838305",
        "7.9999999999999995559107901499373838306",
        "123456789.987654321",
        "9007199254740993",
        "9007199254740995",
        "9223372036854775807",
        "18446744073709550591",
        "18446744073709550592",
        "18446744073709551615",
        "18446744073709551616",
        "99999999999999999999999999999999",
        "0.00000000000000000000000000000001",
        "000123.4560",
        "5.",
        ".5",
        "1152921504606846975.9999",
    ];
    for number in numbers {
        for (unit, mul) in [("", 1u64), ("k", 1 << 10), ("mb", 1 << 20), ("gbps", 1 << 30), ("t", 1 << 40)] {
            assert_eq!(
                parse_bandwidth_bps(&format!("{number}{unit}")).unwrap(),
                in_double_precision(number, mul),
                "{number} {unit}"
            );
        }
    }
}

#[test]
fn bandwidth_faults_show_the_text() {
    assert_eq!(
        parse_bandwidth_bps(" 1.2.3 Mbps ").unwrap_err().message(),
        format!("quicParams: invalid bandwidth value {:?}", "1.2.3 mbps")
    );
    assert_eq!(
        parse_bandwidth_bps("1 \"x\"").unwrap_err().message(),
        format!("quicParams: unsupported unit {:?}", "\"x\"")
    );
    assert!(parse_bandwidth_bps(".").is_err());
}

#[test]
fn parse_none_cases() {
    assert!(parse_quic_params(None).unwrap().is_none());
    assert!(parse_quic_params(Some(&json(r#"{"tcp":[]}"#))).unwrap().is_none());
    assert!(parse_quic_params(Some(&json(r#"{"finalMask":{}}"#))).unwrap().is_none());
}

#[test]
fn default_hysteria_params_match_go_nil_default() {
    let p = default_hysteria_quic_params();
    assert_eq!(p.bbr_profile, "standard");
    assert_eq!(p.congestion, "");
    assert_eq!(p.brutal_up, 0);
    assert_eq!(p.brutal_down, 0);
}

#[test]
fn parse_full_fields() {
    let v = json(
        r#"{"quicParams":{
            "congestion": "brutal",
            "bbrProfile": "aggressive",
            "brutalUp": "100 mbps",
            "brutalDown": "500 mbps",
            "udpHop": {"ports": "20800-20802,20810", "interval": "10-20"},
            "initStreamReceiveWindow": 16384,
            "maxStreamReceiveWindow": 65536,
            "initConnectionReceiveWindow": 32768,
            "maxConnectionReceiveWindow": 131072,
            "maxIdleTimeout": 45,
            "keepAlivePeriod": 15,
            "disablePathMTUDiscovery": true,
            "maxIncomingStreams": 64,
            "debug": true
        }}"#,
    );
    let p = parse_quic_params(Some(&v)).unwrap().unwrap();
    assert_eq!(p.congestion, "brutal");
    assert_eq!(p.bbr_profile, "aggressive");
    assert_eq!(p.brutal_up, 13_107_200);
    assert_eq!(p.brutal_down, 65_536_000);
    let hop = p.udp_hop.expect("udp_hop");
    assert_eq!(hop.ports, vec![20800, 20801, 20802, 20810]);
    assert_eq!(hop.interval_min, 10);
    assert_eq!(hop.interval_max, 20);
    assert_eq!(p.init_stream_receive_window, 16384);
    assert_eq!(p.max_stream_receive_window, 65536);
    assert_eq!(p.init_conn_receive_window, 32768);
    assert_eq!(p.max_conn_receive_window, 131072);
    assert_eq!(p.max_idle_timeout, 45);
    assert_eq!(p.keep_alive_period, 15);
    assert!(p.disable_path_mtu_discovery);
    assert_eq!(p.max_incoming_streams, 64);
}

#[test]
fn parse_defaults_and_normalization() {
    let v = json(r#"{"quicParams":{"congestion":"BBR","bbrProfile":"Conservative"}}"#);
    let p = parse_quic_params(Some(&v)).unwrap().unwrap();
    assert_eq!(p.congestion, "bbr");
    assert_eq!(p.bbr_profile, "conservative");
    let v = json(r#"{"quicParams":{}}"#);
    let p = parse_quic_params(Some(&v)).unwrap().unwrap();
    assert_eq!(p.bbr_profile, "standard");
    assert_eq!(p.congestion, "");
    let v = json(r#"{"quicParams":{"udpHop":{"ports":20800,"interval":7}}}"#);
    let p = parse_quic_params(Some(&v)).unwrap().unwrap();
    let hop = p.udp_hop.unwrap();
    assert_eq!(hop.ports, vec![20800]);
    assert_eq!((hop.interval_min, hop.interval_max), (7, 7));
    let v = json(r#"{"quicParams":{"udpHop":{"interval":"20-10"}}}"#);
    let p = parse_quic_params(Some(&v)).unwrap().unwrap();
    let hop = p.udp_hop.unwrap();
    assert_eq!((hop.interval_min, hop.interval_max), (10, 20));
}

#[test]
fn validation_rejects_go_parity() {
    let bad = |text: &str| {
        let e = parse_quic_params(Some(&json(text))).unwrap_err();
        assert_eq!(e.kind(), ErrorKind::InvalidInput, "{text}");
    };
    bad(r#"{"quicParams":{"congestion":"vegas"}}"#);
    bad(r#"{"quicParams":{"congestion":"force-brutal"}}"#);
    bad(r#"{"quicParams":{"bbrProfile":"turbo"}}"#);
    bad(r#"{"quicParams":{"brutalUp":"64 kbps"}}"#);
    bad(r#"{"quicParams":{"brutalDown":"1000"}}"#);
    bad(r#"{"quicParams":{"udpHop":{"interval":3}}}"#);
    bad(r#"{"quicParams":{"udpHop":{"interval":"10-4"}}}"#);
    bad(r#"{"quicParams":{"initStreamReceiveWindow":1024}}"#);
    bad(r#"{"quicParams":{"maxStreamReceiveWindow":1024}}"#);
    bad(r#"{"quicParams":{"initConnectionReceiveWindow":1024}}"#);
    bad(r#"{"quicParams":{"maxConnectionReceiveWindow":1024}}"#);
    bad(r#"{"quicParams":{"maxIdleTimeout":3}}"#);
    bad(r#"{"quicParams":{"maxIdleTimeout":121}}"#);
    bad(r#"{"quicParams":{"keepAlivePeriod":1}}"#);
    bad(r#"{"quicParams":{"keepAlivePeriod":61}}"#);
    bad(r#"{"quicParams":{"maxIncomingStreams":4}}"#);
    bad(r#"{"quicParams":{"brutalUp":"100 psi"}}"#);
    bad(r#"{"quicParams":{"udpHop":{"ports":"70000"}}}"#);
    bad(r#"{"quicParams":{"udpHop":{"ports":0}}}"#);
    bad(r#"{"quicParams":{"brutalUp":100}}"#);
    bad(r#"{"quicParams":"fast"}"#);
}

#[test]
fn refused_params_say_why() {
    let why = |text: &str| {
        parse_quic_params(Some(&json(&format!(r#"{{"quicParams":{text}}}"#))))
            .unwrap_err()
            .message()
    };
    assert_eq!(why("1"), "quicParams: expected an object");
    assert_eq!(why(r#"{"bbrProfile":"turbo"}"#), "unknown bbr profile");
    assert_eq!(
        why(r#"{"brutalDown":[]}"#),
        "quicParams: brutalDown must be a bandwidth string like \"100 mbps\""
    );
    assert_eq!(
        why(r#"{"brutalUp":"64 kbps"}"#),
        "BrutalUp must be at least 65536 bytes per second"
    );
    assert_eq!(why(r#"{"congestion":"force-brutal"}"#), "force-brutal requires up");
    assert_eq!(
        why(r#"{"congestion":"VEGAS"}"#),
        "unknown congestion control: vegas, valid values: reno, bbr, brutal, force-brutal"
    );
    assert_eq!(why(r#"{"udpHop":7}"#), "udpHop: expected an object");
    assert_eq!(why(r#"{"udpHop":{"ports":"1-x"}}"#), "invalid port range");
    assert_eq!(why(r#"{"udpHop":{"ports":"x"}}"#), "invalid port");
    assert_eq!(why(r#"{"udpHop":{"interval":"7"}}"#), "invalid interval");
    assert_eq!(why(r#"{"udpHop":{"interval":4}}"#), "Interval must be at least 5");
    assert_eq!(
        why(r#"{"maxStreamReceiveWindow":5}"#),
        "MaxStreamReceiveWindow must be at least 16384"
    );
    assert_eq!(why(r#"{"maxIdleTimeout":3}"#), "MaxIdleTimeout must be between 4 and 120");
    assert_eq!(why(r#"{"keepAlivePeriod":61}"#), "KeepAlivePeriod must be between 2 and 60");
    assert_eq!(why(r#"{"maxIncomingStreams":7}"#), "MaxIncomingStreams must be at least 8");
}

#[test]
fn ports_may_be_listed_in_any_form() {
    let ports = |text: &str| {
        parse_quic_params(Some(&json(&format!(r#"{{"quicParams":{{"udpHop":{{"ports":{text}}}}}}}"#))))
            .map(|p| p.unwrap().udp_hop.unwrap().ports)
    };
    assert_eq!(ports(r#"" 5 - 3 ,, +9 ""#).unwrap(), vec![3, 4, 5, 9]);
    assert_eq!(ports(r#""""#).unwrap(), Vec::<u32>::new());
    assert_eq!(ports("4294967297").unwrap(), vec![1]);
    assert!(ports("-4").is_err());
    assert!(ports("[1]").is_err());
    assert_eq!(ports(r#""1-65535""#).unwrap().len(), 65535);
}

#[test]
fn validation_boundary_values_pass() {
    let v = json(
        r#"{"quicParams":{
            "congestion":"force-brutal",
            "brutalUp":"512 kbps",
            "udpHop":{"interval":5},
            "initStreamReceiveWindow":16384,
            "maxIdleTimeout":4,
            "keepAlivePeriod":2,
            "maxIncomingStreams":8
        }}"#,
    );
    let p = parse_quic_params(Some(&v)).unwrap().unwrap();
    assert_eq!(p.brutal_up, 65_536);
    assert_eq!(p.max_idle_timeout, 4);
    assert_eq!(p.keep_alive_period, 2);
    assert_eq!(p.max_incoming_streams, 8);
}

#[test]
fn quic_config_from_params_defaults() {
    let p = QuicParams::default();
    let cfg = QuicConfig::from_params(&p);
    assert_eq!(cfg.initial_stream_receive_window, 8_388_608);
    assert_eq!(cfg.max_stream_receive_window, 8_388_608);
    assert_eq!(cfg.initial_connection_receive_window, 20_971_520);
    assert_eq!(cfg.max_connection_receive_window, 20_971_520);
    assert_eq!(cfg.max_idle_timeout_ms, 30_000);
    assert!(cfg.enable_datagrams);
    assert_eq!(cfg.max_datagram_frame_size, 1200);
    assert_eq!(cfg.max_incoming_streams, 1024);
}

#[test]
fn quic_config_from_params_explicit() {
    let p = QuicParams {
        init_stream_receive_window: 100_000,
        max_stream_receive_window: 200_000,
        init_conn_receive_window: 300_000,
        max_conn_receive_window: 400_000,
        max_idle_timeout: 60,
        keep_alive_period: 5,
        disable_path_mtu_discovery: true,
        max_incoming_streams: 256,
        ..QuicParams::default()
    };
    let cfg = QuicConfig::from_params(&p);
    assert_eq!(cfg.initial_stream_receive_window, 100_000);
    assert_eq!(cfg.max_stream_receive_window, 200_000);
    assert_eq!(cfg.initial_connection_receive_window, 300_000);
    assert_eq!(cfg.max_connection_receive_window, 400_000);
    assert_eq!(cfg.max_idle_timeout_ms, 60_000);
    assert_eq!(cfg.keep_alive_period_ms, 5_000);
    assert!(cfg.disable_path_mtu_discovery);
    assert_eq!(cfg.max_incoming_streams, 256);
}

#[test]
fn quic_config_default_for_hysteria() {
    let cfg = QuicConfig::default_for_hysteria();
    assert!(cfg.enable_datagrams);
    assert_eq!(cfg.max_datagram_frame_size, 1200);
    assert_eq!(cfg.bbr_profile, "standard");
}

#[test]
fn transport_config_maps_all_quic_fields() {
    let qp = QuicParams {
        congestion: "bbr".into(),
        bbr_profile: "aggressive".into(),
        brutal_up: 13_107_200,
        init_stream_receive_window: 16_384,
        max_stream_receive_window: 65_536,
        init_conn_receive_window: 32_768,
        max_conn_receive_window: 131_072,
        max_idle_timeout: 45,
        keep_alive_period: 15,
        disable_path_mtu_discovery: true,
        max_incoming_streams: 64,
        ..QuicParams::default()
    };
    let qc = QuicConfig::from_params(&qp);
    assert_eq!(qc.max_idle_timeout_ms, 45_000);
    assert_eq!(qc.keep_alive_period_ms, 15_000);
    assert_eq!(qc.max_incoming_streams, 64);
    assert!(qc.disable_path_mtu_discovery);
    assert_eq!(qc.congestion, "bbr");
    assert_eq!(qc.bbr_profile, "aggressive");
    assert_eq!(qc.brutal_up, 13_107_200);
    assert_eq!(receive_windows(&qc), (65_536, 131_072));
    let plan = transport_plan(&qc);
    assert_eq!(plan.max_idle_timeout_ms, Some(45_000));
    assert_eq!(plan.keep_alive_ms, Some(15_000));
    assert_eq!(plan.max_streams, Some(64));
    assert_eq!(plan.stream_receive_window, Some(65_536));
    assert_eq!(plan.receive_window, Some(131_072));
    assert_eq!(plan.datagram_receive_buffer, Some(8192));
    assert!(plan.no_mtu_discovery);
}

#[test]
fn transport_config_default_windows() {
    let qc = QuicConfig::from_params(&QuicParams::default());
    assert_eq!(receive_windows(&qc), (8_388_608, 20_971_520));
    assert!(!qc.disable_path_mtu_discovery);
    assert_eq!(qc.keep_alive_period_ms, 0);
    assert_eq!(transport_plan(&qc).keep_alive_ms, None);
}

// Disguises.

#[test]
fn parse_udp_obfs_none_cases() {
    assert!(parse_udp_obfs(None).unwrap().is_none());
    assert!(parse_udp_obfs(Some(&json(r#"{"tcp":[]}"#))).unwrap().is_none());
    assert!(parse_udp_obfs(Some(&json(r#"{"udp":[]}"#))).unwrap().is_none());
}

fn obfs_with(packet_size: &str) -> String {
    format!(
        r#"{{"udp":[{{"type":"salamander","settings":{{"password":"obfs-secret-1","packetSize":{packet_size}}}}}]}}"#
    )
}

#[test]
fn parse_udp_obfs_plain_salamander() {
    let v = json(r#"{"udp":[{"type":"salamander","settings":{"password":"obfs-secret-1"}}]}"#);
    assert!(matches!(parse_udp_obfs(Some(&v)).unwrap(), Some(UdpObfs::Salamander(_))));
    for ps in ["0", "\"0\"", "\"\""] {
        let v = json(&obfs_with(ps));
        assert!(
            matches!(parse_udp_obfs(Some(&v)).unwrap(), Some(UdpObfs::Salamander(_))),
            "ps={ps}"
        );
    }
}

#[test]
fn parse_udp_obfs_gecko_mode() {
    for (ps, sizes) in
        [("\"512-1200\"", (512, 1200)), ("1500", (1500, 1500)), ("\"1200-512\"", (512, 1200))]
    {
        match parse_udp_obfs(Some(&json(&obfs_with(ps)))).unwrap() {
            Some(UdpObfs::Gecko(cfg)) => {
                assert_eq!(cfg.password, "obfs-secret-1");
                assert_eq!((cfg.min_packet_size, cfg.max_packet_size), sizes);
            },
            other => panic!("expected gecko, got {other:?}"),
        }
    }
}

#[test]
fn parse_udp_obfs_rejects_bad_config() {
    let bad = |text: &str| parse_udp_obfs(Some(&json(text))).unwrap_err().message();
    assert_eq!(
        bad(r#"{"udp":[{"type":"noise","settings":{}}]}"#),
        "hysteria finalmask: unsupported udp mask type \"noise\" (supported: salamander)"
    );
    assert_eq!(
        bad(r#"{"udp":[{"type":"salamander","settings":{"password":"ab"}}]}"#),
        "hysteria finalmask salamander: password must be at least 4 bytes"
    );
    assert_eq!(
        bad(&obfs_with(r#"{"from":512,"to":1200}"#)),
        "hysteria finalmask: invalid packetSize, expected integer or \"from-to\" string"
    );
    for ps in ["\"0-1200\"", "\"-512-1200\"", "\"512-2049\"", "\"512-4096\""] {
        assert_eq!(
            bad(&obfs_with(ps)),
            "hysteria finalmask: gecko: invalid min/max packet size",
            "ps={ps}"
        );
    }
    assert_eq!(
        bad(
            r#"{"udp":[{"type":"salamander","settings":{"password":"obfs-secret-1"}},{"type":"salamander","settings":{"password":"obfs-secret-2"}}]}"#
        ),
        "hysteria finalmask: multiple salamander entries unsupported"
    );
}

#[test]
fn ranges_may_be_negative() {
    assert_eq!(parse_range_string("114").unwrap(), (114, 114));
    assert_eq!(parse_range_string("").unwrap(), (0, 0));
    assert_eq!(parse_range_string("114-514").unwrap(), (114, 514));
    assert_eq!(parse_range_string("-114-514").unwrap(), (-114, 514));
    assert_eq!(parse_range_string("-1919--810").unwrap(), (-1919, -810));
    assert_eq!(parse_range_string("-5").unwrap(), (-5, -5));
    for bad in ["x", "-", "1-", "-1-", "1--", "--1", "1 - 2"] {
        assert_eq!(
            parse_range_string(bad).unwrap_err().message(),
            format!("invalid range string: {bad}")
        );
    }
}

#[test]
fn salamander_empty_key_noop() {
    let mut data = b"hello".to_vec();
    salamander_obfuscate(&mut data, b"");
    assert_eq!(&data, b"hello");
}

#[test]
fn salamander_xor_roundtrip() {
    let original = b"test data 123".to_vec();
    let key = b"secret";
    let mut data = original.clone();
    salamander_obfuscate(&mut data, key);
    assert_ne!(&data, &original, "XOR should change data");
    salamander_obfuscate(&mut data, key);
    assert_eq!(&data, &original, "double XOR should restore");
}

#[test]
fn salamander_key_shorter_than_data() {
    let key = b"ab";
    let data = b"abcdef".to_vec();
    let mut encrypted = data.clone();
    salamander_obfuscate(&mut encrypted, key);
    assert_eq!(encrypted[0], b'a' ^ b'a');
    assert_eq!(encrypted[1], b'b' ^ b'b');
    assert_eq!(encrypted[2], b'c' ^ b'a');
    assert_eq!(encrypted[3], b'd' ^ b'b');
}

// Clients.

fn destination(host: &str) -> DialDestination {
    DialDestination {
        udp_addr: SocketAddress::new(IpAddress::V4(0x7F00_0001), 443),
        host: host.into(),
    }
}

#[test]
fn stub_dialer_returns_connection_closed() {
    let factory = StubDialerFactory;
    assert!(matches!(
        factory.dial_tcp(&destination("example.com")),
        Err(HysteriaError::ConnectionClosed)
    ));
    assert!(matches!(
        factory.dial_udp(&destination("example.com")),
        Err(HysteriaError::ConnectionClosed)
    ));
}

#[test]
fn client_status_initial_null() {
    let client = HysteriaClient::new(
        destination("example.com"),
        default_hysteria_config(),
        QuicParams::default(),
    );
    assert_eq!(client.status(), Status::Null);
}

#[test]
fn client_manager_dedupes_by_dest() {
    let mut mgr = ClientManager::new();
    let c1 = mgr.get_or_create(
        destination("example.com"),
        default_hysteria_config(),
        QuicParams::default(),
    );
    let c2 = mgr.get_or_create(
        destination("example.com"),
        default_hysteria_config(),
        QuicParams::default(),
    );
    assert_eq!(c1, c2);
    assert_eq!(mgr.len(), 1);
    let c3 = mgr.get_or_create(
        destination("example.org"),
        default_hysteria_config(),
        QuicParams::default(),
    );
    assert_ne!(c1, c3);
    assert_eq!(mgr.len(), 2);
}

#[test]
fn a_client_connects_once_and_numbers_its_sessions() {
    let here = SocketAddress::new(IpAddress::V4(1), 1);
    let params = QuicParams { brutal_down: 9, ..QuicParams::default() };
    let config = HysteriaConfig { auth: "pw".into(), ..default_hysteria_config() };
    let mut client = HysteriaClient::new(destination("example.com"), config, params);
    assert!(matches!(client.udp(here, here, 0), Err(HysteriaError::ConnectionClosed)));
    match client.ensure_connected() {
        ConnectStep::Dial { close_first, auth, brutal_down, quic_config } => {
            assert!(!close_first);
            assert_eq!(auth, "pw");
            assert_eq!(brutal_down, 9);
            assert_eq!(quic_config.max_incoming_streams, 1024);
        },
        ConnectStep::Ready => panic!("there is no connection"),
    }
    assert!(matches!(
        client.dialed(Err("refused".into())),
        Err(HysteriaError::Io(text)) if text == "refused"
    ));
    assert_eq!(client.status(), Status::Null);
    client.dialed(Ok(())).unwrap();
    assert_eq!(client.status(), Status::Active);
    assert_eq!(client.ensure_connected(), ConnectStep::Ready);
    assert_eq!(client.udp(here, here, 0).unwrap(), (1, true));
    assert_eq!(client.udp(here, here, 0).unwrap(), (2, false));
    assert!(client.close());
    assert_eq!(client.status(), Status::Null);
    assert!(!client.close());
}

#[test]
fn clients_of_one_address_on_two_links_differ() {
    let on = |flowinfo: u32, scope_id: u32| DialDestination {
        udp_addr: SocketAddress::V6 { ip: 0xFE80 << 112 | 1, port: 443, flowinfo, scope_id },
        host: "a".to_string(),
    };
    let mut mgr = ClientManager::new();
    let mut at = |dest| mgr.get_or_create(dest, default_hysteria_config(), QuicParams::default());
    assert_eq!(at(on(0, 1)), 0);
    assert_eq!(at(on(0, 2)), 1);
    assert_eq!(at(on(7, 1)), 0);
    assert_eq!(on(7, 1).udp_addr.port(), 443);
}

#[test]
fn clients_that_have_failed_are_forgotten() {
    let mut mgr = ClientManager::new();
    for host in ["a", "b", "c"] {
        mgr.get_or_create(destination(host), default_hysteria_config(), QuicParams::default());
    }
    mgr.clients[1].dialed(Ok(())).unwrap();
    mgr.clients[1].status = Status::Inactive;
    assert!(matches!(
        mgr.clients[1].status(),
        Status::Inactive
    ));
    let ended = mgr.clean_inactive();
    assert_eq!(ended.len(), 1);
    assert_eq!(ended[0].dest.host, "b");
    assert_eq!(ended[0].status(), Status::Null);
    assert!(!ended[0].connected);
    assert_eq!(mgr.len(), 2);
    assert_eq!(mgr.clients[1].dest.host, "c");
}

// Plans.

#[test]
fn a_destination_has_to_be_an_address() {
    let ip = IpAddress::V6(1);
    assert_eq!(
        resolve_dest_to_socket_addr(&Address::Ip(ip), 7).unwrap(),
        SocketAddress::new(ip, 7)
    );
    let e = resolve_dest_to_socket_addr(&Address::Domain("example.com".into()), 7).unwrap_err();
    assert_eq!(e.kind(), ErrorKind::InvalidInput);
    assert_eq!(
        e.message(),
        "hysteria requires IP address destination (domain not supported yet, needs DNS resolution)"
    );
}

#[test]
fn plans_follow_from_the_settings() {
    let plan = listen_plan(
        Some(&json(r#"{"auth":"pw","masqType":"FILE"}"#)),
        Some(&json(&obfs_with("0"))),
    )
    .unwrap();
    assert_eq!(plan.config.auth, "pw");
    assert_eq!(plan.masq, MasqType::File(String::new()));
    assert_eq!(plan.obfs, Some(UdpObfs::Salamander("obfs-secret-1".into())));
    assert_eq!(plan.quic_params.bbr_profile, "standard");
    let e = listen_plan(Some(&json(r#"{"masqType":"Magic"}"#)), None).unwrap_err();
    assert_eq!(e.kind(), ErrorKind::Other);
    assert_eq!(e.message(), "hysteria masq config: unknown masq type: magic");

    let ip = IpAddress::V4(0x0102_0304);
    let plan = dial_plan(&Address::Ip(ip), 443, "name", None).unwrap();
    assert_eq!(plan.dest.host, "name");
    assert_eq!(plan.dest.udp_addr, SocketAddress::new(ip, 443));
    assert!(plan.obfs.is_none());
    assert!(dial_plan(&Address::Domain("d".into()), 1, "d", None).is_err());
}
