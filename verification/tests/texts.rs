use udp_transports::hysteria::headers::{copy_headers, find_header, push_header};
use udp_transports::json::{Json, Number, SettingsError};
use udp_transports::kcp::config::{default_config, ConfigExt};
use udp_transports::kcp::connection::{Action, ConnMetadata, Connection};
use udp_transports::kcp::segment::{CmdOnlySegment, Command, SegmentKind, SEGMENT_OPTION_CLOSE};
use udp_transports::kcp::state::State;
use udp_transports::text::{
    chars_of, join, parse_signed, parse_unsigned, push_decimal, push_signed_decimal, same_text,
    split_chars, string_of, to_lower, trim,
};
use udp_transports::wire::{get_u16, get_u32, push_bytes, set_u16, set_u32};

#[test]
fn numbers_are_read_back_as_they_were_written() {
    for n in [0, 7, 10, 99, 1234567890, u64::MAX] {
        let mut s = String::new();
        push_decimal(&mut s, n);
        assert_eq!(s, n.to_string());
        assert_eq!(parse_unsigned(&chars_of(&s), u64::MAX), Some(n));
    }
    for n in [0, -1, 42, i64::MAX, i64::MIN] {
        let mut s = String::new();
        push_signed_decimal(&mut s, n);
        assert_eq!(s, n.to_string());
        assert_eq!(parse_signed(&chars_of(&s)), Some(n));
    }
}

#[test]
fn numbers_are_read_as_std_reads_them() {
    for s in ["", "+", "-", "+5", "-5", "5 ", "0x5", "00012", "256", "-0", "5-", "++5"] {
        assert_eq!(
            parse_unsigned(&chars_of(s), 255).map(|n| n as u8),
            s.parse::<u8>().ok().filter(|_| !s.starts_with('-')),
            "{s:?}"
        );
        assert_eq!(parse_signed(&chars_of(s)), s.parse::<i64>().ok(), "{s:?}");
    }
    assert_eq!(parse_signed(&chars_of("9223372036854775808")), None);
    assert_eq!(parse_unsigned(&chars_of("18446744073709551616"), u64::MAX), None);
}

#[test]
fn texts_are_cut_as_std_cuts_them() {
    for s in ["", " ", "\u{3000}a b\t\n", "a", "\u{a0}x\u{2003}", "\u{200b}x", "  a  "] {
        assert_eq!(string_of(&trim(&chars_of(s))), s.trim(), "{s:?}");
    }
    for s in ["", ",", "a,b", ",a,,b,", "abc"] {
        let parts: Vec<String> =
            split_chars(&chars_of(s), ',').iter().map(|p| string_of(p)).collect();
        let expected: Vec<&str> = s.split(',').collect();
        assert_eq!(parts, expected, "{s:?}");
    }
    for s in ["", "AbC", "ÄÖÜ", "A1-z"] {
        assert_eq!(to_lower(s), s.to_ascii_lowercase());
    }
    assert_eq!(join("ab", "cd"), "abcd");
    assert!(same_text("x", "x") && !same_text("x", "X") && !same_text("x", "xx"));
}

#[test]
fn bytes_are_in_network_order() {
    let mut buf = vec![0u8; 8];
    set_u16(&mut buf, 1, 0x0102);
    set_u32(&mut buf, 3, 0x03040506);
    assert_eq!(buf, vec![0, 1, 2, 3, 4, 5, 6, 0]);
    assert_eq!(get_u16(&buf, 1), 0x0102);
    assert_eq!(get_u32(&buf, 3), 0x03040506);
    push_bytes(&mut buf, &[9]);
    assert_eq!(buf.len(), 9);
}

#[test]
fn values_are_what_they_are() {
    let v = Json::Object(vec![
        ("n".into(), Json::Number(Number::Unsigned(u64::MAX))),
        ("m".into(), Json::Number(Number::Negative(-3))),
        ("f".into(), Json::Number(Number::Fraction)),
        ("s".into(), Json::Text("t".into())),
        ("b".into(), Json::Bool(true)),
    ]);
    assert_eq!(v.get("n").unwrap().as_u64(), Some(u64::MAX));
    assert_eq!(v.get("n").unwrap().as_i64(), None);
    assert_eq!(v.get_i64("m", 9), -3);
    assert_eq!(v.get_u64("m"), 0);
    assert_eq!(v.get_i64("f", 9), 9);
    assert_eq!(v.get_text("s"), "t");
    assert_eq!(v.get_text("b"), "");
    assert!(v.get_bool("b"));
    assert!(!v.get_bool("s"));
    assert!(v.get("missing").is_none());
    assert!(Json::Null.get("n").is_none());
    assert_eq!(SettingsError::input("why").message(), "why");
}

#[test]
fn headers_are_found_by_name() {
    let mut h = Vec::new();
    push_header(&mut h, "A", "1");
    push_header(&mut h, "A", "2");
    push_header(&mut h, "B", "");
    let copy = copy_headers(&h);
    assert_eq!(find_header(&copy, "A"), Some("1"));
    assert_eq!(find_header(&copy, "B"), Some(""));
    assert_eq!(find_header(&copy, "b"), None);
}

#[test]
fn at_least_eight_segments_may_be_on_their_way() {
    let mut c = default_config();
    for capacity in [0, 1, 4095, 4096, u32::MAX] {
        for mtu in [0, 1, 1350, u32::MAX] {
            c.uplink_capacity = capacity;
            c.mtu = mtu;
            assert!(c.get_sending_in_flight_size() >= 8);
        }
    }
}

#[test]
fn a_connection_only_moves_on() {
    let mut conn = Connection::new_without_updater(ConnMetadata::new(1), default_config());
    let mut close = CmdOnlySegment::new();
    close.conv = 1;
    close.cmd = Command::Ping;
    close.option = SEGMENT_OPTION_CLOSE;
    assert!(conn.close(10).0.is_ok());
    conn.input(vec![SegmentKind::Cmd(close)], 20);
    assert_eq!(conn.state(), State::Terminating);
    conn.input(vec![SegmentKind::Cmd(close)], 30);
    assert_eq!(conn.state(), State::Terminating);
    let mut end = close;
    end.cmd = Command::Terminate;
    conn.input(vec![SegmentKind::Cmd(end)], 40);
    assert_eq!(conn.state(), State::Terminated);
    conn.input(vec![SegmentKind::Cmd(close)], 50);
    assert_eq!(conn.state(), State::Terminated);
}

#[test]
fn deadlines_and_waking() {
    let mut conn = Connection::new_without_updater(ConnMetadata::new(1), default_config());
    assert!(conn.set_read_deadline(Some(5)).is_ok());
    assert!(conn.set_write_deadline(Some(6)).is_ok());
    assert_eq!((conn.read_deadline, conn.write_deadline), (Some(5), Some(6)));
    assert!(matches!(conn.notify_data_input(), Action::NotifyInputOne));
    assert!(matches!(conn.notify_data_output(), Action::NotifyOutputOne));
    conn.handle_option(0, 7);
    assert_eq!(conn.state(), State::Active);
    conn.handle_option(SEGMENT_OPTION_CLOSE, 7);
    assert_eq!(conn.state(), State::PeerClosed);
    conn.on_peer_closed(8);
    assert_eq!(conn.state(), State::PeerClosed);
    conn.set_state(State::Terminated, 9);
    assert!(conn.set_read_deadline(None).is_err());
    assert!(State::Terminated.is_terminated());
}
