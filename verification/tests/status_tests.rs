use routerctl::associate::ScannedWifi;
use routerctl::error::ClientError;
use routerctl::frames::display_ssid;
use routerctl::frames::list_frame;
use routerctl::frames::normalize_ssid;
use routerctl::frames::signal_of;
use routerctl::frames::status_frame;
use routerctl::speed::RouterInfo;
use routerctl::speed::parse_speed;
use routerctl::speed::router_line;
use routerctl::speed::speed_unit;
use routerctl::text::u64_to_string;

fn wifi(ssid: &str, signal: &str) -> ScannedWifi {
    ScannedWifi {
        channel: String::from("1"),
        ssid: String::from(ssid),
        bssid: String::from("00:00:00:00:00:01"),
        security: String::from("OPEN"),
        signal: String::from(signal),
        ext_ch: String::from("0"),
    }
}

#[test]
fn unit_below_one_kib_is_bytes() {
    assert_eq!(speed_unit(0), "B/s");
    assert_eq!(speed_unit(500), "B/s");
    assert_eq!(speed_unit(1023), "B/s");
}

#[test]
fn unit_midrange_is_kilobytes() {
    assert_eq!(speed_unit(1024), "KB/s");
    assert_eq!(speed_unit(150000), "KB/s");
    assert_eq!(speed_unit(1049087), "KB/s");
}

#[test]
fn unit_rounding_past_1024_kib_is_megabytes() {
    // 1049088 / 1024 = 1024.5, which rounds to 1025 > 1024.
    assert_eq!(speed_unit(1049088), "MB/s");
    assert_eq!(speed_unit(u64::MAX), "MB/s");
}

#[test]
fn parse_speed_reads_plain_and_fractional_decimals() {
    assert_eq!(parse_speed("500.0"), 500);
    assert_eq!(parse_speed("150000.0"), 150000);
    assert_eq!(parse_speed("0"), 0);
    assert_eq!(parse_speed("12.75"), 12);
    assert_eq!(parse_speed("5."), 5);
    assert_eq!(parse_speed("18446744073709551615"), u64::MAX);
}

#[test]
fn parse_speed_defaults_unreadable_fields_to_zero() {
    assert_eq!(parse_speed(""), 0);
    assert_eq!(parse_speed("abc"), 0);
    assert_eq!(parse_speed(".5"), 0);
    assert_eq!(parse_speed("1.2.3"), 0);
    assert_eq!(parse_speed("12x"), 0);
    assert_eq!(parse_speed("1,5"), 0);
    assert_eq!(parse_speed("18446744073709551616"), 0);
}

#[test]
fn decimal_formatting_round_trips_through_parsing() {
    assert_eq!(u64_to_string(0), "0");
    assert_eq!(u64_to_string(7), "7");
    assert_eq!(u64_to_string(1234567890), "1234567890");
    assert_eq!(u64_to_string(u64::MAX), "18446744073709551615");
    for n in [0u64, 9, 10, 999, 1024, 150000, u64::MAX] {
        assert_eq!(parse_speed(&u64_to_string(n)), n);
    }
}

#[test]
fn speed_line_renders_expected_units_end_to_end() {
    // 500 bytes/s and 150000 bytes/s must be shown with B/s and KB/s.
    let info = RouterInfo { upspeed: 500, downspeed: 150000 };
    let line = router_line(&info);
    let expected = format!(
        "↑ \u{1b}[1m500\u{1b}[0m \u{1b}[2mB/s\u{1b}[0m \t ↓ \u{1b}[1m150000\u{1b}[0m \u{1b}[2mKB/s\u{1b}[0m"
    );
    assert_eq!(line, expected);
    assert!(line.contains("B/s"));
    assert!(line.contains("KB/s"));
}

#[test]
fn status_frame_has_three_labelled_lines() {
    let info = RouterInfo { upspeed: 500, downspeed: 150000 };
    let f = status_frame("HomeNet", "42", &info);
    assert_eq!(f.lines.len(), 3);
    assert_eq!(f.lines[0], "    SSID: HomeNet");
    assert_eq!(f.lines[1], "  Signal: 42");
    assert_eq!(
        f.lines[2],
        format!("   Speed: {}", router_line(&info)),
    );
}

#[test]
fn list_frame_pads_columns_like_the_header() {
    let list = vec![wifi("HomeNet", "80"), wifi("CafeWifi", "41")];
    let f = list_frame(&list);
    assert_eq!(f.lines.len(), 3);
    assert_eq!(f.lines[0], format!("{:<30} {:<5}", "SSID", "SIGNAL"));
    assert_eq!(f.lines[1], format!("{:<30} {:<5}", "HomeNet", "80"));
    assert_eq!(f.lines[2], format!("{:<30} {:<5}", "CafeWifi", "41"));
}

#[test]
fn list_frame_of_empty_scan_is_just_the_header() {
    let f = list_frame(&vec![]);
    assert_eq!(f.lines.len(), 1);
}

#[test]
fn list_frame_keeps_long_names_unpadded() {
    let long = "a-network-name-well-beyond-thirty-characters";
    let f = list_frame(&vec![wifi(long, "9")]);
    assert_eq!(f.lines[1], format!("{long} 9    "));
}

#[test]
fn signal_of_takes_first_matching_entry() {
    let list = vec![wifi("Other", "10"), wifi("HomeNet", "77"), wifi("HomeNet", "99")];
    assert_eq!(signal_of(&list, "HomeNet", "0"), "77");
}

#[test]
fn signal_of_keeps_previous_value_when_absent() {
    let list = vec![wifi("Other", "10")];
    assert_eq!(signal_of(&list, "HomeNet", "42"), "42");
}

#[test]
fn normalize_ssid_maps_null_marker_to_none() {
    assert_eq!(normalize_ssid("NULL"), None);
    assert_eq!(normalize_ssid("HomeNet"), Some(String::from("HomeNet")));
}

#[test]
fn display_ssid_falls_back_to_placeholder() {
    assert_eq!(display_ssid(&None, "UNKNOWN"), "UNKNOWN");
    assert_eq!(display_ssid(&Some(String::from("HomeNet")), "UNKNOWN"), "HomeNet");
}

#[test]
fn error_messages_name_their_kind() {
    assert_eq!(
        ClientError::Transport(String::from("no route")).message(),
        "transport error: no route",
    );
    assert_eq!(
        ClientError::Protocol(String::from("bad shape")).message(),
        "protocol error: bad shape",
    );
    assert_eq!(ClientError::NotFound.message(), "association target not found");
}
