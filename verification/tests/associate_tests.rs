use routerctl::associate::AssociationRetrier;
use routerctl::associate::ScanDecision;
use routerctl::associate::ScannedWifi;
use routerctl::associate::WlanInfo;
use routerctl::associate::build_request;
use routerctl::associate::find_target;
use routerctl::associate::run_retrier;
use routerctl::associate::split_security;
use routerctl::error::ClientError;

fn wifi(ssid: &str, security: &str, signal: &str) -> ScannedWifi {
    ScannedWifi {
        channel: String::from("6"),
        ssid: String::from(ssid),
        bssid: String::from("aa:bb:cc:dd:ee:ff"),
        security: String::from(security),
        signal: String::from(signal),
        ext_ch: String::from("0"),
    }
}

fn wlan(psk: Option<&str>) -> WlanInfo {
    WlanInfo {
        wlanssid: String::from("Uplink"),
        wlanpswmode: String::from("WPA2PSK"),
        wlanpswencry: String::from("AES"),
        wlanpsw: psk.map(String::from),
    }
}

#[test]
fn security_with_slash_splits_into_mode_and_cipher() {
    let (mode, cipher) = split_security("WPA2/AES");
    assert_eq!(mode, "WPA2");
    assert_eq!(cipher, "AES");
}

#[test]
fn security_without_slash_keeps_mode_and_marks_cipher_undefined() {
    let (mode, cipher) = split_security("OPEN");
    assert_eq!(mode, "OPEN");
    assert_eq!(cipher, "undefined");
}

#[test]
fn security_splits_at_first_slash_only() {
    let (mode, cipher) = split_security("WPA1PSKWPA2PSK/TKIPAES/X");
    assert_eq!(mode, "WPA1PSKWPA2PSK");
    assert_eq!(cipher, "TKIPAES/X");
}

#[test]
fn security_empty_descriptor() {
    let (mode, cipher) = split_security("");
    assert_eq!(mode, "");
    assert_eq!(cipher, "undefined");
}

#[test]
fn security_leading_slash_gives_empty_mode() {
    let (mode, cipher) = split_security("/AES");
    assert_eq!(mode, "");
    assert_eq!(cipher, "AES");
}

#[test]
fn request_built_from_matched_entry() {
    // A scan entry for HomeNet secured with WPA2/AES must yield a request
    // with security mode WPA2 and cipher AES.
    let w = wifi("HomeNet", "WPA2/AES", "80");
    let req = build_request(&w, &wlan(Some("uplinkpass")), "secret", "admin");
    assert_eq!(req.security, "WPA2");
    assert_eq!(req.arithmetic, "AES");
    assert_eq!(req.ssid, "HomeNet");
    assert_eq!(req.bssid, "aa:bb:cc:dd:ee:ff");
    assert_eq!(req.channel, "6");
    assert_eq!(req.ext_ch, "0");
    assert_eq!(req.key, "secret");
    assert_eq!(req.wlan2ssid, "Uplink");
    assert_eq!(req.wlan2psw, "uplinkpass");
    assert_eq!(req.routepwd, "admin");
}

#[test]
fn request_defaults_secondary_key_when_device_reports_none() {
    let w = wifi("HomeNet", "OPEN", "80");
    let req = build_request(&w, &wlan(None), "secret", "admin");
    assert_eq!(req.security, "OPEN");
    assert_eq!(req.arithmetic, "undefined");
    assert_eq!(req.wlan2psw, "123456789");
}

#[test]
fn find_target_picks_first_match() {
    let list = vec![
        wifi("Other", "OPEN", "10"),
        wifi("HomeNet", "WPA2/AES", "20"),
        wifi("HomeNet", "OPEN", "30"),
    ];
    assert_eq!(find_target(&list, "HomeNet"), Some(1));
    assert_eq!(find_target(&list, "Missing"), None);
}

#[test]
fn retrier_keeps_searching_while_no_entry_matches() {
    // Across several scans without the target the machine only ever asks to
    // scan again; it never produces an association request.
    let mut r = AssociationRetrier::new(
        String::from("HomeNet"),
        String::from("secret"),
        5,
    );
    let w = wlan(None);
    for _ in 0..4 {
        let list = vec![wifi("Other", "OPEN", "10")];
        match r.on_scan(&list, &w, "admin") {
            ScanDecision::RetryScan => (),
            ScanDecision::Associate(_) => panic!("must not associate without a match"),
            ScanDecision::GiveUp => panic!("budget is not yet spent"),
        }
    }
    assert_eq!(r.attempts_left, 1);
}

#[test]
fn retrier_gives_up_when_budget_is_spent() {
    let mut r = AssociationRetrier::new(
        String::from("HomeNet"),
        String::from("secret"),
        1,
    );
    let list = vec![wifi("Other", "OPEN", "10")];
    match r.on_scan(&list, &wlan(None), "admin") {
        ScanDecision::GiveUp => (),
        _ => panic!("the single attempt is spent"),
    }
}

#[test]
fn retrier_associates_on_match() {
    let mut r = AssociationRetrier::new(
        String::from("HomeNet"),
        String::from("secret"),
        3,
    );
    let list = vec![wifi("Other", "OPEN", "10"), wifi("HomeNet", "WPA2/AES", "55")];
    match r.on_scan(&list, &wlan(Some("up")), "admin") {
        ScanDecision::Associate(req) => {
            assert_eq!(req.ssid, "HomeNet");
            assert_eq!(req.security, "WPA2");
            assert_eq!(req.arithmetic, "AES");
        },
        _ => panic!("the target is present"),
    }
    assert_eq!(r.attempts_left, 3);
}

#[test]
fn run_retrier_finds_target_on_later_scan() {
    let scans = vec![
        Ok(vec![wifi("Other", "OPEN", "10")]),
        Ok(vec![wifi("HomeNet", "WPA2/AES", "55")]),
    ];
    match run_retrier("HomeNet", "secret", "admin", &wlan(None), &scans, 5) {
        Ok(req) => {
            assert_eq!(req.ssid, "HomeNet");
            assert_eq!(req.security, "WPA2");
        },
        Err(_) => panic!("the second scan holds the target"),
    }
}

#[test]
fn run_retrier_never_associates_without_match() {
    let scans = vec![
        Ok(vec![wifi("A", "OPEN", "1")]),
        Ok(vec![wifi("B", "OPEN", "2")]),
        Ok(vec![wifi("C", "OPEN", "3")]),
    ];
    match run_retrier("HomeNet", "secret", "admin", &wlan(None), &scans, 10) {
        Err(ClientError::NotFound) => (),
        _ => panic!("no scan holds the target"),
    }
}

#[test]
fn run_retrier_stops_at_attempt_budget() {
    let scans = vec![
        Ok(vec![wifi("A", "OPEN", "1")]),
        Ok(vec![wifi("B", "OPEN", "2")]),
        Ok(vec![wifi("HomeNet", "WPA2/AES", "3")]),
    ];
    match run_retrier("HomeNet", "secret", "admin", &wlan(None), &scans, 2) {
        Err(ClientError::NotFound) => (),
        _ => panic!("the match lies beyond the attempt budget"),
    }
}

#[test]
fn run_retrier_propagates_scan_failure() {
    let scans = vec![
        Ok(vec![wifi("A", "OPEN", "1")]),
        Err(ClientError::Transport(String::from("timed out"))),
        Ok(vec![wifi("HomeNet", "WPA2/AES", "3")]),
    ];
    match run_retrier("HomeNet", "secret", "admin", &wlan(None), &scans, 5) {
        Err(ClientError::Transport(msg)) => assert_eq!(msg, "timed out"),
        _ => panic!("the failed scan aborts the search"),
    }
}

#[test]
fn run_retrier_zero_budget_reports_not_found() {
    let scans = vec![Ok(vec![wifi("HomeNet", "WPA2/AES", "3")])];
    match run_retrier("HomeNet", "secret", "admin", &wlan(None), &scans, 0) {
        Err(ClientError::NotFound) => (),
        _ => panic!("a zero budget looks at no scan"),
    }
}
