use hit_auto_login_core::connectivity::probe_reply_ok;
use hit_auto_login_core::system::{
    open_profile_xml, parse_yes_no, sanitize_command_message, systemd_quote, systemd_unit,
    wide, wlan_error, wlan_error_with_reason, xml_escape,
};
use hit_auto_login_core::CoreError;

#[test]
fn xml_escape_all_five() {
    assert_eq!(xml_escape(r#"a&b<c>d"e'f"#), "a&amp;b&lt;c&gt;d&quot;e&apos;f");
    assert_eq!(xml_escape("&amp;"), "&amp;amp;");
}

#[test]
fn open_profile_contains_name_and_hex() {
    let xml = open_profile_xml("HIT-WLAN");
    assert!(xml.starts_with(r#"<?xml version="1.0"?><WLANProfile"#));
    assert!(xml.contains("<name>HIT-WLAN</name>"));
    assert!(xml.contains("<hex>4849542D574C414E</hex>"));
    assert!(xml.contains("<authentication>open</authentication>"));
    assert!(open_profile_xml("a&b").contains("<name>a&amp;b</name><SSIDConfig><SSID><hex>612662</hex>"));
}

#[test]
fn wlan_error_texts() {
    assert_eq!(
        wlan_error("无法枚举无线网卡", 1062),
        CoreError::Wifi("无法枚举无线网卡（Windows 错误码 1062）".into())
    );
    assert_eq!(
        wlan_error_with_reason("无法创建 HIT-WLAN 配置文件", 0, 4294967295),
        CoreError::Wifi("无法创建 HIT-WLAN 配置文件（Windows 错误码 0，WLAN 原因码 4294967295）".into())
    );
}

#[test]
fn wide_is_nul_terminated_utf16() {
    assert_eq!(wide("A密🔐"), vec![0x41, 0x5BC6, 0xD83D, 0xDD10, 0]);
    assert_eq!(wide(""), vec![0]);
}

#[test]
fn command_messages_are_collapsed_and_cut() {
    assert_eq!(sanitize_command_message("  Error:\n  no  network\t"), "Error: no network");
    assert_eq!(sanitize_command_message(" \n\t "), "NetworkManager 返回失败状态");
    let long = "x".repeat(200);
    assert_eq!(sanitize_command_message(&long).chars().count(), 180);
}

#[test]
fn systemd_quoting_and_unit() {
    assert_eq!(systemd_quote(r#"/opt/a b/"x"\%"#), r#""/opt/a b/\"x\"\\%%""#);
    let unit = systemd_unit("\"/usr/bin/hit\"");
    assert!(unit.contains("ExecStart=\"/usr/bin/hit\" --autostart\n"));
    assert!(unit.contains("Restart=no"));
    assert!(unit.ends_with("WantedBy=default.target\n"));
}

#[test]
fn yes_no_answers() {
    assert_eq!(parse_yes_no("\n", true), Some(true));
    assert_eq!(parse_yes_no("", false), Some(false));
    assert_eq!(parse_yes_no(" Y ", false), Some(true));
    assert_eq!(parse_yes_no("yes\n", false), Some(true));
    assert_eq!(parse_yes_no("No", true), Some(false));
    assert_eq!(parse_yes_no("n", true), Some(false));
    assert_eq!(parse_yes_no("maybe", true), None);
}

#[test]
fn probe_replies() {
    assert!(probe_reply_ok(200, Some("www.baidu.com")));
    assert!(probe_reply_ok(404, Some("BAIDU.COM")));
    assert!(!probe_reply_ok(500, Some("www.baidu.com")));
    assert!(!probe_reply_ok(200, Some("wp.hit.edu.cn")));
    assert!(!probe_reply_ok(200, Some("notbaidu.com")));
    assert!(!probe_reply_ok(200, None));
    assert!(!probe_reply_ok(199, Some("baidu.com")));
}
