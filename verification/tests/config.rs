use hit_auto_login_core::{Configuration, DEFAULT_SSID};

#[test]
fn default_configuration() {
    let c = Configuration::default();
    assert_eq!(c.username, "");
    assert_eq!(c.password, "");
    assert_eq!(c.ssid, DEFAULT_SSID);
    assert_eq!(c.ssid, "HIT-WLAN");
    assert!(c.launch_at_login);
    assert!(!c.credentials_present());
}

#[test]
fn normalize_trims_and_defaults() {
    let mut c = Configuration {
        username: "  2024000000\u{3000}".into(),
        password: " secret ".into(),
        ssid: " \t ".into(),
        launch_at_login: false,
    };
    c.normalize();
    assert_eq!(c.username, "2024000000");
    assert_eq!(c.password, " secret ");
    assert_eq!(c.ssid, "HIT-WLAN");
    assert!(!c.launch_at_login);
    let once = c.clone();
    c.normalize();
    assert_eq!(c, once);
}

#[test]
fn normalize_keeps_a_named_network() {
    let mut c = Configuration { ssid: " Lab Net ".into(), ..Configuration::default() };
    c.normalize();
    assert_eq!(c.ssid, "Lab Net");
}

#[test]
fn credentials_need_a_name_and_a_password() {
    let mut c = Configuration { username: "   ".into(), password: "p".into(), ..Configuration::default() };
    assert!(!c.credentials_present());
    c.username = " u ".into();
    assert!(c.credentials_present());
    c.password = String::new();
    assert!(!c.credentials_present());
    c.password = " ".into();
    assert!(c.credentials_present());
}

#[test]
fn console_answers_replace_only_what_was_typed() {
    let mut c = Configuration {
        username: "old".into(),
        password: "secret".into(),
        ..Default::default()
    };
    c.apply_console_answers("  \n", "");
    assert_eq!(c.username, "old");
    assert_eq!(c.password, "secret");
    c.apply_console_answers(" 2024000000\n", " new pass ");
    assert_eq!(c.username, "2024000000");
    assert_eq!(c.password, " new pass ");
    assert_eq!(c.ssid, DEFAULT_SSID);
    assert!(c.launch_at_login);
}
