use hit_auto_login_core::portal::{
    build_portal_url, compatibility_headers, jsonp_url_text, portal_url_text, safe_portal_message,
    select_client_ip, success_or_redirect, translate_error_code,
};
use hit_auto_login_core::{FormQueryEncoder, JsonObject, PortalInterpretation, PortalResponseInterpreter};

fn object(members: &[(&str, Option<&str>)]) -> JsonObject {
    JsonObject {
        members: members
            .iter()
            .map(|(name, value)| (name.to_string(), value.map(|v| v.to_string())))
            .collect(),
    }
}

#[test]
fn form_query_encodes_srun_info_exactly() {
    let encoded = FormQueryEncoder::encode(&[("info", "{SRBX1}a+b/c==")]);
    assert_eq!(encoded, "info=%7BSRBX1%7Da%2Bb%2Fc%3D%3D");
    assert!(!encoded.contains('+'));
}

#[test]
fn login_url_is_encoded_once_and_contains_no_raw_plus() {
    let url = build_portal_url(
        "/cgi-bin/srun_portal",
        &[
            ("password", "{MD5}abc+def"),
            ("info", "{SRBX1}a+b/c=="),
            ("chksum", "123abc"),
        ],
    )
    .unwrap();
    let query = url.query().unwrap();
    assert!(!query.contains('+'));
    assert!(query.contains("password=%7BMD5%7Dabc%2Bdef"));
    assert!(query.contains("info=%7BSRBX1%7Da%2Bb%2Fc%3D%3D"));
    assert!(!query.contains("%252B"));
    let decoded = url::form_urlencoded::parse(query.as_bytes()).collect::<Vec<_>>();
    assert!(decoded.contains(&("info".into(), "{SRBX1}a+b/c==".into())));
}

#[test]
fn challenge_client_ip_has_priority_over_portal_html() {
    let challenge = object(&[("client_ip", Some("10.0.0.99"))]);
    assert_eq!(
        select_client_ip(&challenge, "10.0.0.42"),
        Some("10.0.0.99".into())
    );
}

#[test]
fn portal_ip_is_used_only_as_fallback() {
    assert_eq!(
        select_client_ip(&object(&[("client_ip", Some(""))]), "10.0.0.42"),
        Some("10.0.0.42".into())
    );
}

#[test]
fn zero_fields_do_not_become_the_error_message() {
    let response = object(&[
        ("error", Some("login_error")),
        ("error_msg", Some("0")),
        ("ecode", Some("0")),
        ("res", Some("fail")),
    ]);
    assert_eq!(
        PortalResponseInterpreter::interpret(&response),
        PortalInterpretation::Failure("认证服务器拒绝登录请求（login_error）".into())
    );
}

#[test]
fn known_error_code_is_translated() {
    let response = object(&[("error", Some("login_error")), ("ecode", Some("E2553"))]);
    assert_eq!(
        PortalResponseInterpreter::interpret(&response),
        PortalInterpretation::Failure("账号或密码错误（E2553）".into())
    );
}

#[test]
fn error_ok_wins_over_zero_ecode() {
    let response = object(&[("error", Some("ok")), ("ecode", Some("0")), ("suc_msg", Some("登录成功"))]);
    assert_eq!(
        PortalResponseInterpreter::interpret(&response),
        PortalInterpretation::Success("登录成功".into())
    );
}

#[test]
fn compatibility_headers_match_portal_expectations() {
    let headers = compatibility_headers("Linux");
    let get = |name: &str| {
        headers
            .iter()
            .find(|(key, _)| key == name)
            .map(|(_, value)| value.clone())
            .unwrap()
    };
    assert_eq!(get("accept"), "*/*");
    assert_eq!(get("accept-language"), "zh-CN,zh;q=0.9");
    assert_eq!(get("referer"), "https://wp.hit.edu.cn/");
    assert!(get("user-agent").contains("X11; Linux x86_64"));
}

#[test]
fn portal_message_does_not_keep_urls() {
    let output =
        safe_portal_message("failed https://wp.hit.edu.cn/?password=x&info=y next".into());
    assert_eq!(output, "failed <已隐藏 URL> next");
}

#[test]
fn portal_message_redacts_sensitive_assignments() {
    let output = safe_portal_message(
        "password=secret challenge:token info={SRBX1}abc chksum=deadbeef username=2024000000"
            .into(),
    );
    for secret in ["secret", "token", "{SRBX1}abc", "deadbeef", "2024000000"] {
        assert!(!output.contains(secret));
    }
}

#[test]
fn windows_user_agent_on_any_case() {
    let headers = compatibility_headers("WINDOWS");
    assert_eq!(headers[3].0, "user-agent");
    assert_eq!(
        headers[3].1,
        "Mozilla/5.0 (Windows NT 10.0; Win64; x64) AppleWebKit/537.36 (KHTML, like Gecko) Chrome/126.0 Safari/537.36 HITAutoLogin/1.0.2"
    );
}

#[test]
fn portal_message_edge_cases() {
    assert_eq!(safe_portal_message(String::new()), "未知错误");
    assert_eq!(safe_portal_message(" \t\r\n ".into()), "未知错误");
    assert_eq!(safe_portal_message("a\tb\nc".into()), "a b c");
    assert_eq!(safe_portal_message("see http://x/y".into()), "see <已隐藏 URL>");
    let long = "错".repeat(100);
    let cut = safe_portal_message(long);
    assert_eq!(cut.len(), 159);
    assert_eq!(cut.chars().count(), 53);
}

#[test]
fn already_online_is_recognised_in_any_candidate() {
    let response = object(&[("error", Some("login_error")), ("error_msg", Some("IP has been online, please logout. ALREADY_ONLINE"))]);
    assert_eq!(
        PortalResponseInterpreter::interpret(&response),
        PortalInterpretation::AlreadyOnline
    );
}

#[test]
fn e0000_success_message_is_dropped() {
    let response = object(&[("error", Some("ok")), ("ploy_msg", Some("E0000: Login is successful."))]);
    assert_eq!(
        PortalResponseInterpreter::interpret(&response),
        PortalInterpretation::Success(String::new())
    );
}

#[test]
fn failure_without_reason_is_generic() {
    assert_eq!(
        PortalResponseInterpreter::interpret(&object(&[])),
        PortalInterpretation::Failure("认证服务器拒绝登录请求".into())
    );
    assert_eq!(
        PortalResponseInterpreter::interpret(&object(&[("error", Some("0"))])),
        PortalInterpretation::Failure("认证服务器拒绝登录请求".into())
    );
}

#[test]
fn untranslated_reason_is_made_safe() {
    let response = object(&[("error", Some("login_error")), ("error_msg", Some("bad password=hunter2"))]);
    match PortalResponseInterpreter::interpret(&response) {
        PortalInterpretation::Failure(message) => {
            assert!(message.starts_with("bad password="));
            assert!(!message.contains("hunter2"));
        }
        other => panic!("unexpected {other:?}"),
    }
}

#[test]
fn error_codes_are_trimmed_and_case_insensitive() {
    let code: Vec<char> = " e2531 ".chars().collect();
    assert_eq!(
        translate_error_code(&code),
        Some("用户不存在或账号信息有误（E2531）".to_owned())
    );
    let unknown: Vec<char> = "E9999".chars().collect();
    assert_eq!(translate_error_code(&unknown), None);
}

#[test]
fn no_client_ip_anywhere() {
    assert_eq!(select_client_ip(&object(&[("client_ip", Some("0"))]), "  "), None);
    assert_eq!(select_client_ip(&object(&[]), " 10.0.0.1 "), Some("10.0.0.1".to_owned()));
}

#[test]
fn urls_and_statuses() {
    assert_eq!(
        portal_url_text("/p", &[("a b", "c&d"), ("e", "")]),
        "https://wp.hit.edu.cn/p?a+b=c%26d&e="
    );
    assert_eq!(
        jsonp_url_text("/cgi-bin/get_challenge", &vec![("username".to_owned(), "u".to_owned())], "17"),
        "https://wp.hit.edu.cn/cgi-bin/get_challenge?callback=HITAutoLogin_17&username=u&_=17"
    );
    assert!(success_or_redirect(200));
    assert!(success_or_redirect(302));
    assert!(!success_or_redirect(199));
    assert!(!success_or_redirect(400));
    assert!(!success_or_redirect(500));
}

#[test]
fn form_encoding_of_non_ascii_and_reserved_bytes() {
    assert_eq!(FormQueryEncoder::encode(&[]), "");
    assert_eq!(FormQueryEncoder::encode(&[("k", "密")]), "k=%E5%AF%86");
    assert_eq!(FormQueryEncoder::encode(&[("*-._", "~!")]), "*-._=%7E%21");
}

#[test]
fn encoded_query_reads_back_as_the_same_pairs() {
    let pairs = [("user name", "a+b&c=d"), ("", ""), ("密码", "{SRBX1}x/y==")];
    let encoded = FormQueryEncoder::encode(&pairs);
    let decoded = url::form_urlencoded::parse(encoded.as_bytes())
        .map(|(name, value)| (name.into_owned(), value.into_owned()))
        .collect::<Vec<_>>();
    let expected = pairs
        .iter()
        .map(|(name, value)| (name.to_string(), value.to_string()))
        .collect::<Vec<_>>();
    assert_eq!(decoded, expected);
}

#[test]
fn url_building_reports_success() {
    assert!(build_portal_url("/cgi-bin/get_challenge", &[("a", "b")]).is_ok());
}

#[test]
fn built_url_is_the_built_text() {
    let pairs = [("username", "2024000000"), ("info", "{SRBX1}a+b/c==")];
    let url = build_portal_url("/cgi-bin/srun_portal", &pairs).unwrap();
    assert_eq!(url.as_str(), portal_url_text("/cgi-bin/srun_portal", &pairs));
}

#[test]
fn safe_message_has_no_line_breaks_after_redaction() {
    let output = safe_portal_message("password=secret\r\ninfo:\ttoken\tnext".into());
    assert!(!output.contains(['\r', '\n', '\t']));
    assert!(!output.contains("secret"));
    assert!(!output.contains("token"));
    assert!(output.ends_with("next"));
}
