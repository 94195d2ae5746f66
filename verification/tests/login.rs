use hit_auto_login_core::portal::LoginStage;
use hit_auto_login_core::{CoreError, HttpReply, PortalLogin, PortalRequest};

fn page(body: &str) -> HttpReply {
    HttpReply::Received { status: 200, body: Some(body.to_owned()) }
}

#[test]
fn full_login_sequence() {
    let (mut login, first) = PortalLogin::new("2024000000", "password", "Linux", "Linux PC");
    assert!(matches!(first, PortalRequest::FetchPortalPage));
    let html = r#"<input id="ac_id" value="27"><input id="user_ip" value="10.0.0.42">"#;
    match login.step(page(html)) {
        PortalRequest::Jsonp { path, pairs } => {
            assert_eq!(path, "/cgi-bin/get_challenge");
            assert_eq!(
                pairs,
                vec![
                    ("username".to_owned(), "2024000000".to_owned()),
                    ("ip".to_owned(), "10.0.0.42".to_owned())
                ]
            );
        }
        _ => panic!("expected the challenge request"),
    }
    let challenge = r#"cb({"error":"ok","challenge":"0123456789abcdef0123456789abcdef","client_ip":"10.0.0.42"})"#;
    match login.step(page(challenge)) {
        PortalRequest::Jsonp { path, pairs } => {
            assert_eq!(path, "/cgi-bin/srun_portal");
            assert_eq!(pairs.len(), 12);
            assert_eq!(pairs[2], ("password".to_owned(), "{MD5}d317550f8126002512bb01d794c9ffa2".to_owned()));
            assert_eq!(pairs[3], ("ac_id".to_owned(), "27".to_owned()));
            assert_eq!(pairs[9], ("os".to_owned(), "Linux".to_owned()));
        }
        _ => panic!("expected the login request"),
    }
    match login.step(page(r#"cb({"error":"ok","suc_msg":"login_ok"})"#)) {
        PortalRequest::Finished(Ok(message)) => assert_eq!(message, "login_ok"),
        _ => panic!("expected success"),
    }
    assert!(matches!(login.stage, LoginStage::Finished));
    assert!(matches!(
        login.step(page("late reply")),
        PortalRequest::Finished(Err(CoreError::InvalidPortalResponse))
    ));
    assert!(matches!(login.stage, LoginStage::Finished));
}

#[test]
fn page_failures() {
    let (mut login, _) = PortalLogin::new("u", "p", "Linux", "Linux PC");
    assert!(matches!(
        login.step(HttpReply::SendFailed),
        PortalRequest::Finished(Err(CoreError::Portal(m))) if m == "无法访问认证门户首页"
    ));
    let (mut login, _) = PortalLogin::new("u", "p", "Linux", "Linux PC");
    assert!(matches!(
        login.step(HttpReply::Received { status: 502, body: None }),
        PortalRequest::Finished(Err(CoreError::Portal(m))) if m == "认证门户首页返回异常状态"
    ));
    let (mut login, _) = PortalLogin::new("u", "p", "Linux", "Linux PC");
    assert!(matches!(
        login.step(HttpReply::Received { status: 200, body: None }),
        PortalRequest::Finished(Err(CoreError::Portal(m))) if m == "无法读取认证门户首页"
    ));
}

#[test]
fn refused_challenge_and_already_online() {
    let (mut login, _) = PortalLogin::new("u", "p", "Linux", "Linux PC");
    login.step(page("<html></html>"));
    assert!(matches!(
        login.step(page(r#"cb({"error":"fail","ecode":"E2532"})"#)),
        PortalRequest::Finished(Err(CoreError::Challenge(m))) if m == "两次认证间隔太短，请等待 10 秒后重试（E2532）"
    ));

    let (mut login, _) = PortalLogin::new("u", "p", "Linux", "Linux PC");
    login.step(page("<html></html>"));
    assert!(matches!(
        login.step(page(r#"cb({"error":"ok","challenge":"t"})"#)),
        PortalRequest::Finished(Err(CoreError::Portal(m))) if m == "认证门户未返回客户端 IP"
    ));

    let (mut login, _) = PortalLogin::new("u", "p", "Linux", "Linux PC");
    login.step(page(r#"<input id="user_ip" value="10.0.0.1">"#));
    login.step(page(r#"cb({"error":"ok","challenge":"t"})"#));
    assert!(matches!(
        login.step(page(r#"cb({"error":"ip_already_online_error"})"#)),
        PortalRequest::Finished(Ok(m)) if m == "当前 IP 已在线"
    ));
}

#[test]
fn jsonp_reply_failures() {
    let (mut login, _) = PortalLogin::new("u", "p", "Linux", "Linux PC");
    login.step(page("<html></html>"));
    assert!(matches!(
        login.step(HttpReply::Received { status: 200, body: Some("no json".into()) }),
        PortalRequest::Finished(Err(CoreError::InvalidPortalResponse))
    ));
    let (mut login, _) = PortalLogin::new("u", "p", "Linux", "Linux PC");
    login.step(page("<html></html>"));
    assert!(matches!(
        login.step(HttpReply::SendFailed),
        PortalRequest::Finished(Err(CoreError::Portal(m))) if m == "认证接口请求超时或连接失败"
    ));
    let (mut login, _) = PortalLogin::new("u", "p", "Linux", "Linux PC");
    login.step(page("<html></html>"));
    assert!(matches!(
        login.step(HttpReply::UrlRejected),
        PortalRequest::Finished(Err(CoreError::InvalidPortalResponse))
    ));
    let (mut login, _) = PortalLogin::new("u", "p", "Linux", "Linux PC");
    login.step(page(r#"<input id="user_ip" value="10.0.0.1">"#));
    login.step(page(r#"cb({"error":"ok","challenge":"t"})"#));
    assert!(matches!(
        login.step(page(r#"cb({"error":"login_error","ecode":"E2553"})"#)),
        PortalRequest::Finished(Err(CoreError::Authentication(m))) if m == "账号或密码错误（E2553）"
    ));
}
