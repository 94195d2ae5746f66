use hit_auto_login_core::parsing::input_value;
use hit_auto_login_core::{parse_json_or_jsonp, parse_portal_fields, CoreError, PortalFields};

#[test]
fn parses_live_fields_in_any_attribute_order() {
    let html = r#"
            <input value="27" type="hidden" id="ac_id">
            <input id='user_ip' name='user_ip' value='10.0.0.42'>
        "#;
    assert_eq!(
        parse_portal_fields(html),
        PortalFields {
            ac_id: "27".into(),
            user_ip: "10.0.0.42".into()
        }
    );
}

#[test]
fn ac_id_falls_back_but_ip_does_not() {
    assert_eq!(
        parse_portal_fields("<html></html>"),
        PortalFields {
            ac_id: "27".into(),
            user_ip: String::new()
        }
    );
}

#[test]
fn accepts_json_and_jsonp() {
    assert_eq!(
        parse_json_or_jsonp(r#"{"error":"ok"}"#).unwrap().text("error"),
        "ok"
    );
    assert_eq!(
        parse_json_or_jsonp(r#"cb_1({"challenge":"abc"})"#).unwrap().text("challenge"),
        "abc"
    );
}

#[test]
fn rejects_invalid_jsonp() {
    assert!(matches!(
        parse_json_or_jsonp("callback(no-json)"),
        Err(CoreError::InvalidPortalResponse)
    ));
}

#[test]
fn jsonp_without_braces_or_with_reversed_braces_is_rejected() {
    assert!(matches!(parse_json_or_jsonp(""), Err(CoreError::InvalidPortalResponse)));
    assert!(matches!(parse_json_or_jsonp("cb(}{)"), Err(CoreError::InvalidPortalResponse)));
    assert!(matches!(parse_json_or_jsonp("{"), Err(CoreError::InvalidPortalResponse)));
}

#[test]
fn numbers_are_read_as_text_and_other_values_as_empty() {
    let object = parse_json_or_jsonp(r#"x({"ecode":0,"n":12.5,"list":[1],"s":"t"})"#).unwrap();
    assert_eq!(object.text("ecode"), "0");
    assert_eq!(object.text("n"), "12.5");
    assert_eq!(object.text("list"), "");
    assert_eq!(object.text("s"), "t");
    assert_eq!(object.text("missing"), "");
}

#[test]
fn ac_id_value_is_read_from_the_page() {
    let fields = parse_portal_fields(r#"<INPUT type="hidden" ID="ac_id" VALUE="61">"#);
    assert_eq!(fields.ac_id, "61");
    assert_eq!(fields.user_ip, "");
}

#[test]
fn tag_without_value_is_skipped_for_a_later_one() {
    let html = r#"<input id="user_ip"><input id="user_ip" value="10.1.2.3">"#;
    assert_eq!(input_value(html, "user_ip"), Some("10.1.2.3".to_owned()));
    assert_eq!(input_value(html, "ac_id"), None);
}
