use hit_auto_login_core::crypto::hex_lower;
use hit_auto_login_core::{custom_base64, hmac_md5, make_login_parameters, sha1_hex, xencode};

#[test]
fn hmac_md5_known_vector() {
    assert_eq!(
        hmac_md5("The quick brown fox jumps over the lazy dog", "key"),
        "80070713463e7749b90c2dc24911e275"
    );
}

#[test]
fn sha1_known_vector() {
    assert_eq!(
        sha1_hex("The quick brown fox jumps over the lazy dog"),
        "2fd4e1c67a2d28fced849ee1bb76e7391b93eb12"
    );
}

#[test]
fn xencode_known_vector() {
    assert_eq!(
        hex_lower(&xencode("hello", "0123456789abcdef")),
        "e1546146d6ebf3048b8be7fd"
    );
}

#[test]
fn custom_base64_known_vector() {
    assert_eq!(custom_base64(b"hello"), "OCubWC4=");
}

#[test]
fn complete_parameters_match_javascript_reference() {
    let parameters = make_login_parameters(
        "2024000000",
        "password",
        "10.0.0.42",
        "27",
        "0123456789abcdef0123456789abcdef",
        "Windows",
        "Windows PC",
    );
    assert_eq!(parameters.password, "{MD5}d317550f8126002512bb01d794c9ffa2");
    assert_eq!(
        parameters.info,
        "{SRBX1}W+FIdBHb99ePoYgDyr5/mdNfPyeR8eEmbRC0h0YvrwE85XNO0BKRwwKSN8I2mQNNXdv1KZ/pq6RHfcDBkEpR+do5TMf2oZZjWENME+3DjWqfsRAa1QgJVl4U60eRctwlVzkYOP0Sm6S="
    );
    assert_eq!(
        parameters.chksum,
        "923eb2c3ac4a31fd825d66a6a38d6b4a6fc79370"
    );
}

#[test]
fn unicode_password_matches_javascript_reference() {
    let parameters = make_login_parameters(
        "2024000000",
        "密码🔐",
        "10.0.0.42",
        "27",
        "0123456789abcdef0123456789abcdef",
        "Linux",
        "Linux PC",
    );
    assert_eq!(parameters.password, "{MD5}52c2d750075c768ad3d5811af10df80e");
    assert_eq!(
        parameters.info,
        "{SRBX1}+Yd2acmMz0EhMm18ImhS3yh2JsNR2JDBsm0PWnxI7gircMegasQYAsV65OnYxZObRMnLOSEP0MHCvqfaSezJDE2B1cAVXqTEQnfbS8InAAPMyZkj490aDNJyekb3frQ2cBggjS=="
    );
    assert_eq!(
        parameters.chksum,
        "5aeb46c1c6ef126fe3acd4452d4131916d48c4d8"
    );
}

#[test]
fn xencode_of_empty_text_is_empty() {
    assert!(xencode("", "0123456789abcdef").is_empty());
}

#[test]
fn xencode_length_counts_words_and_length_word() {
    // 5 UTF-16 units pack into 2 words, plus the length word: 12 bytes.
    assert_eq!(xencode("hello", "k").len(), 12);
    // 4 units pack into 1 word, plus the length word: 8 bytes.
    assert_eq!(xencode("abcd", "k").len(), 8);
    // One astral character is two UTF-16 units: 1 word plus the length word.
    assert_eq!(xencode("🔐", "k").len(), 8);
}

#[test]
fn hex_lower_pads_each_byte() {
    assert_eq!(hex_lower(&[0x00, 0x0f, 0xa0, 0xff]), "000fa0ff");
    assert_eq!(hex_lower(&[]), "");
}

#[test]
fn custom_base64_keeps_padding_and_maps_letters() {
    assert_eq!(custom_base64(b""), "");
    // Standard "AA==" maps 'A' (index 0) to 'L'.
    assert_eq!(custom_base64(&[0]), "LL==");
    // Standard "////" maps '/' (index 63) to 'A'.
    assert_eq!(custom_base64(&[0xff, 0xff, 0xff]), "AAAA");
}

#[test]
fn login_parameters_fixed_fields_and_pair_order() {
    let parameters = make_login_parameters("u", "p", "1.2.3.4", "27", "t", "Linux", "Linux PC");
    assert_eq!(parameters.action, "login");
    assert_eq!(parameters.n, "200");
    assert_eq!(parameters.login_type, "1");
    assert_eq!(parameters.double_stack, "0");
    assert_eq!(parameters.os, "Linux");
    assert_eq!(parameters.name, "Linux PC");
    let pairs = parameters.query_pairs();
    let names: Vec<&str> = pairs.iter().map(|(name, _)| *name).collect();
    assert_eq!(
        names,
        vec![
            "action", "username", "password", "ac_id", "ip", "chksum", "info", "n", "type", "os",
            "name", "double_stack"
        ]
    );
    assert_eq!(pairs[4].1, "1.2.3.4");
    assert!(parameters.password.starts_with("{MD5}"));
    assert_eq!(parameters.password.len(), 5 + 32);
    assert!(parameters.info.starts_with("{SRBX1}"));
    assert_eq!(parameters.chksum.len(), 40);
}

#[test]
fn json_special_characters_change_the_info_block() {
    let plain = make_login_parameters("u", "p", "ip", "27", "tok", "Linux", "Linux PC");
    let quoted = make_login_parameters("u\"", "p", "ip", "27", "tok", "Linux", "Linux PC");
    assert_ne!(plain.info, quoted.info);
}
