//! The Srun login parameters: HMAC-MD5 password, XEncode'd info block in the Srun
//! Base64 alphabet, and the SHA-1 checksum over the fixed field order.
use base64::Engine;
use hmac::Mac;
use sha1::Digest;
use vstd::prelude::*;
use vstd::utf8::encode_utf8;

use crate::text::{chars_of, hex_digit, hex_digit_exec, push_char, push_str};
use crate::xencode::{xencode, xencode_spec};

verus! {

// ----- Lower-case hexadecimal -----
/// Two lower-case hex digits per byte, high nibble first.
pub open spec fn hex_lower_spec(bytes: Seq<u8>) -> Seq<char>
    decreases bytes.len(),
{
    if bytes.len() == 0 {
        seq![]
    } else {
        hex_lower_spec(bytes.drop_last()) + seq![
            hex_digit(bytes.last() >> 4u8),
            hex_digit(bytes.last() & 0x0fu8),
        ]
    }
}

/// Lower-case hexadecimal text of `bytes`.
pub fn hex_lower(bytes: &[u8]) -> (out: String)
    ensures
        out@ == hex_lower_spec(bytes@),
{
    let mut out = String::new();
    let mut i: usize = 0;
    while i < bytes.len()
        invariant
            i <= bytes@.len(),
            out@ == hex_lower_spec(bytes@.take(i as int)),
        decreases bytes.len() - i,
    {
        let b = bytes[i];
        assert((b >> 4u8) < 16u8) by (bit_vector);
        assert((b & 0x0fu8) < 16u8) by (bit_vector);
        push_char(&mut out, hex_digit_exec(b >> 4u8));
        push_char(&mut out, hex_digit_exec(b & 0x0fu8));
        proof {
            assert(bytes@.take(i + 1).drop_last() == bytes@.take(i as int));
        }
        i = i + 1;
    }
    assert(bytes@.take(bytes@.len() as int) == bytes@);
    out
}

// ----- Digests -----
/// HMAC-MD5 (RFC 2104) of `message` under `key`, as computed by the `hmac` and `md-5` crates.
pub uninterp spec fn hmac_md5_bytes(key: Seq<u8>, message: Seq<u8>) -> Seq<u8>;

/// SHA-1 digest of `data`, as computed by the `sha1` crate.
pub uninterp spec fn sha1_bytes(data: Seq<u8>) -> Seq<u8>;

/// Calls `Hmac::<Md5>::new_from_slice`, `Mac::update` and `Mac::finalize` (crates `hmac`
/// and `md-5`). Claimed: the 16-byte tag is the named HMAC-MD5 of the arguments;
/// `new_from_slice` accepts every key length, so its error arm is never taken.
#[verifier::external_body]
fn hmac_md5_digest(key: &[u8], message: &[u8]) -> (tag: Vec<u8>)
    ensures
        tag@ == hmac_md5_bytes(key@, message@),
        tag@.len() == 16,
{
    match hmac::Hmac::<md5::Md5>::new_from_slice(key) {
        Ok(mut mac) => {
            mac.update(message);
            mac.finalize().into_bytes().to_vec()
        },
        Err(_) => Vec::new(),
    }
}

/// Calls `sha1::Sha1::digest`. Claimed: the 20-byte result is the named SHA-1 digest.
#[verifier::external_body]
fn sha1_digest(data: &[u8]) -> (digest: Vec<u8>)
    ensures
        digest@ == sha1_bytes(data@),
        digest@.len() == 20,
{
    sha1::Sha1::digest(data).to_vec()
}

/// Lower-case hex HMAC-MD5 of the UTF-8 bytes of `message` under the UTF-8 bytes of `key`.
pub open spec fn hmac_md5_hex(message: Seq<char>, key: Seq<char>) -> Seq<char> {
    hex_lower_spec(hmac_md5_bytes(encode_utf8(key), encode_utf8(message)))
}

/// Lower-case hex SHA-1 of the UTF-8 bytes of `text`.
pub open spec fn sha1_hex_spec(text: Seq<char>) -> Seq<char> {
    hex_lower_spec(sha1_bytes(encode_utf8(text)))
}

/// HMAC-MD5 of `message` keyed with `key`, as 32 lower-case hex digits.
pub fn hmac_md5(message: &str, key: &str) -> (out: String)
    ensures
        out@ == hmac_md5_hex(message@, key@),
        out@.len() == 32,
{
    let tag = hmac_md5_digest(key.as_bytes(), message.as_bytes());
    proof {
        lemma_hex_lower_shape(tag@);
    }
    hex_lower(tag.as_slice())
}

/// SHA-1 of `text`, as 40 lower-case hex digits.
pub fn sha1_hex(text: &str) -> (out: String)
    ensures
        out@ == sha1_hex_spec(text@),
        out@.len() == 40,
{
    let digest = sha1_digest(text.as_bytes());
    proof {
        lemma_hex_lower_shape(digest@);
    }
    hex_lower(digest.as_slice())
}

// ----- Base64 -----
/// The character of index `i` in the standard Base64 alphabet (RFC 4648).
pub open spec fn standard_base64_char(i: u8) -> char {
    if i < 26 {
        (('A' as u8) + i) as char
    } else if i < 52 {
        (('a' as u8) + (i - 26)) as char
    } else if i < 62 {
        (('0' as u8) + (i - 52)) as char
    } else if i == 62 {
        '+'
    } else {
        '/'
    }
}

/// Standard Base64 with `=` padding (RFC 4648, section 4).
pub open spec fn base64_spec(b: Seq<u8>) -> Seq<char>
    decreases b.len(),
{
    if b.len() == 0 {
        seq![]
    } else if b.len() == 1 {
        seq![
            standard_base64_char(b[0] >> 2u8),
            standard_base64_char(((b[0] & 3u8) << 4u8) as u8),
            '=',
            '=',
        ]
    } else if b.len() == 2 {
        seq![
            standard_base64_char(b[0] >> 2u8),
            standard_base64_char((((b[0] & 3u8) << 4u8) | (b[1] >> 4u8)) as u8),
            standard_base64_char(((b[1] & 15u8) << 2u8) as u8),
            '=',
        ]
    } else {
        seq![
            standard_base64_char(b[0] >> 2u8),
            standard_base64_char((((b[0] & 3u8) << 4u8) | (b[1] >> 4u8)) as u8),
            standard_base64_char((((b[1] & 15u8) << 2u8) | (b[2] >> 6u8)) as u8),
            standard_base64_char(b[2] & 63u8),
        ] + base64_spec(b.skip(3))
    }
}

/// Calls `base64::engine::general_purpose::STANDARD.encode` (crate `base64`). Claimed: the
/// result is the RFC 4648 Base64 text of `data` with `=` padding.
#[verifier::external_body]
fn base64_standard(data: &[u8]) -> (text: String)
    ensures
        text@ == base64_spec(data@),
{
    base64::engine::general_purpose::STANDARD.encode(data)
}

/// The Srun Base64 alphabet.
pub open spec fn srun_alphabet() -> Seq<char> {
    seq!['L', 'V', 'o', 'J', 'P', 'i', 'C', 'N', '2', 'R', '8', 'G', '9', '0', 'y', 'g', '+', 'h', 'm', 'F', 'H', 'u', 'a', 'c', 'Z', '1', 'O', 'W', 'M', 'n', 'r', 's', 'S', 'T', 'X', 'k', 'Y', 'p', 'U', 'q', '/', '3', 'd', 'l', 'b', 'f', 'K', 'w', 'v', '6', 'x', 'z', 't', 'j', 'I', '7', 'D', 'e', 'B', 'E', '4', '5', 'Q', 'A']
}

/// Index of `c` in the standard Base64 alphabet, if it is one of its letters.
pub open spec fn standard_base64_index(c: char) -> Option<int> {
    if 'A' <= c <= 'Z' {
        Some(c as int - 'A' as int)
    } else if 'a' <= c <= 'z' {
        Some(c as int - 'a' as int + 26)
    } else if '0' <= c <= '9' {
        Some(c as int - '0' as int + 52)
    } else if c == '+' {
        Some(62)
    } else if c == '/' {
        Some(63)
    } else {
        None
    }
}

/// A standard Base64 character translated into the Srun alphabet; other characters
/// (the `=` padding) are kept.
pub open spec fn srun_char(c: char) -> char {
    match standard_base64_index(c) {
        Some(i) => srun_alphabet()[i],
        None => c,
    }
}

/// Srun Base64: standard Base64 with every alphabet letter replaced by the letter of the
/// same index in the Srun alphabet.
pub open spec fn custom_base64_spec(data: Seq<u8>) -> Seq<char> {
    base64_spec(data).map_values(|c: char| srun_char(c))
}

fn srun_char_exec(c: char) -> (d: char)
    ensures
        d == srun_char(c),
{
    let alphabet: [char; 64] = ['L', 'V', 'o', 'J', 'P', 'i', 'C', 'N', '2', 'R', '8', 'G', '9', '0', 'y', 'g', '+', 'h', 'm', 'F', 'H', 'u', 'a', 'c', 'Z', '1', 'O', 'W', 'M', 'n', 'r', 's', 'S', 'T', 'X', 'k', 'Y', 'p', 'U', 'q', '/', '3', 'd', 'l', 'b', 'f', 'K', 'w', 'v', '6', 'x', 'z', 't', 'j', 'I', '7', 'D', 'e', 'B', 'E', '4', '5', 'Q', 'A'];
    assert(alphabet@ == srun_alphabet());
    let index: usize = if 'A' <= c && c <= 'Z' {
        (c as u32 - 'A' as u32) as usize
    } else if 'a' <= c && c <= 'z' {
        (c as u32 - 'a' as u32 + 26) as usize
    } else if '0' <= c && c <= '9' {
        (c as u32 - '0' as u32 + 52) as usize
    } else if c == '+' {
        62
    } else if c == '/' {
        63
    } else {
        return c;
    };
    alphabet[index]
}

/// Srun Base64 of `data`.
pub fn custom_base64(data: &[u8]) -> (out: String)
    ensures
        out@ == custom_base64_spec(data@),
{
    let standard = base64_standard(data);
    let chars = chars_of(standard.as_str());
    let mut out = String::new();
    let mut i: usize = 0;
    while i < chars.len()
        invariant
            i <= chars@.len(),
            chars@ == base64_spec(data@),
            out@ == chars@.take(i as int).map_values(|c: char| srun_char(c)),
        decreases chars.len() - i,
    {
        let d = srun_char_exec(chars[i]);
        push_char(&mut out, d);
        proof {
            assert(chars@.take(i + 1).map_values(|c: char| srun_char(c)) == chars@.take(
                i as int,
            ).map_values(|c: char| srun_char(c)).push(d));
        }
        i = i + 1;
    }
    assert(chars@.take(chars@.len() as int) == chars@);
    out
}

// ----- JSON string literals -----
/// The JSON escape of one character as `serde_json` writes it: `"` and `\` and the
/// control characters below U+0020 are escaped, everything else is kept.
pub open spec fn json_escape_char(c: char) -> Seq<char> {
    let v = c as u32;
    if c == '"' {
        seq!['\\', '"']
    } else if c == '\\' {
        seq!['\\', '\\']
    } else if v == 0x08 {
        seq!['\\', 'b']
    } else if v == 0x09 {
        seq!['\\', 't']
    } else if v == 0x0A {
        seq!['\\', 'n']
    } else if v == 0x0C {
        seq!['\\', 'f']
    } else if v == 0x0D {
        seq!['\\', 'r']
    } else if v < 0x20 {
        seq!['\\', 'u', '0', '0', hex_digit((v >> 4u32) as u8), hex_digit((v & 0xFu32) as u8)]
    } else {
        seq![c]
    }
}

/// The escaped contents of a JSON string literal.
pub open spec fn json_escaped(s: Seq<char>) -> Seq<char>
    decreases s.len(),
{
    if s.len() == 0 {
        seq![]
    } else {
        json_escaped(s.drop_last()) + json_escape_char(s.last())
    }
}

/// A JSON string literal holding `s`.
pub open spec fn json_quoted(s: Seq<char>) -> Seq<char> {
    seq!['"'] + json_escaped(s) + seq!['"']
}

/// Calls `serde_json::to_string` on a string slice. Claimed: the result is the JSON string
/// literal of `text` with `serde_json`'s escape table; serialising a `str` into memory
/// cannot fail, so the error arm is never taken.
#[verifier::external_body]
fn json_string_literal(text: &str) -> (literal: String)
    ensures
        literal@ == json_quoted(text@),
{
    match serde_json::to_string(text) {
        Ok(literal) => literal,
        Err(_) => String::new(),
    }
}

// ----- Login parameters -----
/// The Srun info object, fields in the order the portal requires.
pub open spec fn info_json(username: Seq<char>, password: Seq<char>, ip: Seq<char>, ac_id: Seq<char>) -> Seq<char> {
    "{\"username\":"@ + json_quoted(username) + ",\"password\":"@ + json_quoted(password)
        + ",\"ip\":"@ + json_quoted(ip) + ",\"acid\":"@ + json_quoted(ac_id) + ",\"enc_ver\":"@
        + json_quoted("srun_bx1"@) + "}"@
}

/// The `info` login parameter.
pub open spec fn info_parameter(
    username: Seq<char>,
    password: Seq<char>,
    ip: Seq<char>,
    ac_id: Seq<char>,
    token: Seq<char>,
) -> Seq<char> {
    "{SRBX1}"@ + custom_base64_spec(xencode_spec(info_json(username, password, ip, ac_id), token))
}

/// The text whose SHA-1 is the `chksum` login parameter.
pub open spec fn checksum_source(
    token: Seq<char>,
    username: Seq<char>,
    hmd5: Seq<char>,
    ac_id: Seq<char>,
    ip: Seq<char>,
    info: Seq<char>,
) -> Seq<char> {
    token + username + token + hmd5 + token + ac_id + token + ip + token + "200"@ + token + "1"@
        + token + info
}

/// The query parameters of a Srun portal login request.
#[derive(Clone, Debug, PartialEq, Eq)]
pub struct LoginParameters {
    pub action: String,
    pub username: String,
    pub password: String,
    pub ac_id: String,
    pub ip: String,
    pub chksum: String,
    pub info: String,
    pub n: String,
    pub login_type: String,
    pub os: String,
    pub name: String,
    pub double_stack: String,
}

impl LoginParameters {
    /// The parameters as `(name, value)` pairs, in the order the portal expects.
    pub fn query_pairs(&self) -> (pairs: [(&str, &str); 12])
        ensures
            pairs[0].0@ == "action"@ && pairs[0].1@ == self.action@,
            pairs[1].0@ == "username"@ && pairs[1].1@ == self.username@,
            pairs[2].0@ == "password"@ && pairs[2].1@ == self.password@,
            pairs[3].0@ == "ac_id"@ && pairs[3].1@ == self.ac_id@,
            pairs[4].0@ == "ip"@ && pairs[4].1@ == self.ip@,
            pairs[5].0@ == "chksum"@ && pairs[5].1@ == self.chksum@,
            pairs[6].0@ == "info"@ && pairs[6].1@ == self.info@,
            pairs[7].0@ == "n"@ && pairs[7].1@ == self.n@,
            pairs[8].0@ == "type"@ && pairs[8].1@ == self.login_type@,
            pairs[9].0@ == "os"@ && pairs[9].1@ == self.os@,
            pairs[10].0@ == "name"@ && pairs[10].1@ == self.name@,
            pairs[11].0@ == "double_stack"@ && pairs[11].1@ == self.double_stack@,
    {
        [
            ("action", self.action.as_str()),
            ("username", self.username.as_str()),
            ("password", self.password.as_str()),
            ("ac_id", self.ac_id.as_str()),
            ("ip", self.ip.as_str()),
            ("chksum", self.chksum.as_str()),
            ("info", self.info.as_str()),
            ("n", self.n.as_str()),
            ("type", self.login_type.as_str()),
            ("os", self.os.as_str()),
            ("name", self.name.as_str()),
            ("double_stack", self.double_stack.as_str()),
        ]
    }
}

/// The query pairs of a login request, in the order the portal expects.
pub open spec fn login_query_spec(
    username: Seq<char>,
    password: Seq<char>,
    ip: Seq<char>,
    ac_id: Seq<char>,
    token: Seq<char>,
    os: Seq<char>,
    name: Seq<char>,
) -> Seq<(Seq<char>, Seq<char>)> {
    let hmd5 = hmac_md5_hex(password, token);
    let info = info_parameter(username, password, ip, ac_id, token);
    seq![
        ("action"@, "login"@),
        ("username"@, username),
        ("password"@, "{MD5}"@ + hmd5),
        ("ac_id"@, ac_id),
        ("ip"@, ip),
        ("chksum"@, sha1_hex_spec(checksum_source(token, username, hmd5, ac_id, ip, info))),
        ("info"@, info),
        ("n"@, "200"@),
        ("type"@, "1"@),
        ("os"@, os),
        ("name"@, name),
        ("double_stack"@, "0"@),
    ]
}

/// The login query pairs as owned strings.
pub fn login_query(
    username: &str,
    password: &str,
    ip: &str,
    ac_id: &str,
    token: &str,
    os: &str,
    name: &str,
) -> (pairs: Vec<(String, String)>)
    ensures
        pairs@.map_values(|p: (String, String)| (p.0@, p.1@)) == login_query_spec(
            username@,
            password@,
            ip@,
            ac_id@,
            token@,
            os@,
            name@,
        ),
{
    let parameters = make_login_parameters(username, password, ip, ac_id, token, os, name);
    let array = parameters.query_pairs();
    let mut pairs: Vec<(String, String)> = Vec::new();
    let mut i: usize = 0;
    while i < 12
        invariant
            i <= 12,
            array@.len() == 12,
            pairs@.len() == i,
            forall|k: int| 0 <= k < i ==> #[trigger] pairs@[k].0@ == array@[k].0@ && pairs@[k].1@ == array@[k].1@,
        decreases 12 - i,
    {
        pairs.push((array[i].0.to_owned(), array[i].1.to_owned()));
        i = i + 1;
    }
    assert(pairs@.map_values(|p: (String, String)| (p.0@, p.1@)) =~= login_query_spec(
        username@,
        password@,
        ip@,
        ac_id@,
        token@,
        os@,
        name@,
    ));
    pairs
}

/// Concatenation of a `String` and a string slice.
fn joined(a: String, b: &str) -> (out: String)
    ensures
        out@ == a@ + b@,
{
    let mut out = a;
    push_str(&mut out, b);
    out
}

/// The Srun info object as JSON text.
fn make_info_json(username: &str, password: &str, ip: &str, ac_id: &str) -> (out: String)
    ensures
        out@ == info_json(username@, password@, ip@, ac_id@),
{
    let mut out = String::new();
    push_str(&mut out, "{\"username\":");
    push_str(&mut out, json_string_literal(username).as_str());
    push_str(&mut out, ",\"password\":");
    push_str(&mut out, json_string_literal(password).as_str());
    push_str(&mut out, ",\"ip\":");
    push_str(&mut out, json_string_literal(ip).as_str());
    push_str(&mut out, ",\"acid\":");
    push_str(&mut out, json_string_literal(ac_id).as_str());
    push_str(&mut out, ",\"enc_ver\":");
    push_str(&mut out, json_string_literal("srun_bx1").as_str());
    push_str(&mut out, "}");
    out
}

/// Builds the Srun login parameters for `username`/`password` at `ip` and access point
/// `ac_id`, with the portal's challenge `token`, reporting operating system `os` and
/// device name `name`.
pub fn make_login_parameters(
    username: &str,
    password: &str,
    ip: &str,
    ac_id: &str,
    token: &str,
    os: &str,
    name: &str,
) -> (p: LoginParameters)
    ensures
        p.action@ == "login"@,
        p.username@ == username@,
        p.password@ == "{MD5}"@ + hmac_md5_hex(password@, token@),
        p.ac_id@ == ac_id@,
        p.ip@ == ip@,
        p.info@ == info_parameter(username@, password@, ip@, ac_id@, token@),
        p.chksum@ == sha1_hex_spec(
            checksum_source(
                token@,
                username@,
                hmac_md5_hex(password@, token@),
                ac_id@,
                ip@,
                info_parameter(username@, password@, ip@, ac_id@, token@),
            ),
        ),
        p.n@ == "200"@,
        p.login_type@ == "1"@,
        p.os@ == os@,
        p.name@ == name@,
        p.double_stack@ == "0"@,
{
    let hmd5 = hmac_md5(password, token);
    let info_text = make_info_json(username, password, ip, ac_id);
    let cipher = xencode(info_text.as_str(), token);
    let info = joined("{SRBX1}".to_owned(), custom_base64(cipher.as_slice()).as_str());
    let mut source = token.to_owned();
    push_str(&mut source, username);
    push_str(&mut source, token);
    push_str(&mut source, hmd5.as_str());
    push_str(&mut source, token);
    push_str(&mut source, ac_id);
    push_str(&mut source, token);
    push_str(&mut source, ip);
    push_str(&mut source, token);
    push_str(&mut source, "200");
    push_str(&mut source, token);
    push_str(&mut source, "1");
    push_str(&mut source, token);
    push_str(&mut source, info.as_str());
    let chksum = sha1_hex(source.as_str());
    LoginParameters {
        action: "login".to_owned(),
        username: username.to_owned(),
        password: joined("{MD5}".to_owned(), hmd5.as_str()),
        ac_id: ac_id.to_owned(),
        ip: ip.to_owned(),
        chksum,
        info,
        n: "200".to_owned(),
        login_type: "1".to_owned(),
        os: os.to_owned(),
        name: name.to_owned(),
        double_stack: "0".to_owned(),
    }
}

// ----- Laws -----
/// Hexadecimal text has two lower-case hex digits per byte.
pub proof fn lemma_hex_lower_shape(bytes: Seq<u8>)
    ensures
        hex_lower_spec(bytes).len() == 2 * bytes.len(),
        forall|i: int|
            0 <= i < hex_lower_spec(bytes).len() ==> ('0' <= #[trigger] hex_lower_spec(bytes)[i] <= '9'
                || 'a' <= hex_lower_spec(bytes)[i] <= 'f'),
    decreases bytes.len(),
{
    if bytes.len() > 0 {
        lemma_hex_lower_shape(bytes.drop_last());
        let b = bytes.last();
        assert(b >> 4u8 < 16u8) by (bit_vector);
        assert(b & 0x0fu8 < 16u8) by (bit_vector);
        let x = hex_lower_spec(bytes.drop_last());
        let y = seq![hex_digit(b >> 4u8), hex_digit(b & 0x0fu8)];
        assert forall|i: int| 0 <= i < (x + y).len() implies ('0' <= #[trigger] (x + y)[i] <= '9' || 'a' <= (x + y)[i] <= 'f') by {
            if i >= x.len() {
                assert((x + y)[i] == y[i - x.len()]);
            } else {
                assert((x + y)[i] == x[i]);
            }
        }
    }
}

/// Standard Base64 has four characters per started group of three bytes, and so has the
/// Srun variant, which only renames the letters.
pub proof fn lemma_base64_length(data: Seq<u8>)
    ensures
        base64_spec(data).len() == 4 * ((data.len() + 2) / 3),
        custom_base64_spec(data).len() == base64_spec(data).len(),
    decreases data.len(),
{
    if data.len() > 2 {
        lemma_base64_length(data.skip(3));
    }
}

/// The position of `c` in the Srun alphabet, 64 when it is not a letter of it.
spec fn srun_letter_index(c: char) -> int {
    if c == 'L' {
        0
    } else if c == 'V' {
        1
    } else if c == 'o' {
        2
    } else if c == 'J' {
        3
    } else if c == 'P' {
        4
    } else if c == 'i' {
        5
    } else if c == 'C' {
        6
    } else if c == 'N' {
        7
    } else if c == '2' {
        8
    } else if c == 'R' {
        9
    } else if c == '8' {
        10
    } else if c == 'G' {
        11
    } else if c == '9' {
        12
    } else if c == '0' {
        13
    } else if c == 'y' {
        14
    } else if c == 'g' {
        15
    } else if c == '+' {
        16
    } else if c == 'h' {
        17
    } else if c == 'm' {
        18
    } else if c == 'F' {
        19
    } else if c == 'H' {
        20
    } else if c == 'u' {
        21
    } else if c == 'a' {
        22
    } else if c == 'c' {
        23
    } else if c == 'Z' {
        24
    } else if c == '1' {
        25
    } else if c == 'O' {
        26
    } else if c == 'W' {
        27
    } else if c == 'M' {
        28
    } else if c == 'n' {
        29
    } else if c == 'r' {
        30
    } else if c == 's' {
        31
    } else if c == 'S' {
        32
    } else if c == 'T' {
        33
    } else if c == 'X' {
        34
    } else if c == 'k' {
        35
    } else if c == 'Y' {
        36
    } else if c == 'p' {
        37
    } else if c == 'U' {
        38
    } else if c == 'q' {
        39
    } else if c == '/' {
        40
    } else if c == '3' {
        41
    } else if c == 'd' {
        42
    } else if c == 'l' {
        43
    } else if c == 'b' {
        44
    } else if c == 'f' {
        45
    } else if c == 'K' {
        46
    } else if c == 'w' {
        47
    } else if c == 'v' {
        48
    } else if c == '6' {
        49
    } else if c == 'x' {
        50
    } else if c == 'z' {
        51
    } else if c == 't' {
        52
    } else if c == 'j' {
        53
    } else if c == 'I' {
        54
    } else if c == '7' {
        55
    } else if c == 'D' {
        56
    } else if c == 'e' {
        57
    } else if c == 'B' {
        58
    } else if c == 'E' {
        59
    } else if c == '4' {
        60
    } else if c == '5' {
        61
    } else if c == 'Q' {
        62
    } else if c == 'A' {
        63
    } else {
        64
    }
}

/// Reading a Srun letter back gives its position.
#[verifier::rlimit(50)]
proof fn lemma_srun_letter_index(i: int)
    requires
        0 <= i < 64,
    ensures
        srun_letter_index(srun_alphabet()[i]) == i,
{
    let a = srun_alphabet();
    if i == 0 {
        assert(a[0] == 'L');
    } else if i == 1 {
        assert(a[1] == 'V');
    } else if i == 2 {
        assert(a[2] == 'o');
    } else if i == 3 {
        assert(a[3] == 'J');
    } else if i == 4 {
        assert(a[4] == 'P');
    } else if i == 5 {
        assert(a[5] == 'i');
    } else if i == 6 {
        assert(a[6] == 'C');
    } else if i == 7 {
        assert(a[7] == 'N');
    } else if i == 8 {
        assert(a[8] == '2');
    } else if i == 9 {
        assert(a[9] == 'R');
    } else if i == 10 {
        assert(a[10] == '8');
    } else if i == 11 {
        assert(a[11] == 'G');
    } else if i == 12 {
        assert(a[12] == '9');
    } else if i == 13 {
        assert(a[13] == '0');
    } else if i == 14 {
        assert(a[14] == 'y');
    } else if i == 15 {
        assert(a[15] == 'g');
    } else if i == 16 {
        assert(a[16] == '+');
    } else if i == 17 {
        assert(a[17] == 'h');
    } else if i == 18 {
        assert(a[18] == 'm');
    } else if i == 19 {
        assert(a[19] == 'F');
    } else if i == 20 {
        assert(a[20] == 'H');
    } else if i == 21 {
        assert(a[21] == 'u');
    } else if i == 22 {
        assert(a[22] == 'a');
    } else if i == 23 {
        assert(a[23] == 'c');
    } else if i == 24 {
        assert(a[24] == 'Z');
    } else if i == 25 {
        assert(a[25] == '1');
    } else if i == 26 {
        assert(a[26] == 'O');
    } else if i == 27 {
        assert(a[27] == 'W');
    } else if i == 28 {
        assert(a[28] == 'M');
    } else if i == 29 {
        assert(a[29] == 'n');
    } else if i == 30 {
        assert(a[30] == 'r');
    } else if i == 31 {
        assert(a[31] == 's');
    } else if i == 32 {
        assert(a[32] == 'S');
    } else if i == 33 {
        assert(a[33] == 'T');
    } else if i == 34 {
        assert(a[34] == 'X');
    } else if i == 35 {
        assert(a[35] == 'k');
    } else if i == 36 {
        assert(a[36] == 'Y');
    } else if i == 37 {
        assert(a[37] == 'p');
    } else if i == 38 {
        assert(a[38] == 'U');
    } else if i == 39 {
        assert(a[39] == 'q');
    } else if i == 40 {
        assert(a[40] == '/');
    } else if i == 41 {
        assert(a[41] == '3');
    } else if i == 42 {
        assert(a[42] == 'd');
    } else if i == 43 {
        assert(a[43] == 'l');
    } else if i == 44 {
        assert(a[44] == 'b');
    } else if i == 45 {
        assert(a[45] == 'f');
    } else if i == 46 {
        assert(a[46] == 'K');
    } else if i == 47 {
        assert(a[47] == 'w');
    } else if i == 48 {
        assert(a[48] == 'v');
    } else if i == 49 {
        assert(a[49] == '6');
    } else if i == 50 {
        assert(a[50] == 'x');
    } else if i == 51 {
        assert(a[51] == 'z');
    } else if i == 52 {
        assert(a[52] == 't');
    } else if i == 53 {
        assert(a[53] == 'j');
    } else if i == 54 {
        assert(a[54] == 'I');
    } else if i == 55 {
        assert(a[55] == '7');
    } else if i == 56 {
        assert(a[56] == 'D');
    } else if i == 57 {
        assert(a[57] == 'e');
    } else if i == 58 {
        assert(a[58] == 'B');
    } else if i == 59 {
        assert(a[59] == 'E');
    } else if i == 60 {
        assert(a[60] == '4');
    } else if i == 61 {
        assert(a[61] == '5');
    } else if i == 62 {
        assert(a[62] == 'Q');
    } else if i == 63 {
        assert(a[63] == 'A');
    }
}

/// The Srun alphabet has 64 pairwise distinct letters, none of them the padding `=`.
pub proof fn lemma_srun_alphabet_distinct()
    ensures
        srun_alphabet().len() == 64,
        forall|i: int, j: int|
            0 <= i < 64 && 0 <= j < 64 && i != j ==> #[trigger] srun_alphabet()[i] != #[trigger] srun_alphabet()[j],
        forall|i: int| 0 <= i < 64 ==> #[trigger] srun_alphabet()[i] != '=',
{
    assert forall|i: int, j: int|
        0 <= i < 64 && 0 <= j < 64 && i != j implies #[trigger] srun_alphabet()[i] != #[trigger] srun_alphabet()[j] by {
        lemma_srun_letter_index(i);
        lemma_srun_letter_index(j);
    }
    assert forall|i: int| 0 <= i < 64 implies #[trigger] srun_alphabet()[i] != '=' by {
        lemma_srun_letter_index(i);
    }
}

/// The Srun translation keeps distinct Base64 characters (letters and padding) distinct,
/// so Srun Base64 text decodes as its standard Base64 counterpart does.
pub proof fn lemma_srun_char_injective(c1: char, c2: char)
    requires
        standard_base64_index(c1) is Some || c1 == '=',
        standard_base64_index(c2) is Some || c2 == '=',
        srun_char(c1) == srun_char(c2),
    ensures
        c1 == c2,
{
    lemma_srun_alphabet_distinct();
    match (standard_base64_index(c1), standard_base64_index(c2)) {
        (Some(i1), Some(i2)) => {
            assert(srun_alphabet()[i1] == srun_alphabet()[i2]);
            assert(i1 == i2);
        },
        (Some(i1), None) => {
            assert(srun_alphabet()[i1] != '=');
        },
        (None, Some(i2)) => {
            assert(srun_alphabet()[i2] != '=');
        },
        (None, None) => {},
    }
}

} // verus!
