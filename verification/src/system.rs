//! Text that the platform integrations hand to the operating system or show to the user:
//! the Windows WLAN profile and error texts, the systemd unit, command output summaries and
//! console answers.
use vstd::prelude::*;
use vstd::utf8::encode_utf8;

use crate::portal::hex_upper;
use crate::text::{
    ascii_lowercase, chars_eq_str, chars_of, is_white_space, is_white_space_exec, push_all,
    push_char, push_str, string_of, to_ascii_lowercase, trim, trim_chars,
};
use crate::workflow::CoreError;
use crate::xencode::{utf16_of, utf16_units};

verus! {

// ----- Decimal numbers -----
/// The decimal digit of `n < 10`.
pub open spec fn decimal_digit(n: nat) -> char {
    (('0' as u8) + (n as u8)) as char
}

/// The decimal text of `n`, without leading zeros.
pub open spec fn decimal_spec(n: nat) -> Seq<char>
    decreases n,
{
    if n < 10 {
        seq![decimal_digit(n)]
    } else {
        decimal_spec(n / 10) + seq![decimal_digit(n % 10)]
    }
}

fn decimal_chars(n: u32) -> (out: Vec<char>)
    ensures
        out@ == decimal_spec(n as nat),
    decreases n,
{
    if n < 10 {
        let mut out: Vec<char> = Vec::new();
        out.push((('0' as u8) + (n as u8)) as char);
        out
    } else {
        let mut out = decimal_chars(n / 10);
        out.push((('0' as u8) + ((n % 10) as u8)) as char);
        out
    }
}

// ----- Windows WLAN -----
/// The XML escape of one character.
pub open spec fn xml_escape_char(c: char) -> Seq<char> {
    if c == '&' {
        "&amp;"@
    } else if c == '<' {
        "&lt;"@
    } else if c == '>' {
        "&gt;"@
    } else if c == '"' {
        "&quot;"@
    } else if c == '\'' {
        "&apos;"@
    } else {
        seq![c]
    }
}

/// `value` with the five XML special characters escaped.
pub open spec fn xml_escape_spec(value: Seq<char>) -> Seq<char>
    decreases value.len(),
{
    if value.len() == 0 {
        seq![]
    } else {
        xml_escape_spec(value.drop_last()) + xml_escape_char(value.last())
    }
}

/// `value` with `&`, `<`, `>`, `"` and `'` escaped for XML.
pub fn xml_escape(value: &str) -> (out: String)
    ensures
        out@ == xml_escape_spec(value@),
{
    let chars = chars_of(value);
    let mut out = String::new();
    let mut i: usize = 0;
    while i < chars.len()
        invariant
            i <= chars@.len(),
            chars@ == value@,
            out@ == xml_escape_spec(chars@.take(i as int)),
        decreases chars.len() - i,
    {
        let c = chars[i];
        if c == '&' {
            push_str(&mut out, "&amp;");
        } else if c == '<' {
            push_str(&mut out, "&lt;");
        } else if c == '>' {
            push_str(&mut out, "&gt;");
        } else if c == '"' {
            push_str(&mut out, "&quot;");
        } else if c == '\'' {
            push_str(&mut out, "&apos;");
        } else {
            push_char(&mut out, c);
        }
        proof {
            assert(chars@.take(i + 1).drop_last() == chars@.take(i as int));
        }
        i = i + 1;
    }
    assert(chars@.take(chars@.len() as int) == chars@);
    out
}

/// Two upper-case hex digits per byte.
pub open spec fn hex_upper_spec(bytes: Seq<u8>) -> Seq<char>
    decreases bytes.len(),
{
    if bytes.len() == 0 {
        seq![]
    } else {
        hex_upper_spec(bytes.drop_last()) + seq![hex_upper(bytes.last() >> 4u8), hex_upper(bytes.last() & 0x0fu8)]
    }
}

fn hex_upper_text(bytes: &[u8]) -> (out: String)
    ensures
        out@ == hex_upper_spec(bytes@),
{
    let mut out = String::new();
    let mut i: usize = 0;
    while i < bytes.len()
        invariant
            i <= bytes@.len(),
            out@ == hex_upper_spec(bytes@.take(i as int)),
        decreases bytes.len() - i,
    {
        let b = bytes[i];
        let hi = b >> 4u8;
        let lo = b & 0x0fu8;
        assert(hi < 16u8) by (bit_vector)
            requires
                hi == b >> 4u8,
        ;
        assert(lo < 16u8) by (bit_vector)
            requires
                lo == b & 0x0fu8,
        ;
        let hc = if hi < 10 {
            (('0' as u8) + hi) as char
        } else {
            (('A' as u8) + (hi - 10)) as char
        };
        let lc = if lo < 10 {
            (('0' as u8) + lo) as char
        } else {
            (('A' as u8) + (lo - 10)) as char
        };
        push_char(&mut out, hc);
        push_char(&mut out, lc);
        proof {
            assert(bytes@.take(i + 1).drop_last() == bytes@.take(i as int));
        }
        i = i + 1;
    }
    assert(bytes@.take(bytes@.len() as int) == bytes@);
    out
}

/// The Windows WLAN profile of an open network named `ssid` that connects automatically.
pub open spec fn open_profile_spec(ssid: Seq<char>) -> Seq<char> {
    let escaped = xml_escape_spec(ssid);
    "<?xml version=\"1.0\"?><WLANProfile xmlns=\"http://www.microsoft.com/networking/WLAN/profile/v1\"><name>"@
        + escaped + "</name><SSIDConfig><SSID><hex>"@ + hex_upper_spec(encode_utf8(ssid))
        + "</hex><name>"@ + escaped
        + "</name></SSID></SSIDConfig><connectionType>ESS</connectionType><connectionMode>auto</connectionMode><MSM><security><authEncryption><authentication>open</authentication><encryption>none</encryption><useOneX>false</useOneX></authEncryption></security></MSM></WLANProfile>"@
}

/// The WLAN profile XML of the open network `ssid`.
pub fn open_profile_xml(ssid: &str) -> (xml: String)
    ensures
        xml@ == open_profile_spec(ssid@),
{
    let escaped = xml_escape(ssid);
    let hex = hex_upper_text(ssid.as_bytes());
    let mut xml = String::new();
    push_str(
        &mut xml,
        "<?xml version=\"1.0\"?><WLANProfile xmlns=\"http://www.microsoft.com/networking/WLAN/profile/v1\"><name>",
    );
    push_str(&mut xml, escaped.as_str());
    push_str(&mut xml, "</name><SSIDConfig><SSID><hex>");
    push_str(&mut xml, hex.as_str());
    push_str(&mut xml, "</hex><name>");
    push_str(&mut xml, escaped.as_str());
    push_str(
        &mut xml,
        "</name></SSID></SSIDConfig><connectionType>ESS</connectionType><connectionMode>auto</connectionMode><MSM><security><authEncryption><authentication>open</authentication><encryption>none</encryption><useOneX>false</useOneX></authEncryption></security></MSM></WLANProfile>",
    );
    xml
}

/// A Wi-Fi error naming the failed stage and the Windows error code.
pub fn wlan_error(stage: &str, code: u32) -> (e: CoreError)
    ensures
        e@ == crate::workflow::CoreErrorView::Wifi(
            stage@ + "（Windows 错误码 "@ + decimal_spec(code as nat) + "）"@,
        ),
{
    let mut m = stage.to_owned();
    push_str(&mut m, "（Windows 错误码 ");
    push_all(&mut m, &decimal_chars(code));
    push_str(&mut m, "）");
    CoreError::Wifi(m)
}

/// A Wi-Fi error naming the failed stage, the Windows error code and the WLAN reason code.
pub fn wlan_error_with_reason(stage: &str, code: u32, reason: u32) -> (e: CoreError)
    ensures
        e@ == crate::workflow::CoreErrorView::Wifi(
            stage@ + "（Windows 错误码 "@ + decimal_spec(code as nat) + "，WLAN 原因码 "@
                + decimal_spec(reason as nat) + "）"@,
        ),
{
    let mut m = stage.to_owned();
    push_str(&mut m, "（Windows 错误码 ");
    push_all(&mut m, &decimal_chars(code));
    push_str(&mut m, "，WLAN 原因码 ");
    push_all(&mut m, &decimal_chars(reason));
    push_str(&mut m, "）");
    CoreError::Wifi(m)
}

/// The NUL-terminated UTF-16 form of `value` that Windows APIs take.
pub fn wide(value: &str) -> (w: Vec<u16>)
    ensures
        w@ == utf16_units(value@).push(0u16),
{
    let mut w = utf16_of(value);
    w.push(0u16);
    w
}

// ----- Linux -----
/// `s` with its white-space-separated words joined by single spaces; `gap` says whether a
/// space is owed before the next word.
pub open spec fn squeeze_words(s: Seq<char>, seen_word: bool, gap: bool) -> Seq<char>
    decreases s.len(),
{
    if s.len() == 0 {
        seq![]
    } else if is_white_space(s[0]) {
        squeeze_words(s.drop_first(), seen_word, seen_word)
    } else {
        (if gap {
            seq![' ']
        } else {
            seq![]
        }) + seq![s[0]] + squeeze_words(s.drop_first(), true, false)
    }
}

/// Command output as one line: its words joined by single spaces, at most 180 characters,
/// or a generic text when it has no words.
pub open spec fn command_message_spec(message: Seq<char>) -> Seq<char> {
    let collapsed = squeeze_words(message, false, false);
    if collapsed.len() == 0 {
        "NetworkManager 返回失败状态"@
    } else if collapsed.len() <= 180 {
        collapsed
    } else {
        collapsed.take(180)
    }
}

/// A one-line summary of a command's output (see [`command_message_spec`]).
pub fn sanitize_command_message(message: &str) -> (out: String)
    ensures
        out@ == command_message_spec(message@),
{
    let chars = chars_of(message);
    let n = chars.len();
    let mut collapsed: Vec<char> = Vec::new();
    let mut seen_word = false;
    let mut gap = false;
    let mut i: usize = 0;
    assert(chars@.skip(0) == chars@);
    while i < n
        invariant
            n == chars@.len(),
            i <= n,
            !seen_word ==> !gap,
            collapsed@ + squeeze_words(chars@.skip(i as int), seen_word, gap) == squeeze_words(
                chars@,
                false,
                false,
            ),
        decreases n - i,
    {
        let c = chars[i];
        proof {
            assert(chars@.skip(i as int)[0] == c);
            assert(chars@.skip(i as int).drop_first() == chars@.skip(i + 1));
        }
        if is_white_space_exec(c) {
            gap = seen_word;
        } else {
            let ghost before = collapsed@;
            if gap {
                collapsed.push(' ');
            }
            collapsed.push(c);
            proof {
                let pre = if gap {
                    seq![' ']
                } else {
                    seq![]
                };
                assert(collapsed@ == before + pre + seq![c]);
                assert(before + (pre + seq![c] + squeeze_words(chars@.skip(i + 1), true, false))
                    == collapsed@ + squeeze_words(chars@.skip(i + 1), true, false));
            }
            seen_word = true;
            gap = false;
        }
        i = i + 1;
    }
    assert(collapsed@ + Seq::<char>::empty() == collapsed@);
    if collapsed.len() == 0 {
        return "NetworkManager 返回失败状态".to_owned();
    }
    if collapsed.len() <= 180 {
        return string_of(&collapsed);
    }
    let mut cut: Vec<char> = Vec::new();
    let mut k: usize = 0;
    while k < 180
        invariant
            k <= 180,
            180 < collapsed@.len(),
            cut@ == collapsed@.take(k as int),
        decreases 180 - k,
    {
        cut.push(collapsed[k]);
        proof {
            assert(collapsed@.take(k + 1) == collapsed@.take(k as int).push(collapsed@[k as int]));
        }
        k = k + 1;
    }
    string_of(&cut)
}

/// The systemd escape of one character of a path.
pub open spec fn systemd_escape_char(c: char) -> Seq<char> {
    if c == '\\' {
        seq!['\\', '\\']
    } else if c == '"' {
        seq!['\\', '"']
    } else if c == '%' {
        seq!['%', '%']
    } else {
        seq![c]
    }
}

/// The systemd escape of a path.
pub open spec fn systemd_escaped(path: Seq<char>) -> Seq<char>
    decreases path.len(),
{
    if path.len() == 0 {
        seq![]
    } else {
        systemd_escaped(path.drop_last()) + systemd_escape_char(path.last())
    }
}

/// A path quoted for a systemd `ExecStart=` line: backslashes and double quotes escaped,
/// `%` doubled, the whole in double quotes.
pub fn systemd_quote(path: &str) -> (out: String)
    ensures
        out@ == seq!['"'] + systemd_escaped(path@) + seq!['"'],
{
    let chars = chars_of(path);
    let mut out = String::new();
    push_char(&mut out, '"');
    let mut i: usize = 0;
    while i < chars.len()
        invariant
            i <= chars@.len(),
            chars@ == path@,
            out@ == seq!['"'] + systemd_escaped(chars@.take(i as int)),
        decreases chars.len() - i,
    {
        let c = chars[i];
        if c == '\\' {
            push_char(&mut out, '\\');
            push_char(&mut out, '\\');
        } else if c == '"' {
            push_char(&mut out, '\\');
            push_char(&mut out, '"');
        } else if c == '%' {
            push_char(&mut out, '%');
            push_char(&mut out, '%');
        } else {
            push_char(&mut out, c);
        }
        proof {
            assert(chars@.take(i + 1).drop_last() == chars@.take(i as int));
        }
        i = i + 1;
    }
    assert(chars@.take(chars@.len() as int) == chars@);
    push_char(&mut out, '"');
    out
}

/// The systemd user unit that starts the program (already quoted as `exec`) at login.
pub open spec fn systemd_unit_spec(exec: Seq<char>) -> Seq<char> {
    "[Unit]\nDescription=HIT Campus Network Auto Login\nAfter=graphical-session.target NetworkManager.service\nPartOf=graphical-session.target\n\n[Service]\nType=simple\nExecStart="@
        + exec + " --autostart\nRestart=no\n\n[Install]\nWantedBy=default.target\n"@
}

/// The systemd user unit for the quoted executable `exec`.
pub fn systemd_unit(exec: &str) -> (unit: String)
    ensures
        unit@ == systemd_unit_spec(exec@),
{
    let mut unit = String::new();
    push_str(
        &mut unit,
        "[Unit]\nDescription=HIT Campus Network Auto Login\nAfter=graphical-session.target NetworkManager.service\nPartOf=graphical-session.target\n\n[Service]\nType=simple\nExecStart=",
    );
    push_str(&mut unit, exec);
    push_str(&mut unit, " --autostart\nRestart=no\n\n[Install]\nWantedBy=default.target\n");
    unit
}

/// A console answer to a yes/no question: empty keeps `default`; `y`/`yes` and `n`/`no`
/// (trimmed, any ASCII case) decide; anything else asks again.
pub open spec fn yes_no_spec(answer: Seq<char>, default: bool) -> Option<bool> {
    let a = ascii_lowercase(trim(answer));
    if a.len() == 0 {
        Some(default)
    } else if a == "y"@ || a == "yes"@ {
        Some(true)
    } else if a == "n"@ || a == "no"@ {
        Some(false)
    } else {
        None
    }
}

/// Reads a console answer to a yes/no question (see [`yes_no_spec`]).
pub fn parse_yes_no(answer: &str, default: bool) -> (r: Option<bool>)
    ensures
        r == yes_no_spec(answer@, default),
{
    let a = to_ascii_lowercase(&trim_chars(&chars_of(answer)));
    if a.len() == 0 {
        Some(default)
    } else if chars_eq_str(&a, "y") || chars_eq_str(&a, "yes") {
        Some(true)
    } else if chars_eq_str(&a, "n") || chars_eq_str(&a, "no") {
        Some(false)
    } else {
        None
    }
}

} // verus!
