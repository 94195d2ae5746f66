//! The Srun portal: query encoding, reading the portal's replies, and turning the
//! portal's messages into safe user-facing text.
use vstd::prelude::*;
use vstd::utf8::{decode_utf8, encode_scalar, encode_utf8};

use crate::crypto::{login_query, login_query_spec};
use crate::pattern::{regex_replaced, replace_all};
use crate::parsing::{
    jsonp_payload, json_object_members, member_text, parse_json_or_jsonp, parse_portal_fields,
    portal_ac_id, portal_user_ip, JsonObject, PortalFields,
};
use crate::workflow::{CoreError, CoreErrorView};
use crate::text::{
    trim_end, trim_start, ascii_lowercase, ascii_uppercase, chars_eq_str, chars_of, contains_exec, contains_seq,
    is_white_space, is_white_space_exec, occurs_at, occurs_at_exec, push_all, push_char,
    push_str, string_of, to_ascii_lowercase, to_ascii_uppercase, trim, trim_chars,
};

verus! {

// ----- Form encoding -----
/// Bytes that `application/x-www-form-urlencoded` keeps as they are.
pub open spec fn form_unchanged(b: u8) -> bool {
    b == 0x2A || b == 0x2D || b == 0x2E || b == 0x5F || (0x30 <= b <= 0x39) || (0x41 <= b <= 0x5A)
        || (0x61 <= b <= 0x7A)
}

/// Upper-case hexadecimal digit of a nibble.
pub open spec fn hex_upper(n: u8) -> char {
    if n < 10 {
        (('0' as u8) + n) as char
    } else {
        (('A' as u8) + (n - 10)) as char
    }
}

/// The form encoding of one byte: kept, `+` for a space, else `%XX`.
pub open spec fn form_byte(b: u8) -> Seq<char> {
    if form_unchanged(b) {
        seq![b as char]
    } else if b == 0x20 {
        seq!['+']
    } else {
        seq!['%', hex_upper(b >> 4u8), hex_upper(b & 0x0fu8)]
    }
}

/// The form encoding of a byte sequence.
pub open spec fn form_bytes(bytes: Seq<u8>) -> Seq<char>
    decreases bytes.len(),
{
    if bytes.len() == 0 {
        seq![]
    } else {
        form_bytes(bytes.drop_last()) + form_byte(bytes.last())
    }
}

/// The form encoding of the UTF-8 bytes of a text.
pub open spec fn form_component(text: Seq<char>) -> Seq<char> {
    form_bytes(encode_utf8(text))
}

/// Calls `url::form_urlencoded::byte_serialize` (crate `form_urlencoded`, re-exported by
/// `url`). Claimed: the text is the byte-wise form encoding of `bytes`.
#[verifier::external_body]
fn form_encode_bytes(bytes: &[u8]) -> (text: String)
    ensures
        text@ == form_bytes(bytes@),
{
    url::form_urlencoded::byte_serialize(bytes).collect()
}

/// `name=value` pairs, each side form-encoded on its own, joined by `&`.
pub open spec fn form_query(pairs: Seq<(Seq<char>, Seq<char>)>) -> Seq<char>
    decreases pairs.len(),
{
    if pairs.len() == 0 {
        seq![]
    } else {
        let last = pairs.last();
        let item = form_component(last.0) + seq!['='] + form_component(last.1);
        if pairs.len() == 1 {
            item
        } else {
            form_query(pairs.drop_last()) + seq!['&'] + item
        }
    }
}

/// The pairs of string slices as plain values.
pub open spec fn pairs_view(pairs: Seq<(&str, &str)>) -> Seq<(Seq<char>, Seq<char>)> {
    pairs.map_values(|p: (&str, &str)| (p.0@, p.1@))
}

/// Encodes query pairs with the HTML form rules; in particular a literal `+` becomes
/// `%2B` rather than being read as a space.
pub struct FormQueryEncoder;

impl FormQueryEncoder {
    /// `name=value` pairs, each side form-encoded on its own, joined by `&`.
    pub fn encode(pairs: &[(&str, &str)]) -> (query: String)
        ensures
            query@ == form_query(pairs_view(pairs@)),
    {
        let mut query = String::new();
        let mut i: usize = 0;
        while i < pairs.len()
            invariant
                i <= pairs@.len(),
                query@ == form_query(pairs_view(pairs@.take(i as int))),
            decreases pairs.len() - i,
        {
            let (name, value) = pairs[i];
            if i > 0 {
                push_char(&mut query, '&');
            }
            push_str(&mut query, form_encode_bytes(name.as_bytes()).as_str());
            push_char(&mut query, '=');
            push_str(&mut query, form_encode_bytes(value.as_bytes()).as_str());
            proof {
                assert(pairs_view(pairs@.take(i + 1)).drop_last() == pairs_view(
                    pairs@.take(i as int),
                ));
                assert(pairs_view(pairs@.take(i + 1)).last() == (name@, value@));
            }
            i = i + 1;
        }
        assert(pairs@.take(pairs@.len() as int) == pairs@);
        query
    }
}

/// No byte of the UTF-8 encoding of a character other than the space is the space byte.
proof fn lemma_scalar_has_no_space_byte(c: char)
    requires
        c != ' ',
    ensures
        forall|i: int| 0 <= i < encode_scalar(c as u32).len() ==> #[trigger] encode_scalar(c as u32)[i] != 0x20u8,
{
    let v = c as u32;
    vstd::utf8::char_is_scalar(c);
    assert(v != 0x20u32);
    assert(v <= 0x7Fu32 && v != 0x20u32 ==> (v & 0x7Fu32) as u8 != 0x20u8) by (bit_vector);
    assert(forall|x: u8| #[trigger] (0xC0u8 | x) != 0x20u8) by (bit_vector);
    assert(forall|x: u8| #[trigger] (0xE0u8 | x) != 0x20u8) by (bit_vector);
    assert(forall|x: u8| #[trigger] (0xF0u8 | x) != 0x20u8) by (bit_vector);
    assert(forall|x: u8| #[trigger] (0x80u8 | x) != 0x20u8) by (bit_vector);
}

/// A text without spaces has no space byte in its UTF-8 encoding.
proof fn lemma_utf8_has_no_space_byte(s: Seq<char>)
    requires
        forall|i: int| 0 <= i < s.len() ==> s[i] != ' ',
    ensures
        forall|i: int| 0 <= i < encode_utf8(s).len() ==> encode_utf8(s)[i] != 0x20u8,
    decreases s.len(),
{
    if s.len() > 0 {
        lemma_scalar_has_no_space_byte(s[0]);
        lemma_utf8_has_no_space_byte(s.drop_first());
        let a = encode_scalar(s[0] as u32);
        let b = encode_utf8(s.drop_first());
        assert forall|i: int| 0 <= i < (a + b).len() implies (a + b)[i] != 0x20u8 by {
            if i >= a.len() {
                assert((a + b)[i] == b[i - a.len()]);
            }
        }
    }
}

/// The form encoding of bytes without the space byte holds no `+`.
proof fn lemma_form_bytes_no_plus(bytes: Seq<u8>)
    requires
        forall|i: int| 0 <= i < bytes.len() ==> bytes[i] != 0x20u8,
    ensures
        forall|i: int| 0 <= i < form_bytes(bytes).len() ==> form_bytes(bytes)[i] != '+',
    decreases bytes.len(),
{
    if bytes.len() > 0 {
        lemma_form_bytes_no_plus(bytes.drop_last());
        let b = bytes.last();
        let x = form_bytes(bytes.drop_last());
        let y = form_byte(b);
        assert(b >> 4u8 < 16u8) by (bit_vector);
        assert(b & 0x0fu8 < 16u8) by (bit_vector);
        assert forall|i: int| 0 <= i < y.len() implies y[i] != '+' by {}
        assert forall|i: int| 0 <= i < (x + y).len() implies (x + y)[i] != '+' by {
            if i >= x.len() {
                assert((x + y)[i] == y[i - x.len()]);
            }
        }
    }
}

/// A literal `+` is never sent raw: when no name or value holds a space, the encoded query
/// holds no `+` (a `+` in the query only ever stands for a space).
pub proof fn lemma_query_has_no_raw_plus(pairs: Seq<(Seq<char>, Seq<char>)>)
    requires
        forall|k: int, i: int| 0 <= k < pairs.len() && 0 <= i < pairs[k].0.len() ==> pairs[k].0[i] != ' ',
        forall|k: int, i: int| 0 <= k < pairs.len() && 0 <= i < pairs[k].1.len() ==> pairs[k].1[i] != ' ',
    ensures
        forall|i: int| 0 <= i < form_query(pairs).len() ==> form_query(pairs)[i] != '+',
    decreases pairs.len(),
{
    if pairs.len() > 0 {
        let last = pairs.last();
        assert forall|i: int| 0 <= i < last.0.len() implies last.0[i] != ' ' by {
            assert(last == pairs[pairs.len() - 1]);
        }
        assert forall|i: int| 0 <= i < last.1.len() implies last.1[i] != ' ' by {
            assert(last == pairs[pairs.len() - 1]);
        }
        lemma_utf8_has_no_space_byte(last.0);
        lemma_utf8_has_no_space_byte(last.1);
        lemma_form_bytes_no_plus(encode_utf8(last.0));
        lemma_form_bytes_no_plus(encode_utf8(last.1));
        let name = form_component(last.0);
        let value = form_component(last.1);
        let item = name + seq!['='] + value;
        assert forall|i: int| 0 <= i < item.len() implies item[i] != '+' by {
            if i < name.len() {
                assert(item[i] == name[i]);
            } else if i > name.len() {
                assert(item[i] == value[i - name.len() - 1]);
            }
        }
        if pairs.len() > 1 {
            let rest = pairs.drop_last();
            assert forall|k: int, i: int| 0 <= k < rest.len() && 0 <= i < rest[k].0.len() implies rest[k].0[i] != ' ' by {
                assert(rest[k] == pairs[k]);
            }
            assert forall|k: int, i: int| 0 <= k < rest.len() && 0 <= i < rest[k].1.len() implies rest[k].1[i] != ' ' by {
                assert(rest[k] == pairs[k]);
            }
            lemma_query_has_no_raw_plus(rest);
            let head = form_query(rest);
            let whole = head + seq!['&'] + item;
            assert forall|i: int| 0 <= i < whole.len() implies whole[i] != '+' by {
                if i < head.len() {
                    assert(whole[i] == head[i]);
                } else if i > head.len() {
                    assert(whole[i] == item[i - head.len() - 1]);
                }
            }
        }
    }
}

// ----- Form decoding -----
/// The value of a hexadecimal digit (either case).
pub open spec fn hex_digit_value(c: char) -> Option<u8> {
    if '0' <= c <= '9' {
        Some((c as int - '0' as int) as u8)
    } else if 'A' <= c <= 'F' {
        Some((c as int - 'A' as int + 10) as u8)
    } else if 'a' <= c <= 'f' {
        Some((c as int - 'a' as int + 10) as u8)
    } else {
        None
    }
}

/// The bytes of one form-encoded (`application/x-www-form-urlencoded`) component: `+` is a
/// space, `%` with two hex digits is that byte, any other character stands for its UTF-8
/// bytes.
pub open spec fn form_decode_bytes(s: Seq<char>) -> Seq<u8>
    decreases s.len(),
{
    if s.len() == 0 {
        seq![]
    } else if s[0] == '+' {
        seq![0x20u8] + form_decode_bytes(s.drop_first())
    } else if s[0] == '%' && s.len() >= 3 && hex_digit_value(s[1]) is Some && hex_digit_value(s[2]) is Some {
        seq![(hex_digit_value(s[1]).unwrap() * 16 + hex_digit_value(s[2]).unwrap()) as u8]
            + form_decode_bytes(s.skip(3))
    } else {
        encode_scalar(s[0] as u32) + form_decode_bytes(s.drop_first())
    }
}

/// The text of one form-encoded component, its bytes read as UTF-8.
pub open spec fn form_decode(s: Seq<char>) -> Seq<char> {
    decode_utf8(form_decode_bytes(s))
}

/// One `name=value` segment: split at its first `=` (a segment without one is a name with
/// an empty value), each side decoded.
pub open spec fn form_decode_pair(segment: Seq<char>) -> (Seq<char>, Seq<char>) {
    match segment.index_of_first('=') {
        Some(k) => (form_decode(segment.take(k)), form_decode(segment.skip(k + 1))),
        None => (form_decode(segment), Seq::empty()),
    }
}

/// A form-encoded query read back: split at every `&`, empty segments skipped, each
/// segment decoded as a pair.
pub open spec fn form_decode_query(query: Seq<char>) -> Seq<(Seq<char>, Seq<char>)>
    decreases query.len(),
{
    match query.index_of_last('&') {
        Some(k) => {
            proof {
                query.index_of_last_ensures('&');
            }
            let segment = query.skip(k + 1);
            form_decode_query(query.take(k)) + if segment.len() == 0 {
                Seq::empty()
            } else {
                seq![form_decode_pair(segment)]
            }
        },
        None => if query.len() == 0 {
            Seq::empty()
        } else {
            seq![form_decode_pair(query)]
        },
    }
}

/// Decoding the encoding of one byte, followed by anything, gives the byte back first.
proof fn lemma_form_byte_decodes(b: u8, rest: Seq<char>)
    ensures
        form_decode_bytes(form_byte(b) + rest) == seq![b] + form_decode_bytes(rest),
{
    let s = form_byte(b) + rest;
    if form_unchanged(b) {
        assert(s[0] == b as char);
        assert(s.drop_first() == rest);
        assert((b as char) as u32 == b as u32);
        assert(b <= 0x7Fu8);
        assert((b as u32) & 0x7Fu32 == b as u32) by (bit_vector)
            requires
                b <= 0x7Fu8,
        ;
        assert(encode_scalar((b as char) as u32) == seq![b]);
    } else if b == 0x20 {
        assert(s[0] == '+');
        assert(s.drop_first() == rest);
    } else {
        let hi = b >> 4u8;
        let lo = b & 0x0fu8;
        assert((b >> 4u8) < 16u8) by (bit_vector);
        assert((b & 0x0fu8) < 16u8) by (bit_vector);
        assert((b >> 4u8) * 16 + (b & 0x0fu8) == b) by (bit_vector);
        assert(s[0] == '%');
        assert(s[1] == hex_upper(hi));
        assert(s[2] == hex_upper(lo));
        assert(hex_digit_value(hex_upper(hi)) == Some(hi));
        assert(hex_digit_value(hex_upper(lo)) == Some(lo));
        assert(s.skip(3) == rest);
    }
}

/// Form encoding distributes over concatenation of byte sequences.
proof fn lemma_form_bytes_concat(a: Seq<u8>, b: Seq<u8>)
    ensures
        form_bytes(a + b) == form_bytes(a) + form_bytes(b),
    decreases b.len(),
{
    if b.len() == 0 {
        assert(a + b == a);
    } else {
        lemma_form_bytes_concat(a, b.drop_last());
        assert((a + b).drop_last() == a + b.drop_last());
        assert((a + b).last() == b.last());
    }
}

/// Decoding the form encoding of bytes gives the bytes back.
proof fn lemma_form_bytes_round_trip(bytes: Seq<u8>)
    ensures
        form_decode_bytes(form_bytes(bytes)) == bytes,
    decreases bytes.len(),
{
    if bytes.len() > 0 {
        let rest = bytes.drop_first();
        assert(bytes == seq![bytes[0]] + rest);
        lemma_form_bytes_concat(seq![bytes[0]], rest);
        let single = seq![bytes[0]];
        assert(single.drop_last() == Seq::<u8>::empty());
        assert(single.last() == bytes[0]);
        assert(form_bytes(Seq::<u8>::empty()) == Seq::<char>::empty());
        assert(Seq::<char>::empty() + form_byte(bytes[0]) == form_byte(bytes[0]));
        assert(form_bytes(single) == form_byte(bytes[0]));
        lemma_form_byte_decodes(bytes[0], form_bytes(rest));
        lemma_form_bytes_round_trip(rest);
    }
}

/// Decoding the form encoding of a text gives the text back.
pub proof fn lemma_form_component_round_trip(text: Seq<char>)
    ensures
        form_decode(form_component(text)) == text,
{
    lemma_form_bytes_round_trip(encode_utf8(text));
    vstd::utf8::encode_utf8_decode_utf8(text);
}

/// Characters that a form-encoded component never holds: they separate pairs and names.
pub open spec fn form_separator(c: char) -> bool {
    c == '&' || c == '='
}

/// The form encoding of bytes holds no separator.
proof fn lemma_form_bytes_no_separator(bytes: Seq<u8>)
    ensures
        forall|i: int| 0 <= i < form_bytes(bytes).len() ==> !form_separator(#[trigger] form_bytes(bytes)[i]),
    decreases bytes.len(),
{
    if bytes.len() > 0 {
        lemma_form_bytes_no_separator(bytes.drop_last());
        let b = bytes.last();
        let x = form_bytes(bytes.drop_last());
        let y = form_byte(b);
        assert((b >> 4u8) < 16u8) by (bit_vector);
        assert((b & 0x0fu8) < 16u8) by (bit_vector);
        assert forall|i: int| 0 <= i < y.len() implies !form_separator(#[trigger] y[i]) by {}
        assert forall|i: int| 0 <= i < (x + y).len() implies !form_separator(#[trigger] (x + y)[i]) by {
            if i >= x.len() {
                assert((x + y)[i] == y[i - x.len()]);
            } else {
                assert((x + y)[i] == x[i]);
            }
        }
    }
}

/// `s[k]` is the first `c` in `s`.
proof fn lemma_first_index_at(s: Seq<char>, c: char, k: int)
    requires
        0 <= k < s.len(),
        s[k] == c,
        forall|j: int| 0 <= j < k ==> s[j] != c,
    ensures
        s.index_of_first(c) == Some(k),
{
    s.index_of_first_ensures(c);
    match s.index_of_first(c) {
        Some(m) => {
            if m < k {
                assert(s[m] != c);
            } else if m > k {
                assert(s[k] != c);
            }
        },
        None => {
            assert(s.contains(c));
        },
    }
}

/// `s[k]` is the last `c` in `s`.
proof fn lemma_last_index_at(s: Seq<char>, c: char, k: int)
    requires
        0 <= k < s.len(),
        s[k] == c,
        forall|j: int| k < j < s.len() ==> s[j] != c,
    ensures
        s.index_of_last(c) == Some(k),
{
    s.index_of_last_ensures(c);
    match s.index_of_last(c) {
        Some(m) => {
            if m < k {
                assert(s[k] != c);
            } else if m > k {
                assert(s[m] != c);
            }
        },
        None => {
            assert(s.contains(c));
        },
    }
}

/// Reading back an encoded query gives the pairs that were encoded: a decoder that splits
/// at `&` and at the first `=` and form-decodes each side recovers every name and value
/// exactly, a `+` in them included.
pub proof fn lemma_form_query_round_trip(pairs: Seq<(Seq<char>, Seq<char>)>)
    ensures
        form_decode_query(form_query(pairs)) == pairs,
    decreases pairs.len(),
{
    if pairs.len() == 0 {
        assert(form_query(pairs) == Seq::<char>::empty());
        assert(Seq::<char>::empty().index_of_last('&') is None) by {
            Seq::<char>::empty().index_of_last_ensures('&');
        }
    } else {
        let last = pairs.last();
        let name = form_component(last.0);
        let value = form_component(last.1);
        lemma_form_bytes_no_separator(encode_utf8(last.0));
        lemma_form_bytes_no_separator(encode_utf8(last.1));
        lemma_form_component_round_trip(last.0);
        lemma_form_component_round_trip(last.1);
        let item = name + seq!['='] + value;
        assert(item[name.len() as int] == '=');
        assert forall|j: int| 0 <= j < name.len() implies item[j] != '=' by {
            assert(item[j] == name[j]);
        }
        lemma_first_index_at(item, '=', name.len() as int);
        assert(item.take(name.len() as int) == name);
        assert(item.skip(name.len() as int + 1) == value);
        assert(form_decode_pair(item) == last);
        assert forall|j: int| 0 <= j < item.len() implies item[j] != '&' by {
            if j < name.len() {
                assert(item[j] == name[j]);
            } else if j > name.len() {
                assert(item[j] == value[j - name.len() - 1]);
            }
        }
        if pairs.len() == 1 {
            assert(form_query(pairs) == item);
            item.index_of_last_ensures('&');
            assert(pairs == seq![last]);
        } else {
            let rest = pairs.drop_last();
            let head = form_query(rest);
            let whole = head + seq!['&'] + item;
            assert(form_query(pairs) == whole);
            assert(whole[head.len() as int] == '&');
            assert forall|j: int| head.len() < j < whole.len() implies whole[j] != '&' by {
                assert(whole[j] == item[j - head.len() - 1]);
            }
            lemma_last_index_at(whole, '&', head.len() as int);
            assert(whole.take(head.len() as int) == head);
            assert(whole.skip(head.len() as int + 1) == item);
            lemma_form_query_round_trip(rest);
            assert(pairs == rest + seq![last]);
        }
    }
}

// ----- Reading portal replies -----
/// The trimmed text of member `key`, unless it is empty or `0`.
pub open spec fn meaningful_spec(obj: Seq<(Seq<char>, Option<Seq<char>>)>, key: Seq<char>) -> Option<Seq<char>> {
    let t = trim(member_text(obj, key));
    if t.len() == 0 || t == "0"@ {
        None
    } else {
        Some(t)
    }
}

/// The trimmed text of member `key` of `obj`, unless it is empty or `0`.
pub fn meaningful_field(obj: &JsonObject, key: &str) -> (r: Option<Vec<char>>)
    ensures
        r is Some <==> meaningful_spec(obj@, key@) is Some,
        r matches Some(t) ==> t@ == meaningful_spec(obj@, key@).unwrap(),
{
    let text = obj.text(key);
    let t = trim_chars(&chars_of(text.as_str()));
    if t.len() == 0 || chars_eq_str(&t, "0") {
        None
    } else {
        Some(t)
    }
}

/// The first of `keys` whose member is meaningful.
pub open spec fn first_meaningful_spec(obj: Seq<(Seq<char>, Option<Seq<char>>)>, keys: Seq<Seq<char>>) -> Option<Seq<char>>
    decreases keys.len(),
{
    if keys.len() == 0 {
        None
    } else {
        match meaningful_spec(obj, keys[0]) {
            Some(t) => Some(t),
            None => first_meaningful_spec(obj, keys.drop_first()),
        }
    }
}

/// The meaningful text of the first of `keys` that has one.
pub fn first_meaningful(obj: &JsonObject, keys: &[&str]) -> (r: Option<Vec<char>>)
    ensures
        r is Some <==> first_meaningful_spec(obj@, keys@.map_values(|k: &str| k@)) is Some,
        r matches Some(t) ==> t@ == first_meaningful_spec(obj@, keys@.map_values(|k: &str| k@)).unwrap(),
{
    let ghost all = keys@.map_values(|k: &str| k@);
    let mut i: usize = 0;
    assert(all.skip(0) == all);
    while i < keys.len()
        invariant
            i <= keys@.len(),
            all == keys@.map_values(|k: &str| k@),
            first_meaningful_spec(obj@, all) == first_meaningful_spec(obj@, all.skip(i as int)),
        decreases keys.len() - i,
    {
        proof {
            assert(all.skip(i as int)[0] == keys@[i as int]@);
            assert(all.skip(i as int).drop_first() == all.skip(i + 1));
        }
        let r = meaningful_field(obj, keys[i]);
        if r.is_some() {
            return r;
        }
        i = i + 1;
    }
    None
}

/// `fail` and `login_error` (in any ASCII case) say nothing about the cause.
pub open spec fn is_generic_failure_spec(m: Seq<char>) -> bool {
    ascii_lowercase(m) == "fail"@ || ascii_lowercase(m) == "login_error"@
}

/// Whether `message` is a generic failure marker.
pub fn is_generic_failure_marker(message: &Vec<char>) -> (b: bool)
    ensures
        b == is_generic_failure_spec(message@),
{
    let lower = to_ascii_lowercase(message);
    chars_eq_str(&lower, "fail") || chars_eq_str(&lower, "login_error")
}

/// The explanation of a known Srun error code.
pub open spec fn error_explanation(code: Seq<char>) -> Option<Seq<char>> {
    if code == "E2531"@ {
        Some("用户不存在或账号信息有误"@)
    } else if code == "E2532"@ {
        Some("两次认证间隔太短，请等待 10 秒后重试"@)
    } else if code == "E2533"@ {
        Some("密码错误次数超过限制，请等待 5 分钟后重试"@)
    } else if code == "E2553"@ {
        Some("账号或密码错误"@)
    } else if code == "E2606"@ {
        Some("用户账号已暂停"@)
    } else if code == "E2614"@ {
        Some("MAC 地址绑定错误"@)
    } else if code == "E2615"@ {
        Some("IP 地址绑定错误"@)
    } else if code == "E2616"@ {
        Some("账号余额不足"@)
    } else if code == "E2620"@ {
        Some("登录设备数量已达到上限"@)
    } else if code == "E2833"@ {
        Some("当前 IP 地址有误，请重新连接 Wi-Fi"@)
    } else if code == "E6506"@ {
        Some("用户名或密码错误"@)
    } else if code == "E6515"@ {
        Some("系统禁止客户端登录，需要使用网页认证"@)
    } else if code == "E6529"@ {
        Some("认证失败，但服务器没有返回详细原因"@)
    } else {
        None
    }
}

fn error_explanation_exec(code: &Vec<char>) -> (r: Option<&'static str>)
    ensures
        r is Some <==> error_explanation(code@) is Some,
        r matches Some(e) ==> e@ == error_explanation(code@).unwrap(),
{
    if chars_eq_str(code, "E2531") {
        Some("用户不存在或账号信息有误")
    } else if chars_eq_str(code, "E2532") {
        Some("两次认证间隔太短，请等待 10 秒后重试")
    } else if chars_eq_str(code, "E2533") {
        Some("密码错误次数超过限制，请等待 5 分钟后重试")
    } else if chars_eq_str(code, "E2553") {
        Some("账号或密码错误")
    } else if chars_eq_str(code, "E2606") {
        Some("用户账号已暂停")
    } else if chars_eq_str(code, "E2614") {
        Some("MAC 地址绑定错误")
    } else if chars_eq_str(code, "E2615") {
        Some("IP 地址绑定错误")
    } else if chars_eq_str(code, "E2616") {
        Some("账号余额不足")
    } else if chars_eq_str(code, "E2620") {
        Some("登录设备数量已达到上限")
    } else if chars_eq_str(code, "E2833") {
        Some("当前 IP 地址有误，请重新连接 Wi-Fi")
    } else if chars_eq_str(code, "E6506") {
        Some("用户名或密码错误")
    } else if chars_eq_str(code, "E6515") {
        Some("系统禁止客户端登录，需要使用网页认证")
    } else if chars_eq_str(code, "E6529") {
        Some("认证失败，但服务器没有返回详细原因")
    } else {
        None
    }
}

/// A known error code (trimmed, any ASCII case) as `explanation（CODE）`.
pub open spec fn translate_spec(message: Seq<char>) -> Option<Seq<char>> {
    let code = ascii_uppercase(trim(message));
    match error_explanation(code) {
        Some(e) => Some(e + "（"@ + code + "）"@),
        None => None,
    }
}

/// The explanation of a known Srun error code in `message`.
pub fn translate_error_code(message: &Vec<char>) -> (r: Option<String>)
    ensures
        r is Some <==> translate_spec(message@) is Some,
        r matches Some(t) ==> t@ == translate_spec(message@).unwrap(),
{
    let code = to_ascii_uppercase(&trim_chars(message));
    match error_explanation_exec(&code) {
        Some(e) => {
            let mut out = String::new();
            push_str(&mut out, e);
            push_str(&mut out, "（");
            push_all(&mut out, &code);
            push_str(&mut out, "）");
            Some(out)
        },
        None => None,
    }
}

// ----- Safe portal messages -----
/// Carriage returns, line feeds and tabs become spaces.
pub open spec fn blank_controls(s: Seq<char>) -> Seq<char> {
    s.map_values(|c: char| if c == '\r' || c == '\n' || c == '\t' { ' ' } else { c })
}

/// Number of characters before the first white space of `t` (all of `t` if none).
pub open spec fn ws_index(t: Seq<char>) -> nat
    decreases t.len(),
{
    if t.len() == 0 {
        0
    } else if is_white_space(t[0]) {
        0
    } else {
        1 + ws_index(t.drop_first())
    }
}

/// `ws_index` never exceeds the length.
pub proof fn lemma_ws_index_bound(t: Seq<char>)
    ensures
        ws_index(t) <= t.len(),
    decreases t.len(),
{
    if t.len() > 0 {
        lemma_ws_index_bound(t.drop_first());
    }
}

proof fn lemma_ws_index(t: Seq<char>, m: int)
    requires
        0 <= m <= t.len(),
        forall|k: int| 0 <= k < m ==> !is_white_space(#[trigger] t[k]),
        m == t.len() || is_white_space(t[m]),
    ensures
        ws_index(t) == m,
    decreases m,
{
    if m > 0 {
        lemma_ws_index(t.drop_first(), m - 1);
    }
}

/// Length of the URL that starts `s`: its first character and everything up to the next
/// white space.
pub open spec fn url_len(s: Seq<char>) -> nat {
    1 + ws_index(s.drop_first())
}

/// What a removed URL is replaced with.
pub open spec fn hidden_url() -> Seq<char> {
    "<已隐藏 URL>"@
}

/// `s` with every URL that starts with `p` (up to the next white space) replaced by
/// [`hidden_url`], scanning from the left.
pub open spec fn strip_urls(s: Seq<char>, p: Seq<char>) -> Seq<char>
    decreases s.len(),
{
    if s.len() == 0 {
        s
    } else if occurs_at(s, p, 0) {
        proof {
            lemma_ws_index_bound(s.drop_first());
        }
        hidden_url() + strip_urls(s.skip(url_len(s) as int), p)
    } else {
        seq![s[0]] + strip_urls(s.drop_first(), p)
    }
}

/// Executable [`strip_urls`].
fn strip_urls_exec(s: &Vec<char>, p: &Vec<char>) -> (out: Vec<char>)
    ensures
        out@ == strip_urls(s@, p@),
{
    let hidden = chars_of("<已隐藏 URL>");
    let n = s.len();
    let mut out: Vec<char> = Vec::new();
    let mut i: usize = 0;
    assert(s@.skip(0) == s@);
    while i < n
        invariant
            n == s@.len(),
            i <= n,
            hidden@ == hidden_url(),
            out@ + strip_urls(s@.skip(i as int), p@) == strip_urls(s@, p@),
        decreases n - i,
    {
        let ghost rest = s@.skip(i as int);
        if occurs_at_exec(s, p, i) {
            let mut j: usize = i + 1;
            while j < n && !is_white_space_exec(s[j])
                invariant
                    n == s@.len(),
                    i < j <= n,
                    forall|k: int| i < k < j ==> !is_white_space(#[trigger] s@[k]),
                decreases n - j,
            {
                j = j + 1;
            }
            proof {
                assert(occurs_at(rest, p@, 0)) by {
                    assert(rest.subrange(0, p@.len() as int) == s@.subrange(
                        i as int,
                        i + p@.len(),
                    ));
                }
                let t = rest.drop_first();
                assert forall|k: int| 0 <= k < j - i - 1 implies !is_white_space(#[trigger] t[k]) by {
                    assert(t[k] == s@[i + 1 + k]);
                }
                if j < n {
                    assert(t[j - i - 1] == s@[j as int]);
                }
                lemma_ws_index(t, j - i - 1);
                assert(rest.skip(url_len(rest) as int) == s@.skip(j as int));
                assert(out@ + hidden@ + strip_urls(s@.skip(j as int), p@) == out@ + strip_urls(
                    rest,
                    p@,
                ));
            }
            push_all_vec(&mut out, &hidden);
            i = j;
        } else {
            proof {
                assert(!occurs_at(rest, p@, 0)) by {
                    if occurs_at(rest, p@, 0) {
                        assert(rest.subrange(0, p@.len() as int) == s@.subrange(
                            i as int,
                            i + p@.len(),
                        ));
                    }
                }
                assert(rest.drop_first() == s@.skip(i + 1));
                assert(out@.push(s@[i as int]) + strip_urls(s@.skip(i + 1), p@) == out@ + strip_urls(
                    rest,
                    p@,
                ));
            }
            out.push(s[i]);
            i = i + 1;
        }
    }
    assert(s@.skip(n as int).len() == 0);
    assert(out@ + Seq::<char>::empty() == out@);
    out
}

/// Appends `b` to `a`.
fn push_all_vec(a: &mut Vec<char>, b: &Vec<char>)
    ensures
        final(a)@ == old(a)@ + b@,
{
    let mut i: usize = 0;
    while i < b.len()
        invariant
            i <= b@.len(),
            a@ == old(a)@ + b@.take(i as int),
        decreases b.len() - i,
    {
        a.push(b[i]);
        proof {
            assert(b@.take(i + 1) == b@.take(i as int).push(b@[i as int]));
        }
        i = i + 1;
    }
    assert(b@.take(b@.len() as int) == b@);
}

/// The pattern of an assignment of a sensitive field (`username`, `password`, `challenge`,
/// `info`, `chksum`, any case, then `:` or `=`, then the value), the field name captured.
pub const SENSITIVE_ASSIGNMENT: &'static str = r"(?i)\b(username|password|challenge|info|chksum)\s*[:=]\s*[^&\s,;]+";

/// What a sensitive assignment becomes: the field name with its value hidden.
pub const HIDDEN_ASSIGNMENT: &'static str = "$1=<已隐藏>";

/// Whether `text` holds neither `:` nor `=`, one of which every sensitive assignment holds.
pub open spec fn without_assignment_marks(text: Seq<char>) -> bool {
    forall|i: int| 0 <= i < text.len() ==> text[i] != ':' && text[i] != '='
}

/// `text` with the value of every sensitive assignment hidden. A text without `:` and `=`
/// holds no assignment and is kept as it is.
pub open spec fn redacted_assignments(text: Seq<char>) -> Seq<char> {
    if without_assignment_marks(text) {
        text
    } else {
        regex_replaced(SENSITIVE_ASSIGNMENT@, text, HIDDEN_ASSIGNMENT@)
    }
}

/// Hides the value of every sensitive assignment in `text` (see [`redacted_assignments`]).
/// Every character of the result is one of `text` or of [`HIDDEN_ASSIGNMENT`].
fn redact_assignments(text: &str) -> (out: String)
    ensures
        out@ == redacted_assignments(text@),
        forall|i: int|
            0 <= i < out@.len() ==> text@.contains(#[trigger] out@[i]) || HIDDEN_ASSIGNMENT@.contains(
                out@[i],
            ),
{
    let chars = chars_of(text);
    let mut marked = false;
    let mut i: usize = 0;
    while i < chars.len()
        invariant
            i <= chars@.len(),
            chars@ == text@,
            !marked ==> forall|k: int| 0 <= k < i ==> chars@[k] != ':' && chars@[k] != '=',
            marked ==> !without_assignment_marks(text@),
        decreases chars.len() - i,
    {
        if chars[i] == ':' || chars[i] == '=' {
            marked = true;
        }
        i = i + 1;
    }
    if !marked {
        let out = text.to_owned();
        assert forall|k: int| 0 <= k < out@.len() implies text@.contains(#[trigger] out@[k]) by {
            assert(text@[k] == out@[k]);
        }
        out
    } else {
        replace_all(SENSITIVE_ASSIGNMENT, text, HIDDEN_ASSIGNMENT)
    }
}

/// Number of UTF-8 bytes of a character.
pub open spec fn utf8_width(c: char) -> nat {
    encode_scalar(c as u32).len()
}

fn utf8_width_exec(c: char) -> (w: usize)
    ensures
        w == utf8_width(c),
{
    proof {
        vstd::utf8::char_is_scalar(c);
    }
    let v = c as u32;
    if v <= 0x7F {
        1
    } else if v <= 0x7FF {
        2
    } else if v <= 0xFFFF {
        3
    } else {
        4
    }
}

/// The longest prefix of `s` whose UTF-8 encoding fits in `budget` bytes.
pub open spec fn utf8_prefix(s: Seq<char>, budget: int) -> Seq<char>
    decreases s.len(),
{
    if s.len() == 0 || utf8_width(s[0]) > budget {
        seq![]
    } else {
        seq![s[0]] + utf8_prefix(s.drop_first(), budget - utf8_width(s[0]))
    }
}

fn utf8_prefix_exec(s: &Vec<char>, limit: usize) -> (out: Vec<char>)
    ensures
        out@ == utf8_prefix(s@, limit as int),
{
    let n = s.len();
    let mut out: Vec<char> = Vec::new();
    let mut budget: usize = limit;
    let mut i: usize = 0;
    assert(s@.skip(0) == s@);
    while i < n
        invariant
            n == s@.len(),
            i <= n,
            budget <= limit,
            out@ + utf8_prefix(s@.skip(i as int), budget as int) == utf8_prefix(s@, limit as int),
        decreases n - i,
    {
        let w = utf8_width_exec(s[i]);
        proof {
            assert(s@.skip(i as int)[0] == s@[i as int]);
            assert(s@.skip(i as int).drop_first() == s@.skip(i + 1));
        }
        if w > budget {
            assert(out@ + Seq::<char>::empty() == out@);
            return out;
        }
        proof {
            assert(out@.push(s@[i as int]) + utf8_prefix(s@.skip(i + 1), (budget - w) as int) == out@
                + utf8_prefix(s@.skip(i as int), budget as int));
        }
        out.push(s[i]);
        budget = budget - w;
        i = i + 1;
    }
    assert(out@ + Seq::<char>::empty() == out@);
    out
}

/// The message with control characters blanked and every `http://` and `https://` URL
/// hidden.
pub open spec fn url_free(message: Seq<char>) -> Seq<char> {
    strip_urls(strip_urls(blank_controls(message), "http://"@), "https://"@)
}

/// If `strip_urls(t, p)` starts with `q`, and `q` holds no `<`, then `t` starts with `q`:
/// the stripped text agrees with its input up to the first hidden URL.
proof fn lemma_strip_urls_prefix(t: Seq<char>, p: Seq<char>, q: Seq<char>)
    requires
        q.len() <= strip_urls(t, p).len(),
        strip_urls(t, p).take(q.len() as int) == q,
        forall|i: int| 0 <= i < q.len() ==> q[i] != '<',
    ensures
        q.len() <= t.len(),
        t.take(q.len() as int) == q,
    decreases t.len(),
{
    reveal_strlit("<已隐藏 URL>");
    if q.len() > 0 {
        let r = strip_urls(t, p);
        if t.len() == 0 {
        } else if occurs_at(t, p, 0) {
            lemma_ws_index_bound(t.drop_first());
            assert(r[0] == hidden_url()[0]);
            assert(q[0] == r.take(q.len() as int)[0]);
        } else {
            let rest = strip_urls(t.drop_first(), p);
            assert(r == seq![t[0]] + rest);
            let q1 = q.drop_first();
            assert(rest.take(q1.len() as int) == q1) by {
                assert forall|i: int| 0 <= i < q1.len() implies rest.take(q1.len() as int)[i] == q1[i] by {
                    assert(rest[i] == r[i + 1]);
                    assert(r.take(q.len() as int)[i + 1] == q[i + 1]);
                }
            }
            lemma_strip_urls_prefix(t.drop_first(), p, q1);
            assert(t.take(q.len() as int) =~= q) by {
                assert(q[0] == r.take(q.len() as int)[0]);
                assert forall|i: int| 1 <= i < q.len() implies t.take(q.len() as int)[i] == q[i] by {
                    assert(t.drop_first().take(q1.len() as int)[i - 1] == q1[i - 1]);
                }
            }
        }
    } else {
        assert(t.take(0) =~= q);
    }
}

/// Stripping URLs starting with `p` leaves no `q` behind, where `q` is `p` itself or does
/// not occur in the input at all, provided `q` starts with a character that the hidden-URL
/// marker does not hold and holds no `<` after it.
pub proof fn lemma_strip_urls_leaves_none(s: Seq<char>, p: Seq<char>, q: Seq<char>)
    requires
        q.len() > 0,
        q == p || !contains_seq(s, q),
        forall|j: int| 0 <= j < hidden_url().len() ==> hidden_url()[j] != q[0],
        forall|i: int| 1 <= i < q.len() ==> q[i] != '<',
    ensures
        !contains_seq(strip_urls(s, p), q),
    decreases s.len(),
{
    reveal_strlit("<已隐藏 URL>");
    let r = strip_urls(s, p);
    if s.len() == 0 {
        assert forall|i: int| !occurs_at(r, q, i) by {}
    } else if occurs_at(s, p, 0) {
        lemma_ws_index_bound(s.drop_first());
        let k = url_len(s) as int;
        let tail = s.skip(k);
        if q != p {
            assert forall|i: int| !occurs_at(tail, q, i) by {
                if occurs_at(tail, q, i) {
                    assert(tail.subrange(i, i + q.len()) == s.subrange(i + k, i + k + q.len()));
                    assert(occurs_at(s, q, i + k));
                }
            }
        }
        lemma_strip_urls_leaves_none(tail, p, q);
        let rest = strip_urls(tail, p);
        assert(r == hidden_url() + rest);
        assert forall|i: int| !occurs_at(r, q, i) by {
            if occurs_at(r, q, i) {
                if i < hidden_url().len() {
                    assert(r.subrange(i, i + q.len())[0] == r[i]);
                    assert(r[i] == hidden_url()[i]);
                } else {
                    let j = i - hidden_url().len();
                    assert(rest.subrange(j, j + q.len()) =~= r.subrange(i, i + q.len()));
                    assert(occurs_at(rest, q, j));
                }
            }
        }
    } else {
        let t = s.drop_first();
        if q != p {
            assert forall|i: int| !occurs_at(t, q, i) by {
                if occurs_at(t, q, i) {
                    assert(t.subrange(i, i + q.len()) == s.subrange(i + 1, i + 1 + q.len()));
                    assert(occurs_at(s, q, i + 1));
                }
            }
        }
        lemma_strip_urls_leaves_none(t, p, q);
        let rest = strip_urls(t, p);
        assert(r == seq![s[0]] + rest);
        assert forall|i: int| !occurs_at(r, q, i) by {
            if occurs_at(r, q, i) {
                if i == 0 {
                    let q1 = q.drop_first();
                    assert(rest.take(q1.len() as int) =~= q1) by {
                        assert forall|m: int| 0 <= m < q1.len() implies rest.take(q1.len() as int)[m] == q1[m] by {
                            assert(r.subrange(0, q.len() as int)[m + 1] == q[m + 1]);
                            assert(r[m + 1] == rest[m]);
                        }
                    }
                    assert forall|m: int| 0 <= m < q1.len() implies q1[m] != '<' by {
                        assert(q1[m] == q[m + 1]);
                    }
                    lemma_strip_urls_prefix(t, p, q1);
                    assert(s.subrange(0, q.len() as int) =~= q) by {
                        assert(r.subrange(0, q.len() as int)[0] == q[0]);
                        assert forall|m: int| 1 <= m < q.len() implies s.subrange(0, q.len() as int)[m] == q[m] by {
                            assert(t.take(q1.len() as int)[m - 1] == q1[m - 1]);
                        }
                    }
                    assert(occurs_at(s, q, 0));
                    if q != p {
                        assert(contains_seq(s, q));
                    }
                } else {
                    let j = i - 1;
                    assert(rest.subrange(j, j + q.len()) =~= r.subrange(i, i + q.len()));
                    assert(occurs_at(rest, q, j));
                }
            }
        }
    }
}

/// No `http://` or `https://` URL survives the URL stage of a portal message.
pub proof fn lemma_url_free(message: Seq<char>)
    ensures
        !contains_seq(url_free(message), "http://"@),
        !contains_seq(url_free(message), "https://"@),
{
    reveal_strlit("<已隐藏 URL>");
    reveal_strlit("http://");
    reveal_strlit("https://");
    let b = blank_controls(message);
    let once = strip_urls(b, "http://"@);
    lemma_strip_urls_leaves_none(b, "http://"@, "http://"@);
    lemma_strip_urls_leaves_none(once, "https://"@, "https://"@);
    lemma_strip_urls_leaves_none(once, "https://"@, "http://"@);
}

/// UTF-8 encoding distributes over concatenation.
pub proof fn lemma_encode_utf8_concat(a: Seq<char>, b: Seq<char>)
    ensures
        encode_utf8(a + b) == encode_utf8(a) + encode_utf8(b),
    decreases a.len(),
{
    if a.len() > 0 {
        lemma_encode_utf8_concat(a.drop_first(), b);
        assert((a + b).drop_first() == a.drop_first() + b);
        assert((a + b)[0] == a[0]);
    } else {
        assert(a + b == b);
    }
}

/// The cut prefix fits its byte budget.
pub proof fn lemma_utf8_prefix_fits(s: Seq<char>, budget: int)
    requires
        budget >= 0,
    ensures
        encode_utf8(utf8_prefix(s, budget)).len() <= budget,
    decreases s.len(),
{
    if s.len() > 0 && utf8_width(s[0]) <= budget {
        lemma_utf8_prefix_fits(s.drop_first(), budget - utf8_width(s[0]));
        let rest = utf8_prefix(s.drop_first(), budget - utf8_width(s[0]));
        let head = seq![s[0]];
        lemma_encode_utf8_concat(head, rest);
        assert(head.drop_first() == Seq::<char>::empty());
        assert(encode_utf8(head) == encode_scalar(s[0] as u32) + encode_utf8(Seq::<char>::empty()));
        assert(encode_utf8(head).len() == utf8_width(s[0]));
        assert(utf8_prefix(s, budget) == head + rest);
    }
}

/// A contiguous part of a text encodes to no more bytes than the text.
proof fn lemma_encode_utf8_subrange(x: Seq<char>, i: int, j: int)
    requires
        0 <= i <= j <= x.len(),
    ensures
        encode_utf8(x.subrange(i, j)).len() <= encode_utf8(x).len(),
{
    assert(x == x.take(i) + x.subrange(i, j) + x.skip(j));
    lemma_encode_utf8_concat(x.take(i) + x.subrange(i, j), x.skip(j));
    lemma_encode_utf8_concat(x.take(i), x.subrange(i, j));
}

proof fn lemma_trim_start_suffix(x: Seq<char>)
    ensures
        trim_start(x).len() <= x.len(),
        trim_start(x) == x.skip(x.len() - trim_start(x).len()),
    decreases x.len(),
{
    if x.len() > 0 && is_white_space(x[0]) {
        lemma_trim_start_suffix(x.drop_first());
        assert(x.drop_first().skip(x.drop_first().len() - trim_start(x).len()) == x.skip(
            x.len() - trim_start(x).len(),
        ));
    } else {
        assert(x.skip(0) == x);
    }
}

/// A safe portal message is never empty, is trimmed, and — unless it is the fallback
/// `未知错误` — fits in 160 UTF-8 bytes.
pub proof fn lemma_safe_message_shape(message: Seq<char>)
    ensures
        safe_message_spec(message).len() > 0,
        safe_message_spec(message) == "未知错误"@ || (encode_utf8(safe_message_spec(message)).len() <= 160
            && trim(safe_message_spec(message)) == safe_message_spec(message)),
{
    reveal_strlit("未知错误");
    let cut = utf8_prefix(redacted_assignments(url_free(message)), 160);
    lemma_utf8_prefix_fits(redacted_assignments(url_free(message)), 160);
    let u = trim_start(cut);
    lemma_trim_start_suffix(cut);
    crate::text::lemma_trim_end_prefix(u);
    let t = trim_end(u);
    let start = cut.len() - u.len();
    assert(u == cut.subrange(start, cut.len() as int));
    assert(t == cut.subrange(start, start + t.len()));
    lemma_encode_utf8_subrange(cut, start, start + t.len());
    crate::text::lemma_trim_idempotent(cut);
}

/// The portal message with URLs and credential assignments hidden, cut to 160 UTF-8
/// bytes, trimmed, or `未知错误` when nothing is left.
pub open spec fn safe_message_spec(message: Seq<char>) -> Seq<char> {
    let stripped = url_free(message);
    let cut = utf8_prefix(redacted_assignments(stripped), 160);
    if trim(cut).len() == 0 {
        "未知错误"@
    } else {
        trim(cut)
    }
}

/// Whether `s` holds no carriage return, line feed or tab.
pub open spec fn without_line_breaks(s: Seq<char>) -> bool {
    forall|i: int| 0 <= i < s.len() ==> s[i] != '\r' && s[i] != '\n' && s[i] != '\t'
}

/// Every character of a text with URLs stripped is one of the text or of the marker.
proof fn lemma_strip_urls_chars(s: Seq<char>, p: Seq<char>)
    ensures
        forall|i: int|
            0 <= i < strip_urls(s, p).len() ==> s.contains(#[trigger] strip_urls(s, p)[i])
                || hidden_url().contains(strip_urls(s, p)[i]),
    decreases s.len(),
{
    if s.len() > 0 {
        let r = strip_urls(s, p);
        if occurs_at(s, p, 0) {
            lemma_ws_index_bound(s.drop_first());
            let t = s.skip(url_len(s) as int);
            lemma_strip_urls_chars(t, p);
            let rest = strip_urls(t, p);
            assert forall|i: int| 0 <= i < r.len() implies s.contains(#[trigger] r[i]) || hidden_url().contains(r[i]) by {
                if i < hidden_url().len() {
                    assert(r[i] == hidden_url()[i]);
                } else {
                    let j = i - hidden_url().len();
                    assert(r[i] == rest[j]);
                    if t.contains(rest[j]) {
                        let k = choose|k: int| 0 <= k < t.len() && t[k] == rest[j];
                        assert(s[k + url_len(s)] == t[k]);
                    }
                }
            }
        } else {
            let t = s.drop_first();
            lemma_strip_urls_chars(t, p);
            let rest = strip_urls(t, p);
            assert forall|i: int| 0 <= i < r.len() implies s.contains(#[trigger] r[i]) || hidden_url().contains(r[i]) by {
                if i == 0 {
                    assert(r[0] == s[0]);
                } else {
                    assert(r[i] == rest[i - 1]);
                    if t.contains(rest[i - 1]) {
                        let k = choose|k: int| 0 <= k < t.len() && t[k] == rest[i - 1];
                        assert(s[k + 1] == t[k]);
                    }
                }
            }
        }
    }
}

/// Every character of a trimmed text is one of the text.
proof fn lemma_trim_chars(x: Seq<char>)
    ensures
        forall|i: int| 0 <= i < trim(x).len() ==> x.contains(#[trigger] trim(x)[i]),
{
    lemma_trim_start_suffix(x);
    let u = trim_start(x);
    crate::text::lemma_trim_end_prefix(u);
    let start = x.len() - u.len();
    assert forall|i: int| 0 <= i < trim(x).len() implies x.contains(#[trigger] trim(x)[i]) by {
        assert(trim(x)[i] == u[i]);
        assert(u[i] == x[start + i]);
    }
}

/// A portal message made safe to show: no URLs, no credential assignments, at most 160
/// UTF-8 bytes, never empty.
pub fn safe_portal_message(message: String) -> (out: String)
    ensures
        out@ == safe_message_spec(message@),
        (forall|i: int| 0 <= i < message@.len() ==> is_white_space(message@[i])) ==> out@ == "未知错误"@,
        without_line_breaks(out@),
{
    let chars = chars_of(message.as_str());
    let mut blanked: Vec<char> = Vec::new();
    let mut i: usize = 0;
    while i < chars.len()
        invariant
            i <= chars@.len(),
            blanked@ == blank_controls(chars@.take(i as int)),
        decreases chars.len() - i,
    {
        let c = chars[i];
        let d = if c == '\r' || c == '\n' || c == '\t' {
            ' '
        } else {
            c
        };
        blanked.push(d);
        proof {
            assert(blank_controls(chars@.take(i + 1)) == blank_controls(chars@.take(i as int)).push(d));
        }
        i = i + 1;
    }
    assert(chars@.take(chars@.len() as int) == chars@);
    let without_http = strip_urls_exec(&blanked, &chars_of("http://"));
    let without_https = strip_urls_exec(&without_http, &chars_of("https://"));
    let ghost blank = forall|i: int| 0 <= i < message@.len() ==> is_white_space(message@[i]);
    proof {
        if blank {
            reveal_strlit("http://");
            reveal_strlit("https://");
            let b = blank_controls(message@);
            assert forall|i: int| 0 <= i < b.len() implies is_white_space(b[i]) by {}
            lemma_strip_urls_without_start(b, "http://"@);
            lemma_strip_urls_without_start(b, "https://"@);
            assert(without_https@ == b);
            assert forall|i: int| 0 <= i < b.len() implies b[i] != ':' && b[i] != '=' by {
                assert(is_white_space(b[i]));
            }
        }
    }
    let redacted = redact_assignments(string_of(&without_https).as_str());
    let cut = utf8_prefix_exec(&chars_of(redacted.as_str()), 160);
    let trimmed = trim_chars(&cut);
    proof {
        if blank {
            reveal_strlit("未知错误");
            lemma_utf8_prefix_is_prefix(redacted@, 160);
            assert forall|i: int| 0 <= i < cut@.len() implies is_white_space(cut@[i]) by {
                assert(cut@[i] == redacted@[i]);
            }
            lemma_trim_of_blank(cut@);
        }
    }
    proof {
        reveal_strlit("<已隐藏 URL>");
        reveal_strlit("$1=<已隐藏>");
        reveal_strlit("未知错误");
        let b = blank_controls(message@);
        let once = strip_urls(b, "http://"@);
        lemma_strip_urls_chars(b, "http://"@);
        lemma_strip_urls_chars(once, "https://"@);
        assert(without_line_breaks(b));
        assert(without_line_breaks(hidden_url()));
        assert(without_line_breaks(HIDDEN_ASSIGNMENT@));
        assert(without_line_breaks(once)) by {
            assert forall|i: int| 0 <= i < once.len() implies once[i] != '\r' && once[i] != '\n'
                && once[i] != '\t' by {
                if b.contains(once[i]) {
                    let k = choose|k: int| 0 <= k < b.len() && b[k] == once[i];
                }
            }
        }
        assert(without_line_breaks(without_https@)) by {
            assert forall|i: int| 0 <= i < without_https@.len() implies without_https@[i] != '\r'
                && without_https@[i] != '\n' && without_https@[i] != '\t' by {
                if once.contains(without_https@[i]) {
                    let k = choose|k: int| 0 <= k < once.len() && once[k] == without_https@[i];
                }
            }
        }
        assert(without_line_breaks(redacted@)) by {
            assert forall|i: int| 0 <= i < redacted@.len() implies redacted@[i] != '\r'
                && redacted@[i] != '\n' && redacted@[i] != '\t' by {
                if without_https@.contains(redacted@[i]) {
                    let k = choose|k: int| 0 <= k < without_https@.len() && without_https@[k] == redacted@[i];
                }
            }
        }
        lemma_utf8_prefix_is_prefix(redacted@, 160);
        assert(without_line_breaks(cut@)) by {
            assert forall|i: int| 0 <= i < cut@.len() implies cut@[i] != '\r' && cut@[i] != '\n'
                && cut@[i] != '\t' by {
                assert(cut@[i] == redacted@[i]);
            }
        }
        lemma_trim_chars(cut@);
        assert(without_line_breaks(trimmed@)) by {
            assert forall|i: int| 0 <= i < trimmed@.len() implies trimmed@[i] != '\r'
                && trimmed@[i] != '\n' && trimmed@[i] != '\t' by {
                let k = choose|k: int| 0 <= k < cut@.len() && cut@[k] == trimmed@[i];
            }
        }
    }
    if trimmed.len() == 0 {
        "未知错误".to_owned()
    } else {
        string_of(&trimmed)
    }
}

// ----- Interpreting the login reply -----
/// What a login reply says.
#[derive(Clone, Debug, PartialEq, Eq)]
pub enum PortalInterpretation {
    Success(String),
    AlreadyOnline,
    Failure(String),
}

/// [`PortalInterpretation`] as plain values.
pub enum InterpretationView {
    Success(Seq<char>),
    AlreadyOnline,
    Failure(Seq<char>),
}

impl View for PortalInterpretation {
    type V = InterpretationView;

    open spec fn view(&self) -> InterpretationView {
        match self {
            PortalInterpretation::Success(m) => InterpretationView::Success(m@),
            PortalInterpretation::AlreadyOnline => InterpretationView::AlreadyOnline,
            PortalInterpretation::Failure(m) => InterpretationView::Failure(m@),
        }
    }
}

/// The members that may carry the reason of a failed login, in the order they are read.
pub open spec fn failure_keys() -> Seq<Seq<char>> {
    seq!["ploy_msg"@, "error_msg"@, "ecode"@, "error"@, "res"@]
}

/// The members that may carry the message of a successful login, in the order they are read.
pub open spec fn success_keys() -> Seq<Seq<char>> {
    seq!["ploy_msg"@, "suc_msg"@]
}

/// Whether a meaningful member among `keys` mentions `already_online` (in any ASCII case).
pub open spec fn mentions_already_online(obj: Seq<(Seq<char>, Option<Seq<char>>)>, keys: Seq<Seq<char>>) -> bool
    decreases keys.len(),
{
    if keys.len() == 0 {
        false
    } else {
        (match meaningful_spec(obj, keys[0]) {
            Some(t) => contains_seq(ascii_lowercase(t), "already_online"@),
            None => false,
        }) || mentions_already_online(obj, keys.drop_first())
    }
}

/// The reason given by the first meaningful, non-generic member among `keys`: translated if
/// it is a known code, else made safe.
pub open spec fn first_failure(obj: Seq<(Seq<char>, Option<Seq<char>>)>, keys: Seq<Seq<char>>) -> Option<Seq<char>>
    decreases keys.len(),
{
    if keys.len() == 0 {
        None
    } else {
        match meaningful_spec(obj, keys[0]) {
            Some(m) => if is_generic_failure_spec(m) {
                first_failure(obj, keys.drop_first())
            } else {
                match translate_spec(m) {
                    Some(t) => Some(t),
                    None => Some(safe_message_spec(m)),
                }
            },
            None => first_failure(obj, keys.drop_first()),
        }
    }
}

/// The failure text when no member names a reason.
pub open spec fn rejection_detail(obj: Seq<(Seq<char>, Option<Seq<char>>)>) -> Seq<char> {
    let error = member_text(obj, "error"@);
    if error.len() == 0 || error == "0"@ {
        "认证服务器拒绝登录请求"@
    } else {
        "认证服务器拒绝登录请求（"@ + safe_message_spec(error) + "）"@
    }
}

/// The success text: the first meaningful success message, made safe, unless it is an
/// `E0000` status line.
pub open spec fn success_message(obj: Seq<(Seq<char>, Option<Seq<char>>)>) -> Seq<char> {
    match first_meaningful_spec(obj, success_keys()) {
        Some(t) => if t.len() >= 5 && t.take(5) == "E0000"@ {
            Seq::empty()
        } else {
            safe_message_spec(t)
        },
        None => Seq::empty(),
    }
}

/// What a login reply says: `error` = `ok` is success; any candidate member mentioning
/// `already_online` means the address is already online; otherwise the first reason found,
/// or a generic rejection.
pub open spec fn interpret_spec(obj: Seq<(Seq<char>, Option<Seq<char>>)>) -> InterpretationView {
    let error = match meaningful_spec(obj, "error"@) {
        Some(e) => e,
        None => Seq::empty(),
    };
    if error == "ok"@ {
        InterpretationView::Success(success_message(obj))
    } else if mentions_already_online(obj, failure_keys()) {
        InterpretationView::AlreadyOnline
    } else {
        match first_failure(obj, failure_keys()) {
            Some(m) => InterpretationView::Failure(m),
            None => InterpretationView::Failure(rejection_detail(obj)),
        }
    }
}

fn failure_key_list() -> (keys: [&'static str; 5])
    ensures
        keys@.map_values(|k: &str| k@) == failure_keys(),
{
    let keys = ["ploy_msg", "error_msg", "ecode", "error", "res"];
    assert(keys@.map_values(|k: &str| k@) =~= failure_keys());
    keys
}

/// Reads login replies.
pub struct PortalResponseInterpreter;

impl PortalResponseInterpreter {
    /// What the login reply `response` says (see [`interpret_spec`]).
    pub fn interpret(response: &JsonObject) -> (r: PortalInterpretation)
        ensures
            r@ == interpret_spec(response@),
    {
        let error = match meaningful_field(response, "error") {
            Some(e) => e,
            None => Vec::new(),
        };
        if chars_eq_str(&error, "ok") {
            let success = ["ploy_msg", "suc_msg"];
            assert(success@.map_values(|k: &str| k@) =~= success_keys());
            let message = match first_meaningful(response, &success) {
                Some(t) => {
                    let e0000 = chars_of("E0000");
                    proof {
                        reveal_strlit("E0000");
                    }
                    if t.len() >= 5 && occurs_at_exec(&t, &e0000, 0) {
                        proof {
                            assert(t@.subrange(0, 5) == t@.take(5));
                        }
                        String::new()
                    } else {
                        proof {
                            if t@.len() >= 5 {
                                assert(t@.subrange(0, 5) == t@.take(5));
                            }
                        }
                        safe_portal_message(string_of(&t))
                    }
                },
                None => String::new(),
            };
            return PortalInterpretation::Success(message);
        }
        let keys = failure_key_list();
        let ghost kv = keys@.map_values(|k: &str| k@);
        let already = chars_of("already_online");
        let mut i: usize = 0;
        let mut online = false;
        assert(kv.skip(0) == kv);
        while i < 5
            invariant
                i <= 5,
                kv == keys@.map_values(|k: &str| k@),
                kv == failure_keys(),
                already@ == "already_online"@,
                mentions_already_online(response@, kv) == (online || mentions_already_online(
                    response@,
                    kv.skip(i as int),
                )),
            decreases 5 - i,
        {
            proof {
                assert(kv.skip(i as int)[0] == keys@[i as int]@);
                assert(kv.skip(i as int).drop_first() == kv.skip(i + 1));
            }
            match meaningful_field(response, keys[i]) {
                Some(t) => {
                    if contains_exec(&to_ascii_lowercase(&t), &already) {
                        online = true;
                    }
                },
                None => {},
            }
            i = i + 1;
        }
        if online {
            return PortalInterpretation::AlreadyOnline;
        }
        let mut j: usize = 0;
        assert(kv.skip(0) == kv);
        assert(interpret_spec(response@) == match first_failure(response@, failure_keys()) {
            Some(m) => InterpretationView::Failure(m),
            None => InterpretationView::Failure(rejection_detail(response@)),
        });
        while j < 5
            invariant
                j <= 5,
                interpret_spec(response@) == match first_failure(response@, failure_keys()) {
                    Some(m) => InterpretationView::Failure(m),
                    None => InterpretationView::Failure(rejection_detail(response@)),
                },
                kv == keys@.map_values(|k: &str| k@),
                kv == failure_keys(),
                first_failure(response@, kv) == first_failure(response@, kv.skip(j as int)),
            decreases 5 - j,
        {
            proof {
                assert(kv.skip(j as int)[0] == keys@[j as int]@);
                assert(kv.skip(j as int).drop_first() == kv.skip(j + 1));
            }
            match meaningful_field(response, keys[j]) {
                Some(message) => {
                    if !is_generic_failure_marker(&message) {
                        return match translate_error_code(&message) {
                            Some(translated) => PortalInterpretation::Failure(translated),
                            None => PortalInterpretation::Failure(
                                safe_portal_message(string_of(&message)),
                            ),
                        };
                    }
                },
                None => {},
            }
            j = j + 1;
        }
        let error_text = response.text("error");
        let error_chars = chars_of(error_text.as_str());
        if error_chars.len() == 0 || chars_eq_str(&error_chars, "0") {
            PortalInterpretation::Failure("认证服务器拒绝登录请求".to_owned())
        } else {
            let mut detail = String::new();
            push_str(&mut detail, "认证服务器拒绝登录请求（");
            push_str(&mut detail, safe_portal_message(error_text).as_str());
            push_str(&mut detail, "）");
            PortalInterpretation::Failure(detail)
        }
    }
}

// ----- Requests -----
/// The portal's origin.
pub const PORTAL_BASE: &'static str = "https://wp.hit.edu.cn";

/// The client version reported in the user agent.
pub const CLIENT_VERSION: &'static str = "1.0.2";

/// Whether an HTTP status is a success or a redirection.
pub fn success_or_redirect(status: u16) -> (b: bool)
    ensures
        b == (200 <= status < 400),
{
    200 <= status && status < 400
}

/// The text of the portal URL for `path` with the form-encoded `pairs` as its query.
pub open spec fn portal_url_spec(path: Seq<char>, pairs: Seq<(Seq<char>, Seq<char>)>) -> Seq<char> {
    PORTAL_BASE@ + path + seq!['?'] + form_query(pairs)
}

/// The text of the portal URL for `path` with the form-encoded `pairs` as its query.
pub fn portal_url_text(path: &str, pairs: &[(&str, &str)]) -> (url: String)
    ensures
        url@ == portal_url_spec(path@, pairs_view(pairs@)),
{
    let mut url = PORTAL_BASE.to_owned();
    push_str(&mut url, path);
    push_char(&mut url, '?');
    push_str(&mut url, FormQueryEncoder::encode(pairs).as_str());
    url
}

/// `url::Url`, carried opaquely to the HTTP client.
#[verifier::external_type_specification]
#[verifier::external_body]
pub struct ExUrl(url::Url);

/// Whether the `url` crate's parser accepts `text` as an absolute URL.
pub uninterp spec fn url_parses(text: Seq<char>) -> bool;

/// The text of a URL, as `Url::as_str` gives it.
pub uninterp spec fn url_serialization(u: url::Url) -> Seq<char>;

/// The text of the URL that `Url::parse` makes of `text`, as `Url::as_str` would give it.
pub uninterp spec fn url_normalized(text: Seq<char>) -> Seq<char>;

/// Calls `url::Url::parse`. Claimed: it succeeds exactly when the named predicate holds of
/// `text`, and the URL it gives has the named serialisation of `text`.
#[verifier::external_body]
fn parse_url(text: &str) -> (r: Option<url::Url>)
    ensures
        r is Some <==> url_parses(text@),
        r matches Some(u) ==> url_serialization(u) == url_normalized(text@),
{
    url::Url::parse(text).ok()
}

/// The portal URL for `path` and `pairs` (see [`portal_url_text`]), parsed; a text that
/// does not parse is an invalid portal response.
pub fn build_portal_url(path: &str, pairs: &[(&str, &str)]) -> (r: Result<url::Url, CoreError>)
    ensures
        r is Ok <==> url_parses(portal_url_spec(path@, pairs_view(pairs@))),
        r matches Ok(u) ==> url_serialization(u) == url_normalized(
            portal_url_spec(path@, pairs_view(pairs@)),
        ),
        r is Err ==> r->Err_0 == CoreError::InvalidPortalResponse,
{
    let text = portal_url_text(path, pairs);
    match parse_url(text.as_str()) {
        Some(url) => Ok(url),
        None => Err(CoreError::InvalidPortalResponse),
    }
}

/// The query of a JSONP request: the callback name, the request's own pairs, and the
/// timestamp that defeats caching.
pub open spec fn jsonp_pairs_spec(pairs: Seq<(Seq<char>, Seq<char>)>, timestamp: Seq<char>) -> Seq<(Seq<char>, Seq<char>)> {
    seq![("callback"@, "HITAutoLogin_"@ + timestamp)] + pairs + seq![("_"@, timestamp)]
}

/// The owned pairs as plain values.
pub open spec fn owned_pairs_view(pairs: Seq<(String, String)>) -> Seq<(Seq<char>, Seq<char>)> {
    pairs.map_values(|p: (String, String)| (p.0@, p.1@))
}

/// The URL text of a JSONP request to `path` with `pairs`, made at `timestamp` (decimal
/// milliseconds).
pub fn jsonp_url_text(path: &str, pairs: &Vec<(String, String)>, timestamp: &str) -> (url: String)
    ensures
        url@ == portal_url_spec(path@, jsonp_pairs_spec(owned_pairs_view(pairs@), timestamp@)),
{
    let mut callback = "HITAutoLogin_".to_owned();
    push_str(&mut callback, timestamp);
    let mut query: Vec<(&str, &str)> = Vec::new();
    query.push(("callback", callback.as_str()));
    let mut i: usize = 0;
    while i < pairs.len()
        invariant
            i <= pairs@.len(),
            pairs_view(query@) == seq![("callback"@, callback@)] + owned_pairs_view(pairs@.take(i as int)),
        decreases pairs.len() - i,
    {
        let ghost before = query@;
        query.push((pairs[i].0.as_str(), pairs[i].1.as_str()));
        proof {
            assert(pairs_view(query@) =~= pairs_view(before).push(
                (pairs@[i as int].0@, pairs@[i as int].1@),
            ));
            assert(owned_pairs_view(pairs@.take(i + 1)) == owned_pairs_view(pairs@.take(i as int)).push(
                (pairs@[i as int].0@, pairs@[i as int].1@),
            ));
            assert(pairs_view(query@) =~= seq![("callback"@, callback@)] + owned_pairs_view(
                pairs@.take(i + 1),
            ));
        }
        i = i + 1;
    }
    let ghost before = query@;
    query.push(("_", timestamp));
    proof {
        assert(pairs_view(query@) =~= pairs_view(before).push(("_"@, timestamp@)));
        assert(pairs@.take(pairs@.len() as int) == pairs@);
        assert(pairs_view(query@) =~= jsonp_pairs_spec(owned_pairs_view(pairs@), timestamp@));
    }
    portal_url_text(path, query.as_slice())
}

/// The URL of a JSONP request (see [`jsonp_url_text`]), parsed.
pub fn jsonp_url(path: &str, pairs: &Vec<(String, String)>, timestamp: &str) -> (r: Result<url::Url, CoreError>)
    ensures
        r is Ok <==> url_parses(
            portal_url_spec(path@, jsonp_pairs_spec(owned_pairs_view(pairs@), timestamp@)),
        ),
        r matches Ok(u) ==> url_serialization(u) == url_normalized(
            portal_url_spec(path@, jsonp_pairs_spec(owned_pairs_view(pairs@), timestamp@)),
        ),
        r is Err ==> r->Err_0 == CoreError::InvalidPortalResponse,
{
    let text = jsonp_url_text(path, pairs, timestamp);
    match parse_url(text.as_str()) {
        Some(url) => Ok(url),
        None => Err(CoreError::InvalidPortalResponse),
    }
}

/// The platform part of the user agent.
pub open spec fn platform_spec(os: Seq<char>) -> Seq<char> {
    if ascii_lowercase(os) == "windows"@ {
        "Windows NT 10.0; Win64; x64"@
    } else {
        "X11; Linux x86_64"@
    }
}

/// The browser-like user agent the portal expects.
pub open spec fn user_agent_spec(os: Seq<char>) -> Seq<char> {
    "Mozilla/5.0 ("@ + platform_spec(os)
        + ") AppleWebKit/537.36 (KHTML, like Gecko) Chrome/126.0 Safari/537.36 HITAutoLogin/"@
        + CLIENT_VERSION@
}

/// The request headers the portal expects from a client on `os`, as `(name, value)`
/// pairs with lower-case names.
pub fn compatibility_headers(os: &str) -> (headers: Vec<(String, String)>)
    ensures
        owned_pairs_view(headers@) == seq![
            ("accept"@, "*/*"@),
            ("accept-language"@, "zh-CN,zh;q=0.9"@),
            ("referer"@, "https://wp.hit.edu.cn/"@),
            ("user-agent"@, user_agent_spec(os@)),
        ],
{
    let lower = to_ascii_lowercase(&chars_of(os));
    let platform = if chars_eq_str(&lower, "windows") {
        "Windows NT 10.0; Win64; x64"
    } else {
        "X11; Linux x86_64"
    };
    let mut agent = "Mozilla/5.0 (".to_owned();
    push_str(&mut agent, platform);
    push_str(
        &mut agent,
        ") AppleWebKit/537.36 (KHTML, like Gecko) Chrome/126.0 Safari/537.36 HITAutoLogin/",
    );
    push_str(&mut agent, CLIENT_VERSION);
    let mut headers: Vec<(String, String)> = Vec::new();
    headers.push(("accept".to_owned(), "*/*".to_owned()));
    headers.push(("accept-language".to_owned(), "zh-CN,zh;q=0.9".to_owned()));
    headers.push(("referer".to_owned(), "https://wp.hit.edu.cn/".to_owned()));
    headers.push(("user-agent".to_owned(), agent));
    assert(owned_pairs_view(headers@) =~= seq![
        ("accept"@, "*/*"@),
        ("accept-language"@, "zh-CN,zh;q=0.9"@),
        ("referer"@, "https://wp.hit.edu.cn/"@),
        ("user-agent"@, user_agent_spec(os@)),
    ]);
    headers
}

// ----- Challenge -----
/// The client address: the challenge's `client_ip` if meaningful, else the trimmed
/// address of the portal page if not empty.
pub open spec fn client_ip_spec(challenge: Seq<(Seq<char>, Option<Seq<char>>)>, portal_ip: Seq<char>) -> Option<Seq<char>> {
    match meaningful_spec(challenge, "client_ip"@) {
        Some(ip) => Some(ip),
        None => if trim(portal_ip).len() == 0 {
            None
        } else {
            Some(trim(portal_ip))
        },
    }
}

/// The client address to log in with (see [`client_ip_spec`]).
pub fn select_client_ip(challenge: &JsonObject, portal_ip: &str) -> (r: Option<String>)
    ensures
        r is Some <==> client_ip_spec(challenge@, portal_ip@) is Some,
        r matches Some(ip) ==> ip@ == client_ip_spec(challenge@, portal_ip@).unwrap(),
{
    match meaningful_field(challenge, "client_ip") {
        Some(ip) => Some(string_of(&ip)),
        None => {
            let p = trim_chars(&chars_of(portal_ip));
            if p.len() == 0 {
                None
            } else {
                Some(string_of(&p))
            }
        },
    }
}

/// The members that may explain a refused challenge, in the order they are read.
pub open spec fn challenge_error_keys() -> Seq<Seq<char>> {
    seq!["error_msg"@, "ecode"@, "error"@]
}

/// The reason shown for a refused challenge.
pub open spec fn challenge_failure(challenge: Seq<(Seq<char>, Option<Seq<char>>)>) -> Seq<char> {
    safe_message_spec(
        match first_meaningful_spec(challenge, challenge_error_keys()) {
            Some(t) => match translate_spec(t) {
                Some(x) => x,
                None => t,
            },
            None => "认证服务器未返回有效 challenge"@,
        },
    )
}

/// The token and client address of a challenge reply, or why it is refused: the reply
/// must say `error` = `ok` and carry a non-empty `challenge`, and a client address must
/// be known.
pub open spec fn challenge_outcome(challenge: Seq<(Seq<char>, Option<Seq<char>>)>, portal_ip: Seq<char>) -> Result<(Seq<char>, Seq<char>), CoreErrorView> {
    let error = member_text(challenge, "error"@);
    let token = member_text(challenge, "challenge"@);
    if error != "ok"@ || token.len() == 0 {
        Err(CoreErrorView::Challenge(challenge_failure(challenge)))
    } else {
        match client_ip_spec(challenge, portal_ip) {
            Some(ip) => Ok((token, ip)),
            None => Err(CoreErrorView::Portal("认证门户未返回客户端 IP"@)),
        }
    }
}

/// Reads a challenge reply (see [`challenge_outcome`]).
pub fn read_challenge(challenge: &JsonObject, portal_ip: &str) -> (r: Result<(String, String), CoreError>)
    ensures
        r matches Ok(v) ==> challenge_outcome(challenge@, portal_ip@) == Ok::<_, CoreErrorView>((v.0@, v.1@)),
        r matches Err(e) ==> challenge_outcome(challenge@, portal_ip@) == Err::<(Seq<char>, Seq<char>), _>(e@),
{
    let error = challenge.text("error");
    let token = challenge.text("challenge");
    if !chars_eq_str(&chars_of(error.as_str()), "ok") || token.as_str().is_empty() {
        let keys = ["error_msg", "ecode", "error"];
        assert(keys@.map_values(|k: &str| k@) =~= challenge_error_keys());
        let message = match first_meaningful(challenge, &keys) {
            Some(t) => match translate_error_code(&t) {
                Some(x) => x,
                None => string_of(&t),
            },
            None => "认证服务器未返回有效 challenge".to_owned(),
        };
        return Err(CoreError::Challenge(safe_portal_message(message)));
    }
    match select_client_ip(challenge, portal_ip) {
        Some(ip) => Ok((token, ip)),
        None => Err(CoreError::Portal("认证门户未返回客户端 IP".to_owned())),
    }
}

// ----- Login session -----
/// What came back for one HTTP request of the login.
pub enum HttpReply {
    /// The request URL could not be built.
    UrlRejected,
    /// The request could not be sent or timed out.
    SendFailed,
    /// A response arrived; its body is present if it could be read.
    Received { status: u16, body: Option<String> },
}

/// What the login asks its runner to do next.
pub enum PortalRequest {
    /// Fetch the portal page at `PORTAL_BASE/`.
    FetchPortalPage,
    /// Make a JSONP request to `path` with `pairs` (see [`jsonp_url`]).
    Jsonp { path: &'static str, pairs: Vec<(String, String)> },
    /// The login is over.
    Finished(Result<String, CoreError>),
}

/// Where a login stands.
pub enum LoginStage {
    AwaitingPage,
    AwaitingChallenge(PortalFields),
    AwaitingLogin,
    Finished,
}

/// One Srun login for an account, driven reply by reply.
pub struct PortalLogin {
    pub username: String,
    pub password: String,
    pub os: String,
    pub device_name: String,
    pub stage: LoginStage,
}

/// [`LoginStage`] as plain values.
pub enum StageView {
    AwaitingPage,
    AwaitingChallenge { ac_id: Seq<char>, user_ip: Seq<char> },
    AwaitingLogin,
    Finished,
}

/// [`PortalRequest`] as plain values.
pub enum RequestView {
    FetchPortalPage,
    Jsonp { path: Seq<char>, pairs: Seq<(Seq<char>, Seq<char>)> },
    Finished(Result<Seq<char>, CoreErrorView>),
}

/// The stage of a login as plain values.
pub open spec fn stage_view(stage: LoginStage) -> StageView {
    match stage {
        LoginStage::AwaitingPage => StageView::AwaitingPage,
        LoginStage::AwaitingChallenge(f) => StageView::AwaitingChallenge {
            ac_id: f.ac_id@,
            user_ip: f.user_ip@,
        },
        LoginStage::AwaitingLogin => StageView::AwaitingLogin,
        LoginStage::Finished => StageView::Finished,
    }
}

impl View for PortalRequest {
    type V = RequestView;

    open spec fn view(&self) -> RequestView {
        match self {
            PortalRequest::FetchPortalPage => RequestView::FetchPortalPage,
            PortalRequest::Jsonp { path, pairs } => RequestView::Jsonp {
                path: path@,
                pairs: owned_pairs_view(pairs@),
            },
            PortalRequest::Finished(r) => RequestView::Finished(
                match r {
                    Ok(m) => Ok(m@),
                    Err(e) => Err(e@),
                },
            ),
        }
    }
}

/// The portal page carried by a reply, or why there is none.
pub open spec fn page_result(reply: HttpReply) -> Result<Seq<char>, CoreErrorView> {
    match reply {
        HttpReply::UrlRejected => Err(CoreErrorView::InvalidPortalResponse),
        HttpReply::SendFailed => Err(CoreErrorView::Portal("无法访问认证门户首页"@)),
        HttpReply::Received { status, body } => if !(200 <= status < 400) {
            Err(CoreErrorView::Portal("认证门户首页返回异常状态"@))
        } else {
            match body {
                Some(html) => Ok(html@),
                None => Err(CoreErrorView::Portal("无法读取认证门户首页"@)),
            }
        },
    }
}

/// The JSON object carried by a JSONP reply, or why there is none.
pub open spec fn jsonp_result(reply: HttpReply) -> Result<Seq<(Seq<char>, Option<Seq<char>>)>, CoreErrorView> {
    match reply {
        HttpReply::UrlRejected => Err(CoreErrorView::InvalidPortalResponse),
        HttpReply::SendFailed => Err(CoreErrorView::Portal("认证接口请求超时或连接失败"@)),
        HttpReply::Received { status, body } => if !(200 <= status < 400) {
            Err(CoreErrorView::Portal("认证接口返回异常状态"@))
        } else {
            match body {
                Some(text) => match jsonp_payload(text@) {
                    Some(p) => match json_object_members(p) {
                        Some(m) => Ok(m),
                        None => Err(CoreErrorView::InvalidPortalResponse),
                    },
                    None => Err(CoreErrorView::InvalidPortalResponse),
                },
                None => Err(CoreErrorView::InvalidPortalResponse),
            }
        },
    }
}

/// How an interpreted login reply ends the login.
pub open spec fn login_outcome(i: InterpretationView) -> Result<Seq<char>, CoreErrorView> {
    match i {
        InterpretationView::Success(m) => Ok(m),
        InterpretationView::AlreadyOnline => Ok("当前 IP 已在线"@),
        InterpretationView::Failure(m) => Err(CoreErrorView::Authentication(m)),
    }
}

/// One step of a login for `username`/`password` from `os`/`device_name`: the next stage
/// and request after `reply` arrives in stage `stage`.
pub open spec fn login_step(
    username: Seq<char>,
    password: Seq<char>,
    os: Seq<char>,
    device_name: Seq<char>,
    stage: StageView,
    reply: HttpReply,
) -> (StageView, RequestView) {
    match stage {
        StageView::AwaitingPage => match page_result(reply) {
            Err(e) => (StageView::Finished, RequestView::Finished(Err(e))),
            Ok(html) => (
                StageView::AwaitingChallenge {
                    ac_id: portal_ac_id(html),
                    user_ip: portal_user_ip(html),
                },
                RequestView::Jsonp {
                    path: "/cgi-bin/get_challenge"@,
                    pairs: seq![("username"@, username), ("ip"@, portal_user_ip(html))],
                },
            ),
        },
        StageView::AwaitingChallenge { ac_id, user_ip } => match jsonp_result(reply) {
            Err(e) => (StageView::Finished, RequestView::Finished(Err(e))),
            Ok(obj) => match challenge_outcome(obj, user_ip) {
                Err(e) => (StageView::Finished, RequestView::Finished(Err(e))),
                Ok((token, ip)) => (
                    StageView::AwaitingLogin,
                    RequestView::Jsonp {
                        path: "/cgi-bin/srun_portal"@,
                        pairs: login_query_spec(username, password, ip, ac_id, token, os, device_name),
                    },
                ),
            },
        },
        StageView::AwaitingLogin => match jsonp_result(reply) {
            Err(e) => (StageView::Finished, RequestView::Finished(Err(e))),
            Ok(obj) => (StageView::Finished, RequestView::Finished(login_outcome(interpret_spec(obj)))),
        },
        StageView::Finished => (StageView::Finished, RequestView::Finished(
            Err(CoreErrorView::InvalidPortalResponse),
        )),
    }
}

/// The JSONP reply's object, or why there is none (see [`jsonp_result`]).
fn read_jsonp(reply: &HttpReply) -> (r: Result<JsonObject, CoreError>)
    ensures
        r matches Ok(o) ==> jsonp_result(*reply) == Ok::<_, CoreErrorView>(o@),
        r matches Err(e) ==> jsonp_result(*reply) == Err::<Seq<(Seq<char>, Option<Seq<char>>)>, _>(e@),
{
    match reply {
        HttpReply::UrlRejected => Err(CoreError::InvalidPortalResponse),
        HttpReply::SendFailed => Err(CoreError::Portal("认证接口请求超时或连接失败".to_owned())),
        HttpReply::Received { status, body } => {
            if !success_or_redirect(*status) {
                return Err(CoreError::Portal("认证接口返回异常状态".to_owned()));
            }
            match body {
                Some(text) => parse_json_or_jsonp(text.as_str()),
                None => Err(CoreError::InvalidPortalResponse),
            }
        },
    }
}

impl PortalLogin {
    /// A login for `username`/`password` reporting `os` and `device_name`; the first
    /// request fetches the portal page.
    pub fn new(username: &str, password: &str, os: &str, device_name: &str) -> (r: (PortalLogin, PortalRequest))
        ensures
            r.0.username@ == username@,
            r.0.password@ == password@,
            r.0.os@ == os@,
            r.0.device_name@ == device_name@,
            stage_view(r.0.stage) == StageView::AwaitingPage,
            r.1@ == RequestView::FetchPortalPage,
    {
        (
            PortalLogin {
                username: username.to_owned(),
                password: password.to_owned(),
                os: os.to_owned(),
                device_name: device_name.to_owned(),
                stage: LoginStage::AwaitingPage,
            },
            PortalRequest::FetchPortalPage,
        )
    }

    /// Takes the reply to the last request and says what to do next (see [`login_step`]).
    /// A finished login answers any further reply with an invalid-response error.
    #[verifier::rlimit(60)]
    #[verifier::spinoff_prover]
    pub fn step(&mut self, reply: HttpReply) -> (request: PortalRequest)
        ensures
            final(self).username == old(self).username,
            final(self).password == old(self).password,
            final(self).os == old(self).os,
            final(self).device_name == old(self).device_name,
            (stage_view(final(self).stage), request@) == login_step(
                old(self).username@,
                old(self).password@,
                old(self).os@,
                old(self).device_name@,
                stage_view(old(self).stage),
                reply,
            ),
    {
        match &self.stage {
            LoginStage::AwaitingPage => {
                let html = match &reply {
                    HttpReply::UrlRejected => {
                        self.stage = LoginStage::Finished;
                        return PortalRequest::Finished(Err(CoreError::InvalidPortalResponse));
                    },
                    HttpReply::SendFailed => {
                        self.stage = LoginStage::Finished;
                        return PortalRequest::Finished(
                            Err(CoreError::Portal("无法访问认证门户首页".to_owned())),
                        );
                    },
                    HttpReply::Received { status, body } => {
                        if !success_or_redirect(*status) {
                            self.stage = LoginStage::Finished;
                            return PortalRequest::Finished(
                                Err(CoreError::Portal("认证门户首页返回异常状态".to_owned())),
                            );
                        }
                        match body {
                            Some(html) => html,
                            None => {
                                self.stage = LoginStage::Finished;
                                return PortalRequest::Finished(
                                    Err(CoreError::Portal("无法读取认证门户首页".to_owned())),
                                );
                            },
                        }
                    },
                };
                let fields = parse_portal_fields(html.as_str());
                let mut pairs: Vec<(String, String)> = Vec::new();
                pairs.push(("username".to_owned(), self.username.clone()));
                pairs.push(("ip".to_owned(), fields.user_ip.clone()));
                assert(owned_pairs_view(pairs@) =~= seq![
                    ("username"@, self.username@),
                    ("ip"@, fields.user_ip@),
                ]);
                self.stage = LoginStage::AwaitingChallenge(fields);
                PortalRequest::Jsonp { path: "/cgi-bin/get_challenge", pairs }
            },
            LoginStage::AwaitingChallenge(fields) => {
                let ac_id = fields.ac_id.clone();
                let user_ip = fields.user_ip.clone();
                let challenge = match read_jsonp(&reply) {
                    Ok(o) => o,
                    Err(e) => {
                        self.stage = LoginStage::Finished;
                        return PortalRequest::Finished(Err(e));
                    },
                };
                match read_challenge(&challenge, user_ip.as_str()) {
                    Err(e) => {
                        self.stage = LoginStage::Finished;
                        PortalRequest::Finished(Err(e))
                    },
                    Ok((token, ip)) => {
                        let pairs = login_query(
                            self.username.as_str(),
                            self.password.as_str(),
                            ip.as_str(),
                            ac_id.as_str(),
                            token.as_str(),
                            self.os.as_str(),
                            self.device_name.as_str(),
                        );
                        self.stage = LoginStage::AwaitingLogin;
                        PortalRequest::Jsonp { path: "/cgi-bin/srun_portal", pairs }
                    },
                }
            },
            LoginStage::AwaitingLogin => {
                self.stage = LoginStage::Finished;
                match read_jsonp(&reply) {
                    Err(e) => PortalRequest::Finished(Err(e)),
                    Ok(response) => match PortalResponseInterpreter::interpret(&response) {
                        PortalInterpretation::Success(m) => PortalRequest::Finished(Ok(m)),
                        PortalInterpretation::AlreadyOnline => PortalRequest::Finished(
                            Ok("当前 IP 已在线".to_owned()),
                        ),
                        PortalInterpretation::Failure(m) => PortalRequest::Finished(
                            Err(CoreError::Authentication(m)),
                        ),
                    },
                }
            },
            LoginStage::Finished => PortalRequest::Finished(Err(CoreError::InvalidPortalResponse)),
        }
    }
}


/// How many more replies a login in `stage` takes at most.
pub open spec fn stage_rank(stage: StageView) -> nat {
    match stage {
        StageView::AwaitingPage => 3,
        StageView::AwaitingChallenge { .. } => 2,
        StageView::AwaitingLogin => 1,
        StageView::Finished => 0,
    }
}

/// Every reply moves an unfinished login to a later stage, and the request it asks for is
/// the final outcome exactly when the login has finished: a login ends after at most three
/// replies.
pub proof fn lemma_login_progresses(
    username: Seq<char>,
    password: Seq<char>,
    os: Seq<char>,
    device_name: Seq<char>,
    stage: StageView,
    reply: HttpReply,
)
    requires
        !(stage is Finished),
    ensures
        stage_rank(login_step(username, password, os, device_name, stage, reply).0) < stage_rank(stage),
        (login_step(username, password, os, device_name, stage, reply).0 is Finished)
            <==> (login_step(username, password, os, device_name, stage, reply).1 is Finished),
{
}

/// A meaningful `client_ip` in the challenge reply is the address used, whatever the portal
/// page said.
pub proof fn lemma_challenge_ip_has_priority(challenge: Seq<(Seq<char>, Option<Seq<char>>)>, portal_ip: Seq<char>)
    requires
        meaningful_spec(challenge, "client_ip"@) is Some,
    ensures
        client_ip_spec(challenge, portal_ip) == meaningful_spec(challenge, "client_ip"@),
{
}

/// The portal page's address is used only when the challenge reply names none.
pub proof fn lemma_portal_ip_is_fallback(challenge: Seq<(Seq<char>, Option<Seq<char>>)>, portal_ip: Seq<char>)
    requires
        meaningful_spec(challenge, "client_ip"@) is None,
    ensures
        client_ip_spec(challenge, portal_ip) == (if trim(portal_ip).len() == 0 {
            None
        } else {
            Some(trim(portal_ip))
        }),
{
}

/// A reply whose `error` is `ok` is a success, whatever its other members say.
pub proof fn lemma_error_ok_wins(obj: Seq<(Seq<char>, Option<Seq<char>>)>)
    requires
        meaningful_spec(obj, "error"@) == Some("ok"@),
    ensures
        interpret_spec(obj) is Success,
{
}

/// Stripping URLs that start with `p` changes nothing in a text without `p`'s first
/// character.
proof fn lemma_strip_urls_without_start(s: Seq<char>, p: Seq<char>)
    requires
        p.len() > 0,
        forall|i: int| 0 <= i < s.len() ==> s[i] != p[0],
    ensures
        strip_urls(s, p) == s,
    decreases s.len(),
{
    if s.len() > 0 {
        if occurs_at(s, p, 0) {
            assert(s.subrange(0, p.len() as int)[0] == s[0]);
        }
        lemma_strip_urls_without_start(s.drop_first(), p);
        assert(seq![s[0]] + s.drop_first() == s);
    }
}

/// The cut of a text is a prefix of it.
proof fn lemma_utf8_prefix_is_prefix(s: Seq<char>, budget: int)
    ensures
        utf8_prefix(s, budget).len() <= s.len(),
        forall|i: int| 0 <= i < utf8_prefix(s, budget).len() ==> utf8_prefix(s, budget)[i] == s[i],
    decreases s.len(),
{
    if s.len() > 0 && utf8_width(s[0]) <= budget {
        let rest = s.drop_first();
        lemma_utf8_prefix_is_prefix(rest, budget - utf8_width(s[0]));
        let r = utf8_prefix(rest, budget - utf8_width(s[0]));
        assert forall|i: int| 0 <= i < (seq![s[0]] + r).len() implies (seq![s[0]] + r)[i] == s[i] by {
            if i > 0 {
                assert((seq![s[0]] + r)[i] == r[i - 1]);
                assert(r[i - 1] == rest[i - 1]);
                assert(rest[i - 1] == s[i]);
            }
        }
    }
}

/// A text of white space only trims to nothing.
proof fn lemma_trim_of_blank(s: Seq<char>)
    requires
        forall|i: int| 0 <= i < s.len() ==> is_white_space(s[i]),
    ensures
        trim(s).len() == 0,
    decreases s.len(),
{
    if s.len() > 0 {
        lemma_trim_of_blank(s.drop_first());
        assert(trim_start(s) == trim_start(s.drop_first()));
    }
}

/// The login request follows an accepted challenge for the address the challenge reply
/// names: whatever address the portal page gave, the `ip` pair, the info block and the
/// checksum of the login request are made for the challenge's `client_ip`.
pub proof fn lemma_login_uses_challenge_client_ip(
    username: Seq<char>,
    password: Seq<char>,
    os: Seq<char>,
    device_name: Seq<char>,
    ac_id: Seq<char>,
    user_ip: Seq<char>,
    reply: HttpReply,
    challenge: Seq<(Seq<char>, Option<Seq<char>>)>,
    client_ip: Seq<char>,
)
    requires
        jsonp_result(reply) == Ok::<_, CoreErrorView>(challenge),
        member_text(challenge, "error"@) == "ok"@,
        member_text(challenge, "challenge"@).len() > 0,
        meaningful_spec(challenge, "client_ip"@) == Some(client_ip),
    ensures
        login_step(
            username,
            password,
            os,
            device_name,
            StageView::AwaitingChallenge { ac_id, user_ip },
            reply,
        ) == (StageView::AwaitingLogin, RequestView::Jsonp {
            path: "/cgi-bin/srun_portal"@,
            pairs: login_query_spec(
                username,
                password,
                client_ip,
                ac_id,
                member_text(challenge, "challenge"@),
                os,
                device_name,
            ),
        }),
{
}

/// Without a client address in an accepted challenge reply, the login request is made for
/// the portal page's address, trimmed.
pub proof fn lemma_login_falls_back_to_page_ip(
    username: Seq<char>,
    password: Seq<char>,
    os: Seq<char>,
    device_name: Seq<char>,
    ac_id: Seq<char>,
    user_ip: Seq<char>,
    reply: HttpReply,
    challenge: Seq<(Seq<char>, Option<Seq<char>>)>,
)
    requires
        jsonp_result(reply) == Ok::<_, CoreErrorView>(challenge),
        member_text(challenge, "error"@) == "ok"@,
        member_text(challenge, "challenge"@).len() > 0,
        meaningful_spec(challenge, "client_ip"@) is None,
        trim(user_ip).len() > 0,
    ensures
        login_step(
            username,
            password,
            os,
            device_name,
            StageView::AwaitingChallenge { ac_id, user_ip },
            reply,
        ) == (StageView::AwaitingLogin, RequestView::Jsonp {
            path: "/cgi-bin/srun_portal"@,
            pairs: login_query_spec(
                username,
                password,
                trim(user_ip),
                ac_id,
                member_text(challenge, "challenge"@),
                os,
                device_name,
            ),
        }),
{
}

/// A refused login reply that mentions `already_online` (in any ASCII case) in any of the
/// members `ploy_msg`, `error_msg`, `ecode`, `error` and `res` means that the address is
/// already online, whatever the other members say.
pub proof fn lemma_already_online_in_any_member(obj: Seq<(Seq<char>, Option<Seq<char>>)>, k: int, t: Seq<char>)
    requires
        meaningful_spec(obj, "error"@) != Some("ok"@),
        0 <= k < 5,
        meaningful_spec(obj, seq!["ploy_msg"@, "error_msg"@, "ecode"@, "error"@, "res"@][k]) == Some(t),
        contains_seq(ascii_lowercase(t), "already_online"@),
    ensures
        interpret_spec(obj) == InterpretationView::AlreadyOnline,
{
    reveal_strlit("ok");
    let keys = failure_keys();
    assert(keys == seq!["ploy_msg"@, "error_msg"@, "ecode"@, "error"@, "res"@]);
    lemma_mentions_already_online(obj, keys, k);
    let error = match meaningful_spec(obj, "error"@) {
        Some(e) => e,
        None => Seq::empty(),
    };
    if error == "ok"@ {
        assert(meaningful_spec(obj, "error"@) is Some) by {
            if meaningful_spec(obj, "error"@) is None {
                assert(Seq::<char>::empty().len() == 0);
            }
        }
    }
}

proof fn lemma_mentions_already_online(obj: Seq<(Seq<char>, Option<Seq<char>>)>, keys: Seq<Seq<char>>, k: int)
    requires
        0 <= k < keys.len(),
        meaningful_spec(obj, keys[k]) matches Some(t) && contains_seq(ascii_lowercase(t), "already_online"@),
    ensures
        mentions_already_online(obj, keys),
    decreases keys.len(),
{
    if k > 0 {
        lemma_mentions_already_online(obj, keys.drop_first(), k - 1);
    }
}

/// Redaction consults the pattern whenever the text holds a `:` or a `=`: it is then the
/// `regex` crate's replacement of every sensitive assignment, written with either mark.
/// Only a text with neither mark, which no assignment can be found in, is kept as it is.
pub proof fn lemma_redaction_applies_to_either_mark(text: Seq<char>, k: int)
    requires
        0 <= k < text.len(),
        text[k] == ':' || text[k] == '=',
    ensures
        redacted_assignments(text) == regex_replaced(SENSITIVE_ASSIGNMENT@, text, HIDDEN_ASSIGNMENT@),
{
}

} // verus!
