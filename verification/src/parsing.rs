//! Reading the portal page's hidden fields and the portal's JSON / JSONP replies.
use vstd::prelude::*;

use crate::pattern::{
    escape, find_all, first_capture, is_match, regex_escaped, regex_first_capture, regex_found,
    regex_matches,
};
use crate::text::{chars_of, push_str, string_of};
use crate::workflow::CoreError;

verus! {

/// Access point and client address read from the portal page.
#[derive(Clone, Debug, PartialEq, Eq)]
pub struct PortalFields {
    pub ac_id: String,
    pub user_ip: String,
}

/// The pattern of an `<input ...>` tag.
pub const INPUT_TAG_PATTERN: &'static str = r#"(?is)<input\b[^>]*>"#;

/// The pattern of a quoted `value` attribute, the value captured.
pub const VALUE_PATTERN: &'static str = r#"(?is)\bvalue\s*=\s*["']([^"']*)["']"#;

/// The part of the id pattern before the escaped id.
pub const ID_PATTERN_START: &'static str = r#"(?is)\bid\s*=\s*["']"#;

/// The part of the id pattern after the escaped id.
pub const ID_PATTERN_END: &'static str = r#"["']"#;

/// The `<input ...>` tags of `html`, in order.
pub open spec fn input_tags_of(html: Seq<char>) -> Seq<Seq<char>> {
    regex_matches(INPUT_TAG_PATTERN@, html)
}

/// The pattern of the attribute `id` with the quoted value `id`, taken literally.
pub open spec fn id_pattern(id: Seq<char>) -> Seq<char> {
    ID_PATTERN_START@ + regex_escaped(id) + ID_PATTERN_END@
}

/// Whether `tag` carries the attribute `id` with the quoted value `id`.
pub open spec fn tag_has_id_of(tag: Seq<char>, id: Seq<char>) -> bool {
    regex_found(id_pattern(id), tag)
}

/// The quoted `value` attribute of `tag`.
pub open spec fn tag_value_of(tag: Seq<char>) -> Option<Seq<char>> {
    regex_first_capture(VALUE_PATTERN@, tag)
}

/// Whether `tag` has the id `id` (see [`tag_has_id_of`]).
fn tag_has_id(tag: &str, id: &str) -> (b: bool)
    ensures
        b == tag_has_id_of(tag@, id@),
{
    let mut pattern = ID_PATTERN_START.to_owned();
    push_str(&mut pattern, escape(id).as_str());
    push_str(&mut pattern, ID_PATTERN_END);
    is_match(pattern.as_str(), tag)
}

/// The value of the first tag among `tags` that has the id `id` and a quoted value.
pub open spec fn first_tag_value(tags: Seq<Seq<char>>, id: Seq<char>) -> Option<Seq<char>>
    decreases tags.len(),
{
    if tags.len() == 0 {
        None
    } else if tag_has_id_of(tags[0], id) && tag_value_of(tags[0]) is Some {
        tag_value_of(tags[0])
    } else {
        first_tag_value(tags.drop_first(), id)
    }
}

/// The value of the input element with id `id` in `html`.
pub open spec fn input_value_spec(html: Seq<char>, id: Seq<char>) -> Option<Seq<char>> {
    first_tag_value(input_tags_of(html), id)
}

/// The value of the first `<input>` of `html` with id `id` that has a quoted value.
pub fn input_value(html: &str, id: &str) -> (value: Option<String>)
    ensures
        value is Some <==> input_value_spec(html@, id@) is Some,
        value matches Some(v) ==> v@ == input_value_spec(html@, id@).unwrap(),
{
    let tags = find_all(INPUT_TAG_PATTERN, html);
    let ghost views = input_tags_of(html@);
    let mut i: usize = 0;
    assert(views.skip(0) == views);
    while i < tags.len()
        invariant
            i <= tags@.len(),
            tags@.map_values(|t: String| t@) == views,
            views == input_tags_of(html@),
            first_tag_value(views, id@) == first_tag_value(views.skip(i as int), id@),
        decreases tags.len() - i,
    {
        let tag = tags[i].as_str();
        proof {
            assert(views[i as int] == tags@[i as int]@);
            assert(views.skip(i as int).drop_first() == views.skip(i + 1));
            assert(views.skip(i as int)[0] == views[i as int]);
        }
        if tag_has_id(tag, id) {
            let value = first_capture(VALUE_PATTERN, tag);
            if value.is_some() {
                return value;
            }
        }
        i = i + 1;
    }
    proof {
        assert(views.skip(i as int).len() == 0);
    }
    None
}

/// The access point of a portal page, `27` when the page names none.
pub open spec fn portal_ac_id(html: Seq<char>) -> Seq<char> {
    match input_value_spec(html, "ac_id"@) {
        Some(v) => v,
        None => "27"@,
    }
}

/// The client address of a portal page, empty when the page names none.
pub open spec fn portal_user_ip(html: Seq<char>) -> Seq<char> {
    match input_value_spec(html, "user_ip"@) {
        Some(v) => v,
        None => Seq::<char>::empty(),
    }
}

/// The access point and client address of a portal page. A missing access point falls
/// back to `27`; a missing address stays empty.
pub fn parse_portal_fields(html: &str) -> (fields: PortalFields)
    ensures
        fields.ac_id@ == portal_ac_id(html@),
        fields.user_ip@ == portal_user_ip(html@),
{
    let ac_id = match input_value(html, "ac_id") {
        Some(v) => v,
        None => "27".to_owned(),
    };
    let user_ip = match input_value(html, "user_ip") {
        Some(v) => v,
        None => String::new(),
    };
    PortalFields { ac_id, user_ip }
}

// ----- JSON objects -----
/// A JSON object as the portal logic reads it: each member's name, with its text when
/// the member is a string or a number (`None` for any other JSON value).
#[derive(Clone, Debug, PartialEq, Eq)]
pub struct JsonObject {
    pub members: Vec<(String, Option<String>)>,
}

/// The members as plain values.
pub open spec fn members_view(members: Seq<(String, Option<String>)>) -> Seq<(Seq<char>, Option<Seq<char>>)> {
    members.map_values(
        |m: (String, Option<String>)|
            (
                m.0@,
                match m.1 {
                    Some(t) => Some(t@),
                    None => None,
                },
            ),
    )
}

impl View for JsonObject {
    type V = Seq<(Seq<char>, Option<Seq<char>>)>;

    open spec fn view(&self) -> Seq<(Seq<char>, Option<Seq<char>>)> {
        members_view(self.members@)
    }
}

/// The text of member `key`: the last member of that name decides; empty when there is
/// none or it is neither a string nor a number.
pub open spec fn member_text(members: Seq<(Seq<char>, Option<Seq<char>>)>, key: Seq<char>) -> Seq<char>
    decreases members.len(),
{
    if members.len() == 0 {
        Seq::empty()
    } else if members.last().0 == key {
        match members.last().1 {
            Some(t) => t,
            None => Seq::empty(),
        }
    } else {
        member_text(members.drop_last(), key)
    }
}

impl JsonObject {
    /// The text of member `key` (see [`member_text`]).
    pub fn text(&self, key: &str) -> (t: String)
        ensures
            t@ == member_text(self@, key@),
    {
        let key_chars = chars_of(key);
        let mut i: usize = self.members.len();
        assert(self@.take(i as int) == self@);
        while i > 0
            invariant
                i <= self.members@.len(),
                key_chars@ == key@,
                member_text(self@, key@) == member_text(self@.take(i as int), key@),
            decreases i,
        {
            let member = &self.members[i - 1];
            proof {
                assert(self@.take(i as int).last() == self@[i - 1]);
                assert(self@.take(i as int).drop_last() == self@.take(i - 1));
            }
            if crate::text::chars_eq(&chars_of(member.0.as_str()), &key_chars) {
                return match &member.1 {
                    Some(t) => t.clone(),
                    None => String::new(),
                };
            }
            i = i - 1;
        }
        String::new()
    }
}

/// The members of the JSON object that `text` holds, as `serde_json` parses it (members
/// in its map order, strings by their content, numbers by their printed form); `None`
/// when `text` is not a JSON object.
pub uninterp spec fn json_object_members(text: Seq<char>) -> Option<Seq<(Seq<char>, Option<Seq<char>>)>>;

/// Calls `serde_json::from_str` into a `serde_json::Value` and prints numbers with their
/// `Display` impl. Claimed: the members are the named parse of `text`.
#[verifier::external_body]
fn parse_json_members(text: &str) -> (members: Option<Vec<(String, Option<String>)>>)
    ensures
        members is Some <==> json_object_members(text@) is Some,
        members matches Some(m) ==> members_view(m@) == json_object_members(text@).unwrap(),
{
    match serde_json::from_str::<serde_json::Value>(text) {
        Ok(serde_json::Value::Object(map)) => Some(map.into_iter().map(|(name, value)| match value {
            serde_json::Value::String(s) => (name, Some(s)),
            serde_json::Value::Number(n) => (name, Some(n.to_string())),
            _ => (name, None),
        }).collect()),
        _ => None,
    }
}

/// Position of the first `c` in `s`.
pub open spec fn first_index_of(s: Seq<char>, c: char) -> Option<int>
    decreases s.len(),
{
    if s.len() == 0 {
        None
    } else if s[0] == c {
        Some(0)
    } else {
        match first_index_of(s.drop_first(), c) {
            Some(i) => Some(i + 1),
            None => None,
        }
    }
}

/// Position of the last `c` in `s`.
pub open spec fn last_index_of(s: Seq<char>, c: char) -> Option<int>
    decreases s.len(),
{
    if s.len() == 0 {
        None
    } else if s.last() == c {
        Some(s.len() - 1)
    } else {
        last_index_of(s.drop_last(), c)
    }
}

/// The text from the first `{` to the last `}` of a JSON or JSONP reply, if any.
pub open spec fn jsonp_payload(s: Seq<char>) -> Option<Seq<char>> {
    match (first_index_of(s, '{'), last_index_of(s, '}')) {
        (Some(start), Some(end)) => if start <= end {
            Some(s.subrange(start, end + 1))
        } else {
            None
        },
        _ => None,
    }
}

proof fn lemma_first_index_of(s: Seq<char>, c: char, i: int)
    requires
        0 <= i < s.len(),
        s[i] == c,
        forall|k: int| 0 <= k < i ==> s[k] != c,
    ensures
        first_index_of(s, c) == Some(i),
    decreases i,
{
    if i > 0 {
        lemma_first_index_of(s.drop_first(), c, i - 1);
    }
}

proof fn lemma_first_index_none(s: Seq<char>, c: char)
    requires
        forall|k: int| 0 <= k < s.len() ==> s[k] != c,
    ensures
        first_index_of(s, c) is None,
    decreases s.len(),
{
    if s.len() > 0 {
        lemma_first_index_none(s.drop_first(), c);
    }
}

proof fn lemma_last_index_of(s: Seq<char>, c: char, i: int)
    requires
        0 <= i < s.len(),
        s[i] == c,
        forall|k: int| i < k < s.len() ==> s[k] != c,
    ensures
        last_index_of(s, c) == Some(i),
    decreases s.len(),
{
    if i < s.len() - 1 {
        lemma_last_index_of(s.drop_last(), c, i);
    }
}

proof fn lemma_last_index_none(s: Seq<char>, c: char)
    requires
        forall|k: int| 0 <= k < s.len() ==> s[k] != c,
    ensures
        last_index_of(s, c) is None,
    decreases s.len(),
{
    if s.len() > 0 {
        lemma_last_index_none(s.drop_last(), c);
    }
}

/// Reads the JSON object of a JSON or JSONP reply: the text from its first `{` to its last
/// `}` must parse as a JSON object.
pub fn parse_json_or_jsonp(input: &str) -> (r: Result<JsonObject, CoreError>)
    ensures
        jsonp_payload(input@) is None ==> r == Err::<JsonObject, CoreError>(
            CoreError::InvalidPortalResponse,
        ),
        jsonp_payload(input@) matches Some(p) ==> {
            &&& (r is Ok <==> json_object_members(p) is Some)
            &&& (r matches Ok(o) ==> o@ == json_object_members(p).unwrap())
            &&& (r is Err ==> r == Err::<JsonObject, CoreError>(CoreError::InvalidPortalResponse))
        },
{
    let chars = chars_of(input);
    let n = chars.len();
    let mut start: usize = 0;
    while start < n && chars[start] != '{'
        invariant
            n == chars@.len(),
            start <= n,
            forall|k: int| 0 <= k < start ==> chars@[k] != '{',
        decreases n - start,
    {
        start = start + 1;
    }
    if start == n {
        proof {
            lemma_first_index_none(chars@, '{');
        }
        return Err(CoreError::InvalidPortalResponse);
    }
    proof {
        lemma_first_index_of(chars@, '{', start as int);
    }
    let mut end: usize = n;
    while end > 0 && chars[end - 1] != '}'
        invariant
            n == chars@.len(),
            end <= n,
            forall|k: int| end <= k < n ==> chars@[k] != '}',
        decreases end,
    {
        end = end - 1;
    }
    if end == 0 {
        proof {
            lemma_last_index_none(chars@, '}');
        }
        return Err(CoreError::InvalidPortalResponse);
    }
    proof {
        lemma_last_index_of(chars@, '}', end - 1);
    }
    if start > end - 1 {
        return Err(CoreError::InvalidPortalResponse);
    }
    let mut payload: Vec<char> = Vec::new();
    let mut k: usize = start;
    while k < end
        invariant
            start <= k <= end <= n,
            n == chars@.len(),
            payload@ == chars@.subrange(start as int, k as int),
        decreases end - k,
    {
        payload.push(chars[k]);
        k = k + 1;
    }
    let text = string_of(&payload);
    match parse_json_members(text.as_str()) {
        Some(members) => Ok(JsonObject { members }),
        None => Err(CoreError::InvalidPortalResponse),
    }
}

} // verus!
