//! The JSON values that the wire protocol reads and writes, through
//! serde_json.
use vstd::prelude::*;
use crate::text::hex_digit;

verus! {

/// How a character is written inside a JSON string literal: a quote and a
/// backslash are escaped, backspace, tab, line feed, form feed and carriage
/// return take their short escapes, other control characters are written as
/// `\u00XX` with lowercase hex digits, and every other character stands as
/// it is.
pub open spec fn json_escaped_char(c: char) -> Seq<char> {
    if c == '"' {
        seq!['\\', '"']
    } else if c == '\\' {
        seq!['\\', '\\']
    } else if c == '\x08' {
        seq!['\\', 'b']
    } else if c == '\t' {
        seq!['\\', 't']
    } else if c == '\n' {
        seq!['\\', 'n']
    } else if c == '\x0C' {
        seq!['\\', 'f']
    } else if c == '\r' {
        seq!['\\', 'r']
    } else if (c as u32) < 0x20 {
        seq!['\\', 'u', '0', '0', hex_digit(((c as u32) / 16) as nat), hex_digit(((c as u32) % 16) as nat)]
    } else {
        seq![c]
    }
}

/// The escaped characters of a text, in order.
pub open spec fn json_escaped(s: Seq<char>) -> Seq<char>
    decreases s.len(),
{
    if s.len() == 0 {
        Seq::empty()
    } else {
        json_escaped(s.drop_last()) + json_escaped_char(s.last())
    }
}

/// The text of `s` as a JSON string literal, quotes and escapes included.
pub open spec fn json_quoted(s: Seq<char>) -> Seq<char> {
    seq!['"'] + json_escaped(s) + seq!['"']
}

/// Relies on serde_json::to_string for `&str` (format_escaped_str): the
/// JSON string literal of the text, escaped as `json_escaped_char` states.
#[verifier::external_body]
pub(crate) fn quote_json(s: &str) -> (r: String)
    ensures
        r@ == json_quoted(s@),
{
    serde_json::to_string(s).unwrap_or_default()
}

/// One element of a JSON array as the engine reads it: its compact
/// serialisation, its value when it is a string, and its value when it is a
/// boolean.
pub struct JsonSlot {
    pub text: String,
    pub string: Option<String>,
    pub boolean: Option<bool>,
}

pub ghost struct JsonSlotView {
    pub text: Seq<char>,
    pub string: Option<Seq<char>>,
    pub boolean: Option<bool>,
}

impl View for JsonSlot {
    type V = JsonSlotView;

    open spec fn view(&self) -> JsonSlotView {
        JsonSlotView {
            text: self.text@,
            string: match self.string {
                Some(s) => Some(s@),
                None => None,
            },
            boolean: self.boolean,
        }
    }
}

pub open spec fn slots_view(v: Seq<JsonSlot>) -> Seq<JsonSlotView> {
    v.map_values(|s: JsonSlot| s@)
}

/// The elements of the JSON text when it is an array, in order; none when it
/// is not valid JSON or not an array.
pub uninterp spec fn json_array_items(text: Seq<char>) -> Option<Seq<JsonSlotView>>;

/// Relies on serde_json::from_str into `Vec<Value>` and on `Value`'s
/// `to_string`, `as_str` and `as_bool`: the result depends on the text alone.
#[verifier::external_body]
pub(crate) fn decode_json_array(text: &str) -> (r: Option<Vec<JsonSlot>>)
    ensures
        r is Some <==> json_array_items(text@) is Some,
        r is Some ==> slots_view(r->0@) == json_array_items(text@)->0,
{
    let items: Vec<serde_json::Value> = serde_json::from_str(text).ok()?;
    Some(items.iter().map(|v| JsonSlot {
        text: v.to_string(),
        string: v.as_str().map(|s| s.to_string()),
        boolean: v.as_bool(),
    }).collect())
}

/// The fields of an event object that the engine reads; each is present
/// only when the member exists with the expected JSON type (`kind` as an
/// unsigned integer, `created_at` as a signed 64-bit integer).
pub struct EventFields {
    pub id: Option<String>,
    pub kind: Option<u64>,
    pub pubkey: Option<String>,
    pub created_at: Option<i64>,
    pub content: Option<String>,
}

pub ghost struct EventFieldsView {
    pub id: Option<Seq<char>>,
    pub kind: Option<u64>,
    pub pubkey: Option<Seq<char>>,
    pub created_at: Option<i64>,
    pub content: Option<Seq<char>>,
}

pub open spec fn opt_view(o: Option<String>) -> Option<Seq<char>> {
    match o {
        Some(s) => Some(s@),
        None => None,
    }
}

impl View for EventFields {
    type V = EventFieldsView;

    open spec fn view(&self) -> EventFieldsView {
        EventFieldsView {
            id: opt_view(self.id),
            kind: self.kind,
            pubkey: opt_view(self.pubkey),
            created_at: self.created_at,
            content: opt_view(self.content),
        }
    }
}

/// The event fields of a JSON text; none when the text is not valid JSON.
pub uninterp spec fn json_event_fields(text: Seq<char>) -> Option<EventFieldsView>;

/// Relies on serde_json::from_str into `Value`, indexing by member name, and
/// `as_str`, `as_u64`, `as_i64`: the result depends on the text alone.
#[verifier::external_body]
pub(crate) fn decode_event_fields(text: &str) -> (r: Option<EventFields>)
    ensures
        r is Some <==> json_event_fields(text@) is Some,
        r is Some ==> r->0@ == json_event_fields(text@)->0,
{
    let v: serde_json::Value = serde_json::from_str(text).ok()?;
    Some(EventFields {
        id: v["id"].as_str().map(|s| s.to_string()),
        kind: v["kind"].as_u64(),
        pubkey: v["pubkey"].as_str().map(|s| s.to_string()),
        created_at: v["created_at"].as_i64(),
        content: v["content"].as_str().map(|s| s.to_string()),
    })
}

/// The signature and tags members of an event object: `sig` when it is a
/// string; `tags` when it is an array, each element read as a list of its
/// string entries when it is an array (entries that are not strings read as
/// none).
pub struct EventExtra {
    pub sig: Option<String>,
    pub tags: Option<Vec<Option<Vec<Option<String>>>>>,
}

pub ghost struct EventExtraView {
    pub sig: Option<Seq<char>>,
    pub tags: Option<Seq<Option<Seq<Option<Seq<char>>>>>>,
}

pub open spec fn entries_view(v: Seq<Option<String>>) -> Seq<Option<Seq<char>>> {
    v.map_values(|o: Option<String>| opt_view(o))
}

pub open spec fn raw_tags_view(v: Seq<Option<Vec<Option<String>>>>) -> Seq<Option<Seq<Option<Seq<char>>>>> {
    v.map_values(|o: Option<Vec<Option<String>>>| match o {
        Some(t) => Some(entries_view(t@)),
        None => None,
    })
}

impl View for EventExtra {
    type V = EventExtraView;

    open spec fn view(&self) -> EventExtraView {
        EventExtraView {
            sig: opt_view(self.sig),
            tags: match self.tags {
                Some(t) => Some(raw_tags_view(t@)),
                None => None,
            },
        }
    }
}

/// The signature and tags of a JSON text; none when the text is not valid
/// JSON.
pub uninterp spec fn json_event_extra(text: Seq<char>) -> Option<EventExtraView>;

/// Relies on serde_json::from_str into `Value`, indexing by member name, and
/// `as_str`, `as_array`: the result depends on the text alone.
#[verifier::external_body]
pub(crate) fn decode_event_extra(text: &str) -> (r: Option<EventExtra>)
    ensures
        r is Some <==> json_event_extra(text@) is Some,
        r is Some ==> r->0@ == json_event_extra(text@)->0,
{
    let v: serde_json::Value = serde_json::from_str(text).ok()?;
    Some(EventExtra {
        sig: v["sig"].as_str().map(String::from),
        tags: v["tags"].as_array().map(|a| {
            a.iter().map(|t| t.as_array().map(|t| t.iter().map(|x| x.as_str().map(String::from)).collect())).collect()
        }),
    })
}

} // verus!
