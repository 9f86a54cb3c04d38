//! The text normaliser: strips the legacy `{"sk": ...}` envelope from free
//! text, decodes HTML entities, and wraps plain text into the target's
//! rich-text document.

use vstd::prelude::*;
use crate::slug::is_slug_char;

verus! {

/// What `serde_json` finds in a JSON text under a top-level key: the string
/// stored there, when the text is a JSON object whose field `key` is a string.
pub uninterp spec fn json_string_field_of(text: Seq<char>, key: Seq<char>) -> Option<Seq<char>>;

/// What `html_escape::decode_html_entities` makes of a text.
pub uninterp spec fn entities_decoded(s: Seq<char>) -> Seq<char>;

/// How one character is written inside a JSON string: `"` and `\` with a
/// backslash, the control characters with a short escape where JSON has one
/// and as `\u00xx` (lower-case hex) otherwise, every other character as is.
pub open spec fn json_escaped(c: char) -> Seq<char> {
    let hex = seq!['0', '1', '2', '3', '4', '5', '6', '7', '8', '9', 'a', 'b', 'c', 'd', 'e', 'f'];
    if c == '"' {
        seq!['\\', '"']
    } else if c == '\\' {
        seq!['\\', '\\']
    } else if c == '\u{8}' {
        seq!['\\', 'b']
    } else if c == '\t' {
        seq!['\\', 't']
    } else if c == '\n' {
        seq!['\\', 'n']
    } else if c == '\u{c}' {
        seq!['\\', 'f']
    } else if c == '\r' {
        seq!['\\', 'r']
    } else if (c as u32) < 32 {
        seq!['\\', 'u', '0', '0', hex[(c as u32 / 16) as int], hex[(c as u32 % 16) as int]]
    } else {
        seq![c]
    }
}

/// A string as a JSON string literal: quoted, each character escaped.
pub open spec fn json_literal(s: Seq<char>) -> Seq<char> {
    seq!['"'] + s.map_values(|c: char| json_escaped(c)).flatten() + seq!['"']
}

/// The field name of the legacy envelope.
pub open spec fn legacy_key() -> Seq<char> {
    seq!['s', 'k']
}

/// The payload of the legacy envelope, if `text` is one.
pub open spec fn legacy_payload(text: Seq<char>) -> Option<Seq<char>> {
    json_string_field_of(text, legacy_key())
}

/// Unwraps nested envelopes for as long as the (non-empty) payload is itself
/// an envelope.
pub open spec fn innermost(p: Seq<char>) -> Seq<char>
    decreases p.len(),
{
    if p.len() > 0 && legacy_payload(p) is Some && legacy_payload(p)->0.len() < p.len() {
        innermost(legacy_payload(p)->0)
    } else {
        p
    }
}

/// The working text of a raw field: the innermost payload when the raw text
/// is an envelope, else the raw text itself.
pub open spec fn unwrapped(raw: Seq<char>) -> Seq<char> {
    match legacy_payload(raw) {
        Some(p) => innermost(p),
        None => raw,
    }
}

/// A raw field made plain: unwrapped, then its HTML entities decoded.
pub open spec fn purified(raw: Seq<char>) -> Seq<char> {
    entities_decoded(unwrapped(raw))
}

/// The decimal digits of a natural number.
pub open spec fn digits_of(n: nat) -> Seq<char>
    decreases n,
{
    let d = seq!['0', '1', '2', '3', '4', '5', '6', '7', '8', '9'];
    if n < 10 {
        seq![d[n as int]]
    } else {
        digits_of(n / 10).push(d[(n % 10) as int])
    }
}

/// An integer written in decimal, with a leading `-` when negative.
pub open spec fn decimal_text(n: int) -> Seq<char> {
    if n < 0 {
        seq!['-'] + digits_of((-n) as nat)
    } else {
        digits_of(n as nat)
    }
}

/// Whether every character of `s` is an ASCII letter or digit.
pub open spec fn is_alphanumeric_text(s: Seq<char>) -> bool {
    forall|i: int| 0 <= i < s.len() ==> is_slug_char(#[trigger] s[i]) && s[i] != '-'
}

/// A paragraph block identifier: eight ASCII letters or digits.
pub open spec fn is_block_id(id: Seq<char>) -> bool {
    id.len() == 8 && is_alphanumeric_text(id)
}

/// The rich-text document holding `text` as its single paragraph block,
/// tagged with `id` and the time `time`: compact JSON with the keys in
/// alphabetical order, the strings quoted by `serde_json`.
pub open spec fn rich_text(text: Seq<char>, id: Seq<char>, time: int) -> Seq<char> {
    "{\"blocks\":[{\"data\":{\"text\":"@ + json_literal(text) + "},\"id\":"@ + json_literal(id)
        + ",\"type\":\"paragraph\"}],\"time\":"@ + decimal_text(time)
        + ",\"version\":\"2.24.3\"}"@
}

/// Relies on `serde_json::from_str` into a `serde_json::Value`, then
/// `Value::get` and `Value::as_str`: the string field `key` of the JSON text.
/// A string read out of a JSON text is shorter than the text, which also
/// holds at least the braces and the quotes around it.
#[verifier::external_body]
fn json_string_field(text: &str, key: &str) -> (r: Option<String>)
    ensures
        (r is Some) == (json_string_field_of(text@, key@) is Some),
        r is Some ==> r->0@ == json_string_field_of(text@, key@)->0,
        r is Some ==> r->0@.len() < text@.len(),
{
    match serde_json::from_str::<serde_json::Value>(text) {
        Ok(v) => v.get(key).and_then(|f| f.as_str()).map(|f| f.to_string()),
        Err(_) => None,
    }
}

/// Relies on `html_escape::decode_html_entities`: HTML entities decoded; a
/// text without `&` comes back as it is.
#[verifier::external_body]
fn decode_entities(s: &str) -> (r: String)
    ensures
        r@ == entities_decoded(s@),
        !s@.contains('&') ==> r@ == s@,
{
    html_escape::decode_html_entities(s).into_owned()
}

/// Relies on `serde_json::to_string` on a `str`, which cannot fail: the JSON
/// string literal of `s`, escaped by serde_json's escape table.
#[verifier::external_body]
fn quote_json(s: &str) -> (r: String)
    ensures
        r@ == json_literal(s@),
{
    match serde_json::to_string(s) {
        Ok(q) => q,
        Err(_) => String::new(),
    }
}

/// Relies on `i64`'s `to_string`: the decimal form of `n`.
#[verifier::external_body]
pub(crate) fn decimal(n: i64) -> (r: String)
    ensures
        r@ == decimal_text(n as int),
{
    n.to_string()
}

/// Relies on `rand`'s `Alphanumeric` distribution, sampled `len` times
/// from the thread-local generator: `len` ASCII letters or digits.
#[verifier::external_body]
pub(crate) fn random_alphanumeric(len: usize) -> (r: String)
    ensures
        r@.len() == len,
        is_alphanumeric_text(r@),
{
    rand::distributions::DistString::sample_string(
        &rand::distributions::Alphanumeric,
        &mut rand::thread_rng(),
        len,
    )
}

/// Relies on `chrono::Local::now().timestamp()`: the current time in seconds.
#[verifier::external_body]
fn unix_time_now() -> (r: i64) {
    chrono::offset::Local::now().timestamp()
}

/// The legacy envelope of a free-text field: `{"sk": "..."}`.
pub struct OldJson {
    pub sk: String,
}

impl OldJson {
    /// Reads `text` as an envelope.
    pub fn from_json(text: &str) -> (r: Option<OldJson>)
        ensures
            (r is Some) == (legacy_payload(text@) is Some),
            r is Some ==> r->0.sk@ == legacy_payload(text@)->0,
            r is Some ==> r->0.sk@.len() < text@.len(),
    {
        let key = "sk";
        proof {
            reveal_strlit("sk");
            assert(key@ =~= legacy_key());
        }
        match json_string_field(text, key) {
            Some(sk) => Some(OldJson { sk }),
            None => None,
        }
    }
}

/// A rich-text document, as the target's JSON string scalar.
pub struct Jsonstring(pub String);

impl Jsonstring {
    /// The document text.
    pub fn to_string(&self) -> (r: String)
        ensures
            r@ == self.0@,
    {
        self.0.clone()
    }

    /// The document holding `text` as one paragraph block tagged `id` at `time`.
    pub fn document(text: &str, id: &str, time: i64) -> (r: Jsonstring)
        ensures
            r.0@ == rich_text(text@, id@, time as int),
    {
        let mut out = String::from_str("{\"blocks\":[{\"data\":{\"text\":");
        let quoted_text = quote_json(text);
        out.append(quoted_text.as_str());
        out.append("},\"id\":");
        let quoted_id = quote_json(id);
        out.append(quoted_id.as_str());
        out.append(",\"type\":\"paragraph\"}],\"time\":");
        let t = decimal(time);
        out.append(t.as_str());
        out.append(",\"version\":\"2.24.3\"}");
        Jsonstring(out)
    }

    /// Wraps plain text into a one-paragraph document with a fresh random
    /// block id and the current time.
    pub fn from_string(text: String) -> (r: Self)
        ensures
            exists|id: Seq<char>, time: int|
                is_block_id(id) && i64::MIN <= time <= i64::MAX && #[trigger] rich_text(
                    text@,
                    id,
                    time,
                ) == r.0@,
    {
        let id = random_alphanumeric(8);
        let time = unix_time_now();
        Self::document(text.as_str(), id.as_str(), time)
    }

    /// Makes a raw field plain: unwraps every nesting of the legacy
    /// envelope, then decodes HTML entities. A text that is no envelope is
    /// only entity-decoded.
    pub fn purify_old_json(text: &String) -> (r: String)
        ensures
            r@ == purified(text@),
    {
        let mut new_text = text.clone();
        match OldJson::from_json(text.as_str()) {
            Some(old) => {
                let mut raw = old.sk;
                let ghost start = raw@;
                loop
                    invariant
                        innermost(raw@) == innermost(start),
                    ensures
                        raw@ == innermost(start),
                    decreases raw@.len(),
                {
                    if raw.as_str().is_empty() {
                        break;
                    }
                    match OldJson::from_json(raw.as_str()) {
                        Some(next) => {
                            raw = next.sk;
                        },
                        None => {
                            break;
                        },
                    }
                }
                new_text = raw;
            },
            None => {},
        }
        decode_entities(new_text.as_str())
    }

    /// The rich-text document of a raw field.
    pub fn parse_old_json(text: &String) -> (r: Jsonstring)
        ensures
            exists|id: Seq<char>, time: int|
                is_block_id(id) && i64::MIN <= time <= i64::MAX && #[trigger] rich_text(
                    purified(text@),
                    id,
                    time,
                ) == r.0@,
    {
        Self::from_string(Self::purify_old_json(text))
    }
}

} // verus!
