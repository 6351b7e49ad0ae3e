//! Payloads off the topic: bytes decoded to text, and the JSON document
//! framed within it.
use vstd::prelude::*;
use vstd::utf8::{decode_utf8, encode_utf8, encode_utf8_decode_utf8, valid_utf8};
use crate::json::{JsonNumber, JsonValue};

verus! {

/// The JSON document held by a parsed value of `serde_json`.
#[verifier::external_type_specification]
#[verifier::external_body]
pub struct ExJsonDocument(serde_json::Value);

/// A number of a parsed `serde_json::Value`.
#[verifier::external_type_specification]
#[verifier::external_body]
pub struct ExJsonDocumentNumber(serde_json::Number);

/// Moves a parsed `serde_json::Number` into a `JsonNumber`: a
/// non-negative integer, a negative integer, or the bits of a double, as
/// `serde_json` holds it. Nothing is claimed of it beyond what
/// `parse_json` names.
#[verifier::external_body]
fn number_from_document(n: serde_json::Number) -> JsonNumber {
    match (n.as_u64(), n.as_i64()) {
        (Some(u), _) => JsonNumber::PosInt(u),
        (None, Some(i)) => JsonNumber::NegInt(i),
        (None, None) => JsonNumber::Float(n.as_f64().map(|x| x.to_bits()).unwrap_or(0)),
    }
}

/// The JSON document that parsing `text` gives, or nothing when `text` is
/// not JSON.
pub uninterp spec fn parsed_json(text: Seq<char>) -> Option<JsonValue>;

/// Calls `serde_json::from_str` for a `serde_json::Value` and hands the
/// document over as a `JsonValue`. Claims only that the outcome is a
/// function of the text alone; what the grammar accepts and how numbers
/// are read is left unsaid.
#[verifier::external_body]
fn parse_json(text: &str) -> (r: Option<JsonValue>)
    ensures
        r == parsed_json(text@),
{
    serde_json::from_str::<serde_json::Value>(text).ok().map(json_from_document)
}

/// Moves a parsed `serde_json::Value` into a `JsonValue`, variant by
/// variant; object members keep the order in which the parsed map yields
/// them. Nothing is claimed of it beyond what `parse_json` names.
#[verifier::external_body]
fn json_from_document(v: serde_json::Value) -> JsonValue {
    match v {
        serde_json::Value::Null => JsonValue::Null,
        serde_json::Value::Bool(b) => JsonValue::Bool(b),
        serde_json::Value::Number(n) => JsonValue::Number(number_from_document(n)),
        serde_json::Value::String(t) => JsonValue::String(t),
        serde_json::Value::Array(a) => JsonValue::Array(a.into_iter().map(json_from_document).collect()),
        serde_json::Value::Object(m) => JsonValue::Object(m.into_iter().map(|(k, e)| (k, json_from_document(e))).collect()),
    }
}

/// The text that lossy UTF-8 decoding makes of `bytes`.
pub uninterp spec fn lossy_utf8(bytes: Seq<u8>) -> Seq<char>;

/// Calls `String::from_utf8_lossy`. Claims that the text is a function of
/// the bytes alone, and, as its documentation says, that bytes which are
/// valid UTF-8 come back as the text they encode. How invalid sequences
/// are replaced is left unsaid.
#[verifier::external_body]
fn decode_utf8_lossy(bytes: &[u8]) -> (s: String)
    ensures
        s@ == lossy_utf8(bytes@),
        valid_utf8(bytes@) ==> encode_utf8(s@) == bytes@,
{
    String::from_utf8_lossy(bytes).into_owned()
}

/// `i` is the first position of `c` in `s`.
pub open spec fn is_first_of(s: Seq<char>, c: char, i: int) -> bool {
    &&& 0 <= i < s.len()
    &&& s[i] == c
    &&& forall|j: int| 0 <= j < i ==> s[j] != c
}

/// `i` is the last position of `c` in `s`.
pub open spec fn is_last_of(s: Seq<char>, c: char, i: int) -> bool {
    &&& 0 <= i < s.len()
    &&& s[i] == c
    &&& forall|j: int| i < j < s.len() ==> s[j] != c
}

/// The text holds a `{` before its last `}`.
pub open spec fn frames_json(s: Seq<char>) -> bool {
    exists|i: int, j: int| is_first_of(s, '{', i) && is_last_of(s, '}', j) && i < j
}

/// The text from the first `{` through the last `}`.
pub open spec fn json_frame(s: Seq<char>) -> Seq<char> {
    let i = choose|i: int| is_first_of(s, '{', i);
    let j = choose|j: int| is_last_of(s, '}', j);
    s.subrange(i, j + 1)
}

proof fn lemma_first_unique(s: Seq<char>, c: char, i: int, k: int)
    requires
        is_first_of(s, c, i),
        is_first_of(s, c, k),
    ensures
        i == k,
{
}

proof fn lemma_last_unique(s: Seq<char>, c: char, i: int, k: int)
    requires
        is_last_of(s, c, i),
        is_last_of(s, c, k),
    ensures
        i == k,
{
}

/// Locates the first `{` and the last `}` of a text, when the first comes
/// before the last.
pub fn find_json_frame(data: &str) -> (r: Option<(usize, usize)>)
    ensures
        r is Some <==> frames_json(data@),
        r matches Some((i, j)) ==> is_first_of(data@, '{', i as int) && is_last_of(data@, '}', j as int)
            && i < j,
        r matches Some((i, j)) ==> j < data@.len() <= usize::MAX,
{
    let n = data.unicode_len();
    let mut start: usize = 0;
    while start < n && data.get_char(start) != '{'
        invariant
            n == data@.len(),
            start <= n,
            forall|j: int| 0 <= j < start ==> data@[j] != '{',
        decreases n - start,
    {
        start = start + 1;
    }
    if start == n {
        assert(!frames_json(data@));
        return None;
    }
    let mut end: usize = n;
    while end > 0 && data.get_char(end - 1) != '}'
        invariant
            n == data@.len(),
            end <= n,
            forall|j: int| end <= j < n ==> data@[j] != '}',
        decreases end,
    {
        end = end - 1;
    }
    if end == 0 || end - 1 <= start {
        proof {
            if frames_json(data@) {
                let (i, j) = choose|i: int, j: int| is_first_of(data@, '{', i) && is_last_of(data@, '}', j) && i < j;
                lemma_first_unique(data@, '{', i, start as int);
                if end > 0 {
                    lemma_last_unique(data@, '}', j, end - 1);
                }
            }
        }
        return None;
    }
    assert(is_first_of(data@, '{', start as int) && is_last_of(data@, '}', end - 1) && start < end - 1);
    Some((start, end - 1))
}

/// The text from the first `{` through the last `}`. The text must hold
/// a `{` before its last `}`.
pub fn frame_json_text(data: &str) -> (r: String)
    requires
        frames_json(data@),
    ensures
        r@ == json_frame(data@),
        forall|i: int, j: int| is_first_of(data@, '{', i) && is_last_of(data@, '}', j) ==> r@
            == data@.subrange(i, j + 1),
{
    match find_json_frame(data) {
        Some((json_start, json_end)) => {
            proof {
                let i = choose|i: int| is_first_of(data@, '{', i);
                let j = choose|j: int| is_last_of(data@, '}', j);
                lemma_first_unique(data@, '{', i, json_start as int);
                lemma_last_unique(data@, '}', j, json_end as int);
            }
            let json = data.substring_char(json_start, json_end + 1);
            json.to_owned()
        },
        None => String::new(),
    }
}

/// The JSON document that a text carries: its text from the first `{`
/// through the last `}`, parsed; nothing when that is not JSON. The text
/// must hold a `{` before its last `}`.
pub fn process_data(data: &str) -> (r: Option<JsonValue>)
    requires
        frames_json(data@),
    ensures
        r == parsed_json(json_frame(data@)),
{
    let json = frame_json_text(data);
    parse_json(json.as_str())
}

/// Decoding a valid UTF-8 payload gives the text it encodes.
proof fn lemma_lossy_of_valid(bytes: Seq<u8>, s: Seq<char>)
    requires
        s == lossy_utf8(bytes),
        valid_utf8(bytes) ==> encode_utf8(s) == bytes,
    ensures
        valid_utf8(bytes) ==> lossy_utf8(bytes) == decode_utf8(bytes),
{
    if valid_utf8(bytes) {
        encode_utf8_decode_utf8(s);
    }
}

/// The JSON document that a payload carries: the payload decoded as UTF-8
/// (invalid sequences replaced), then taken by `process_data`. A valid
/// UTF-8 payload decodes to the text it encodes. The decoded text must
/// hold a `{` before its last `}`.
pub fn deserializer(payload: &[u8]) -> (r: Option<JsonValue>)
    requires
        frames_json(lossy_utf8(payload@)),
    ensures
        r == parsed_json(json_frame(lossy_utf8(payload@))),
        valid_utf8(payload@) ==> lossy_utf8(payload@) == decode_utf8(payload@),
{
    let cow_str = decode_utf8_lossy(payload);
    proof {
        lemma_lossy_of_valid(payload@, cow_str@);
    }
    process_data(cow_str.as_str())
}

/// `deserializer` for every payload: nothing when the decoded text holds
/// no `{` before its last `}`, else the parse of its frame. A valid UTF-8
/// payload decodes to the text it encodes.
pub fn try_deserializer(payload: &[u8]) -> (r: Option<JsonValue>)
    ensures
        r == (if frames_json(lossy_utf8(payload@)) {
            parsed_json(json_frame(lossy_utf8(payload@)))
        } else {
            None
        }),
        valid_utf8(payload@) ==> lossy_utf8(payload@) == decode_utf8(payload@),
{
    let text = decode_utf8_lossy(payload);
    proof {
        lemma_lossy_of_valid(payload@, text@);
    }
    match find_json_frame(text.as_str()) {
        Some(_) => deserializer(payload),
        None => None,
    }
}

/// The framed document opens with `{` and closes with `}`, and framing it
/// again gives it back unchanged: `frame_json_text` is idempotent, so
/// `process_data` parses the same document from a text and from its frame.
pub proof fn lemma_frame_idempotent(s: Seq<char>)
    requires
        frames_json(s),
    ensures
        json_frame(s).len() >= 2,
        json_frame(s)[0] == '{',
        json_frame(s)[json_frame(s).len() - 1] == '}',
        frames_json(json_frame(s)),
        json_frame(json_frame(s)) == json_frame(s),
{
    let (i0, j0) = choose|i: int, j: int| is_first_of(s, '{', i) && is_last_of(s, '}', j) && i < j;
    let i = choose|i: int| is_first_of(s, '{', i);
    let j = choose|j: int| is_last_of(s, '}', j);
    lemma_first_unique(s, '{', i, i0);
    lemma_last_unique(s, '}', j, j0);
    let t = json_frame(s);
    assert(t == s.subrange(i, j + 1));
    let n = t.len() as int;
    assert(t[0] == '{');
    assert(t[n - 1] == '}');
    assert(is_first_of(t, '{', 0));
    assert forall|l: int| n - 1 < l < n implies t[l] != '}' by {}
    assert(is_last_of(t, '}', n - 1));
    assert(frames_json(t));
    let i2 = choose|i: int| is_first_of(t, '{', i);
    let j2 = choose|j: int| is_last_of(t, '}', j);
    lemma_first_unique(t, '{', i2, 0);
    lemma_last_unique(t, '}', j2, n - 1);
    assert(t.subrange(0, n) =~= t);
}

/// A text frames the document from its first `{` through its last `}`,
/// when the first comes before the last.
pub proof fn lemma_frame_bounds(s: Seq<char>, i: int, j: int)
    requires
        0 <= i < j < s.len(),
        s[i] == '{',
        s[j] == '}',
        forall|k: int| 0 <= k < i ==> s[k] != '{',
        forall|k: int| j < k < s.len() ==> s[k] != '}',
    ensures
        frames_json(s),
        json_frame(s) == s.subrange(i, j + 1),
{
    assert(is_first_of(s, '{', i) && is_last_of(s, '}', j));
    let i2 = choose|i: int| is_first_of(s, '{', i);
    let j2 = choose|j: int| is_last_of(s, '}', j);
    lemma_first_unique(s, '{', i, i2);
    lemma_last_unique(s, '}', j, j2);
}

/// A text frames no document when it has no `{`, or when its last `}`
/// comes before its first `{`.
pub proof fn lemma_no_frame(s: Seq<char>)
    requires
        (forall|k: int| 0 <= k < s.len() ==> s[k] != '{') || exists|i: int, j: int|
            0 <= j < i < s.len() && s[i] == '{' && s[j] == '}' && (forall|k: int| 0 <= k < i ==> s[k] != '{') && (
            forall|k: int| j < k < s.len() ==> s[k] != '}'),
    ensures
        !frames_json(s),
{
    if frames_json(s) {
        let (a, b) = choose|a: int, b: int| is_first_of(s, '{', a) && is_last_of(s, '}', b) && a < b;
        if exists|i: int, j: int|
            0 <= j < i < s.len() && s[i] == '{' && s[j] == '}' && (forall|k: int| 0 <= k < i ==> s[k] != '{') && (
            forall|k: int| j < k < s.len() ==> s[k] != '}') {
            let (i, j) = choose|i: int, j: int|
                0 <= j < i < s.len() && s[i] == '{' && s[j] == '}' && (forall|k: int| 0 <= k < i ==> s[k] != '{') && (
                forall|k: int| j < k < s.len() ==> s[k] != '}');
            lemma_first_unique(s, '{', a, i);
            lemma_last_unique(s, '}', b, j);
        } else {
            assert(s[a] == '{');
        }
    }
}

} // verus!
