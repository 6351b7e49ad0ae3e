//! Events as the producers encode them, and the JSON documents they stand
//! for.
use vstd::prelude::*;
use crate::json::{JsonNumber, JsonValue, json_get, member_value, number_value};
use crate::text::{KeyOrder, compare_keys, seq_less, lemma_seq_less_transitive, lemma_seq_less_irreflexive};

verus! {

/// A span of time: whole seconds and the nanoseconds beyond them.
#[derive(Debug, Clone, Copy, PartialEq, Eq, Structural)]
pub struct Duration {
    pub seconds: i64,
    pub nanos: i32,
}

/// The payload of an event value. A double is held by its IEEE-754 bit
/// pattern.
#[derive(Debug)]
pub enum EventValueKind {
    StringV(String),
    IntV(i64),
    DoubleV(u64),
    BooleanV(bool),
    DateTimeV(String),
    DurationV(Duration),
    VectorV(ValueVector),
    MapV(ValueMap),
}

/// A value of an event body; it may be unset.
#[derive(Debug)]
pub struct EventValue {
    pub value: Option<EventValueKind>,
}

/// A list of event values.
#[derive(Debug)]
pub struct ValueVector {
    pub values: Vec<EventValue>,
}

/// Event values by key.
#[derive(Debug)]
pub struct ValueMap {
    pub values: Vec<(String, EventValue)>,
}

/// The brokers that events arrive through.
#[derive(Debug, Clone, Copy, PartialEq, Eq, Structural)]
pub enum BrokerType {
    DanlawTcp,
    DanlawUdp,
    Http,
    Bosch,
}

/// The header of an event. `broker_type` is `None` when the encoded value
/// names no known broker.
#[derive(Debug)]
pub struct EventHeader {
    pub tenant_id: String,
    pub device_id: String,
    pub message_id: String,
    pub tags: String,
    pub ingestion_timestamp: String,
    pub broker_type: Option<BrokerType>,
    pub event_id: String,
}

/// An event: a header and a body of keyed values, which may be missing.
#[derive(Debug)]
pub struct EventData {
    pub header: EventHeader,
    pub body: Option<ValueMap>,
}

/// The JSON number of a 64-bit integer.
pub open spec fn int_number(i: i64) -> JsonNumber {
    if i < 0 {
        JsonNumber::NegInt(i)
    } else {
        JsonNumber::PosInt(i as u64)
    }
}

/// The bit pattern of a finite double: its exponent is not all ones.
pub open spec fn is_finite_bits(bits: u64) -> bool {
    (bits >> 52u64) & 0x7ffu64 != 0x7ffu64
}

/// The JSON value of a double: the number itself when finite, else null.
pub open spec fn double_json(bits: u64) -> JsonValue {
    if is_finite_bits(bits) {
        JsonValue::Number(JsonNumber::Float(bits))
    } else {
        JsonValue::Null
    }
}

/// The keys of the entries ascend strictly.
pub open spec fn sorted_keys(es: Seq<(String, JsonValue)>) -> bool {
    forall|a: int, b: int| 0 <= a < b < es.len() ==> seq_less(#[trigger] es[a].0@, #[trigger] es[b].0@)
}

/// The position of the last entry of `vs` with key `k`, or -1.
pub open spec fn last_key_index(vs: Seq<(String, EventValue)>, k: Seq<char>) -> int
    decreases vs.len(),
{
    if vs.len() == 0 {
        -1
    } else if vs.last().0@ == k {
        vs.len() - 1
    } else {
        last_key_index(vs.drop_last(), k)
    }
}

/// `last_key_index` finds the last entry with the key, when there is one.
pub proof fn lemma_last_key_index(vs: Seq<(String, EventValue)>, k: Seq<char>)
    ensures
        -1 <= last_key_index(vs, k) < vs.len(),
        0 <= last_key_index(vs, k) ==> vs[last_key_index(vs, k)].0@ == k,
        forall|l: int| last_key_index(vs, k) < l < vs.len() ==> vs[l].0@ != k,
    decreases vs.len(),
{
    if vs.len() > 0 && vs.last().0@ != k {
        lemma_last_key_index(vs.drop_last(), k);
        let i = last_key_index(vs, k);
        if 0 <= i {
            assert(vs.drop_last()[i] == vs[i]);
        }
        assert forall|l: int| last_key_index(vs, k) < l < vs.len() implies vs[l].0@ != k by {
            if l < vs.len() - 1 {
                assert(vs.drop_last()[l] == vs[l]);
            }
        }
    }
}

/// The JSON object of a duration: its `nanos` and its `seconds`.
pub open spec fn is_duration_json(d: Duration, j: JsonValue) -> bool {
    match j {
        JsonValue::Object(es) => {
            &&& es@.len() == 2
            &&& es@[0].0@ == "nanos"@
            &&& es@[0].1 == JsonValue::Number(int_number(d.nanos as i64))
            &&& es@[1].0@ == "seconds"@
            &&& es@[1].1 == JsonValue::Number(int_number(d.seconds))
        },
        _ => false,
    }
}

/// `j` is the JSON document that the event value `ev` stands for: unset is
/// null; strings, date-times and booleans are themselves; integers and
/// doubles are numbers (a double that is not finite is null); a duration
/// is an object of its parts; a list is the array of its items' documents;
/// and a map is the object of its keys, in ascending order, each bound to
/// the document of the last value given for it.
pub open spec fn is_event_json(ev: EventValue, j: JsonValue) -> bool
    decreases ev,
{
    match ev.value {
        None => j == JsonValue::Null,
        Some(EventValueKind::StringV(s)) => j == JsonValue::String(s),
        Some(EventValueKind::IntV(i)) => j == JsonValue::Number(int_number(i)),
        Some(EventValueKind::DoubleV(b)) => j == double_json(b),
        Some(EventValueKind::BooleanV(b)) => j == JsonValue::Bool(b),
        Some(EventValueKind::DateTimeV(s)) => j == JsonValue::String(s),
        Some(EventValueKind::DurationV(d)) => is_duration_json(d, j),
        Some(EventValueKind::VectorV(vv)) => match j {
            JsonValue::Array(items) => {
                &&& items@.len() == vv.values@.len()
                &&& forall|i: int| 0 <= i < vv.values@.len() ==> is_event_json(vv.values@[i], #[trigger] items@[i])
            },
            _ => false,
        },
        Some(EventValueKind::MapV(vm)) => match j {
            JsonValue::Object(es) => {
                &&& sorted_keys(es@)
                &&& forall|x: int| 0 <= x < es@.len() ==> {
                    let i = last_key_index(vm.values@, (#[trigger] es@[x]).0@);
                    0 <= i < vm.values@.len() && is_event_json(vm.values@[i].1, es@[x].1)
                }
                &&& forall|i: int| 0 <= i < vm.values@.len() ==> key_present(es@, #[trigger] vm.values@[i].0@)
            },
            _ => false,
        },
    }
}

/// Entry `x` of `es` binds its key to the document of the last value
/// that `vs` gives for that key.
pub open spec fn entry_from(vs: Seq<(String, EventValue)>, es: Seq<(String, JsonValue)>, x: int) -> bool {
    let i = last_key_index(vs, es[x].0@);
    0 <= i < vs.len() && is_event_json(vs[i].1, es[x].1)
}

/// Some entry of `es` has key `k`.
pub open spec fn key_present(es: Seq<(String, JsonValue)>, k: Seq<char>) -> bool {
    exists|x: int| 0 <= x < es.len() && es[x].0@ == k
}

/// `es` is the JSON object of the keyed values `vs`: its keys ascend,
/// each key of `vs` is there, and each is bound to the document of the
/// last value given for it.
pub open spec fn map_built(vs: Seq<(String, EventValue)>, es: Seq<(String, JsonValue)>) -> bool {
    &&& sorted_keys(es)
    &&& forall|x: int| 0 <= x < es.len() ==> #[trigger] entry_from(vs, es, x)
    &&& forall|i: int| 0 <= i < vs.len() ==> key_present(es, #[trigger] vs[i].0@)
}

/// Filing the next keyed value keeps the object built so far in step with
/// the values seen.
#[verifier::rlimit(40)]
proof fn lemma_map_step(
    vs: Seq<(String, EventValue)>,
    before: Seq<(String, JsonValue)>,
    after: Seq<(String, JsonValue)>,
    key: String,
    jv: JsonValue,
)
    requires
        vs.len() > 0,
        vs.last().0@ == key@,
        is_event_json(vs.last().1, jv),
        map_built(vs.drop_last(), before),
        sorted_keys(after),
        exists|x: int| 0 <= x < after.len() && after[x] == (key, jv),
        forall|x: int| 0 <= x < after.len() && after[x].0@ != key@ ==> exists|y: int|
            0 <= y < before.len() && before[y] == #[trigger] after[x],
        forall|y: int| 0 <= y < before.len() && before[y].0@ != key@ ==> exists|x: int|
            0 <= x < after.len() && after[x] == #[trigger] before[y],
    ensures
        map_built(vs, after),
{
    lemma_map_step_values(vs, before, after, key, jv);
    lemma_map_step_keys(vs, before, after, key, jv);
}

proof fn lemma_map_step_values(
    vs: Seq<(String, EventValue)>,
    before: Seq<(String, JsonValue)>,
    after: Seq<(String, JsonValue)>,
    key: String,
    jv: JsonValue,
)
    requires
        vs.len() > 0,
        vs.last().0@ == key@,
        is_event_json(vs.last().1, jv),
        map_built(vs.drop_last(), before),
        sorted_keys(after),
        exists|x: int| 0 <= x < after.len() && after[x] == (key, jv),
        forall|x: int| 0 <= x < after.len() && after[x].0@ != key@ ==> exists|y: int|
            0 <= y < before.len() && before[y] == #[trigger] after[x],
    ensures
        forall|x: int| 0 <= x < after.len() ==> #[trigger] entry_from(vs, after, x),
{
    let k = key@;
    let sub = vs.drop_last();
    let n = vs.len() - 1;
    let xk = choose|x: int| 0 <= x < after.len() && after[x] == (key, jv);
    assert forall|x: int| 0 <= x < after.len() implies #[trigger] entry_from(vs, after, x) by {
        if after[x].0@ == k {
            if x != xk {
                lemma_seq_less_irreflexive(k);
                if x < xk {
                    assert(seq_less(after[x].0@, after[xk].0@));
                } else {
                    assert(seq_less(after[xk].0@, after[x].0@));
                }
            }
            assert(after[x] == (key, jv));
            assert(vs[n] == vs.last());
            assert(last_key_index(vs, after[x].0@) == n);
            assert(is_event_json(vs[n].1, after[x].1));
        } else {
            let y = choose|y: int| 0 <= y < before.len() && before[y] == after[x];
            assert(entry_from(sub, before, y));
            let i = last_key_index(sub, before[y].0@);
            lemma_last_key_index(sub, before[y].0@);
            assert(sub[i] == vs[i]);
            assert(last_key_index(vs, after[x].0@) == i);
        }
    }
}

proof fn lemma_map_step_keys(
    vs: Seq<(String, EventValue)>,
    before: Seq<(String, JsonValue)>,
    after: Seq<(String, JsonValue)>,
    key: String,
    jv: JsonValue,
)
    requires
        vs.len() > 0,
        vs.last().0@ == key@,
        map_built(vs.drop_last(), before),
        exists|x: int| 0 <= x < after.len() && after[x] == (key, jv),
        forall|y: int| 0 <= y < before.len() && before[y].0@ != key@ ==> exists|x: int|
            0 <= x < after.len() && after[x] == #[trigger] before[y],
    ensures
        forall|i: int| 0 <= i < vs.len() ==> key_present(after, #[trigger] vs[i].0@),
{
    let k = key@;
    let sub = vs.drop_last();
    let xk = choose|x: int| 0 <= x < after.len() && after[x] == (key, jv);
    assert forall|i: int| 0 <= i < vs.len() implies key_present(after, #[trigger] vs[i].0@) by {
        if vs[i].0@ == k {
            assert(after[xk].0@ == vs[i].0@);
        } else {
            assert(sub[i] == vs[i]);
            assert(key_present(before, sub[i].0@));
            let y = choose|y: int| 0 <= y < before.len() && before[y].0@ == sub[i].0@;
            let x = choose|x: int| 0 <= x < after.len() && after[x] == before[y];
            assert(after[x].0@ == vs[i].0@);
        }
    }
}

/// Finds where `key` belongs among entries that ascend by key: the
/// position of the first entry whose key is not below it, and whether that
/// entry has the key itself.
fn find_slot(es: &Vec<(String, JsonValue)>, key: &str) -> (r: (usize, bool))
    requires
        sorted_keys(es@),
    ensures
        r.0 <= es@.len(),
        forall|a: int| 0 <= a < r.0 ==> seq_less(#[trigger] es@[a].0@, key@),
        r.1 ==> r.0 < es@.len() && es@[r.0 as int].0@ == key@,
        !r.1 && r.0 < es@.len() ==> seq_less(key@, es@[r.0 as int].0@),
{
    let n = es.len();
    let mut p: usize = 0;
    while p < n
        invariant
            n == es@.len(),
            p <= n,
            forall|a: int| 0 <= a < p ==> seq_less(#[trigger] es@[a].0@, key@),
        decreases n - p,
    {
        let order = compare_keys(es[p].0.as_str(), key);
        match order {
            KeyOrder::Less => {},
            KeyOrder::Equal => {
                return (p, true);
            },
            KeyOrder::Greater => {
                return (p, false);
            },
        }
        p = p + 1;
    }
    (p, false)
}

/// Putting an entry in at its place keeps the keys ascending.
proof fn lemma_insert_keeps_sorted(es: Seq<(String, JsonValue)>, p: int, e: (String, JsonValue))
    requires
        sorted_keys(es),
        0 <= p <= es.len(),
        forall|a: int| 0 <= a < p ==> seq_less(#[trigger] es[a].0@, e.0@),
        p < es.len() ==> seq_less(e.0@, es[p].0@),
    ensures
        sorted_keys(es.insert(p, e)),
{
    let es2 = es.insert(p, e);
    assert forall|a: int, b: int| 0 <= a < b < es2.len() implies seq_less(#[trigger] es2[a].0@, #[trigger] es2[b].0@) by {
        if b < p {
            assert(seq_less(es[a].0@, es[b].0@));
        } else if b == p {
            assert(es2[a] == es[a]);
        } else {
            assert(es2[b] == es[b - 1]);
            if b - 1 > p {
                assert(seq_less(es[p].0@, es[b - 1].0@));
                lemma_seq_less_transitive(e.0@, es[p].0@, es[b - 1].0@);
            }
            if a < p {
                lemma_seq_less_transitive(es[a].0@, e.0@, es[b - 1].0@);
            } else if a > p {
                assert(seq_less(es[a - 1].0@, es[b - 1].0@));
            }
        }
    }
}

/// Files `key` with `value` in entries that ascend by key, keeping them
/// ascending: the value of an entry with the same key is replaced, else
/// the entry goes in at its place.
fn insert_sorted(es: &mut Vec<(String, JsonValue)>, key: String, value: JsonValue)
    requires
        sorted_keys(old(es)@),
    ensures
        sorted_keys(final(es)@),
        exists|x: int| 0 <= x < final(es)@.len() && final(es)@[x] == (key, value),
        forall|x: int| 0 <= x < final(es)@.len() && final(es)@[x].0@ != key@ ==> exists|y: int|
            0 <= y < old(es)@.len() && old(es)@[y] == #[trigger] final(es)@[x],
        forall|y: int| 0 <= y < old(es)@.len() && old(es)@[y].0@ != key@ ==> exists|x: int|
            0 <= x < final(es)@.len() && final(es)@[x] == #[trigger] old(es)@[y],
{
    let (p, found) = find_slot(es, key.as_str());
    let ghost old_es = es@;
    if found {
        es.set(p, (key, value));
        proof {
            assert forall|a: int, b: int| 0 <= a < b < es@.len() implies seq_less(#[trigger] es@[a].0@, #[trigger] es@[b].0@) by {
                assert(seq_less(old_es[a].0@, old_es[b].0@));
            }
            assert(es@[p as int] == (key, value));
            assert forall|x: int| 0 <= x < es@.len() && es@[x].0@ != key@ implies exists|y: int|
                0 <= y < old_es.len() && old_es[y] == #[trigger] es@[x] by {
                assert(old_es[x] == es@[x]);
            }
            assert forall|y: int| 0 <= y < old_es.len() && old_es[y].0@ != key@ implies exists|x: int|
                0 <= x < es@.len() && es@[x] == #[trigger] old_es[y] by {
                assert(old_es[y] == es@[y]);
            }
        }
    } else {
        proof {
            lemma_insert_keeps_sorted(old_es, p as int, (key, value));
        }
        es.insert(p, (key, value));
        proof {
            assert(es@[p as int] == (key, value));
            assert forall|x: int| 0 <= x < es@.len() && es@[x].0@ != key@ implies exists|y: int|
                0 <= y < old_es.len() && old_es[y] == #[trigger] es@[x] by {
                if x < p {
                    assert(old_es[x] == es@[x]);
                } else {
                    assert(old_es[x - 1] == es@[x]);
                }
            }
            assert forall|y: int| 0 <= y < old_es.len() && old_es[y].0@ != key@ implies exists|x: int|
                0 <= x < es@.len() && es@[x] == #[trigger] old_es[y] by {
                if y < p {
                    assert(old_es[y] == es@[y]);
                } else {
                    assert(old_es[y] == es@[y + 1]);
                }
            }
        }
    }
}

/// The JSON number of a 64-bit integer.
fn int_to_number(i: i64) -> (r: JsonNumber)
    ensures
        r == int_number(i),
{
    if i < 0 {
        JsonNumber::NegInt(i)
    } else {
        JsonNumber::PosInt(i as u64)
    }
}

/// The JSON value of a double given by its bit pattern.
fn double_to_json(bits: u64) -> (r: JsonValue)
    ensures
        r == double_json(bits),
{
    if (bits >> 52u64) & 0x7ffu64 != 0x7ffu64 {
        JsonValue::Number(JsonNumber::Float(bits))
    } else {
        JsonValue::Null
    }
}

/// The JSON object of a duration.
fn duration_to_json(d: Duration) -> (r: JsonValue)
    ensures
        is_duration_json(d, r),
{
    let mut es: Vec<(String, JsonValue)> = Vec::new();
    es.push((String::from_str("nanos"), JsonValue::Number(int_to_number(d.nanos as i64))));
    es.push((String::from_str("seconds"), JsonValue::Number(int_to_number(d.seconds))));
    JsonValue::Object(es)
}

/// The JSON document of an event value, as `is_event_json` states it.
#[verifier::loop_isolation(false)]
pub fn parse_event_value(event_value: EventValue) -> (r: JsonValue)
    ensures
        is_event_json(event_value, r),
    decreases event_value,
{
    let ghost whole = event_value;
    match event_value.value {
        Some(value) => match value {
            EventValueKind::StringV(string_data) => JsonValue::String(string_data),
            EventValueKind::IntV(int_data) => JsonValue::Number(int_to_number(int_data)),
            EventValueKind::DoubleV(double_data) => double_to_json(double_data),
            EventValueKind::BooleanV(boolean_data) => JsonValue::Bool(boolean_data),
            EventValueKind::DateTimeV(date_time) => JsonValue::String(date_time),
            EventValueKind::DurationV(duration) => duration_to_json(duration),
            EventValueKind::VectorV(vector_value) => {
                let ghost vv = vector_value;
                let ghost items = vector_value.values@;
                let mut values = vector_value.values;
                let total = values.len();
                let mut vec_values: Vec<JsonValue> = Vec::new();
                let mut done: usize = 0;
                while values.len() > 0
                    invariant
                        items.len() == total,
                        done <= total,
                        values@ == items.subrange(done as int, total as int),
                        vec_values@.len() == done,
                        forall|i: int| 0 <= i < done ==> is_event_json(items[i], #[trigger] vec_values@[i]),
                    decreases values.len(),
                {
                    let item = values.remove(0);
                    assert(items[done as int] == item);
                    assert(decreases_to!(whole => item)) by {
                        assert(decreases_to!(whole => whole.value));
                        assert(decreases_to!(whole.value => whole.value->0));
                        assert(decreases_to!(whole.value->0 => whole.value->0->VectorV_0));
                        assert(decreases_to!(vv => vv.values));
                        assert(decreases_to!(vv.values => vv.values@));
                        assert(decreases_to!(items => items[done as int]));
                    }
                    vec_values.push(parse_event_value(item));
                    done = done + 1;
                }
                JsonValue::Array(vec_values)
            },
            EventValueKind::MapV(map_value) => {
                assert(decreases_to!(whole => map_value)) by {
                    assert(decreases_to!(whole => whole.value));
                    assert(decreases_to!(whole.value => whole.value->0));
                    assert(decreases_to!(whole.value->0 => whole.value->0->MapV_0));
                }
                parse_value_map(map_value)
            },
        },
        None => JsonValue::Null,
    }
}

/// The JSON object of event values by key: its keys ascend, and each is
/// bound to the document of the last value given for it.
#[verifier::loop_isolation(false)]
pub fn parse_value_map(value_map: ValueMap) -> (r: JsonValue)
    ensures
        is_event_json(EventValue { value: Some(EventValueKind::MapV(value_map)) }, r),
    decreases value_map,
{
    let ghost whole = value_map;
    let ghost vs = value_map.values@;
    let mut values = value_map.values;
    let total = values.len();
    let mut map_values: Vec<(String, JsonValue)> = Vec::new();
    let mut done: usize = 0;
    while values.len() > 0
        invariant
            vs.len() == total,
            done <= total,
            values@ == vs.subrange(done as int, total as int),
            map_built(vs.subrange(0, done as int), map_values@),
        decreases values.len(),
    {
        let (key, event_value) = values.remove(0);
        assert(vs[done as int] == (key, event_value));
        assert(decreases_to!(whole => event_value)) by {
            assert(decreases_to!(whole => whole.values));
            assert(decreases_to!(whole.values => whole.values@));
            assert(decreases_to!(vs => vs[done as int]));
            assert(decreases_to!(vs[done as int] => vs[done as int].1));
        }
        let jv = parse_event_value(event_value);
        let ghost before = map_values@;
        insert_sorted(&mut map_values, key, jv);
        proof {
            assert(vs.subrange(0, done + 1).drop_last() =~= vs.subrange(0, done as int));
            lemma_map_step(vs.subrange(0, done + 1), before, map_values@, key, jv);
        }
        done = done + 1;
    }
    assert(vs.subrange(0, total as int) =~= vs);
    assert(map_built(vs, map_values@));
    assert(whole.values@ == vs);
    let ghost es = map_values@;
    let r = JsonValue::Object(map_values);
    assert(r->Object_0@ == es);
    assert forall|x: int| 0 <= x < es.len() implies {
        let i = last_key_index(whole.values@, (#[trigger] es[x]).0@);
        0 <= i < whole.values@.len() && is_event_json(whole.values@[i].1, es[x].1)
    } by {
        assert(entry_from(vs, es, x));
    }
    assert(forall|i: int| 0 <= i < whole.values@.len() ==> key_present(es, #[trigger] whole.values@[i].0@));
    assert(is_event_json(EventValue { value: Some(EventValueKind::MapV(whole)) }, r));
    r
}

/// `j` is the JSON document of the header `h`: an object of its text
/// fields, in key order.
pub open spec fn is_header_json(h: EventHeader, j: JsonValue) -> bool {
    match j {
        JsonValue::Object(es) => {
            &&& es@.len() == 6
            &&& es@[0].0@ == "device_id"@ && es@[0].1 == JsonValue::String(h.device_id)
            &&& es@[1].0@ == "event_id"@ && es@[1].1 == JsonValue::String(h.event_id)
            &&& es@[2].0@ == "ingestion_timestamp"@ && es@[2].1 == JsonValue::String(h.ingestion_timestamp)
            &&& es@[3].0@ == "message_id"@ && es@[3].1 == JsonValue::String(h.message_id)
            &&& es@[4].0@ == "tags"@ && es@[4].1 == JsonValue::String(h.tags)
            &&& es@[5].0@ == "tenant_id"@ && es@[5].1 == JsonValue::String(h.tenant_id)
        },
        _ => false,
    }
}

/// `j` is the JSON document of the event `ed`: an object with the
/// document of its body under `body` and that of its header under
/// `header`.
pub open spec fn is_event_data_json(ed: EventData, j: JsonValue) -> bool {
    match j {
        JsonValue::Object(es) => {
            &&& es@.len() == 2
            &&& es@[0].0@ == "body"@
            &&& ed.body matches Some(body) && is_event_json(
                EventValue { value: Some(EventValueKind::MapV(body)) },
                es@[0].1,
            )
            &&& es@[1].0@ == "header"@
            &&& is_header_json(ed.header, es@[1].1)
        },
        _ => false,
    }
}

/// The JSON document of an event. The event must name a known broker and
/// carry a body.
pub fn parse_event_data(event_data: EventData) -> (r: JsonValue)
    requires
        event_data.header.broker_type is Some,
        event_data.body is Some,
    ensures
        is_event_data_json(event_data, r),
{
    let header = event_data.header;
    let body = match event_data.body {
        Some(b) => parse_value_map(b),
        None => JsonValue::Null,
    };
    let mut header_json: Vec<(String, JsonValue)> = Vec::new();
    header_json.push((String::from_str("device_id"), JsonValue::String(header.device_id)));
    header_json.push((String::from_str("event_id"), JsonValue::String(header.event_id)));
    header_json.push((String::from_str("ingestion_timestamp"), JsonValue::String(header.ingestion_timestamp)));
    header_json.push((String::from_str("message_id"), JsonValue::String(header.message_id)));
    header_json.push((String::from_str("tags"), JsonValue::String(header.tags)));
    header_json.push((String::from_str("tenant_id"), JsonValue::String(header.tenant_id)));
    let mut event_data_json: Vec<(String, JsonValue)> = Vec::new();
    event_data_json.push((String::from_str("body"), body));
    event_data_json.push((String::from_str("header"), JsonValue::Object(header_json)));
    JsonValue::Object(event_data_json)
}

/// Unset values, strings, booleans and date-times are carried over as they
/// are, and a list becomes the array of its items' documents, in order.
pub proof fn lemma_plain_event_values(ev: EventValue, j: JsonValue)
    requires
        is_event_json(ev, j),
    ensures
        ev.value is None ==> j == JsonValue::Null,
        ev.value matches Some(EventValueKind::StringV(s)) ==> j == JsonValue::String(s),
        ev.value matches Some(EventValueKind::BooleanV(b)) ==> j == JsonValue::Bool(b),
        ev.value matches Some(EventValueKind::DateTimeV(s)) ==> j == JsonValue::String(s),
        ev.value matches Some(EventValueKind::VectorV(vv)) ==> {
            &&& j matches JsonValue::Array(items)
            &&& items@.len() == vv.values@.len()
            &&& forall|i: int| 0 <= i < items@.len() ==> is_event_json(vv.values@[i], #[trigger] items@[i])
        },
{
}

/// An integer keeps its value: its document is the JSON number that
/// stands for exactly that integer, non-negative integers in the
/// non-negative form and negative ones in the negative form.
pub proof fn lemma_int_event_keeps_value(i: i64, j: JsonValue)
    requires
        is_event_json(EventValue { value: Some(EventValueKind::IntV(i)) }, j),
    ensures
        j matches JsonValue::Number(n) && number_value(n) == Some(i as int) && (n is PosInt <==> i >= 0),
{
}

/// A double is its own number unless it is NaN or infinite (its exponent
/// field all ones), in which case it is null; its sign plays no part.
pub proof fn lemma_double_event(bits: u64, j: JsonValue)
    requires
        is_event_json(EventValue { value: Some(EventValueKind::DoubleV(bits)) }, j),
    ensures
        (bits >> 52u64) & 0x7ffu64 != 0x7ffu64 ==> j == JsonValue::Number(JsonNumber::Float(bits)),
        (bits >> 52u64) & 0x7ffu64 == 0x7ffu64 ==> j == JsonValue::Null,
{
}

/// Flipping the sign of a double does not change whether it is null.
pub proof fn lemma_double_sign_free(bits: u64)
    ensures
        (double_json(bits) is Null) == (double_json(bits ^ 0x8000_0000_0000_0000u64) is Null),
        double_json(bits) is Null || double_json(bits) == JsonValue::Number(JsonNumber::Float(bits)),
{
    assert(((bits ^ 0x8000_0000_0000_0000u64) >> 52u64) & 0x7ffu64 == (bits >> 52u64) & 0x7ffu64) by (bit_vector);
}

/// A duration's document has its whole seconds under `seconds` and the
/// nanoseconds beyond them under `nanos`, each as the number of its value.
pub proof fn lemma_duration_event(d: Duration, j: JsonValue)
    requires
        is_event_json(EventValue { value: Some(EventValueKind::DurationV(d)) }, j),
    ensures
        json_get(j, "seconds"@) matches Some(JsonValue::Number(n)) && number_value(n) == Some(d.seconds as int),
        json_get(j, "nanos"@) matches Some(JsonValue::Number(n)) && number_value(n) == Some(d.nanos as int),
{
    reveal_strlit("seconds");
    reveal_strlit("nanos");
    let es = j->Object_0@;
    assert(is_duration_json(d, j));
    assert("nanos"@[0] == 'n' && "seconds"@[0] == 's');
    assert(es[0].0@ != "seconds"@);
    assert(member_value(es.drop_first(), "seconds"@) == Some(es[1].1)) by {
        assert(es.drop_first()[0] == es[1]);
    }
}

/// A map's document lists its keys in ascending order, each key that the
/// map gives bound to the document of the last value given for it, and no
/// key the map does not give.
pub proof fn lemma_map_event(vm: ValueMap, j: JsonValue)
    requires
        is_event_json(EventValue { value: Some(EventValueKind::MapV(vm)) }, j),
    ensures
        j is Object,
        forall|a: int, b: int| 0 <= a < b < j->Object_0@.len() ==> seq_less(
            #[trigger] j->Object_0@[a].0@,
            #[trigger] j->Object_0@[b].0@,
        ),
        forall|i: int| #![trigger vm.values@[i]]
            0 <= i < vm.values@.len() && (forall|l: int| i < l < vm.values@.len() ==> vm.values@[l].0@
                != vm.values@[i].0@) ==> exists|x: int|
                0 <= x < j->Object_0@.len() && j->Object_0@[x].0@ == vm.values@[i].0@ && is_event_json(
                    vm.values@[i].1,
                    j->Object_0@[x].1,
                ),
        forall|x: int| #![trigger j->Object_0@[x]] 0 <= x < j->Object_0@.len() ==> exists|i: int|
            0 <= i < vm.values@.len() && vm.values@[i].0@ == j->Object_0@[x].0@,
{
    let ev = EventValue { value: Some(EventValueKind::MapV(vm)) };
    assert(ev.value->Some_0->MapV_0 == vm);
    assert(ev.value->Some_0->MapV_0.values@ == vm.values@);
    let vs = vm.values@;
    let es = j->Object_0@;
    assert(j is Object);
    assert(forall|i: int| 0 <= i < vs.len() ==> key_present(es, #[trigger] vs[i].0@));
    assert(forall|x: int| 0 <= x < es.len() ==> {
        let i = last_key_index(vs, (#[trigger] es[x]).0@);
        0 <= i < vs.len() && is_event_json(vs[i].1, es[x].1)
    });
    assert forall|i: int| #![trigger vs[i]]
        0 <= i < vs.len() && (forall|l: int| i < l < vs.len() ==> vs[l].0@ != vs[i].0@) implies exists|x: int|
            0 <= x < es.len() && es[x].0@ == vs[i].0@ && is_event_json(vs[i].1, es[x].1) by {
        assert(key_present(es, vs[i].0@));
        let x = choose|x: int| 0 <= x < es.len() && es[x].0@ == vs[i].0@;
        let k = es[x].0@;
        assert(es[x] == es[x]);
        lemma_last_key_index(vs, k);
        let i2 = last_key_index(vs, k);
        assert(i2 == i) by {
            if i2 < i {
                assert(vs[i].0@ == k);
            } else if i < i2 {
                assert(vs[i2].0@ == k);
            }
        }
    }
    assert forall|x: int| #![trigger es[x]] 0 <= x < es.len() implies exists|i: int|
        0 <= i < vs.len() && vs[i].0@ == es[x].0@ by {
        lemma_last_key_index(vs, es[x].0@);
        let i = last_key_index(vs, es[x].0@);
    }
}

/// Each header field lands under its own name in the `header` object of
/// an event's document, and the body's document under `body`.
pub proof fn lemma_event_data_fields(ed: EventData, j: JsonValue)
    requires
        is_event_data_json(ed, j),
    ensures
        json_get(j, "header"@) matches Some(h) && {
            &&& json_get(h, "device_id"@) == Some(JsonValue::String(ed.header.device_id))
            &&& json_get(h, "event_id"@) == Some(JsonValue::String(ed.header.event_id))
            &&& json_get(h, "ingestion_timestamp"@) == Some(JsonValue::String(ed.header.ingestion_timestamp))
            &&& json_get(h, "message_id"@) == Some(JsonValue::String(ed.header.message_id))
            &&& json_get(h, "tags"@) == Some(JsonValue::String(ed.header.tags))
            &&& json_get(h, "tenant_id"@) == Some(JsonValue::String(ed.header.tenant_id))
        },
        json_get(j, "body"@) matches Some(b) && ed.body matches Some(body) && is_event_json(
            EventValue { value: Some(EventValueKind::MapV(body)) },
            b,
        ),
{
    reveal_strlit("header");
    reveal_strlit("body");
    reveal_strlit("device_id");
    reveal_strlit("event_id");
    reveal_strlit("ingestion_timestamp");
    reveal_strlit("message_id");
    reveal_strlit("tags");
    reveal_strlit("tenant_id");
    reveal_with_fuel(member_value, 7);
    assert("body"@[0] == 'b' && "header"@[0] == 'h');
    assert("device_id"@[0] == 'd' && "event_id"@[0] == 'e' && "ingestion_timestamp"@[0] == 'i');
    assert("message_id"@[0] == 'm' && "tags"@[0] == 't' && "tenant_id"@[0] == 't');
    assert("tags"@[1] == 'a' && "tenant_id"@[1] == 'e');
    assert(is_header_json(ed.header, j->Object_0@[1].1));
    let es = j->Object_0@;
    assert(es.drop_first()[0] == es[1]);
    let h = es[1].1;
    let hs = h->Object_0@;
    assert(hs.drop_first() =~= hs.subrange(1, 6));
    assert(hs.drop_first().drop_first() =~= hs.subrange(2, 6));
    assert(hs.drop_first().drop_first().drop_first() =~= hs.subrange(3, 6));
    assert(hs.drop_first().drop_first().drop_first().drop_first() =~= hs.subrange(4, 6));
    assert(hs.drop_first().drop_first().drop_first().drop_first().drop_first() =~= hs.subrange(5, 6));
}

} // verus!
