//! Flattening of nested JSON objects into one level of keys joined by `_`.
use vstd::prelude::*;
use crate::json::{JsonMap, JsonValue};

verus! {

/// The key under which a member named `key` of an object found under
/// `prefix` is filed: the key itself at the top, else `prefix_key`.
pub open spec fn join_key(prefix: Seq<char>, key: Seq<char>) -> Seq<char> {
    if prefix.len() == 0 {
        key
    } else {
        prefix + seq!['_'] + key
    }
}

/// What flattening `v` under `prefix` makes of the map `acc`: an object
/// flattens each of its members in turn under the joined key; any other
/// value is bound to `prefix` itself.
pub open spec fn flatten_value(
    v: JsonValue,
    prefix: Seq<char>,
    acc: Map<Seq<char>, JsonValue>,
) -> Map<Seq<char>, JsonValue>
    decreases v,
{
    match v {
        JsonValue::Object(members) => flatten_members(members@, prefix, acc),
        _ => acc.insert(prefix, v),
    }
}

/// Flattening the members of an object, first to last.
pub open spec fn flatten_members(
    ms: Seq<(String, JsonValue)>,
    prefix: Seq<char>,
    acc: Map<Seq<char>, JsonValue>,
) -> Map<Seq<char>, JsonValue>
    decreases ms,
{
    if ms.len() == 0 {
        acc
    } else {
        let last = ms[ms.len() - 1];
        flatten_value(last.1, join_key(prefix, last.0@), flatten_members(ms.drop_last(), prefix, acc))
    }
}

/// Builds the key `prefix_key`, or `key` when the prefix is empty.
fn joined_key(prefix: &str, key: String) -> (r: String)
    ensures
        r@ == join_key(prefix@, key@),
{
    if prefix.is_empty() {
        key
    } else {
        let mut s = String::from_str(prefix);
        proof {
            reveal_strlit("_");
        }
        s.append("_");
        s.append(key.as_str());
        s
    }
}

/// Flattens `json` under `prefix` into `flattened`: the members of nested
/// objects are filed under their keys joined by `_`, every other value
/// under its own key.
#[verifier::loop_isolation(false)]
pub fn flatten_json(json: JsonValue, prefix: &str, flattened: &mut JsonMap)
    requires
        old(flattened).wf(),
    ensures
        final(flattened).wf(),
        final(flattened)@ == flatten_value(json, prefix@, old(flattened)@),
    decreases json,
{
    let ghost whole = json;
    match json {
        JsonValue::Object(obj) => {
            let ghost orig = obj;
            let mut obj = obj;
            let ghost ms = obj@;
            let total = obj.len();
            let ghost start = flattened@;
            let mut done: usize = 0;
            while obj.len() > 0
                invariant
                    whole == JsonValue::Object(orig),
                    ms == orig@,
                    done <= ms.len(),
                    ms.len() == total,
                    obj@ == ms.subrange(done as int, ms.len() as int),
                    flattened.wf(),
                    flattened@ == flatten_members(ms.subrange(0, done as int), prefix@, start),
                decreases obj.len(),
            {
                let (key, value) = obj.remove(0);
                assert(ms[done as int] == (key, value));
                let new_prefix = joined_key(prefix, key);
                assert(decreases_to!(whole => value)) by {
                    assert(decreases_to!(whole => whole->Object_0));
                    assert(decreases_to!(orig => orig@));
                    assert(decreases_to!(ms => ms[done as int]));
                    assert(decreases_to!(ms[done as int] => ms[done as int].1));
                }
                flatten_json(value, new_prefix.as_str(), flattened);
                assert(ms.subrange(0, done + 1).drop_last() =~= ms.subrange(0, done as int));
                done = done + 1;
            }
            assert(ms.subrange(0, ms.len() as int) =~= ms);
        },
        _ => {
            flattened.insert(String::from_str(prefix), json);
        },
    }
}

/// Flattens `value` under `prefix` into `schema`, in the same way as
/// `flatten_json`: the schema of a row has one column per flattened key.
pub fn flatten_json_for_schema(prefix: &str, value: JsonValue, schema: &mut JsonMap)
    requires
        old(schema).wf(),
    ensures
        final(schema).wf(),
        final(schema)@ == flatten_value(value, prefix@, old(schema)@),
{
    flatten_json(value, prefix, schema);
}

/// A map binds no key to an object.
pub open spec fn no_objects(m: Map<Seq<char>, JsonValue>) -> bool {
    forall|k: Seq<char>| #[trigger] m.contains_key(k) ==> !(m[k] is Object)
}

/// Flattening leaves no object in a row: every value it files is a
/// string, number, boolean, null or array.
pub proof fn lemma_flatten_leaves_no_objects(v: JsonValue, prefix: Seq<char>, acc: Map<Seq<char>, JsonValue>)
    requires
        no_objects(acc),
    ensures
        no_objects(flatten_value(v, prefix, acc)),
    decreases v,
{
    match v {
        JsonValue::Object(members) => {
            lemma_flatten_members_no_objects(members@, prefix, acc);
        },
        _ => {
            let r = flatten_value(v, prefix, acc);
            assert forall|k: Seq<char>| #[trigger] r.contains_key(k) implies !(r[k] is Object) by {
                if k != prefix {
                    assert(acc.contains_key(k));
                }
            }
        },
    }
}

/// Flattening the members of an object leaves no object in a row.
pub proof fn lemma_flatten_members_no_objects(
    ms: Seq<(String, JsonValue)>,
    prefix: Seq<char>,
    acc: Map<Seq<char>, JsonValue>,
)
    requires
        no_objects(acc),
    ensures
        no_objects(flatten_members(ms, prefix, acc)),
    decreases ms,
{
    if ms.len() > 0 {
        let last = ms[ms.len() - 1];
        lemma_flatten_members_no_objects(ms.drop_last(), prefix, acc);
        assert(decreases_to!(ms => ms[ms.len() - 1]));
        lemma_flatten_leaves_no_objects(last.1, join_key(prefix, last.0@), flatten_members(ms.drop_last(), prefix, acc));
    }
}

/// A value that is not an object is filed under the prefix itself, whatever
/// it holds, and every other key of the row keeps what it had.
pub proof fn lemma_flatten_files_leaf(v: JsonValue, prefix: Seq<char>, acc: Map<Seq<char>, JsonValue>)
    requires
        !(v is Object),
    ensures
        flatten_value(v, prefix, acc).contains_key(prefix),
        flatten_value(v, prefix, acc)[prefix] == v,
        forall|k: Seq<char>| k != prefix ==> (#[trigger] flatten_value(v, prefix, acc).contains_key(k)
            <==> acc.contains_key(k)),
        forall|k: Seq<char>| k != prefix && acc.contains_key(k) ==> #[trigger] flatten_value(v, prefix, acc)[k]
            == acc[k],
{
}

/// The column that a member named `key` of an object under `prefix` gets:
/// `key` itself at the top, else the prefix, `_` and the key.
proof fn lemma_join_key_shape(prefix: Seq<char>, key: Seq<char>)
    ensures
        join_key(prefix, key) == (if prefix.len() == 0 { key } else { prefix + seq!['_'] + key }),
{
}

/// Two members of one object with different names get different columns.
proof fn lemma_member_columns_differ(prefix: Seq<char>, k1: Seq<char>, k2: Seq<char>)
    requires
        k1 != k2,
    ensures
        (if prefix.len() == 0 { k1 } else { prefix + seq!['_'] + k1 }) != (if prefix.len() == 0 { k2 } else {
            prefix + seq!['_'] + k2
        }),
{
    if prefix.len() > 0 {
        let a = prefix + seq!['_'] + k1;
        let b = prefix + seq!['_'] + k2;
        let n = prefix.len() + 1;
        assert(a.subrange(n as int, a.len() as int) =~= k1);
        assert(b.subrange(n as int, b.len() as int) =~= k2);
    }
}

/// Flattening members that are none of them objects files each member's
/// value under its own column, unless a later member has the same name.
proof fn lemma_flatten_leaf_members(ms: Seq<(String, JsonValue)>, prefix: Seq<char>, acc: Map<Seq<char>, JsonValue>)
    requires
        forall|i: int| 0 <= i < ms.len() ==> !(#[trigger] ms[i].1 is Object),
    ensures
        forall|i: int| #![trigger ms[i]] 0 <= i < ms.len() && (forall|j: int| i < j < ms.len() ==> ms[j].0@ != ms[i].0@) ==> {
            let col = if prefix.len() == 0 { ms[i].0@ } else { prefix + seq!['_'] + ms[i].0@ };
            &&& flatten_members(ms, prefix, acc).contains_key(col)
            &&& flatten_members(ms, prefix, acc)[col] == ms[i].1
        },
    decreases ms.len(),
{
    if ms.len() > 0 {
        let init = ms.drop_last();
        let n = ms.len() - 1;
        let last = ms[n];
        assert forall|i: int| 0 <= i < init.len() implies !(#[trigger] init[i].1 is Object) by {
            assert(init[i] == ms[i]);
        }
        lemma_flatten_leaf_members(init, prefix, acc);
        let before = flatten_members(init, prefix, acc);
        lemma_join_key_shape(prefix, last.0@);
        assert(!(ms[n].1 is Object));
        lemma_flatten_files_leaf(last.1, join_key(prefix, last.0@), before);
        assert forall|i: int| #![trigger ms[i]] 0 <= i < ms.len() && (forall|j: int| i < j < ms.len() ==> ms[j].0@ != ms[i].0@) implies {
            let col = if prefix.len() == 0 { ms[i].0@ } else { prefix + seq!['_'] + ms[i].0@ };
            &&& flatten_members(ms, prefix, acc).contains_key(col)
            &&& flatten_members(ms, prefix, acc)[col] == ms[i].1
        } by {
            if i < n {
                assert(init[i] == ms[i]);
                assert(ms[n].0@ != ms[i].0@);
                assert forall|j: int| i < j < init.len() implies init[j].0@ != init[i].0@ by {
                    assert(init[j] == ms[j]);
                }
                lemma_member_columns_differ(prefix, ms[i].0@, last.0@);
            }
        }
    }
}

/// Flattening an object whose members are none of them objects gives a
/// row with each member's value under its name (joined to the prefix by
/// `_` below the top): no member is dropped or misfiled, whatever its
/// value, and when two members share a name the later one is kept.
pub proof fn lemma_flatten_flat_object(
    members: Vec<(String, JsonValue)>,
    prefix: Seq<char>,
    acc: Map<Seq<char>, JsonValue>,
)
    requires
        forall|i: int| 0 <= i < members@.len() ==> !(#[trigger] members@[i].1 is Object),
    ensures
        forall|i: int| #![trigger members@[i]]
            0 <= i < members@.len() && (forall|j: int| i < j < members@.len() ==> members@[j].0@ != members@[i].0@)
                ==> {
            let col = if prefix.len() == 0 { members@[i].0@ } else { prefix + seq!['_'] + members@[i].0@ };
            &&& flatten_value(JsonValue::Object(members), prefix, acc).contains_key(col)
            &&& flatten_value(JsonValue::Object(members), prefix, acc)[col] == members@[i].1
        },
{
    lemma_flatten_leaf_members(members@, prefix, acc);
}

} // verus!
