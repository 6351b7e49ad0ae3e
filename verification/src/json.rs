//! The JSON document model that the library works on, and the keyed map
//! that rows and schemas are collected into.
use vstd::prelude::*;

verus! {

/// A JSON number, kept in the three forms that a JSON parser produces:
/// a non-negative integer, a negative integer, or a finite double given by
/// its IEEE-754 bit pattern.
#[derive(Debug, Clone, Copy, PartialEq, Eq, Structural)]
pub enum JsonNumber {
    PosInt(u64),
    NegInt(i64),
    Float(u64),
}

/// A JSON value. The entries of an object are kept in the order in which
/// the object is walked.
#[derive(Debug)]
pub enum JsonValue {
    Null,
    Bool(bool),
    Number(JsonNumber),
    String(String),
    Array(Vec<JsonValue>),
    Object(Vec<(String, JsonValue)>),
}

impl JsonValue {
    /// Whether the value is an array.
    pub open spec fn spec_is_array(&self) -> bool {
        self is Array
    }

    /// Whether the value is an array.
    pub fn is_array(&self) -> (r: bool)
        ensures
            r == self.spec_is_array(),
    {
        match self {
            JsonValue::Array(_) => true,
            _ => false,
        }
    }
}

/// The map that a sequence of key/value entries stands for: each entry
/// binds its key, and a later entry overrides an earlier one.
pub open spec fn entries_map(es: Seq<(String, JsonValue)>) -> Map<Seq<char>, JsonValue>
    decreases es.len(),
{
    if es.len() == 0 {
        Map::empty()
    } else {
        entries_map(es.drop_last()).insert(es.last().0@, es.last().1)
    }
}

/// No two entries share a key.
pub open spec fn distinct_keys(es: Seq<(String, JsonValue)>) -> bool {
    forall|i: int, j: int| 0 <= i < j < es.len() ==> es[i].0@ != es[j].0@
}

/// The keys of a sequence of entries are exactly the keys of its map.
pub proof fn lemma_entries_map_dom(es: Seq<(String, JsonValue)>)
    ensures
        forall|k: Seq<char>| #[trigger] entries_map(es).contains_key(k) <==> exists|i: int|
            0 <= i < es.len() && es[i].0@ == k,
    decreases es.len(),
{
    if es.len() > 0 {
        lemma_entries_map_dom(es.drop_last());
        assert forall|k: Seq<char>| #[trigger] entries_map(es).contains_key(k) implies exists|i: int|
            0 <= i < es.len() && es[i].0@ == k by {
            if k == es.last().0@ {
                assert(es[es.len() - 1].0@ == k);
            } else {
                assert(entries_map(es.drop_last()).contains_key(k));
                let i = choose|i: int| 0 <= i < es.drop_last().len() && es.drop_last()[i].0@ == k;
                assert(es[i].0@ == k);
            }
        }
        assert forall|k: Seq<char>| (exists|i: int| 0 <= i < es.len() && es[i].0@ == k) implies #[trigger] entries_map(es).contains_key(k) by {
            let i = choose|i: int| 0 <= i < es.len() && es[i].0@ == k;
            if i < es.len() - 1 {
                assert(es.drop_last()[i].0@ == k);
                assert(entries_map(es.drop_last()).contains_key(k));
            }
        }
    }
}

/// With distinct keys, every entry is what its key maps to.
pub proof fn lemma_entries_map_value(es: Seq<(String, JsonValue)>, i: int)
    requires
        distinct_keys(es),
        0 <= i < es.len(),
    ensures
        entries_map(es).contains_key(es[i].0@),
        entries_map(es)[es[i].0@] == es[i].1,
    decreases es.len(),
{
    if i < es.len() - 1 {
        lemma_entries_map_value(es.drop_last(), i);
        assert(es.drop_last()[i] == es[i]);
    }
}

/// With distinct keys, the map has as many keys as there are entries.
pub proof fn lemma_entries_map_len(es: Seq<(String, JsonValue)>)
    requires
        distinct_keys(es),
    ensures
        entries_map(es).dom().finite(),
        entries_map(es).dom().len() == es.len(),
    decreases es.len(),
{
    if es.len() > 0 {
        lemma_entries_map_len(es.drop_last());
        lemma_entries_map_dom(es.drop_last());
        if entries_map(es.drop_last()).contains_key(es.last().0@) {
            let i = choose|i: int| 0 <= i < es.drop_last().len() && es.drop_last()[i].0@ == es.last().0@;
            assert(es[i].0@ == es[es.len() - 1].0@);
        }
    }
}

/// Replacing the value of an entry whose key is already present updates
/// the map at that key.
proof fn lemma_entries_map_update(es: Seq<(String, JsonValue)>, i: int, k: String, v: JsonValue)
    requires
        distinct_keys(es),
        0 <= i < es.len(),
        es[i].0@ == k@,
    ensures
        entries_map(es.update(i, (k, v))) == entries_map(es).insert(k@, v),
    decreases es.len(),
{
    let es2 = es.update(i, (k, v));
    if i == es.len() - 1 {
        assert(es2.drop_last() =~= es.drop_last());
        lemma_entries_map_dom(es.drop_last());
        assert(entries_map(es2) =~= entries_map(es).insert(k@, v));
    } else {
        assert(es2.drop_last() =~= es.drop_last().update(i, (k, v)));
        lemma_entries_map_update(es.drop_last(), i, k, v);
        assert(es.last().0@ != k@) by {
            assert(es[i].0@ != es[es.len() - 1].0@);
        }
        assert(entries_map(es2) =~= entries_map(es).insert(k@, v));
    }
}

/// A map from keys to JSON values with distinct keys, kept in the order in
/// which the keys were first inserted.
#[derive(Debug)]
pub struct JsonMap {
    entries: Vec<(String, JsonValue)>,
}

impl View for JsonMap {
    type V = Map<Seq<char>, JsonValue>;

    closed spec fn view(&self) -> Map<Seq<char>, JsonValue> {
        entries_map(self.entries@)
    }
}

impl JsonMap {
    /// The map keeps no key twice.
    pub closed spec fn wf(&self) -> bool {
        distinct_keys(self.entries@)
    }

    /// The entries, in insertion order.
    pub closed spec fn spec_entries(&self) -> Seq<(String, JsonValue)> {
        self.entries@
    }

    /// An empty map.
    pub fn new() -> (r: JsonMap)
        ensures
            r.wf(),
            r@ == Map::<Seq<char>, JsonValue>::empty(),
            r.spec_entries().len() == 0,
    {
        JsonMap { entries: Vec::new() }
    }

    /// The number of keys.
    pub fn len(&self) -> (r: usize)
        requires
            self.wf(),
        ensures
            r == self@.dom().len(),
    {
        proof {
            lemma_entries_map_len(self.entries@);
        }
        self.entries.len()
    }

    /// Binds `key` to `value`, replacing the value that `key` had.
    pub fn insert(&mut self, key: String, value: JsonValue)
        requires
            old(self).wf(),
        ensures
            final(self).wf(),
            final(self)@ == old(self)@.insert(key@, value),
    {
        let n = self.entries.len();
        let mut i: usize = 0;
        while i < n
            invariant
                n == self.entries.len(),
                i <= n,
                self.wf(),
                *self == *old(self),
                forall|j: int| 0 <= j < i ==> self.entries@[j].0@ != key@,
            decreases n - i,
        {
            if compare_strings(&self.entries[i].0, &key) {
                proof {
                    lemma_entries_map_update(self.entries@, i as int, key, value);
                }
                let ghost es = self.entries@;
                self.entries.set(i, (key, value));
                assert(self.entries@ == es.update(i as int, (key, value)));
                assert forall|a: int, b: int| 0 <= a < b < self.entries@.len() implies self.entries@[a].0@ != self.entries@[b].0@ by {
                    assert(es[a].0@ != es[b].0@);
                }
                return;
            }
            i = i + 1;
        }
        let ghost es = self.entries@;
        self.entries.push((key, value));
        assert(self.entries@.drop_last() =~= es);
        assert forall|a: int, b: int| 0 <= a < b < self.entries@.len() implies self.entries@[a].0@ != self.entries@[b].0@ by {
            if b < es.len() {
                assert(es[a].0@ != es[b].0@);
            }
        }
    }

    /// Hands out the entries, in insertion order.
    pub fn into_entries(self) -> (r: Vec<(String, JsonValue)>)
        requires
            self.wf(),
        ensures
            distinct_keys(r@),
            entries_map(r@) == self@,
            r@ == self.spec_entries(),
    {
        self.entries
    }
}

/// Whether two strings hold the same characters.
pub fn compare_strings(a: &String, b: &String) -> (r: bool)
    ensures
        r == (a@ == b@),
{
    a.eq(b)
}

} // verus!

verus! {

/// The value of the first entry with key `key`.
pub open spec fn member_value(es: Seq<(String, JsonValue)>, key: Seq<char>) -> Option<JsonValue>
    decreases es.len(),
{
    if es.len() == 0 {
        None
    } else if es[0].0@ == key {
        Some(es[0].1)
    } else {
        member_value(es.drop_first(), key)
    }
}

/// The integer that a JSON number stands for; nothing for a double.
pub open spec fn number_value(n: JsonNumber) -> Option<int> {
    match n {
        JsonNumber::PosInt(u) => Some(u as int),
        JsonNumber::NegInt(i) => Some(i as int),
        JsonNumber::Float(_) => None,
    }
}

/// The member `key` of an object; nothing for a value of another kind.
pub open spec fn json_get(v: JsonValue, key: Seq<char>) -> Option<JsonValue> {
    match v {
        JsonValue::Object(es) => member_value(es@, key),
        _ => None,
    }
}

/// The text of the member `key` of an object, when that member is a
/// string.
pub open spec fn text_at(v: JsonValue, key: Seq<char>) -> Option<Seq<char>> {
    match json_get(v, key) {
        Some(JsonValue::String(s)) => Some(s@),
        _ => None,
    }
}

/// `member_value` is the value of the first entry with the key.
proof fn lemma_member_value(es: Seq<(String, JsonValue)>, key: Seq<char>, i: int)
    requires
        0 <= i <= es.len(),
        forall|j: int| 0 <= j < i ==> es[j].0@ != key,
    ensures
        i < es.len() && es[i].0@ == key ==> member_value(es, key) == Some(es[i].1),
        i == es.len() ==> member_value(es, key) is None,
    decreases i,
{
    if i > 0 {
        assert(es[0].0@ != key);
        assert forall|j: int| 0 <= j < i - 1 implies es.drop_first()[j].0@ != key by {
            assert(es.drop_first()[j] == es[j + 1]);
        }
        lemma_member_value(es.drop_first(), key, i - 1);
        if i < es.len() {
            assert(es.drop_first()[i - 1] == es[i]);
        }
    }
}

/// The text of the member `key` of `v`, when that member is a string.
pub fn get_text<'a>(v: &'a JsonValue, key: &str) -> (r: Option<&'a String>)
    ensures
        match r {
            Some(s) => text_at(*v, key@) == Some(s@),
            None => text_at(*v, key@) is None,
        },
{
    match v {
        JsonValue::Object(es) => {
            let n = es.len();
            let mut i: usize = 0;
            while i < n
                invariant
                    n == es@.len(),
                    i <= n,
                    *v == JsonValue::Object(*es),
                    forall|j: int| 0 <= j < i ==> es@[j].0@ != key@,
                decreases n - i,
            {
                if crate::text::compare_keys(es[i].0.as_str(), key) == crate::text::KeyOrder::Equal {
                    proof {
                        lemma_member_value(es@, key@, i as int);
                        assert(json_get(*v, key@) == Some(es@[i as int].1));
                    }
                    return match &es[i].1 {
                        JsonValue::String(s) => Some(s),
                        _ => None,
                    };
                }
                i = i + 1;
            }
            proof {
                lemma_member_value(es@, key@, i as int);
            }
            None
        },
        _ => None,
    }
}

/// Looking up a member of an object whose keys are distinct finds the
/// value given for that key; an absent key, or a value that is not an
/// object, has no member.
pub proof fn lemma_json_get(es: Vec<(String, JsonValue)>, key: Seq<char>, v: JsonValue)
    requires
        distinct_keys(es@),
    ensures
        forall|i: int| 0 <= i < es@.len() ==> json_get(JsonValue::Object(es), #[trigger] es@[i].0@) == Some(es@[i].1),
        (forall|i: int| 0 <= i < es@.len() ==> es@[i].0@ != key) ==> json_get(JsonValue::Object(es), key) is None,
        !(v is Object) ==> json_get(v, key) is None,
{
    assert forall|i: int| 0 <= i < es@.len() implies json_get(JsonValue::Object(es), #[trigger] es@[i].0@) == Some(es@[i].1) by {
        assert forall|j: int| 0 <= j < i implies es@[j].0@ != es@[i].0@ by {}
        lemma_member_value(es@, es@[i].0@, i);
    }
    if forall|i: int| 0 <= i < es@.len() ==> es@[i].0@ != key {
        lemma_member_value(es@, key, es@.len() as int);
    }
}

} // verus!
