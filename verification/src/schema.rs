//! Column types and table schemas inferred from JSON rows.
use vstd::prelude::*;
use crate::json::{JsonMap, JsonNumber, JsonValue, compare_strings, distinct_keys, entries_map, lemma_entries_map_dom,
    lemma_entries_map_len, lemma_entries_map_value};
use crate::flatten::{flatten_json_for_schema, flatten_value};

verus! {

/// The column types that rows are given.
#[derive(Debug, Clone, Copy, PartialEq, Eq, Structural)]
pub enum FieldKind {
    String,
    Float64,
    Boolean,
    Record,
}

/// A column of a table schema: its name, its type, and whether it is
/// repeated (holds an array).
#[derive(Debug)]
pub struct FieldSchema {
    pub name: String,
    pub field_type: FieldKind,
    pub repeated: bool,
}

/// The column type of a value: booleans, numbers, strings and objects map
/// to their own types, an array takes the type of its last element (a
/// string column when it is empty), and null is a string column.
pub open spec fn field_kind(v: JsonValue) -> FieldKind
    decreases v,
{
    match v {
        JsonValue::Bool(_) => FieldKind::Boolean,
        JsonValue::Number(_) => FieldKind::Float64,
        JsonValue::String(_) => FieldKind::String,
        JsonValue::Array(items) => {
            if items@.len() == 0 {
                FieldKind::String
            } else {
                field_kind(items@[items@.len() - 1])
            }
        },
        JsonValue::Object(_) => FieldKind::Record,
        JsonValue::Null => FieldKind::String,
    }
}

/// The column type of a value, as `field_kind` states it.
#[verifier::loop_isolation(false)]
pub fn get_field_type(value: JsonValue) -> (r: FieldKind)
    ensures
        r == field_kind(value),
    decreases value,
{
    let ghost whole = value;
    match value {
        JsonValue::Bool(_) => FieldKind::Boolean,
        JsonValue::Number(_) => FieldKind::Float64,
        JsonValue::String(_) => FieldKind::String,
        JsonValue::Array(data) => {
            let ghost items = data@;
            let ghost orig = data;
            let mut data = data;
            let total = data.len();
            let mut kinds: Vec<FieldKind> = Vec::new();
            let mut done: usize = 0;
            while data.len() > 0
                invariant
                    whole == JsonValue::Array(orig),
                    items == orig@,
                    items.len() == total,
                    done <= total,
                    data@ == items.subrange(done as int, total as int),
                    kinds@.len() == done,
                    forall|j: int| 0 <= j < done ==> kinds@[j] == field_kind(#[trigger] items[j]),
                decreases data.len(),
            {
                let item = data.remove(0);
                assert(items[done as int] == item);
                assert(decreases_to!(whole => item)) by {
                    assert(decreases_to!(whole => whole->Array_0));
                    assert(decreases_to!(orig => orig@));
                    assert(decreases_to!(items => items[done as int]));
                }
                let k = get_field_type(item);
                kinds.push(k);
                done = done + 1;
            }
            let mut field = FieldKind::String;
            let mut i: usize = 0;
            while i < kinds.len()
                invariant
                    i <= kinds@.len(),
                    kinds@.len() == items.len(),
                    forall|j: int| 0 <= j < kinds@.len() ==> kinds@[j] == field_kind(#[trigger] items[j]),
                    i == 0 ==> field == FieldKind::String,
                    i > 0 ==> field == field_kind(items[i - 1]),
                decreases kinds@.len() - i,
            {
                field = kinds[i];
                i = i + 1;
            }
            field
        },
        JsonValue::Object(_) => FieldKind::Record,
        JsonValue::Null => FieldKind::String,
    }
}

/// The columns that a row `v` calls for: one per flattened key, typed by
/// the value filed there and repeated when that value is an array.
pub open spec fn expected_schema(v: JsonValue) -> Map<Seq<char>, (FieldKind, bool)> {
    let m = flatten_value(v, Seq::empty(), Map::empty());
    Map::new(|k: Seq<char>| m.contains_key(k), |k: Seq<char>| (field_kind(m[k]), m[k] is Array))
}

/// The schema that a list of columns describes, by column name.
pub open spec fn schema_of(fields: Seq<FieldSchema>) -> Map<Seq<char>, (FieldKind, bool)> {
    Map::new(
        |k: Seq<char>| exists|i: int| 0 <= i < fields.len() && fields[i].name@ == k,
        |k: Seq<char>| {
            let i = choose|i: int| 0 <= i < fields.len() && fields[i].name@ == k;
            (fields[i].field_type, fields[i].repeated)
        },
    )
}

/// No two columns share a name.
pub open spec fn distinct_names(fields: Seq<FieldSchema>) -> bool {
    forall|i: int, j: int| 0 <= i < j < fields.len() ==> fields[i].name@ != fields[j].name@
}

/// The schema for a row: one column per flattened key of `json_data`.
/// The columns come in no promised order.
pub fn create_schema(json_data: JsonValue) -> (r: Vec<FieldSchema>)
    ensures
        distinct_names(r@),
        schema_of(r@) == expected_schema(json_data),
        r@.len() == expected_schema(json_data).dom().len(),
{
    let mut flat = JsonMap::new();
    proof {
        reveal_strlit("");
        assert(""@ =~= Seq::<char>::empty());
    }
    flatten_json_for_schema("", json_data, &mut flat);
    let ghost m = flat@;
    assert(m == flatten_value(json_data, Seq::empty(), Map::empty()));
    let mut entries = flat.into_entries();
    let ghost es = entries@;
    let total = entries.len();
    let mut fields: Vec<FieldSchema> = Vec::new();
    let mut done: usize = 0;
    while entries.len() > 0
        invariant
            es.len() == total,
            done <= total,
            distinct_keys(es),
            entries_map(es) == m,
            entries@ == es.subrange(done as int, total as int),
            fields@.len() == done,
            forall|j: int| 0 <= j < done ==> {
                &&& (#[trigger] fields@[j]).name@ == es[j].0@
                &&& fields@[j].field_type == field_kind(es[j].1)
                &&& fields@[j].repeated == es[j].1 is Array
            },
        decreases entries.len(),
    {
        let (key, value) = entries.remove(0);
        assert(es[done as int] == (key, value));
        let repeated = value.is_array();
        let field_type = get_field_type(value);
        fields.push(FieldSchema { name: key, field_type, repeated });
        done = done + 1;
    }
    proof {
        lemma_entries_map_dom(es);
        lemma_entries_map_len(es);
        let f = fields@;
        assert forall|i: int, j: int| 0 <= i < j < f.len() implies f[i].name@ != f[j].name@ by {
            assert(f[i].name@ == es[i].0@);
            assert(f[j].name@ == es[j].0@);
        }
        let expected = expected_schema(json_data);
        assert forall|k: Seq<char>| #[trigger] schema_of(f).contains_key(k) <==> expected.contains_key(k) by {
            if schema_of(f).contains_key(k) {
                let i = choose|i: int| 0 <= i < f.len() && f[i].name@ == k;
                assert(es[i].0@ == k);
            }
            if expected.contains_key(k) {
                let i = choose|i: int| 0 <= i < es.len() && es[i].0@ == k;
                assert(f[i].name@ == k);
            }
        }
        assert forall|k: Seq<char>| #[trigger] schema_of(f).contains_key(k) implies schema_of(f)[k] == expected[k] by {
            let i = choose|i: int| 0 <= i < f.len() && f[i].name@ == k;
            lemma_entries_map_value(es, i);
        }
        assert(schema_of(f) =~= expected);
        assert(expected.dom() =~= m.dom());
    }
    fields
}

} // verus!

verus! {

/// The names of a list of strings.
pub open spec fn name_views(names: Seq<String>) -> Seq<Seq<char>> {
    names.map_values(|s: String| s@)
}

/// The names of a list of columns.
pub open spec fn field_names(fields: Seq<FieldSchema>) -> Seq<Seq<char>> {
    fields.map_values(|f: FieldSchema| f.name@)
}

/// The columns that a row calls for and that a table with columns named
/// `existing` lacks.
pub open spec fn missing_columns(existing: Seq<Seq<char>>, v: JsonValue) -> Map<Seq<char>, (FieldKind, bool)> {
    let expected = expected_schema(v);
    Map::new(|k: Seq<char>| expected.contains_key(k) && !existing.contains(k), |k: Seq<char>| expected[k])
}

/// The columns of `fields`, first to last, whose names are not among
/// `existing`.
pub open spec fn select_new(fields: Seq<FieldSchema>, existing: Seq<Seq<char>>) -> Seq<FieldSchema>
    decreases fields.len(),
{
    if fields.len() == 0 {
        Seq::empty()
    } else {
        let rest = select_new(fields.drop_last(), existing);
        if existing.contains(fields.last().name@) {
            rest
        } else {
            rest.push(fields.last())
        }
    }
}

/// With distinct names, each column is what its name maps to.
proof fn lemma_schema_of_entry(f: Seq<FieldSchema>, i: int)
    requires
        distinct_names(f),
        0 <= i < f.len(),
    ensures
        schema_of(f).contains_key(f[i].name@),
        schema_of(f)[f[i].name@] == (f[i].field_type, f[i].repeated),
{
    let k = f[i].name@;
    assert(schema_of(f).contains_key(k));
    let j = choose|j: int| 0 <= j < f.len() && f[j].name@ == k;
    if j != i {
        if j < i {
            assert(f[j].name@ != f[i].name@);
        } else {
            assert(f[i].name@ != f[j].name@);
        }
    }
}

/// What `select_new` keeps: columns of `fields` whose names are not among
/// `existing`, each of them, without repeating a name.
proof fn lemma_select_new(fields: Seq<FieldSchema>, existing: Seq<Seq<char>>)
    requires
        distinct_names(fields),
    ensures
        distinct_names(select_new(fields, existing)),
        forall|x: int| 0 <= x < select_new(fields, existing).len() ==> exists|i: int|
            0 <= i < fields.len() && #[trigger] select_new(fields, existing)[x] == fields[i]
                && !existing.contains(fields[i].name@),
        forall|i: int| 0 <= i < fields.len() && !existing.contains(#[trigger] fields[i].name@) ==> exists|x: int|
            0 <= x < select_new(fields, existing).len() && select_new(fields, existing)[x] == fields[i],
    decreases fields.len(),
{
    if fields.len() > 0 {
        let init = fields.drop_last();
        assert(distinct_names(init)) by {
            assert forall|i: int, j: int| 0 <= i < j < init.len() implies init[i].name@ != init[j].name@ by {
                assert(fields[i].name@ != fields[j].name@);
            }
        }
        lemma_select_new(init, existing);
        let rest = select_new(init, existing);
        let r = select_new(fields, existing);
        let last = fields.last();
        assert forall|x: int| 0 <= x < r.len() implies exists|i: int|
            0 <= i < fields.len() && #[trigger] r[x] == fields[i] && !existing.contains(fields[i].name@) by {
            if x < rest.len() {
                let i = choose|i: int| 0 <= i < init.len() && rest[x] == init[i] && !existing.contains(init[i].name@);
                assert(r[x] == fields[i]);
            } else {
                assert(r[x] == fields[fields.len() - 1]);
            }
        }
        assert forall|i: int| 0 <= i < fields.len() && !existing.contains(#[trigger] fields[i].name@) implies exists|x: int|
            0 <= x < r.len() && r[x] == fields[i] by {
            if i < fields.len() - 1 {
                assert(!existing.contains(init[i].name@));
                let x = choose|x: int| 0 <= x < rest.len() && rest[x] == init[i];
                assert(r[x] == fields[i]);
            } else {
                assert(r[rest.len() as int] == fields[i]);
            }
        }
        if !existing.contains(last.name@) {
            assert forall|a: int, b: int| 0 <= a < b < r.len() implies r[a].name@ != r[b].name@ by {
                if b == rest.len() {
                    let i = choose|i: int| 0 <= i < init.len() && rest[a] == init[i] && !existing.contains(init[i].name@);
                    assert(fields[i].name@ != fields[fields.len() - 1].name@);
                } else {
                    assert(rest[a].name@ != rest[b].name@);
                }
            }
        }
    }
}

/// The columns of `new_fields` whose names no column of the table has yet,
/// in their order.
pub fn fields_to_add(existing_names: &Vec<String>, new_fields: Vec<FieldSchema>) -> (r: Vec<FieldSchema>)
    ensures
        r@ == select_new(new_fields@, name_views(existing_names@)),
{
    let ghost names = name_views(existing_names@);
    let ghost fs = new_fields@;
    let mut new_fields = new_fields;
    let total = new_fields.len();
    let mut added: Vec<FieldSchema> = Vec::new();
    let mut done: usize = 0;
    while new_fields.len() > 0
        invariant
            fs.len() == total,
            done <= total,
            names == name_views(existing_names@),
            new_fields@ == fs.subrange(done as int, total as int),
            added@ == select_new(fs.subrange(0, done as int), names),
        decreases new_fields.len(),
    {
        let field = new_fields.remove(0);
        assert(fs[done as int] == field);
        let mut found = false;
        let mut j: usize = 0;
        while j < existing_names.len()
            invariant
                j <= existing_names@.len(),
                names == name_views(existing_names@),
                found <==> exists|t: int| 0 <= t < j && names[t] == field.name@,
            decreases existing_names@.len() - j,
        {
            assert(names[j as int] == existing_names@[j as int]@);
            if compare_strings(&existing_names[j], &field.name) {
                found = true;
            }
            j = j + 1;
        }
        proof {
            let sub = fs.subrange(0, done + 1);
            assert(sub.drop_last() =~= fs.subrange(0, done as int));
            assert(sub.last() == field);
            if found {
                let t = choose|t: int| 0 <= t < j && names[t] == field.name@;
                assert(names.contains(field.name@));
            } else {
                assert(!names.contains(field.name@)) by {
                    if names.contains(field.name@) {
                        let t = choose|t: int| 0 <= t < names.len() && names[t] == field.name@;
                        assert(names[t] == field.name@);
                    }
                }
            }
        }
        if !found {
            added.push(field);
        }
        done = done + 1;
    }
    assert(fs.subrange(0, total as int) =~= fs);
    added
}

/// Decides how the schema of a table with columns named `existing_names`
/// has to grow to take the row `value`: `None` when it has a column for
/// every flattened key already, otherwise the columns to add, in no
/// promised order.
pub fn schema_update(existing_names: &Vec<String>, value: JsonValue) -> (r: Option<Vec<FieldSchema>>)
    ensures
        r is None <==> missing_columns(name_views(existing_names@), value).dom().is_empty(),
        r matches Some(added) ==> {
            &&& distinct_names(added@)
            &&& schema_of(added@) == missing_columns(name_views(existing_names@), value)
        },
{
    let new_fields = create_schema(value);
    let ghost f = new_fields@;
    let added = fields_to_add(existing_names, new_fields);
    let ghost names = name_views(existing_names@);
    proof {
        lemma_select_new(f, names);
        let a = added@;
        let missing = missing_columns(names, value);
        let expected = expected_schema(value);
        assert forall|k: Seq<char>| #[trigger] schema_of(a).contains_key(k) <==> missing.contains_key(k) by {
            if schema_of(a).contains_key(k) {
                let x = choose|x: int| 0 <= x < a.len() && a[x].name@ == k;
                let i = choose|i: int| 0 <= i < f.len() && a[x] == f[i] && !names.contains(f[i].name@);
                lemma_schema_of_entry(f, i);
            }
            if missing.contains_key(k) {
                assert(schema_of(f).contains_key(k));
                let i = choose|i: int| 0 <= i < f.len() && f[i].name@ == k;
                let x = choose|x: int| 0 <= x < a.len() && a[x] == f[i];
                assert(a[x].name@ == k);
            }
        }
        assert forall|k: Seq<char>| #[trigger] schema_of(a).contains_key(k) implies schema_of(a)[k] == missing[k] by {
            let x = choose|x: int| 0 <= x < a.len() && a[x].name@ == k;
            let i = choose|i: int| 0 <= i < f.len() && a[x] == f[i] && !names.contains(f[i].name@);
            lemma_schema_of_entry(f, i);
            lemma_schema_of_entry(a, x);
        }
        assert(schema_of(a) =~= missing);
        if a.len() > 0 {
            lemma_schema_of_entry(a, 0);
        } else {
            assert(missing.dom() =~= Set::empty());
        }
    }
    if added.len() > 0 {
        Some(added)
    } else {
        None
    }
}

/// Once the columns that `schema_update` reports missing are added to a
/// table, the same row finds every column it calls for: a second update
/// has nothing to add.
pub proof fn lemma_schema_update_settles(existing: Seq<Seq<char>>, added: Seq<FieldSchema>, v: JsonValue)
    requires
        schema_of(added) == missing_columns(existing, v),
    ensures
        missing_columns(existing + field_names(added), v).dom().is_empty(),
{
    let grown = existing + field_names(added);
    let missing = missing_columns(grown, v);
    assert forall|k: Seq<char>| !missing.contains_key(k) by {
        if missing.contains_key(k) {
            if !existing.contains(k) {
                assert(missing_columns(existing, v).contains_key(k));
                assert(schema_of(added).contains_key(k));
                let i = choose|i: int| 0 <= i < added.len() && added[i].name@ == k;
                assert(grown[existing.len() + i] == k);
            } else {
                let t = choose|t: int| 0 <= t < existing.len() && existing[t] == k;
                assert(grown[t] == k);
            }
        }
    }
    assert(missing.dom() =~= Set::empty());
}

/// The schema of a row has a column for exactly the keys of the flattened
/// row that is inserted, typed by the value filed under each.
pub proof fn lemma_schema_matches_row(v: JsonValue)
    ensures
        expected_schema(v).dom() == flatten_value(v, Seq::empty(), Map::empty()).dom(),
        forall|k: Seq<char>| #[trigger] expected_schema(v).contains_key(k) ==> expected_schema(v)[k] == (
            field_kind(flatten_value(v, Seq::empty(), Map::empty())[k]),
            flatten_value(v, Seq::empty(), Map::empty())[k] is Array,
        ),
{
    assert(expected_schema(v).dom() =~= flatten_value(v, Seq::empty(), Map::empty()).dom());
}

/// The column type of each kind of value: every number, whatever its form,
/// is FLOAT64; booleans are BOOLEAN; strings and null are STRING; objects
/// are RECORD; an empty array is STRING and any other array has the type of
/// its last element.
pub proof fn lemma_column_types()
    ensures
        forall|n: JsonNumber| #[trigger] field_kind(JsonValue::Number(n)) == FieldKind::Float64,
        forall|b: bool| #[trigger] field_kind(JsonValue::Bool(b)) == FieldKind::Boolean,
        forall|t: String| #[trigger] field_kind(JsonValue::String(t)) == FieldKind::String,
        field_kind(JsonValue::Null) == FieldKind::String,
        forall|ms: Vec<(String, JsonValue)>| #[trigger] field_kind(JsonValue::Object(ms)) == FieldKind::Record,
        forall|items: Vec<JsonValue>| items@.len() == 0 ==> #[trigger] field_kind(JsonValue::Array(items))
            == FieldKind::String,
        forall|items: Vec<JsonValue>| items@.len() > 0 ==> #[trigger] field_kind(JsonValue::Array(items))
            == field_kind(items@[items@.len() - 1]),
{
}

/// The columns that `fields_to_add` keeps are exactly the new fields whose
/// names the table lacks: each kept column is one of the new fields and is
/// missing from the table, and each such field is kept.
pub proof fn lemma_fields_to_add_keeps_missing(fields: Seq<FieldSchema>, existing: Seq<Seq<char>>)
    requires
        distinct_names(fields),
    ensures
        forall|x: int| 0 <= x < select_new(fields, existing).len() ==> !existing.contains(
            #[trigger] select_new(fields, existing)[x].name@,
        ) && fields.contains(select_new(fields, existing)[x]),
        forall|i: int| 0 <= i < fields.len() && !existing.contains(#[trigger] fields[i].name@) ==> select_new(
            fields,
            existing,
        ).contains(fields[i]),
{
    lemma_select_new(fields, existing);
    let r = select_new(fields, existing);
    assert forall|x: int| 0 <= x < r.len() implies !existing.contains(#[trigger] r[x].name@) && fields.contains(r[x]) by {
        let i = choose|i: int| 0 <= i < fields.len() && r[x] == fields[i] && !existing.contains(fields[i].name@);
    }
    assert forall|i: int| 0 <= i < fields.len() && !existing.contains(#[trigger] fields[i].name@) implies r.contains(fields[i]) by {
        let x = choose|x: int| 0 <= x < r.len() && r[x] == fields[i];
    }
}

} // verus!
