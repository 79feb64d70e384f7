//! The dynamic mapping from field names to field types.

use vstd::prelude::*;

use crate::model::document::{FieldValue, FieldValueView};
use crate::model::error::DbError;
use crate::table::{as_map, distinct_keys, Table};

verus! {

/// The type that a field was mapped to.
#[derive(Clone, Copy, Debug, PartialEq, Eq, Structural)]
pub enum MappedFieldType {
    Text,
    Number,
    Boolean,
    Array,
}

impl MappedFieldType {
    pub open spec fn spelled(self) -> Seq<char> {
        match self {
            MappedFieldType::Text => "text"@,
            MappedFieldType::Number => "number"@,
            MappedFieldType::Boolean => "boolean"@,
            MappedFieldType::Array => "array"@,
        }
    }

    /// The type's name.
    pub fn name(&self) -> (r: String)
        ensures
            r@ == self.spelled(),
    {
        match self {
            MappedFieldType::Text => "text".to_owned(),
            MappedFieldType::Number => "number".to_owned(),
            MappedFieldType::Boolean => "boolean".to_owned(),
            MappedFieldType::Array => "array".to_owned(),
        }
    }
}

/// The type of a field value.
pub open spec fn mapped_type_of(v: FieldValueView) -> MappedFieldType {
    match v {
        FieldValueView::Text(_) => MappedFieldType::Text,
        FieldValueView::Number(_) => MappedFieldType::Number,
        FieldValueView::Boolean(_) => MappedFieldType::Boolean,
        FieldValueView::Array(_) => MappedFieldType::Array,
    }
}

/// The type of a field value.
pub fn field_value_to_mapped_type(value: &FieldValue) -> (t: MappedFieldType)
    ensures
        t == mapped_type_of(value@),
{
    match value {
        FieldValue::Text(_) => MappedFieldType::Text,
        FieldValue::Number(_) => MappedFieldType::Number,
        FieldValue::Boolean(_) => MappedFieldType::Boolean,
        FieldValue::Array(_) => MappedFieldType::Array,
    }
}

/// A collection's field names with their types.
///
/// A field keeps the type under which it was first registered.
pub struct FieldMapping {
    fields: Table<String, MappedFieldType>,
}

impl View for FieldMapping {
    type V = Map<Seq<char>, MappedFieldType>;

    closed spec fn view(&self) -> Map<Seq<char>, MappedFieldType> {
        self.fields@
    }
}

impl FieldMapping {
    /// The fields in the order in which they were registered.
    pub closed spec fn entries(&self) -> Seq<(String, MappedFieldType)> {
        self.fields.entries()
    }

    /// A mapping without fields.
    pub fn new() -> (m: Self)
        ensures
            m@ == Map::<Seq<char>, MappedFieldType>::empty(),
            m.entries().len() == 0,
    {
        FieldMapping { fields: Table::new() }
    }

    /// The number of fields.
    pub fn field_count(&self) -> (n: usize)
        ensures
            n == self@.dom().len(),
            n == self.entries().len(),
            distinct_keys(self.entries()),
            self@ == as_map(self.entries()),
    {
        self.fields.len()
    }

    /// The type of the field `name`.
    pub fn get_field_type(&self, name: &str) -> (r: Option<MappedFieldType>)
        ensures
            match r {
                Some(t) => self@.contains_key(name@) && t == self@[name@],
                None => !self@.contains_key(name@),
            },
    {
        let key = name.to_owned();
        match self.fields.get(&key) {
            Some(t) => Some(*t),
            None => None,
        }
    }

    /// The name and the type of the field at position `i`.
    pub fn field_at(&self, i: usize) -> (r: (&String, MappedFieldType))
        requires
            i < self.entries().len(),
        ensures
            *r.0 == self.entries()[i as int].0,
            r.1 == self.entries()[i as int].1,
            self@.contains_key(r.0@),
            self@[r.0@] == r.1,
    {
        let (name, t) = self.fields.entry(i);
        (name, *t)
    }

    /// Register `name` with `field_type`.
    ///
    /// A new field is added and reported by `true`; a known field of the same
    /// type is left alone; a known field of another type is a conflict.
    pub fn register_field(&mut self, name: &str, field_type: MappedFieldType) -> (r: Result<
        bool,
        DbError,
    >)
        ensures
            match r {
                Ok(new) => {
                    &&& new == !old(self)@.contains_key(name@)
                    &&& final(self)@ == old(self)@.insert(name@, field_type)
                    &&& old(self)@.contains_key(name@) ==> old(self)@[name@] == field_type
                },
                Err(e) => {
                    &&& old(self)@.contains_key(name@)
                    &&& old(self)@[name@] != field_type
                    &&& final(self)@ == old(self)@
                    &&& e matches DbError::SchemaConflict { field, expected, got }
                    &&& field@ == name@
                    &&& expected@ == old(self)@[name@].spelled()
                    &&& got@ == field_type.spelled()
                },
            },
    {
        match self.get_field_type(name) {
            Some(t) => {
                if t == field_type {
                    assert(self@.insert(name@, field_type) =~= self@);
                    Ok(false)
                } else {
                    Err(
                        DbError::SchemaConflict {
                            field: name.to_owned(),
                            expected: t.name(),
                            got: field_type.name(),
                        },
                    )
                }
            },
            None => {
                self.fields.insert(name.to_owned(), field_type);
                Ok(true)
            },
        }
    }
}

impl Clone for FieldMapping {
    fn clone(&self) -> (r: Self)
        ensures
            r@ == self@,
    {
        let mut out = FieldMapping::new();
        let n: usize = self.fields.len();
        let mut i: usize = 0;
        while i < n
            invariant
                n == self.fields.entries().len(),
                i <= n,
                forall|k: Seq<char>| #[trigger]
                    out@.contains_key(k) <==> (exists|j: int|
                        0 <= j < i && (#[trigger] self.fields.entries()[j]).0@ == k),
                forall|k: Seq<char>| #[trigger]
                    out@.contains_key(k) ==> self@.contains_key(k) && out@[k] == self@[k],
            decreases n - i,
        {
            let (name, t) = self.fields.entry(i);
            let ghost before = out@;
            out.fields.insert(name.clone(), *t);
            assert forall|k: Seq<char>| #[trigger] out@.contains_key(k) <==> (exists|j: int|
                0 <= j < i + 1 && (#[trigger] self.fields.entries()[j]).0@ == k) by {
                if out@.contains_key(k) {
                    if k == name@ {
                        assert(self.fields.entries()[i as int].0@ == k);
                    } else {
                        assert(before.contains_key(k));
                        let j = choose|j: int|
                            0 <= j < i && (#[trigger] self.fields.entries()[j]).0@ == k;
                        assert(self.fields.entries()[j].0@ == k);
                    }
                }
                if exists|j: int| 0 <= j < i + 1 && (#[trigger] self.fields.entries()[j]).0@ == k {
                    let j = choose|j: int|
                        0 <= j < i + 1 && (#[trigger] self.fields.entries()[j]).0@ == k;
                    if j < i {
                        assert(before.contains_key(k));
                    }
                }
            }
            i = i + 1;
        }
        assert(out@ =~= self@);
        out
    }
}

// ---------------------------------------------------------------------------
// Laws
// ---------------------------------------------------------------------------

/// A value has the type of its kind.
pub proof fn values_have_the_type_of_their_kind(v: FieldValueView)
    ensures
        mapped_type_of(v) == MappedFieldType::Text <==> v is Text,
        mapped_type_of(v) == MappedFieldType::Number <==> v is Number,
        mapped_type_of(v) == MappedFieldType::Boolean <==> v is Boolean,
        mapped_type_of(v) == MappedFieldType::Array <==> v is Array,
{
}

/// Every type has a name of its own.
pub proof fn types_have_their_names(a: MappedFieldType, b: MappedFieldType)
    ensures
        MappedFieldType::Text.spelled() == "text"@,
        MappedFieldType::Number.spelled() == "number"@,
        MappedFieldType::Boolean.spelled() == "boolean"@,
        MappedFieldType::Array.spelled() == "array"@,
        a != b ==> a.spelled() != b.spelled(),
{
    reveal_strlit("text");
    reveal_strlit("number");
    reveal_strlit("boolean");
    reveal_strlit("array");
    assert("text"@[0] == 't' && "number"@[0] == 'n' && "boolean"@[0] == 'b' && "array"@[0]
        == 'a');
}

} // verus!
