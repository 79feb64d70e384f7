//! Documents and their field values.

use vstd::prelude::*;

use crate::json::Number;
use crate::table::Table;

verus! {

/// The value of one document field.
#[derive(Debug, PartialEq)]
pub enum FieldValue {
    Text(String),
    Number(Number),
    Boolean(bool),
    Array(Vec<FieldValue>),
}

/// The mathematical value of a [`FieldValue`].
#[verifier::ext_equal]
pub enum FieldValueView {
    Text(Seq<char>),
    Number(Number),
    Boolean(bool),
    Array(Seq<FieldValueView>),
}

impl View for FieldValue {
    type V = FieldValueView;

    open spec fn view(&self) -> FieldValueView
        decreases self,
    {
        match self {
            FieldValue::Text(s) => FieldValueView::Text(s@),
            FieldValue::Number(n) => FieldValueView::Number(*n),
            FieldValue::Boolean(b) => FieldValueView::Boolean(*b),
            FieldValue::Array(items) => FieldValueView::Array(
                Seq::new(
                    items@.len(),
                    |i: int|
                        if 0 <= i < items@.len() {
                            items@[i].view()
                        } else {
                            FieldValueView::Boolean(false)
                        },
                ),
            ),
        }
    }
}

/// The values of a list of field values.
pub open spec fn value_views(items: Seq<FieldValue>) -> Seq<FieldValueView> {
    Seq::new(items.len(), |i: int| items[i]@)
}

pub proof fn lemma_value_views_push(items: Seq<FieldValue>, item: FieldValue)
    ensures
        value_views(items.push(item)) == value_views(items).push(item@),
{
    assert(value_views(items.push(item)) =~= value_views(items).push(item@));
}

/// An array's value is the list of its items' values.
pub proof fn lemma_array_view(items: Vec<FieldValue>)
    ensures
        FieldValue::Array(items)@ == FieldValueView::Array(value_views(items@)),
{
    reveal_with_fuel(<FieldValue as View>::view, 2);
    let v = FieldValue::Array(items)@;
    assert(v is Array);
    assert(v->Array_0 =~= value_views(items@));
}

impl Clone for FieldValue {
    fn clone(&self) -> (r: Self)
        ensures
            r@ == self@,
        decreases self,
    {
        match self {
            FieldValue::Text(s) => FieldValue::Text(s.clone()),
            FieldValue::Number(n) => FieldValue::Number(*n),
            FieldValue::Boolean(b) => FieldValue::Boolean(*b),
            FieldValue::Array(items) => {
                let mut out: Vec<FieldValue> = Vec::new();
                let mut i: usize = 0;
                while i < items.len()
                    invariant
                        i <= items@.len(),
                        value_views(out@) == value_views(items@).take(i as int),
                        self matches FieldValue::Array(a) && a == items,
                    decreases items@.len() - i,
                {
                    let item = (&items[i]).clone();
                    proof {
                        lemma_value_views_push(out@, item);
                        assert(value_views(items@).take(i as int).push(items@[i as int]@)
                            =~= value_views(items@).take(i + 1));
                    }
                    out.push(item);
                    i = i + 1;
                }
                proof {
                    assert(value_views(items@).take(i as int) =~= value_views(items@));
                    lemma_array_view(out);
                    lemma_array_view(*items);
                }
                FieldValue::Array(out)
            },
        }
    }
}

/// A document: an id and named field values.
pub struct Document {
    pub id: String,
    pub fields: Table<String, FieldValue>,
}

/// The mathematical value of a [`Document`].
#[verifier::ext_equal]
pub struct DocumentView {
    pub id: Seq<char>,
    pub fields: Map<Seq<char>, FieldValueView>,
}

/// The values of named fields.
pub open spec fn fields_view(fields: Map<Seq<char>, FieldValue>) -> Map<
    Seq<char>,
    FieldValueView,
> {
    fields.map_values(|v: FieldValue| v@)
}

impl View for Document {
    type V = DocumentView;

    open spec fn view(&self) -> DocumentView {
        DocumentView { id: self.id@, fields: fields_view(self.fields@) }
    }
}

impl Document {
    /// A document without fields.
    pub fn new(id: &str) -> (d: Document)
        ensures
            d@.id == id@,
            d@.fields == Map::<Seq<char>, FieldValueView>::empty(),
            d.fields.entries().len() == 0,
    {
        let d = Document { id: id.to_owned(), fields: Table::new() };
        assert(d@.fields =~= Map::<Seq<char>, FieldValueView>::empty());
        d
    }

    /// Put `value` into the field `name`; an earlier value is replaced.
    pub fn set_field(&mut self, name: String, value: FieldValue)
        ensures
            final(self)@ == (DocumentView {
                fields: old(self)@.fields.insert(name@, value@),
                ..old(self)@
            }),
            final(self).id == old(self).id,
            final(self).fields@ == old(self).fields@.insert(name@, value),
            !old(self).fields@.contains_key(name@) ==> final(self).fields.entries() == old(
                self,
            ).fields.entries().push((name, value)),
    {
        self.fields.insert(name, value);
        assert(self@.fields =~= old(self)@.fields.insert(name@, value@));
    }

    /// The document with `value` in the field `name`.
    pub fn with_field(self, name: &str, value: FieldValue) -> (d: Document)
        ensures
            d@ == (DocumentView { fields: self@.fields.insert(name@, value@), ..self@ }),
    {
        let mut d = self;
        d.set_field(name.to_owned(), value);
        d
    }

    /// The value of the field `name`.
    pub fn get_field(&self, name: &str) -> (r: Option<&FieldValue>)
        ensures
            match r {
                Some(v) => self@.fields.contains_key(name@) && v@ == self@.fields[name@],
                None => !self@.fields.contains_key(name@),
            },
    {
        let key = name.to_owned();
        self.fields.get(&key)
    }
}

impl Clone for Document {
    fn clone(&self) -> (r: Self)
        ensures
            r@ == self@,
    {
        let mut out = Document::new(self.id.as_str());
        let n: usize = self.fields.len();
        let mut i: usize = 0;
        while i < n
            invariant
                n == self.fields.entries().len(),
                i <= n,
                out@.id == self@.id,
                forall|k: Seq<char>| #[trigger]
                    out@.fields.contains_key(k) <==> (exists|j: int|
                        0 <= j < i && (#[trigger] self.fields.entries()[j]).0@ == k),
                forall|k: Seq<char>| #[trigger]
                    out@.fields.contains_key(k) ==> self@.fields.contains_key(k)
                        && out@.fields[k] == self@.fields[k],
            decreases n - i,
        {
            let (name, value) = self.fields.entry(i);
            let ghost before = out@;
            out.set_field(name.clone(), value.clone());
            assert(self@.fields[name@] == value@);
            assert forall|k: Seq<char>| #[trigger] out@.fields.contains_key(k) <==> (exists|j: int|
                0 <= j < i + 1 && (#[trigger] self.fields.entries()[j]).0@ == k) by {
                if out@.fields.contains_key(k) {
                    if k == name@ {
                        assert(self.fields.entries()[i as int].0@ == k);
                    } else {
                        assert(before.fields.contains_key(k));
                        let j = choose|j: int|
                            0 <= j < i && (#[trigger] self.fields.entries()[j]).0@ == k;
                        assert(self.fields.entries()[j].0@ == k);
                    }
                }
                if exists|j: int| 0 <= j < i + 1 && (#[trigger] self.fields.entries()[j]).0@ == k {
                    let j = choose|j: int|
                        0 <= j < i + 1 && (#[trigger] self.fields.entries()[j]).0@ == k;
                    if j < i {
                        assert(before.fields.contains_key(k));
                    }
                }
            }
            i = i + 1;
        }
        assert(out@.fields =~= self@.fields);
        out
    }
}

// ---------------------------------------------------------------------------
// Laws
// ---------------------------------------------------------------------------

/// A value shows what it holds, and a document its identifier and the values of its fields.
pub proof fn documents_show_what_they_hold(
    doc: Document,
    name: Seq<char>,
    t: String,
    n: Number,
    b: bool,
    items: Seq<FieldValue>,
    i: int,
)
    ensures
        doc@.id == doc.id@,
        doc@.fields.contains_key(name) <==> doc.fields@.contains_key(name),
        doc@.fields.contains_key(name) ==> doc@.fields[name] == doc.fields@[name]@,
        FieldValue::Text(t)@ == FieldValueView::Text(t@),
        FieldValue::Number(n)@ == FieldValueView::Number(n),
        FieldValue::Boolean(b)@ == FieldValueView::Boolean(b),
        value_views(items).len() == items.len(),
        0 <= i < items.len() ==> value_views(items)[i] == items[i]@,
{
}

} // verus!
