//! Documents as the index holds them.
//!
//! The index holds a document as a list of entries, each with the number of a field
//! and one value.  A field may have several entries.

use vstd::prelude::*;

use crate::index::fields::{named, numbers, FieldMap, FieldView};
use crate::json::Number;
use crate::model::document::{
    fields_view, lemma_array_view, value_views, Document, FieldValue, FieldValueView,
};
use crate::model::query::{Score, ScoredDocument};
use crate::table::{as_map, distinct_keys, lemma_position, Table};
use crate::text;

verus! {

/// The value of an entry.
#[derive(Debug)]
pub enum EntryValue {
    Text(String),
    Number(Number),
    Unsigned(u64),
}

/// An entry: one value of one field.
#[derive(Debug)]
pub struct Entry {
    pub field: u32,
    pub value: EntryValue,
}

/// The mathematical value of an [`EntryValue`].
#[verifier::ext_equal]
pub enum ValueView {
    Text(Seq<char>),
    Number(Number),
    Unsigned(u64),
}

/// The mathematical value of an [`Entry`].
#[verifier::ext_equal]
pub struct EntryView {
    pub field: u32,
    pub value: ValueView,
}

impl View for EntryValue {
    type V = ValueView;

    open spec fn view(&self) -> ValueView {
        match self {
            EntryValue::Text(s) => ValueView::Text(s@),
            EntryValue::Number(n) => ValueView::Number(*n),
            EntryValue::Unsigned(n) => ValueView::Unsigned(*n),
        }
    }
}

impl View for Entry {
    type V = EntryView;

    open spec fn view(&self) -> EntryView {
        EntryView { field: self.field, value: self.value@ }
    }
}

/// The values of a list of entries.
pub open spec fn entry_views(entries: Seq<Entry>) -> Seq<EntryView> {
    Seq::new(entries.len(), |i: int| entries[i]@)
}

fn push_entry(out: &mut Vec<Entry>, field: u32, value: EntryValue)
    ensures
        entry_views(final(out)@) == entry_views(old(out)@).push(
            (EntryView { field, value: value@ }),
        ),
{
    out.push(Entry { field, value });
    assert(entry_views(out@) =~= entry_views(old(out)@).push(
        (EntryView { field, value: value@ }),
    ));
}

// ---------------------------------------------------------------------------
// Writing
// ---------------------------------------------------------------------------

/// The texts among the items of an array.
pub open spec fn text_items(items: Seq<FieldValueView>) -> Seq<Seq<char>>
    decreases items.len(),
{
    if items.len() == 0 {
        Seq::empty()
    } else {
        match items.last() {
            FieldValueView::Text(t) => text_items(items.drop_last()).push(t),
            _ => text_items(items.drop_last()),
        }
    }
}

/// One entry for each text.
pub open spec fn text_entries(field: u32, texts: Seq<Seq<char>>) -> Seq<EntryView> {
    Seq::new(texts.len(), |i: int| EntryView { field, value: ValueView::Text(texts[i]) })
}

/// The entries of a value in the field `field`.  Of an array only the texts count.
pub open spec fn value_entries(field: u32, value: FieldValueView) -> Seq<EntryView> {
    match value {
        FieldValueView::Text(t) => seq![EntryView { field, value: ValueView::Text(t) }],
        FieldValueView::Number(n) => seq![EntryView { field, value: ValueView::Number(n) }],
        FieldValueView::Boolean(b) => seq![
            EntryView {
                field,
                value: ValueView::Unsigned(
                    if b {
                        1
                    } else {
                        0
                    },
                ),
            },
        ],
        FieldValueView::Array(items) => text_entries(field, text_items(items)),
    }
}

/// The entries of the document's own fields, in their order.  A field that the
/// schema does not know has none.
pub open spec fn user_entries(
    map: Map<Seq<char>, u32>,
    fields: Seq<(String, FieldValue)>,
) -> Seq<EntryView>
    decreases fields.len(),
{
    if fields.len() == 0 {
        Seq::empty()
    } else {
        let (name, value) = fields.last();
        let before = user_entries(map, fields.drop_last());
        if map.contains_key(name@) {
            before + value_entries(map[name@], value@)
        } else {
            before
        }
    }
}

/// The entries of the identifier and of the time.
pub open spec fn meta_entries(map: Map<Seq<char>, u32>, id: Seq<char>, timestamp: u64) -> Seq<
    EntryView,
> {
    (if map.contains_key("_id"@) {
        seq![EntryView { field: map["_id"@], value: ValueView::Text(id) }]
    } else {
        Seq::empty()
    }) + (if map.contains_key("_timestamp"@) {
        seq![EntryView { field: map["_timestamp"@], value: ValueView::Unsigned(timestamp) }]
    } else {
        Seq::empty()
    })
}

/// The entries of a document that was indexed at the time `timestamp`.
pub open spec fn document_entries(map: Map<Seq<char>, u32>, doc: Document, timestamp: u64) -> Seq<
    EntryView,
> {
    meta_entries(map, doc.id@, timestamp) + user_entries(map, doc.fields.entries())
}

/// What a value adds to the text of the whole document: its text, or the texts of an
/// array whose field the schema knows.
pub open spec fn value_parts(known: bool, value: FieldValueView) -> Seq<Seq<char>> {
    match value {
        FieldValueView::Text(t) => seq![t],
        FieldValueView::Array(items) => if known {
            text_items(items)
        } else {
            Seq::empty()
        },
        _ => Seq::empty(),
    }
}

/// The parts of the text of the whole document.
pub open spec fn body_parts(
    map: Map<Seq<char>, u32>,
    fields: Seq<(String, FieldValue)>,
) -> Seq<Seq<char>>
    decreases fields.len(),
{
    if fields.len() == 0 {
        Seq::empty()
    } else {
        let (name, value) = fields.last();
        body_parts(map, fields.drop_last()) + value_parts(map.contains_key(name@), value@)
    }
}

/// The entry of the text of the whole document, where it has any.
pub open spec fn body_entries(
    map: Map<Seq<char>, u32>,
    fields: Seq<(String, FieldValue)>,
) -> Seq<EntryView> {
    let parts = body_parts(map, fields);
    if parts.len() > 0 && map.contains_key("_body"@) {
        seq![
            EntryView { field: map["_body"@], value: ValueView::Text(text::joined(parts, " "@)) },
        ]
    } else {
        Seq::empty()
    }
}

/// The number of the field `name`.
pub fn number_of(map: &FieldMap, name: &str) -> (r: Option<u32>)
    ensures
        match r {
            Some(n) => map@.contains_key(name@) && n == map@[name@],
            None => !map@.contains_key(name@),
        },
{
    let key = name.to_owned();
    match map.get(&key) {
        Some(n) => Some(*n),
        None => None,
    }
}

fn add_meta_entries(out: &mut Vec<Entry>, map: &FieldMap, id: &str, timestamp: u64)
    requires
        old(out)@.len() == 0,
    ensures
        entry_views(final(out)@) == meta_entries(map@, id@, timestamp),
{
    assert(entry_views(out@) =~= Seq::<EntryView>::empty());
    if let Some(field) = number_of(map, "_id") {
        push_entry(out, field, EntryValue::Text(id.to_owned()));
    }
    if let Some(field) = number_of(map, "_timestamp") {
        push_entry(out, field, EntryValue::Unsigned(timestamp));
    }
    assert(entry_views(out@) =~= meta_entries(map@, id@, timestamp));
}

fn array_texts(items: &Vec<FieldValue>) -> (out: Vec<String>)
    ensures
        text::texts(out@) == text_items(value_views(items@)),
        text::texts(out@) == value_views(items@).filter(
            |v: FieldValueView| v is Text,
        ).map_values(|v: FieldValueView| v->Text_0),
{
    proof {
        every_text_of_an_array_counts(value_views(items@));
    }
    let mut out: Vec<String> = Vec::new();
    let ghost all = value_views(items@);
    assert(text::texts(out@) =~= text_items(all.take(0)));
    let mut i: usize = 0;
    while i < items.len()
        invariant
            i <= items@.len(),
            all == value_views(items@),
            text::texts(out@) == text_items(all.take(i as int)),
        decreases items@.len() - i,
    {
        proof {
            assert(all.take(i + 1).drop_last() =~= all.take(i as int));
            assert(all.take(i + 1).last() == items@[i as int]@);
        }
        if let FieldValue::Text(t) = &items[i] {
            let copy = t.clone();
            proof {
                text::lemma_texts_push(out@, copy);
            }
            out.push(copy);
        }
        i = i + 1;
    }
    assert(all.take(i as int) =~= all);
    out
}

fn add_texts(out: &mut Vec<Entry>, field: u32, texts: &Vec<String>)
    ensures
        entry_views(final(out)@) == entry_views(old(out)@) + text_entries(
            field,
            text::texts(texts@),
        ),
{
    let ghost all = text_entries(field, text::texts(texts@));
    assert(entry_views(out@) + all.take(0) =~= entry_views(out@));
    let mut i: usize = 0;
    while i < texts.len()
        invariant
            i <= texts@.len(),
            all == text_entries(field, text::texts(texts@)),
            entry_views(out@) == entry_views(old(out)@) + all.take(i as int),
        decreases texts@.len() - i,
    {
        push_entry(out, field, EntryValue::Text(texts[i].clone()));
        i = i + 1;
        assert(all.take(i as int) =~= all.take(i - 1).push(all[i - 1]));
    }
    assert(all.take(i as int) =~= all);
}

fn add_value(out: &mut Vec<Entry>, field: u32, value: &FieldValue)
    ensures
        entry_views(final(out)@) == entry_views(old(out)@) + value_entries(field, value@),
{
    match value {
        FieldValue::Text(t) => {
            push_entry(out, field, EntryValue::Text(t.clone()));
        },
        FieldValue::Number(n) => {
            push_entry(out, field, EntryValue::Number(*n));
        },
        FieldValue::Boolean(b) => {
            push_entry(
                out,
                field,
                EntryValue::Unsigned(
                    if *b {
                        1
                    } else {
                        0
                    },
                ),
            );
        },
        FieldValue::Array(items) => {
            proof {
                lemma_array_view(*items);
            }
            let texts = array_texts(items);
            add_texts(out, field, &texts);
        },
    }
    assert(entry_views(out@) =~= entry_views(old(out)@) + value_entries(field, value@));
}

/// The entries of a document that is indexed at the time `timestamp`.
pub fn to_tantivy_doc(map: &FieldMap, doc: &Document, timestamp: u64) -> (out: Vec<Entry>)
    ensures
        entry_views(out@) == document_entries(map@, *doc, timestamp),
{
    let mut out: Vec<Entry> = Vec::new();
    add_meta_entries(&mut out, map, doc.id.as_str(), timestamp);
    let ghost meta = entry_views(out@);
    let ghost fields = doc.fields.entries();
    let n: usize = doc.fields.len();
    let mut i: usize = 0;
    assert(entry_views(out@) =~= meta + user_entries(map@, fields.take(0)));
    while i < n
        invariant
            i <= n,
            n == fields.len(),
            fields == doc.fields.entries(),
            entry_views(out@) == meta + user_entries(map@, fields.take(i as int)),
        decreases n - i,
    {
        let (name, value) = doc.fields.entry(i);
        proof {
            assert(fields.take(i + 1).drop_last() =~= fields.take(i as int));
            assert(fields.take(i + 1).last() == fields[i as int]);
        }
        let ghost before = entry_views(out@);
        if let Some(field) = number_of(map, name.as_str()) {
            add_value(&mut out, field, value);
        }
        i = i + 1;
        assert(entry_views(out@) =~= meta + user_entries(map@, fields.take(i as int)));
    }
    assert(fields.take(n as int) =~= fields);
    out
}

fn add_parts(parts: &mut Vec<String>, known: bool, value: &FieldValue)
    ensures
        text::texts(final(parts)@) == text::texts(old(parts)@) + value_parts(known, value@),
{
    match value {
        FieldValue::Text(t) => {
            parts.push(t.clone());
        },
        FieldValue::Array(items) => {
            proof {
                lemma_array_view(*items);
            }
            if known {
                let mut texts = array_texts(items);
                parts.append(&mut texts);
            }
        },
        _ => {},
    }
    assert(text::texts(parts@) =~= text::texts(old(parts)@) + value_parts(known, value@));
}

fn whole_text(map: &FieldMap, doc: &Document) -> (parts: Vec<String>)
    ensures
        text::texts(parts@) == body_parts(map@, doc.fields.entries()),
{
    let mut parts: Vec<String> = Vec::new();
    let ghost fields = doc.fields.entries();
    let n: usize = doc.fields.len();
    let mut i: usize = 0;
    assert(text::texts(parts@) =~= body_parts(map@, fields.take(0)));
    while i < n
        invariant
            i <= n,
            n == fields.len(),
            fields == doc.fields.entries(),
            text::texts(parts@) == body_parts(map@, fields.take(i as int)),
        decreases n - i,
    {
        let (name, value) = doc.fields.entry(i);
        proof {
            assert(fields.take(i + 1).drop_last() =~= fields.take(i as int));
            assert(fields.take(i + 1).last() == fields[i as int]);
        }
        let known = map.contains_key(name);
        add_parts(&mut parts, known, value);
        i = i + 1;
    }
    assert(fields.take(n as int) =~= fields);
    parts
}

/// The entries of a document of a collection: the same, and at the end all of its
/// text in the field `_body`.
pub fn build_tantivy_doc(map: &FieldMap, doc: &Document, timestamp: u64) -> (out: Vec<Entry>)
    ensures
        entry_views(out@) == document_entries(map@, *doc, timestamp) + body_entries(
            map@,
            doc.fields.entries(),
        ),
{
    let mut out = to_tantivy_doc(map, doc, timestamp);
    let parts = whole_text(map, doc);
    let ghost before = entry_views(out@);
    if parts.len() > 0 {
        if let Some(field) = number_of(map, "_body") {
            push_entry(&mut out, field, EntryValue::Text(text::join(&parts, " ")));
        }
    }
    assert(entry_views(out@) =~= before + body_entries(map@, doc.fields.entries()));
    out
}

// ---------------------------------------------------------------------------
// Reading
// ---------------------------------------------------------------------------

/// The first value of the field `field`.
pub open spec fn first_value(entries: Seq<EntryView>, field: u32) -> Option<ValueView>
    decreases entries.len(),
{
    if entries.len() == 0 {
        None
    } else if entries[0].field == field {
        Some(entries[0].value)
    } else {
        first_value(entries.skip(1), field)
    }
}

/// The value that an entry's value stands for.
pub open spec fn read_value(value: ValueView) -> FieldValueView {
    match value {
        ValueView::Text(t) => FieldValueView::Text(t),
        ValueView::Number(n) => FieldValueView::Number(n),
        ValueView::Unsigned(n) => FieldValueView::Boolean(n != 0),
    }
}

/// The value of the document's own field `name`.  The schema's own fields, whose
/// names begin with `_`, are not part of the document, nor are the hidden ones.
pub open spec fn read_field(
    map: Map<Seq<char>, u32>,
    hidden: Seq<u32>,
    entries: Seq<EntryView>,
    name: Seq<char>,
) -> Option<FieldValueView> {
    if map.contains_key(name) && !text::begins_with(name, "_"@) && !hidden.contains(map[name]) {
        match first_value(entries, map[name]) {
            Some(v) => Some(read_value(v)),
            None => None,
        }
    } else {
        None
    }
}

/// The identifier of the document; empty where there is none.
pub open spec fn read_id(map: Map<Seq<char>, u32>, entries: Seq<EntryView>) -> Seq<char> {
    if map.contains_key("_id"@) {
        match first_value(entries, map["_id"@]) {
            Some(ValueView::Text(id)) => id,
            _ => Seq::empty(),
        }
    } else {
        Seq::empty()
    }
}

fn find_first(entries: &Vec<Entry>, field: u32) -> (r: Option<&EntryValue>)
    ensures
        match (r, first_value(entry_views(entries@), field)) {
            (Some(v), Some(view)) => v@ == view,
            (None, None) => true,
            _ => false,
        },
{
    let ghost all = entry_views(entries@);
    let mut i: usize = 0;
    assert(all.skip(0) =~= all);
    while i < entries.len()
        invariant
            i <= entries@.len(),
            all == entry_views(entries@),
            first_value(all, field) == first_value(all.skip(i as int), field),
        decreases entries@.len() - i,
    {
        if entries[i].field == field {
            return Some(&entries[i].value);
        }
        proof {
            assert(all.skip(i as int).skip(1) =~= all.skip(i + 1));
        }
        i = i + 1;
    }
    None
}

fn is_hidden(hidden: &Vec<u32>, field: u32) -> (r: bool)
    ensures
        r == hidden@.contains(field),
{
    let mut i: usize = 0;
    while i < hidden.len()
        invariant
            i <= hidden@.len(),
            forall|j: int| 0 <= j < i ==> hidden@[j] != field,
        decreases hidden@.len() - i,
    {
        if hidden[i] == field {
            return true;
        }
        i = i + 1;
    }
    false
}

/// The document that a list of entries stands for.
pub fn reconstruct_document(entries: &Vec<Entry>, map: &FieldMap, hidden: &Vec<u32>) -> (doc:
    Document)
    ensures
        is_read(doc, map@, hidden@, entry_views(entries@)),
{
    let id = match number_of(map, "_id") {
        Some(field) => match find_first(entries, field) {
            Some(EntryValue::Text(t)) => t.clone(),
            _ => String::new(),
        },
        None => String::new(),
    };
    assert(id@ =~= read_id(map@, entry_views(entries@)));
    let mut fields: Table<String, FieldValue> = Table::new();
    let ghost views = entry_views(entries@);
    let ghost known = map.entries();
    let n: usize = map.len();
    let mut i: usize = 0;
    while i < n
        invariant
            i <= n,
            n == known.len(),
            known == map.entries(),
            distinct_keys(known),
            views == entry_views(entries@),
            forall|name: Seq<char>| #[trigger]
                fields@.contains_key(name) ==> read_field(map@, hidden@, views, name) == Some(
                    fields@[name]@,
                ),
            forall|j: int|
                0 <= j < i ==> ((#[trigger] fields@.contains_key(known[j].0@)) <==> read_field(
                    map@,
                    hidden@,
                    views,
                    known[j].0@,
                ) is Some),
        decreases n - i,
    {
        let (name, field) = map.entry(i);
        proof {
            assert forall|j: int| 0 <= j < i implies known[j].0@ != known[i as int].0@ by {}
        }
        if !text::starts_with(name.as_str(), "_") && !is_hidden(hidden, *field) {
            let value = match find_first(entries, *field) {
                Some(EntryValue::Text(t)) => Some(FieldValue::Text(t.clone())),
                Some(EntryValue::Number(x)) => Some(FieldValue::Number(*x)),
                Some(EntryValue::Unsigned(x)) => Some(FieldValue::Boolean(*x != 0)),
                None => None,
            };
            if let Some(v) = value {
                assert(read_field(map@, hidden@, views, name@) == Some(v@));
                fields.insert(name.clone(), v);
            }
        }
        i = i + 1;
    }
    let doc = Document { id, fields };
    proof {
        assert forall|name: Seq<char>|
            match read_field(map@, hidden@, views, name) {
                Some(v) => (#[trigger] doc@.fields.contains_key(name)) && doc@.fields[name] == v,
                None => !doc@.fields.contains_key(name),
            } by {
            assert(doc@.fields.contains_key(name) == fields@.contains_key(name));
            if read_field(map@, hidden@, views, name) is Some {
                assert(as_map(known).contains_key(name));
                let j = choose|j: int| 0 <= j < known.len() && (#[trigger] known[j]).0@ == name;
                assert(fields@.contains_key(known[j].0@));
            }
        }
    }
    doc
}

/// The document is the one that the entries stand for.
pub open spec fn is_read(
    doc: Document,
    map: Map<Seq<char>, u32>,
    hidden: Seq<u32>,
    entries: Seq<EntryView>,
) -> bool {
    &&& doc.id@ == read_id(map, entries)
    &&& forall|name: Seq<char>|
        match read_field(map, hidden, entries, name) {
            Some(v) => (#[trigger] doc@.fields.contains_key(name)) && doc@.fields[name] == v,
            None => !doc@.fields.contains_key(name),
        }
}

/// A document that the index found, as it holds it.
#[derive(Debug)]
pub struct Hit {
    pub score: Score,
    pub entries: Vec<Entry>,
}

/// What the index found: the best documents, and how many there are in all.
#[derive(Debug)]
pub struct Found {
    pub hits: Vec<Hit>,
    /// The number of documents that match.
    pub total: u64,
}

/// The documents are those that the index found, in their order.
pub open spec fn are_read(
    docs: Seq<ScoredDocument>,
    map: Map<Seq<char>, u32>,
    hidden: Seq<u32>,
    hits: Seq<Hit>,
) -> bool {
    &&& docs.len() == hits.len()
    &&& forall|i: int|
        0 <= i < docs.len() ==> {
            &&& (#[trigger] docs[i]).score == hits[i].score
            &&& is_read(docs[i].document, map, hidden, entry_views(hits[i].entries@))
            &&& docs[i].sort@.len() == 0
        }
}

/// The documents that the index found.
pub fn read_hits(hits: &Vec<Hit>, map: &FieldMap, hidden: &Vec<u32>) -> (docs: Vec<ScoredDocument>)
    ensures
        are_read(docs@, map@, hidden@, hits@),
{
    let mut docs: Vec<ScoredDocument> = Vec::new();
    let mut i: usize = 0;
    while i < hits.len()
        invariant
            i <= hits@.len(),
            are_read(docs@, map@, hidden@, hits@.take(i as int)),
        decreases hits@.len() - i,
    {
        let document = reconstruct_document(&hits[i].entries, map, hidden);
        docs.push(ScoredDocument { document, score: hits[i].score, sort: Vec::new() });
        i = i + 1;
        assert(hits@.take(i as int) =~= hits@.take(i - 1).push(hits@[i - 1]));
    }
    assert(hits@.take(i as int) =~= hits@);
    docs
}

// ---------------------------------------------------------------------------
// Laws
// ---------------------------------------------------------------------------

proof fn lemma_first_of_sum(a: Seq<EntryView>, b: Seq<EntryView>, field: u32)
    ensures
        first_value(a + b, field) == match first_value(a, field) {
            Some(v) => Some(v),
            None => first_value(b, field),
        },
    decreases a.len(),
{
    if a.len() == 0 {
        assert(a + b =~= b);
    } else {
        assert((a + b).skip(1) =~= a.skip(1) + b);
        lemma_first_of_sum(a.skip(1), b, field);
    }
}

proof fn lemma_no_value(entries: Seq<EntryView>, field: u32)
    requires
        forall|i: int| 0 <= i < entries.len() ==> (#[trigger] entries[i]).field != field,
    ensures
        first_value(entries, field) is None,
    decreases entries.len(),
{
    if entries.len() > 0 {
        assert(entries[0].field != field);
        assert forall|i: int| 0 <= i < entries.skip(1).len() implies (#[trigger] entries.skip(
            1,
        )[i]).field != field by {
            assert(entries[i + 1].field != field);
        }
        lemma_no_value(entries.skip(1), field);
    }
}

proof fn lemma_numbers_differ(
    map: Map<Seq<char>, u32>,
    fields: Seq<FieldView>,
    a: Seq<char>,
    b: Seq<char>,
)
    requires
        numbers(map, fields),
        map.contains_key(a),
        map.contains_key(b),
        a != b,
    ensures
        map[a] != map[b],
{
    assert(named(fields, a) && named(fields, b));
    let i = choose|i: int| 0 <= i < fields.len() && (#[trigger] fields[i]).name == a;
    let j = choose|j: int| 0 <= j < fields.len() && (#[trigger] fields[j]).name == b;
    assert(map[fields[i].name] == i && map[fields[j].name] == j);
}

/// The value is one that the index holds as it is: a text, a number or a truth value.
pub open spec fn scalar(value: FieldValueView) -> bool {
    !(value is Array)
}

proof fn lemma_user_value(
    map: Map<Seq<char>, u32>,
    schema: Seq<FieldView>,
    fields: Seq<(String, FieldValue)>,
    k: int,
)
    requires
        numbers(map, schema),
        distinct_keys(fields),
        0 <= k < fields.len(),
        map.contains_key(fields[k].0@),
        scalar(fields[k].1@),
    ensures
        first_value(user_entries(map, fields), map[fields[k].0@]) matches Some(v) && read_value(v)
            == fields[k].1@,
    decreases fields.len(),
{
    let name = fields[k].0@;
    let field = map[name];
    let last = fields.last();
    let front = fields.drop_last();
    let before = user_entries(map, front);
    assert(distinct_keys(front)) by {
        assert forall|i: int, j: int|
            #![trigger front[i], front[j]]
            0 <= i < j < front.len() implies front[i].0@ != front[j].0@ by {
            assert(front[i] == fields[i] && front[j] == fields[j]);
        }
    }
    if k == fields.len() - 1 {
        lemma_no_user_value(map, schema, front, name);
        let own = value_entries(field, last.1@);
        lemma_first_of_sum(before, own, field);
        assert(own.len() == 1 && own[0].field == field);
    } else {
        assert(front[k] == fields[k]);
        lemma_user_value(map, schema, front, k);
        if map.contains_key(last.0@) {
            lemma_first_of_sum(before, value_entries(map[last.0@], last.1@), field);
        }
    }
}

proof fn lemma_no_user_value(
    map: Map<Seq<char>, u32>,
    schema: Seq<FieldView>,
    fields: Seq<(String, FieldValue)>,
    name: Seq<char>,
)
    requires
        numbers(map, schema),
        map.contains_key(name),
        forall|i: int| 0 <= i < fields.len() ==> (#[trigger] fields[i]).0@ != name,
    ensures
        first_value(user_entries(map, fields), map[name]) is None,
    decreases fields.len(),
{
    if fields.len() > 0 {
        let last = fields.last();
        let front = fields.drop_last();
        assert forall|i: int| 0 <= i < front.len() implies (#[trigger] front[i]).0@ != name by {
            assert(front[i] == fields[i]);
        }
        lemma_no_user_value(map, schema, front, name);
        if map.contains_key(last.0@) {
            assert(fields[fields.len() - 1].0@ != name);
            lemma_numbers_differ(map, schema, last.0@, name);
            let own = value_entries(map[last.0@], last.1@);
            assert forall|i: int| 0 <= i < own.len() implies (#[trigger] own[i]).field
                != map[name] by {}
            lemma_no_value(own, map[name]);
            lemma_first_of_sum(user_entries(map, front), own, map[name]);
        }
    }
}

/// What is written is what is read: the document of a document's entries has the
/// same identifier, and has every text, number and truth value of a field that the
/// schema knows, that is not one of the schema's own and that is not hidden.
pub proof fn written_document_reads_back(
    map: Map<Seq<char>, u32>,
    schema: Seq<FieldView>,
    doc: Document,
    timestamp: u64,
    rest: Seq<EntryView>,
    hidden: Seq<u32>,
    name: Seq<char>,
)
    requires
        numbers(map, schema),
        map.contains_key("_id"@),
        map.contains_key(name),
        !hidden.contains(map[name]),
        distinct_keys(doc.fields.entries()),
        doc@.fields.contains_key(name),
        scalar(doc@.fields[name]),
        !text::begins_with(name, "_"@),
    ensures
        read_id(map, document_entries(map, doc, timestamp) + rest) == doc.id@,
        read_field(map, hidden, document_entries(map, doc, timestamp) + rest, name) == Some(
            doc@.fields[name],
        ),
{
    reveal_strlit("_");
    reveal_strlit("_id");
    reveal_strlit("_timestamp");
    assert("_id"@.subrange(0, 1) =~= "_"@);
    assert("_timestamp"@.subrange(0, 1) =~= "_"@);
    let fields = doc.fields.entries();
    let meta = meta_entries(map, doc.id@, timestamp);
    let user = user_entries(map, fields);
    let whole = meta + user + rest;
    assert(meta[0] == (EntryView { field: map["_id"@], value: ValueView::Text(doc.id@) }));
    lemma_first_of_sum(meta + user, rest, map["_id"@]);
    lemma_first_of_sum(meta, user, map["_id"@]);
    let field = map[name];
    lemma_numbers_differ(map, schema, "_id"@, name);
    if map.contains_key("_timestamp"@) {
        lemma_numbers_differ(map, schema, "_timestamp"@, name);
    }
    assert forall|i: int| 0 <= i < meta.len() implies (#[trigger] meta[i]).field != field by {}
    lemma_no_value(meta, field);
    assert(as_map(fields).contains_key(name));
    let k = choose|k: int| 0 <= k < fields.len() && (#[trigger] fields[k]).0@ == name;
    lemma_position(fields, k);
    assert(fields_view(doc.fields@)[name] == fields[k].1@);
    lemma_user_value(map, schema, fields, k);
    lemma_first_of_sum(meta + user, rest, field);
    lemma_first_of_sum(meta, user, field);
}

/// What was not written is not read: a field that the document does not have is absent,
/// unless what stands behind the document's entries gives it a value.
pub proof fn absent_fields_stay_absent(
    map: Map<Seq<char>, u32>,
    schema: Seq<FieldView>,
    doc: Document,
    timestamp: u64,
    rest: Seq<EntryView>,
    hidden: Seq<u32>,
    name: Seq<char>,
)
    requires
        numbers(map, schema),
        !doc@.fields.contains_key(name),
        map.contains_key(name) ==> forall|i: int|
            0 <= i < rest.len() ==> (#[trigger] rest[i]).field != map[name],
    ensures
        read_field(map, hidden, document_entries(map, doc, timestamp) + rest, name) is None,
{
    if map.contains_key(name) && !text::begins_with(name, "_"@) {
        reveal_strlit("_");
        reveal_strlit("_id");
        reveal_strlit("_timestamp");
        assert("_id"@.subrange(0, 1) =~= "_"@);
        assert("_timestamp"@.subrange(0, 1) =~= "_"@);
        let fields = doc.fields.entries();
        let meta = meta_entries(map, doc.id@, timestamp);
        let user = user_entries(map, fields);
        let field = map[name];
        if map.contains_key("_id"@) {
            lemma_numbers_differ(map, schema, "_id"@, name);
        }
        if map.contains_key("_timestamp"@) {
            lemma_numbers_differ(map, schema, "_timestamp"@, name);
        }
        assert forall|i: int| 0 <= i < meta.len() implies (#[trigger] meta[i]).field != field by {}
        lemma_no_value(meta, field);
        assert forall|i: int| 0 <= i < fields.len() implies (#[trigger] fields[i]).0@ != name by {
            if fields[i].0@ == name {
                assert(as_map(fields).contains_key(name));
            }
        }
        lemma_no_user_value(map, schema, fields, name);
        lemma_no_value(rest, field);
        lemma_first_of_sum(meta + user, rest, field);
        lemma_first_of_sum(meta, user, field);
    }
}

/// A document all of whose fields are texts, numbers and truth values that the schema
/// knows and that are not hidden is read as it was written, with or without the text of
/// the whole document.
pub proof fn plain_document_reads_back(
    map: Map<Seq<char>, u32>,
    schema: Seq<FieldView>,
    doc: Document,
    timestamp: u64,
    with_body: bool,
    hidden: Seq<u32>,
    read: Document,
)
    requires
        numbers(map, schema),
        map.contains_key("_id"@),
        distinct_keys(doc.fields.entries()),
        forall|name: Seq<char>| #[trigger]
            doc@.fields.contains_key(name) ==> {
                &&& map.contains_key(name)
                &&& !hidden.contains(map[name])
                &&& scalar(doc@.fields[name])
                &&& !text::begins_with(name, "_"@)
            },
        is_read(
            read,
            map,
            hidden,
            document_entries(map, doc, timestamp) + if with_body {
                body_entries(map, doc.fields.entries())
            } else {
                Seq::empty()
            },
        ),
    ensures
        read.id@ == doc.id@,
        read@.fields == doc@.fields,
{
    let rest = if with_body {
        body_entries(map, doc.fields.entries())
    } else {
        Seq::empty()
    };
    let whole = document_entries(map, doc, timestamp) + rest;
    reveal_strlit("_id");
    let meta = meta_entries(map, doc.id@, timestamp);
    assert(meta[0] == (EntryView { field: map["_id"@], value: ValueView::Text(doc.id@) }));
    lemma_first_of_sum(meta + user_entries(map, doc.fields.entries()), rest, map["_id"@]);
    lemma_first_of_sum(meta, user_entries(map, doc.fields.entries()), map["_id"@]);
    assert(read_id(map, whole) == doc.id@);
    assert forall|name: Seq<char>| #[trigger]
        read@.fields.contains_key(name) == doc@.fields.contains_key(name) && (
        doc@.fields.contains_key(name) ==> read@.fields[name] == doc@.fields[name]) by {
        if doc@.fields.contains_key(name) {
            written_document_reads_back(map, schema, doc, timestamp, rest, hidden, name);
            assert(read_field(map, hidden, whole, name) == Some(doc@.fields[name]));
        } else if map.contains_key(name) && !text::begins_with(name, "_"@) {
            reveal_strlit("_");
            reveal_strlit("_body");
            assert("_body"@.subrange(0, 1) =~= "_"@);
            if map.contains_key("_body"@) {
                lemma_numbers_differ(map, schema, "_body"@, name);
            }
            absent_fields_stay_absent(map, schema, doc, timestamp, rest, hidden, name);
        }
        assert(match read_field(map, hidden, whole, name) {
            Some(v) => read@.fields.contains_key(name) && read@.fields[name] == v,
            None => !read@.fields.contains_key(name),
        });
    }
    assert(read@.fields =~= doc@.fields);
}

/// An entry shows the field and the value that it holds.
pub proof fn entries_show_what_they_hold(
    entries: Seq<Entry>,
    i: int,
    t: String,
    n: Number,
    u: u64,
)
    requires
        0 <= i < entries.len(),
    ensures
        entry_views(entries).len() == entries.len(),
        entry_views(entries)[i].field == entries[i].field,
        entry_views(entries)[i].value == entries[i].value@,
        EntryValue::Text(t)@ == ValueView::Text(t@),
        EntryValue::Number(n)@ == ValueView::Number(n),
        EntryValue::Unsigned(u)@ == ValueView::Unsigned(u),
{
}

/// Of the items of an array the texts count, all of them and in their order.
pub proof fn every_text_of_an_array_counts(items: Seq<FieldValueView>)
    ensures
        text_items(items) == items.filter(|v: FieldValueView| v is Text).map_values(
            |v: FieldValueView| v->Text_0,
        ),
    decreases items.len(),
{
    let texts = |v: FieldValueView| v is Text;
    let text = |v: FieldValueView| v->Text_0;
    reveal(Seq::filter);
    if items.len() > 0 {
        every_text_of_an_array_counts(items.drop_last());
        let front = items.drop_last().filter(texts);
        if items.last() is Text {
            assert(front.push(items.last()).map_values(text) =~= front.map_values(text).push(
                items.last()->Text_0,
            ));
        }
    } else {
        assert(items.filter(texts).map_values(text) =~= Seq::<Seq<char>>::empty());
    }
}

/// The entries that have to stand in the index for a value in a field: one for a text, a
/// number or a truth value, and for an array one for each of its texts.
pub open spec fn held_for(field: u32, value: FieldValueView) -> Seq<EntryView> {
    match value {
        FieldValueView::Array(items) => items.filter(|v: FieldValueView| v is Text).map_values(
            |v: FieldValueView| EntryView { field, value: ValueView::Text(v->Text_0) },
        ),
        _ => seq![
            EntryView {
                field,
                value: match value {
                    FieldValueView::Text(t) => ValueView::Text(t),
                    FieldValueView::Number(n) => ValueView::Number(n),
                    _ => ValueView::Unsigned(
                        if value == FieldValueView::Boolean(true) {
                            1
                        } else {
                            0
                        },
                    ),
                },
            },
        ],
    }
}

proof fn lemma_held(field: u32, value: FieldValueView)
    ensures
        value_entries(field, value) == held_for(field, value),
{
    if let FieldValueView::Array(items) = value {
        every_text_of_an_array_counts(items);
        assert(value_entries(field, value) =~= held_for(field, value));
    }
}

proof fn lemma_entries_of(entries: Seq<EntryView>, field: u32, own: bool)
    requires
        forall|i: int|
            0 <= i < entries.len() ==> ((#[trigger] entries[i]).field == field) == own,
    ensures
        entries.filter(|e: EntryView| e.field == field) == if own {
            entries
        } else {
            Seq::empty()
        },
    decreases entries.len(),
{
    reveal(Seq::filter);
    if entries.len() > 0 {
        assert((entries[entries.len() - 1].field == field) == own);
        lemma_entries_of(entries.drop_last(), field, own);
        assert(entries =~= entries.drop_last().push(entries.last()));
    }
}

proof fn lemma_user_entries_of(
    map: Map<Seq<char>, u32>,
    schema: Seq<FieldView>,
    fields: Seq<(String, FieldValue)>,
    name: Seq<char>,
    k: int,
)
    requires
        numbers(map, schema),
        map.contains_key(name),
        0 <= k <= fields.len(),
        forall|i: int| 0 <= i < fields.len() && i != k ==> (#[trigger] fields[i]).0@ != name,
        k < fields.len() ==> fields[k].0@ == name,
    ensures
        user_entries(map, fields).filter(|e: EntryView| e.field == map[name]) == if k
            < fields.len() {
            held_for(map[name], fields[k].1@)
        } else {
            Seq::empty()
        },
    decreases fields.len(),
{
    let field = map[name];
    let own = |e: EntryView| e.field == field;
    if fields.len() > 0 {
        let front = fields.drop_last();
        let last = fields.last();
        let n = front.len() as int;
        assert forall|i: int| 0 <= i < front.len() && i != k implies (#[trigger] front[i]).0@
            != name by {
            assert(front[i] == fields[i]);
        }
        let before = user_entries(map, front);
        if k < n {
            assert(front[k] == fields[k]);
            lemma_user_entries_of(map, schema, front, name, k);
        } else {
            lemma_user_entries_of(map, schema, front, name, n);
        }
        assert(fields[n] == last);
        if map.contains_key(last.0@) {
            let more = value_entries(map[last.0@], last.1@);
            Seq::filter_distributes_over_add(before, more, own);
            lemma_held(map[last.0@], last.1@);
            if k == n {
                lemma_entries_of(more, field, true);
                assert(user_entries(map, fields).filter(own) =~= more);
            } else {
                lemma_numbers_differ(map, schema, last.0@, name);
                lemma_entries_of(more, field, false);
                assert(before.filter(own) + Seq::<EntryView>::empty() =~= before.filter(own));
            }
        }
    } else {
        lemma_entries_of(Seq::empty(), field, false);
    }
}

/// A field of a document that the schema knows has in the index the entries that its value
/// asks for, in their order, and no others.
pub proof fn each_field_has_its_entries(
    map: Map<Seq<char>, u32>,
    schema: Seq<FieldView>,
    doc: Document,
    timestamp: u64,
    name: Seq<char>,
)
    requires
        numbers(map, schema),
        map.contains_key(name),
        name != "_id"@,
        name != "_timestamp"@,
        distinct_keys(doc.fields.entries()),
    ensures
        document_entries(map, doc, timestamp).filter(|e: EntryView| e.field == map[name])
            == if doc@.fields.contains_key(name) {
            held_for(map[name], doc@.fields[name])
        } else {
            Seq::empty()
        },
{
    let field = map[name];
    let own = |e: EntryView| e.field == field;
    let fields = doc.fields.entries();
    let meta = meta_entries(map, doc.id@, timestamp);
    if map.contains_key("_id"@) {
        lemma_numbers_differ(map, schema, "_id"@, name);
    }
    if map.contains_key("_timestamp"@) {
        lemma_numbers_differ(map, schema, "_timestamp"@, name);
    }
    lemma_entries_of(meta, field, false);
    Seq::filter_distributes_over_add(meta, user_entries(map, fields), own);
    if doc@.fields.contains_key(name) {
        assert(as_map(fields).contains_key(name));
        let k = choose|k: int| 0 <= k < fields.len() && (#[trigger] fields[k]).0@ == name;
        lemma_position(fields, k);
        assert(fields_view(doc.fields@)[name] == fields[k].1@);
        assert forall|i: int| 0 <= i < fields.len() && i != k implies (#[trigger] fields[i]).0@
            != name by {
            if i < k {
                assert(fields[i].0@ != fields[k].0@);
            } else {
                assert(fields[k].0@ != fields[i].0@);
            }
        }
        lemma_user_entries_of(map, schema, fields, name, k);
    } else {
        assert forall|i: int| 0 <= i < fields.len() implies (#[trigger] fields[i]).0@ != name by {
            if fields[i].0@ == name {
                assert(as_map(fields).contains_key(name));
            }
        }
        lemma_user_entries_of(map, schema, fields, name, fields.len() as int);
    }
    assert(document_entries(map, doc, timestamp).filter(own) =~= user_entries(
        map,
        fields,
    ).filter(own));
}

proof fn lemma_kept<A>(s: Seq<A>, p: spec_fn(A) -> bool, j: int)
    requires
        0 <= j < s.filter(p).len(),
    ensures
        s.contains(s.filter(p)[j]),
        p(s.filter(p)[j]),
    decreases s.len(),
{
    reveal(Seq::filter);
    if s.len() > 0 {
        let front = s.drop_last();
        if j < front.filter(p).len() {
            lemma_kept(front, p, j);
            let i = choose|i: int| 0 <= i < front.len() && front[i] == front.filter(p)[j];
            assert(s[i] == front[i]);
        } else {
            assert(s[s.len() - 1] == s.last());
        }
    }
}

/// Every text of an array in a field that the schema knows has an entry of its own.
pub proof fn every_text_of_an_array_is_indexed(
    map: Map<Seq<char>, u32>,
    schema: Seq<FieldView>,
    doc: Document,
    timestamp: u64,
    name: Seq<char>,
    items: Seq<FieldValueView>,
    k: int,
)
    requires
        numbers(map, schema),
        map.contains_key(name),
        name != "_id"@,
        name != "_timestamp"@,
        distinct_keys(doc.fields.entries()),
        doc@.fields.contains_key(name),
        doc@.fields[name] == FieldValueView::Array(items),
        0 <= k < items.len(),
        items[k] is Text,
    ensures
        document_entries(map, doc, timestamp).contains(
            (EntryView { field: map[name], value: ValueView::Text(items[k]->Text_0) }),
        ),
{
    let field = map[name];
    let own = |e: EntryView| e.field == field;
    let texts = |v: FieldValueView| v is Text;
    let entry = |v: FieldValueView| EntryView { field, value: ValueView::Text(v->Text_0) };
    let all = document_entries(map, doc, timestamp);
    each_field_has_its_entries(map, schema, doc, timestamp, name);
    broadcast use vstd::seq_lib::group_filter_ensures;
    assert(items.contains(items[k]));
    assert(items.filter(texts).contains(items[k]));
    let j = choose|j: int|
        0 <= j < items.filter(texts).len() && items.filter(texts)[j] == items[k];
    assert(held_for(field, doc@.fields[name])[j] == entry(items[k]));
    broadcast use vstd::seq_lib::group_filter_ensures;
    assert(all.filter(own)[j] == entry(items[k]));
    lemma_kept(all, own, j);
}

/// The identifier and the time of a document have one entry each, where the schema knows
/// their fields and the document has none of these names.
pub proof fn identifier_and_time_are_indexed(
    map: Map<Seq<char>, u32>,
    schema: Seq<FieldView>,
    doc: Document,
    timestamp: u64,
)
    requires
        numbers(map, schema),
        !doc@.fields.contains_key("_id"@),
        !doc@.fields.contains_key("_timestamp"@),
    ensures
        map.contains_key("_id"@) ==> document_entries(map, doc, timestamp).filter(
            |e: EntryView| e.field == map["_id"@],
        ) == seq![EntryView { field: map["_id"@], value: ValueView::Text(doc.id@) }],
        map.contains_key("_timestamp"@) ==> document_entries(map, doc, timestamp).filter(
            |e: EntryView| e.field == map["_timestamp"@],
        ) == seq![
            EntryView { field: map["_timestamp"@], value: ValueView::Unsigned(timestamp) },
        ],
{
    reveal_strlit("_id");
    reveal_strlit("_timestamp");
    assert("_id"@.len() != "_timestamp"@.len());
    let fields = doc.fields.entries();
    let user = user_entries(map, fields);
    let first = if map.contains_key("_id"@) {
        seq![EntryView { field: map["_id"@], value: ValueView::Text(doc.id@) }]
    } else {
        Seq::empty()
    };
    let second = if map.contains_key("_timestamp"@) {
        seq![EntryView { field: map["_timestamp"@], value: ValueView::Unsigned(timestamp) }]
    } else {
        Seq::empty()
    };
    if map.contains_key("_id"@) && map.contains_key("_timestamp"@) {
        lemma_numbers_differ(map, schema, "_id"@, "_timestamp"@);
    }
    if map.contains_key("_id"@) {
        let own = |e: EntryView| e.field == map["_id"@];
        assert forall|i: int| 0 <= i < fields.len() implies (#[trigger] fields[i]).0@
            != "_id"@ by {
            if fields[i].0@ == "_id"@ {
                assert(as_map(fields).contains_key("_id"@));
            }
        }
        lemma_user_entries_of(map, schema, fields, "_id"@, fields.len() as int);
        lemma_entries_of(first, map["_id"@], true);
        lemma_entries_of(second, map["_id"@], false);
        Seq::filter_distributes_over_add(first, second, own);
        Seq::filter_distributes_over_add(first + second, user, own);
        assert(document_entries(map, doc, timestamp).filter(own) =~= first);
    }
    if map.contains_key("_timestamp"@) {
        let own = |e: EntryView| e.field == map["_timestamp"@];
        assert forall|i: int| 0 <= i < fields.len() implies (#[trigger] fields[i]).0@
            != "_timestamp"@ by {
            if fields[i].0@ == "_timestamp"@ {
                assert(as_map(fields).contains_key("_timestamp"@));
            }
        }
        lemma_user_entries_of(map, schema, fields, "_timestamp"@, fields.len() as int);
        lemma_entries_of(first, map["_timestamp"@], false);
        lemma_entries_of(second, map["_timestamp"@], true);
        Seq::filter_distributes_over_add(first, second, own);
        Seq::filter_distributes_over_add(first + second, user, own);
        assert(document_entries(map, doc, timestamp).filter(own) =~= second);
    }
}

/// The text of the whole document takes its parts from the fields in their order.
pub proof fn parts_follow_the_fields(
    map: Map<Seq<char>, u32>,
    a: Seq<(String, FieldValue)>,
    b: Seq<(String, FieldValue)>,
)
    ensures
        body_parts(map, a + b) == body_parts(map, a) + body_parts(map, b),
    decreases b.len(),
{
    if b.len() == 0 {
        assert(a + b =~= a);
        assert(body_parts(map, a) + body_parts(map, b) =~= body_parts(map, a));
    } else {
        assert((a + b).drop_last() =~= a + b.drop_last());
        assert((a + b).last() == b.last());
        parts_follow_the_fields(map, a, b.drop_last());
        assert(body_parts(map, a + b) =~= body_parts(map, a) + body_parts(map, b));
    }
}

/// What one field adds to the text of the whole document: its text, or the texts of its
/// array where the schema knows the field, all of them and in their order.
pub proof fn one_field_adds_its_texts(map: Map<Seq<char>, u32>, field: (String, FieldValue))
    ensures
        field.1@ matches FieldValueView::Text(t) ==> body_parts(map, seq![field]) == seq![t],
        field.1@ matches FieldValueView::Array(items) ==> body_parts(map, seq![field])
            == if map.contains_key(field.0@) {
            items.filter(|v: FieldValueView| v is Text).map_values(
                |v: FieldValueView| v->Text_0,
            )
        } else {
            Seq::empty()
        },
        field.1@ is Number || field.1@ is Boolean ==> body_parts(map, seq![field]).len() == 0,
{
    let none = Seq::<(String, FieldValue)>::empty();
    assert(seq![field].drop_last() =~= none);
    assert(body_parts(map, none) =~= Seq::<Seq<char>>::empty());
    assert(body_parts(map, seq![field]) =~= value_parts(map.contains_key(field.0@), field.1@));
    if let FieldValueView::Array(items) = field.1@ {
        every_text_of_an_array_counts(items);
    }
}

/// A text field, or an array in a field that the schema knows, holds the text `t`.
pub open spec fn holds_text(
    map: Map<Seq<char>, u32>,
    field: (String, FieldValue),
    t: Seq<char>,
) -> bool {
    match field.1@ {
        FieldValueView::Text(s) => s == t,
        FieldValueView::Array(items) => map.contains_key(field.0@) && items.contains(
            FieldValueView::Text(t),
        ),
        _ => false,
    }
}

proof fn lemma_one_holds(map: Map<Seq<char>, u32>, field: (String, FieldValue), t: Seq<char>)
    ensures
        body_parts(map, seq![field]).contains(t) <==> holds_text(map, field, t),
{
    let parts = body_parts(map, seq![field]);
    one_field_adds_its_texts(map, field);
    match field.1@ {
        FieldValueView::Text(s) => {
            assert(parts[0] == s);
        },
        FieldValueView::Array(items) => {
            let texts = |v: FieldValueView| v is Text;
            let kept = items.filter(texts);
            broadcast use vstd::seq_lib::group_filter_ensures;
            if map.contains_key(field.0@) {
                if parts.contains(t) {
                    let k = choose|k: int| 0 <= k < parts.len() && parts[k] == t;
                    assert(texts(kept[k]));
                    lemma_kept(items, texts, k);
                    assert(kept[k] == FieldValueView::Text(t));
                }
                if items.contains(FieldValueView::Text(t)) {
                    let v = FieldValueView::Text(t);
                    let n = choose|n: int| 0 <= n < items.len() && items[n] == v;
                    assert(texts(items[n]));
                    assert(kept.contains(items[n]));
                    let k = choose|k: int| 0 <= k < kept.len() && kept[k] == v;
                    assert(parts[k] == t);
                }
            }
        },
        _ => {},
    }
}

/// A text is a part of the text of the whole document exactly where a field holds it.
pub proof fn parts_are_the_texts_of_the_fields(
    map: Map<Seq<char>, u32>,
    fields: Seq<(String, FieldValue)>,
    t: Seq<char>,
)
    ensures
        body_parts(map, fields).contains(t) <==> exists|i: int|
            0 <= i < fields.len() && holds_text(map, #[trigger] fields[i], t),
    decreases fields.len(),
{
    if fields.len() > 0 {
        let front = fields.drop_last();
        let last = fields.last();
        let n = front.len() as int;
        assert(fields =~= front + seq![last]);
        parts_follow_the_fields(map, front, seq![last]);
        parts_are_the_texts_of_the_fields(map, front, t);
        lemma_one_holds(map, last, t);
        let a = body_parts(map, front);
        let b = body_parts(map, seq![last]);
        let all = body_parts(map, fields);
        assert(all == a + b);
        if all.contains(t) {
            let k = choose|k: int| 0 <= k < all.len() && all[k] == t;
            if k < a.len() {
                assert(a[k] == t);
                let i = choose|i: int|
                    0 <= i < front.len() && holds_text(map, #[trigger] front[i], t);
                assert(fields[i] == front[i]);
            } else {
                assert(b[k - a.len()] == t);
                assert(fields[n] == last);
            }
        }
        if exists|i: int| 0 <= i < fields.len() && holds_text(map, #[trigger] fields[i], t) {
            let i = choose|i: int|
                0 <= i < fields.len() && holds_text(map, #[trigger] fields[i], t);
            if i < n {
                assert(front[i] == fields[i]);
                let k = choose|k: int| 0 <= k < a.len() && a[k] == t;
                assert(all[k] == t);
            } else {
                let k = choose|k: int| 0 <= k < b.len() && b[k] == t;
                assert(all[a.len() + k] == t);
            }
        }
    }
}

/// Every text of a document can be found in its whole text, which has an entry of its own
/// where the schema knows the field of the whole text.
pub proof fn the_whole_text_holds_every_text(
    map: Map<Seq<char>, u32>,
    fields: Seq<(String, FieldValue)>,
    i: int,
    t: Seq<char>,
)
    requires
        map.contains_key("_body"@),
        0 <= i < fields.len(),
        holds_text(map, fields[i], t),
    ensures
        body_entries(map, fields).len() == 1,
        body_entries(map, fields)[0].field == map["_body"@],
        body_entries(map, fields)[0].value matches ValueView::Text(whole) && text::occurs(whole, t),
{
    parts_are_the_texts_of_the_fields(map, fields, t);
    let parts = body_parts(map, fields);
    let k = choose|k: int| 0 <= k < parts.len() && parts[k] == t;
    text::joined_strings_occur(parts, " "@, k);
}

/// A document without texts has no whole text, and neither has one whose schema has no
/// field for it.
pub proof fn no_texts_make_no_whole_text(
    map: Map<Seq<char>, u32>,
    fields: Seq<(String, FieldValue)>,
)
    requires
        !map.contains_key("_body"@) || forall|i: int, t: Seq<char>|
            0 <= i < fields.len() ==> !#[trigger] holds_text(map, fields[i], t),
    ensures
        body_entries(map, fields).len() == 0,
{
    let parts = body_parts(map, fields);
    if parts.len() > 0 {
        parts_are_the_texts_of_the_fields(map, fields, parts[0]);
        assert(parts.contains(parts[0]));
    }
}

/// The value of a field is that of its first entry.
pub proof fn the_first_entry_counts(entries: Seq<EntryView>, field: u32, k: int)
    requires
        0 <= k <= entries.len(),
        forall|i: int| 0 <= i < k ==> (#[trigger] entries[i]).field != field,
        k < entries.len() ==> entries[k].field == field,
    ensures
        first_value(entries, field) == if k < entries.len() {
            Some(entries[k].value)
        } else {
            None
        },
    decreases entries.len(),
{
    if k > 0 {
        assert(entries[0].field != field);
        let rest = entries.skip(1);
        assert forall|i: int| 0 <= i < k - 1 implies (#[trigger] rest[i]).field != field by {
            assert(rest[i] == entries[i + 1]);
        }
        the_first_entry_counts(rest, field, k - 1);
    }
}

/// Texts and numbers are read as they are held, and a truth value is true where it is held
/// as anything but zero.  Fields of the schema's own and hidden fields are not read.
pub proof fn values_are_read_as_they_are_held(
    map: Map<Seq<char>, u32>,
    hidden: Seq<u32>,
    entries: Seq<EntryView>,
    name: Seq<char>,
)
    requires
        map.contains_key(name),
    ensures
        ({
            let read = read_field(map, hidden, entries, name);
            let seen = !(name.len() > 0 && name[0] == '_') && !hidden.contains(map[name]);
            &&& !seen ==> read is None
            &&& seen ==> match first_value(entries, map[name]) {
                Some(ValueView::Text(t)) => read == Some(FieldValueView::Text(t)),
                Some(ValueView::Number(n)) => read == Some(FieldValueView::Number(n)),
                Some(ValueView::Unsigned(n)) => read == Some(
                    FieldValueView::Boolean(n > 0),
                ),
                None => read is None,
            }
        }),
{
    reveal_strlit("_");
    if name.len() > 0 {
        if name[0] == '_' {
            assert(name.subrange(0, 1) =~= "_"@);
        } else {
            assert(name.subrange(0, 1)[0] != "_"@[0]);
        }
    }
}

/// The documents that are read are those that were found, one for each and in their order,
/// with their scores, identifiers and fields.
pub proof fn hits_are_read_one_by_one(
    docs: Seq<ScoredDocument>,
    map: Map<Seq<char>, u32>,
    hidden: Seq<u32>,
    hits: Seq<Hit>,
    i: int,
    name: Seq<char>,
)
    requires
        are_read(docs, map, hidden, hits),
        0 <= i < hits.len(),
    ensures
        docs.len() == hits.len(),
        docs[i].score == hits[i].score,
        docs[i].document.id@ == read_id(map, entry_views(hits[i].entries@)),
        docs[i].document@.fields.contains_key(name) <==> read_field(
            map,
            hidden,
            entry_views(hits[i].entries@),
            name,
        ) is Some,
        docs[i].document@.fields.contains_key(name) ==> docs[i].document@.fields[name]
            == read_field(map, hidden, entry_views(hits[i].entries@), name)->0,
{
    let doc = docs[i].document;
    assert(is_read(doc, map, hidden, entry_views(hits[i].entries@)));
    assert(doc@.fields.contains_key(name) || !doc@.fields.contains_key(name));
}

} // verus!
