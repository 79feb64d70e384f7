//! The indexes of all collections.
//!
//! Each collection has an index of its own, whose schema grows with the documents: a
//! field that a document brings is added under the type of its value, and a value of
//! another type in a known field is refused.

use std::sync::Arc;

use tantivy::schema::Schema;
use vstd::prelude::*;

use crate::clock::elapsed_since;
use crate::index::entries::{
    are_read, body_entries, build_tantivy_doc, document_entries, each_field_has_its_entries,
    entry_views, held_for, number_of, read_hits, read_id, Entry, EntryView, Found,
};
use crate::index::fields::{
    fast_numeric, has_room, named, numbers, numbers_are_places, schema_fields, text_shape, valid_name, FieldMap,
    FieldView, Fields, ShapeView,
};
use crate::index::queries::{plan_of, translate_query, Plan, PlanView};
use crate::index::schema_builder::{
    add_meta_fields, body_field, lemma_body_is_free, meta_fields,
};
use crate::model::arrangement::{
    fill_sort_values, filled, filling_changes_nothing_else, select, selected, shown_results_were_found,
};
use crate::model::document::{Document, FieldValue};
use crate::model::error::DbError;
use crate::model::mapping::{
    field_value_to_mapped_type, mapped_type_of, FieldMapping, MappedFieldType,
};
use crate::model::query::{
    AggregationResult, Aggregations, Operator, Query, QueryView, ScoredDocument, SearchOptions,
    SearchResult,
};
use crate::table::{as_map, distinct_keys, lemma_position, Table};
use crate::text;

verus! {

/// How much memory, in bytes, the writer of an index may use.
pub const WRITER_HEAP_BYTES: usize = 52428800;

/// How many documents a search gives where it is not told.
pub const DEFAULT_SEARCH_LIMIT: usize = 10;

/// How many blocks of stored documents the reader of an index keeps.
pub const DOC_STORE_CACHE_BLOCKS: usize = 128;

// ---------------------------------------------------------------------------
// Schemas of collections
// ---------------------------------------------------------------------------

/// The schema's own fields, with the text of whole documents or without.
pub open spec fn own_fields(include_body: bool) -> Seq<FieldView> {
    if include_body {
        meta_fields().push(body_field())
    } else {
        meta_fields()
    }
}

/// The field of a mapped name.
pub open spec fn mapped_field(name: Seq<char>, t: MappedFieldType) -> FieldView {
    FieldView {
        name,
        shape: match t {
            MappedFieldType::Text => text_shape(true, true, "standard"@),
            MappedFieldType::Number => ShapeView::Float(fast_numeric(true, true)),
            MappedFieldType::Boolean => ShapeView::Unsigned(fast_numeric(true, true)),
            MappedFieldType::Array => text_shape(true, true, "standard"@),
        },
    }
}

/// The fields of a schema with the first `n` of the mapped fields.
pub open spec fn mapped_fields(
    entries: Seq<(String, MappedFieldType)>,
    n: int,
    include_body: bool,
) -> Seq<FieldView> {
    own_fields(include_body) + Seq::new(
        n as nat,
        |i: int| mapped_field(entries[i].0@, entries[i].1),
    )
}

/// The mapped fields make a schema: their names are valid, and none is a name of the
/// schema's own fields.
pub open spec fn makes_a_schema(
    mapping: Map<Seq<char>, MappedFieldType>,
    include_body: bool,
) -> bool {
    &&& mapping.dom().len() + 4 <= u32::MAX
    &&& forall|name: Seq<char>| #[trigger]
        mapping.contains_key(name) ==> valid_name(name) && !named(own_fields(include_body), name)
}

fn is_own_name(name: &str, include_body: bool) -> (r: bool)
    ensures
        r == named(own_fields(include_body), name@),
{
    let r = text::same(name, "_id") || text::same(name, "_score") || text::same(
        name,
        "_timestamp",
    ) || (include_body && text::same(name, "_body"));
    proof {
        let own = own_fields(include_body);
        assert(own[0].name == "_id"@);
        assert(own[1].name == "_score"@);
        assert(own[2].name == "_timestamp"@);
        if include_body {
            assert(own[3].name == "_body"@);
        }
    }
    r
}

/// Whether the mapped fields make a schema.
pub fn can_make_a_schema(mapping: &FieldMapping, include_body: bool) -> (r: bool)
    ensures
        r == makes_a_schema(mapping@, include_body),
{
    let n: usize = mapping.field_count();
    if n as u64 > (u32::MAX - 4) as u64 {
        return false;
    }
    let ghost entries = mapping.entries();
    let mut i: usize = 0;
    while i < n
        invariant
            i <= n,
            n == entries.len(),
            entries == mapping.entries(),
            distinct_keys(entries),
            mapping@ == as_map(entries),
            forall|j: int|
                0 <= j < i ==> valid_name((#[trigger] entries[j]).0@) && !named(
                    own_fields(include_body),
                    entries[j].0@,
                ),
        decreases n - i,
    {
        let (name, _) = mapping.field_at(i);
        let chars = text::chars_of(name.as_str());
        if chars.len() == 0 || chars[0] == '-' || is_own_name(name.as_str(), include_body) {
            proof {
                lemma_position(entries, i as int);
            }
            return false;
        }
        i = i + 1;
    }
    proof {
        assert forall|name: Seq<char>| #[trigger] mapping@.contains_key(name) implies valid_name(
            name,
        ) && !named(own_fields(include_body), name) by {
            let j = choose|j: int| 0 <= j < entries.len() && (#[trigger] entries[j]).0@ == name;
            assert(valid_name(entries[j].0@));
        }
    }
    true
}

proof fn lemma_mapped_room(
    entries: Seq<(String, MappedFieldType)>,
    n: int,
    include_body: bool,
)
    requires
        distinct_keys(entries),
        makes_a_schema(as_map(entries), include_body),
        as_map(entries).dom().len() == entries.len(),
        0 <= n < entries.len(),
    ensures
        has_room(mapped_fields(entries, n, include_body), entries[n].0@),
{
    let fields = mapped_fields(entries, n, include_body);
    let own = own_fields(include_body);
    let name = entries[n].0@;
    lemma_position(entries, n);
    assert forall|k: int| 0 <= k < fields.len() implies (#[trigger] fields[k]).name != name by {
        if k < own.len() {
            assert(fields[k] == own[k]);
        } else {
            assert(entries[k - own.len()].0@ != entries[n].0@);
        }
    }
}

/// The schema of the mapped fields, and the numbers of all its fields.
pub fn build_schema_from_mapping(mapping: &FieldMapping, include_body: bool) -> (r: (
    Schema,
    FieldMap,
))
    requires
        makes_a_schema(mapping@, include_body),
    ensures
        schema_fields(r.0) == mapped_fields(
            mapping.entries(),
            mapping.entries().len() as int,
            include_body,
        ),
        numbers(
            r.1@,
            mapped_fields(mapping.entries(), mapping.entries().len() as int, include_body),
        ),
{
    let mut fields = Fields::new();
    add_meta_fields(&mut fields);
    if include_body {
        proof {
            lemma_body_is_free();
        }
        fields.add_text("_body", true, true, "standard");
    }
    let ghost entries = mapping.entries();
    assert(fields@ =~= mapped_fields(entries, 0, include_body));
    let n: usize = mapping.field_count();
    let mut i: usize = 0;
    while i < n
        invariant
            i <= n,
            n == entries.len(),
            entries == mapping.entries(),
            distinct_keys(entries),
            mapping@ == as_map(entries),
            mapping@.dom().len() == n,
            makes_a_schema(mapping@, include_body),
            fields.wf(),
            fields@ == mapped_fields(entries, i as int, include_body),
        decreases n - i,
    {
        let (name, mapped_type) = mapping.field_at(i);
        proof {
            lemma_mapped_room(entries, i as int, include_body);
        }
        match mapped_type {
            MappedFieldType::Text => {
                fields.add_text(name.as_str(), true, true, "standard");
            },
            MappedFieldType::Number => {
                fields.add_float(name.as_str(), true, true);
            },
            MappedFieldType::Boolean => {
                fields.add_unsigned(name.as_str(), true, true);
            },
            MappedFieldType::Array => {
                fields.add_text(name.as_str(), true, true, "standard");
            },
        }
        i = i + 1;
        assert(fields@ =~= mapped_fields(entries, i as int, include_body));
    }
    fields.build()
}

/// The schema of a collection without documents.
pub fn build_initial_schema() -> (r: (Schema, FieldMap))
    ensures
        schema_fields(r.0) == own_fields(true),
        numbers(r.1@, own_fields(true)),
{
    let mapping = FieldMapping::new();
    assert(mapped_fields(mapping.entries(), 0, true) =~= own_fields(true));
    build_schema_from_mapping(&mapping, true)
}

// ---------------------------------------------------------------------------
// Growing a mapping
// ---------------------------------------------------------------------------

/// A field whose value has another type than the field.
pub struct ConflictView {
    pub field: Seq<char>,
    pub expected: MappedFieldType,
    pub got: MappedFieldType,
}

/// The mapping with the fields of a document, or the first conflict.
pub open spec fn registered(
    mapping: Map<Seq<char>, MappedFieldType>,
    fields: Seq<(String, FieldValue)>,
) -> Result<Map<Seq<char>, MappedFieldType>, ConflictView>
    decreases fields.len(),
{
    if fields.len() == 0 {
        Ok(mapping)
    } else {
        match registered(mapping, fields.drop_last()) {
            Err(c) => Err(c),
            Ok(m) => {
                let name = fields.last().0@;
                let t = mapped_type_of(fields.last().1@);
                if m.contains_key(name) && m[name] != t {
                    Err(ConflictView { field: name, expected: m[name], got: t })
                } else {
                    Ok(m.insert(name, t))
                }
            },
        }
    }
}

/// The document brings a field that the mapping does not have.
pub open spec fn grows(
    mapping: Map<Seq<char>, MappedFieldType>,
    fields: Seq<(String, FieldValue)>,
) -> bool {
    exists|i: int| 0 <= i < fields.len() && !mapping.contains_key((#[trigger] fields[i]).0@)
}

/// The error is this conflict.
pub open spec fn is_conflict(e: DbError, c: ConflictView) -> bool {
    e matches DbError::SchemaConflict { field, expected, got } && field@ == c.field && expected@
        == c.expected.spelled() && got@ == c.got.spelled()
}

proof fn lemma_first_conflict(
    mapping: Map<Seq<char>, MappedFieldType>,
    fields: Seq<(String, FieldValue)>,
    n: int,
)
    requires
        0 <= n <= fields.len(),
        registered(mapping, fields.take(n)) is Err,
    ensures
        registered(mapping, fields) == registered(mapping, fields.take(n)),
    decreases fields.len(),
{
    if n < fields.len() {
        assert(fields.drop_last().take(n) =~= fields.take(n));
        lemma_first_conflict(mapping, fields.drop_last(), n);
    } else {
        assert(fields.take(n) =~= fields);
    }
}

proof fn lemma_registered_keys(
    mapping: Map<Seq<char>, MappedFieldType>,
    fields: Seq<(String, FieldValue)>,
)
    requires
        registered(mapping, fields) is Ok,
    ensures
        forall|name: Seq<char>| #[trigger]
            registered(mapping, fields)->Ok_0.contains_key(name) <==> mapping.contains_key(name) || (
            exists|i: int| 0 <= i < fields.len() && (#[trigger] fields[i]).0@ == name),
        forall|name: Seq<char>| #[trigger]
            mapping.contains_key(name) ==> registered(mapping, fields)->Ok_0[name] == mapping[name],
        forall|i: int|
            0 <= i < fields.len() ==> registered(mapping, fields)->Ok_0[(#[trigger] fields[i]).0@]
                == mapped_type_of(fields[i].1@),
    decreases fields.len(),
{
    if fields.len() > 0 {
        let front = fields.drop_last();
        lemma_registered_keys(mapping, front);
        let m = registered(mapping, front)->Ok_0;
        let all = registered(mapping, fields)->Ok_0;
        assert forall|name: Seq<char>| #[trigger] all.contains_key(name) <==> mapping.contains_key(
            name,
        ) || (exists|i: int| 0 <= i < fields.len() && (#[trigger] fields[i]).0@ == name) by {
            if exists|i: int| 0 <= i < front.len() && (#[trigger] front[i]).0@ == name {
                let i = choose|i: int| 0 <= i < front.len() && (#[trigger] front[i]).0@ == name;
                assert(fields[i].0@ == name);
            }
            if name == fields.last().0@ {
                assert(fields[fields.len() - 1].0@ == name);
            }
            if exists|i: int| 0 <= i < fields.len() && (#[trigger] fields[i]).0@ == name {
                let i = choose|i: int| 0 <= i < fields.len() && (#[trigger] fields[i]).0@ == name;
                if i < front.len() {
                    assert(front[i].0@ == name);
                }
            }
            assert(all.contains_key(name) <==> m.contains_key(name) || name == fields.last().0@);
        }
        assert forall|name: Seq<char>| #[trigger] mapping.contains_key(name) implies all[name]
            == mapping[name] by {
            assert(m.contains_key(name) && m[name] == mapping[name]);
        }
        assert forall|i: int| 0 <= i < fields.len() implies all[(#[trigger] fields[i]).0@]
            == mapped_type_of(fields[i].1@) by {
            if i < front.len() {
                assert(front[i].0@ == fields[i].0@);
                assert(m[front[i].0@] == mapped_type_of(front[i].1@));
                assert(m.contains_key(front[i].0@));
            }
        }
    }
}

/// The mapping with the fields of a document, and whether there are new ones.  The
/// first field whose value has another type than the field is a conflict.
pub fn register_fields(mapping: &FieldMapping, doc: &Document) -> (r: Result<
    (FieldMapping, bool),
    DbError,
>)
    ensures
        match (r, registered(mapping@, doc.fields.entries())) {
            (Ok((m, new)), Ok(view)) => m@ == view && new == grows(
                mapping@,
                doc.fields.entries(),
            ),
            (Err(e), Err(c)) => is_conflict(e, c),
            _ => false,
        },
{
    let mut updated = mapping.clone();
    let mut new = false;
    let ghost fields = doc.fields.entries();
    let n: usize = doc.fields.len();
    let mut i: usize = 0;
    while i < n
        invariant
            i <= n,
            n == fields.len(),
            fields == doc.fields.entries(),
            distinct_keys(fields),
            registered(mapping@, fields.take(i as int)) == Ok::<_, ConflictView>(updated@),
            new == grows(mapping@, fields.take(i as int)),
        decreases n - i,
    {
        let (name, value) = doc.fields.entry(i);
        let t = field_value_to_mapped_type(value);
        proof {
            assert(fields.take(i + 1).drop_last() =~= fields.take(i as int));
            assert(fields.take(i + 1).last() == fields[i as int]);
            lemma_registered_keys(mapping@, fields.take(i as int));
        }
        let ghost before = updated@;
        match updated.register_field(name.as_str(), t) {
            Ok(added) => {
                proof {
                    lemma_grows(mapping@, fields, i as int);
                    assert(before.contains_key(name@) == mapping@.contains_key(name@)) by {
                        if before.contains_key(name@) && !mapping@.contains_key(name@) {
                            let j = choose|j: int|
                                0 <= j < fields.take(i as int).len() && (#[trigger] fields.take(
                                    i as int,
                                )[j]).0@ == name@;
                            assert(fields[j].0@ == fields[i as int].0@);
                        }
                    }
                }
                if added {
                    new = true;
                }
            },
            Err(e) => {
                proof {
                    lemma_first_conflict(mapping@, fields, i + 1);
                }
                return Err(e);
            },
        }
        i = i + 1;
    }
    assert(fields.take(n as int) =~= fields);
    Ok((updated, new))
}

proof fn lemma_grows(
    mapping: Map<Seq<char>, MappedFieldType>,
    fields: Seq<(String, FieldValue)>,
    n: int,
)
    requires
        0 <= n < fields.len(),
    ensures
        grows(mapping, fields.take(n + 1)) == (grows(mapping, fields.take(n))
            || !mapping.contains_key(fields[n].0@)),
{
    let before = fields.take(n);
    let after = fields.take(n + 1);
    if grows(mapping, before) {
        let i = choose|i: int|
            0 <= i < before.len() && !mapping.contains_key((#[trigger] before[i]).0@);
        assert(after[i] == before[i]);
    }
    if !mapping.contains_key(fields[n].0@) {
        assert(!mapping.contains_key(after[n].0@));
    }
    if grows(mapping, after) {
        let i = choose|i: int|
            0 <= i < after.len() && !mapping.contains_key((#[trigger] after[i]).0@);
        if i < n {
            assert(before[i] == after[i]);
        }
    }
}

// ---------------------------------------------------------------------------
// The indexes
// ---------------------------------------------------------------------------

/// What it takes to open an index: where it lies on disk, where it does, and its
/// schema.
#[derive(Debug)]
pub struct Opening {
    /// The directory of all indexes; none where they are held in memory.
    pub base_path: Option<String>,
    /// The name of the index's own directory.
    pub directory: String,
    pub schema: Schema,
}

/// The index of a collection.
pub struct CollectionIndex<E> {
    pub engine: E,
    pub schema: Arc<Schema>,
    pub field_map: FieldMap,
}

impl<E> CollectionIndex<E> {
    /// The fields of the schema.
    pub open spec fn fields(&self) -> Seq<FieldView> {
        schema_fields(*self.schema)
    }

    /// The numbers are those of the schema, which begins with the fields of its own.
    pub open spec fn wf(&self) -> bool {
        &&& numbers(self.field_map@, self.fields())
        &&& self.fields().len() >= 4
        &&& self.fields().take(4) == own_fields(true)
    }
}

/// The schema's own fields are at the same places in every index.
pub proof fn lemma_own_numbers<E>(index: CollectionIndex<E>)
    requires
        index.wf(),
    ensures
        index.field_map@.contains_key("_id"@) && index.field_map@["_id"@] == 0,
        index.field_map@.contains_key("_score"@) && index.field_map@["_score"@] == 1,
        index.field_map@.contains_key("_timestamp"@) && index.field_map@["_timestamp"@] == 2,
        index.field_map@.contains_key("_body"@) && index.field_map@["_body"@] == 3,
{
    let fields = index.fields();
    assert forall|i: int| 0 <= i < 4 implies #[trigger] fields[i] == own_fields(true)[i] by {
        assert(fields.take(4)[i] == fields[i]);
    }
    assert(fields[0].name == "_id"@);
    assert(fields[1].name == "_score"@);
    assert(fields[2].name == "_timestamp"@);
    assert(fields[3].name == "_body"@);
}

/// The indexes of all collections.
pub struct CollectionIndexManager<E> {
    pub collections: Table<String, CollectionIndex<E>>,
    pub base_path: Option<String>,
}

/// The error of a collection that has no index.
pub open spec fn no_index(e: DbError, collection: Seq<char>) -> bool {
    e matches DbError::NotFound(m) && m@ == "collection index '"@ + collection + "' not found"@
}

/// The result that a search gives for what the engine found.
pub open spec fn search_result(
    r: Result<SearchResult, DbError>,
    found: Result<Found, DbError>,
    map: Map<Seq<char>, u32>,
    hidden: Seq<u32>,
) -> bool {
    match (r, found) {
        (Ok(result), Ok(f)) => {
            &&& are_read(result.documents@, map, hidden, f.hits@)
            &&& result.total == f.total
            &&& result.aggregations@ == Map::<Seq<char>, AggregationResult>::empty()
        },
        (Err(e), Err(cause)) => e == cause,
        _ => false,
    }
}

/// The result that a search with options gives for what the engine found: the
/// aggregations are over every document that was found, and the documents are those
/// that the options leave of them.
pub open spec fn arranged_result<G: FnOnce(&Vec<ScoredDocument>) -> Aggregations>(
    result: SearchResult,
    aggregate: G,
    options: SearchOptions,
    found: Found,
    map: Map<Seq<char>, u32>,
) -> bool {
    &&& result.total == found.total
    &&& exists|docs: Vec<ScoredDocument>, keyed: Seq<ScoredDocument>|
        {
            &&& are_read(docs@, map, Seq::empty(), found.hits@)
            &&& #[trigger] aggregate.ensures((&docs,), result.aggregations)
            &&& #[trigger] filled(docs@, keyed, options.sort@)
            &&& result.documents@ == selected(keyed, options)
        }
}

impl<E> CollectionIndexManager<E> {
    /// Every index is well formed.
    pub open spec fn wf(&self) -> bool {
        forall|name: Seq<char>| #[trigger]
            self.collections@.contains_key(name) ==> self.collections@[name].wf()
    }

    /// Indexes on disk, each in a directory of its own under `base_path`.
    pub fn new(base_path: &str) -> (m: Self)
        ensures
            m.wf(),
            m.collections@ == Map::<Seq<char>, CollectionIndex<E>>::empty(),
            m.base_path matches Some(p) && p@ == base_path@,
    {
        CollectionIndexManager { collections: Table::new(), base_path: Some(base_path.to_owned()) }
    }

    /// Indexes in memory.
    pub fn new_in_ram() -> (m: Self)
        ensures
            m.wf(),
            m.collections@ == Map::<Seq<char>, CollectionIndex<E>>::empty(),
            m.base_path is None,
    {
        CollectionIndexManager { collections: Table::new(), base_path: None }
    }

    /// The opening of the collection's index with these fields.
    pub open spec fn opening(
        base_path: Option<String>,
        o: Opening,
        collection: Seq<char>,
        fields: Seq<FieldView>,
    ) -> bool {
        &&& match (o.base_path, base_path) {
            (Some(a), Some(b)) => a@ == b@,
            (None, None) => true,
            _ => false,
        }
        &&& o.directory@ == "idx_"@ + collection
        &&& schema_fields(o.schema) == fields
    }

    /// Opening the collection's index with these fields came to this: a new index in
    /// the table, or an error.  `committed` is what the last commit of the index that was
    /// there before gave, where there was one.
    pub open spec fn opened<C, F: FnOnce(Opening, Option<C>) -> Result<E, DbError>>(
        open: F,
        committed: Option<C>,
        base_path: Option<String>,
        collection: Seq<char>,
        fields: Seq<FieldView>,
        before: Map<Seq<char>, CollectionIndex<E>>,
        after: Map<Seq<char>, CollectionIndex<E>>,
        r: Result<(), DbError>,
    ) -> bool {
        exists|o: Opening, reply: Result<E, DbError>|
            #![trigger open.ensures((o, committed), reply)]
            {
                &&& open.ensures((o, committed), reply)
                &&& Self::opening(base_path, o, collection, fields)
                &&& match (r, reply) {
                    (Ok(_), Ok(engine)) => {
                        &&& after == before.insert(collection, after[collection])
                        &&& after[collection].engine == engine
                        &&& after[collection].fields() == fields
                        &&& numbers(after[collection].field_map@, fields)
                    },
                    (Err(e), Err(cause)) => e == cause && after == before,
                    _ => false,
                }
            }
    }

    fn open_index<C, F: FnOnce(Opening, Option<C>) -> Result<E, DbError>>(
        &mut self,
        collection: &str,
        schema: Schema,
        field_map: FieldMap,
        open: F,
        committed: Option<C>,
    ) -> (r: Result<(), DbError>)
        requires
            old(self).wf(),
            numbers(field_map@, schema_fields(schema)),
            schema_fields(schema).len() >= 4,
            schema_fields(schema).take(4) == own_fields(true),
            forall|o: Opening, c: Option<C>| #[trigger] open.requires((o, c)),
        ensures
            final(self).wf(),
            final(self).base_path == old(self).base_path,
            Self::opened(
                open,
                committed,
                old(self).base_path,
                collection@,
                schema_fields(schema),
                old(self).collections@,
                final(self).collections@,
                r,
            ),
    {
        let base_path = match &self.base_path {
            Some(p) => Some(p.clone()),
            None => None,
        };
        let o = Opening {
            base_path,
            directory: text::concat2("idx_", collection),
            schema: schema.clone(),
        };
        let reply = open(o, committed);
        assert(open.ensures((o, committed), reply));
        match reply {
            Ok(engine) => {
                let index = CollectionIndex { engine, schema: Arc::new(schema), field_map };
                assert(index.wf());
                self.collections.insert(collection.to_owned(), index);
                assert(self.collections@ =~= old(self).collections@.insert(
                    collection@,
                    self.collections@[collection@],
                ));
                Ok(())
            },
            Err(e) => Err(e),
        }
    }

    /// Create the index of a collection; one that is there is left alone.
    pub fn create_collection<C, F: FnOnce(Opening, Option<C>) -> Result<E, DbError>>(
        &mut self,
        collection: &str,
        open: F,
    ) -> (r: Result<(), DbError>)
        requires
            old(self).wf(),
            forall|o: Opening, c: Option<C>| #[trigger] open.requires((o, c)),
        ensures
            final(self).wf(),
            final(self).base_path == old(self).base_path,
            if old(self).collections@.contains_key(collection@) {
                r is Ok && *final(self) == *old(self)
            } else {
                Self::opened(
                    open,
                    None::<C>,
                    old(self).base_path,
                    collection@,
                    own_fields(true),
                    old(self).collections@,
                    final(self).collections@,
                    r,
                )
            },
    {
        let key = collection.to_owned();
        if self.collections.contains_key(&key) {
            return Ok(());
        }
        let (schema, field_map) = build_initial_schema();
        assert(own_fields(true).take(4) =~= own_fields(true));
        self.open_index(collection, schema, field_map, open, None)
    }

    /// Forget the index of a collection.
    pub fn drop_collection(&mut self, collection: &str) -> (r: Result<(), DbError>)
        requires
            old(self).wf(),
        ensures
            final(self).wf(),
            final(self).base_path == old(self).base_path,
            r is Ok,
            final(self).collections@ == old(self).collections@.remove(collection@),
    {
        let key = collection.to_owned();
        let _ = self.collections.remove(&key);
        Ok(())
    }

    fn index_of(&self, collection: &str) -> (r: Result<&CollectionIndex<E>, DbError>)
        ensures
            match r {
                Ok(index) => self.collections@.contains_key(collection@) && *index
                    == self.collections@[collection@],
                Err(e) => !self.collections@.contains_key(collection@) && no_index(e, collection@),
            },
    {
        let key = collection.to_owned();
        match self.collections.get(&key) {
            Some(index) => Ok(index),
            None => Err(
                DbError::NotFound(text::concat3("collection index '", collection, "' not found")),
            ),
        }
    }

    /// Rebuilding an index came to this: what the engine still held back was committed,
    /// and the index was opened anew with what the commit gave.  Where the commit failed
    /// everything is as before.
    pub open spec fn rebuilt<
        C,
        F: FnOnce(Opening, Option<C>) -> Result<E, DbError>,
        H: FnOnce(&E) -> Result<C, DbError>,
    >(
        commit: H,
        open: F,
        base_path: Option<String>,
        collection: Seq<char>,
        fields: Seq<FieldView>,
        before: Map<Seq<char>, CollectionIndex<E>>,
        after: Map<Seq<char>, CollectionIndex<E>>,
        r: Result<(), DbError>,
    ) -> bool {
        let rest = before.remove(collection);
        if before.contains_key(collection) {
            exists|c: Result<C, DbError>|
                {
                    &&& #[trigger] commit.ensures((&before[collection].engine,), c)
                    &&& match c {
                        Err(e) => r == Err::<(), DbError>(e) && after == before,
                        Ok(c) => Self::opened(
                            open,
                            Some(c),
                            base_path,
                            collection,
                            fields,
                            rest,
                            after,
                            r,
                        ),
                    }
                }
        } else {
            Self::opened(open, None::<C>, base_path, collection, fields, rest, after, r)
        }
    }

    fn rebuild_schema<
        C,
        F: FnOnce(Opening, Option<C>) -> Result<E, DbError>,
        H: FnOnce(&E) -> Result<C, DbError>,
    >(&mut self, collection: &str, mapping: &FieldMapping, open: F, commit: H) -> (r: Result<
        (),
        DbError,
    >)
        requires
            old(self).wf(),
            makes_a_schema(mapping@, true),
            forall|o: Opening, c: Option<C>| #[trigger] open.requires((o, c)),
            forall|e: &E| #[trigger] commit.requires((e,)),
        ensures
            final(self).wf(),
            final(self).base_path == old(self).base_path,
            Self::rebuilt(
                commit,
                open,
                old(self).base_path,
                collection@,
                mapped_fields(mapping.entries(), mapping.entries().len() as int, true),
                old(self).collections@,
                final(self).collections@,
                r,
            ),
    {
        let key = collection.to_owned();
        let committed = match self.collections.get(&key) {
            Some(index) => {
                let reply = commit(&index.engine);
                assert(commit.ensures((&old(self).collections@[collection@].engine,), reply));
                match reply {
                    Ok(c) => Some(c),
                    Err(e) => {
                        return Err(e);
                    },
                }
            },
            None => None,
        };
        let _ = self.collections.remove(&key);
        let (schema, field_map) = build_schema_from_mapping(mapping, true);
        assert(schema_fields(schema).take(4) =~= own_fields(true));
        self.open_index(collection, schema, field_map, open, committed)
    }

    /// Indexing a document came to this, for an index that is there: the engine was
    /// given its entries.
    pub open spec fn added<G: FnOnce(&E, Vec<Entry>) -> Result<(), DbError>>(
        write: G,
        index: CollectionIndex<E>,
        doc: Document,
        timestamp: u64,
        updated: Map<Seq<char>, MappedFieldType>,
        r: Result<FieldMapping, DbError>,
    ) -> bool {
        exists|entries: Vec<Entry>, reply: Result<(), DbError>|
            #![trigger write.ensures((&index.engine, entries), reply)]
            {
                &&& write.ensures((&index.engine, entries), reply)
                &&& entry_views(entries@) == document_entries(
                    index.field_map@,
                    doc,
                    timestamp,
                ) + body_entries(index.field_map@, doc.fields.entries())
                &&& match (r, reply) {
                    (Ok(m), Ok(_)) => m@ == updated,
                    (Err(e), Err(cause)) => e == cause,
                    _ => false,
                }
            }
    }

    /// Index a document of a collection, and give back the mapping with its fields.
    ///
    /// A document with a value of another type than its field is refused.  Where it
    /// brings new fields, what was written before is committed, and the index is opened
    /// anew with a schema that has them; an index that cannot be opened is forgotten.  The
    /// opening takes what the commit gave.
    pub fn index_document<
        C,
        F: FnOnce(Opening, Option<C>) -> Result<E, DbError>,
        G: FnOnce(&E, Vec<Entry>) -> Result<(), DbError>,
        H: FnOnce(&E) -> Result<C, DbError>,
    >(
        &mut self,
        collection: &str,
        doc: &Document,
        mapping: &FieldMapping,
        timestamp: u64,
        open: F,
        write: G,
        commit: H,
    ) -> (r: Result<FieldMapping, DbError>)
        requires
            old(self).wf(),
            grows(mapping@, doc.fields.entries()) ==> (registered(
                mapping@,
                doc.fields.entries(),
            ) matches Ok(m) ==> makes_a_schema(m, true)),
            forall|o: Opening, c: Option<C>| #[trigger] open.requires((o, c)),
            forall|e: &E, entries: Vec<Entry>| #[trigger] write.requires((e, entries)),
            forall|e: &E| #[trigger] commit.requires((e,)),
        ensures
            final(self).wf(),
            final(self).base_path == old(self).base_path,
            match registered(mapping@, doc.fields.entries()) {
                Err(c) => {
                    &&& r matches Err(e)
                    &&& is_conflict(e, c)
                    &&& *final(self) == *old(self)
                },
                Ok(updated) => if grows(mapping@, doc.fields.entries()) {
                    exists|m: FieldMapping, o: Result<(), DbError>|
                        {
                            &&& m@ == updated
                            &&& #[trigger] Self::rebuilt(
                                commit,
                                open,
                                old(self).base_path,
                                collection@,
                                mapped_fields(m.entries(), m.entries().len() as int, true),
                                old(self).collections@,
                                final(self).collections@,
                                o,
                            )
                            &&& match o {
                                Err(e) => r == Err::<FieldMapping, DbError>(e),
                                Ok(_) => Self::added(
                                    write,
                                    final(self).collections@[collection@],
                                    *doc,
                                    timestamp,
                                    updated,
                                    r,
                                ),
                            }
                        }
                } else {
                    &&& *final(self) == *old(self)
                    &&& if old(self).collections@.contains_key(collection@) {
                        Self::added(
                            write,
                            old(self).collections@[collection@],
                            *doc,
                            timestamp,
                            updated,
                            r,
                        )
                    } else {
                        r matches Err(e) && no_index(e, collection@)
                    }
                },
            },
    {
        let (updated, new) = match register_fields(mapping, doc) {
            Ok(u) => u,
            Err(e) => {
                return Err(e);
            },
        };
        let ghost mut outcome: Result<(), DbError> = Ok(());
        if new {
            let rebuilt = self.rebuild_schema(collection, &updated, open, commit);
            proof {
                outcome = rebuilt;
            }
            match rebuilt {
                Ok(_) => {},
                Err(e) => {
                    return Err(e);
                },
            }
        }
        let index = match self.index_of(collection) {
            Ok(index) => index,
            Err(e) => {
                return Err(e);
            },
        };
        let entries = build_tantivy_doc(&index.field_map, doc, timestamp);
        let reply = write(&index.engine, entries);
        assert(write.ensures((&index.engine, entries), reply));
        let r = match reply {
            Ok(_) => Ok(updated),
            Err(e) => Err(e),
        };
        assert(Self::added(write, *index, *doc, timestamp, updated@, r));
        proof {
            if new {
                assert(Self::rebuilt(
                    commit,
                    open,
                    old(self).base_path,
                    collection@,
                    mapped_fields(updated.entries(), updated.entries().len() as int, true),
                    old(self).collections@,
                    self.collections@,
                    outcome,
                ));
            }
        }
        r
    }

    /// Delete a document from the index of a collection: the engine is given the number
    /// of the field that holds identifiers, and the identifier.
    pub fn delete_document<F: FnOnce(&E, u32, &str) -> Result<(), DbError>>(
        &self,
        collection: &str,
        id: &str,
        delete: F,
    ) -> (r: Result<(), DbError>)
        requires
            self.wf(),
            forall|e: &E, field: u32, id: &str| #[trigger] delete.requires((e, field, id)),
        ensures
            if self.collections@.contains_key(collection@) {
                delete.ensures(
                    (
                        &self.collections@[collection@].engine,
                        self.collections@[collection@].field_map@["_id"@],
                        id,
                    ),
                    r,
                )
            } else {
                r matches Err(e) && no_index(e, collection@)
            },
    {
        let index = match self.index_of(collection) {
            Ok(index) => index,
            Err(e) => {
                return Err(e);
            },
        };
        proof {
            lemma_own_numbers(*index);
        }
        let field = match number_of(&index.field_map, "_id") {
            Some(field) => field,
            None => {
                return Err(DbError::IndexError("_id field not in schema".to_owned()));
            },
        };
        delete(&index.engine, field, id)
    }

    /// Make what was written to the index of a collection visible to searches.
    pub fn commit<F: FnOnce(&E) -> Result<(), DbError>>(&self, collection: &str, commit: F) -> (r:
        Result<(), DbError>)
        requires
            forall|e: &E| #[trigger] commit.requires((e,)),
        ensures
            if self.collections@.contains_key(collection@) {
                commit.ensures((&self.collections@[collection@].engine,), r)
            } else {
                r matches Err(e) && no_index(e, collection@)
            },
    {
        match self.index_of(collection) {
            Ok(index) => commit(&index.engine),
            Err(e) => Err(e),
        }
    }

    /// The engine of the collection was given the plan of the query and the limit, and
    /// what it found is `found`.
    pub open spec fn asked<F: FnOnce(&E, Plan, usize) -> Result<Found, DbError>>(
        &self,
        run: F,
        collection: Seq<char>,
        query: Query,
        limit: usize,
        found: Result<Found, DbError>,
    ) -> bool {
        let index = self.collections@[collection];
        exists|plan: Plan|
            {
                &&& #[trigger] run.ensures((&index.engine, plan, limit), found)
                &&& plan_of(query@, index.field_map@, false) == Ok::<_, Seq<char>>(plan@)
            }
    }

    fn find<F: FnOnce(&E, Plan, usize) -> Result<Found, DbError>>(
        &self,
        collection: &str,
        query: &Query,
        limit: usize,
        run: F,
    ) -> (r: Result<(Vec<ScoredDocument>, u64), DbError>)
        requires
            forall|e: &E, plan: Plan, limit: usize| #[trigger] run.requires((e, plan, limit)),
        ensures
            if self.collections@.contains_key(collection@) {
                match plan_of(query@, self.collections@[collection@].field_map@, false) {
                    Err(text) => r matches Err(DbError::InvalidInput(m)) && m@ == text,
                    Ok(_) => exists|found: Result<Found, DbError>|
                        {
                            &&& #[trigger] self.asked(run, collection@, *query, limit, found)
                            &&& match (r, found) {
                                (Ok((docs, total)), Ok(f)) => total == f.total && are_read(
                                    docs@,
                                    self.collections@[collection@].field_map@,
                                    Seq::empty(),
                                    f.hits@,
                                ),
                                (Err(e), Err(cause)) => e == cause,
                                _ => false,
                            }
                        },
                }
            } else {
                r matches Err(e) && no_index(e, collection@)
            },
    {
        let index = match self.index_of(collection) {
            Ok(index) => index,
            Err(e) => {
                return Err(e);
            },
        };
        let plan = match translate_query(query, &index.field_map, false) {
            Ok(plan) => plan,
            Err(e) => {
                return Err(e);
            },
        };
        let found = run(&index.engine, plan, limit);
        assert(run.ensures((&index.engine, plan, limit), found));
        assert(self.asked(run, collection@, *query, limit, found));
        let none: Vec<u32> = Vec::new();
        match found {
            Ok(f) => {
                let docs = read_hits(&f.hits, &index.field_map, &none);
                assert(none@ =~= Seq::<u32>::empty());
                Ok((docs, f.total))
            },
            Err(e) => Err(e),
        }
    }

    /// Search the index of a collection.  How long it took is not stated.
    pub fn search<F: FnOnce(&E, Plan, usize) -> Result<Found, DbError>>(
        &self,
        collection: &str,
        query: &Query,
        run: F,
    ) -> (r: Result<SearchResult, DbError>)
        requires
            forall|e: &E, plan: Plan, limit: usize| #[trigger] run.requires((e, plan, limit)),
        ensures
            if self.collections@.contains_key(collection@) {
                match plan_of(query@, self.collections@[collection@].field_map@, false) {
                    Err(text) => r matches Err(DbError::InvalidInput(m)) && m@ == text,
                    Ok(_) => exists|found: Result<Found, DbError>|
                        {
                            &&& #[trigger] self.asked(
                                run,
                                collection@,
                                *query,
                                DEFAULT_SEARCH_LIMIT,
                                found,
                            )
                            &&& search_result(
                                r,
                                found,
                                self.collections@[collection@].field_map@,
                                Seq::empty(),
                            )
                        },
                }
            } else {
                r matches Err(e) && no_index(e, collection@)
            },
    {
        let start = std::time::Instant::now();
        match self.find(collection, query, DEFAULT_SEARCH_LIMIT, run) {
            Ok((documents, total)) => {
                let took_ms: u64 = elapsed_since(&start).as_millis() as u64;
                Ok(SearchResult { documents, total, took_ms, aggregations: Table::new() })
            },
            Err(e) => Err(e),
        }
    }

    /// Search the index of a collection, and arrange what is found.
    ///
    /// `aggregate` sums up every document that was found.  The documents are sorted;
    /// those up to the cursor are dropped; of those that agree in the field of
    /// `collapse` the first is kept; and the page is cut from what is left.  How long
    /// the search took is not stated.
    pub fn search_with_options<
        F: FnOnce(&E, Plan, usize) -> Result<Found, DbError>,
        G: FnOnce(&Vec<ScoredDocument>) -> Aggregations,
    >(
        &self,
        collection: &str,
        query: &Query,
        options: &SearchOptions,
        run: F,
        aggregate: G,
    ) -> (r: Result<SearchResult, DbError>)
        requires
            options.from + options.size + 1000 <= usize::MAX,
            forall|e: &E, plan: Plan, limit: usize| #[trigger] run.requires((e, plan, limit)),
            forall|docs: &Vec<ScoredDocument>| #[trigger] aggregate.requires((docs,)),
        ensures
            if self.collections@.contains_key(collection@) {
                match plan_of(query@, self.collections@[collection@].field_map@, false) {
                    Err(text) => r matches Err(DbError::InvalidInput(m)) && m@ == text,
                    Ok(_) => exists|found: Result<Found, DbError>|
                        {
                            &&& #[trigger] self.asked(
                                run,
                                collection@,
                                *query,
                                (options.from + options.size + 1000) as usize,
                                found,
                            )
                            &&& match (r, found) {
                                (Ok(result), Ok(f)) => arranged_result(
                                    result,
                                    aggregate,
                                    *options,
                                    f,
                                    self.collections@[collection@].field_map@,
                                ),
                                (Err(e), Err(cause)) => e == cause,
                                _ => false,
                            }
                        },
                }
            } else {
                r matches Err(e) && no_index(e, collection@)
            },
    {
        let start = std::time::Instant::now();
        let limit: usize = options.from + options.size + 1000;
        match self.find(collection, query, limit, run) {
            Ok((documents, total)) => {
                let ghost found = choose|f: Found|
                    {
                        &&& #[trigger] self.asked(run, collection@, *query, limit, Ok(f))
                        &&& total == f.total
                        &&& are_read(
                            documents@,
                            self.collections@[collection@].field_map@,
                            Seq::empty(),
                            f.hits@,
                        )
                    };
                assert(self.asked(run, collection@, *query, limit, Ok(found)));
                let ghost read = documents;
                let aggregations = aggregate(&documents);
                assert(aggregate.ensures((&read,), aggregations));
                let keyed = fill_sort_values(documents, &options.sort);
                let ghost keyed_docs = keyed@;
                let documents = select(keyed, options);
                let took_ms: u64 = elapsed_since(&start).as_millis() as u64;
                let result = SearchResult { documents, total, took_ms, aggregations };
                proof {
                    let map = self.collections@[collection@].field_map@;
                    assert(are_read(read@, map, Seq::empty(), found.hits@));
                    assert(filled(read@, keyed_docs, options.sort@));
                    assert(result.documents@ == selected(keyed_docs, *options));
                    assert(aggregate.ensures((&read,), result.aggregations));
                }
                Ok(result)
            },
            Err(e) => Err(e),
        }
    }
}

// ---------------------------------------------------------------------------
// Laws
// ---------------------------------------------------------------------------

/// A mapping only grows: what it has it keeps under the same type, and every field of
/// an accepted document is in it under the type of its value.
pub proof fn mapping_only_grows(
    mapping: Map<Seq<char>, MappedFieldType>,
    fields: Seq<(String, FieldValue)>,
)
    requires
        registered(mapping, fields) is Ok,
    ensures
        mapping.submap_of(registered(mapping, fields)->Ok_0),
        forall|i: int|
            0 <= i < fields.len() ==> registered(mapping, fields)->Ok_0.contains_key(
                (#[trigger] fields[i]).0@,
            ) && registered(mapping, fields)->Ok_0[fields[i].0@] == mapped_type_of(fields[i].1@),
{
    lemma_registered_keys(mapping, fields);
    let all = registered(mapping, fields)->Ok_0;
    assert forall|i: int| 0 <= i < fields.len() implies all.contains_key((#[trigger] fields[i]).0@)
        && all[fields[i].0@] == mapped_type_of(fields[i].1@) by {
        assert(fields[i].0@ == fields[i].0@);
    }
}

/// A document whose fields are all known under the types of its values changes nothing
/// in the mapping; so a document that was accepted once is accepted again.
pub proof fn known_document_changes_nothing(
    mapping: Map<Seq<char>, MappedFieldType>,
    fields: Seq<(String, FieldValue)>,
)
    requires
        forall|i: int|
            0 <= i < fields.len() ==> mapping.contains_key((#[trigger] fields[i]).0@)
                && mapping[fields[i].0@] == mapped_type_of(fields[i].1@),
    ensures
        registered(mapping, fields) == Ok::<_, ConflictView>(mapping),
        !grows(mapping, fields),
    decreases fields.len(),
{
    if fields.len() > 0 {
        let front = fields.drop_last();
        assert forall|i: int| 0 <= i < front.len() implies mapping.contains_key(
            (#[trigger] front[i]).0@,
        ) && mapping[front[i].0@] == mapped_type_of(front[i].1@) by {
            assert(front[i] == fields[i]);
        }
        known_document_changes_nothing(mapping, front);
        assert(mapping.contains_key(fields[fields.len() - 1].0@));
        assert(mapping.insert(fields.last().0@, mapped_type_of(fields.last().1@)) =~= mapping);
    }
}

/// A document is refused exactly where one of its values has another type than the
/// field that the mapping has for it.
pub proof fn conflicts_are_refused(
    mapping: Map<Seq<char>, MappedFieldType>,
    fields: Seq<(String, FieldValue)>,
)
    requires
        distinct_keys(fields),
    ensures
        registered(mapping, fields) is Err <==> exists|i: int|
            0 <= i < fields.len() && mapping.contains_key((#[trigger] fields[i]).0@)
                && mapping[fields[i].0@] != mapped_type_of(fields[i].1@),
    decreases fields.len(),
{
    if fields.len() > 0 {
        let front = fields.drop_last();
        assert(distinct_keys(front)) by {
            assert forall|i: int, j: int|
                #![trigger front[i], front[j]]
                0 <= i < j < front.len() implies front[i].0@ != front[j].0@ by {
                assert(front[i] == fields[i] && front[j] == fields[j]);
            }
        }
        conflicts_are_refused(mapping, front);
        assert forall|i: int| 0 <= i < front.len() implies front[i] == fields[i] by {}
        let last = fields.len() - 1;
        if registered(mapping, front) is Ok {
            lemma_registered_keys(mapping, front);
            let m = registered(mapping, front)->Ok_0;
            let name = fields[last].0@;
            if m.contains_key(name) && !mapping.contains_key(name) {
                let j = choose|j: int| 0 <= j < front.len() && (#[trigger] front[j]).0@ == name;
                assert(fields[j].0@ == fields[last].0@);
            }
            if exists|i: int|
                0 <= i < fields.len() && mapping.contains_key((#[trigger] fields[i]).0@)
                    && mapping[fields[i].0@] != mapped_type_of(fields[i].1@) {
                let i = choose|i: int|
                    0 <= i < fields.len() && mapping.contains_key((#[trigger] fields[i]).0@)
                        && mapping[fields[i].0@] != mapped_type_of(fields[i].1@);
                if i < last {
                    assert(mapping.contains_key(front[i].0@));
                }
            }
        } else {
            let i = choose|i: int|
                0 <= i < front.len() && mapping.contains_key((#[trigger] front[i]).0@)
                    && mapping[front[i].0@] != mapped_type_of(front[i].1@);
            assert(mapping.contains_key(fields[i].0@));
        }
    }
}

/// A mapped field has its name and the shape of its type: words for texts and arrays,
/// numbers for numbers, and zero or one for truth values, all of them stored and indexed.
pub proof fn mapped_fields_have_their_shape(name: Seq<char>, t: MappedFieldType)
    ensures
        mapped_field(name, t).name == name,
        t == MappedFieldType::Text || t == MappedFieldType::Array ==> mapped_field(name, t).shape
            == text_shape(true, true, "standard"@),
        t == MappedFieldType::Number ==> mapped_field(name, t).shape == ShapeView::Float(
            fast_numeric(true, true),
        ),
        t == MappedFieldType::Boolean ==> mapped_field(name, t).shape == ShapeView::Unsigned(
            fast_numeric(true, true),
        ),
{
}

/// The fields of a mapping stand behind the schema's own, each at its place, and all of them.
pub proof fn mapped_fields_have_their_places(
    entries: Seq<(String, MappedFieldType)>,
    n: int,
    include_body: bool,
    i: int,
)
    requires
        0 <= i < n <= entries.len(),
    ensures
        own_fields(true) == meta_fields().push(body_field()),
        own_fields(false) == meta_fields(),
        ({
            let own = own_fields(include_body);
            let all = mapped_fields(entries, n, include_body);
            &&& all.len() == own.len() + n
            &&& all.take(own.len() as int) == own
            &&& all[own.len() + i] == mapped_field(entries[i].0@, entries[i].1)
        }),
{
    let own = own_fields(include_body);
    assert(mapped_fields(entries, n, include_body).take(own.len() as int) =~= own);
}

/// A mapping makes a schema only where every name can stand in one and is not one of the
/// schema's own.
pub proof fn mappings_keep_off_own_names(
    mapping: Map<Seq<char>, MappedFieldType>,
    name: Seq<char>,
)
    requires
        makes_a_schema(mapping, true),
        mapping.contains_key(name),
    ensures
        name.len() > 0,
        name[0] != '-',
        name != "_id"@,
        name != "_score"@,
        name != "_timestamp"@,
        name != "_body"@,
{
    let own = own_fields(true);
    assert(own[0].name == "_id"@ && own[1].name == "_score"@ && own[2].name == "_timestamp"@
        && own[3].name == "_body"@);
    assert(!named(own, name));
}

/// The first conflict of a document is told: the first field whose value has another type
/// than the mapping has for it, with both types.
pub proof fn the_first_conflict_is_told(
    mapping: Map<Seq<char>, MappedFieldType>,
    fields: Seq<(String, FieldValue)>,
    k: int,
)
    requires
        distinct_keys(fields),
        0 <= k < fields.len(),
        mapping.contains_key(fields[k].0@),
        mapping[fields[k].0@] != mapped_type_of(fields[k].1@),
        forall|i: int|
            0 <= i < k && mapping.contains_key((#[trigger] fields[i]).0@)
                ==> mapping[fields[i].0@] == mapped_type_of(fields[i].1@),
    ensures
        registered(mapping, fields) matches Err(c) && c.field == fields[k].0@ && c.expected
            == mapping[fields[k].0@] && c.got == mapped_type_of(fields[k].1@),
{
    let before = fields.take(k);
    let upto = fields.take(k + 1);
    assert(upto.drop_last() =~= before);
    assert(upto.last() == fields[k]);
    assert(distinct_keys(before)) by {
        assert forall|i: int, j: int|
            #![trigger before[i], before[j]]
            0 <= i < j < before.len() implies before[i].0@ != before[j].0@ by {
            assert(before[i] == fields[i] && before[j] == fields[j]);
        }
    }
    conflicts_are_refused(mapping, before);
    assert(registered(mapping, before) is Ok) by {
        if registered(mapping, before) is Err {
            let i = choose|i: int|
                0 <= i < before.len() && mapping.contains_key((#[trigger] before[i]).0@)
                    && mapping[before[i].0@] != mapped_type_of(before[i].1@);
            assert(before[i] == fields[i]);
        }
    }
    lemma_registered_keys(mapping, before);
    assert(registered(mapping, upto) is Err);
    lemma_first_conflict(mapping, fields, k + 1);
}

/// An accepted document adds to the mapping its own fields and no others.
pub proof fn a_mapping_grows_by_the_fields_of_the_document(
    mapping: Map<Seq<char>, MappedFieldType>,
    fields: Seq<(String, FieldValue)>,
    name: Seq<char>,
)
    requires
        registered(mapping, fields) is Ok,
    ensures
        registered(mapping, fields)->Ok_0.contains_key(name) <==> mapping.contains_key(name)
            || exists|i: int| 0 <= i < fields.len() && (#[trigger] fields[i]).0@ == name,
        grows(mapping, fields) <==> registered(mapping, fields)->Ok_0 != mapping,
{
    lemma_registered_keys(mapping, fields);
    let after = registered(mapping, fields)->Ok_0;
    if grows(mapping, fields) {
        let i = choose|i: int|
            0 <= i < fields.len() && !mapping.contains_key((#[trigger] fields[i]).0@);
        assert(after.contains_key(fields[i].0@));
    } else {
        assert(after =~= mapping) by {
            assert forall|n: Seq<char>| after.contains_key(n) implies mapping.contains_key(n) by {
                if !mapping.contains_key(n) {
                    let i = choose|i: int|
                        0 <= i < fields.len() && (#[trigger] fields[i]).0@ == n;
                    assert(!mapping.contains_key(fields[i].0@));
                }
            }
        }
    }
}

/// A conflict names the field and both types.
pub proof fn conflicts_name_field_and_types(e: DbError, c: ConflictView)
    requires
        is_conflict(e, c),
    ensures
        e.description() == "schema conflict on field '"@ + c.field + "': expected "@
            + c.expected.spelled() + ", got "@ + c.got.spelled(),
{
}

/// A collection that has no index is named.
pub proof fn missing_indexes_are_named(e: DbError, collection: Seq<char>)
    requires
        no_index(e, collection),
    ensures
        e.description() == "not found: "@ + ("collection index '"@ + collection
            + "' not found"@),
{
}

/// A search gives as many documents as were found, each with its score, and the number of
/// matches; where the engine fails, its error.
pub proof fn searches_give_what_was_found(
    r: Result<SearchResult, DbError>,
    found: Result<Found, DbError>,
    map: Map<Seq<char>, u32>,
    hidden: Seq<u32>,
    i: int,
)
    requires
        search_result(r, found, map, hidden),
    ensures
        r is Ok <==> found is Ok,
        r is Err ==> r->Err_0 == found->Err_0,
        r matches Ok(result) ==> {
            &&& result.total == found->Ok_0.total
            &&& result.documents@.len() == found->Ok_0.hits@.len()
            &&& 0 <= i < result.documents@.len() ==> result.documents@[i].score
                == found->Ok_0.hits@[i].score
            &&& 0 <= i < result.documents@.len() ==> result.documents@[i].document.id@ == read_id(
                map,
                entry_views(found->Ok_0.hits@[i].entries@),
            )
            &&& result.aggregations@.dom() =~= Set::empty()
        },
{
}

/// A search with options keeps the number of matches, gives no more documents than asked
/// for, and gives only documents that were found, with the scores that they were found with.
pub proof fn arranged_results_come_from_what_was_found<
    G: FnOnce(&Vec<ScoredDocument>) -> Aggregations,
>(
    result: SearchResult,
    aggregate: G,
    options: SearchOptions,
    found: Found,
    map: Map<Seq<char>, u32>,
    i: int,
)
    requires
        arranged_result(result, aggregate, options, found, map),
        0 <= i < result.documents@.len(),
    ensures
        result.total == found.total,
        result.documents@.len() <= options.size,
        exists|k: int|
            {
                &&& 0 <= k < found.hits@.len()
                &&& result.documents@[i].score == (#[trigger] found.hits@[k]).score
                &&& result.documents@[i].document.id@ == read_id(
                    map,
                    entry_views(found.hits@[k].entries@),
                )
                &&& result.documents@[i].sort@.len() == options.sort@.len()
            },
{
    let (docs, keyed) = choose|docs: Vec<ScoredDocument>, keyed: Seq<ScoredDocument>|
        {
            &&& are_read(docs@, map, Seq::empty(), found.hits@)
            &&& #[trigger] aggregate.ensures((&docs,), result.aggregations)
            &&& #[trigger] filled(docs@, keyed, options.sort@)
            &&& result.documents@ == selected(keyed, options)
        };
    shown_results_were_found(keyed, options, i);
    let k = choose|k: int| 0 <= k < keyed.len() && keyed[k] == result.documents@[i];
    assert(docs@[k].score == found.hits@[k].score);
    filling_changes_nothing_else(docs@, keyed, options.sort@, k);
}

/// What is written of a document into the index of its collection holds, for each field that
/// the schema knows, the entries that its value asks for.
pub proof fn documents_are_written_whole<E, G: FnOnce(&E, Vec<Entry>) -> Result<(), DbError>>(
    write: G,
    index: CollectionIndex<E>,
    doc: Document,
    timestamp: u64,
    updated: Map<Seq<char>, MappedFieldType>,
    r: Result<FieldMapping, DbError>,
    name: Seq<char>,
)
    requires
        index.wf(),
        CollectionIndexManager::<E>::added(write, index, doc, timestamp, updated, r),
        index.field_map@.contains_key(name),
        name != "_id"@,
        name != "_timestamp"@,
        name != "_body"@,
        doc@.fields.contains_key(name),
        distinct_keys(doc.fields.entries()),
    ensures
        r matches Ok(m) ==> m@ == updated,
        exists|entries: Vec<Entry>, reply: Result<(), DbError>|
            {
                &&& #[trigger] write.ensures((&index.engine, entries), reply)
                &&& r is Ok <==> reply is Ok
                &&& reply is Err ==> r->Err_0 == reply->Err_0
                &&& entry_views(entries@).filter(
                    |e: EntryView| e.field == index.field_map@[name],
                ) == held_for(index.field_map@[name], doc@.fields[name])
            },
{
    let map = index.field_map@;
    let own = |e: EntryView| e.field == map[name];
    let (entries, reply) = choose|entries: Vec<Entry>, reply: Result<(), DbError>|
        #![trigger write.ensures((&index.engine, entries), reply)]
        {
            &&& write.ensures((&index.engine, entries), reply)
            &&& entry_views(entries@) == document_entries(map, doc, timestamp) + body_entries(
                map,
                doc.fields.entries(),
            )
            &&& match (r, reply) {
                (Ok(m), Ok(_)) => m@ == updated,
                (Err(e), Err(cause)) => e == cause,
                _ => false,
            }
        };
    each_field_has_its_entries(map, index.fields(), doc, timestamp, name);
    lemma_own_numbers(index);
    numbers_are_places(map, index.fields(), name, 0);
    numbers_are_places(map, index.fields(), "_body"@, 0);
    let body = body_entries(map, doc.fields.entries());
    Seq::filter_distributes_over_add(document_entries(map, doc, timestamp), body, own);
    assert(body.filter(own) =~= Seq::<EntryView>::empty()) by {
        reveal(Seq::filter);
        if body.len() > 0 {
            assert(body.drop_last() =~= Seq::<EntryView>::empty());
            assert(body.last().field == map["_body"@]);
            assert(Seq::<EntryView>::empty().filter(own) =~= Seq::<EntryView>::empty());
        }
    }
    assert(entry_views(entries@).filter(own) =~= held_for(map[name], doc@.fields[name]));
}

/// An index is opened under its own directory, at the place of all indexes, with the fields
/// that were asked for; the other indexes stay.
pub proof fn indexes_are_opened_in_their_place<
    E,
    C,
    F: FnOnce(Opening, Option<C>) -> Result<E, DbError>,
>(
    open: F,
    committed: Option<C>,
    base_path: Option<String>,
    collection: Seq<char>,
    fields: Seq<FieldView>,
    before: Map<Seq<char>, CollectionIndex<E>>,
    after: Map<Seq<char>, CollectionIndex<E>>,
    r: Result<(), DbError>,
    other: Seq<char>,
)
    requires
        CollectionIndexManager::<E>::opened(
            open,
            committed,
            base_path,
            collection,
            fields,
            before,
            after,
            r,
        ),
        other != collection,
    ensures
        after.contains_key(other) <==> before.contains_key(other),
        after.contains_key(other) ==> after[other] == before[other],
        r is Ok ==> after.contains_key(collection) && after[collection].fields() == fields
            && numbers(after[collection].field_map@, fields),
        r is Err ==> after == before,
        exists|o: Opening, reply: Result<E, DbError>|
            {
                &&& #[trigger] open.ensures((o, committed), reply)
                &&& o.directory@ == "idx_"@ + collection
                &&& o.base_path is Some <==> base_path is Some
                &&& o.base_path is Some ==> o.base_path->0@ == base_path->0@
                &&& schema_fields(o.schema) == fields
                &&& r is Ok ==> reply is Ok && after[collection].engine == reply->Ok_0
                &&& r is Err ==> reply is Err && r->Err_0 == reply->Err_0
            },
{
}

/// An index is rebuilt with what the commit of the one before gave, and where that commit
/// fails nothing changes.
pub proof fn rebuilding_keeps_what_was_written<
    E,
    C,
    F: FnOnce(Opening, Option<C>) -> Result<E, DbError>,
    H: FnOnce(&E) -> Result<C, DbError>,
>(
    commit: H,
    open: F,
    base_path: Option<String>,
    collection: Seq<char>,
    fields: Seq<FieldView>,
    before: Map<Seq<char>, CollectionIndex<E>>,
    after: Map<Seq<char>, CollectionIndex<E>>,
    r: Result<(), DbError>,
    other: Seq<char>,
)
    requires
        CollectionIndexManager::<E>::rebuilt(
            commit,
            open,
            base_path,
            collection,
            fields,
            before,
            after,
            r,
        ),
        other != collection,
        before.contains_key(collection),
    ensures
        after.contains_key(other) <==> before.contains_key(other),
        after.contains_key(other) ==> after[other] == before[other],
        r is Ok ==> after.contains_key(collection) && after[collection].fields() == fields,
        exists|c: Result<C, DbError>|
            {
                &&& #[trigger] commit.ensures((&before[collection].engine,), c)
                &&& c is Err ==> after == before && r is Err && r->Err_0 == c->Err_0
                &&& c is Ok ==> exists|o: Opening, reply: Result<E, DbError>| #[trigger]
                    open.ensures((o, Some(c->Ok_0)), reply) && schema_fields(o.schema) == fields
            },
{
    let rest = before.remove(collection);
    let c = choose|c: Result<C, DbError>|
        {
            &&& #[trigger] commit.ensures((&before[collection].engine,), c)
            &&& match c {
                Err(e) => r == Err::<(), DbError>(e) && after == before,
                Ok(c) => CollectionIndexManager::<E>::opened(
                    open,
                    Some(c),
                    base_path,
                    collection,
                    fields,
                    rest,
                    after,
                    r,
                ),
            }
        };
    if c is Ok {
        indexes_are_opened_in_their_place(
            open,
            Some(c->Ok_0),
            base_path,
            collection,
            fields,
            rest,
            after,
            r,
            other,
        );
    }
}

/// A mapping makes a schema where every name can stand in one and is not one of the schema's
/// own, while there are numbers for all fields.
pub proof fn mappings_of_free_names_make_a_schema(mapping: Map<Seq<char>, MappedFieldType>)
    requires
        mapping.dom().len() <= u32::MAX - 4,
        forall|name: Seq<char>| #[trigger]
            mapping.contains_key(name) ==> name.len() > 0 && name[0] != '-' && name != "_id"@
                && name != "_score"@ && name != "_timestamp"@ && name != "_body"@,
    ensures
        makes_a_schema(mapping, true),
        makes_a_schema(mapping, false),
{
    let own = own_fields(true);
    assert forall|name: Seq<char>| #[trigger] mapping.contains_key(name) implies !named(own, name)
        && !named(own_fields(false), name) by {
        if named(own, name) {
            let i = choose|i: int| 0 <= i < own.len() && (#[trigger] own[i]).name == name;
            assert(i == 0 || i == 1 || i == 2 || i == 3);
        }
        if named(own_fields(false), name) {
            let i = choose|i: int|
                0 <= i < own_fields(false).len() && (#[trigger] own_fields(false)[i]).name == name;
            assert(i == 0 || i == 1 || i == 2);
        }
    }
}

/// The writer of an index has fifty mebibytes, a search gives ten documents where it is not
/// told, and the reader keeps a hundred and twenty-eight blocks.
pub proof fn indexes_have_their_limits()
    ensures
        WRITER_HEAP_BYTES == 50 * 1024 * 1024,
        DEFAULT_SEARCH_LIMIT == 10,
        DOC_STORE_CACHE_BLOCKS == 128,
{
}

/// A search of a collection takes the query as it is written: a term is looked for exactly,
/// wildcards or not, and words are looked for without typing errors, whatever marks they
/// have; a range has both of its bounds.
pub proof fn collections_are_searched_literally<
    E,
    F: FnOnce(&E, Plan, usize) -> Result<Found, DbError>,
>(
    manager: CollectionIndexManager<E>,
    run: F,
    collection: Seq<char>,
    query: Query,
    limit: usize,
    found: Result<Found, DbError>,
)
    requires
        manager.asked(run, collection, query, limit, found),
    ensures
        exists|plan: Plan|
            {
                &&& #[trigger] run.ensures(
                    (&manager.collections@[collection].engine, plan, limit),
                    found,
                )
                &&& query@ matches QueryView::Term { field, value } ==> plan@ == (PlanView::Term {
                    field: manager.collections@[collection].field_map@[field],
                    value,
                })
                &&& query@ matches QueryView::FullText { field, query: words, operator }
                    ==> plan@ == (PlanView::Words {
                    field: manager.collections@[collection].field_map@[field],
                    text: words,
                    conjunction: operator == Operator::And,
                    fuzzy: None,
                })
                &&& query@ matches QueryView::Range { field, gte, lte } ==> plan@
                    == (PlanView::Range { field: manager.collections@[collection].field_map@[field], name: field, gte, lte })
                &&& query@ is Bool ==> plan@ is Bool
            },
{
}

} // verus!
