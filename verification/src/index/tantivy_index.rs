//! A search index over a fixed list of fields.

use std::sync::Arc;

use tantivy::schema::Schema;
use vstd::prelude::*;

use crate::clock::elapsed_since;
use crate::index::collection_index::{search_result, DEFAULT_SEARCH_LIMIT};
use crate::index::entries::{
    document_entries, each_field_has_its_entries, entry_views, first_value, held_for, meta_entries, number_of, read_hits, to_tantivy_doc,
    Entry, EntryView, Found, ValueView,
};
use crate::index::fields::{numbers, schema_fields, FieldMap, FieldView};
use crate::index::queries::{plan_of, translate_query, Plan};
use crate::index::schema_builder::{
    described_fields, makes_a_schema, meta_fields, DynamicSchemaBuilder, FieldConfig,
    SchemaConfig,
};
use crate::model::document::Document;
use crate::model::error::DbError;
use crate::model::query::{Query, SearchResult};
use crate::table::{distinct_keys, Table};

verus! {

/// The field cannot be read back: it is neither stored nor indexed.
pub open spec fn unreadable(configs: Seq<FieldConfig>, number: u32) -> bool {
    &&& 3 <= number < configs.len() + 3
    &&& !configs[number - 3].stored
    &&& !configs[number - 3].indexed
}

/// The numbers of the fields that cannot be read back.
pub fn hidden_fields(config: &SchemaConfig) -> (hidden: Vec<u32>)
    requires
        config.fields@.len() + 3 <= u32::MAX,
    ensures
        forall|n: u32| hidden@.contains(n) <==> #[trigger] unreadable(config.fields@, n),
{
    let mut hidden: Vec<u32> = Vec::new();
    let mut i: usize = 0;
    while i < config.fields.len()
        invariant
            i <= config.fields@.len(),
            config.fields@.len() + 3 <= u32::MAX,
            forall|n: u32|
                #![trigger hidden@.contains(n)]
                #![trigger unreadable(config.fields@, n)]
                hidden@.contains(n) <==> (unreadable(config.fields@, n) && n < i + 3),
        decreases config.fields@.len() - i,
    {
        let ghost before = hidden@;
        let hide = !config.fields[i].stored && !config.fields[i].indexed;
        let number: u32 = i as u32 + 3;
        if hide {
            hidden.push(number);
        }
        proof {
            assert(number - 3 == i);
            assert(unreadable(config.fields@, number) == hide);
            if hide {
                assert(hidden@[before.len() as int] == number);
            }
            assert forall|n: u32|
                #![trigger hidden@.contains(n)]
                #![trigger unreadable(config.fields@, n)]
                hidden@.contains(n) <==> (unreadable(config.fields@, n) && n < i + 4) by {
                if before.contains(n) {
                    let k = choose|k: int| 0 <= k < before.len() && before[k] == n;
                    assert(hidden@[k] == n);
                }
                if hidden@.contains(n) {
                    let k = choose|k: int| 0 <= k < hidden@.len() && hidden@[k] == n;
                    if k < before.len() {
                        assert(before[k] == n);
                        assert(before.contains(n));
                    } else {
                        assert(n == number);
                    }
                }
            }
        }
        i = i + 1;
    }
    hidden
}

/// A search index: an engine, its schema, and what is known of its fields.
pub struct TantivyIndex<E> {
    pub engine: E,
    pub schema: Arc<Schema>,
    pub field_map: FieldMap,
    /// The numbers of the fields that cannot be read back.
    pub hidden: Vec<u32>,
}

impl<E> TantivyIndex<E> {
    /// The fields of the schema.
    pub open spec fn fields(&self) -> Seq<FieldView> {
        schema_fields(*self.schema)
    }

    /// The numbers are those of the schema, which begins with the fields of its own.
    pub open spec fn wf(&self) -> bool {
        &&& numbers(self.field_map@, self.fields())
        &&& self.fields().len() >= 3
        &&& self.fields().take(3) == meta_fields()
    }

    /// The index was made for these fields: the engine is what `open` gave for the
    /// place and the schema.
    pub open spec fn made<F: FnOnce(Option<String>, Schema) -> Result<E, DbError>>(
        r: Result<Self, DbError>,
        configs: Seq<FieldConfig>,
        path: Option<String>,
        open: F,
    ) -> bool {
        let fields = described_fields(configs, configs.len() as int);
        exists|schema: Schema, reply: Result<E, DbError>|
            {
                &&& #[trigger] open.ensures((path, schema), reply)
                &&& schema_fields(schema) == fields
                &&& match (r, reply) {
                    (Ok(index), Ok(engine)) => {
                        &&& index.engine == engine
                        &&& index.fields() == fields
                        &&& index.wf()
                        &&& forall|n: u32|
                            index.hidden@.contains(n) <==> #[trigger] unreadable(configs, n)
                    },
                    (Err(e), Err(cause)) => e == cause,
                    _ => false,
                }
            }
    }

    fn make<F: FnOnce(Option<String>, Schema) -> Result<E, DbError>>(
        path: Option<String>,
        config: &SchemaConfig,
        open: F,
    ) -> (r: Result<Self, DbError>)
        requires
            makes_a_schema(config.fields@),
            forall|p: Option<String>, s: Schema| #[trigger] open.requires((p, s)),
        ensures
            Self::made(r, config.fields@, path, open),
    {
        let (schema, field_map) = DynamicSchemaBuilder::build(config);
        let hidden = hidden_fields(config);
        let copy: Schema = (*schema).clone();
        let reply = open(path, copy);
        assert(open.ensures((path, copy), reply));
        match reply {
            Ok(engine) => {
                let index = TantivyIndex { engine, schema, field_map, hidden };
                assert(index.fields().take(3) =~= meta_fields());
                Ok(index)
            },
            Err(e) => Err(e),
        }
    }

    /// An index on disk.
    pub fn new<F: FnOnce(Option<String>, Schema) -> Result<E, DbError>>(
        index_path: &str,
        config: &SchemaConfig,
        open: F,
    ) -> (r: Result<Self, DbError>)
        requires
            makes_a_schema(config.fields@),
            forall|p: Option<String>, s: Schema| #[trigger] open.requires((p, s)),
        ensures
            exists|path: String|
                path@ == index_path@ && #[trigger] Self::made(r, config.fields@, Some(path), open),
    {
        let path = index_path.to_owned();
        let r = Self::make(Some(path), config, open);
        assert(Self::made(r, config.fields@, Some(path), open));
        r
    }

    /// An index in memory.
    pub fn new_in_ram<F: FnOnce(Option<String>, Schema) -> Result<E, DbError>>(
        config: &SchemaConfig,
        open: F,
    ) -> (r: Result<Self, DbError>)
        requires
            makes_a_schema(config.fields@),
            forall|p: Option<String>, s: Schema| #[trigger] open.requires((p, s)),
        ensures
            Self::made(r, config.fields@, None, open),
    {
        Self::make(None, config, open)
    }

    /// The engine.
    pub fn inner_index(&self) -> (e: &E)
        ensures
            *e == self.engine,
    {
        &self.engine
    }

    /// The schema.
    pub fn schema(&self) -> (s: &Arc<Schema>)
        ensures
            *s == self.schema,
    {
        &self.schema
    }

    /// The numbers of the fields.
    pub fn field_map(&self) -> (m: &FieldMap)
        ensures
            *m == self.field_map,
    {
        &self.field_map
    }

    /// Add a document; it is found after the next commit.
    pub fn index_document_sync<G: FnOnce(&E, Vec<Entry>) -> Result<(), DbError>>(
        &self,
        doc: &Document,
        timestamp: u64,
        write: G,
    ) -> (r: Result<(), DbError>)
        requires
            forall|e: &E, entries: Vec<Entry>| #[trigger] write.requires((e, entries)),
        ensures
            exists|entries: Vec<Entry>|
                {
                    &&& #[trigger] write.ensures((&self.engine, entries), r)
                    &&& entry_views(entries@) == document_entries(
                        self.field_map@,
                        *doc,
                        timestamp,
                    )
                },
    {
        let entries = to_tantivy_doc(&self.field_map, doc, timestamp);
        let r = write(&self.engine, entries);
        assert(write.ensures((&self.engine, entries), r));
        r
    }

    /// Make what was written visible to searches; the number of the commit.
    pub fn commit<F: FnOnce(&E) -> Result<u64, DbError>>(&self, commit: F) -> (r: Result<
        u64,
        DbError,
    >)
        requires
            forall|e: &E| #[trigger] commit.requires((e,)),
        ensures
            commit.ensures((&self.engine,), r),
    {
        commit(&self.engine)
    }

    /// Search for up to `limit` documents.  How long it took is not stated.
    pub fn search_sync<F: FnOnce(&E, Plan, usize) -> Result<Found, DbError>>(
        &self,
        query: &Query,
        limit: usize,
        run: F,
    ) -> (r: Result<SearchResult, DbError>)
        requires
            forall|e: &E, plan: Plan, limit: usize| #[trigger] run.requires((e, plan, limit)),
        ensures
            match plan_of(query@, self.field_map@, true) {
                Err(text) => r matches Err(DbError::InvalidInput(m)) && m@ == text,
                Ok(view) => exists|plan: Plan, found: Result<Found, DbError>|
                    {
                        &&& #[trigger] run.ensures((&self.engine, plan, limit), found)
                        &&& plan@ == view
                        &&& search_result(r, found, self.field_map@, self.hidden@)
                    },
            },
    {
        let start = std::time::Instant::now();
        let plan = match translate_query(query, &self.field_map, true) {
            Ok(plan) => plan,
            Err(e) => {
                return Err(e);
            },
        };
        let found = run(&self.engine, plan, limit);
        assert(run.ensures((&self.engine, plan, limit), found));
        match found {
            Ok(f) => {
                let documents = read_hits(&f.hits, &self.field_map, &self.hidden);
                let total: u64 = f.total;
                let took_ms: u64 = elapsed_since(&start).as_millis() as u64;
                Ok(SearchResult { documents, total, took_ms, aggregations: Table::new() })
            },
            Err(e) => Err(e),
        }
    }

    /// Search for the usual number of documents.
    pub fn search<F: FnOnce(&E, Plan, usize) -> Result<Found, DbError>>(
        &self,
        query: &Query,
        run: F,
    ) -> (r: Result<SearchResult, DbError>)
        requires
            forall|e: &E, plan: Plan, limit: usize| #[trigger] run.requires((e, plan, limit)),
        ensures
            match plan_of(query@, self.field_map@, true) {
                Err(text) => r matches Err(DbError::InvalidInput(m)) && m@ == text,
                Ok(view) => exists|plan: Plan, found: Result<Found, DbError>|
                    {
                        &&& #[trigger] run.ensures(
                            (&self.engine, plan, DEFAULT_SEARCH_LIMIT),
                            found,
                        )
                        &&& plan@ == view
                        &&& search_result(r, found, self.field_map@, self.hidden@)
                    },
            },
    {
        self.search_sync(query, DEFAULT_SEARCH_LIMIT, run)
    }

    /// Delete a document: the engine is given the number of the field that holds
    /// identifiers, and the identifier.
    pub fn delete_document_sync<D, F: FnOnce(&E, u32, &str) -> Result<D, DbError>>(
        &self,
        id: &str,
        delete: F,
    ) -> (r: Result<D, DbError>)
        requires
            self.wf(),
            forall|e: &E, field: u32, id: &str| #[trigger] delete.requires((e, field, id)),
        ensures
            delete.ensures((&self.engine, 0u32, id), r),
    {
        proof {
            assert(self.fields().take(3)[0] == self.fields()[0]);
            assert(self.fields()[0].name == "_id"@);
        }
        let field = match number_of(&self.field_map, "_id") {
            Some(field) => field,
            None => {
                return Err(DbError::IndexError("_id field not in schema".to_owned()));
            },
        };
        delete(&self.engine, field, id)
    }

    /// The entries of the document were handed to the engine behind the deletion that gave
    /// `deleted`.
    pub open spec fn replaced<D, W, G: FnOnce(&E, D, Vec<Entry>) -> Result<W, DbError>>(
        &self,
        doc: Document,
        timestamp: u64,
        write: G,
        deleted: D,
        r: Result<W, DbError>,
    ) -> bool {
        exists|entries: Vec<Entry>|
            {
                &&& #[trigger] write.ensures((&self.engine, deleted, entries), r)
                &&& entry_views(entries@) == document_entries(self.field_map@, doc, timestamp)
            }
    }

    /// Put a document in the place of the one with the same identifier: that one is
    /// deleted first, and nothing is added where that fails.  The write takes what the
    /// deletion gave.
    pub fn update_document_sync<
        D,
        W,
        F: FnOnce(&E, u32, &str) -> Result<D, DbError>,
        G: FnOnce(&E, D, Vec<Entry>) -> Result<W, DbError>,
    >(&self, doc: &Document, timestamp: u64, delete: F, write: G) -> (r: Result<W, DbError>)
        requires
            self.wf(),
            forall|e: &E, field: u32, id: &str| #[trigger] delete.requires((e, field, id)),
            forall|e: &E, d: D, entries: Vec<Entry>| #[trigger] write.requires((e, d, entries)),
        ensures
            exists|id: &str, deleted: Result<D, DbError>|
                {
                    &&& id@ == doc.id@
                    &&& #[trigger] delete.ensures((&self.engine, 0u32, id), deleted)
                    &&& match deleted {
                        Err(e) => r == Err::<W, DbError>(e),
                        Ok(d) => self.replaced(*doc, timestamp, write, d, r),
                    }
                },
    {
        let id = doc.id.as_str();
        let deleted = self.delete_document_sync(id, delete);
        assert(delete.ensures((&self.engine, 0u32, id), deleted));
        match deleted {
            Ok(d) => {
                let entries = to_tantivy_doc(&self.field_map, doc, timestamp);
                let r = write(&self.engine, d, entries);
                assert(write.ensures((&self.engine, d, entries), r));
                assert(self.replaced(*doc, timestamp, write, d, r));
                r
            },
            Err(e) => Err(e),
        }
    }

    /// Add a document, or put it in the place of the one with the same identifier, so that
    /// searches find it at once: delete, write and commit, each behind the one before and
    /// only where that has succeeded.
    pub fn index_document<
        D,
        W,
        F: FnOnce(&E, u32, &str) -> Result<D, DbError>,
        G: FnOnce(&E, D, Vec<Entry>) -> Result<W, DbError>,
        H: FnOnce(&E, W) -> Result<(), DbError>,
    >(&self, doc: &Document, timestamp: u64, delete: F, write: G, commit: H) -> (r: Result<
        (),
        DbError,
    >)
        requires
            self.wf(),
            forall|e: &E, field: u32, id: &str| #[trigger] delete.requires((e, field, id)),
            forall|e: &E, d: D, entries: Vec<Entry>| #[trigger] write.requires((e, d, entries)),
            forall|e: &E, w: W| #[trigger] commit.requires((e, w)),
        ensures
            exists|id: &str, deleted: Result<D, DbError>|
                {
                    &&& id@ == doc.id@
                    &&& #[trigger] delete.ensures((&self.engine, 0u32, id), deleted)
                    &&& match deleted {
                        Err(e) => r == Err::<(), DbError>(e),
                        Ok(d) => exists|written: Result<W, DbError>|
                            {
                                &&& #[trigger] self.replaced(*doc, timestamp, write, d, written)
                                &&& match written {
                                    Err(e) => r == Err::<(), DbError>(e),
                                    Ok(w) => commit.ensures((&self.engine, w), r),
                                }
                            },
                    }
                },
    {
        match self.update_document_sync(doc, timestamp, delete, write) {
            Ok(w) => commit(&self.engine, w),
            Err(e) => Err(e),
        }
    }
}

// ---------------------------------------------------------------------------
// Laws
// ---------------------------------------------------------------------------

/// The entries are of a document with this identifier, which stands in the field `field`.
pub open spec fn has_id(entries: Seq<EntryView>, field: u32, id: Seq<char>) -> bool {
    first_value(entries, field) == Some(ValueView::Text(id))
}

/// The documents of an index with this identifier.
pub open spec fn with_id(contents: Seq<Seq<EntryView>>, field: u32, id: Seq<char>) -> Seq<
    Seq<EntryView>,
>
    decreases contents.len(),
{
    if contents.len() == 0 {
        contents
    } else {
        let front = with_id(contents.drop_last(), field, id);
        if has_id(contents.last(), field, id) {
            front.push(contents.last())
        } else {
            front
        }
    }
}

/// The documents of an index without those that have this identifier.
pub open spec fn without_id(contents: Seq<Seq<EntryView>>, field: u32, id: Seq<char>) -> Seq<
    Seq<EntryView>,
>
    decreases contents.len(),
{
    if contents.len() == 0 {
        contents
    } else {
        let front = without_id(contents.drop_last(), field, id);
        if has_id(contents.last(), field, id) {
            front
        } else {
            front.push(contents.last())
        }
    }
}

/// Deleting by the identifier and then adding the document leaves exactly one document with
/// that identifier, the new one, whatever the index held; the other documents stay.
pub proof fn replacing_leaves_one(
    map: Map<Seq<char>, u32>,
    contents: Seq<Seq<EntryView>>,
    doc: Document,
    timestamp: u64,
    other: Seq<char>,
)
    requires
        map.contains_key("_id"@),
        other != doc.id@,
    ensures
        ({
            let field = map["_id"@];
            let new = document_entries(map, doc, timestamp);
            let after = without_id(contents, field, doc.id@).push(new);
            &&& with_id(after, field, doc.id@) == seq![new]
            &&& with_id(after, field, other) == with_id(contents, field, other)
        }),
{
    let field = map["_id"@];
    let new = document_entries(map, doc, timestamp);
    let rest = without_id(contents, field, doc.id@);
    let meta = meta_entries(map, doc.id@, timestamp);
    assert(new[0] == meta[0]);
    assert(meta[0] == (EntryView { field, value: ValueView::Text(doc.id@) }));
    assert(has_id(new, field, doc.id@));
    lemma_without_id(contents, field, doc.id@, other);
    assert(rest.push(new).drop_last() =~= rest);
    assert(with_id(rest.push(new), field, doc.id@) =~= seq![new]);
}

proof fn lemma_without_id(
    contents: Seq<Seq<EntryView>>,
    field: u32,
    id: Seq<char>,
    other: Seq<char>,
)
    requires
        other != id,
    ensures
        with_id(without_id(contents, field, id), field, id) == Seq::<Seq<EntryView>>::empty(),
        with_id(without_id(contents, field, id), field, other) == with_id(contents, field, other),
    decreases contents.len(),
{
    if contents.len() > 0 {
        let front = without_id(contents.drop_last(), field, id);
        lemma_without_id(contents.drop_last(), field, id, other);
        assert(front.push(contents.last()).drop_last() =~= front);
    }
}

/// A field cannot be read back exactly where it is described as neither stored nor indexed;
/// the schema's own fields always can.
pub proof fn described_fields_can_be_read(configs: Seq<FieldConfig>, number: u32, i: int)
    requires
        0 <= i < configs.len(),
        configs.len() + 3 <= u32::MAX,
    ensures
        number < 3 ==> !unreadable(configs, number),
        number >= configs.len() + 3 ==> !unreadable(configs, number),
        unreadable(configs, (i + 3) as u32) <==> !configs[i].stored && !configs[i].indexed,
{
}

/// The documents of an identifier, and the others, are those of the index that have it and
/// that do not, in their order.
pub proof fn documents_are_told_apart_by_identifier(
    contents: Seq<Seq<EntryView>>,
    field: u32,
    id: Seq<char>,
)
    ensures
        with_id(contents, field, id) == contents.filter(
            |e: Seq<EntryView>| first_value(e, field) == Some(ValueView::Text(id)),
        ),
        without_id(contents, field, id) == contents.filter(
            |e: Seq<EntryView>| first_value(e, field) != Some(ValueView::Text(id)),
        ),
    decreases contents.len(),
{
    reveal(Seq::filter);
    if contents.len() > 0 {
        documents_are_told_apart_by_identifier(contents.drop_last(), field, id);
    }
}

/// What is handed to the engine in the place of a document holds, for each field that the
/// schema knows, the entries that its value asks for.
pub proof fn replacements_hold_the_document<E, D, W, G: FnOnce(&E, D, Vec<Entry>) -> Result<W, DbError>>(
    index: TantivyIndex<E>,
    doc: Document,
    timestamp: u64,
    write: G,
    deleted: D,
    r: Result<W, DbError>,
    name: Seq<char>,
)
    requires
        index.wf(),
        index.replaced(doc, timestamp, write, deleted, r),
        index.field_map@.contains_key(name),
        name != "_id"@,
        name != "_timestamp"@,
        doc@.fields.contains_key(name),
        distinct_keys(doc.fields.entries()),
    ensures
        exists|entries: Vec<Entry>|
            {
                &&& #[trigger] write.ensures((&index.engine, deleted, entries), r)
                &&& entry_views(entries@).filter(
                    |e: EntryView| e.field == index.field_map@[name],
                ) == held_for(index.field_map@[name], doc@.fields[name])
            },
{
    each_field_has_its_entries(index.field_map@, index.fields(), doc, timestamp, name);
}

/// An index that was made has the engine that was opened for its place and its fields, begins
/// with the schema's own fields, and hides the fields that can neither be had back nor
/// searched; where the engine could not be opened there is no index.
pub proof fn indexes_are_made_for_their_fields<
    E,
    F: FnOnce(Option<String>, Schema) -> Result<E, DbError>,
>(
    r: Result<TantivyIndex<E>, DbError>,
    configs: Seq<FieldConfig>,
    path: Option<String>,
    open: F,
    i: int,
)
    requires
        TantivyIndex::<E>::made(r, configs, path, open),
        0 <= i < configs.len(),
        configs.len() + 3 <= u32::MAX,
    ensures
        r matches Ok(index) ==> {
            &&& index.wf()
            &&& index.fields().len() == configs.len() + 3
            &&& index.fields()[i + 3].name == configs[i].name@
            &&& index.hidden@.contains((i + 3) as u32) <==> !configs[i].stored
                && !configs[i].indexed
            &&& !index.hidden@.contains(0u32)
        },
        exists|schema: Schema, reply: Result<E, DbError>|
            {
                &&& #[trigger] open.ensures((path, schema), reply)
                &&& schema_fields(schema).len() == configs.len() + 3
                &&& r is Ok <==> reply is Ok
                &&& r is Ok ==> r->Ok_0.engine == reply->Ok_0
                &&& r is Err ==> r->Err_0 == reply->Err_0
            },
{
    if r is Ok {
        assert(r->Ok_0.hidden@.contains((i + 3) as u32) <==> unreadable(configs, (i + 3) as u32));
        assert(r->Ok_0.hidden@.contains(0u32) <==> unreadable(configs, 0u32));
    }
}

} // verus!
