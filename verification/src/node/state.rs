//! The registry of collections and aliases.

use vstd::prelude::*;

use crate::model::mapping::{FieldMapping, MappedFieldType};
use crate::node::dto::{ErrorResponse, ErrorView};
use crate::table::Table;
use crate::text;

verus! {

/// What is kept of one collection.
pub struct CollectionMeta {
    pub name: String,
    /// The number of documents that were indexed.
    pub doc_count: u64,
    /// The types of the fields seen so far.
    pub mapping: FieldMapping,
    /// The settings that it was created with, as a JSON text: shards, replication,
    /// analyzers.
    pub settings: String,
}

/// The collections and the aliases that a node knows.
///
/// An alias names one or more collections.
pub struct Catalog {
    pub collections: Table<String, CollectionMeta>,
    pub aliases: Table<String, Vec<String>>,
}

/// The answer to a request for a collection that does not exist.
pub open spec fn no_collection(name: Seq<char>) -> ErrorView {
    ErrorView::not_found("collection '"@ + name + "' not found"@)
}

/// The answer to a request for a collection that does not exist.
pub fn collection_not_found(name: &str) -> (r: ErrorResponse)
    ensures
        r@ == no_collection(name@),
{
    ErrorResponse::not_found(text::concat3("collection '", name, "' not found").as_str())
}

impl Catalog {
    /// A registry without collections and aliases.
    pub fn new() -> (r: Self)
        ensures
            r.collections@ == Map::<Seq<char>, CollectionMeta>::empty(),
            r.aliases@ == Map::<Seq<char>, Vec<String>>::empty(),
    {
        Catalog { collections: Table::new(), aliases: Table::new() }
    }

    /// The collection `name` exists.
    pub open spec fn has(&self, name: Seq<char>) -> bool {
        self.collections@.contains_key(name)
    }

    /// Whether the collection `name` exists.
    pub fn has_collection(&self, name: &str) -> (r: bool)
        ensures
            r == self.has(name@),
    {
        let key = name.to_owned();
        self.collections.contains_key(&key)
    }

    /// The mapping of the collection `name`, or an empty one.
    pub open spec fn mapping_view(&self, name: Seq<char>) -> Map<Seq<char>, MappedFieldType> {
        if self.has(name) {
            self.collections@[name].mapping@
        } else {
            Map::empty()
        }
    }

    /// A copy of the mapping of the collection `name`, or an empty one.
    pub fn mapping_of(&self, name: &str) -> (m: FieldMapping)
        ensures
            m@ == self.mapping_view(name@),
    {
        let key = name.to_owned();
        match self.collections.get(&key) {
            Some(meta) => meta.mapping.clone(),
            None => FieldMapping::new(),
        }
    }

    /// The collections after `name` got `docs` more documents and, where one is
    /// given, a new mapping.  A collection that does not exist stays absent.
    pub open spec fn credited(
        before: Map<Seq<char>, CollectionMeta>,
        name: Seq<char>,
        docs: int,
        mapping: Option<FieldMapping>,
    ) -> Map<Seq<char>, CollectionMeta> {
        if before.contains_key(name) {
            let meta = before[name];
            before.insert(
                name,
                CollectionMeta {
                    name: meta.name,
                    doc_count: (meta.doc_count + docs) as u64,
                    mapping: match mapping {
                        Some(m) => m,
                        None => meta.mapping,
                    },
                    settings: meta.settings,
                },
            )
        } else {
            before
        }
    }

    /// Give the collection `name` `docs` more documents and, where one is given,
    /// a new mapping.
    pub fn credit(&mut self, name: &str, docs: u64, mapping: Option<FieldMapping>)
        requires
            old(self).has(name@) ==> old(self).collections@[name@].doc_count + docs <= u64::MAX,
        ensures
            final(self).collections@ == Catalog::credited(
                old(self).collections@,
                name@,
                docs as int,
                mapping,
            ),
            final(self).aliases == old(self).aliases,
    {
        let key = name.to_owned();
        match self.collections.remove(&key) {
            Some(meta) => {
                let ghost before = old(self).collections@;
                let doc_count: u64 = meta.doc_count + docs;
                let updated = CollectionMeta {
                    name: meta.name,
                    doc_count,
                    mapping: match mapping {
                        Some(m) => m,
                        None => meta.mapping,
                    },
                    settings: meta.settings,
                };
                self.collections.insert(key, updated);
                assert(before.remove(name@).insert(name@, updated) =~= before.insert(
                    name@,
                    updated,
                ));
            },
            None => {
                assert(self.collections@ =~= old(self).collections@);
            },
        }
    }

    /// The collections after one document left `name`; a count of zero stays.
    pub open spec fn debited(
        before: Map<Seq<char>, CollectionMeta>,
        name: Seq<char>,
    ) -> Map<Seq<char>, CollectionMeta> {
        if before.contains_key(name) && before[name].doc_count > 0 {
            Catalog::credited(before, name, -1, None)
        } else {
            before
        }
    }

    /// Take one document off the count of the collection `name`.
    pub fn debit(&mut self, name: &str)
        ensures
            final(self).collections@ == Catalog::debited(old(self).collections@, name@),
            final(self).aliases == old(self).aliases,
    {
        let key = name.to_owned();
        let ghost before = self.collections@;
        match self.collections.remove(&key) {
            Some(meta) => {
                let doc_count: u64 = meta.doc_count.saturating_sub(1);
                let updated = CollectionMeta {
                    name: meta.name,
                    doc_count,
                    mapping: meta.mapping,
                    settings: meta.settings,
                };
                self.collections.insert(key, updated);
                assert(before.remove(name@).insert(name@, updated) =~= before.insert(
                    name@,
                    updated,
                ));
                if meta.doc_count == 0 {
                    assert(updated == before[name@]);
                    assert(before.insert(name@, updated) =~= before);
                }
            },
            None => {
                assert(self.collections@ =~= before);
            },
        }
    }
}

/// A document that comes and goes leaves the counts as they were.
pub proof fn credit_then_debit(
    before: Map<Seq<char>, CollectionMeta>,
    name: Seq<char>,
)
    requires
        before.contains_key(name) ==> before[name].doc_count < u64::MAX,
    ensures
        Catalog::debited(Catalog::credited(before, name, 1, None), name) == before,
{
    let there = Catalog::credited(before, name, 1, None);
    if before.contains_key(name) {
        let back = Catalog::debited(there, name);
        assert(back[name] == before[name]);
        assert(back =~= before);
    }
}

/// Crediting or debiting one collection leaves every other one alone.
pub proof fn other_collections_untouched(
    before: Map<Seq<char>, CollectionMeta>,
    name: Seq<char>,
    other: Seq<char>,
    docs: int,
    mapping: Option<FieldMapping>,
)
    requires
        name != other,
    ensures
        Catalog::credited(before, name, docs, mapping).contains_key(other) == before.contains_key(
            other,
        ),
        Catalog::debited(before, name).contains_key(other) == before.contains_key(other),
        before.contains_key(other) ==> Catalog::credited(before, name, docs, mapping)[other]
            == before[other] && Catalog::debited(before, name)[other] == before[other],
{
}

// ---------------------------------------------------------------------------
// Laws
// ---------------------------------------------------------------------------

/// Documents are added to the count of their collection, and its mapping is replaced where one
/// is given; its name and its settings stay, and a collection that does not exist does not
/// come to be.
pub proof fn collections_are_credited(
    before: Map<Seq<char>, CollectionMeta>,
    name: Seq<char>,
    docs: int,
    mapping: Option<FieldMapping>,
)
    requires
        before.contains_key(name) ==> 0 <= before[name].doc_count + docs <= u64::MAX,
    ensures
        !before.contains_key(name) ==> Catalog::credited(before, name, docs, mapping) == before,
        before.contains_key(name) ==> {
            let after = Catalog::credited(before, name, docs, mapping);
            &&& after.dom() == before.dom()
            &&& after[name].doc_count == before[name].doc_count + docs
            &&& after[name].name == before[name].name
            &&& after[name].settings == before[name].settings
            &&& mapping matches Some(m) ==> after[name].mapping == m
            &&& mapping is None ==> after[name].mapping == before[name].mapping
        },
{
    if before.contains_key(name) {
        assert(Catalog::credited(before, name, docs, mapping).dom() =~= before.dom());
    }
}

/// A document that leaves is taken off the count of its collection, which does not fall below
/// zero, and nothing else changes of it.
pub proof fn collections_are_debited(before: Map<Seq<char>, CollectionMeta>, name: Seq<char>)
    requires
        before.contains_key(name),
    ensures
        ({
            let after = Catalog::debited(before, name);
            &&& after.contains_key(name)
            &&& before[name].doc_count > 0 ==> after[name].doc_count == before[name].doc_count - 1
            &&& before[name].doc_count == 0 ==> after[name].doc_count == 0
            &&& after[name].name == before[name].name
            &&& after[name].settings == before[name].settings
            &&& after[name].mapping == before[name].mapping
        }),
{
}

/// The mapping of a collection is its own, and one that does not exist has an empty one; the
/// answer to a request for that one names it.
pub proof fn missing_collections_are_empty(catalog: Catalog, name: Seq<char>)
    ensures
        catalog.has(name) <==> catalog.collections@.contains_key(name),
        catalog.has(name) ==> catalog.mapping_view(name) == catalog.collections@[name].mapping@,
        !catalog.has(name) ==> catalog.mapping_view(name).dom() =~= Set::empty(),
        no_collection(name) == (ErrorView {
            status: 404,
            error_type: "not_found"@,
            reason: "collection '"@ + name + "' not found"@,
        }),
{
}

} // verus!
