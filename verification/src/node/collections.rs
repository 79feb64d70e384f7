//! Creating, deleting and listing collections.

use vstd::prelude::*;

use crate::index::schema_builder::SchemaConfig;
use crate::model::error::DbError;
use crate::model::mapping::{FieldMapping, MappedFieldType};
use crate::node::dto::{
    CollectionInfoResponse, CreateCollectionRequest, ErrorResponse, ErrorView,
};
use crate::node::errors::{answer_to, db_error_to_response};
use crate::node::state::{collection_not_found, no_collection, CollectionMeta, Catalog};
use crate::text;

verus! {

/// The work that the creation of a collection has to do next.
#[derive(Clone, Copy, Debug, PartialEq, Eq, Structural)]
pub enum CreateStage {
    /// Propose the collection to the cluster.
    Propose,
    /// Create the collection's storage.
    CreateStorage,
    /// Create the collection's index.
    CreateIndex,
    /// Nothing: the client has been answered.
    Done,
}

impl CreateStage {
    /// What comes after this stage where nothing fails.
    pub open spec fn following(self) -> CreateStage {
        match self {
            CreateStage::Propose => CreateStage::CreateStorage,
            CreateStage::CreateStorage => CreateStage::CreateIndex,
            _ => CreateStage::Done,
        }
    }
}

/// A collection about to be created.
pub struct CollectionCreate {
    pub name: String,
    /// The schema that is proposed to the cluster.
    pub schema: SchemaConfig,
    pub settings: String,
    pub stage: CreateStage,
}

/// The answer to the creation of something that exists.
pub open spec fn already_exists(what: Seq<char>, name: Seq<char>) -> ErrorView {
    ErrorView {
        status: 409,
        error_type: "resource_already_exists"@,
        reason: what + name + "' already exists"@,
    }
}

/// A collection without documents and fields.
pub open spec fn is_fresh(meta: CollectionMeta, name: Seq<char>, settings: Seq<char>) -> bool {
    &&& meta.name@ == name
    &&& meta.settings@ == settings
    &&& meta.doc_count == 0
    &&& meta.mapping@ == Map::<Seq<char>, MappedFieldType>::empty()
}

/// Begin to create the collection `name`.  A request that names no schema asks for one
/// without fields, and one that names no settings for none.
pub fn create_collection(registry: &Catalog, name: &str, body: CreateCollectionRequest) -> (r:
    Result<CollectionCreate, ErrorResponse>)
    ensures
        match r {
            Ok(c) => {
                &&& !registry.has(name@)
                &&& c.name@ == name@
                &&& c.stage == CreateStage::Propose
                &&& match body.schema {
                    Some(s) => c.schema == s,
                    None => c.schema.fields@.len() == 0,
                }
                &&& c.settings@ == match body.settings {
                    Some(s) => s@,
                    None => "{}"@,
                }
            },
            Err(e) => registry.has(name@) && e@ == already_exists("collection '"@, name@),
        },
{
    if registry.has_collection(name) {
        let reason = text::concat3("collection '", name, "' already exists");
        return Err(ErrorResponse::new(409, "resource_already_exists", reason.as_str()));
    }
    let schema = match body.schema {
        Some(s) => s,
        None => SchemaConfig::new(),
    };
    let settings = match body.settings {
        Some(s) => s,
        None => "{}".to_owned(),
    };
    Ok(CollectionCreate { name: name.to_owned(), schema, settings, stage: CreateStage::Propose })
}

impl CollectionCreate {
    /// Take note of how the work went.  A failure ends the creation; behind the
    /// last piece of work the collection is entered into the registry.
    pub fn advance(&mut self, outcome: Result<(), DbError>, registry: &mut Catalog) -> (reply:
        Option<Result<CollectionInfoResponse, ErrorResponse>>)
        requires
            old(self).stage != CreateStage::Done,
        ensures
            final(self).name == old(self).name,
            final(self).schema == old(self).schema,
            final(self).settings == old(self).settings,
            final(registry).aliases == old(registry).aliases,
            match outcome {
                Err(e) => {
                    &&& final(self).stage == CreateStage::Done
                    &&& final(registry).collections@ == old(registry).collections@
                    &&& reply matches Some(Err(resp))
                    &&& resp@ == answer_to(e)
                },
                Ok(_) => {
                    &&& final(self).stage == old(self).stage.following()
                    &&& if old(self).stage == CreateStage::CreateIndex {
                        &&& reply matches Some(Ok(resp))
                        &&& resp.name@ == old(self).name@
                        &&& resp.doc_count == 0
                        &&& resp.mapping is None
                        &&& resp.settings@ == old(self).settings@
                        &&& final(registry).has(old(self).name@)
                        &&& is_fresh(
                            final(registry).collections@[old(self).name@],
                            old(self).name@,
                            old(self).settings@,
                        )
                        &&& final(registry).collections@ == old(registry).collections@.insert(
                            old(self).name@,
                            final(registry).collections@[old(self).name@],
                        )
                    } else {
                        &&& reply is None
                        &&& final(registry).collections@ == old(registry).collections@
                    }
                },
            },
    {
        match outcome {
            Err(e) => {
                self.stage = CreateStage::Done;
                Some(Err(db_error_to_response(e).1))
            },
            Ok(_) => match self.stage {
                CreateStage::Propose => {
                    self.stage = CreateStage::CreateStorage;
                    None
                },
                CreateStage::CreateStorage => {
                    self.stage = CreateStage::CreateIndex;
                    None
                },
                _ => {
                    self.stage = CreateStage::Done;
                    let meta = CollectionMeta {
                        name: self.name.clone(),
                        doc_count: 0,
                        mapping: FieldMapping::new(),
                        settings: self.settings.clone(),
                    };
                    registry.collections.insert(self.name.clone(), meta);
                    Some(
                        Ok(
                            CollectionInfoResponse {
                                name: self.name.clone(),
                                doc_count: 0,
                                mapping: None,
                                settings: self.settings.clone(),
                            },
                        ),
                    )
                },
            },
        }
    }
}

/// The work that the deletion of a collection has to do next.
#[derive(Clone, Copy, Debug, PartialEq, Eq, Structural)]
pub enum DropStage {
    /// Propose the deletion to the cluster.
    Propose,
    /// Drop the collection's storage.
    DropStorage,
    /// Drop the collection's index.
    DropIndex,
    /// Nothing: the client has been answered.
    Done,
}

impl DropStage {
    /// What comes after this stage of a deletion that was accepted.
    pub open spec fn following(self) -> DropStage {
        match self {
            DropStage::Propose => DropStage::DropStorage,
            DropStage::DropStorage => DropStage::DropIndex,
            _ => DropStage::Done,
        }
    }
}

/// A collection about to be deleted.
pub struct CollectionDelete {
    pub name: String,
    pub stage: DropStage,
}

/// Begin to delete the collection `name`.
pub fn delete_collection(registry: &Catalog, name: &str) -> (r: Result<
    CollectionDelete,
    ErrorResponse,
>)
    ensures
        match r {
            Ok(d) => registry.has(name@) && d.name@ == name@ && d.stage == DropStage::Propose,
            Err(e) => !registry.has(name@) && e@ == no_collection(name@),
        },
{
    if !registry.has_collection(name) {
        return Err(collection_not_found(name));
    }
    Ok(CollectionDelete { name: name.to_owned(), stage: DropStage::Propose })
}

impl CollectionDelete {
    /// Take note of how the work went.  A refused proposal ends the deletion and touches
    /// nothing; storage and index that cannot be dropped do not stop it.
    pub fn advance(&mut self, outcome: Result<(), DbError>, registry: &mut Catalog) -> (reply:
        Option<Result<(), ErrorResponse>>)
        requires
            old(self).stage != DropStage::Done,
        ensures
            final(self).name == old(self).name,
            final(registry).aliases == old(registry).aliases,
            if old(self).stage == DropStage::Propose && outcome is Err {
                &&& final(self).stage == DropStage::Done
                &&& final(registry).collections@ == old(registry).collections@
                &&& reply matches Some(Err(resp))
                &&& resp@ == answer_to(outcome->Err_0)
            } else {
                &&& final(self).stage == old(self).stage.following()
                &&& if final(self).stage == DropStage::Done {
                    &&& final(registry).collections@ == old(registry).collections@.remove(
                        old(self).name@,
                    )
                    &&& reply matches Some(Ok(_))
                } else {
                    &&& final(registry).collections@ == old(registry).collections@
                    &&& reply is None
                }
            },
    {
        match self.stage {
            DropStage::Propose => match outcome {
                Ok(_) => {
                    self.stage = DropStage::DropStorage;
                    None
                },
                Err(e) => {
                    self.stage = DropStage::Done;
                    Some(Err(db_error_to_response(e).1))
                },
            },
            DropStage::DropStorage => {
                self.stage = DropStage::DropIndex;
                None
            },
            _ => {
                self.stage = DropStage::Done;
                let _ = registry.collections.remove(&self.name);
                Some(Ok(()))
            },
        }
    }
}

/// `info` shows the collection `meta`.
pub open spec fn shows(info: CollectionInfoResponse, meta: CollectionMeta) -> bool {
    &&& info.name@ == meta.name@
    &&& info.doc_count == meta.doc_count
    &&& info.settings@ == meta.settings@
    &&& info.mapping is Some
    &&& info.mapping->0@.len() == meta.mapping.entries().len()
    &&& forall|i: int|
        0 <= i < info.mapping->0@.len() ==> (#[trigger] info.mapping->0@[i]).0@
            == meta.mapping.entries()[i].0@ && info.mapping->0@[i].1
            == meta.mapping.entries()[i].1
}

fn describe(meta: &CollectionMeta) -> (info: CollectionInfoResponse)
    ensures
        shows(info, *meta),
{
    let n: usize = meta.mapping.field_count();
    let mut fields: Vec<(String, MappedFieldType)> = Vec::new();
    let mut i: usize = 0;
    while i < n
        invariant
            n == meta.mapping.entries().len(),
            i <= n,
            fields@.len() == i,
            forall|j: int|
                0 <= j < i ==> (#[trigger] fields@[j]).0@ == meta.mapping.entries()[j].0@
                    && fields@[j].1 == meta.mapping.entries()[j].1,
        decreases n - i,
    {
        let (name, kind) = meta.mapping.field_at(i);
        fields.push((name.clone(), kind));
        i = i + 1;
    }
    CollectionInfoResponse {
        name: meta.name.clone(),
        doc_count: meta.doc_count,
        mapping: Some(fields),
        settings: meta.settings.clone(),
    }
}

/// What is known of every collection, each once.
pub fn list_collections(registry: &Catalog) -> (list: Vec<CollectionInfoResponse>)
    ensures
        list@.len() == registry.collections.entries().len(),
        list@.len() == registry.collections@.dom().len(),
        forall|i: int|
            0 <= i < list@.len() ==> shows(
                #[trigger] list@[i],
                registry.collections.entries()[i].1,
            ),
{
    let n: usize = registry.collections.len();
    let mut list: Vec<CollectionInfoResponse> = Vec::new();
    let mut i: usize = 0;
    while i < n
        invariant
            n == registry.collections.entries().len(),
            i <= n,
            list@.len() == i,
            forall|j: int|
                0 <= j < i ==> shows(#[trigger] list@[j], registry.collections.entries()[j].1),
        decreases n - i,
    {
        let (_, meta) = registry.collections.entry(i);
        list.push(describe(meta));
        i = i + 1;
    }
    list
}

/// What is known of the collection `name`.
pub fn get_collection(registry: &Catalog, name: &str) -> (r: Result<
    CollectionInfoResponse,
    ErrorResponse,
>)
    ensures
        match r {
            Ok(info) => registry.has(name@) && shows(info, registry.collections@[name@]),
            Err(e) => !registry.has(name@) && e@ == no_collection(name@),
        },
{
    let key = name.to_owned();
    match registry.collections.get(&key) {
        Some(meta) => Ok(describe(meta)),
        None => Err(collection_not_found(name)),
    }
}

/// The answer to a refresh: whether it was acknowledged, and of what.
#[derive(Clone, Debug)]
pub struct RefreshResponse {
    pub acknowledged: bool,
    pub collection: String,
}

/// A refresh under way: the collection's index is to be committed.
pub struct CollectionRefresh {
    pub collection: String,
}

/// Begin to refresh a collection.
pub fn refresh_collection(registry: &Catalog, collection: &str) -> (r: Result<
    CollectionRefresh,
    ErrorResponse,
>)
    ensures
        match r {
            Ok(run) => registry.has(collection@) && run.collection@ == collection@,
            Err(e) => !registry.has(collection@) && e@ == no_collection(collection@),
        },
{
    if !registry.has_collection(collection) {
        return Err(collection_not_found(collection));
    }
    Ok(CollectionRefresh { collection: collection.to_owned() })
}

impl CollectionRefresh {
    /// Finish: a refresh is acknowledged once the index has been committed.
    pub fn finish(self, committed: Result<(), DbError>) -> (r: Result<
        RefreshResponse,
        ErrorResponse,
    >)
        ensures
            match committed {
                Ok(_) => r matches Ok(a) && a.acknowledged && a.collection@ == self.collection@,
                Err(e) => r matches Err(resp) && resp@ == answer_to(e),
            },
    {
        match committed {
            Ok(_) => Ok(RefreshResponse { acknowledged: true, collection: self.collection }),
            Err(e) => Err(db_error_to_response(e).1),
        }
    }
}

/// Creating a collection and deleting it again leaves the collections as they
/// were.
pub proof fn create_then_delete(
    before: Map<Seq<char>, CollectionMeta>,
    name: Seq<char>,
    meta: CollectionMeta,
)
    requires
        !before.contains_key(name),
    ensures
        before.insert(name, meta).remove(name) == before,
{
    assert(before.insert(name, meta).remove(name) =~= before);
}

// ---------------------------------------------------------------------------
// Laws
// ---------------------------------------------------------------------------

/// A collection is proposed first, its storage comes before its index, and both before the
/// answer; a deletion goes the same way.
pub proof fn collections_keep_their_order()
    ensures
        CreateStage::Propose.following() == CreateStage::CreateStorage,
        CreateStage::CreateStorage.following() == CreateStage::CreateIndex,
        CreateStage::CreateIndex.following() == CreateStage::Done,
        CreateStage::Done.following() == CreateStage::Done,
        DropStage::Propose.following() == DropStage::DropStorage,
        DropStage::DropStorage.following() == DropStage::DropIndex,
        DropStage::DropIndex.following() == DropStage::Done,
        DropStage::Done.following() == DropStage::Done,
{
}

/// What exists already is a conflict, and is named.
pub proof fn existing_things_are_conflicts(what: Seq<char>, name: Seq<char>)
    ensures
        already_exists(what, name).status == 409,
        already_exists(what, name).error_type == "resource_already_exists"@,
        already_exists(what, name).reason == what + name + "' already exists"@,
{
}

/// A fresh collection has its name and its settings, no document and no field.
pub proof fn fresh_collections_are_empty(
    meta: CollectionMeta,
    name: Seq<char>,
    settings: Seq<char>,
    field: Seq<char>,
)
    requires
        is_fresh(meta, name, settings),
    ensures
        meta.name@ == name,
        meta.settings@ == settings,
        meta.doc_count == 0,
        !meta.mapping@.contains_key(field),
{
}

/// What is shown of a collection is what the registry knows of it: its name, how many
/// documents it has, its settings, and every field with its type.
pub proof fn collections_are_shown_as_they_are(
    info: CollectionInfoResponse,
    meta: CollectionMeta,
    i: int,
)
    requires
        shows(info, meta),
    ensures
        info.name@ == meta.name@,
        info.doc_count == meta.doc_count,
        info.settings@ == meta.settings@,
        info.mapping matches Some(fields) && fields@.len() == meta.mapping.entries().len() && (0
            <= i < fields@.len() ==> fields@[i].0@ == meta.mapping.entries()[i].0@
            && fields@[i].1 == meta.mapping.entries()[i].1),
{
    if 0 <= i < info.mapping->0@.len() {
        assert(info.mapping->0@[i].0@ == meta.mapping.entries()[i].0@);
    }
}

} // verus!
