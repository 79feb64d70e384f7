//! Reading, writing and deleting single documents.
//!
//! A write passes through consensus, storage and index.  The node performs one
//! piece of that work at a time and reports how it went; [`DocumentWrite`] and
//! [`DocumentDelete`] decide what comes next, what the registry records and what
//! the client is told.

use vstd::prelude::*;

use crate::json::Json;
use crate::model::consistency::ConsistencyLevel;
use crate::model::document::Document;
use crate::model::error::DbError;
use crate::model::mapping::FieldMapping;
use crate::node::dto::{
    build_document, document_of, fields_to_value, hyphenated, object_of, request_to_document,
    ErrorResponse, ErrorView, GetDocumentParams, IndexDocumentRequest, IndexDocumentResponse,
};
use crate::node::errors::{answer_to, db_error_to_response};
use crate::node::state::{collection_not_found, no_collection, Catalog};
use crate::text;

verus! {

/// The work that a document write has to do next.
#[derive(Clone, Copy, Debug, PartialEq, Eq, Structural)]
pub enum WriteStage {
    /// Propose the document to the cluster.
    Propose,
    /// Put the document into the collection's storage.
    Store,
    /// Delete the document's earlier version from the collection's index.
    Unindex,
    /// Add the document to the collection's index.
    Index,
    /// Commit the collection's index.
    Commit,
    /// Nothing: the client has been answered.
    Done,
}

/// How a piece of work went.
pub enum WriteEvent {
    Proposed(Result<(), DbError>),
    /// The version that the document has in storage, or the error of storing it.
    Stored(Result<u64, DbError>),
    Unindexed,
    /// The mapping that the index worked out, or its error.
    Indexed(Result<FieldMapping, DbError>),
    Committed,
}

/// `event` reports on the work of `stage`.
pub open spec fn reports_on(event: WriteEvent, stage: WriteStage) -> bool {
    match event {
        WriteEvent::Proposed(_) => stage == WriteStage::Propose,
        WriteEvent::Stored(_) => stage == WriteStage::Store,
        WriteEvent::Unindexed => stage == WriteStage::Unindex,
        WriteEvent::Indexed(_) => stage == WriteStage::Index,
        WriteEvent::Committed => stage == WriteStage::Commit,
    }
}

/// The error that an event reports.
pub open spec fn failure(event: WriteEvent) -> Option<DbError> {
    match event {
        WriteEvent::Proposed(Err(e)) => Some(e),
        WriteEvent::Stored(Err(e)) => Some(e),
        WriteEvent::Indexed(Err(e)) => Some(e),
        _ => None,
    }
}

/// A document on its way into a collection.
pub struct DocumentWrite {
    pub collection: String,
    pub document: Document,
    /// Whether the write replaces an earlier version of the document.
    pub replaces: bool,
    /// The collection's mapping: at first as the registry has it, from the
    /// commit on as the index worked it out.
    pub mapping: FieldMapping,
    /// The version that storage gave the document; zero until it is stored.
    pub version: u64,
    pub stage: WriteStage,
}

/// The answer to a write.
pub type WriteReply = Result<(u16, IndexDocumentResponse), ErrorResponse>;

impl DocumentWrite {
    /// What comes after `stage` where nothing fails.
    pub open spec fn following(stage: WriteStage, replaces: bool) -> WriteStage {
        match stage {
            WriteStage::Propose => WriteStage::Store,
            WriteStage::Store => if replaces {
                WriteStage::Unindex
            } else {
                WriteStage::Index
            },
            WriteStage::Unindex => WriteStage::Index,
            WriteStage::Index => WriteStage::Commit,
            _ => WriteStage::Done,
        }
    }

    /// The registry has room for the document that `self` is about to count.
    pub open spec fn countable(&self, registry: Catalog) -> bool {
        self.stage == WriteStage::Commit && !self.replaces && registry.has(self.collection@)
            ==> registry.collections@[self.collection@].doc_count < u64::MAX
    }

    /// Take note of how the work went.  While more is to do there is no answer;
    /// a failure, or the commit, ends the write with one.
    pub fn advance(&mut self, event: WriteEvent, registry: &mut Catalog) -> (reply: Option<
        WriteReply,
    >)
        requires
            reports_on(event, old(self).stage),
            old(self).countable(*old(registry)),
        ensures
            final(self).collection == old(self).collection,
            final(self).document == old(self).document,
            final(self).replaces == old(self).replaces,
            final(registry).aliases == old(registry).aliases,
            match failure(event) {
                Some(e) => {
                    &&& final(self).stage == WriteStage::Done
                    &&& final(registry).collections@ == old(registry).collections@
                    &&& reply matches Some(Err(r))
                    &&& r@ == answer_to(e)
                },
                None => {
                    &&& final(self).stage == DocumentWrite::following(
                        old(self).stage,
                        old(self).replaces,
                    )
                    &&& event matches WriteEvent::Indexed(Ok(m)) ==> final(self).mapping == m
                    &&& final(self).version == match event {
                        WriteEvent::Stored(Ok(v)) => v,
                        _ => old(self).version,
                    }
                    &&& event is Committed ==> {
                        &&& final(registry).collections@ == Catalog::credited(
                            old(registry).collections@,
                            old(self).collection@,
                            if old(self).replaces {
                                0
                            } else {
                                1
                            },
                            Some(old(self).mapping),
                        )
                        &&& reply matches Some(Ok(r))
                        &&& r.0 == if old(self).replaces {
                            200u16
                        } else {
                            201u16
                        }
                        &&& r.1.id@ == old(self).document.id@
                        &&& r.1.result@ == if old(self).replaces {
                            "updated"@
                        } else {
                            "created"@
                        }
                        &&& r.1.version == old(self).version
                    }
                    &&& !(event is Committed) ==> {
                        &&& final(registry).collections@ == old(registry).collections@
                        &&& reply is None
                    }
                },
            },
            !(event is Indexed) && !(event is Committed) ==> final(self).mapping == old(
                self,
            ).mapping,
    {
        match event {
            WriteEvent::Proposed(Ok(())) => {
                self.stage = WriteStage::Store;
                None
            },
            WriteEvent::Stored(Ok(version)) => {
                self.version = version;
                self.stage = if self.replaces {
                    WriteStage::Unindex
                } else {
                    WriteStage::Index
                };
                None
            },
            WriteEvent::Unindexed => {
                self.stage = WriteStage::Index;
                None
            },
            WriteEvent::Indexed(Ok(mapping)) => {
                self.mapping = mapping;
                self.stage = WriteStage::Commit;
                None
            },
            WriteEvent::Committed => {
                self.stage = WriteStage::Done;
                let mut mapping = FieldMapping::new();
                std::mem::swap(&mut mapping, &mut self.mapping);
                let id = self.document.id.clone();
                if self.replaces {
                    registry.credit(self.collection.as_str(), 0, Some(mapping));
                    Some(
                        Ok(
                            (
                                200,
                                IndexDocumentResponse {
                                    id,
                                    result: "updated".to_owned(),
                                    version: self.version,
                                },
                            ),
                        ),
                    )
                } else {
                    registry.credit(self.collection.as_str(), 1, Some(mapping));
                    Some(
                        Ok(
                            (
                                201,
                                IndexDocumentResponse {
                                    id,
                                    result: "created".to_owned(),
                                    version: self.version,
                                },
                            ),
                        ),
                    )
                }
            },
            WriteEvent::Proposed(Err(e)) => {
                self.stage = WriteStage::Done;
                Some(Err(db_error_to_response(e).1))
            },
            WriteEvent::Stored(Err(e)) => {
                self.stage = WriteStage::Done;
                Some(Err(db_error_to_response(e).1))
            },
            WriteEvent::Indexed(Err(e)) => {
                self.stage = WriteStage::Done;
                Some(Err(db_error_to_response(e).1))
            },
        }
    }
}

/// Begin to index a new document, under a fresh id where the request names none.
pub fn index_document(registry: &Catalog, collection: &str, body: IndexDocumentRequest) -> (r:
    Result<DocumentWrite, ErrorResponse>)
    ensures
        match r {
            Ok(w) => {
                &&& registry.has(collection@)
                &&& w.stage == WriteStage::Propose
                &&& w.version == 0
                &&& !w.replaces
                &&& w.collection@ == collection@
                &&& w.mapping@ == registry.mapping_view(collection@)
                &&& w.document@ == document_of(w.document@.id, body.fields@)
                &&& match body.id {
                    Some(id) => w.document@.id == id@,
                    None => hyphenated(w.document@.id),
                }
            },
            Err(e) => !registry.has(collection@) && e@ == no_collection(collection@),
        },
{
    if !registry.has_collection(collection) {
        return Err(collection_not_found(collection));
    }
    Ok(
        DocumentWrite {
            collection: collection.to_owned(),
            document: request_to_document(body),
            replaces: false,
            mapping: registry.mapping_of(collection),
            version: 0,
            stage: WriteStage::Propose,
        },
    )
}

/// Begin to insert or replace the document `id`.
pub fn upsert_document(
    registry: &Catalog,
    collection: &str,
    id: &str,
    body: &IndexDocumentRequest,
) -> (r: Result<DocumentWrite, ErrorResponse>)
    ensures
        match r {
            Ok(w) => {
                &&& registry.has(collection@)
                &&& w.stage == WriteStage::Propose
                &&& w.version == 0
                &&& w.replaces
                &&& w.collection@ == collection@
                &&& w.mapping@ == registry.mapping_view(collection@)
                &&& w.document@ == document_of(id@, body.fields@)
            },
            Err(e) => !registry.has(collection@) && e@ == no_collection(collection@),
        },
{
    if !registry.has_collection(collection) {
        return Err(collection_not_found(collection));
    }
    Ok(
        DocumentWrite {
            collection: collection.to_owned(),
            document: build_document(id, &body.fields),
            replaces: true,
            mapping: registry.mapping_of(collection),
            version: 0,
            stage: WriteStage::Propose,
        },
    )
}

// ---------------------------------------------------------------------------
// Reading
// ---------------------------------------------------------------------------

/// The answer to a read: the document's id, fields and version, and the
/// consistency level of the read.
#[derive(Debug)]
pub struct GetDocumentResponse {
    pub id: String,
    pub source: Json,
    pub version: u64,
    pub consistency: String,
    pub found: bool,
}

/// Begin to read from a collection: the consistency level of the read.
pub fn get_document(registry: &Catalog, collection: &str, params: &GetDocumentParams) -> (r:
    Result<ConsistencyLevel, ErrorResponse>)
    ensures
        match r {
            Ok(level) => registry.has(collection@) && level == ConsistencyLevel::asked_for(
                params.consistency,
            ),
            Err(e) => !registry.has(collection@) && e@ == no_collection(collection@),
        },
{
    if !registry.has_collection(collection) {
        return Err(collection_not_found(collection));
    }
    Ok(ConsistencyLevel::from_param(&params.consistency))
}

/// The answer to a read of the document `id`, from what the node's own storage
/// held: the document with its version, or an error.  The node is one replica,
/// and one replica is enough for every level.
pub fn answer_read(
    id: &str,
    level: ConsistencyLevel,
    replication_factor: usize,
    held: Result<(Document, u64), DbError>,
) -> (r: Result<GetDocumentResponse, ErrorResponse>)
    ensures
        match held {
            Ok((doc, version)) => {
                &&& r matches Ok(resp)
                &&& resp.id@ == doc.id@
                &&& object_of(resp.source@, doc.fields)
                &&& resp.version == version
                &&& resp.consistency@ == level.spelled()
                &&& resp.found
            },
            Err(DbError::NotFound(_)) => {
                &&& r matches Err(e)
                &&& e@ == ErrorView::not_found("document '"@ + id@ + "' not found"@)
            },
            Err(e) => {
                &&& r matches Err(resp)
                &&& resp@ == answer_to(e)
            },
        },
{
    match held {
        Ok((doc, version)) => {
            let available: usize = if replication_factor < 1 {
                replication_factor
            } else {
                1
            };
            let required = level.required_responses(available);
            if 1 < required {
                let mut m = text::concat3(
                    "consistency level ",
                    level.name().as_str(),
                    " requires ",
                );
                m.append(text::decimal_of(required as u64).as_str());
                m.append(" responses but only 1 available (single-node mode)");
                return Err(db_error_to_response(DbError::ConsistencyError(m)).1);
            }
            Ok(
                GetDocumentResponse {
                    id: doc.id.clone(),
                    source: fields_to_value(&doc.fields),
                    version,
                    consistency: level.name(),
                    found: true,
                },
            )
        },
        Err(DbError::NotFound(_)) => Err(
            ErrorResponse::not_found(text::concat3("document '", id, "' not found").as_str()),
        ),
        Err(e) => Err(db_error_to_response(e).1),
    }
}

// ---------------------------------------------------------------------------
// Deleting
// ---------------------------------------------------------------------------

/// The work that a deletion has to do next.
#[derive(Clone, Copy, Debug, PartialEq, Eq, Structural)]
pub enum DeleteStage {
    /// Propose the deletion to the cluster.
    Propose,
    /// Take the document out of storage.
    Unstore,
    /// Take the document out of the index.
    Unindex,
    /// Commit the collection's index.
    Commit,
    /// Nothing: the client has been answered.
    Done,
}

impl DeleteStage {
    /// What comes after this stage of a deletion that was accepted.
    pub open spec fn following(self) -> DeleteStage {
        match self {
            DeleteStage::Propose => DeleteStage::Unstore,
            DeleteStage::Unstore => DeleteStage::Unindex,
            DeleteStage::Unindex => DeleteStage::Commit,
            _ => DeleteStage::Done,
        }
    }
}

/// A document on its way out of a collection.
///
/// Once the cluster has accepted the deletion, the document is taken out of storage and
/// then out of the index, as far as it is there, and the count goes down.  A deletion that
/// is refused touches neither.
pub struct DocumentDelete {
    pub collection: String,
    pub id: String,
    pub stage: DeleteStage,
}

/// The answer to a deletion.
#[derive(Clone, Debug)]
pub struct DeleteDocumentResponse {
    pub id: String,
    /// `"deleted"`.
    pub result: String,
}

/// Begin to delete the document `id`: propose it to the cluster.
pub fn delete_document(registry: &Catalog, collection: &str, id: &str) -> (r: Result<
    DocumentDelete,
    ErrorResponse,
>)
    ensures
        match r {
            Ok(d) => {
                &&& registry.has(collection@)
                &&& d.collection@ == collection@
                &&& d.id@ == id@
                &&& d.stage == DeleteStage::Propose
            },
            Err(e) => !registry.has(collection@) && e@ == no_collection(collection@),
        },
{
    if !registry.has_collection(collection) {
        return Err(collection_not_found(collection));
    }
    Ok(
        DocumentDelete {
            collection: collection.to_owned(),
            id: id.to_owned(),
            stage: DeleteStage::Propose,
        },
    )
}

impl DocumentDelete {
    /// Take note of how the work went.  A refused proposal ends the deletion; of the other
    /// work it does not matter whether there was anything to take out.
    pub fn advance(&mut self, outcome: Result<(), DbError>, registry: &mut Catalog) -> (reply:
        Option<Result<DeleteDocumentResponse, ErrorResponse>>)
        requires
            old(self).stage != DeleteStage::Done,
        ensures
            final(self).collection == old(self).collection,
            final(self).id == old(self).id,
            final(registry).aliases == old(registry).aliases,
            if old(self).stage == DeleteStage::Propose && outcome is Err {
                &&& final(self).stage == DeleteStage::Done
                &&& final(registry).collections@ == old(registry).collections@
                &&& reply matches Some(Err(resp))
                &&& resp@ == answer_to(outcome->Err_0)
            } else {
                &&& final(self).stage == old(self).stage.following()
                &&& if final(self).stage == DeleteStage::Done {
                    &&& final(registry).collections@ == Catalog::debited(
                        old(registry).collections@,
                        old(self).collection@,
                    )
                    &&& reply matches Some(Ok(resp))
                    &&& resp.id@ == old(self).id@
                    &&& resp.result@ == "deleted"@
                } else {
                    &&& final(registry).collections@ == old(registry).collections@
                    &&& reply is None
                }
            },
    {
        match self.stage {
            DeleteStage::Propose => match outcome {
                Ok(_) => {
                    self.stage = DeleteStage::Unstore;
                    None
                },
                Err(e) => {
                    self.stage = DeleteStage::Done;
                    Some(Err(db_error_to_response(e).1))
                },
            },
            DeleteStage::Unstore => {
                self.stage = DeleteStage::Unindex;
                None
            },
            DeleteStage::Unindex => {
                self.stage = DeleteStage::Commit;
                None
            },
            _ => {
                self.stage = DeleteStage::Done;
                registry.debit(self.collection.as_str());
                let resp = DeleteDocumentResponse {
                    id: self.id.clone(),
                    result: "deleted".to_owned(),
                };
                Some(Ok(resp))
            },
        }
    }
}

// ---------------------------------------------------------------------------
// Laws
// ---------------------------------------------------------------------------

/// How far a write has come.
pub open spec fn progress(stage: WriteStage) -> int {
    match stage {
        WriteStage::Propose => 0,
        WriteStage::Store => 1,
        WriteStage::Unindex => 2,
        WriteStage::Index => 3,
        WriteStage::Commit => 4,
        WriteStage::Done => 5,
    }
}

/// A write that is not done goes forward with every report, so that it ends
/// after five reports at most.
pub proof fn writes_go_forward(stage: WriteStage, replaces: bool)
    requires
        stage != WriteStage::Done,
    ensures
        progress(stage) < progress(DocumentWrite::following(stage, replaces)) <= 5,
{
}

/// A document leaves the index only behind storage, and storage only behind the proposal.
pub proof fn deletions_keep_their_order(stage: DeleteStage)
    ensures
        stage.following() == DeleteStage::Unstore ==> stage == DeleteStage::Propose,
        stage.following() == DeleteStage::Unindex ==> stage == DeleteStage::Unstore,
        stage.following() == DeleteStage::Commit ==> stage == DeleteStage::Unindex,
{
}

/// A write that replaces a document deletes the earlier version from the index
/// before it adds the new one; a write of a new document deletes nothing.
pub proof fn unindex_before_index(stage: WriteStage, replaces: bool)
    requires
        DocumentWrite::following(stage, replaces) == WriteStage::Index,
    ensures
        replaces ==> stage == WriteStage::Unindex,
        !replaces && stage != WriteStage::Unindex ==> stage == WriteStage::Store,
{
}

/// A document is proposed, stored, indexed and committed, in this order; only one that
/// replaces another is taken out of the index between storing and indexing.
pub proof fn writes_keep_their_order(replaces: bool)
    ensures
        DocumentWrite::following(WriteStage::Propose, replaces) == WriteStage::Store,
        DocumentWrite::following(WriteStage::Store, true) == WriteStage::Unindex,
        DocumentWrite::following(WriteStage::Store, false) == WriteStage::Index,
        DocumentWrite::following(WriteStage::Unindex, replaces) == WriteStage::Index,
        DocumentWrite::following(WriteStage::Index, replaces) == WriteStage::Commit,
        DocumentWrite::following(WriteStage::Commit, replaces) == WriteStage::Done,
        DeleteStage::Propose.following() == DeleteStage::Unstore,
        DeleteStage::Unstore.following() == DeleteStage::Unindex,
        DeleteStage::Unindex.following() == DeleteStage::Commit,
        DeleteStage::Commit.following() == DeleteStage::Done,
{
}

/// Every report is on the work of one stage, and a report has failed exactly where it holds
/// an error.
pub proof fn reports_belong_to_their_stage(
    proposed: Result<(), DbError>,
    stored: Result<u64, DbError>,
    indexed: Result<FieldMapping, DbError>,
    stage: WriteStage,
)
    ensures
        reports_on(WriteEvent::Proposed(proposed), stage) <==> stage == WriteStage::Propose,
        reports_on(WriteEvent::Stored(stored), stage) <==> stage == WriteStage::Store,
        reports_on(WriteEvent::Unindexed, stage) <==> stage == WriteStage::Unindex,
        reports_on(WriteEvent::Indexed(indexed), stage) <==> stage == WriteStage::Index,
        reports_on(WriteEvent::Committed, stage) <==> stage == WriteStage::Commit,
        failure(WriteEvent::Proposed(proposed)) is Some <==> proposed is Err,
        failure(WriteEvent::Stored(stored)) is Some <==> stored is Err,
        failure(WriteEvent::Indexed(indexed)) is Some <==> indexed is Err,
        proposed matches Err(e) ==> failure(WriteEvent::Proposed(proposed)) == Some(e),
        stored matches Err(e) ==> failure(WriteEvent::Stored(stored)) == Some(e),
        indexed matches Err(e) ==> failure(WriteEvent::Indexed(indexed)) == Some(e),
        failure(WriteEvent::Unindexed) is None,
        failure(WriteEvent::Committed) is None,
{
}

/// There is room for a document unless it is new, about to be counted, and the greatest count
/// is reached.
pub proof fn there_is_room_below_the_greatest_count(w: DocumentWrite, registry: Catalog)
    ensures
        w.replaces ==> w.countable(registry),
        w.stage != WriteStage::Commit ==> w.countable(registry),
        !registry.has(w.collection@) ==> w.countable(registry),
        registry.has(w.collection@) && registry.collections@[w.collection@].doc_count < u64::MAX
            ==> w.countable(registry),
{
}

} // verus!
