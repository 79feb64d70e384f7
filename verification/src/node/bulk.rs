//! Bulk indexing.
//!
//! A bulk request is a list of lines.  An `index` action is one line and the
//! document that follows it is the next; a `delete` action is a line of its own.
//! Documents are proposed to the cluster in batches of [`BATCH_SIZE`], deletions
//! one by one behind the last batch.  The node parses the lines and does the
//! work; [`BulkRun`] and [`BatchRun`] decide what comes next and keep the list of
//! results, one for each action.

use vstd::prelude::*;

use crate::json::{object_view, parse_object, parsed_object, Json};
use crate::model::document::Document;
use crate::model::mapping::FieldMapping;
use crate::node::dto::{
    build_document, document_of, fresh_uuid, hyphenated, with_members, BulkAction, BulkItem,
    BulkResponse, ErrorResponse,
};
use crate::node::state::{collection_not_found, no_collection, Catalog};
use crate::text;

verus! {

/// The greatest number of documents in one proposal.
pub const BATCH_SIZE: usize = 100;

// ---------------------------------------------------------------------------
// Items
// ---------------------------------------------------------------------------

/// The mathematical value of a [`BulkItem`].
pub struct ItemView {
    pub action: Seq<char>,
    pub id: Seq<char>,
    pub status: u16,
    pub error: Option<Seq<char>>,
}

impl View for BulkItem {
    type V = ItemView;

    open spec fn view(&self) -> ItemView {
        ItemView {
            action: self.action@,
            id: self.id@,
            status: self.status,
            error: match self.error {
                Some(e) => Some(e@),
                None => None,
            },
        }
    }
}

/// An action that went wrong.
pub open spec fn failed_item(
    action: Seq<char>,
    id: Seq<char>,
    status: u16,
    error: Seq<char>,
) -> ItemView {
    ItemView { action, id, status, error: Some(error) }
}

/// An action that went well.
pub open spec fn good_item(action: Seq<char>, id: Seq<char>, status: u16) -> ItemView {
    ItemView { action, id, status, error: None }
}

/// Some item has an error.
pub open spec fn any_error(items: Seq<BulkItem>) -> bool {
    exists|i: int| 0 <= i < items.len() && (#[trigger] items[i]).error is Some
}

/// Every item has an error exactly where its status says so, and only what was indexed has
/// been created.
pub open spec fn statuses_tell(items: Seq<BulkItem>) -> bool {
    forall|i: int|
        0 <= i < items.len() ==> {
            &&& (#[trigger] items[i]).error is Some == (items[i].status >= 400)
            &&& items[i].status == 201 ==> items[i].action@ == "index"@
        }
}

/// The number of items that report a document as indexed.
pub open spec fn indexed_count(items: Seq<BulkItem>) -> nat
    decreases items.len(),
{
    if items.len() == 0 {
        0
    } else {
        indexed_count(items.drop_last()) + if items.last().status == 201 {
            1nat
        } else {
            0nat
        }
    }
}

proof fn lemma_push_item(items: Seq<BulkItem>, item: BulkItem)
    ensures
        any_error(items.push(item)) == (any_error(items) || item.error is Some),
        indexed_count(items.push(item)) == indexed_count(items) + if item.status == 201 {
            1nat
        } else {
            0nat
        },
        indexed_count(items) <= items.len(),
    decreases items.len(),
{
    let after = items.push(item);
    assert(after.drop_last() =~= items);
    assert(after.last() == item);
    if any_error(items) {
        let i = choose|i: int| 0 <= i < items.len() && (#[trigger] items[i]).error is Some;
        assert(after[i].error is Some);
    }
    if item.error is Some {
        assert(after[items.len() as int].error is Some);
    }
    if any_error(after) {
        let i = choose|i: int| 0 <= i < after.len() && (#[trigger] after[i]).error is Some;
        if i < items.len() {
            assert(items[i].error is Some);
        }
    }
    lemma_count_bound(items);
}

proof fn lemma_count_bound(items: Seq<BulkItem>)
    ensures
        indexed_count(items) <= items.len(),
    decreases items.len(),
{
    if items.len() > 0 {
        lemma_count_bound(items.drop_last());
    }
}

proof fn lemma_append_items(a: Seq<BulkItem>, b: Seq<BulkItem>)
    ensures
        any_error(a + b) == (any_error(a) || any_error(b)),
        indexed_count(a + b) == indexed_count(a) + indexed_count(b),
    decreases b.len(),
{
    if b.len() == 0 {
        assert(a + b =~= a);
    } else {
        lemma_append_items(a, b.drop_last());
        lemma_push_item(a + b.drop_last(), b.last());
        lemma_push_item(b.drop_last(), b.last());
        assert((a + b.drop_last()).push(b.last()) =~= a + b);
        assert(b.drop_last().push(b.last()) =~= b);
    }
}

fn failed(action: &str, id: String, status: u16, error: String) -> (item: BulkItem)
    ensures
        item@ == failed_item(action@, id@, status, error@),
        item.error is Some,
        item.status == status,
{
    BulkItem { action: action.to_owned(), id, status, error: Some(error) }
}

fn good(action: &str, id: String, status: u16) -> (item: BulkItem)
    ensures
        item@ == good_item(action@, id@, status),
        item.error is None,
        item.status == status,
{
    BulkItem { action: action.to_owned(), id, status, error: None }
}

/// `id`, or an empty string.
pub open spec fn id_or_empty(id: Option<String>) -> Seq<char> {
    match id {
        Some(s) => s@,
        None => Seq::empty(),
    }
}

fn or_empty(id: &Option<String>) -> (s: String)
    ensures
        s@ == id_or_empty(*id),
{
    match id {
        Some(s) => s.clone(),
        None => String::new(),
    }
}

// ---------------------------------------------------------------------------
// One batch
// ---------------------------------------------------------------------------

/// The work that a batch has to do next.
#[derive(Clone, Copy, Debug, PartialEq, Eq, Structural)]
pub enum BatchStage {
    /// Propose the documents to the cluster, as one entry.
    Propose,
    /// Put the current document into storage.
    Store,
    /// Add the current document to the index.
    Index,
    /// Nothing: every document has its item.
    Done,
}

/// A batch of documents on its way into a collection.
pub struct BatchRun {
    pub documents: Vec<Document>,
    pub stage: BatchStage,
    /// How many documents, from the first on, the cluster applied.
    pub applied: usize,
    /// The collection's mapping, as far as the batch has worked it out.
    pub mapping: FieldMapping,
    /// The items of the documents that are through, in the documents' order.
    pub items: Vec<BulkItem>,
    pub has_errors: bool,
    pub success_count: u64,
    /// Whether the cluster accepted the batch.
    pub accepted: bool,
}

/// The item of a document is good with status 201, or failed with status 500.
pub open spec fn batch_item(item: BulkItem, doc: Document) -> bool {
    &&& item@.action == "index"@
    &&& item@.id == doc.id@
    &&& (item.error is None ==> item.status == 201)
    &&& (item.error is Some ==> item.status == 500)
}

impl BatchRun {
    /// Every document that is through has its item; the error flag and the
    /// success count are those of the items.
    pub open spec fn wf(&self) -> bool {
        &&& self.items@.len() <= self.documents@.len()
        &&& forall|i: int|
            0 <= i < self.items@.len() ==> batch_item(
                #[trigger] self.items@[i],
                self.documents@[i],
            )
        &&& self.has_errors == any_error(self.items@)
        &&& self.success_count == indexed_count(self.items@)
        &&& match self.stage {
            BatchStage::Propose => self.items@.len() == 0 && !self.accepted,
            BatchStage::Done => self.items@.len() == self.documents@.len(),
            _ => self.accepted && self.items@.len() < self.documents@.len() && self.items@.len()
                < self.applied,
        }
    }

    /// A batch of documents that is still to be proposed.
    pub fn new(documents: Vec<Document>) -> (b: BatchRun)
        ensures
            b.wf(),
            b.stage == BatchStage::Propose,
            b.documents == documents,
    {
        BatchRun {
            documents,
            stage: BatchStage::Propose,
            applied: 0,
            mapping: FieldMapping::new(),
            items: Vec::new(),
            has_errors: false,
            success_count: 0,
            accepted: false,
        }
    }

    /// The position of the current document.
    pub open spec fn at(&self) -> int {
        self.items@.len() as int
    }

    /// The current document.
    pub fn current(&self) -> (d: &Document)
        requires
            self.wf(),
            self.stage == BatchStage::Store || self.stage == BatchStage::Index,
        ensures
            *d == self.documents@[self.at()],
    {
        &self.documents[self.items.len()]
    }

    /// `after` has everything of `self` but for items, error flag, success count
    /// and stage.
    pub open spec fn same_batch(&self, after: BatchRun) -> bool {
        &&& after.documents == self.documents
        &&& after.applied == self.applied
        &&& after.accepted == self.accepted
    }

    /// Record the item of the current document.
    fn record(&mut self, item: BulkItem)
        requires
            old(self).items@.len() < old(self).documents@.len(),
            batch_item(item, old(self).documents@[old(self).at()]),
            forall|i: int|
                0 <= i < old(self).items@.len() ==> batch_item(
                    #[trigger] old(self).items@[i],
                    old(self).documents@[i],
                ),
            old(self).has_errors == any_error(old(self).items@),
            old(self).success_count == indexed_count(old(self).items@),
        ensures
            final(self).items@ == old(self).items@.push(item),
            old(self).same_batch(*final(self)),
            final(self).mapping == old(self).mapping,
            final(self).stage == old(self).stage,
            forall|i: int|
                0 <= i < final(self).items@.len() ==> batch_item(
                    #[trigger] final(self).items@[i],
                    final(self).documents@[i],
                ),
            final(self).has_errors == any_error(final(self).items@),
            final(self).success_count == indexed_count(final(self).items@),
    {
        proof {
            lemma_push_item(self.items@, item);
        }
        let is_error = item.error.is_some();
        assert(self.documents.len() == self.documents@.len());
        if !is_error {
            self.success_count = self.success_count + 1;
        } else {
            self.has_errors = true;
        }
        self.items.push(item);
    }

    /// Go on to the next document that the cluster applied.  The documents
    /// behind those failed in the cluster, and are recorded so.
    fn proceed(&mut self)
        requires
            old(self).items@.len() <= old(self).documents@.len(),
            old(self).accepted,
            forall|i: int|
                0 <= i < old(self).items@.len() ==> batch_item(
                    #[trigger] old(self).items@[i],
                    old(self).documents@[i],
                ),
            old(self).has_errors == any_error(old(self).items@),
            old(self).success_count == indexed_count(old(self).items@),
        ensures
            final(self).wf(),
            old(self).same_batch(*final(self)),
            final(self).mapping == old(self).mapping,
            final(self).stage == BatchStage::Store || final(self).stage == BatchStage::Done,
            final(self).stage == BatchStage::Store <==> old(self).at() < old(self).applied
                && old(self).at() < old(self).documents@.len(),
            final(self).stage == BatchStage::Store ==> final(self).items@ == old(self).items@,
            old(self).items@.is_prefix_of(final(self).items@),
            forall|i: int|
                old(self).at() <= i < final(self).items@.len() ==> (#[trigger] final(self).items@[i])@ == failed_item(
                    "index"@,
                    old(self).documents@[i].id@,
                    500,
                    "failed during batch apply"@,
                ),
    {
        if self.items.len() < self.applied && self.items.len() < self.documents.len() {
            self.stage = BatchStage::Store;
            return ;
        }
        let ghost first = *self;
        while self.items.len() < self.documents.len()
            invariant
                self.items@.len() <= self.documents@.len(),
                first.items@.len() <= self.items@.len(),
                first.same_batch(*self),
                self.mapping == first.mapping,
                forall|i: int|
                    0 <= i < self.items@.len() ==> batch_item(
                        #[trigger] self.items@[i],
                        self.documents@[i],
                    ),
                self.has_errors == any_error(self.items@),
                self.success_count == indexed_count(self.items@),
                first.items@.is_prefix_of(self.items@),
                forall|i: int|
                    first.at() <= i < self.items@.len() ==> (#[trigger] self.items@[i])@
                        == failed_item(
                        "index"@,
                        first.documents@[i].id@,
                        500,
                        "failed during batch apply"@,
                    ),
            decreases self.documents@.len() - self.items@.len(),
        {
            let id = self.documents[self.items.len()].id.clone();
            let item = failed("index", id, 500, "failed during batch apply".to_owned());
            self.record(item);
        }
        self.stage = BatchStage::Done;
    }

    /// `after` is `self` behind the cluster's answer to the proposal.  The
    /// documents that the cluster did not apply have failed; a rejected batch has
    /// failed as a whole.
    pub open spec fn after_proposal(
        &self,
        outcome: Result<usize, String>,
        mapping: FieldMapping,
        after: BatchRun,
    ) -> bool {
        &&& after.documents == self.documents
        &&& after.accepted == outcome is Ok
        &&& match outcome {
            Ok(count) => {
                &&& after.mapping == mapping
                &&& after.applied == count
                &&& after.stage == if 0 < count && 0 < self.documents@.len() {
                    BatchStage::Store
                } else {
                    BatchStage::Done
                }
                &&& forall|i: int|
                    0 <= i < after.items@.len() ==> (#[trigger] after.items@[i])@ == failed_item(
                        "index"@,
                        self.documents@[i].id@,
                        500,
                        "failed during batch apply"@,
                    )
            },
            Err(message) => {
                &&& after.stage == BatchStage::Done
                &&& forall|i: int|
                    0 <= i < after.items@.len() ==> (#[trigger] after.items@[i])@ == failed_item(
                        "index"@,
                        self.documents@[i].id@,
                        500,
                        message@,
                    )
            },
        }
    }

    /// The cluster has answered the proposal: it applied so many documents, or
    /// rejected the batch with the given message.
    pub fn proposed(&mut self, outcome: Result<usize, String>, mapping: FieldMapping)
        requires
            old(self).wf(),
            old(self).stage == BatchStage::Propose,
        ensures
            final(self).wf(),
            old(self).after_proposal(outcome, mapping, *final(self)),
    {
        match outcome {
            Ok(count) => {
                self.accepted = true;
                self.applied = count;
                self.mapping = mapping;
                self.proceed();
            },
            Err(message) => {
                let ghost first = *self;
                while self.items.len() < self.documents.len()
                    invariant
                        self.items@.len() <= self.documents@.len(),
                        first.same_batch(*self),
                        forall|i: int|
                            0 <= i < self.items@.len() ==> batch_item(
                                #[trigger] self.items@[i],
                                self.documents@[i],
                            ),
                        self.has_errors == any_error(self.items@),
                        self.success_count == indexed_count(self.items@),
                        forall|i: int|
                            0 <= i < self.items@.len() ==> (#[trigger] self.items@[i])@
                                == failed_item("index"@, first.documents@[i].id@, 500, message@),
                    decreases self.documents@.len() - self.items@.len(),
                {
                    let id = self.documents[self.items.len()].id.clone();
                    let item = failed("index", id, 500, message.clone());
                    self.record(item);
                }
                self.stage = BatchStage::Done;
            },
        }
    }

    /// `after` is `self` behind storage's answer for the current document.
    pub open spec fn after_store(&self, outcome: Result<(), String>, after: BatchRun) -> bool {
        match outcome {
            Ok(_) => after == BatchRun { stage: BatchStage::Index, ..*self },
            Err(message) => {
                &&& self.same_batch(after)
                &&& after.mapping == self.mapping
                &&& self.moved_past(
                    after,
                    failed_item(
                        "index"@,
                        self.documents@[self.at()].id@,
                        500,
                        "storage error: "@ + message@,
                    ),
                )
            },
        }
    }

    /// Storage has answered for the current document.
    pub fn stored(&mut self, outcome: Result<(), String>)
        requires
            old(self).wf(),
            old(self).stage == BatchStage::Store,
        ensures
            final(self).wf(),
            old(self).after_store(outcome, *final(self)),
    {
        match outcome {
            Ok(_) => {
                self.stage = BatchStage::Index;
            },
            Err(message) => {
                let id = self.current().id.clone();
                let error = text::concat2("storage error: ", message.as_str());
                self.record(failed("index", id, 500, error));
                self.proceed();
            },
        }
    }

    /// `after` is `self` behind the index's answer for the current document.
    pub open spec fn after_index(
        &self,
        outcome: Result<FieldMapping, String>,
        after: BatchRun,
    ) -> bool {
        &&& self.same_batch(after)
        &&& match outcome {
            Ok(mapping) => {
                &&& after.mapping == mapping
                &&& self.moved_past(
                    after,
                    good_item("index"@, self.documents@[self.at()].id@, 201),
                )
            },
            Err(message) => {
                &&& after.mapping == self.mapping
                &&& self.moved_past(
                    after,
                    failed_item(
                        "index"@,
                        self.documents@[self.at()].id@,
                        500,
                        "index error: "@ + message@,
                    ),
                )
            },
        }
    }

    /// The index has answered for the current document: with the mapping that it
    /// worked out, or with an error.
    pub fn indexed(&mut self, outcome: Result<FieldMapping, String>)
        requires
            old(self).wf(),
            old(self).stage == BatchStage::Index,
        ensures
            final(self).wf(),
            old(self).after_index(outcome, *final(self)),
    {
        let id = self.current().id.clone();
        match outcome {
            Ok(mapping) => {
                self.mapping = mapping;
                self.record(good("index", id, 201));
            },
            Err(message) => {
                let error = text::concat2("index error: ", message.as_str());
                self.record(failed("index", id, 500, error));
            },
        }
        self.proceed();
    }

    /// The current document got `item`, and the batch went on to the next one
    /// that the cluster applied, or to its end.
    pub open spec fn moved_past(&self, after: BatchRun, item: ItemView) -> bool {
        let next = self.at() + 1;
        &&& self.items@.is_prefix_of(after.items@)
        &&& after.items@.len() > self.items@.len()
        &&& after.items@[self.at()]@ == item
        &&& after.stage == if next < self.applied && next < self.documents@.len() {
            BatchStage::Store
        } else {
            BatchStage::Done
        }
        &&& after.stage == BatchStage::Store ==> after.items@.len() == next
        &&& forall|i: int|
            next <= i < after.items@.len() ==> (#[trigger] after.items@[i])@ == failed_item(
                "index"@,
                self.documents@[i].id@,
                500,
                "failed during batch apply"@,
            )
    }
}

// ---------------------------------------------------------------------------
// The whole request
// ---------------------------------------------------------------------------

/// The work that a bulk request has to do next.
#[derive(Clone, Copy, Debug, PartialEq, Eq, Structural)]
pub enum BulkStage {
    /// Parse the current line as an action.
    Action,
    /// Parse the current line as the document of the action before it.
    Body,
    /// Work on the current batch.
    Batch,
    /// Propose the current deletion.
    Delete,
    /// Take the document of the current deletion out of storage.
    Unstore,
    /// Take the document of the current deletion out of the index.
    Unindex,
    /// Commit the collection's index.
    Commit,
    /// Nothing: the client has been answered.
    Done,
}

/// A bulk request on its way.
pub struct BulkRun {
    pub collection: String,
    /// The lines of the request that hold more than white space.
    pub lines: Vec<String>,
    /// The position of the current line.
    pub next: usize,
    /// The id in the action whose document is expected.
    pub action_id: Option<String>,
    /// The documents that wait for their batch.
    pub pending: Vec<Document>,
    /// The batch at work.
    pub batch: BatchRun,
    /// The ids of the documents to delete.
    pub deletes: Vec<String>,
    /// The number of deletions that are through.
    pub deleted: usize,
    pub items: Vec<BulkItem>,
    pub has_errors: bool,
    pub docs_indexed: u64,
    pub stage: BulkStage,
}

/// What a request goes on with between two actions: the next line while there is
/// one, the last documents as a batch, the deletions, and the commit.
pub open spec fn resume(lines_left: bool, pending: nat, deletes_left: bool) -> BulkStage {
    if lines_left {
        BulkStage::Action
    } else if pending > 0 {
        BulkStage::Batch
    } else if deletes_left {
        BulkStage::Delete
    } else {
        BulkStage::Commit
    }
}

impl BulkRun {
    /// The error flag and the document count are those of the items, each of which has
    /// an error exactly where its status is one; no batch is longer than
    /// [`BATCH_SIZE`].
    pub open spec fn wf(&self) -> bool {
        &&& self.has_errors == any_error(self.items@)
        &&& statuses_tell(self.items@)
        &&& self.docs_indexed == indexed_count(self.items@)
        &&& self.deleted <= self.deletes@.len()
        &&& self.next <= self.lines@.len()
        &&& self.pending@.len() < BATCH_SIZE
        &&& self.batch.wf()
        &&& self.batch.documents@.len() <= BATCH_SIZE
        &&& match self.stage {
            BulkStage::Action => self.next < self.lines@.len() && self.deleted == 0,
            BulkStage::Body => self.next < self.lines@.len() && self.deleted == 0,
            BulkStage::Batch => self.batch.stage != BatchStage::Done && self.pending@.len() == 0
                && self.deleted == 0,
            BulkStage::Delete | BulkStage::Unstore | BulkStage::Unindex => self.next
                == self.lines@.len() && self.pending@.len() == 0 && self.deleted
                < self.deletes@.len(),
            _ => self.next == self.lines@.len() && self.pending@.len() == 0 && self.deleted
                == self.deletes@.len(),
        }
    }

    /// The number of actions taken up so far: those with an item, those whose
    /// document waits or is at work, the deletions to come, and the action whose
    /// document is expected.
    pub open spec fn actions(&self) -> int {
        self.items@.len() + self.pending@.len() + (if self.stage == BulkStage::Batch {
            self.batch.documents@.len() as int
        } else {
            0
        }) + (self.deletes@.len() - self.deleted) + (if self.stage == BulkStage::Body {
            1int
        } else {
            0
        })
    }

    /// The current line.
    pub fn line(&self) -> (s: &str)
        requires
            self.wf(),
            self.stage == BulkStage::Action || self.stage == BulkStage::Body,
        ensures
            s@ == self.lines@[self.next as int]@,
    {
        self.lines[self.next].as_str()
    }

    /// The id of the current deletion.
    pub fn delete_id(&self) -> (s: &str)
        requires
            self.wf(),
            self.stage == BulkStage::Delete || self.stage == BulkStage::Unstore || self.stage
                == BulkStage::Unindex,
        ensures
            s@ == self.deletes@[self.deleted as int]@,
    {
        self.deletes[self.deleted].as_str()
    }

    /// `after` works on the same request: the same collection and lines.
    pub open spec fn same_request(&self, after: BulkRun) -> bool {
        after.collection == self.collection && after.lines == self.lines
    }

    /// Add an item to the results.
    fn record(&mut self, item: BulkItem)
        requires
            old(self).has_errors == any_error(old(self).items@),
            old(self).docs_indexed == indexed_count(old(self).items@),
            statuses_tell(old(self).items@),
            item.error is Some == (item.status >= 400),
            item.status != 201,
        ensures
            statuses_tell(final(self).items@),
            *final(self) == (BulkRun {
                items: final(self).items,
                has_errors: final(self).has_errors,
                ..*old(self)
            }),
            final(self).items@ == old(self).items@.push(item),
            final(self).has_errors == any_error(final(self).items@),
            final(self).docs_indexed == indexed_count(final(self).items@),
    {
        proof {
            lemma_push_item(self.items@, item);
        }
        if item.error.is_some() {
            self.has_errors = true;
        }
        self.items.push(item);
    }

    /// Make the waiting documents the batch at work.
    fn start_batch(&mut self)
        requires
            old(self).pending@.len() > 0,
        ensures
            *final(self) == (BulkRun {
                pending: final(self).pending,
                batch: final(self).batch,
                stage: BulkStage::Batch,
                ..*old(self)
            }),
            final(self).pending@.len() == 0,
            final(self).batch.documents@ == old(self).pending@,
            final(self).batch.wf(),
            final(self).batch.stage == BatchStage::Propose,
    {
        let mut documents: Vec<Document> = Vec::new();
        std::mem::swap(&mut documents, &mut self.pending);
        self.batch = BatchRun::new(documents);
        self.stage = BulkStage::Batch;
    }

    /// Go on with what comes next between two actions.
    fn settle(&mut self)
        requires
            old(self).has_errors == any_error(old(self).items@),
            statuses_tell(old(self).items@),
            old(self).docs_indexed == indexed_count(old(self).items@),
            old(self).deleted <= old(self).deletes@.len(),
            old(self).next <= old(self).lines@.len(),
            old(self).next < old(self).lines@.len() || old(self).pending@.len() > 0 ==> old(
                self,
            ).deleted == 0,
            old(self).pending@.len() < BATCH_SIZE,
            old(self).batch.wf(),
            old(self).batch.documents@.len() <= BATCH_SIZE,
        ensures
            final(self).wf(),
            old(self).settled(*final(self)),
    {
        if self.next < self.lines.len() {
            self.stage = BulkStage::Action;
        } else if self.pending.len() > 0 {
            self.start_batch();
        } else if self.deleted < self.deletes.len() {
            self.stage = BulkStage::Delete;
        } else {
            self.stage = BulkStage::Commit;
        }
    }

    /// `after` is `self`, gone on with what comes next between two actions.
    pub open spec fn settled(&self, after: BulkRun) -> bool {
        let stage = resume(
            self.next < self.lines@.len(),
            self.pending@.len(),
            self.deleted < self.deletes@.len(),
        );
        &&& after.stage == stage
        &&& if stage == BulkStage::Batch {
            &&& after.batch.documents@ == self.pending@
            &&& after.batch.stage == BatchStage::Propose
            &&& after.pending@.len() == 0
        } else {
            &&& after.batch == self.batch
            &&& after.pending == self.pending
        }
        &&& after == BulkRun { stage, batch: after.batch, pending: after.pending, ..*self }
    }

    /// `self` with `item` in its results, past the current line.
    pub open spec fn past_line(&self, mid: BulkRun, item: ItemView) -> bool {
        &&& mid == BulkRun {
            next: (self.next + 1) as usize,
            items: mid.items,
            has_errors: mid.has_errors,
            ..*self
        }
        &&& mid.items@.len() == self.items@.len() + 1
        &&& self.items@.is_prefix_of(mid.items@)
        &&& mid.items@.last()@ == item
    }

    /// The current line was parsed as an action.
    pub fn on_action(&mut self, parsed: Result<BulkAction, String>)
        requires
            old(self).wf(),
            old(self).stage == BulkStage::Action,
        ensures
            final(self).wf(),
            final(self).actions() == old(self).actions() + 1,
            match parsed {
                Err(message) => exists|mid: BulkRun|
                    #![trigger mid.settled(*final(self))]
                    old(self).past_line(
                        mid,
                        failed_item(
                            "unknown"@,
                            Seq::empty(),
                            400,
                            "invalid action line: "@ + message@,
                        ),
                    ) && mid.settled(*final(self)),
                Ok(BulkAction::Index(meta)) => if old(self).next + 1 < old(self).lines@.len() {
                    *final(self) == (BulkRun {
                        next: (old(self).next + 1) as usize,
                        action_id: meta.id,
                        stage: BulkStage::Body,
                        ..*old(self)
                    })
                } else {
                    exists|mid: BulkRun|
                        #![trigger mid.settled(*final(self))]
                        old(self).past_line(
                            mid,
                            failed_item(
                                "index"@,
                                id_or_empty(meta.id),
                                400,
                                "missing document body after index action"@,
                            ),
                        ) && mid.settled(*final(self))
                },
                Ok(BulkAction::Delete(meta)) => exists|mid: BulkRun|
                    #![trigger mid.settled(*final(self))]
                    mid.settled(*final(self)) && if id_or_empty(meta.id).len() == 0 {
                        old(self).past_line(
                            mid,
                            failed_item(
                                "delete"@,
                                Seq::empty(),
                                400,
                                "delete action requires _id"@,
                            ),
                        )
                    } else {
                        &&& mid == (BulkRun {
                            next: (old(self).next + 1) as usize,
                            deletes: mid.deletes,
                            ..*old(self)
                        })
                        &&& text::texts(mid.deletes@) == text::texts(old(self).deletes@).push(
                            id_or_empty(meta.id),
                        )
                    },
            },
    {
        assert(self.lines.len() == self.lines@.len());
        match parsed {
            Err(message) => {
                let error = text::concat2("invalid action line: ", message.as_str());
                self.record(failed("unknown", String::new(), 400, error));
                self.next = self.next + 1;
                let ghost mid = *self;
                self.settle();
                assert(mid.settled(*self));
            },
            Ok(BulkAction::Index(meta)) => {
                self.next = self.next + 1;
                if self.next >= self.lines.len() {
                    let id = or_empty(&meta.id);
                    let error = "missing document body after index action".to_owned();
                    self.record(failed("index", id, 400, error));
                    let ghost mid = *self;
                    self.settle();
                    assert(mid.settled(*self));
                } else {
                    self.action_id = meta.id;
                    self.stage = BulkStage::Body;
                }
            },
            Ok(BulkAction::Delete(meta)) => {
                let id = or_empty(&meta.id);
                if id.as_str().is_empty() {
                    assert(id@ =~= Seq::<char>::empty());
                    let error = "delete action requires _id".to_owned();
                    self.record(failed("delete", id, 400, error));
                } else {
                    proof {
                        text::lemma_texts_push(self.deletes@, id);
                    }
                    self.deletes.push(id);
                }
                self.next = self.next + 1;
                let ghost mid = *self;
                self.settle();
                assert(mid.settled(*self));
            },
        }
    }

    /// Read the current line as a document.  A document whose action names no id gets a
    /// fresh one.
    pub fn read_body(&mut self)
        requires
            old(self).wf(),
            old(self).stage == BulkStage::Body,
        ensures
            final(self).wf(),
            final(self).actions() == old(self).actions(),
            exists|parsed: Result<Vec<(String, Json)>, String>, generated: Seq<char>|
                {
                    &&& object_view(parsed) == parsed_object(
                        old(self).lines@[old(self).next as int]@,
                    )
                    &&& hyphenated(generated)
                    &&& #[trigger] old(self).took_body(*final(self), parsed, generated)
                },
    {
        let parsed = parse_object(self.line());
        self.on_body(parsed);
    }

    /// The current line was parsed as a document.  A document whose action names
    /// no id gets a fresh one.
    pub fn on_body(&mut self, parsed: Result<Vec<(String, Json)>, String>)
        requires
            old(self).wf(),
            old(self).stage == BulkStage::Body,
        ensures
            final(self).wf(),
            final(self).actions() == old(self).actions(),
            exists|generated: Seq<char>|
                hyphenated(generated) && #[trigger] old(self).took_body(
                    *final(self),
                    parsed,
                    generated,
                ),
    {
        let generated = fresh_uuid();
        self.on_body_with(parsed, generated.as_str());
        assert(old(self).took_body(*self, parsed, generated@));
    }

    /// The current line was parsed as a document, whose id is `generated` where
    /// its action names none.
    pub fn on_body_with(
        &mut self,
        parsed: Result<Vec<(String, Json)>, String>,
        generated: &str,
    )
        requires
            old(self).wf(),
            old(self).stage == BulkStage::Body,
        ensures
            final(self).wf(),
            final(self).actions() == old(self).actions(),
            old(self).took_body(*final(self), parsed, generated@),
    {
        assert(self.lines.len() == self.lines@.len());
        match parsed {
            Err(message) => {
                let id = or_empty(&self.action_id);
                let error = text::concat2("invalid document body: ", message.as_str());
                self.record(failed("index", id, 400, error));
                self.next = self.next + 1;
                let ghost mid = *self;
                self.settle();
                assert(mid.settled(*self));
            },
            Ok(members) => {
                let doc = match &self.action_id {
                    Some(id) => build_document(id.as_str(), &members),
                    None => build_document(generated, &members),
                };
                self.pending.push(doc);
                self.next = self.next + 1;
                if self.pending.len() >= BATCH_SIZE {
                    self.start_batch();
                } else {
                    let ghost mid = *self;
                    self.settle();
                    assert(mid.settled(*self));
                }
            },
        }
    }

    /// `after` is `self` behind the document on the current line.
    ///
    /// A line that is no document gives a failed item.  A document joins those
    /// that wait; the hundredth makes them the batch at work.
    pub open spec fn took_body(
        &self,
        after: BulkRun,
        parsed: Result<Vec<(String, Json)>, String>,
        generated: Seq<char>,
    ) -> bool {
        match parsed {
            Err(message) => exists|mid: BulkRun|
                #![trigger mid.settled(after)]
                self.past_line(
                    mid,
                    failed_item(
                        "index"@,
                        id_or_empty(self.action_id),
                        400,
                        "invalid document body: "@ + message@,
                    ),
                ) && mid.settled(after),
            Ok(members) => {
                let id = match self.action_id {
                    Some(s) => s@,
                    None => generated,
                };
                &&& self.same_request(after)
                &&& after.next == self.next + 1
                &&& after.items == self.items
                &&& after.deletes == self.deletes
                &&& after.stage == if self.pending@.len() + 1 >= BATCH_SIZE {
                    BulkStage::Batch
                } else {
                    resume(after.next < self.lines@.len(), 1, false)
                }
                &&& ({
                    let docs = if after.stage == BulkStage::Batch {
                        after.batch.documents@
                    } else {
                        after.pending@
                    };
                    &&& docs.len() == self.pending@.len() + 1
                    &&& self.pending@.is_prefix_of(docs)
                    &&& docs.last()@ == document_of(id, members@)
                })
                &&& after.stage == BulkStage::Batch ==> after.batch.stage == BatchStage::Propose
                    && after.pending@.len() == 0
            },
        }
    }

    /// The cluster has answered the proposal of the batch at work.
    pub fn on_batch_proposed(&mut self, outcome: Result<usize, String>, registry: &mut Catalog)
        requires
            old(self).wf(),
            old(self).stage == BulkStage::Batch,
            old(self).batch.stage == BatchStage::Propose,
        ensures
            final(self).wf(),
            final(self).actions() == old(self).actions(),
            final(registry).aliases == old(registry).aliases,
            exists|mid: BatchRun, mapping: FieldMapping|
                #![trigger old(self).batch.after_proposal(outcome, mapping, mid)]
                {
                    &&& mapping@ == old(registry).mapping_view(old(self).collection@)
                    &&& old(self).batch.after_proposal(outcome, mapping, mid)
                    &&& mid.wf()
                    &&& old(self).absorbed(mid, *final(self), *old(registry), *final(registry))
                },
    {
        let mapping = registry.mapping_of(self.collection.as_str());
        self.batch.proposed(outcome, mapping);
        let ghost mid = self.batch;
        self.absorb(registry);
        assert(old(self).batch.after_proposal(outcome, mapping, mid));
    }

    /// Storage has answered for the current document of the batch at work.
    pub fn on_batch_stored(&mut self, outcome: Result<(), String>, registry: &mut Catalog)
        requires
            old(self).wf(),
            old(self).stage == BulkStage::Batch,
            old(self).batch.stage == BatchStage::Store,
        ensures
            final(self).wf(),
            final(self).actions() == old(self).actions(),
            final(registry).aliases == old(registry).aliases,
            exists|mid: BatchRun|
                #![trigger old(self).batch.after_store(outcome, mid)]
                old(self).batch.after_store(outcome, mid) && mid.wf() && old(self).absorbed(
                    mid,
                    *final(self),
                    *old(registry),
                    *final(registry),
                ),
    {
        self.batch.stored(outcome);
        let ghost mid = self.batch;
        self.absorb(registry);
        assert(old(self).batch.after_store(outcome, mid));
    }

    /// The index has answered for the current document of the batch at work.
    pub fn on_batch_indexed(
        &mut self,
        outcome: Result<FieldMapping, String>,
        registry: &mut Catalog,
    )
        requires
            old(self).wf(),
            old(self).stage == BulkStage::Batch,
            old(self).batch.stage == BatchStage::Index,
        ensures
            final(self).wf(),
            final(self).actions() == old(self).actions(),
            final(registry).aliases == old(registry).aliases,
            exists|mid: BatchRun|
                #![trigger old(self).batch.after_index(outcome, mid)]
                old(self).batch.after_index(outcome, mid) && mid.wf() && old(self).absorbed(
                    mid,
                    *final(self),
                    *old(registry),
                    *final(registry),
                ),
    {
        self.batch.indexed(outcome);
        let ghost mid = self.batch;
        self.absorb(registry);
        assert(old(self).batch.after_index(outcome, mid));
    }

    /// `after` is `self` with its batch come to `mid`.  While the batch is at
    /// work, results and registry stay as they are.  A finished batch adds its
    /// items to the results; where the cluster had accepted it, the collection
    /// gets the mapping that it worked out; and the request goes on.
    pub open spec fn absorbed(
        &self,
        mid: BatchRun,
        after: BulkRun,
        r0: Catalog,
        r1: Catalog,
    ) -> bool {
        if mid.stage != BatchStage::Done {
            &&& after == BulkRun { batch: mid, ..*self }
            &&& r1.collections@ == r0.collections@
        } else {
            &&& self.same_request(after)
            &&& after.deletes == self.deletes
            &&& after.deleted == self.deleted
            &&& after.next == self.next
            &&& after.pending@.len() == 0
            &&& after.stage == resume(
                self.next < self.lines@.len(),
                0,
                self.deleted < self.deletes@.len(),
            )
            &&& after.items@ == self.items@ + mid.items@
            &&& r1.collections@ == if mid.accepted {
                Catalog::credited(r0.collections@, self.collection@, 0, Some(mid.mapping))
            } else {
                r0.collections@
            }
        }
    }

    /// Take over the results of the batch if it is finished.
    fn absorb(&mut self, registry: &mut Catalog)
        requires
            old(self).has_errors == any_error(old(self).items@),
            statuses_tell(old(self).items@),
            old(self).docs_indexed == indexed_count(old(self).items@),
            old(self).deleted == 0,
            old(self).next <= old(self).lines@.len(),
            old(self).pending@.len() == 0,
            old(self).stage == BulkStage::Batch,
            old(self).batch.wf(),
            old(self).batch.stage != BatchStage::Propose,
            old(self).batch.documents@.len() <= BATCH_SIZE,
        ensures
            final(self).wf(),
            final(registry).aliases == old(registry).aliases,
            old(self).absorbed(old(self).batch, *final(self), *old(registry), *final(registry)),
    {
        if self.batch.stage != BatchStage::Done {
            return ;
        }
        let mut done = BatchRun::new(Vec::new());
        std::mem::swap(&mut done, &mut self.batch);
        let ghost before = self.items@;
        let mut more: Vec<BulkItem> = Vec::new();
        std::mem::swap(&mut more, &mut done.items);
        let ghost added = more@;
        proof {
            lemma_append_items(before, added);
            lemma_count_bound(before + added);
        }
        self.items.append(&mut more);
        assert(self.items.len() == self.items@.len());
        assert(self.items@ == before + added);
        proof {
            assert forall|i: int| 0 <= i < self.items@.len() implies (
            #[trigger] self.items@[i]).error is Some == (self.items@[i].status >= 400) by {
                if i >= before.len() {
                    assert(self.items@[i] == added[i - before.len()]);
                } else {
                    assert(self.items@[i] == before[i]);
                }
            }
        }
        if done.has_errors {
            self.has_errors = true;
        }
        self.docs_indexed = self.docs_indexed + done.success_count;
        if done.accepted {
            registry.credit(self.collection.as_str(), 0, Some(done.mapping));
        }
        self.settle();
    }

    /// `after` is `self` behind the current deletion, which gave `item`.
    pub open spec fn past_deletion(&self, after: BulkRun, item: ItemView) -> bool {
        &&& self.same_request(after)
        &&& after.deletes == self.deletes
        &&& after.deleted == self.deleted + 1
        &&& after.items@.len() == self.items@.len() + 1
        &&& self.items@.is_prefix_of(after.items@)
        &&& after.items@.last()@ == item
        &&& after.stage == if after.deleted < after.deletes@.len() {
            BulkStage::Delete
        } else {
            BulkStage::Commit
        }
    }

    /// The cluster has answered the proposal of the current deletion.  Where it refused,
    /// the document stays in storage and index.
    pub fn on_delete(&mut self, outcome: Result<(), String>)
        requires
            old(self).wf(),
            old(self).stage == BulkStage::Delete,
        ensures
            final(self).wf(),
            final(self).actions() == old(self).actions(),
            match outcome {
                Ok(_) => *final(self) == (BulkRun { stage: BulkStage::Unstore, ..*old(self) }),
                Err(message) => old(self).past_deletion(
                    *final(self),
                    failed_item(
                        "delete"@,
                        old(self).deletes@[old(self).deleted as int]@,
                        500,
                        message@,
                    ),
                ),
            },
    {
        assert(self.deletes.len() == self.deletes@.len());
        match outcome {
            Ok(_) => {
                self.stage = BulkStage::Unstore;
            },
            Err(message) => {
                let id = self.deletes[self.deleted].clone();
                self.record(failed("delete", id, 500, message));
                self.deleted = self.deleted + 1;
                self.settle();
            },
        }
    }

    /// The document of the current deletion is out of storage.
    pub fn on_unstored(&mut self)
        requires
            old(self).wf(),
            old(self).stage == BulkStage::Unstore,
        ensures
            final(self).wf(),
            final(self).actions() == old(self).actions(),
            *final(self) == (BulkRun { stage: BulkStage::Unindex, ..*old(self) }),
    {
        self.stage = BulkStage::Unindex;
    }

    /// The document of the current deletion is out of the index too.
    pub fn on_unindexed(&mut self)
        requires
            old(self).wf(),
            old(self).stage == BulkStage::Unindex,
        ensures
            final(self).wf(),
            final(self).actions() == old(self).actions(),
            old(self).past_deletion(
                *final(self),
                good_item("delete"@, old(self).deletes@[old(self).deleted as int]@, 200),
            ),
    {
        assert(self.deletes.len() == self.deletes@.len());
        let id = self.deletes[self.deleted].clone();
        self.record(good("delete", id, 200));
        self.deleted = self.deleted + 1;
        self.settle();
    }

    /// The index is committed: count the documents and answer the client.
    pub fn on_committed(&mut self, took: u64, registry: &mut Catalog) -> (resp: BulkResponse)
        requires
            old(self).wf(),
            old(self).stage == BulkStage::Commit,
            old(registry).has(old(self).collection@) ==> old(
                registry,
            ).collections@[old(self).collection@].doc_count + old(self).docs_indexed <= u64::MAX,
        ensures
            final(self).stage == BulkStage::Done,
            final(registry).aliases == old(registry).aliases,
            final(registry).collections@ == Catalog::credited(
                old(registry).collections@,
                old(self).collection@,
                indexed_count(old(self).items@) as int,
                None,
            ),
            resp.took == took,
            resp.errors == any_error(resp.items@),
            statuses_tell(resp.items@),
            resp.items@ == old(self).items@,
    {
        self.stage = BulkStage::Done;
        registry.credit(self.collection.as_str(), self.docs_indexed, None);
        let mut items: Vec<BulkItem> = Vec::new();
        std::mem::swap(&mut items, &mut self.items);
        BulkResponse { took, errors: self.has_errors, items }
    }
}

/// Begin a bulk request on the lines of `body`.
pub fn bulk_index(registry: &Catalog, collection: &str, body: &str) -> (r: Result<
    BulkRun,
    ErrorResponse,
>)
    ensures
        match r {
            Ok(run) => {
                &&& registry.has(collection@)
                &&& run.wf()
                &&& run.collection@ == collection@
                &&& text::texts(run.lines@) == text::text_lines(body@)
                &&& run.next == 0
                &&& run.items@.len() == 0
                &&& run.pending@.len() == 0
                &&& run.deletes@.len() == 0
                &&& run.stage == resume(run.lines@.len() > 0, 0, false)
            },
            Err(e) => !registry.has(collection@) && e@ == no_collection(collection@),
        },
{
    if !registry.has_collection(collection) {
        return Err(collection_not_found(collection));
    }
    let mut run = BulkRun {
        collection: collection.to_owned(),
        lines: text::nonblank_lines(body),
        next: 0,
        action_id: None,
        pending: Vec::new(),
        batch: BatchRun::new(Vec::new()),
        deletes: Vec::new(),
        deleted: 0,
        items: Vec::new(),
        has_errors: false,
        docs_indexed: 0,
        stage: BulkStage::Commit,
    };
    run.settle();
    Ok(run)
}

/// When a bulk request comes to its commit, every action that it took up has its
/// item: nothing waits, and no deletion is left.
pub proof fn every_action_has_its_item(run: BulkRun)
    requires
        run.wf(),
        run.stage == BulkStage::Commit,
    ensures
        run.items@.len() == run.actions(),
        run.next == run.lines@.len(),
        run.has_errors == any_error(run.items@),
        run.docs_indexed == indexed_count(run.items@),
{
}

// ---------------------------------------------------------------------------
// Laws
// ---------------------------------------------------------------------------

/// The number of documents that were indexed is the number of items with status 201, and
/// there is an error exactly where some item has one.
pub proof fn items_are_counted(items: Seq<BulkItem>)
    ensures
        indexed_count(items) == items.filter(|item: BulkItem| item.status == 201).len(),
        any_error(items) <==> items.filter(|item: BulkItem| item.error is Some).len() > 0,
    decreases items.len(),
{
    let failed = |item: BulkItem| item.error is Some;
    reveal(Seq::filter);
    if items.len() > 0 {
        let front = items.drop_last();
        items_are_counted(front);
        assert(items =~= front.push(items.last()));
        lemma_push_item(front, items.last());
    }
}

/// An item shows its action, its identifier, its status and its error, where it has one.
pub proof fn items_show_what_they_hold(item: BulkItem, action: Seq<char>, id: Seq<char>, status: u16, error: Seq<char>)
    ensures
        item@.action == item.action@,
        item@.id == item.id@,
        item@.status == item.status,
        item@.error is Some <==> item.error is Some,
        item.error matches Some(e) ==> item@.error == Some(e@),
        item@ == failed_item(action, id, status, error) ==> item.action@ == action && item.id@
            == id && item.status == status && item.error is Some && item.error->0@ == error,
        item@ == good_item(action, id, status) ==> item.action@ == action && item.id@ == id
            && item.status == status && item.error is None,
{
}

/// In a list of items a status of 400 or more is an error and no other is, and only the
/// indexing of a document has the status 201.
pub proof fn statuses_tell_of_errors(items: Seq<BulkItem>, i: int)
    requires
        statuses_tell(items),
        0 <= i < items.len(),
    ensures
        items[i].error is Some <==> items[i].status >= 400,
        items[i].status == 201 ==> items[i].action@ == "index"@,
{
}

/// A finished batch has one item for each of its documents, in their order and under their
/// identifiers: indexed with status 201, or failed with status 500.
pub proof fn every_document_of_a_batch_has_its_item(batch: BatchRun, i: int)
    requires
        batch.wf(),
        batch.stage == BatchStage::Done,
        0 <= i < batch.documents@.len(),
    ensures
        batch.items@.len() == batch.documents@.len(),
        batch.items@[i].id@ == batch.documents@[i].id@,
        batch.items@[i].action@ == "index"@,
        batch.items@[i].status == 201 <==> batch.items@[i].error is None,
        batch.items@[i].status == 201 || batch.items@[i].status == 500,
        batch.success_count == batch.items@.filter(|item: BulkItem| item.status == 201).len(),
        batch.has_errors <==> exists|k: int|
            0 <= k < batch.items@.len() && (#[trigger] batch.items@[k]).error is Some,
{
    items_are_counted(batch.items@);
    assert(batch_item(batch.items@[i], batch.documents@[i]));
}

/// A batch that the cluster rejects fails as a whole, with the cluster's message; one of
/// which the cluster applied nothing fails as a whole too; any other goes on with storing
/// its first document, and has no item yet.
pub proof fn proposals_decide_on_the_batch(
    before: BatchRun,
    outcome: Result<usize, String>,
    mapping: FieldMapping,
    after: BatchRun,
    i: int,
)
    requires
        before.wf(),
        after.wf(),
        before.stage == BatchStage::Propose,
        before.after_proposal(outcome, mapping, after),
        0 <= i < before.documents@.len(),
    ensures
        after.documents == before.documents,
        after.accepted <==> outcome is Ok,
        outcome matches Err(message) ==> {
            &&& after.stage == BatchStage::Done
            &&& after.items@.len() == before.documents@.len()
            &&& after.items@[i].status == 500
            &&& after.items@[i].id@ == before.documents@[i].id@
            &&& after.items@[i].error matches Some(e) && e@ == message@
        },
        outcome matches Ok(count) ==> {
            &&& after.mapping == mapping
            &&& after.applied == count
            &&& count > 0 ==> after.stage == BatchStage::Store
            &&& count == 0 ==> after.stage == BatchStage::Done && after.items@.len()
                == before.documents@.len() && after.items@[i].status == 500
                && after.items@[i].id@ == before.documents@[i].id@ && (
            after.items@[i].error matches Some(e) && e@ == "failed during batch apply"@)
        },
{
    if i < after.items@.len() {
        match outcome {
            Ok(_) => {
                assert(after.items@[i]@ == failed_item(
                    "index"@,
                    before.documents@[i].id@,
                    500,
                    "failed during batch apply"@,
                ));
            },
            Err(message) => {
                assert(after.items@[i]@ == failed_item(
                    "index"@,
                    before.documents@[i].id@,
                    500,
                    message@,
                ));
            },
        }
    }
}

/// A document that was stored is indexed next, and nothing else changes; one that could not
/// be stored has failed, with the cause.
pub proof fn storing_decides_on_the_document(
    before: BatchRun,
    outcome: Result<(), String>,
    after: BatchRun,
)
    requires
        before.wf(),
        before.stage == BatchStage::Store,
        before.after_store(outcome, after),
    ensures
        after.documents == before.documents,
        after.applied == before.applied,
        after.accepted == before.accepted,
        after.mapping == before.mapping,
        outcome is Ok ==> after.stage == BatchStage::Index && after.items == before.items
            && after.success_count == before.success_count,
        outcome matches Err(message) ==> {
            let n = before.items@.len() as int;
            &&& after.items@.len() > n
            &&& after.items@[n].status == 500
            &&& after.items@[n].id@ == before.documents@[n].id@
            &&& after.items@[n].error matches Some(e) && e@ == "storage error: "@ + message@
        },
{
}

/// A document that was indexed has the status 201, and the batch has the mapping that the
/// index worked out; one that could not be indexed has failed, with the cause, and the
/// mapping stays.
pub proof fn indexing_decides_on_the_document(
    before: BatchRun,
    outcome: Result<FieldMapping, String>,
    after: BatchRun,
)
    requires
        before.wf(),
        before.stage == BatchStage::Index,
        before.after_index(outcome, after),
    ensures
        after.documents == before.documents,
        after.applied == before.applied,
        after.accepted == before.accepted,
        ({
            let n = before.items@.len() as int;
            &&& after.items@.len() > n
            &&& after.items@[n].action@ == "index"@
            &&& after.items@[n].id@ == before.documents@[n].id@
            &&& outcome matches Ok(mapping) ==> after.mapping == mapping && after.items@[n].status
                == 201 && after.items@[n].error is None
            &&& outcome matches Err(message) ==> after.mapping == before.mapping
                && after.items@[n].status == 500 && (after.items@[n].error matches Some(e) && e@
                == "index error: "@ + message@)
        }),
{
}

/// Behind a document the batch goes on with the next one that the cluster applied; behind
/// the last of those it is done, and the documents behind it have failed.
pub proof fn batches_go_on_document_by_document(
    before: BatchRun,
    after: BatchRun,
    item: ItemView,
    i: int,
)
    requires
        before.wf(),
        after.wf(),
        after.documents == before.documents,
        after.applied == before.applied,
        before.moved_past(after, item),
        before.items@.len() < before.documents@.len(),
    ensures
        ({
            let n = before.items@.len() as int;
            &&& 0 <= i < n ==> after.items@[i] == before.items@[i]
            &&& after.items@[n]@ == item
            &&& n + 1 < before.applied && n + 1 < before.documents@.len() ==> after.stage
                == BatchStage::Store && after.items@.len() == n + 1
            &&& n + 1 >= before.applied || n + 1 >= before.documents@.len() ==> after.stage
                == BatchStage::Done && after.items@.len() == before.documents@.len()
            &&& n < i < after.items@.len() ==> after.items@[i].status == 500
                && after.items@[i].id@ == before.documents@[i].id@ && (
            after.items@[i].error matches Some(e) && e@ == "failed during batch apply"@)
        }),
{
    let n = before.items@.len() as int;
    if n < i < after.items@.len() {
        assert(after.items@[i]@ == failed_item(
            "index"@,
            before.documents@[i].id@,
            500,
            "failed during batch apply"@,
        ));
    }
}

/// Between two actions the next line comes first, behind the lines the waiting documents,
/// behind those the deletions, and the commit at the end.
pub proof fn requests_go_on_in_order(lines_left: bool, pending: nat, deletes_left: bool)
    ensures
        lines_left ==> resume(lines_left, pending, deletes_left) == BulkStage::Action,
        !lines_left && pending > 0 ==> resume(lines_left, pending, deletes_left)
            == BulkStage::Batch,
        !lines_left && pending == 0 && deletes_left ==> resume(lines_left, pending, deletes_left)
            == BulkStage::Delete,
        !lines_left && pending == 0 && !deletes_left ==> resume(lines_left, pending, deletes_left)
            == BulkStage::Commit,
{
}

/// Going on loses nothing: what was recorded stays, and the waiting documents wait on or
/// become the batch at work, which is still to be proposed.
pub proof fn going_on_loses_nothing(before: BulkRun, after: BulkRun)
    requires
        before.settled(after),
    ensures
        after.collection == before.collection,
        after.lines == before.lines,
        after.next == before.next,
        after.items == before.items,
        after.has_errors == before.has_errors,
        after.docs_indexed == before.docs_indexed,
        after.deletes == before.deletes,
        after.deleted == before.deleted,
        after.stage == BulkStage::Batch ==> after.batch.documents@ == before.pending@
            && after.batch.stage == BatchStage::Propose && after.pending@.len() == 0
            && before.next >= before.lines@.len(),
        after.stage != BulkStage::Batch ==> after.pending == before.pending && after.batch
            == before.batch,
        after.stage == BulkStage::Action <==> before.next < before.lines@.len(),
{
}

/// A line that holds no document gives one failed item, with status 400, the action's
/// identifier and the cause, and nothing more waits.
pub proof fn unreadable_documents_fail(
    before: BulkRun,
    after: BulkRun,
    message: String,
    generated: Seq<char>,
)
    requires
        before.wf(),
        before.stage == BulkStage::Body,
        before.took_body(after, Err(message), generated),
    ensures
        after.next == before.next + 1,
        after.items@.len() == before.items@.len() + 1,
        ({
            let item = after.items@[before.items@.len() as int];
            &&& item.action@ == "index"@
            &&& item.status == 400
            &&& item.error matches Some(e) && e@ == "invalid document body: "@ + message@
            &&& before.action_id matches Some(id) ==> item.id@ == id@
            &&& before.action_id is None ==> item.id@.len() == 0
        }),
        after.deletes == before.deletes,
        after.lines == before.lines,
{
    let mid = choose|mid: BulkRun|
        #![trigger mid.settled(after)]
        before.past_line(
            mid,
            failed_item(
                "index"@,
                id_or_empty(before.action_id),
                400,
                "invalid document body: "@ + message@,
            ),
        ) && mid.settled(after);
    assert(before.lines.len() == before.lines@.len());
    assert(mid.items@.last() == after.items@[before.items@.len() as int]);
}

/// A document joins those that wait, at the end and under the identifier of its action, or
/// under the generated one where the action has none; the hundredth makes them the batch at
/// work, and so does the last line.
pub proof fn documents_wait_for_their_batch(
    before: BulkRun,
    after: BulkRun,
    members: Vec<(String, Json)>,
    generated: Seq<char>,
    i: int,
)
    requires
        before.wf(),
        before.stage == BulkStage::Body,
        before.took_body(after, Ok(members), generated),
    ensures
        after.next == before.next + 1,
        after.items == before.items,
        after.deletes == before.deletes,
        before.pending@.len() == 99 || before.next + 1 == before.lines@.len() ==> after.stage
            == BulkStage::Batch,
        before.pending@.len() < 99 && before.next + 1 < before.lines@.len() ==> after.stage
            == BulkStage::Action,
        ({
            let n = before.pending@.len() as int;
            let docs = if after.stage == BulkStage::Batch {
                after.batch.documents@
            } else {
                after.pending@
            };
            &&& docs.len() == n + 1
            &&& 0 <= i < n ==> docs[i] == before.pending@[i]
            &&& docs[n]@.fields == with_members(Map::empty(), members@)
            &&& before.action_id matches Some(id) ==> docs[n].id@ == id@
            &&& before.action_id is None ==> docs[n].id@ == generated
        }),
{
    let n = before.pending@.len() as int;
    let docs = if after.stage == BulkStage::Batch {
        after.batch.documents@
    } else {
        after.pending@
    };
    assert(docs.last() == docs[n]);
    if 0 <= i < n {
        assert(docs[i] == before.pending@[i]);
    }
}

/// A finished batch adds its items behind those that are there; the mapping that it worked
/// out counts only where the cluster had accepted it, and no document is counted yet.  While
/// the batch is at work results and registry stay as they are.
pub proof fn finished_batches_are_taken_over(
    before: BulkRun,
    mid: BatchRun,
    after: BulkRun,
    r0: Catalog,
    r1: Catalog,
)
    requires
        before.absorbed(mid, after, r0, r1),
    ensures
        after.lines == before.lines,
        after.next == before.next,
        after.deletes == before.deletes,
        after.deleted == before.deleted,
        after.collection == before.collection,
        mid.stage == BatchStage::Done ==> after.items@ == before.items@ + mid.items@
            && after.pending@.len() == 0,
        mid.stage != BatchStage::Done ==> after.items == before.items && after.batch == mid
            && after.stage == before.stage,
        mid.stage != BatchStage::Done || !mid.accepted ==> r1.collections@ == r0.collections@,
        mid.stage == BatchStage::Done && before.next < before.lines@.len() ==> after.stage
            == BulkStage::Action,
{
}

/// A deletion adds one item and the next deletion follows, and behind the last one the
/// commit.
pub proof fn deletions_follow_one_another(before: BulkRun, after: BulkRun, item: ItemView, i: int)
    requires
        before.wf(),
        before.past_deletion(after, item),
    ensures
        after.deletes == before.deletes,
        after.lines == before.lines,
        after.items@.len() == before.items@.len() + 1,
        after.items@[before.items@.len() as int]@ == item,
        0 <= i < before.items@.len() ==> after.items@[i] == before.items@[i],
        before.deleted + 1 < before.deletes@.len() ==> after.stage == BulkStage::Delete,
        before.deleted + 1 >= before.deletes@.len() ==> after.stage == BulkStage::Commit,
        after.deleted == before.deleted + 1,
{
    assert(after.items@.last() == after.items@[before.items@.len() as int]);
    if 0 <= i < before.items@.len() {
        assert(after.items@[i] == before.items@[i]);
    }
}

/// A line that is passed adds one item, and nothing else changes but the line and whether
/// there is an error.
pub proof fn passed_lines_add_one_item(before: BulkRun, mid: BulkRun, item: ItemView, i: int)
    requires
        before.wf(),
        before.next < before.lines@.len(),
        before.past_line(mid, item),
    ensures
        mid.next == before.next + 1,
        mid.items@.len() == before.items@.len() + 1,
        mid.items@[before.items@.len() as int]@ == item,
        0 <= i < before.items@.len() ==> mid.items@[i] == before.items@[i],
        mid.pending == before.pending,
        mid.deletes == before.deletes,
        mid.batch == before.batch,
        mid.docs_indexed == before.docs_indexed,
{
    assert(before.lines.len() == before.lines@.len());
    assert(mid.items@.last() == mid.items@[before.items@.len() as int]);
    if 0 <= i < before.items@.len() {
        assert(mid.items@[i] == before.items@[i]);
    }
}

} // verus!
