//! Snapshots: their names, their rotation, and what clients are told of them.

use vstd::prelude::*;

use crate::model::error::DbError;
use crate::model::ranking::{
    descending, ranked, ranking_is_a_descending_permutation, sort_descending, Ranked,
};
use crate::node::state::{CollectionMeta, Catalog};
use crate::text;

verus! {

/// What is kept of a snapshot.
#[derive(Debug)]
pub struct SnapshotInfo {
    pub id: String,
    pub term: u64,
    pub last_log_index: u64,
    pub size_bytes: u64,
    pub doc_count: u64,
    /// When it was made, in seconds.
    pub created_at: u64,
}

impl Ranked for SnapshotInfo {
    open spec fn rank(&self) -> int {
        self.created_at as int
    }

    fn rank_value(&self) -> (r: i128) {
        self.created_at as i128
    }
}

/// How many snapshots are kept.
#[derive(Clone, Copy, Debug)]
pub struct SnapshotConfig {
    pub max_snapshots: usize,
}

impl Default for SnapshotConfig {
    fn default() -> (c: Self)
        ensures
            c.max_snapshots == 3,
    {
        SnapshotConfig { max_snapshots: 3 }
    }
}

// ---------------------------------------------------------------------------
// Names
// ---------------------------------------------------------------------------

/// The id of a snapshot: its term, log index and time.
pub open spec fn snapshot_id(term: u64, index: u64, time: u64) -> Seq<char> {
    text::decimal(term as nat) + "-"@ + text::decimal(index as nat) + "-"@ + text::decimal(
        time as nat,
    )
}

/// The id of a snapshot.
pub fn make_snapshot_id(term: u64, index: u64, time: u64) -> (id: String)
    ensures
        id@ == snapshot_id(term, index, time),
{
    let mut id = text::decimal_of(term);
    id.append("-");
    id.append(text::decimal_of(index).as_str());
    id.append("-");
    id.append(text::decimal_of(time).as_str());
    id
}

/// The name of a snapshot's archive.
pub fn archive_name(id: &str) -> (name: String)
    ensures
        name@ == id@ + ".snap"@,
{
    text::concat2(id, ".snap")
}

/// The name of the file that describes a snapshot.
pub fn meta_name(id: &str) -> (name: String)
    ensures
        name@ == id@ + ".meta.json"@,
{
    text::concat2(id, ".meta.json")
}

/// The name of the directory in which a snapshot is put together.
pub fn staging_name(id: &str) -> (name: String)
    ensures
        name@ == "staging-"@ + id@,
{
    text::concat2("staging-", id)
}

/// Whether a file describes a snapshot.
pub fn is_meta_file(name: &str) -> (r: bool)
    ensures
        r == text::finishes_with(name@, ".meta.json"@),
{
    text::ends_with(name, ".meta.json")
}

/// The header under which a client stores an archive.
pub fn content_disposition(id: &str) -> (h: String)
    ensures
        h@ == "attachment; filename=\""@ + (id@ + ".snap"@) + "\""@,
{
    text::concat3("attachment; filename=\"", archive_name(id).as_str(), "\"")
}

// ---------------------------------------------------------------------------
// Order and rotation
// ---------------------------------------------------------------------------

/// Put the snapshots in order, the newest first.
pub fn newest_first(list: &mut Vec<SnapshotInfo>)
    ensures
        final(list)@ == ranked(old(list)@),
        descending(final(list)@),
        final(list)@.to_multiset() == old(list)@.to_multiset(),
{
    proof {
        ranking_is_a_descending_permutation(list@);
    }
    sort_descending(list);
}

/// The ids of the snapshots to delete: of a list with the newest first, those
/// behind the ones that are kept.
pub fn expired(list: &Vec<SnapshotInfo>, config: &SnapshotConfig) -> (ids: Vec<String>)
    ensures
        ids@.len() == if list@.len() <= config.max_snapshots {
            0
        } else {
            list@.len() - config.max_snapshots
        },
        forall|i: int|
            0 <= i < ids@.len() ==> (#[trigger] ids@[i])@ == list@[config.max_snapshots + i].id@,
{
    let mut ids: Vec<String> = Vec::new();
    let mut i: usize = config.max_snapshots;
    while i < list.len()
        invariant
            config.max_snapshots <= i,
            config.max_snapshots <= list@.len() ==> i <= list@.len(),
            config.max_snapshots > list@.len() ==> i == config.max_snapshots,
            ids@.len() == i - config.max_snapshots,
            forall|j: int|
                0 <= j < ids@.len() ==> (#[trigger] ids@[j])@ == list@[config.max_snapshots
                    + j].id@,
        decreases list@.len() - i,
    {
        ids.push(list[i].id.clone());
        i = i + 1;
    }
    ids
}

/// What a restore does with the directories of the node, in this order.
#[derive(Clone, Copy, Debug, PartialEq, Eq, Structural)]
pub enum RestoreStep {
    RemoveStorage,
    MoveStorage,
    RemoveIndex,
    MoveIndex,
}

/// The steps of a restore.  A directory that the archive holds replaces the
/// node's; one that it does not hold is left alone.
pub open spec fn restore_plan(
    has_storage: bool,
    old_storage: bool,
    has_index: bool,
    old_index: bool,
) -> Seq<RestoreStep> {
    (if has_storage {
        if old_storage {
            seq![RestoreStep::RemoveStorage, RestoreStep::MoveStorage]
        } else {
            seq![RestoreStep::MoveStorage]
        }
    } else {
        Seq::empty()
    }) + (if has_index {
        if old_index {
            seq![RestoreStep::RemoveIndex, RestoreStep::MoveIndex]
        } else {
            seq![RestoreStep::MoveIndex]
        }
    } else {
        Seq::empty()
    })
}

/// The steps of a restore.
pub fn restore_steps(
    has_storage: bool,
    old_storage: bool,
    has_index: bool,
    old_index: bool,
) -> (steps: Vec<RestoreStep>)
    ensures
        steps@ == restore_plan(has_storage, old_storage, has_index, old_index),
{
    let mut steps: Vec<RestoreStep> = Vec::new();
    if has_storage {
        if old_storage {
            steps.push(RestoreStep::RemoveStorage);
        }
        steps.push(RestoreStep::MoveStorage);
    }
    if has_index {
        if old_index {
            steps.push(RestoreStep::RemoveIndex);
        }
        steps.push(RestoreStep::MoveIndex);
    }
    assert(steps@ =~= restore_plan(has_storage, old_storage, has_index, old_index));
    steps
}

// ---------------------------------------------------------------------------
// Answers
// ---------------------------------------------------------------------------

/// The answer to a snapshot that was made.
#[derive(Debug)]
pub struct SnapshotResponse {
    pub success: bool,
    pub snapshot_id: String,
    pub term: u64,
    pub last_log_index: u64,
    pub size_bytes: u64,
    pub doc_count: u64,
}

/// Request to restore a snapshot.
#[derive(Debug)]
pub struct RestoreRequest {
    pub snapshot_id: Option<String>,
}

/// The answer to a restore.
#[derive(Debug)]
pub struct RestoreResponse {
    pub success: bool,
    pub message: String,
}

/// The answer to a request that failed.
#[derive(Debug)]
pub struct SnapshotFailure {
    pub status: u16,
    pub error: String,
}

impl SnapshotFailure {
    pub open spec fn says(self, status: u16, error: Seq<char>) -> bool {
        self.status == status && self.error@ == error
    }
}

fn failure(status: u16, error: String) -> (f: SnapshotFailure)
    ensures
        f.says(status, error@),
{
    SnapshotFailure { status, error }
}

/// The answer of a node that makes no snapshots.
pub fn no_snapshots() -> (f: SnapshotFailure)
    ensures
        f.says(503, "snapshot manager not initialised"@),
{
    failure(503, "snapshot manager not initialised".to_owned())
}

/// The number of documents of the first `n` entries.
pub open spec fn docs_of(entries: Seq<(String, CollectionMeta)>) -> nat
    decreases entries.len(),
{
    if entries.len() == 0 {
        0
    } else {
        docs_of(entries.drop_last()) + entries.last().1.doc_count as nat
    }
}

proof fn lemma_docs_prefix(entries: Seq<(String, CollectionMeta)>, k: int)
    requires
        0 <= k <= entries.len(),
    ensures
        docs_of(entries.take(k)) <= docs_of(entries),
    decreases entries.len() - k,
{
    if k < entries.len() {
        lemma_docs_prefix(entries, k + 1);
        assert(entries.take(k + 1).drop_last() =~= entries.take(k));
    } else {
        assert(entries.take(k) =~= entries);
    }
}

/// The number of documents in all collections.
pub fn total_docs(registry: &Catalog) -> (n: u64)
    requires
        docs_of(registry.collections.entries()) <= u64::MAX,
    ensures
        n == docs_of(registry.collections.entries()),
{
    let len: usize = registry.collections.len();
    let ghost entries = registry.collections.entries();
    let mut n: u64 = 0;
    let mut i: usize = 0;
    assert(entries.take(0) =~= Seq::<(String, CollectionMeta)>::empty());
    while i < len
        invariant
            entries == registry.collections.entries(),
            len == entries.len(),
            i <= len,
            n == docs_of(entries.take(i as int)),
            docs_of(entries) <= u64::MAX,
        decreases len - i,
    {
        proof {
            lemma_docs_prefix(entries, i + 1);
            assert(entries.take(i + 1).drop_last() =~= entries.take(i as int));
            assert(entries.take(i + 1).last() == entries[i as int]);
        }
        let (_, meta) = registry.collections.entry(i);
        n = n + meta.doc_count;
        i = i + 1;
    }
    assert(entries.take(i as int) =~= entries);
    n
}

/// How a piece of work in the background ended: with its result, or not at all.
pub enum Background<T> {
    Finished(Result<T, DbError>),
    Lost(String),
}

/// Answer a request for a snapshot.
pub fn answer_create(outcome: Background<SnapshotInfo>) -> (r: Result<
    SnapshotResponse,
    SnapshotFailure,
>)
    ensures
        match outcome {
            Background::Finished(Ok(info)) => {
                &&& r matches Ok(resp)
                &&& resp.success
                &&& resp.snapshot_id@ == info.id@
                &&& resp.term == info.term
                &&& resp.last_log_index == info.last_log_index
                &&& resp.size_bytes == info.size_bytes
                &&& resp.doc_count == info.doc_count
            },
            Background::Finished(Err(e)) => r matches Err(f) && f.says(
                500,
                "snapshot creation failed: "@ + e.description(),
            ),
            Background::Lost(m) => r matches Err(f) && f.says(500, "task join error: "@ + m@),
        },
{
    match outcome {
        Background::Finished(Ok(info)) => Ok(
            SnapshotResponse {
                success: true,
                snapshot_id: info.id,
                term: info.term,
                last_log_index: info.last_log_index,
                size_bytes: info.size_bytes,
                doc_count: info.doc_count,
            },
        ),
        Background::Finished(Err(e)) => Err(
            failure(500, text::concat2("snapshot creation failed: ", e.message().as_str())),
        ),
        Background::Lost(m) => Err(failure(500, text::concat2("task join error: ", m.as_str()))),
    }
}

/// Answer a request for the list of snapshots.
pub fn answer_list(outcome: Background<Vec<SnapshotInfo>>) -> (r: Result<
    Vec<SnapshotInfo>,
    SnapshotFailure,
>)
    ensures
        match outcome {
            Background::Finished(Ok(list)) => r == Ok::<Vec<SnapshotInfo>, SnapshotFailure>(list),
            Background::Finished(Err(e)) => r matches Err(f) && f.says(500, e.description()),
            Background::Lost(m) => r matches Err(f) && f.says(500, m@),
        },
{
    match outcome {
        Background::Finished(Ok(list)) => Ok(list),
        Background::Finished(Err(e)) => Err(failure(500, e.message())),
        Background::Lost(m) => Err(failure(500, m)),
    }
}

/// Whether an archive may be downloaded, once its snapshot has been looked up.
pub fn answer_download(looked_up: Background<SnapshotInfo>) -> (r: Result<(), SnapshotFailure>)
    ensures
        match looked_up {
            Background::Finished(Ok(_)) => r is Ok,
            Background::Finished(Err(e)) => r matches Err(f) && f.says(404, e.description()),
            Background::Lost(m) => r matches Err(f) && f.says(500, m@),
        },
{
    match looked_up {
        Background::Finished(Ok(_)) => Ok(()),
        Background::Finished(Err(e)) => Err(failure(404, e.message())),
        Background::Lost(m) => Err(failure(500, m)),
    }
}

/// The answer where an archive cannot be opened.
pub fn cannot_open(message: &str) -> (f: SnapshotFailure)
    ensures
        f.says(500, "failed to open snapshot: "@ + message@),
{
    failure(500, text::concat2("failed to open snapshot: ", message))
}

/// The error of a lookup that found no snapshot.
pub fn snapshot_not_found(id: &str) -> (e: DbError)
    ensures
        e matches DbError::NotFound(m) && m@ == "snapshot '"@ + id@ + "' not found"@,
{
    DbError::NotFound(text::concat3("snapshot '", id, "' not found"))
}

/// The snapshot that a request asks to restore.
pub fn restore_snapshot(req: RestoreRequest) -> (r: Result<String, SnapshotFailure>)
    ensures
        match req.snapshot_id {
            Some(id) => r == Ok::<String, SnapshotFailure>(id),
            None => r matches Err(f) && f.says(400, "snapshot_id is required"@),
        },
{
    match req.snapshot_id {
        Some(id) => Ok(id),
        None => Err(failure(400, "snapshot_id is required".to_owned())),
    }
}

/// Answer a restore.
pub fn answer_restore(outcome: Background<()>) -> (r: Result<RestoreResponse, SnapshotFailure>)
    ensures
        match outcome {
            Background::Finished(Ok(_)) => {
                &&& r matches Ok(resp)
                &&& resp.success
                &&& resp.message@ == "database restored from snapshot; restart node to apply"@
            },
            Background::Finished(Err(e)) => r matches Err(f) && f.says(
                500,
                "restore failed: "@ + e.description(),
            ),
            Background::Lost(m) => r matches Err(f) && f.says(500, "task join error: "@ + m@),
        },
{
    match outcome {
        Background::Finished(Ok(_)) => Ok(
            RestoreResponse {
                success: true,
                message: "database restored from snapshot; restart node to apply".to_owned(),
            },
        ),
        Background::Finished(Err(e)) => Err(
            failure(500, text::concat2("restore failed: ", e.message().as_str())),
        ),
        Background::Lost(m) => Err(failure(500, text::concat2("task join error: ", m.as_str()))),
    }
}

// ---------------------------------------------------------------------------
// Laws
// ---------------------------------------------------------------------------

/// Different snapshots have different ids: the id tells term, log index and time.
pub proof fn snapshot_ids_differ(t1: u64, i1: u64, s1: u64, t2: u64, i2: u64, s2: u64)
    requires
        snapshot_id(t1, i1, s1) == snapshot_id(t2, i2, s2),
    ensures
        t1 == t2,
        i1 == i2,
        s1 == s2,
{
    lemma_id_parts(t1, i1, s1);
    lemma_id_parts(t2, i2, s2);
    let a = seq![
        text::decimal(t1 as nat),
        text::decimal(i1 as nat),
        text::decimal(s1 as nat),
    ];
    let b = seq![
        text::decimal(t2 as nat),
        text::decimal(i2 as nat),
        text::decimal(s2 as nat),
    ];
    assert(a == b);
    assert(a[0] == b[0] && a[1] == b[1] && a[2] == b[2]);
    text::decimal_injective(t1 as nat, t2 as nat);
    text::decimal_injective(i1 as nat, i2 as nat);
    text::decimal_injective(s1 as nat, s2 as nat);
}

proof fn lemma_id_parts(t: u64, i: u64, s: u64)
    ensures
        text::pieces(snapshot_id(t, i, s), '-') == seq![
            text::decimal(t as nat),
            text::decimal(i as nat),
            text::decimal(s as nat),
        ],
{
    let a = text::decimal(t as nat);
    let b = text::decimal(i as nat);
    let c = text::decimal(s as nat);
    let parts = seq![a, b, c];
    text::lemma_decimal(t as nat);
    text::lemma_decimal(i as nat);
    text::lemma_decimal(s as nat);
    assert forall|k: int| 0 <= k < parts.len() implies !(#[trigger] parts[k]).contains('-') by {
        if parts[k].contains('-') {
            let j = choose|j: int| 0 <= j < parts[k].len() && parts[k][j] == '-';
            assert(text::is_digit(parts[k][j]));
        }
    }
    text::split_undoes_join(parts, '-');
    reveal_strlit("-");
    assert("-"@ =~= seq!['-']);
    assert(parts.drop_last() =~= seq![a, b]);
    assert(seq![a, b].drop_last() =~= seq![a]);
    assert(text::joined(seq![a], seq!['-']) == a);
    assert(text::joined(seq![a, b], seq!['-']) == a + seq!['-'] + b);
    assert(text::joined(parts, seq!['-']) == a + seq!['-'] + b + seq!['-'] + c);
}

/// Rotation deletes no snapshot that is newer than one it keeps.
pub proof fn rotation_keeps_the_newest(list: Seq<SnapshotInfo>, keep: int, kept: int, gone: int)
    requires
        0 <= kept < keep <= gone < list.len(),
    ensures
        ranked(list)[kept].created_at >= ranked(list)[gone].created_at,
{
    ranking_is_a_descending_permutation(list);
    assert(ranked(list)[kept].rank() >= ranked(list)[gone].rank());
}

/// A restore replaces what the archive holds and leaves the rest alone: what is there is
/// taken away before the archive's is put in its place, and the storage comes first.
pub proof fn restores_replace_what_the_archive_holds(
    has_storage: bool,
    old_storage: bool,
    has_index: bool,
    old_index: bool,
)
    ensures
        ({
            let plan = restore_plan(has_storage, old_storage, has_index, old_index);
            &&& plan.contains(RestoreStep::MoveStorage) <==> has_storage
            &&& plan.contains(RestoreStep::RemoveStorage) <==> has_storage && old_storage
            &&& plan.contains(RestoreStep::MoveIndex) <==> has_index
            &&& plan.contains(RestoreStep::RemoveIndex) <==> has_index && old_index
            &&& plan.no_duplicates()
            &&& forall|i: int, j: int|
                #![trigger plan[i], plan[j]]
                0 <= i < plan.len() && 0 <= j < plan.len() && plan[i]
                    == RestoreStep::RemoveStorage && plan[j] == RestoreStep::MoveStorage ==> i < j
            &&& forall|i: int, j: int|
                #![trigger plan[i], plan[j]]
                0 <= i < plan.len() && 0 <= j < plan.len() && plan[i] == RestoreStep::RemoveIndex
                    && plan[j] == RestoreStep::MoveIndex ==> i < j
            &&& forall|i: int, j: int|
                #![trigger plan[i], plan[j]]
                0 <= i < plan.len() && 0 <= j < plan.len() && plan[i] == RestoreStep::MoveStorage
                    && plan[j] == RestoreStep::RemoveIndex ==> i < j
        }),
{
    let plan = restore_plan(has_storage, old_storage, has_index, old_index);
    let storage = if has_storage {
        if old_storage {
            seq![RestoreStep::RemoveStorage, RestoreStep::MoveStorage]
        } else {
            seq![RestoreStep::MoveStorage]
        }
    } else {
        Seq::empty()
    };
    let n = storage.len() as int;
    if has_storage {
        assert(plan[n - 1] == RestoreStep::MoveStorage);
        if old_storage {
            assert(plan[0] == RestoreStep::RemoveStorage);
        }
    }
    if has_index {
        assert(plan[plan.len() - 1] == RestoreStep::MoveIndex);
        if old_index {
            assert(plan[n] == RestoreStep::RemoveIndex);
        }
    }
}

/// The documents of collections are counted together.
pub proof fn documents_are_counted_together(
    a: Seq<(String, CollectionMeta)>,
    b: Seq<(String, CollectionMeta)>,
    c: (String, CollectionMeta),
)
    ensures
        docs_of(a + b) == docs_of(a) + docs_of(b),
        docs_of(seq![c]) == c.1.doc_count,
    decreases b.len(),
{
    let none = Seq::<(String, CollectionMeta)>::empty();
    assert(docs_of(none) == 0);
    assert(seq![c].drop_last() =~= none);
    if b.len() == 0 {
        assert(a + b =~= a);
    } else {
        assert((a + b).drop_last() =~= a + b.drop_last());
        assert((a + b).last() == b.last());
        documents_are_counted_together(a, b.drop_last(), c);
    }
}

/// The identifier of a snapshot tells its term, its log index and its time, in this order.
pub proof fn identifiers_tell_of_snapshots(term: u64, index: u64, time: u64)
    ensures
        text::pieces(snapshot_id(term, index, time), '-') == seq![
            text::decimal(term as nat),
            text::decimal(index as nat),
            text::decimal(time as nat),
        ],
{
    lemma_id_parts(term, index, time);
}

/// A failure says its status and its error.
pub proof fn failures_say_status_and_error(f: SnapshotFailure, status: u16, error: Seq<char>)
    ensures
        f.says(status, error) <==> f.status == status && f.error@ == error,
{
}

/// The newest snapshot comes first.
pub proof fn the_newest_snapshot_comes_first(list: Seq<SnapshotInfo>, i: int)
    requires
        0 <= i < list.len(),
    ensures
        ranked(list)[0].created_at >= list[i].created_at,
{
    let r = ranked(list);
    ranking_is_a_descending_permutation(list);
    list.to_multiset_ensures();
    r.to_multiset_ensures();
    assert(list.contains(list[i]));
    assert(r.to_multiset().count(list[i]) > 0);
    assert(r.contains(list[i]));
    let k = choose|k: int| 0 <= k < r.len() && r[k] == list[i];
    if k > 0 {
        assert(r[0].rank() >= r[k].rank());
    }
}

} // verus!
