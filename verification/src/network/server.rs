//! The server side of the exchange between nodes.

use vstd::prelude::*;

use crate::model::cluster::NodeAddress;
use crate::model::error::DbError;
use crate::network::client::RaftResponse;
use crate::network::proto::{
    GetResponse, HealthResponse, JoinRequest, JoinResponse, ScatterResult, SearchResponse,
    SnapshotChunk, WriteResponse,
};
use crate::text;

verus! {

/// How a call is refused.
#[derive(Clone, Copy, Debug, PartialEq, Eq, Structural)]
pub enum Code {
    InvalidArgument,
    Internal,
}

/// A refused call.
#[derive(Debug)]
pub struct Refusal {
    pub code: Code,
    pub message: String,
}

/// A message of the caller that cannot be read.
pub fn unreadable(what: &str, error: &str) -> (r: Refusal)
    ensures
        r.code == Code::InvalidArgument,
        r.message@ == "failed to deserialize "@ + what@ + ": "@ + error@,
{
    let mut message = text::concat3("failed to deserialize ", what, ": ");
    message.append(error);
    Refusal { code: Code::InvalidArgument, message }
}

/// An answer that cannot be written.
pub fn unwritable(what: &str, error: &str) -> (r: Refusal)
    ensures
        r.code == Code::Internal,
        r.message@ == "failed to serialize "@ + what@ + ": "@ + error@,
{
    let mut message = text::concat3("failed to serialize ", what, ": ");
    message.append(error);
    Refusal { code: Code::Internal, message }
}

/// An operation that failed on this node.
pub fn failed(what: &str, error: &str) -> (r: Refusal)
    ensures
        r.code == Code::Internal,
        r.message@ == what@ + " failed: "@ + error@,
{
    Refusal { code: Code::Internal, message: text::concat3(what, " failed: ", error) }
}

/// Answer a forwarded write with the outcome of its proposal.
pub fn answer_write(outcome: Result<RaftResponse, DbError>) -> (r: WriteResponse)
    ensures
        match outcome {
            Ok(resp) => {
                &&& r.success == resp.success
                &&& r.error@.len() == 0
                &&& match resp.document_id {
                    Some(id) => r.document_id@ == id@,
                    None => r.document_id@.len() == 0,
                }
            },
            Err(e) => !r.success && r.document_id@.len() == 0 && r.error@ == e.description(),
        },
{
    match outcome {
        Ok(resp) => WriteResponse {
            success: resp.success,
            document_id: match resp.document_id {
                Some(id) => id,
                None => String::new(),
            },
            error: String::new(),
        },
        Err(e) => WriteResponse {
            success: false,
            document_id: String::new(),
            error: e.message(),
        },
    }
}

/// Answer a health check.
pub fn answer_health(
    node_id: u64,
    is_leader: bool,
    leader: Option<u64>,
    current_term: u64,
    last_applied: Option<u64>,
) -> (r: HealthResponse)
    ensures
        r.node_id == node_id,
        r.status@ == if is_leader {
            "Leader"@
        } else {
            "Follower"@
        },
        r.leader_id == match leader {
            Some(l) => l,
            None => 0,
        },
        r.current_term == current_term,
        r.last_applied == match last_applied {
            Some(i) => i,
            None => 0,
        },
        r.is_healthy,
{
    HealthResponse {
        node_id,
        status: if is_leader {
            "Leader".to_owned()
        } else {
            "Follower".to_owned()
        },
        leader_id: match leader {
            Some(l) => l,
            None => 0,
        },
        current_term,
        last_applied: match last_applied {
            Some(i) => i,
            None => 0,
        },
        is_healthy: true,
    }
}

/// The address under which a node joins: its port is part of what it sent.
pub fn joining_address(req: &JoinRequest) -> (a: NodeAddress)
    ensures
        a.host@ == req.address@,
        a.port == 0,
{
    NodeAddress::new(req.address.as_str(), 0)
}

/// Answer a node that asked to join.
pub fn answer_join(outcome: Result<(), DbError>, leader: Option<u64>) -> (r: JoinResponse)
    ensures
        r.success == outcome is Ok,
        r.leader_id == match leader {
            Some(l) => l,
            None => 0,
        },
        match outcome {
            Ok(_) => r.error@.len() == 0,
            Err(e) => r.error@ == e.description(),
        },
{
    let leader_id: u64 = match leader {
        Some(l) => l,
        None => 0,
    };
    match outcome {
        Ok(_) => JoinResponse { success: true, error: String::new(), leader_id },
        Err(e) => JoinResponse { success: false, error: e.message(), leader_id },
    }
}

/// Answer a search with the bytes of its result.
pub fn answer_search(outcome: Result<Vec<u8>, DbError>) -> (r: SearchResponse)
    ensures
        match outcome {
            Ok(result) => r.result == result && r.error@.len() == 0,
            Err(e) => r.result@.len() == 0 && r.error@ == e.description(),
        },
{
    match outcome {
        Ok(result) => SearchResponse { result, error: String::new() },
        Err(e) => SearchResponse { result: Vec::new(), error: e.message() },
    }
}

/// Answer a read with the bytes of the document.  A document that is not there is
/// no error.
pub fn answer_get(outcome: Result<Vec<u8>, DbError>) -> (r: GetResponse)
    ensures
        match outcome {
            Ok(document) => r.document == document && r.found && r.error@.len() == 0,
            Err(DbError::NotFound(_)) => r.document@.len() == 0 && !r.found && r.error@.len() == 0,
            Err(e) => r.document@.len() == 0 && !r.found && r.error@ == e.description(),
        },
{
    match outcome {
        Ok(document) => GetResponse { document, found: true, error: String::new() },
        Err(DbError::NotFound(_)) => GetResponse {
            document: Vec::new(),
            found: false,
            error: String::new(),
        },
        Err(e) => GetResponse { document: Vec::new(), found: false, error: e.message() },
    }
}

/// One found document on its way back.
pub fn scatter_result(scored_document: Vec<u8>, node_id: u64) -> (r: ScatterResult)
    ensures
        r.scored_document == scored_document,
        r.node_id == node_id,
{
    ScatterResult { scored_document, node_id }
}

// ---------------------------------------------------------------------------
// Receiving a snapshot
// ---------------------------------------------------------------------------

/// The pieces of a snapshot that count: up to the one that says it is the last.
pub open spec fn received(chunks: Seq<SnapshotChunk>) -> Seq<SnapshotChunk>
    decreases chunks.len(),
{
    if chunks.len() == 0 {
        Seq::empty()
    } else if chunks[0].done {
        chunks.take(1)
    } else {
        seq![chunks[0]] + received(chunks.skip(1))
    }
}

/// The data of the pieces, one after the other.
pub open spec fn joined_data(chunks: Seq<SnapshotChunk>) -> Seq<u8>
    decreases chunks.len(),
{
    if chunks.len() == 0 {
        Seq::empty()
    } else {
        joined_data(chunks.drop_last()) + chunks.last().data@
    }
}

/// What tells of the snapshot: the first of the pieces that is not empty there.
pub open spec fn first_metadata(chunks: Seq<SnapshotChunk>) -> Option<Seq<u8>>
    decreases chunks.len(),
{
    if chunks.len() == 0 {
        None
    } else {
        match first_metadata(chunks.drop_last()) {
            Some(m) => Some(m),
            None => if chunks.last().metadata@.len() > 0 {
                Some(chunks.last().metadata@)
            } else {
                None
            },
        }
    }
}

/// Puts a snapshot together from its pieces.
pub struct SnapshotAssembly {
    pub data: Vec<u8>,
    pub metadata: Option<Vec<u8>>,
    pub done: bool,
}

impl SnapshotAssembly {
    /// The assembly has taken the given pieces.
    pub open spec fn holds(&self, chunks: Seq<SnapshotChunk>) -> bool {
        &&& self.data@ == joined_data(chunks)
        &&& match (self.metadata, first_metadata(chunks)) {
            (Some(a), Some(b)) => a@ == b,
            (None, None) => true,
            _ => false,
        }
        &&& self.done == (chunks.len() > 0 && chunks.last().done)
    }

    /// Nothing has come.
    pub fn new() -> (a: Self)
        ensures
            a.holds(Seq::empty()),
    {
        let a = SnapshotAssembly { data: Vec::new(), metadata: None, done: false };
        assert(a.data@ =~= joined_data(Seq::empty()));
        a
    }

    /// A piece has come.
    pub fn push(&mut self, chunk: SnapshotChunk)
        requires
            !old(self).done,
        ensures
            forall|chunks: Seq<SnapshotChunk>|
                #![trigger old(self).holds(chunks)]
                old(self).holds(chunks) ==> final(self).holds(chunks.push(chunk)),
            final(self).done == chunk.done,
    {
        let ghost before = *self;
        let mut chunk = chunk;
        let ghost given = chunk;
        if chunk.metadata.len() > 0 && self.metadata.is_none() {
            let mut m: Vec<u8> = Vec::new();
            std::mem::swap(&mut m, &mut chunk.metadata);
            self.metadata = Some(m);
        }
        self.data.append(&mut chunk.data);
        if chunk.done {
            self.done = true;
        }
        proof {
            assert forall|chunks: Seq<SnapshotChunk>|
                #![trigger before.holds(chunks)]
                before.holds(chunks) implies self.holds(chunks.push(given)) by {
                assert(chunks.push(given).drop_last() =~= chunks);
                assert(chunks.push(given).last() == given);
            }
        }
    }

    /// What tells of the snapshot, once every piece has come.
    pub fn finish(self) -> (r: Result<Vec<u8>, Refusal>)
        ensures
            match (r, self.metadata) {
                (Ok(m), Some(given)) => m == given,
                (Err(e), None) => e.code == Code::InvalidArgument && e.message@
                    == "no snapshot metadata received"@,
                _ => false,
            },
    {
        match self.metadata {
            Some(m) => Ok(m),
            None => Err(
                Refusal {
                    code: Code::InvalidArgument,
                    message: "no snapshot metadata received".to_owned(),
                },
            ),
        }
    }
}

/// Put a snapshot together from the pieces that came.
pub fn assemble(chunks: Vec<SnapshotChunk>) -> (r: Result<Vec<u8>, Refusal>)
    ensures
        match (r, first_metadata(received(chunks@))) {
            (Ok(m), Some(view)) => m@ == view,
            (Err(e), None) => e.code == Code::InvalidArgument && e.message@
                == "no snapshot metadata received"@,
            _ => false,
        },
{
    let ghost all = chunks@;
    let mut assembly = SnapshotAssembly::new();
    let mut rest = chunks;
    let ghost mut taken: Seq<SnapshotChunk> = Seq::empty();
    assert(taken + received(rest@) =~= received(all));
    while rest.len() > 0 && !assembly.done
        invariant
            assembly.holds(taken),
            !assembly.done ==> taken + received(rest@) == received(all),
            assembly.done ==> taken == received(all),
        decreases rest@.len(),
    {
        let ghost before = rest@;
        let chunk = rest.remove(0);
        assert(rest@ =~= before.skip(1));
        proof {
            assert(assembly.holds(taken));
        }
        assembly.push(chunk);
        proof {
            let next = taken.push(chunk);
            if chunk.done {
                assert(before.take(1) =~= seq![chunk]);
                assert(next =~= taken + before.take(1));
            } else {
                assert(taken + (seq![chunk] + received(rest@)) =~= next + received(rest@));
            }
            taken = next;
        }
    }
    proof {
        if !assembly.done {
            assert(received(rest@) =~= Seq::<SnapshotChunk>::empty());
            assert(taken + received(rest@) =~= taken);
        }
    }
    assembly.finish()
}

/// What a node sends as one piece, the other side puts together as it was.
pub proof fn single_chunk_arrives(chunk: SnapshotChunk)
    requires
        chunk.done,
        chunk.metadata@.len() > 0,
    ensures
        first_metadata(received(seq![chunk])) == Some(chunk.metadata@),
{
    assert(seq![chunk].take(1) =~= seq![chunk]);
    assert(seq![chunk].drop_last() =~= Seq::<SnapshotChunk>::empty());
    assert(first_metadata(Seq::<SnapshotChunk>::empty()) is None);
}

// ---------------------------------------------------------------------------
// Laws
// ---------------------------------------------------------------------------

/// The pieces of a snapshot that count are those up to the first that says it is the last,
/// or all of them where none does.
pub proof fn pieces_count_up_to_the_last(chunks: Seq<SnapshotChunk>, k: int)
    requires
        0 <= k <= chunks.len(),
        forall|i: int| 0 <= i < k ==> !(#[trigger] chunks[i]).done,
        k < chunks.len() ==> chunks[k].done,
    ensures
        k < chunks.len() ==> received(chunks) == chunks.take(k + 1),
        k == chunks.len() ==> received(chunks) == chunks,
    decreases chunks.len(),
{
    if chunks.len() > 0 && !chunks[0].done {
        let rest = chunks.skip(1);
        assert forall|i: int| 0 <= i < k - 1 implies !(#[trigger] rest[i]).done by {
            assert(rest[i] == chunks[i + 1]);
        }
        pieces_count_up_to_the_last(rest, k - 1);
        if k < chunks.len() {
            assert(seq![chunks[0]] + rest.take(k) =~= chunks.take(k + 1));
        } else {
            assert(seq![chunks[0]] + rest =~= chunks);
        }
    } else if chunks.len() > 0 {
        assert(k == 0);
    } else {
        assert(received(chunks) =~= chunks);
    }
}

/// The data of pieces stands one behind the other, and what tells of a snapshot is the
/// first of what its pieces tell.
pub proof fn pieces_are_put_together(a: Seq<SnapshotChunk>, b: Seq<SnapshotChunk>, c: SnapshotChunk)
    ensures
        joined_data(a + b) == joined_data(a) + joined_data(b),
        joined_data(seq![c]) == c.data@,
        first_metadata(a + b) == if first_metadata(a) is Some {
            first_metadata(a)
        } else {
            first_metadata(b)
        },
        first_metadata(seq![c]) == if c.metadata@.len() > 0 {
            Some(c.metadata@)
        } else {
            None
        },
    decreases b.len(),
{
    let none = Seq::<SnapshotChunk>::empty();
    assert(joined_data(none) =~= Seq::<u8>::empty());
    assert(first_metadata(none) is None);
    assert(seq![c].drop_last() =~= none);
    assert(joined_data(seq![c]) =~= c.data@);
    if b.len() == 0 {
        assert(a + b =~= a);
        assert(joined_data(a) + joined_data(b) =~= joined_data(a));
    } else {
        assert((a + b).drop_last() =~= a + b.drop_last());
        assert((a + b).last() == b.last());
        pieces_are_put_together(a, b.drop_last(), c);
        assert(joined_data(a + b) =~= joined_data(a) + joined_data(b));
    }
}

/// What an assembly holds of a snapshot follows from its pieces alone.
pub proof fn assemblies_hold_their_pieces(a: SnapshotAssembly, chunks: Seq<SnapshotChunk>)
    requires
        a.holds(chunks),
    ensures
        a.data@ == joined_data(chunks),
        a.metadata is Some <==> first_metadata(chunks) is Some,
        a.metadata matches Some(m) ==> m@ == first_metadata(chunks)->0,
        a.done <==> chunks.len() > 0 && chunks[chunks.len() - 1].done,
{
}

} // verus!
