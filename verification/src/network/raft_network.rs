//! Where consensus messages go.

use vstd::prelude::*;

use crate::network::proto::SnapshotChunk;
use crate::text;

verus! {

/// Makes the links to the nodes of the cluster.
pub struct GrpcNetworkFactory;

/// The link to one node.
#[derive(Debug)]
pub struct GrpcNetwork {
    /// Where the node listens, such as `192.168.1.10:9300`.
    pub addr: String,
}

impl GrpcNetworkFactory {
    /// The link to the node that listens at `addr`.
    pub fn new_client(&self, target: u64, addr: &str) -> (n: GrpcNetwork)
        ensures
            n.addr@ == addr@,
    {
        GrpcNetwork { addr: addr.to_owned() }
    }
}

/// The endpoint of an address: the address itself where it names its scheme, and
/// else with `http://` before it.
pub open spec fn endpoint(addr: Seq<char>) -> Seq<char> {
    if text::begins_with(addr, "http://"@) || text::begins_with(addr, "https://"@) {
        addr
    } else {
        "http://"@ + addr
    }
}

impl GrpcNetwork {
    /// The endpoint of the node.
    pub fn endpoint_url(&self) -> (e: String)
        ensures
            e@ == endpoint(self.addr@),
    {
        if text::starts_with(self.addr.as_str(), "http://") || text::starts_with(
            self.addr.as_str(),
            "https://",
        ) {
            self.addr.clone()
        } else {
            text::concat2("http://", self.addr.as_str())
        }
    }

    /// The failure of a call to a node that cannot be reached.
    pub fn unreachable(&self, error: &str) -> (f: Failure)
        ensures
            f.cause == Cause::ConnectionRefused,
            f.message@ == "failed to connect to "@ + self.addr@ + ": "@ + error@,
    {
        let mut message = text::concat3("failed to connect to ", self.addr.as_str(), ": ");
        message.append(error);
        Failure { cause: Cause::ConnectionRefused, message }
    }
}

/// Why a consensus call failed.
#[derive(Clone, Copy, Debug, PartialEq, Eq, Structural)]
pub enum Cause {
    ConnectionRefused,
    ConnectionReset,
    InvalidData,
}

/// A consensus call that failed.
#[derive(Debug)]
pub struct Failure {
    pub cause: Cause,
    pub message: String,
}

/// The step of a consensus call that failed.
#[derive(Clone, Copy, Debug, PartialEq, Eq, Structural)]
pub enum Step {
    Serialize,
    Call,
    Deserialize,
}

/// The text of a failed step: of a message that could not be written or read, or of
/// a call that did not come back.
pub open spec fn failure_text(step: Step, what: Seq<char>, error: Seq<char>) -> Seq<char> {
    match step {
        Step::Serialize => "serialize "@ + what + ": "@ + error,
        Step::Call => what + " RPC: "@ + error,
        Step::Deserialize => "deserialize "@ + what + ": "@ + error,
    }
}

/// The failure of a step of a consensus call.
pub fn failure(step: Step, what: &str, error: &str) -> (f: Failure)
    ensures
        f.cause == if step == Step::Call {
            Cause::ConnectionReset
        } else {
            Cause::InvalidData
        },
        f.message@ == failure_text(step, what@, error@),
{
    match step {
        Step::Serialize => {
            let mut message = text::concat3("serialize ", what, ": ");
            message.append(error);
            Failure { cause: Cause::InvalidData, message }
        },
        Step::Call => Failure {
            cause: Cause::ConnectionReset,
            message: text::concat3(what, " RPC: ", error),
        },
        Step::Deserialize => {
            let mut message = text::concat3("deserialize ", what, ": ");
            message.append(error);
            Failure { cause: Cause::InvalidData, message }
        },
    }
}

/// A snapshot in one piece: everything is in what tells of it.
pub fn single_chunk(metadata: Vec<u8>) -> (c: SnapshotChunk)
    ensures
        c.offset == 0,
        c.data@.len() == 0,
        c.done,
        c.metadata == metadata,
{
    SnapshotChunk { offset: 0, data: Vec::new(), done: true, metadata }
}

/// Taking the endpoint of an endpoint changes nothing.
pub proof fn endpoint_is_stable(addr: Seq<char>)
    ensures
        endpoint(endpoint(addr)) == endpoint(addr),
{
    let e = "http://"@ + addr;
    assert(e.subrange(0, "http://"@.len() as int) =~= "http://"@);
}

// ---------------------------------------------------------------------------
// Laws
// ---------------------------------------------------------------------------

/// An address that names its scheme is its own endpoint; any other is given `http://`.
pub proof fn endpoints_name_their_scheme(addr: Seq<char>)
    ensures
        endpoint("http://"@ + addr) == "http://"@ + addr,
        endpoint("https://"@ + addr) == "https://"@ + addr,
        !text::begins_with(addr, "http://"@) && !text::begins_with(addr, "https://"@)
            ==> endpoint(addr) == "http://"@ + addr,
        text::finishes_with(endpoint(addr), addr),
{
    let a = "http://"@ + addr;
    let b = "https://"@ + addr;
    assert(a.subrange(0, "http://"@.len() as int) =~= "http://"@);
    assert(b.subrange(0, "https://"@.len() as int) =~= "https://"@);
    let e = endpoint(addr);
    assert(e.subrange(e.len() - addr.len(), e.len() as int) =~= addr);
}

/// What a failed step tells.
pub proof fn failed_steps_are_told(what: Seq<char>, error: Seq<char>)
    ensures
        failure_text(Step::Serialize, what, error) == "serialize "@ + what + ": "@ + error,
        failure_text(Step::Call, what, error) == what + " RPC: "@ + error,
        failure_text(Step::Deserialize, what, error) == "deserialize "@ + what + ": "@ + error,
{
}

} // verus!
