//! Pooled connections with circuit breakers.
//!
//! A breaker opens after so many failures in a row.  While it is open, calls to
//! the node are turned away; after a time it is half open and lets a single call
//! through, whose outcome closes or reopens it.

use vstd::prelude::*;

use crate::clock::{elapsed_since, Span};
use crate::model::cluster::{name_of_node, node_name};
use crate::model::error::DbError;
use crate::table::Table;
use crate::text;

verus! {

/// The state of a circuit breaker.
#[derive(Clone, Copy, Debug, PartialEq, Eq, Structural)]
pub enum CircuitState {
    /// Calls pass.
    Closed,
    /// Calls are turned away.
    Open,
    /// A single call passes, to find out whether the node is back.
    HalfOpen,
}

/// Counts the failures in a row of one node.
#[derive(Clone, Copy, Debug)]
pub struct CircuitBreaker {
    pub state: CircuitState,
    pub consecutive_failures: u32,
    pub failure_threshold: u32,
    pub last_failure_time: Option<std::time::Instant>,
    pub open_duration: Span,
    /// Whether the call that a half-open breaker lets through is still out.
    pub probing: bool,
}

impl CircuitBreaker {
    /// A closed breaker that opens after `failure_threshold` failures in a row,
    /// for `open_duration`.
    pub fn new(failure_threshold: u32, open_duration: Span) -> (b: Self)
        ensures
            b.state == CircuitState::Closed,
            b.consecutive_failures == 0,
            b.failure_threshold == failure_threshold,
            b.last_failure_time is None,
            b.open_duration == open_duration,
            !b.probing,
    {
        CircuitBreaker {
            state: CircuitState::Closed,
            consecutive_failures: 0,
            failure_threshold,
            last_failure_time: None,
            open_duration,
            probing: false,
        }
    }

    /// A breaker that opens after three failures, for thirty seconds.
    pub fn default_breaker() -> (b: Self)
        ensures
            b.state == CircuitState::Closed,
            b.consecutive_failures == 0,
            b.failure_threshold == 3,
            b.last_failure_time is None,
            b.open_duration.nanos == 30 * 1_000_000_000,
            !b.probing,
    {
        Self::new(3, Span::from_secs(30))
    }

    /// The state of the breaker when `passed` has gone by since the last failure.
    pub open spec fn state_at(self, passed: Span) -> CircuitState {
        if self.state == CircuitState::Open && self.last_failure_time is Some && passed.nanos
            >= self.open_duration.nanos {
            CircuitState::HalfOpen
        } else {
            self.state
        }
    }

    /// The state of the breaker when `passed` has gone by since the last failure.
    pub fn state_after(&self, passed: Span) -> (s: CircuitState)
        ensures
            s == self.state_at(passed),
    {
        match self.state {
            CircuitState::Open => {
                if self.last_failure_time.is_some() && passed.nanos >= self.open_duration.nanos {
                    return CircuitState::HalfOpen;
                }
                CircuitState::Open
            },
            other => other,
        }
    }

    /// The state of the breaker now.
    pub fn state(&self) -> (s: CircuitState)
        ensures
            exists|passed: Span| s == #[trigger] self.state_at(passed),
            self.state != CircuitState::Open ==> s == self.state,
            self.state == CircuitState::Open ==> s == CircuitState::Open || s
                == CircuitState::HalfOpen,
    {
        let passed = match &self.last_failure_time {
            Some(last) => elapsed_since(last),
            None => Span { nanos: 0 },
        };
        let s = self.state_after(passed);
        assert(s == self.state_at(passed));
        s
    }

    /// Whether a call passes in a state: every call while the breaker is closed, and
    /// one call at a time while it is half open.
    pub open spec fn admits(self, state: CircuitState) -> bool {
        match state {
            CircuitState::Closed => true,
            CircuitState::HalfOpen => !self.probing,
            CircuitState::Open => false,
        }
    }

    /// The breaker behind a call that came in the state: a half-open one remembers
    /// the call that it let through.
    pub open spec fn admitted(self, state: CircuitState) -> CircuitBreaker {
        CircuitBreaker { probing: self.probing || state == CircuitState::HalfOpen, ..self }
    }

    /// Whether a call that comes in the given state passes.
    pub fn let_pass(&mut self, state: CircuitState) -> (r: bool)
        ensures
            r == old(self).admits(state),
            *final(self) == old(self).admitted(state),
    {
        match state {
            CircuitState::Closed => true,
            CircuitState::HalfOpen => {
                let free = !self.probing;
                self.probing = true;
                free
            },
            CircuitState::Open => false,
        }
    }

    /// Whether a call may pass now.  The call that a half-open breaker lets through
    /// is the last one until its outcome has been recorded.
    pub fn allow_request(&mut self) -> (r: bool)
        ensures
            exists|passed: Span|
                {
                    let state = #[trigger] old(self).state_at(passed);
                    r == old(self).admits(state) && *final(self) == old(self).admitted(state)
                },
            old(self).state == CircuitState::Closed ==> r,
            old(self).state != CircuitState::Closed && old(self).probing ==> !r,
    {
        let s = self.state();
        let ghost passed = choose|passed: Span| s == #[trigger] self.state_at(passed);
        assert(s == old(self).state_at(passed));
        self.let_pass(s)
    }

    /// The breaker behind a success.
    pub open spec fn succeeded(self) -> CircuitBreaker {
        CircuitBreaker {
            state: CircuitState::Closed,
            consecutive_failures: 0,
            last_failure_time: None,
            probing: false,
            ..self
        }
    }

    /// Take note of a success.
    pub fn record_success(&mut self)
        ensures
            *final(self) == old(self).succeeded(),
    {
        self.consecutive_failures = 0;
        self.state = CircuitState::Closed;
        self.last_failure_time = None;
        self.probing = false;
    }

    /// The breaker behind a failure at `at`.
    pub open spec fn failed(self, at: std::time::Instant) -> CircuitBreaker {
        CircuitBreaker {
            state: if self.consecutive_failures + 1 >= self.failure_threshold {
                CircuitState::Open
            } else {
                self.state
            },
            consecutive_failures: (self.consecutive_failures + 1) as u32,
            last_failure_time: Some(at),
            probing: false,
            ..self
        }
    }

    /// Take note of a failure.
    pub fn record_failure(&mut self)
        requires
            old(self).consecutive_failures < u32::MAX,
        ensures
            exists|now: std::time::Instant| *final(self) == #[trigger] old(self).failed(now),
    {
        let now = std::time::Instant::now();
        self.consecutive_failures = self.consecutive_failures + 1;
        self.last_failure_time = Some(now);
        self.probing = false;
        if self.consecutive_failures >= self.failure_threshold {
            self.state = CircuitState::Open;
        }
        assert(*self == old(self).failed(now));
    }

    /// The number of failures in a row.
    pub fn consecutive_failures(&self) -> (n: u32)
        ensures
            n == self.consecutive_failures,
    {
        self.consecutive_failures
    }
}

/// How a pool works.
#[derive(Clone, Copy, Debug)]
pub struct PoolConfig {
    pub max_connections_per_node: usize,
    pub failure_threshold: u32,
    pub open_duration: Span,
}

impl Default for PoolConfig {
    fn default() -> (c: Self)
        ensures
            c.max_connections_per_node == 10,
            c.failure_threshold == 3,
            c.open_duration.nanos == 30 * 1_000_000_000,
    {
        PoolConfig {
            max_connections_per_node: 10,
            failure_threshold: 3,
            open_duration: Span::from_secs(30),
        }
    }
}

/// A client with its breaker.
pub struct PoolEntry<C> {
    pub client: C,
    pub breaker: CircuitBreaker,
}

/// The clients of the nodes, at most one for each, every one with a breaker.
pub struct ConnectionPool<C> {
    pub entries: Table<u64, PoolEntry<C>>,
    pub config: PoolConfig,
}

/// The message of a call that is turned away.
pub open spec fn circuit_open_message(node: u64) -> Seq<char> {
    "circuit breaker open for node "@ + node_name(node)
}

impl<C> ConnectionPool<C> {
    /// An empty pool.
    pub fn new() -> (p: Self)
        ensures
            p.entries@ == Map::<u64, PoolEntry<C>>::empty(),
            p.config.max_connections_per_node == 10,
            p.config.failure_threshold == 3,
            p.config.open_duration.nanos == 30 * 1_000_000_000,
    {
        ConnectionPool { entries: Table::new(), config: PoolConfig::default() }
    }

    /// An empty pool that works as `config` says.
    pub fn with_config(config: PoolConfig) -> (p: Self)
        ensures
            p.entries@ == Map::<u64, PoolEntry<C>>::empty(),
            p.config == config,
    {
        ConnectionPool { entries: Table::new(), config }
    }

    /// `after` is the pool behind a request for the client of a node whose breaker is
    /// in the given state, and `r` is the answer: the client, where the breaker lets
    /// the call pass.
    pub open spec fn served<'a>(
        self,
        after: ConnectionPool<C>,
        node_id: u64,
        state: CircuitState,
        r: Result<Option<&'a C>, DbError>,
    ) -> bool {
        let entry = self.entries@[node_id];
        &&& after.entries@ == self.entries@.insert(
            node_id,
            PoolEntry { client: entry.client, breaker: entry.breaker.admitted(state) },
        )
        &&& match r {
            Ok(Some(c)) => entry.breaker.admits(state) && *c == entry.client,
            Ok(None) => false,
            Err(e) => {
                &&& !entry.breaker.admits(state)
                &&& e matches DbError::NetworkError(m)
                &&& m@ == circuit_open_message(node_id)
            },
        }
    }

    /// The client of a node whose breaker is in the given state.
    pub fn client_in_state(&mut self, node_id: u64, state: CircuitState) -> (r: Result<
        Option<&C>,
        DbError,
    >)
        ensures
            final(self).config == old(self).config,
            if old(self).entries@.contains_key(node_id) {
                old(self).served(*final(self), node_id, state, r)
            } else {
                r == Ok::<Option<&C>, DbError>(None) && final(self).entries@ == old(self).entries@
            },
    {
        let ghost before = self.entries@;
        match self.entries.remove(&node_id) {
            Some(entry) => {
                let mut entry = entry;
                let passes = entry.breaker.let_pass(state);
                self.entries.insert(node_id, entry);
                assert(before.remove(node_id).insert(node_id, entry) =~= before.insert(
                    node_id,
                    entry,
                ));
                if !passes {
                    return Err(
                        DbError::NetworkError(
                            text::concat2(
                                "circuit breaker open for node ",
                                name_of_node(node_id).as_str(),
                            ),
                        ),
                    );
                }
                match self.entries.get(&node_id) {
                    Some(entry) => Ok(Some(&entry.client)),
                    None => Ok(None),
                }
            },
            None => {
                assert(self.entries@ =~= before);
                Ok(None)
            },
        }
    }

    /// The client of a node.  `Ok(None)` asks for a new connection, which is to be
    /// put in by [`ConnectionPool::insert`]; a breaker that lets no call pass is an
    /// error.
    pub fn get(&mut self, node_id: u64) -> (r: Result<Option<&C>, DbError>)
        ensures
            final(self).config == old(self).config,
            if old(self).entries@.contains_key(node_id) {
                exists|passed: Span|
                    {
                        let state = #[trigger] old(self).entries@[node_id].breaker.state_at(passed);
                        old(self).served(*final(self), node_id, state, r)
                    }
            } else {
                r == Ok::<Option<&C>, DbError>(None) && final(self).entries@ == old(self).entries@
            },
    {
        let state = match self.entries.get(&node_id) {
            Some(entry) => {
                let s = entry.breaker.state();
                proof {
                    let passed = choose|passed: Span| s == #[trigger] entry.breaker.state_at(passed);
                    assert(s == old(self).entries@[node_id].breaker.state_at(passed));
                }
                s
            },
            None => {
                return Ok(None);
            },
        };
        self.client_in_state(node_id, state)
    }

    /// Put a client into the pool, with a closed breaker.
    pub fn insert(&mut self, node_id: u64, client: C)
        ensures
            final(self).config == old(self).config,
            final(self).entries@.contains_key(node_id),
            final(self).entries@ == old(self).entries@.insert(
                node_id,
                final(self).entries@[node_id],
            ),
            final(self).entries@[node_id].client == client,
            final(self).entries@[node_id].breaker == (CircuitBreaker {
                state: CircuitState::Closed,
                consecutive_failures: 0,
                failure_threshold: old(self).config.failure_threshold,
                last_failure_time: None,
                open_duration: old(self).config.open_duration,
                probing: false,
            }),
    {
        let breaker = CircuitBreaker::new(self.config.failure_threshold, self.config.open_duration);
        self.entries.insert(node_id, PoolEntry { client, breaker });
    }

    /// A call to a node went well.
    pub fn record_success(&mut self, node_id: u64)
        ensures
            final(self).config == old(self).config,
            final(self).entries@ == if old(self).entries@.contains_key(node_id) {
                old(self).entries@.insert(
                    node_id,
                    PoolEntry {
                        client: old(self).entries@[node_id].client,
                        breaker: old(self).entries@[node_id].breaker.succeeded(),
                    },
                )
            } else {
                old(self).entries@
            },
    {
        let ghost before = self.entries@;
        match self.entries.remove(&node_id) {
            Some(entry) => {
                let mut entry = entry;
                entry.breaker.record_success();
                self.entries.insert(node_id, entry);
                assert(before.remove(node_id).insert(node_id, entry) =~= before.insert(
                    node_id,
                    entry,
                ));
            },
            None => {
                assert(self.entries@ =~= before);
            },
        }
    }

    /// A call to a node failed.
    pub fn record_failure(&mut self, node_id: u64)
        requires
            old(self).entries@.contains_key(node_id) ==> old(
                self,
            ).entries@[node_id].breaker.consecutive_failures < u32::MAX,
        ensures
            final(self).config == old(self).config,
            !old(self).entries@.contains_key(node_id) ==> final(self).entries@ == old(
                self,
            ).entries@,
            old(self).entries@.contains_key(node_id) ==> {
                &&& final(self).entries@ == old(self).entries@.insert(
                    node_id,
                    final(self).entries@[node_id],
                )
                &&& final(self).entries@[node_id].client == old(self).entries@[node_id].client
                &&& exists|now: std::time::Instant|
                    final(self).entries@[node_id].breaker == #[trigger] old(
                        self,
                    ).entries@[node_id].breaker.failed(now)
            },
    {
        let ghost before = self.entries@;
        match self.entries.remove(&node_id) {
            Some(entry) => {
                let mut entry = entry;
                let ghost breaker = entry.breaker;
                entry.breaker.record_failure();
                proof {
                    let now = choose|now: std::time::Instant|
                        entry.breaker == #[trigger] breaker.failed(now);
                    assert(entry.breaker == before[node_id].breaker.failed(now));
                }
                self.entries.insert(node_id, entry);
                assert(before.remove(node_id).insert(node_id, entry) =~= before.insert(
                    node_id,
                    entry,
                ));
            },
            None => {
                assert(self.entries@ =~= before);
            },
        }
    }

    /// Take a node's client out of the pool.
    pub fn remove(&mut self, node_id: u64)
        ensures
            final(self).config == old(self).config,
            final(self).entries@ == old(self).entries@.remove(node_id),
    {
        let _ = self.entries.remove(&node_id);
    }

    /// The state of a node's breaker now.
    pub fn circuit_state(&self, node_id: u64) -> (r: Option<CircuitState>)
        ensures
            r is Some <==> self.entries@.contains_key(node_id),
            r is Some ==> exists|passed: Span|
                r->0 == #[trigger] self.entries@[node_id].breaker.state_at(passed),
    {
        match self.entries.get(&node_id) {
            Some(entry) => {
                let s = entry.breaker.state();
                proof {
                    let passed = choose|passed: Span| s == #[trigger] entry.breaker.state_at(passed);
                    assert(s == self.entries@[node_id].breaker.state_at(passed));
                }
                Some(s)
            },
            None => None,
        }
    }

    /// The number of nodes in the pool.
    pub fn len(&self) -> (n: usize)
        ensures
            n == self.entries@.dom().len(),
    {
        self.entries.len()
    }

    /// Whether the pool is empty.
    pub fn is_empty(&self) -> (r: bool)
        ensures
            r == (self.entries@ =~= Map::<u64, PoolEntry<C>>::empty()),
    {
        self.entries.is_empty()
    }
}

// ---------------------------------------------------------------------------
// Laws
// ---------------------------------------------------------------------------

/// The breaker behind failures at the given times, one after the other.
pub open spec fn failed_at(b: CircuitBreaker, times: Seq<std::time::Instant>) -> CircuitBreaker
    decreases times.len(),
{
    if times.len() == 0 {
        b
    } else {
        failed_at(b, times.drop_last()).failed(times.last())
    }
}

/// A closed breaker stays closed below its threshold of failures in a row, and
/// opens when they reach it.
pub proof fn opens_at_the_threshold(b: CircuitBreaker, times: Seq<std::time::Instant>)
    requires
        b.state == CircuitState::Closed,
        b.consecutive_failures == 0,
        0 < times.len() <= u32::MAX,
    ensures
        failed_at(b, times).consecutive_failures == times.len(),
        failed_at(b, times).state == if times.len() >= b.failure_threshold {
            CircuitState::Open
        } else {
            CircuitState::Closed
        },
        failed_at(b, times).failure_threshold == b.failure_threshold,
    decreases times.len(),
{
    if times.len() > 1 {
        opens_at_the_threshold(b, times.drop_last());
    } else {
        assert(failed_at(b, times.drop_last()) == b);
    }
}

/// One success closes a breaker, whatever state it is in, and forgets its
/// failures.
pub proof fn success_closes(b: CircuitBreaker, passed: Span)
    ensures
        b.succeeded().state_at(passed) == CircuitState::Closed,
        b.succeeded().consecutive_failures == 0,
{
}

/// A half-open breaker lets a single call through: until an outcome is recorded no
/// other call passes, however long it takes.
pub proof fn half_open_admits_one(b: CircuitBreaker, passed: Span, later: Span)
    requires
        b.state_at(passed) == CircuitState::HalfOpen,
        b.admits(CircuitState::HalfOpen),
        later.nanos >= passed.nanos,
    ensures
        b.admitted(CircuitState::HalfOpen).state_at(later) == CircuitState::HalfOpen,
        !b.admitted(CircuitState::HalfOpen).admits(CircuitState::HalfOpen),
{
}

/// A failure of a half-open breaker opens it again, for its full time.
pub proof fn half_open_failure_reopens(
    b: CircuitBreaker,
    passed: Span,
    at: std::time::Instant,
    since: Span,
)
    requires
        b.consecutive_failures >= b.failure_threshold,
        b.consecutive_failures < u32::MAX,
        b.state_at(passed) == CircuitState::HalfOpen,
        since.nanos < b.open_duration.nanos,
    ensures
        b.failed(at).state_at(since) == CircuitState::Open,
{
}

/// An open breaker is half open once its time has passed since the last failure, and not
/// before; in any other state time changes nothing.
pub proof fn open_breakers_wait_their_time(b: CircuitBreaker, passed: Span)
    ensures
        b.state == CircuitState::Open && b.last_failure_time is Some && passed.nanos
            >= b.open_duration.nanos ==> b.state_at(passed) == CircuitState::HalfOpen,
        b.state == CircuitState::Open && passed.nanos < b.open_duration.nanos ==> b.state_at(passed)
            == CircuitState::Open,
        b.state == CircuitState::Open && b.last_failure_time is None ==> b.state_at(passed)
            == CircuitState::Open,
        b.state != CircuitState::Open ==> b.state_at(passed) == b.state,
{
}

/// Every call passes a closed breaker and none an open one; what a call leaves behind is
/// only whether a half-open breaker waits for its outcome.
pub proof fn breakers_let_calls_pass_by_their_state(b: CircuitBreaker)
    ensures
        b.admits(CircuitState::Closed),
        !b.admits(CircuitState::Open),
        b.admits(CircuitState::HalfOpen) <==> !b.probing,
        b.admitted(CircuitState::Closed) == b,
        b.admitted(CircuitState::Open) == b,
        b.admitted(CircuitState::HalfOpen).probing,
        b.admitted(CircuitState::HalfOpen).state == b.state,
        b.admitted(CircuitState::HalfOpen).consecutive_failures == b.consecutive_failures,
        b.admitted(CircuitState::HalfOpen).failure_threshold == b.failure_threshold,
        b.admitted(CircuitState::HalfOpen).last_failure_time == b.last_failure_time,
        b.admitted(CircuitState::HalfOpen).open_duration == b.open_duration,
{
}

/// A failure is counted and its time remembered; a success forgets both.  How the breaker
/// works stays as it was, and no call is out any more.
pub proof fn outcomes_are_remembered(b: CircuitBreaker, at: std::time::Instant)
    requires
        b.consecutive_failures < u32::MAX,
    ensures
        b.failed(at).consecutive_failures == b.consecutive_failures + 1,
        b.failed(at).last_failure_time == Some(at),
        !b.failed(at).probing,
        b.failed(at).failure_threshold == b.failure_threshold,
        b.failed(at).open_duration == b.open_duration,
        b.consecutive_failures + 1 >= b.failure_threshold ==> b.failed(at).state
            == CircuitState::Open,
        b.consecutive_failures + 1 < b.failure_threshold ==> b.failed(at).state == b.state,
        b.succeeded().state == CircuitState::Closed,
        b.succeeded().last_failure_time is None,
        !b.succeeded().probing,
        b.succeeded().failure_threshold == b.failure_threshold,
        b.succeeded().open_duration == b.open_duration,
{
}

/// A request for the client of one node leaves the other nodes alone, and is answered with
/// that node's own client exactly where its breaker lets the call pass.
pub proof fn one_node_is_served<'a, C>(
    before: ConnectionPool<C>,
    after: ConnectionPool<C>,
    node_id: u64,
    state: CircuitState,
    r: Result<Option<&'a C>, DbError>,
    other: u64,
)
    requires
        before.entries@.contains_key(node_id),
        before.served(after, node_id, state, r),
        other != node_id,
    ensures
        after.entries@.contains_key(other) <==> before.entries@.contains_key(other),
        after.entries@.contains_key(other) ==> after.entries@[other] == before.entries@[other],
        after.entries@[node_id].client == before.entries@[node_id].client,
        r is Ok <==> before.entries@[node_id].breaker.admits(state),
        r is Ok ==> r->Ok_0 is Some && *(r->Ok_0->0) == before.entries@[node_id].client,
        r is Err ==> (r->Err_0 matches DbError::NetworkError(m) && m@
            == "circuit breaker open for node "@ + node_name(node_id)),
        after.entries@[node_id].breaker == before.entries@[node_id].breaker.admitted(state),
{
}

} // verus!
