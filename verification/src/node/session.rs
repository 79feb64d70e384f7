//! Read-your-writes consistency.
//!
//! After a write the client gets a token that holds the log index of the write.
//! A read with that token waits until the node has applied the log up to that
//! index.

use vstd::prelude::*;

use crate::clock::Span;
use crate::model::error::DbError;
use crate::text;

verus! {

/// The header that carries a session token.
pub const SESSION_TOKEN_HEADER: &'static str = "x-session-token";

/// How long a read waits for the node to catch up, in milliseconds.
pub const MAX_WAIT_MS: u64 = 5_000;

/// How long a read sleeps between two looks at the applied index, in
/// milliseconds.
pub const POLL_INTERVAL_MS: u64 = 1;

/// A token that holds the log index of a write.
#[derive(Clone, Copy, Debug, PartialEq, Eq, Structural)]
pub struct SessionToken {
    pub committed_index: u64,
}

impl SessionToken {
    /// The token's text: `msearchdb:` and the index.
    pub open spec fn spelled(self) -> Seq<char> {
        "msearchdb:"@ + text::decimal(self.committed_index as nat)
    }

    /// The token that a text stands for.
    pub open spec fn read(s: Seq<char>) -> Option<SessionToken> {
        if text::begins_with(s, "msearchdb:"@) {
            match text::parsed_unsigned(s.skip("msearchdb:"@.len() as int), u64::MAX as nat) {
                Some(index) => Some(SessionToken { committed_index: index as u64 }),
                None => None,
            }
        } else {
            None
        }
    }

    /// The token of a log index.
    pub fn new(committed_index: u64) -> (t: Self)
        ensures
            t.committed_index == committed_index,
    {
        SessionToken { committed_index }
    }

    /// Write the token as a header value.
    pub fn encode(&self) -> (s: String)
        ensures
            s@ == self.spelled(),
    {
        text::concat2("msearchdb:", text::decimal_of(self.committed_index).as_str())
    }

    /// Read a token from a header value; `None` where it holds none.
    pub fn decode(s: &str) -> (r: Option<SessionToken>)
        ensures
            r == SessionToken::read(s@),
    {
        match text::strip_prefix(s, "msearchdb:") {
            Some(rest) => match text::parse_unsigned(rest.as_str(), u64::MAX) {
                Some(index) => Some(SessionToken { committed_index: index }),
                None => None,
            },
            None => None,
        }
    }
}

/// The applied index behind the news that the log was applied up to `index`.
pub open spec fn advanced(applied: u64, index: u64) -> u64 {
    if index > applied {
        index
    } else {
        applied
    }
}

/// The applied index behind several such pieces of news.
pub open spec fn advanced_all(applied: u64, indices: Seq<u64>) -> u64
    decreases indices.len(),
{
    if indices.len() == 0 {
        applied
    } else {
        advanced(advanced_all(applied, indices.drop_last()), indices.last())
    }
}

/// Keeps the highest log index that this node has applied.
#[derive(Debug)]
pub struct SessionManager {
    pub applied_index: u64,
}

/// What a waiting read does next.
#[derive(Debug)]
pub enum WaitStep {
    /// The node has caught up: read.
    Ready,
    /// Sleep for [`POLL_INTERVAL_MS`] and look again.
    Sleep,
    /// Give up.
    TimedOut(DbError),
}

impl SessionManager {
    /// A manager that has applied nothing.
    pub fn new() -> (m: Self)
        ensures
            m.applied_index == 0,
    {
        SessionManager { applied_index: 0 }
    }

    /// Take note that the log was applied up to `index`.  The applied index never
    /// goes down.
    pub fn advance_applied_index(&mut self, index: u64)
        ensures
            final(self).applied_index == advanced(old(self).applied_index, index),
    {
        if index > self.applied_index {
            self.applied_index = index;
        }
    }

    /// The applied index.
    pub fn current_applied_index(&self) -> (i: u64)
        ensures
            i == self.applied_index,
    {
        self.applied_index
    }

    /// What a read that waits for `target_index` does next, after it has waited
    /// for `waited`.
    pub fn wait_for_index(&self, target_index: u64, waited: Span) -> (step: WaitStep)
        ensures
            match step {
                WaitStep::Ready => self.applied_index >= target_index,
                WaitStep::Sleep => self.applied_index < target_index && waited.nanos < MAX_WAIT_MS
                    * 1_000_000,
                WaitStep::TimedOut(e) => {
                    &&& self.applied_index < target_index
                    &&& waited.nanos >= MAX_WAIT_MS * 1_000_000
                    &&& e matches DbError::ConsistencyError(m)
                    &&& m@ == "timed out waiting for applied index "@ + text::decimal(
                        target_index as nat,
                    ) + " (current: "@ + text::decimal(self.applied_index as nat) + ")"@
                },
            },
    {
        if self.applied_index >= target_index {
            return WaitStep::Ready;
        }
        if waited.nanos < MAX_WAIT_MS as u128 * 1_000_000 {
            return WaitStep::Sleep;
        }
        let mut m = text::concat3(
            "timed out waiting for applied index ",
            text::decimal_of(target_index).as_str(),
            " (current: ",
        );
        m.append(text::decimal_of(self.applied_index).as_str());
        m.append(")");
        WaitStep::TimedOut(DbError::ConsistencyError(m))
    }

    /// The token for a write at `committed_index`, which this node has applied.
    pub fn token_for_write(&mut self, committed_index: u64) -> (t: SessionToken)
        ensures
            t.committed_index == committed_index,
            final(self).applied_index == advanced(old(self).applied_index, committed_index),
    {
        self.advance_applied_index(committed_index);
        SessionToken::new(committed_index)
    }
}

impl Default for SessionManager {
    fn default() -> (m: Self)
        ensures
            m.applied_index == 0,
    {
        Self::new()
    }
}

/// A token survives being written and read.
pub proof fn token_round_trip(t: SessionToken)
    ensures
        SessionToken::read(t.spelled()) == Some(t),
{
    let p = "msearchdb:"@;
    let d = text::decimal(t.committed_index as nat);
    text::decimal_round_trip(t.committed_index as nat, u64::MAX as nat);
    assert((p + d).subrange(0, p.len() as int) =~= p);
    assert((p + d).skip(p.len() as int) =~= d);
}

/// Different tokens have different texts.
pub proof fn tokens_differ(a: SessionToken, b: SessionToken)
    requires
        a.spelled() == b.spelled(),
    ensures
        a == b,
{
    token_round_trip(a);
    token_round_trip(b);
}

/// Whoever holds the token of a write that this node has recorded reads without
/// waiting, whatever the node hears of the log afterwards: the applied index is
/// not below the token's, and never goes down.
pub proof fn own_writes_are_visible(before: u64, committed: u64, later: Seq<u64>)
    ensures
        advanced_all(advanced(before, committed), later) >= committed,
        advanced_all(advanced(before, committed), later) >= before,
    decreases later.len(),
{
    if later.len() > 0 {
        own_writes_are_visible(before, committed, later.drop_last());
    }
}

// ---------------------------------------------------------------------------
// Laws
// ---------------------------------------------------------------------------

/// What does not begin with the mark of a token, or goes on with anything but a number, is no
/// token; a mark and digits are the token of that number.
pub proof fn tokens_are_read(s: Seq<char>, digits: Seq<char>, c: char)
    ensures
        !text::begins_with(s, "msearchdb:"@) ==> SessionToken::read(s) is None,
        digits.contains(c) && !text::is_digit(c) && c != '+' ==> SessionToken::read(
            "msearchdb:"@ + digits,
        ) is None,
        text::all_digits(digits) && digits.len() > 0 && text::digits_value(digits) <= u64::MAX
            ==> SessionToken::read("msearchdb:"@ + digits) == Some(
            (SessionToken { committed_index: text::digits_value(digits) as u64 }),
        ),
{
    let mark = "msearchdb:"@;
    let all = mark + digits;
    assert(all.subrange(0, mark.len() as int) =~= mark);
    assert(all.skip(mark.len() as int) =~= digits);
    text::digits_make_numbers(digits, c, u64::MAX as nat);
}

/// The applied index is the greatest that was told of.
pub proof fn the_applied_index_is_the_greatest(applied: u64, indices: Seq<u64>, i: int)
    ensures
        advanced_all(applied, indices) >= applied,
        0 <= i < indices.len() ==> advanced_all(applied, indices) >= indices[i],
        advanced_all(applied, indices) == applied || indices.contains(
            advanced_all(applied, indices),
        ),
    decreases indices.len(),
{
    if indices.len() > 0 {
        let front = indices.drop_last();
        the_applied_index_is_the_greatest(applied, front, i);
        assert(indices[indices.len() - 1] == indices.last());
        let r = advanced_all(applied, front);
        if r != applied {
            let k = choose|k: int| 0 <= k < front.len() && front[k] == r;
            assert(indices[k] == r);
        }
    }
}

/// A token travels in its own header; a read waits for up to five seconds and looks every
/// millisecond.
pub proof fn sessions_have_their_limits()
    ensures
        SESSION_TOKEN_HEADER@ == "x-session-token"@,
        MAX_WAIT_MS == 5_000,
        POLL_INTERVAL_MS == 1,
{
}

} // verus!
