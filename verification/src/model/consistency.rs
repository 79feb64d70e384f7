//! How many replicas have to answer a read.

use vstd::prelude::*;

use crate::text;

verus! {

/// The consistency level of a read.
#[derive(Clone, Copy, Debug, PartialEq, Eq, Structural)]
pub enum ConsistencyLevel {
    /// One replica is enough.
    One,
    /// A majority of the replicas.
    Quorum,
    /// Every replica.
    All,
}

impl ConsistencyLevel {
    /// The level's name.
    pub open spec fn spelled(self) -> Seq<char> {
        match self {
            ConsistencyLevel::One => "one"@,
            ConsistencyLevel::Quorum => "quorum"@,
            ConsistencyLevel::All => "all"@,
        }
    }

    /// The level's name.
    pub fn name(&self) -> (r: String)
        ensures
            r@ == self.spelled(),
    {
        match self {
            ConsistencyLevel::One => "one".to_owned(),
            ConsistencyLevel::Quorum => "quorum".to_owned(),
            ConsistencyLevel::All => "all".to_owned(),
        }
    }

    /// The level that a request parameter names; a quorum where it names none.
    pub open spec fn named(word: Seq<char>) -> ConsistencyLevel {
        if word == "one"@ {
            ConsistencyLevel::One
        } else if word == "all"@ {
            ConsistencyLevel::All
        } else {
            ConsistencyLevel::Quorum
        }
    }

    /// The level that an optional request parameter asks for.
    pub open spec fn asked_for(param: Option<String>) -> ConsistencyLevel {
        match param {
            Some(word) => ConsistencyLevel::named(word@),
            None => ConsistencyLevel::Quorum,
        }
    }

    /// The level that a request parameter names.
    pub fn from_str_param(word: &str) -> (r: ConsistencyLevel)
        ensures
            r == ConsistencyLevel::named(word@),
    {
        if text::same(word, "one") {
            ConsistencyLevel::One
        } else if text::same(word, "all") {
            ConsistencyLevel::All
        } else {
            ConsistencyLevel::Quorum
        }
    }

    /// The level that an optional request parameter asks for.
    pub fn from_param(param: &Option<String>) -> (r: ConsistencyLevel)
        ensures
            r == ConsistencyLevel::asked_for(*param),
    {
        match param {
            Some(word) => ConsistencyLevel::from_str_param(word.as_str()),
            None => ConsistencyLevel::Quorum,
        }
    }

    /// The number of replicas, out of `replicas`, that have to answer.
    pub open spec fn required(self, replicas: int) -> int {
        match self {
            ConsistencyLevel::One => 1,
            ConsistencyLevel::Quorum => replicas / 2 + 1,
            ConsistencyLevel::All => replicas,
        }
    }

    /// The number of replicas, out of `replicas`, that have to answer.
    pub fn required_responses(&self, replicas: usize) -> (n: usize)
        ensures
            n == self.required(replicas as int),
    {
        match self {
            ConsistencyLevel::One => 1,
            ConsistencyLevel::Quorum => replicas / 2 + 1,
            ConsistencyLevel::All => replicas,
        }
    }
}

/// Reading a level's name gives the level.
pub proof fn consistency_names_round_trip(level: ConsistencyLevel)
    ensures
        ConsistencyLevel::named(level.spelled()) == level,
{
    reveal_strlit("one");
    reveal_strlit("all");
    reveal_strlit("quorum");
    assert("one"@[0] == 'o');
    assert("all"@[0] == 'a');
    assert("quorum"@[0] == 'q');
}

/// Any two quorums share a replica.
pub proof fn quorums_overlap(replicas: int)
    requires
        replicas >= 1,
    ensures
        2 * ConsistencyLevel::Quorum.required(replicas) > replicas,
        ConsistencyLevel::Quorum.required(replicas) <= replicas,
{
}

// ---------------------------------------------------------------------------
// Laws
// ---------------------------------------------------------------------------

/// One replica is enough for `one` and every one is asked for by `all`; a quorum is the
/// smallest number of replicas of which any two sets share one.
pub proof fn levels_ask_for_enough(replicas: int)
    requires
        replicas >= 1,
    ensures
        ConsistencyLevel::One.required(replicas) == 1,
        ConsistencyLevel::All.required(replicas) == replicas,
        2 * (ConsistencyLevel::Quorum.required(replicas) - 1) <= replicas,
{
}

/// The levels are called `one`, `quorum` and `all`; every other word, and none, asks for a
/// quorum.
pub proof fn levels_have_their_names(word: Seq<char>, param: Option<String>)
    ensures
        ConsistencyLevel::One.spelled() == "one"@,
        ConsistencyLevel::Quorum.spelled() == "quorum"@,
        ConsistencyLevel::All.spelled() == "all"@,
        ConsistencyLevel::named(word) == ConsistencyLevel::One <==> word == "one"@,
        ConsistencyLevel::named(word) == ConsistencyLevel::All <==> word == "all"@,
        word != "one"@ && word != "all"@ ==> ConsistencyLevel::named(word)
            == ConsistencyLevel::Quorum,
        param is None ==> ConsistencyLevel::asked_for(param) == ConsistencyLevel::Quorum,
        param matches Some(w) ==> ConsistencyLevel::asked_for(param) == ConsistencyLevel::named(
            w@,
        ),
{
    reveal_strlit("one");
    reveal_strlit("all");
    assert("one"@[0] != "all"@[0]);
}

} // verus!
