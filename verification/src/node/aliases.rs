//! Aliases: one name for one or more collections.

use vstd::prelude::*;

use crate::model::error::DbError;
use crate::node::collections::already_exists;
use crate::node::dto::{ErrorResponse, ErrorView};
use crate::node::errors::{answer_to, db_error_to_response};
use crate::node::state::Catalog;
use crate::text;

verus! {

/// Request to create an alias.
#[derive(Clone, Debug)]
pub struct CreateAliasRequest {
    pub collections: Vec<String>,
}

/// An alias with its collections.
#[derive(Clone, Debug)]
pub struct AliasInfoResponse {
    pub name: String,
    pub collections: Vec<String>,
}

/// An alias about to be created.
pub struct AliasCreate {
    pub name: String,
    pub collections: Vec<String>,
}

/// The first of `names`, from `from` on, that is no collection; or their number.
pub open spec fn first_missing(registry: Catalog, names: Seq<String>, from: int) -> int
    decreases names.len() - from,
{
    if from >= names.len() || !registry.has(names[from]@) {
        from
    } else {
        first_missing(registry, names, from + 1)
    }
}

/// The answer to the creation of an alias, where it is refused at once: the alias
/// exists, a target does not, or there is no target.
pub open spec fn refusal(registry: Catalog, name: Seq<char>, targets: Seq<String>) -> Option<
    ErrorView,
> {
    let missing = first_missing(registry, targets, 0);
    if registry.aliases@.contains_key(name) {
        Some(already_exists("alias '"@, name))
    } else if missing < targets.len() {
        Some(
            ErrorView::not_found("target collection '"@ + targets[missing]@ + "' not found"@),
        )
    } else if targets.len() == 0 {
        Some(ErrorView::bad_request("alias must point to at least one collection"@))
    } else {
        None
    }
}

/// The answer to a request for an alias that does not exist.
pub open spec fn no_alias(name: Seq<char>) -> ErrorView {
    ErrorView::not_found("alias '"@ + name + "' not found"@)
}

fn alias_not_found(name: &str) -> (r: ErrorResponse)
    ensures
        r@ == no_alias(name@),
{
    ErrorResponse::not_found(text::concat3("alias '", name, "' not found").as_str())
}

/// Begin to create the alias `name`: propose it to the cluster.
pub fn create_alias(registry: &Catalog, name: &str, body: &CreateAliasRequest) -> (r: Result<
    AliasCreate,
    ErrorResponse,
>)
    ensures
        match (r, refusal(*registry, name@, body.collections@)) {
            (Ok(a), None) => a.name@ == name@ && a.collections@ == body.collections@,
            (Err(e), Some(view)) => e@ == view,
            _ => false,
        },
{
    let key = name.to_owned();
    if registry.aliases.contains_key(&key) {
        let reason = text::concat3("alias '", name, "' already exists");
        return Err(ErrorResponse::new(409, "resource_already_exists", reason.as_str()));
    }
    let mut i: usize = 0;
    while i < body.collections.len()
        invariant
            i <= body.collections@.len(),
            !registry.aliases@.contains_key(name@),
            first_missing(*registry, body.collections@, 0) == first_missing(
                *registry,
                body.collections@,
                i as int,
            ),
        decreases body.collections@.len() - i,
    {
        if !registry.has_collection(body.collections[i].as_str()) {
            let reason = text::concat3(
                "target collection '",
                body.collections[i].as_str(),
                "' not found",
            );
            return Err(ErrorResponse::not_found(reason.as_str()));
        }
        i = i + 1;
    }
    if body.collections.len() == 0 {
        return Err(ErrorResponse::bad_request("alias must point to at least one collection"));
    }
    Ok(AliasCreate { name: key, collections: text::copy_strings(&body.collections) })
}

impl AliasCreate {
    /// Finish: where the cluster accepted it, the alias is entered into the
    /// registry.
    pub fn finish(self, proposed: Result<(), DbError>, registry: &mut Catalog) -> (r: Result<
        AliasInfoResponse,
        ErrorResponse,
    >)
        ensures
            final(registry).collections == old(registry).collections,
            match proposed {
                Ok(_) => {
                    &&& r matches Ok(info)
                    &&& info.name@ == self.name@
                    &&& info.collections@ == self.collections@
                    &&& final(registry).aliases@ == old(registry).aliases@.insert(
                        self.name@,
                        final(registry).aliases@[self.name@],
                    )
                    &&& final(registry).aliases@.contains_key(self.name@)
                    &&& final(registry).aliases@[self.name@]@ == self.collections@
                },
                Err(e) => {
                    &&& r matches Err(resp)
                    &&& resp@ == answer_to(e)
                    &&& final(registry).aliases@ == old(registry).aliases@
                },
            },
    {
        match proposed {
            Ok(_) => {
                let shown = text::copy_strings(&self.collections);
                registry.aliases.insert(self.name.clone(), self.collections);
                Ok(AliasInfoResponse { name: self.name, collections: shown })
            },
            Err(e) => Err(db_error_to_response(e).1),
        }
    }
}

/// An alias about to be deleted.
pub struct AliasDelete {
    pub name: String,
}

/// Begin to delete the alias `name`: propose it to the cluster.
pub fn delete_alias(registry: &Catalog, name: &str) -> (r: Result<AliasDelete, ErrorResponse>)
    ensures
        match r {
            Ok(d) => registry.aliases@.contains_key(name@) && d.name@ == name@,
            Err(e) => !registry.aliases@.contains_key(name@) && e@ == no_alias(name@),
        },
{
    let key = name.to_owned();
    if !registry.aliases.contains_key(&key) {
        return Err(alias_not_found(name));
    }
    Ok(AliasDelete { name: key })
}

impl AliasDelete {
    /// Finish: where the cluster accepted it, the alias leaves the registry.
    pub fn finish(self, proposed: Result<(), DbError>, registry: &mut Catalog) -> (r: Result<
        (),
        ErrorResponse,
    >)
        ensures
            final(registry).collections == old(registry).collections,
            match proposed {
                Ok(_) => r is Ok && final(registry).aliases@ == old(registry).aliases@.remove(
                    self.name@,
                ),
                Err(e) => {
                    &&& r matches Err(resp)
                    &&& resp@ == answer_to(e)
                    &&& final(registry).aliases@ == old(registry).aliases@
                },
            },
    {
        match proposed {
            Ok(_) => {
                let _ = registry.aliases.remove(&self.name);
                Ok(())
            },
            Err(e) => Err(db_error_to_response(e).1),
        }
    }
}

/// The alias `name` with its collections.
pub fn get_alias(registry: &Catalog, name: &str) -> (r: Result<AliasInfoResponse, ErrorResponse>)
    ensures
        match r {
            Ok(info) => {
                &&& registry.aliases@.contains_key(name@)
                &&& info.name@ == name@
                &&& info.collections@ == registry.aliases@[name@]@
            },
            Err(e) => !registry.aliases@.contains_key(name@) && e@ == no_alias(name@),
        },
{
    let key = name.to_owned();
    match registry.aliases.get(&key) {
        Some(targets) => Ok(
            AliasInfoResponse { name: name.to_owned(), collections: text::copy_strings(targets) },
        ),
        None => Err(alias_not_found(name)),
    }
}

/// Every alias with its collections, each once.
pub fn list_aliases(registry: &Catalog) -> (list: Vec<AliasInfoResponse>)
    ensures
        list@.len() == registry.aliases.entries().len(),
        list@.len() == registry.aliases@.dom().len(),
        forall|i: int|
            0 <= i < list@.len() ==> (#[trigger] list@[i]).name@
                == registry.aliases.entries()[i].0@ && list@[i].collections@
                == registry.aliases.entries()[i].1@,
{
    let n: usize = registry.aliases.len();
    let mut list: Vec<AliasInfoResponse> = Vec::new();
    let mut i: usize = 0;
    while i < n
        invariant
            n == registry.aliases.entries().len(),
            i <= n,
            list@.len() == i,
            forall|j: int|
                0 <= j < i ==> (#[trigger] list@[j]).name@ == registry.aliases.entries()[j].0@
                    && list@[j].collections@ == registry.aliases.entries()[j].1@,
        decreases n - i,
    {
        let (name, targets) = registry.aliases.entry(i);
        list.push(
            AliasInfoResponse { name: name.clone(), collections: text::copy_strings(targets) },
        );
        i = i + 1;
    }
    list
}

// ---------------------------------------------------------------------------
// Laws
// ---------------------------------------------------------------------------

/// A refused alias exists already, or has a missing target or none; any other is
/// not refused.
pub proof fn refused_exactly_when(registry: Catalog, name: Seq<char>, targets: Seq<String>)
    ensures
        refusal(registry, name, targets) is None <==> {
            &&& !registry.aliases@.contains_key(name)
            &&& targets.len() > 0
            &&& forall|i: int| 0 <= i < targets.len() ==> registry.has((#[trigger] targets[i])@)
        },
{
    lemma_first_missing(registry, targets, 0);
}

proof fn lemma_first_missing(registry: Catalog, names: Seq<String>, from: int)
    requires
        0 <= from <= names.len(),
    ensures
        from <= first_missing(registry, names, from) <= names.len(),
        forall|i: int|
            from <= i < first_missing(registry, names, from) ==> registry.has(
                (#[trigger] names[i])@,
            ),
        first_missing(registry, names, from) < names.len() ==> !registry.has(
            names[first_missing(registry, names, from)]@,
        ),
    decreases names.len() - from,
{
    if from < names.len() && registry.has(names[from]@) {
        lemma_first_missing(registry, names, from + 1);
    }
}

/// The alias that exists is told first; of several targets that are no collections the first
/// is told; and an alias without a target is no alias.
pub proof fn refusals_tell_the_first_cause(
    registry: Catalog,
    name: Seq<char>,
    targets: Seq<String>,
    k: int,
)
    requires
        0 <= k <= targets.len(),
        forall|i: int| 0 <= i < k ==> registry.has((#[trigger] targets[i])@),
        k < targets.len() ==> !registry.has(targets[k]@),
    ensures
        registry.aliases@.contains_key(name) ==> refusal(registry, name, targets) == Some(
            (ErrorView {
                status: 409,
                error_type: "resource_already_exists"@,
                reason: "alias '"@ + name + "' already exists"@,
            }),
        ),
        !registry.aliases@.contains_key(name) && k < targets.len() ==> refusal(
            registry,
            name,
            targets,
        ) == Some(
            (ErrorView {
                status: 404,
                error_type: "not_found"@,
                reason: "target collection '"@ + targets[k]@ + "' not found"@,
            }),
        ),
        !registry.aliases@.contains_key(name) && targets.len() == 0 ==> refusal(
            registry,
            name,
            targets,
        ) == Some(
            (ErrorView {
                status: 400,
                error_type: "invalid_input"@,
                reason: "alias must point to at least one collection"@,
            }),
        ),
        !registry.aliases@.contains_key(name) && k == targets.len() && k > 0 ==> refusal(
            registry,
            name,
            targets,
        ) is None,
        no_alias(name) == (ErrorView {
            status: 404,
            error_type: "not_found"@,
            reason: "alias '"@ + name + "' not found"@,
        }),
{
    lemma_first_missing(registry, targets, 0);
    let missing = first_missing(registry, targets, 0);
    if missing < k {
        assert(registry.has(targets[missing]@));
    }
    if k < missing {
        assert(registry.has(targets[k]@));
    }
}

} // verus!
