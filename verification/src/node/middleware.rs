//! What happens around a request: labels, roles, authentication and limits.

use vstd::prelude::*;

use crate::node::dto::{fresh_uuid, hyphenated, ErrorResponse, ErrorView};
use crate::table::Table;
use crate::text;

verus! {

/// The time that a request may take, in seconds.
pub const REQUEST_TIMEOUT_SECS: u64 = 30;

/// The size, in bytes, from which on a response is compressed.
pub const COMPRESSION_MIN_SIZE: u16 = 1024;

// ---------------------------------------------------------------------------
// Request ids
// ---------------------------------------------------------------------------

/// The id of a request: the one that the client sent, or `generated`.
pub fn choose_request_id(sent: Option<String>, generated: String) -> (id: String)
    ensures
        id == match sent {
            Some(s) => s,
            None => generated,
        },
{
    match sent {
        Some(s) => s,
        None => generated,
    }
}

/// The id of a request: the one that the client sent, or a fresh one.
pub fn request_id(sent: Option<String>) -> (id: String)
    ensures
        match sent {
            Some(s) => id == s,
            None => hyphenated(id@),
        },
{
    let generated = fresh_uuid();
    choose_request_id(sent, generated)
}

// ---------------------------------------------------------------------------
// Path labels
// ---------------------------------------------------------------------------

/// What the segment behind `segs[at]` is replaced by in a label: names and ids
/// have placeholders, everything else stays.
pub open spec fn placeholder(segs: Seq<Seq<char>>, at: int) -> Option<Seq<char>> {
    let seg = segs[at];
    if at + 1 >= segs.len() {
        None
    } else if seg == "collections"@ || seg == "_aliases"@ {
        Some(":name"@)
    } else if seg == "_nodes"@ {
        Some(":id"@)
    } else if (seg == "docs"@ || seg == "_snapshot"@) && !text::begins_with(
        segs[at + 1],
        "_"@,
    ) {
        Some(":id"@)
    } else {
        None
    }
}

/// The segments of a label, from `from` on.
pub open spec fn labelled(segs: Seq<Seq<char>>, from: int) -> Seq<Seq<char>>
    decreases segs.len() - from,
{
    if from < 0 || from >= segs.len() {
        Seq::empty()
    } else {
        match placeholder(segs, from) {
            Some(p) => seq![segs[from], p] + labelled(segs, from + 2),
            None => seq![segs[from]] + labelled(segs, from + 1),
        }
    }
}

/// The label of a path: the path with its names and ids replaced by
/// placeholders.
pub open spec fn path_label(path: Seq<char>) -> Seq<char> {
    text::joined(labelled(text::pieces(path, '/'), 0), "/"@)
}

fn placeholder_of(segs: &Vec<String>, at: usize) -> (r: Option<String>)
    requires
        at < segs@.len(),
    ensures
        match r {
            Some(p) => placeholder(text::texts(segs@), at as int) == Some(p@),
            None => placeholder(text::texts(segs@), at as int) is None,
        },
{
    let seg = segs[at].as_str();
    assert(segs.len() == segs@.len());
    if at >= segs.len() - 1 {
        return None;
    }
    if text::same(seg, "collections") || text::same(seg, "_aliases") {
        return Some(":name".to_owned());
    }
    if text::same(seg, "_nodes") {
        return Some(":id".to_owned());
    }
    if (text::same(seg, "docs") || text::same(seg, "_snapshot")) && !text::starts_with(
        segs[at + 1].as_str(),
        "_",
    ) {
        return Some(":id".to_owned());
    }
    None
}

/// The label of a path.
///
/// `/collections/products/docs/doc1` and every other document path become
/// `/collections/:name/docs/:id`.
pub fn normalize_path(path: &str) -> (label: String)
    ensures
        label@ == path_label(path@),
{
    let segs = text::split_on(path, '/');
    let ghost all = text::texts(segs@);
    let mut out: Vec<String> = Vec::new();
    let mut i: usize = 0;
    assert(text::texts(out@) + labelled(all, 0) =~= labelled(all, 0));
    while i < segs.len()
        invariant
            i <= segs@.len(),
            all == text::texts(segs@),
            text::texts(out@) + labelled(all, i as int) == labelled(all, 0),
        decreases segs@.len() - i,
    {
        let ghost before = out@;
        let found = placeholder_of(&segs, i);
        assert(segs.len() == segs@.len());
        let seg = segs[i].clone();
        proof {
            text::lemma_texts_push(before, seg);
        }
        out.push(seg);
        match found {
            Some(p) => {
                proof {
                    text::lemma_texts_push(out@, p);
                    assert(text::texts(before) + (seq![all[i as int], p@] + labelled(all, i + 2))
                        =~= text::texts(before).push(all[i as int]).push(p@) + labelled(
                        all,
                        i + 2,
                    ));
                }
                out.push(p);
                i = i + 2;
            },
            None => {
                assert(text::texts(before) + (seq![all[i as int]] + labelled(all, i + 1))
                    =~= text::texts(before).push(all[i as int]) + labelled(all, i + 1));
                i = i + 1;
            },
        }
    }
    assert(text::texts(out@) + labelled(all, i as int) =~= text::texts(out@));
    text::join(&out, "/")
}

// ---------------------------------------------------------------------------
// Roles
// ---------------------------------------------------------------------------

/// What a client may do.  Each role may do what the ones below it may.
#[derive(Clone, Copy, Debug, PartialEq, Eq, Structural)]
pub enum Role {
    Reader,
    Writer,
    Admin,
}

impl Role {
    /// The role's rank.
    pub open spec fn rank(self) -> int {
        match self {
            Role::Reader => 1,
            Role::Writer => 2,
            Role::Admin => 3,
        }
    }

    /// The role's rank.
    pub fn level(&self) -> (n: u8)
        ensures
            n == self.rank(),
    {
        match self {
            Role::Reader => 1,
            Role::Writer => 2,
            Role::Admin => 3,
        }
    }

    /// Whether the role may do what `needed` may.
    pub fn has_permission(&self, needed: Role) -> (r: bool)
        ensures
            r == (self.rank() >= needed.rank()),
    {
        self.level() >= needed.level()
    }
}

/// The method of a request, as far as it matters for the role that it needs.
#[derive(Clone, Copy, Debug, PartialEq, Eq, Structural)]
pub enum Method {
    Get,
    Post,
    Put,
    Delete,
    Other,
}

/// The path, in segments, is of a collection or of something in one.
pub open spec fn in_collection(segs: Seq<Seq<char>>) -> bool {
    segs.len() >= 3 && segs[0].len() == 0 && segs[1] == "collections"@
}

/// The part of a collection that a path is of: the segment behind the collection's
/// name, which is empty where the path ends with the name.
pub open spec fn part_of_collection(segs: Seq<Seq<char>>) -> Seq<char> {
    if segs.len() > 3 {
        segs[3]
    } else {
        Seq::empty()
    }
}

/// The request changes a collection itself, not its documents.
pub open spec fn manages_collection(method: Method, path: Seq<char>) -> bool {
    let segs = text::pieces(path, '/');
    &&& in_collection(segs)
    &&& part_of_collection(segs) != "docs"@
    &&& part_of_collection(segs) != "_search"@
    &&& part_of_collection(segs) != "_refresh"@
    &&& (method == Method::Put || method == Method::Delete)
}

/// The request searches: a collection, or, where `_search` is all of the path, none in
/// particular.
pub open spec fn searches(path: Seq<char>) -> bool {
    let segs = text::pieces(path, '/');
    path == "/_search"@ || (in_collection(segs) && part_of_collection(segs) == "_search"@)
}

/// The least role that a request needs.
///
/// - Admin: node join, restore, snapshots, creating and deleting collections.
/// - Writer: documents, bulk requests, refresh, and whatever else changes something.
/// - Reader: searches, and whatever only reads.
pub open spec fn role_for(method: Method, path: Seq<char>) -> Role {
    if text::begins_with(path, "/_nodes/"@) && text::finishes_with(path, "/_join"@) {
        Role::Admin
    } else if path == "/_restore"@ {
        Role::Admin
    } else if path == "/_snapshot"@ && method == Method::Post {
        Role::Admin
    } else if manages_collection(method, path) {
        Role::Admin
    } else if method == Method::Post || method == Method::Put || method == Method::Delete {
        if searches(path) {
            Role::Reader
        } else {
            Role::Writer
        }
    } else {
        Role::Reader
    }
}

/// The least role that a request needs.  In the path of a collection the segment
/// behind the collection's name decides, whatever names and ids are.
pub fn required_role(method: Method, path: &str) -> (role: Role)
    ensures
        role == role_for(method, path@),
{
    if text::starts_with(path, "/_nodes/") && text::ends_with(path, "/_join") {
        return Role::Admin;
    }
    if text::same(path, "/_restore") {
        return Role::Admin;
    }
    if text::same(path, "/_snapshot") && method == Method::Post {
        return Role::Admin;
    }
    let segs = text::split_on(path, '/');
    let ghost views = text::texts(segs@);
    let inside = segs.len() >= 3 && text::same(segs[0].as_str(), "") && text::same(
        segs[1].as_str(),
        "collections",
    );
    let part: String = if segs.len() > 3 {
        segs[3].clone()
    } else {
        String::new()
    };
    proof {
        reveal_strlit("");
        assert(""@ =~= Seq::<char>::empty());
        if views.len() > 0 && views[0].len() == 0 {
            assert(views[0] =~= ""@);
        }
        assert(inside == in_collection(views));
        assert(part@ =~= part_of_collection(views));
    }
    if inside && !text::same(part.as_str(), "docs") && !text::same(part.as_str(), "_search")
        && !text::same(part.as_str(), "_refresh") && (method == Method::Put || method
        == Method::Delete) {
        return Role::Admin;
    }
    if method == Method::Post || method == Method::Put || method == Method::Delete {
        if text::same(path, "/_search") || (inside && text::same(part.as_str(), "_search")) {
            return Role::Reader;
        }
        return Role::Writer;
    }
    Role::Reader
}

// ---------------------------------------------------------------------------
// Authentication
// ---------------------------------------------------------------------------

/// How clients may authenticate.
pub struct AuthConfig {
    /// API keys, each with its role.
    pub keys: Table<String, Role>,
    /// Whether bearer tokens are accepted.
    pub tokens: bool,
    /// A single key that may do everything.
    pub single_key: Option<String>,
}

/// What a request brings along.
pub struct Credentials {
    pub api_key: Option<String>,
    pub bearer_token: Option<String>,
}

/// What a bearer token turned out to be.
#[derive(Clone, Copy, Debug, PartialEq, Eq, Structural)]
pub enum TokenCheck {
    /// It does not verify.
    Invalid,
    /// It verifies, but names no role.
    UnknownRole,
    /// It verifies and names a role.
    Verified(Role),
}

/// What to do with a request.
#[derive(Debug)]
pub enum AuthStep {
    /// Let it pass.
    Pass,
    /// Turn it away.
    Reject(ErrorResponse),
    /// Verify its bearer token first.
    CheckToken(String),
}

/// The token in an `Authorization` header.
pub open spec fn token_in(header: Seq<char>) -> Option<Seq<char>> {
    if text::begins_with(header, "Bearer "@) {
        Some(header.skip("Bearer "@.len() as int))
    } else {
        None
    }
}

/// The token in an `Authorization` header.
pub fn bearer_token(header: &Option<String>) -> (r: Option<String>)
    ensures
        match (header, r) {
            (Some(h), Some(t)) => token_in(h@) == Some(t@),
            (Some(h), None) => token_in(h@) is None,
            (None, None) => true,
            (None, Some(_)) => false,
        },
{
    match header {
        Some(h) => text::strip_prefix(h.as_str(), "Bearer "),
        None => None,
    }
}

/// 403.
pub open spec fn forbidden() -> ErrorView {
    ErrorView { status: 403, error_type: "forbidden"@, reason: "insufficient permissions"@ }
}

impl AuthConfig {
    /// No way to authenticate is set up, and every request passes.
    pub open spec fn open_to_all(&self) -> bool {
        self.keys@ =~= Map::<Seq<char>, Role>::empty() && !self.tokens && self.single_key is None
    }

    /// The request brings a key of the key list.
    pub open spec fn knows_key(&self, c: Credentials) -> bool {
        c.api_key matches Some(k) && self.keys@.contains_key(k@)
    }

    /// The request brings the single key.
    pub open spec fn has_single_key(&self, c: Credentials) -> bool {
        c.api_key matches Some(k) && self.single_key matches Some(s) && k@ == s@
    }

    /// The request brings a bearer token that has to be verified: tokens are
    /// accepted, and no key of the key list decides before it.
    pub open spec fn asks_for_token(&self, c: Credentials) -> bool {
        !self.open_to_all() && !self.knows_key(c) && c.bearer_token is Some && self.tokens
    }

    /// A known key decides by its role; a bearer token comes next; the single key
    /// is last.
    pub fn authenticate(&self, needed: Role, c: &Credentials) -> (step: AuthStep)
        ensures
            match step {
                AuthStep::Pass => {
                    ||| self.open_to_all()
                    ||| self.knows_key(*c) && self.keys@[c.api_key->0@].rank() >= needed.rank()
                    ||| !self.knows_key(*c) && !self.asks_for_token(*c) && self.has_single_key(*c)
                },
                AuthStep::CheckToken(t) => self.asks_for_token(*c) && t@ == c.bearer_token->0@,
                AuthStep::Reject(r) => {
                    &&& !self.open_to_all()
                    &&& !self.asks_for_token(*c)
                    &&& if self.knows_key(*c) {
                        &&& self.keys@[c.api_key->0@].rank() < needed.rank()
                        &&& r@ == forbidden()
                    } else {
                        &&& !self.has_single_key(*c)
                        &&& r@ == ErrorView::unauthorized("invalid or missing API key"@)
                    }
                },
            },
    {
        let has_keys = !self.keys.is_empty();
        if !has_keys && !self.tokens && self.single_key.is_none() {
            return AuthStep::Pass;
        }
        if let Some(key) = &c.api_key {
            if let Some(role) = self.keys.get(key) {
                if role.has_permission(needed) {
                    return AuthStep::Pass;
                }
                return AuthStep::Reject(
                    ErrorResponse::new(403, "forbidden", "insufficient permissions"),
                );
            }
        }
        if let Some(token) = &c.bearer_token {
            if self.tokens {
                return AuthStep::CheckToken(token.clone());
            }
        }
        self.try_single_key(c)
    }

    fn try_single_key(&self, c: &Credentials) -> (step: AuthStep)
        ensures
            match step {
                AuthStep::Pass => self.has_single_key(*c),
                AuthStep::Reject(r) => !self.has_single_key(*c) && r@ == ErrorView::unauthorized(
                    "invalid or missing API key"@,
                ),
                AuthStep::CheckToken(_) => false,
            },
    {
        if let Some(expected) = &self.single_key {
            if let Some(provided) = &c.api_key {
                if *provided == *expected {
                    return AuthStep::Pass;
                }
            }
        }
        AuthStep::Reject(ErrorResponse::unauthorized("invalid or missing API key"))
    }
}

/// What to do with a request whose bearer token has been verified.
pub fn decide_by_token(needed: Role, check: TokenCheck) -> (r: Result<(), ErrorResponse>)
    ensures
        match check {
            TokenCheck::Verified(role) => if role.rank() >= needed.rank() {
                r is Ok
            } else {
                r matches Err(e) && e@ == forbidden()
            },
            TokenCheck::UnknownRole => r matches Err(e) && e@ == ErrorView::unauthorized(
                "invalid role in JWT"@,
            ),
            TokenCheck::Invalid => r matches Err(e) && e@ == ErrorView::unauthorized(
                "invalid or expired JWT token"@,
            ),
        },
{
    match check {
        TokenCheck::Verified(role) => {
            if role.has_permission(needed) {
                Ok(())
            } else {
                Err(ErrorResponse::new(403, "forbidden", "insufficient permissions"))
            }
        },
        TokenCheck::UnknownRole => Err(ErrorResponse::unauthorized("invalid role in JWT")),
        TokenCheck::Invalid => Err(ErrorResponse::unauthorized("invalid or expired JWT token")),
    }
}

// ---------------------------------------------------------------------------
// Limits
// ---------------------------------------------------------------------------

/// The name under which a request's rate is counted: its API key, or
/// `anonymous`.
pub fn rate_limit_key(api_key: &Option<String>) -> (key: String)
    ensures
        match api_key {
            Some(k) => key@ == k@,
            None => key@ == "anonymous"@,
        },
{
    match api_key {
        Some(k) => k.clone(),
        None => "anonymous".to_owned(),
    }
}

/// The answer to a request over the rate limit.
pub fn rate_limited() -> (r: ErrorResponse)
    ensures
        r@ == (ErrorView {
            status: 429,
            error_type: "rate_limited"@,
            reason: "rate limit exceeded — try again later"@,
        }),
{
    ErrorResponse::new(429, "rate_limited", "rate limit exceeded — try again later")
}

/// The answer to a request over the connection limit.
pub fn connection_limited() -> (r: ErrorResponse)
    ensures
        r@ == (ErrorView {
            status: 503,
            error_type: "connection_limit"@,
            reason: "maximum connection limit reached"@,
        }),
{
    ErrorResponse::new(503, "connection_limit", "maximum connection limit reached")
}

// ---------------------------------------------------------------------------
// Laws
// ---------------------------------------------------------------------------

/// Labelling the segments of a label changes nothing.
pub proof fn labels_are_stable(segs: Seq<Seq<char>>, from: int)
    requires
        0 <= from <= segs.len(),
    ensures
        labelled(labelled(segs, from), 0) == labelled(segs, from),
    decreases segs.len() - from,
{
    let out = labelled(segs, from);
    if from < segs.len() {
        reveal_strlit("_");
        reveal_strlit(":name");
        reveal_strlit(":id");
        match placeholder(segs, from) {
            Some(p) => {
                let next = if from + 2 <= segs.len() {
                    from + 2
                } else {
                    segs.len() as int
                };
                labels_are_stable(segs, next);
                let rest = labelled(segs, from + 2);
                assert(out =~= seq![segs[from], p] + rest);
                assert(out.skip(2) =~= rest);
                lemma_labelled_skip(out, rest, 2);
                assert(placeholder(out, 0) == Some(p)) by {
                    assert(out[0] == segs[from] && out[1] == p);
                    assert(p[0] == ':');
                    assert(!text::begins_with(p, "_"@)) by {
                        if text::begins_with(p, "_"@) {
                            assert(p.subrange(0, 1)[0] == "_"@[0]);
                        }
                    }
                }
                assert(labelled(out, 0) =~= out);
            },
            None => {
                labels_are_stable(segs, from + 1);
                let rest = labelled(segs, from + 1);
                assert(out =~= seq![segs[from]] + rest);
                assert(out.skip(1) =~= rest);
                lemma_labelled_skip(out, rest, 1);
                assert(placeholder(out, 0) is None) by {
                    if from + 1 < segs.len() {
                        assert(rest[0] == segs[from + 1]);
                        assert(out[1] == segs[from + 1]);
                    } else {
                        assert(rest.len() == 0);
                    }
                    assert(out[0] == segs[from]);
                }
                assert(labelled(out, 0) =~= out);
            },
        }
    } else {
        assert(out =~= Seq::<Seq<char>>::empty());
    }
}

proof fn lemma_labelled_skip(out: Seq<Seq<char>>, rest: Seq<Seq<char>>, n: int)
    requires
        0 <= n <= out.len(),
        rest == out.skip(n),
    ensures
        labelled(out, n) == labelled(rest, 0),
{
    lemma_labelled_shift(out, rest, n, 0);
}

proof fn lemma_labelled_shift(out: Seq<Seq<char>>, rest: Seq<Seq<char>>, n: int, at: int)
    requires
        0 <= n <= out.len(),
        rest == out.skip(n),
        0 <= at,
    ensures
        labelled(out, n + at) == labelled(rest, at),
    decreases rest.len() - at,
{
    if at < rest.len() {
        assert(out[n + at] == rest[at]);
        if at + 1 < rest.len() {
            assert(out[n + at + 1] == rest[at + 1]);
        }
        assert(placeholder(out, n + at) == placeholder(rest, at));
        lemma_labelled_shift(out, rest, n, at + 1);
        if at + 1 < rest.len() {
            lemma_labelled_shift(out, rest, n, at + 2);
        }
    }
}

/// Normalizing a path twice gives what normalizing it once gives.
pub proof fn normalizing_is_idempotent(path: Seq<char>)
    ensures
        path_label(path_label(path)) == path_label(path),
{
    let segs = text::pieces(path, '/');
    text::lemma_pieces_are_free(path, '/', 0);
    let out = labelled(segs, 0);
    lemma_label_segments_free(segs, 0);
    reveal_strlit("/");
    assert("/"@ =~= seq!['/']);
    text::split_undoes_join(out, '/');
    labels_are_stable(segs, 0);
}

proof fn lemma_label_segments_free(segs: Seq<Seq<char>>, from: int)
    requires
        0 <= from,
        forall|i: int| 0 <= i < segs.len() ==> !(#[trigger] segs[i]).contains('/'),
    ensures
        from < segs.len() ==> labelled(segs, from).len() > 0,
        forall|i: int|
            0 <= i < labelled(segs, from).len() ==> !(#[trigger] labelled(segs, from)[i]).contains(
                '/',
            ),
    decreases segs.len() - from,
{
    if from < segs.len() {
        let out = labelled(segs, from);
        reveal_strlit(":name");
        reveal_strlit(":id");
        lemma_label_segments_free(segs, from + 1);
        if from + 1 < segs.len() {
            lemma_label_segments_free(segs, from + 2);
        }
        assert forall|i: int| 0 <= i < out.len() implies !(#[trigger] out[i]).contains('/') by {
            match placeholder(segs, from) {
                Some(p) => {
                    if i == 0 {
                        assert(out[0] == segs[from]);
                    } else if i == 1 {
                        assert(out[1] == p);
                        assert(p =~= ":name"@ || p =~= ":id"@);
                    } else {
                        assert(out[i] == labelled(segs, from + 2)[i - 2]);
                    }
                },
                None => {
                    if i == 0 {
                        assert(out[0] == segs[from]);
                    } else {
                        assert(out[i] == labelled(segs, from + 1)[i - 1]);
                    }
                },
            }
        }
    }
}

/// Every document of every collection has the same label.
pub proof fn document_paths_share_a_label(name: Seq<char>, id: Seq<char>)
    requires
        !name.contains('/'),
        !id.contains('/'),
        !text::begins_with(id, "_"@),
    ensures
        path_label(
            text::joined(seq![Seq::empty(), "collections"@, name, "docs"@, id], "/"@),
        ) == text::joined(
            seq![Seq::empty(), "collections"@, ":name"@, "docs"@, ":id"@],
            "/"@,
        ),
{
    let segs = seq![Seq::empty(), "collections"@, name, "docs"@, id];
    reveal_strlit("collections");
    reveal_strlit("docs");
    reveal_strlit("_aliases");
    reveal_strlit("_nodes");
    reveal_strlit("_snapshot");
    assert("collections"@.len() == 11);
    assert("docs"@.len() == 4);
    assert("_aliases"@.len() == 8);
    assert("_nodes"@.len() == 6);
    assert("_snapshot"@.len() == 9);
    reveal_strlit("/");
    assert("/"@ =~= seq!['/']);
    assert(!"collections"@.contains('/'));
    assert(!"docs"@.contains('/'));
    text::split_undoes_join(segs, '/');
    assert(placeholder(segs, 0) is None);
    assert(placeholder(segs, 1) == Some(":name"@));
    assert(placeholder(segs, 3) == Some(":id"@));
    assert(labelled(segs, 5) =~= Seq::<Seq<char>>::empty());
    assert(labelled(segs, 3) =~= seq!["docs"@, ":id"@]);
    assert(labelled(segs, 1) =~= seq!["collections"@, ":name"@, "docs"@, ":id"@]);
    assert(labelled(segs, 0) =~= seq![
        Seq::empty(),
        "collections"@,
        ":name"@,
        "docs"@,
        ":id"@,
    ]);
}

/// What a collection and its documents are called does not decide on roles: creating
/// and deleting a collection is for admins, changing a document for writers, and
/// searching for readers.
pub proof fn names_do_not_decide_roles(method: Method, name: Seq<char>, id: Seq<char>)
    requires
        !name.contains('/'),
        !id.contains('/'),
        method == Method::Post || method == Method::Put || method == Method::Delete,
    ensures
        method != Method::Post ==> role_for(
            method,
            text::joined(seq![Seq::empty(), "collections"@, name], "/"@),
        ) == Role::Admin,
        role_for(
            method,
            text::joined(seq![Seq::empty(), "collections"@, name, "docs"@, id], "/"@),
        ) == Role::Writer,
        role_for(
            method,
            text::joined(seq![Seq::empty(), "collections"@, name, "_search"@], "/"@),
        ) == Role::Reader,
{
    reveal_strlit("/");
    assert("/"@ =~= seq!['/']);
    reveal_strlit("collections");
    reveal_strlit("docs");
    reveal_strlit("_search");
    reveal_strlit("_refresh");
    assert("docs"@.len() == 4 && "_search"@.len() == 7 && "_refresh"@.len() == 8);
    assert(!"collections"@.contains('/'));
    assert(!"docs"@.contains('/'));
    assert(!"_search"@.contains('/'));
    lemma_collection_path(seq![Seq::empty(), "collections"@, name]);
    lemma_collection_path(seq![Seq::empty(), "collections"@, name, "docs"@, id]);
    lemma_collection_path(seq![Seq::empty(), "collections"@, name, "_search"@]);
}

proof fn lemma_collection_path(segs: Seq<Seq<char>>)
    requires
        in_collection(segs),
        forall|i: int| 0 <= i < segs.len() ==> !(#[trigger] segs[i]).contains('/'),
    ensures
        text::pieces(text::joined(segs, "/"@), '/') == segs,
        !text::begins_with(text::joined(segs, "/"@), "/_nodes/"@),
        text::joined(segs, "/"@) != "/_restore"@,
        text::joined(segs, "/"@) != "/_snapshot"@,
        text::joined(segs, "/"@) != "/_search"@,
{
    reveal_strlit("/");
    assert("/"@ =~= seq!['/']);
    text::split_undoes_join(segs, '/');
    let path = text::joined(segs, "/"@);
    reveal_strlit("/_nodes/");
    reveal_strlit("/_restore");
    reveal_strlit("/_snapshot");
    reveal_strlit("/_search");
    reveal_strlit("collections");
    lemma_joined_starts(segs);
    assert(path[1] == 'c');
    if text::begins_with(path, "/_nodes/"@) {
        assert(path.subrange(0, 8)[1] == "/_nodes/"@[1]);
    }
}

proof fn lemma_joined_starts(segs: Seq<Seq<char>>)
    requires
        in_collection(segs),
    ensures
        text::joined(segs, "/"@).len() >= 2,
        text::joined(segs, "/"@)[1] == 'c',
    decreases segs.len(),
{
    reveal_strlit("/");
    reveal_strlit("collections");
    assert("/"@.len() == 1);
    if segs.len() == 3 {
        reveal_with_fuel(text::joined, 4);
        assert(segs.drop_last().len() == 2);
    } else {
        lemma_joined_starts(segs.drop_last());
    }
}

/// A search needs no more than a reader; whatever needs more changes something.
pub proof fn reading_is_for_readers(method: Method, path: Seq<char>)
    requires
        method == Method::Get || method == Method::Other,
        !(text::begins_with(path, "/_nodes/"@) && text::finishes_with(path, "/_join"@)),
        path != "/_restore"@,
    ensures
        role_for(method, path) == Role::Reader,
{
}

/// Each role may do what the ones below it may: a reader the least, an admin the most.
pub proof fn roles_are_ranked(a: Role, b: Role)
    ensures
        Role::Reader.rank() < Role::Writer.rank(),
        Role::Writer.rank() < Role::Admin.rank(),
        a.rank() == b.rank() ==> a == b,
        Role::Admin.rank() >= a.rank(),
        a.rank() >= Role::Reader.rank(),
{
}

/// Joining nodes, restoring, making snapshots, and changing collections themselves are for
/// admins, whoever else may do what; whatever else changes something is for writers, but for
/// searches, which are for readers as all reading is.
pub proof fn requests_need_their_role(method: Method, path: Seq<char>)
    ensures
        ({
            let segs = text::pieces(path, '/');
            let changing = method == Method::Post || method == Method::Put || method
                == Method::Delete;
            let joins = text::begins_with(path, "/_nodes/"@) && text::finishes_with(
                path,
                "/_join"@,
            );
            let snapshots = path == "/_restore"@ || (path == "/_snapshot"@ && method
                == Method::Post);
            let of_collection = segs.len() >= 3 && segs[0].len() == 0 && segs[1]
                == "collections"@;
            let part = if segs.len() > 3 {
                segs[3]
            } else {
                Seq::empty()
            };
            let manages = of_collection && part != "docs"@ && part != "_search"@ && part
                != "_refresh"@ && (method == Method::Put || method == Method::Delete);
            let finds = path == "/_search"@ || (of_collection && part == "_search"@);
            &&& role_for(method, path) == Role::Admin <==> joins || snapshots || manages
            &&& role_for(method, path) == Role::Writer <==> !joins && !snapshots && !manages
                && changing && !finds
        }),
{
}

/// In a path names and identifiers are replaced: what stands behind `collections` and
/// `_aliases` by `:name`, what stands behind `_nodes` by `:id`, and so what stands behind `docs`
/// and `_snapshot` unless it begins with an underscore.  Nothing else is.
pub proof fn names_and_identifiers_are_replaced(segs: Seq<Seq<char>>, at: int)
    requires
        0 <= at < segs.len(),
    ensures
        at + 1 == segs.len() ==> placeholder(segs, at) is None,
        at + 1 < segs.len() ==> {
            let seg = segs[at];
            let next = segs[at + 1];
            &&& seg == "collections"@ || seg == "_aliases"@ ==> placeholder(segs, at) == Some(
                ":name"@,
            )
            &&& seg == "_nodes"@ ==> placeholder(segs, at) == Some(":id"@)
            &&& (seg == "docs"@ || seg == "_snapshot"@) && !(next.len() > 0 && next[0] == '_')
                ==> placeholder(segs, at) == Some(":id"@)
            &&& (seg == "docs"@ || seg == "_snapshot"@) && next.len() > 0 && next[0] == '_'
                ==> placeholder(segs, at) is None
            &&& seg != "collections"@ && seg != "_aliases"@ && seg != "_nodes"@ && seg
                != "docs"@ && seg != "_snapshot"@ ==> placeholder(segs, at) is None
        },
{
    reveal_strlit("_");
    reveal_strlit("collections");
    reveal_strlit("_aliases");
    reveal_strlit("_nodes");
    reveal_strlit("docs");
    reveal_strlit("_snapshot");
    assert("collections"@.len() == 11 && "_aliases"@.len() == 8 && "_nodes"@.len() == 6
        && "docs"@.len() == 4 && "_snapshot"@.len() == 9);
    if at + 1 < segs.len() {
        let next = segs[at + 1];
        if next.len() > 0 {
            if next[0] == '_' {
                assert(next.subrange(0, 1) =~= "_"@);
            } else {
                assert(next.subrange(0, 1)[0] != "_"@[0]);
            }
        }
    }
}

/// A label keeps as many segments as the path has, and every segment of the path that is not
/// replaced.
pub proof fn labels_keep_the_segments(segs: Seq<Seq<char>>, from: int)
    requires
        0 <= from <= segs.len(),
    ensures
        labelled(segs, from).len() == segs.len() - from,
        from < segs.len() ==> labelled(segs, from)[0] == segs[from],
        from < segs.len() && placeholder(segs, from) is None && from + 1 < segs.len()
            ==> labelled(segs, from)[1] == segs[from + 1],
        from < segs.len() && placeholder(segs, from) is Some ==> labelled(segs, from)[1]
            == placeholder(segs, from)->0,
    decreases segs.len() - from,
{
    if from < segs.len() {
        match placeholder(segs, from) {
            Some(_) => {
                labels_keep_the_segments(segs, from + 2);
            },
            None => {
                labels_keep_the_segments(segs, from + 1);
            },
        }
    }
}

/// A path is labelled segment by segment, with the slashes where they were.
pub proof fn paths_are_labelled_by_segment(segs: Seq<Seq<char>>)
    requires
        segs.len() > 0,
        forall|i: int| 0 <= i < segs.len() ==> !(#[trigger] segs[i]).contains('/'),
    ensures
        path_label(text::joined(segs, seq!['/'])) == text::joined(labelled(segs, 0), seq!['/']),
{
    reveal_strlit("/");
    assert("/"@ =~= seq!['/']);
    text::split_undoes_join(segs, '/');
}

/// A token stands behind the word `Bearer` and one blank; any other header brings none.
pub proof fn tokens_stand_behind_bearer(token: Seq<char>, header: Seq<char>)
    ensures
        token_in("Bearer "@ + token) == Some(token),
        !text::begins_with(header, "Bearer "@) ==> token_in(header) is None,
{
    let mark = "Bearer "@;
    let all = mark + token;
    assert(all.subrange(0, mark.len() as int) =~= mark);
    assert(all.skip(mark.len() as int) =~= token);
}

/// A request that may not do what it asks for is told so.
pub proof fn forbidden_requests_are_told()
    ensures
        forbidden() == (ErrorView {
            status: 403,
            error_type: "forbidden"@,
            reason: "insufficient permissions"@,
        }),
{
}

/// Every request passes only where no key, no token and no single key is set up.  A key of
/// the list decides before a token, and a token is looked at only where tokens are accepted.
pub proof fn credentials_decide_in_turn(config: AuthConfig, c: Credentials, key: Seq<char>)
    ensures
        config.open_to_all() ==> !config.keys@.contains_key(key) && !config.tokens
            && config.single_key is None,
        config.tokens || config.single_key is Some || config.keys@.contains_key(key)
            ==> !config.open_to_all(),
        config.knows_key(c) <==> c.api_key is Some && config.keys@.contains_key(c.api_key->0@),
        config.has_single_key(c) <==> c.api_key is Some && config.single_key is Some
            && c.api_key->0@ == config.single_key->0@,
        config.asks_for_token(c) ==> c.bearer_token is Some && config.tokens && !config.knows_key(
            c,
        ),
        c.bearer_token is Some && config.tokens && !config.knows_key(c) ==> config.asks_for_token(
            c,
        ),
{
}

/// A request may take thirty seconds, and responses are compressed from a kilobyte on.
pub proof fn requests_have_their_limits()
    ensures
        REQUEST_TIMEOUT_SECS == 30,
        COMPRESSION_MIN_SIZE == 1024,
{
}

} // verus!
