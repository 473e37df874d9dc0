//! User records and the query-and-mutation engine over them.

use vstd::prelude::*;

use crate::counting::{
    count_where, lemma_count_where_bounds, lemma_count_where_disjoint, lemma_count_where_push,
    lemma_id_exhaustion, lemma_where_seq_push, where_seq,
};
use crate::rng::random_u32;

verus! {

/// One persisted user record. The `id` is unique within a collection and
/// immutable after creation; `email` is a uniqueness-constrained field.
pub struct User {
    pub id: u32,
    pub name: String,
    pub email: String,
}

/// Mathematical model of a [`User`]: the id together with the character
/// sequences of its string fields.
pub ghost struct UserView {
    pub id: u32,
    pub name: Seq<char>,
    pub email: Seq<char>,
}

impl View for User {
    type V = UserView;

    open spec fn view(&self) -> UserView {
        UserView { id: self.id, name: self.name@, email: self.email@ }
    }
}

impl Clone for User {
    /// Cloning a record keeps it equal to the original.
    fn clone(&self) -> (r: Self)
        ensures
            r == *self,
    {
        let r = User { id: self.id, name: self.name.clone(), email: self.email.clone() };
        proof {
            assert(r == *self);
        }
        r
    }
}

impl PartialEq for User {
    /// Records compare equal exactly when all their fields do.
    fn eq(&self, other: &Self) -> (r: bool) {
        self.id == other.id && self.name == other.name && self.email == other.email
    }
}

impl vstd::std_specs::cmp::PartialEqSpecImpl for User {
    open spec fn obeys_eq_spec() -> bool {
        true
    }

    open spec fn eq_spec(&self, other: &Self) -> bool {
        self@ == other@
    }
}

/// The model of a whole collection: each record's model, in order.
pub open spec fn users_view(users: Seq<User>) -> Seq<UserView> {
    users.map_values(|u: User| u@)
}

/// A set of optional predicates locating user records: by id, by name,
/// and/or by email.
pub struct UserQuery {
    pub id: Option<u32>,
    pub name: Option<String>,
    pub email: Option<String>,
}

/// Mathematical model of a [`UserQuery`].
pub ghost struct UserQueryView {
    pub id: Option<u32>,
    pub name: Option<Seq<char>>,
    pub email: Option<Seq<char>>,
}

/// The character sequence held by an optional string.
pub open spec fn opt_str_view(s: Option<String>) -> Option<Seq<char>> {
    match s {
        Some(x) => Some(x@),
        None => None,
    }
}

impl View for UserQuery {
    type V = UserQueryView;

    open spec fn view(&self) -> UserQueryView {
        UserQueryView {
            id: self.id,
            name: opt_str_view(self.name),
            email: opt_str_view(self.email),
        }
    }
}

/// Does the query hold at least one predicate? Update, delete and targeted
/// listing demand this; its absence is a usage error.
pub open spec fn query_present(q: UserQueryView) -> bool {
    q.id is Some || q.name is Some || q.email is Some
}

/// The record's id satisfies the query's id predicate.
pub open spec fn id_matches(u: UserView, q: UserQueryView) -> bool {
    q.id matches Some(id) && u.id == id
}

/// The record's name satisfies the query's name predicate.
pub open spec fn name_matches(u: UserView, q: UserQueryView) -> bool {
    q.name matches Some(n) && u.name == n
}

/// The record's email satisfies the query's email predicate.
pub open spec fn email_matches(u: UserView, q: UserQueryView) -> bool {
    q.email matches Some(e) && u.email == e
}

/// The record satisfies at least one present predicate.
pub open spec fn query_matches(u: UserView, q: UserQueryView) -> bool {
    id_matches(u, q) || name_matches(u, q) || email_matches(u, q)
}

/// The record is counted under the id predicate: predicates are evaluated
/// in the fixed order id, name, email, and the first that matches claims
/// the record.
pub open spec fn counted_as_id(u: UserView, q: UserQueryView) -> bool {
    id_matches(u, q)
}

/// The record is counted under the name predicate (it did not already
/// match by id).
pub open spec fn counted_as_name(u: UserView, q: UserQueryView) -> bool {
    !id_matches(u, q) && name_matches(u, q)
}

/// The record is counted under the email predicate (it matched neither id
/// nor name).
pub open spec fn counted_as_email(u: UserView, q: UserQueryView) -> bool {
    !id_matches(u, q) && !name_matches(u, q) && email_matches(u, q)
}

/// How many records the query matches in all.
pub open spec fn total_match_count(users: Seq<UserView>, q: UserQueryView) -> int {
    count_where(users, |u: UserView| query_matches(u, q))
}

/// How many records are counted under the id predicate.
pub open spec fn id_match_count(users: Seq<UserView>, q: UserQueryView) -> int {
    count_where(users, |u: UserView| counted_as_id(u, q))
}

/// How many records are counted under the name predicate.
pub open spec fn name_match_count(users: Seq<UserView>, q: UserQueryView) -> int {
    count_where(users, |u: UserView| counted_as_name(u, q))
}

/// How many records are counted under the email predicate.
pub open spec fn email_match_count(users: Seq<UserView>, q: UserQueryView) -> int {
    count_where(users, |u: UserView| counted_as_email(u, q))
}

/// The matched records, in collection order.
pub open spec fn matching_users(users: Seq<UserView>, q: UserQueryView) -> Seq<UserView> {
    where_seq(users, |u: UserView| query_matches(u, q))
}

/// Each matched record is counted exactly once, under the first predicate
/// that matches it: the per-predicate counts partition the matched records.
pub proof fn lemma_match_counts_partition(users: Seq<UserView>, q: UserQueryView)
    ensures
        total_match_count(users, q) == id_match_count(users, q) + name_match_count(users, q)
            + email_match_count(users, q),
{
    let by_id = |u: UserView| counted_as_id(u, q);
    let by_name = |u: UserView| counted_as_name(u, q);
    let by_email = |u: UserView| counted_as_email(u, q);
    let by_id_or_name = |u: UserView| counted_as_id(u, q) || counted_as_name(u, q);
    let any = |u: UserView| query_matches(u, q);
    lemma_count_where_disjoint(users, by_id, by_name, by_id_or_name);
    lemma_count_where_disjoint(users, by_id_or_name, by_email, any);
}

/// Does some record in `users` carry the id `id`?
pub open spec fn spec_has_id(users: Seq<UserView>, id: u32) -> bool {
    exists|i: int| 0 <= i < users.len() && users[i].id == id
}

/// Does some record in `users` carry the email `email`?
pub open spec fn spec_has_email(users: Seq<UserView>, email: Seq<char>) -> bool {
    exists|i: int| 0 <= i < users.len() && users[i].email == email
}

/// Determines if the list of users contains a user with the given ID.
pub fn has_id(users: &Vec<User>, id: u32) -> (found: bool)
    ensures
        found == spec_has_id(users_view(users@), id),
{
    let ghost uv = users_view(users@);
    for k in 0..users.len()
        invariant
            uv == users_view(users@),
            forall|i: int| 0 <= i < k ==> uv[i].id != id,
    {
        if users[k].id == id {
            assert(uv[k as int].id == id);
            return true;
        }
    }
    false
}

/// Determines if the list of users contains a user with the given email
/// address.
pub fn has_email(users: &Vec<User>, email: &String) -> (found: bool)
    ensures
        found == spec_has_email(users_view(users@), email@),
{
    let ghost uv = users_view(users@);
    for k in 0..users.len()
        invariant
            uv == users_view(users@),
            forall|i: int| 0 <= i < k ==> uv[i].email != email@,
    {
        if users[k].email == *email {
            assert(uv[k as int].email == email@);
            return true;
        }
    }
    false
}

/// Generates an unused ID for a new user.
///
/// Ids are drawn uniformly from the whole unsigned 32-bit range and redrawn
/// on collision. Collisions are rare for any realistic collection, so the
/// retries are bounded; in the degenerate case that every draw collided,
/// the candidates `0 ..= len` are scanned, among which one id is always
/// free in a collection of at most `u32::MAX` records.
pub fn generate_valid_id(users: &Vec<User>) -> (id: u32)
    requires
        users@.len() <= u32::MAX as usize,
    ensures
        !spec_has_id(users_view(users@), id),
{
    let ghost uv = users_view(users@);
    let mut tries: u32 = 0;
    while tries < 64
        invariant
            uv == users_view(users@),
        decreases 64 - tries,
    {
        let id = random_u32();
        if !has_id(users, id) {
            return id;
        }
        tries = tries + 1;
    }
    let n = users.len();
    let mut k: usize = 0;
    while k < n
        invariant
            uv == users_view(users@),
            n == users@.len(),
            n <= u32::MAX as usize,
            k <= n,
            forall|c: int| 0 <= c < k ==> #[trigger] spec_has_id(uv, c as u32),
        decreases n - k,
    {
        if !has_id(users, k as u32) {
            return k as u32;
        }
        k = k + 1;
    }
    if !has_id(users, n as u32) {
        return n as u32;
    }
    proof {
        let ids = uv.map_values(|u: UserView| u.id as int);
        lemma_id_exhaustion(ids, n as int);
        let c = choose|c: int| 0 <= c <= n as int && !ids.contains(c);
        assert(spec_has_id(uv, c as u32));
        let w = choose|i: int| 0 <= i < uv.len() && uv[i].id == c as u32;
        assert(ids[w] == c);
        assert(false);
    }
    0
}

/// Error conditions of the engine's commands, following the shared error
/// taxonomy: absent query, no match, ambiguous match (with per-predicate
/// counts), uniqueness violation on create, operator cancellation, and the
/// never-expected internal invariant breach.
#[derive(Debug)]
pub enum UserCommandError {
    NoQueryProvided,
    NotFound,
    Ambiguous(MatchedQueries),
    DuplicateField,
    UserCancelled,
    InternalError,
}

/// Contains the number of matches for each query field.
#[derive(Debug)]
pub struct MatchedQueries {
    pub id: u32,
    pub name: u32,
    pub email: u32,
}

/// Error returned from `find_user`: either no record matched, or several
/// did, with the per-predicate match counts for diagnostics.
#[derive(Debug)]
pub enum FindError {
    NoUserFound,
    MultipleUsersFound(MatchedQueries),
}

/// The query matched exactly the record `u`, which sits in the collection.
pub open spec fn unique_match(uv: Seq<UserView>, qv: UserQueryView, u: UserView) -> bool {
    &&& total_match_count(uv, qv) == 1
    &&& query_matches(u, qv)
    &&& exists|i: int| 0 <= i < uv.len() && uv[i] == u
}

/// The counts carried by an ambiguous outcome are exactly the
/// per-predicate match counts of the scan.
pub open spec fn ambiguous_counts(uv: Seq<UserView>, qv: UserQueryView, m: MatchedQueries) -> bool {
    &&& total_match_count(uv, qv) > 1
    &&& m.id as int == id_match_count(uv, qv)
    &&& m.name as int == name_match_count(uv, qv)
    &&& m.email as int == email_match_count(uv, qv)
}

/// Finds the user matching the given query.
///
/// Every record is scanned once; the first present predicate that matches
/// a record claims it. The outcome classifies the number of matched
/// records: zero, exactly one (returned), or several (reported with the
/// per-predicate counts).
pub fn find_user<'a>(users: &'a Vec<User>, query: &UserQuery) -> (r: Result<&'a User, FindError>)
    requires
        users@.len() <= u32::MAX as usize,
    ensures
        match r {
            Ok(u) => unique_match(users_view(users@), query@, u@),
            Err(FindError::NoUserFound) => total_match_count(users_view(users@), query@) == 0,
            Err(FindError::MultipleUsersFound(m)) => ambiguous_counts(
                users_view(users@),
                query@,
                m,
            ),
        },
{
    let ghost uv = users_view(users@);
    let ghost qv = query@;
    let mut id_m: u32 = 0;
    let mut name_m: u32 = 0;
    let mut email_m: u32 = 0;
    let mut total: u32 = 0;
    let mut first: usize = 0;
    let mut found_any = false;
    for k in 0..users.len()
        invariant
            uv == users_view(users@),
            qv == query@,
            users@.len() <= u32::MAX as usize,
            id_m as int == id_match_count(uv.take(k as int), qv),
            name_m as int == name_match_count(uv.take(k as int), qv),
            email_m as int == email_match_count(uv.take(k as int), qv),
            total as int == total_match_count(uv.take(k as int), qv),
            found_any ==> first < k && query_matches(uv[first as int], qv),
            found_any == (total > 0),
    {
        proof {
            assert(uv.take(k as int + 1) =~= uv.take(k as int).push(uv[k as int]));
            lemma_count_where_push(uv.take(k as int), |u: UserView| query_matches(u, qv), uv[k as int]);
            lemma_count_where_push(uv.take(k as int), |u: UserView| counted_as_id(u, qv), uv[k as int]);
            lemma_count_where_push(uv.take(k as int), |u: UserView| counted_as_name(u, qv), uv[k as int]);
            lemma_count_where_push(uv.take(k as int), |u: UserView| counted_as_email(u, qv), uv[k as int]);
            lemma_count_where_bounds(uv.take(k as int), |u: UserView| query_matches(u, qv));
            lemma_count_where_bounds(uv.take(k as int), |u: UserView| counted_as_id(u, qv));
            lemma_count_where_bounds(uv.take(k as int), |u: UserView| counted_as_name(u, qv));
            lemma_count_where_bounds(uv.take(k as int), |u: UserView| counted_as_email(u, qv));
        }
        let u = &users[k];
        let mut matched = false;
        if let Some(qid) = query.id {
            if u.id == qid {
                id_m = id_m + 1;
                matched = true;
            }
        }
        if !matched {
            if let Some(qname) = &query.name {
                if u.name == *qname {
                    name_m = name_m + 1;
                    matched = true;
                }
            }
        }
        if !matched {
            if let Some(qemail) = &query.email {
                if u.email == *qemail {
                    email_m = email_m + 1;
                    matched = true;
                }
            }
        }
        assert(matched == query_matches(uv[k as int], qv));
        if matched {
            total = total + 1;
            if !found_any {
                first = k;
                found_any = true;
            }
        }
    }
    proof {
        assert(uv.take(users@.len() as int) =~= uv);
    }
    if total == 0 {
        return Err(FindError::NoUserFound);
    }
    if total > 1 {
        return Err(
            FindError::MultipleUsersFound(MatchedQueries { id: id_m, name: name_m, email: email_m }),
        );
    }
    Ok(&users[first])
}

/// Finds every user matching the given query, in collection order.
///
/// Listing never reports ambiguity: any record satisfying any present
/// predicate is returned, and only an empty result is an error.
pub fn find_users(users: &Vec<User>, user_query: &UserQuery) -> (r: Result<Vec<User>, FindError>)
    ensures
        match r {
            Ok(v) => users_view(v@) == matching_users(users_view(users@), user_query@)
                && v@.len() > 0,
            Err(e) => e == FindError::NoUserFound && matching_users(
                users_view(users@),
                user_query@,
            ).len() == 0,
        },
{
    let ghost uv = users_view(users@);
    let ghost qv = user_query@;
    let mut found_users: Vec<User> = Vec::new();
    for k in 0..users.len()
        invariant
            uv == users_view(users@),
            qv == user_query@,
            users_view(found_users@) == matching_users(uv.take(k as int), qv),
    {
        proof {
            assert(uv.take(k as int + 1) =~= uv.take(k as int).push(uv[k as int]));
            lemma_where_seq_push(uv.take(k as int), |u: UserView| query_matches(u, qv), uv[k as int]);
        }
        let u = &users[k];
        let mut matched = false;
        if let Some(qid) = user_query.id {
            if u.id == qid {
                matched = true;
            }
        }
        if !matched {
            if let Some(qname) = &user_query.name {
                if u.name == *qname {
                    matched = true;
                }
            }
        }
        if !matched {
            if let Some(qemail) = &user_query.email {
                if u.email == *qemail {
                    matched = true;
                }
            }
        }
        assert(matched == query_matches(uv[k as int], qv));
        if matched {
            found_users.push(u.clone());
            proof {
                assert(users_view(found_users@) =~= matching_users(uv.take(k as int + 1), qv));
            }
        } else {
            proof {
                assert(users_view(found_users@) =~= matching_users(uv.take(k as int + 1), qv));
            }
        }
    }
    proof {
        assert(uv.take(users@.len() as int) =~= uv);
    }
    if found_users.len() == 0 {
        proof {
            assert(users_view(found_users@).len() == 0);
        }
        return Err(FindError::NoUserFound);
    }
    proof {
        assert(users_view(found_users@).len() > 0);
    }
    Ok(found_users)
}

/// Clones an optional string, keeping its value.
pub(crate) fn clone_opt(s: &Option<String>) -> (r: Option<String>)
    ensures
        r == *s,
{
    match s {
        Some(x) => Some(x.clone()),
        None => None,
    }
}

/// Clones a whole collection, keeping its records.
fn clone_users(users: &Vec<User>) -> (r: Vec<User>)
    ensures
        r@ == users@,
{
    let mut out: Vec<User> = Vec::new();
    for k in 0..users.len()
        invariant
            out@ == users@.take(k as int),
    {
        out.push(users[k].clone());
        proof {
            assert(users@.take(k as int + 1) =~= users@.take(k as int).push(users@[k as int]));
        }
    }
    proof {
        assert(users@.take(users@.len() as int) =~= users@);
    }
    out
}

/// Re-locates a record in the collection by equality of its contents.
///
/// Once a unique match is resolved, mutation must address the record by
/// identity rather than by re-running the query, since record equality,
/// not array position, determines the slot to modify.
fn position_of_user(users: &Vec<User>, target: &User) -> (r: Option<usize>)
    ensures
        match r {
            Some(i) => i < users@.len() && users@[i as int]@ == target@,
            None => forall|i: int| 0 <= i < users@.len() ==> users@[i]@ != target@,
        },
{
    for k in 0..users.len()
        invariant
            forall|i: int| 0 <= i < k ==> users@[i]@ != target@,
    {
        if users[k] == *target {
            return Some(k);
        }
    }
    None
}

/// The fields a new user is created from; the id is assigned by the engine.
pub struct CreateUser {
    pub name: String,
    pub email: String,
}

/// What `create_user` guarantees: a duplicate email is rejected without any
/// change, and otherwise the record is appended with a fresh id.
pub open spec fn create_user_post(
    pre: Seq<UserView>,
    post: Seq<UserView>,
    name: Seq<char>,
    email: Seq<char>,
    r: Result<User, UserCommandError>,
) -> bool {
    if spec_has_email(pre, email) {
        &&& r matches Err(UserCommandError::DuplicateField)
        &&& post == pre
    } else {
        &&& r matches Ok(u) && u@.name == name && u@.email == email && !spec_has_id(pre, u@.id)
            && post == pre.push(u@)
    }
}

/// Handles the creation of a new user.
///
/// The email is a uniqueness-constrained field: creation fails with
/// `DuplicateField`, and the collection is left untouched, whenever some
/// record already carries it. Otherwise the record is appended under a
/// freshly generated id and returned, so the caller can report the id.
pub fn create_user(users: &mut Vec<User>, create: CreateUser) -> (r: Result<
    User,
    UserCommandError,
>)
    requires
        old(users)@.len() <= u32::MAX as usize,
    ensures
        create_user_post(
            users_view(old(users)@),
            users_view(final(users)@),
            create.name@,
            create.email@,
            r,
        ),
{
    if has_email(users, &create.email) {
        return Err(UserCommandError::DuplicateField);
    }
    let id = generate_valid_id(users);
    let user = User { id, name: create.name, email: create.email };
    users.push(user.clone());
    proof {
        assert(users_view(users@) =~= users_view(old(users)@).push(user@));
    }
    Ok(user)
}

/// The query locating the user to update, and the optional new values of
/// its mutable fields; fields left unset are not touched.
pub struct UpdateUser {
    pub query_id: Option<u32>,
    pub query_name: Option<String>,
    pub query_email: Option<String>,
    pub new_name: Option<String>,
    pub new_email: Option<String>,
}

impl UpdateUser {
    /// The query part of the update arguments.
    pub open spec fn spec_query(&self) -> UserQueryView {
        UserQueryView {
            id: self.query_id,
            name: opt_str_view(self.query_name),
            email: opt_str_view(self.query_email),
        }
    }
}

/// The record as it stood before the mutation and as it stands after, for
/// diff reporting.
pub struct UserUpdateReport {
    pub before: User,
    pub after: User,
}

/// The record `u` after a sparse update: each provided field is replaced,
/// each absent field keeps its prior value, and the id never changes.
pub open spec fn updated_user(
    u: UserView,
    new_name: Option<Seq<char>>,
    new_email: Option<Seq<char>>,
) -> UserView {
    UserView {
        id: u.id,
        name: match new_name {
            Some(n) => n,
            None => u.name,
        },
        email: match new_email {
            Some(e) => e,
            None => u.email,
        },
    }
}

/// What `update_user` guarantees, case by case over the query's outcome.
pub open spec fn update_user_post(
    pre: Seq<UserView>,
    post: Seq<UserView>,
    update: UpdateUser,
    r: Result<UserUpdateReport, UserCommandError>,
) -> bool {
    let q = update.spec_query();
    if !query_present(q) {
        &&& r matches Err(UserCommandError::NoQueryProvided)
        &&& post == pre
    } else if total_match_count(pre, q) == 0 {
        &&& r matches Err(UserCommandError::NotFound)
        &&& post == pre
    } else if total_match_count(pre, q) > 1 {
        &&& r matches Err(UserCommandError::Ambiguous(m)) && ambiguous_counts(pre, q, m)
        &&& post == pre
    } else {
        r matches Ok(rep) && exists|i: int|
            {
                &&& 0 <= i < pre.len()
                &&& #[trigger] query_matches(pre[i], q)
                &&& rep.before@ == pre[i]
                &&& rep.after@ == updated_user(
                    pre[i],
                    opt_str_view(update.new_name),
                    opt_str_view(update.new_email),
                )
                &&& post == pre.update(i, rep.after@)
            }
    }
}

/// Handles the updating of an existing user.
///
/// A non-empty query is required; it must resolve to exactly one record,
/// or the operation aborts with no mutation. On a unique match the record
/// is re-located by identity, each provided new value is applied to it
/// (fields left unset keep their prior values), and the before/after
/// snapshot is returned for diff reporting.
pub fn update_user(users: &mut Vec<User>, update: &UpdateUser) -> (r: Result<
    UserUpdateReport,
    UserCommandError,
>)
    requires
        old(users)@.len() <= u32::MAX as usize,
    ensures
        update_user_post(users_view(old(users)@), users_view(final(users)@), *update, r),
{
    let ghost uv = users_view(users@);
    let ghost qv = update.spec_query();
    if update.query_id.is_none() && update.query_name.is_none() && update.query_email.is_none() {
        return Err(UserCommandError::NoQueryProvided);
    }
    let user_query = UserQuery {
        id: update.query_id,
        name: clone_opt(&update.query_name),
        email: clone_opt(&update.query_email),
    };
    let target = match find_user(users, &user_query) {
        Ok(found) => found.clone(),
        Err(FindError::NoUserFound) => {
            return Err(UserCommandError::NotFound);
        },
        Err(FindError::MultipleUsersFound(m)) => {
            return Err(UserCommandError::Ambiguous(m));
        },
    };
    let ghost w = choose|i: int| 0 <= i < uv.len() && uv[i] == target@;
    // A resolved match can always be re-located; the unreachable branch
    // still fails loudly rather than risking a silent corruption.
    let j = match position_of_user(users, &target) {
        Some(j) => j,
        None => {
            proof {
                assert(users@[w]@ != target@);
                assert(false);
            }
            return Err(UserCommandError::InternalError);
        },
    };
    let before = users[j].clone();
    let new_name = match &update.new_name {
        Some(n) => n.clone(),
        None => before.name.clone(),
    };
    let new_email = match &update.new_email {
        Some(e) => e.clone(),
        None => before.email.clone(),
    };
    let after = User { id: before.id, name: new_name, email: new_email };
    let _ = users.remove(j);
    users.insert(j, after.clone());
    proof {
        assert(users_view(users@) =~= uv.update(j as int, after@));
        assert(query_matches(uv[j as int], qv));
    }
    Ok(UserUpdateReport { before, after })
}

/// What `delete_user` guarantees, case by case over the query's outcome
/// and the confirmation gate's answer.
pub open spec fn delete_user_post(
    pre: Seq<UserView>,
    post: Seq<UserView>,
    q: UserQueryView,
    approve: bool,
    r: Result<User, UserCommandError>,
) -> bool {
    if !query_present(q) {
        &&& r matches Err(UserCommandError::NoQueryProvided)
        &&& post == pre
    } else if total_match_count(pre, q) == 0 {
        &&& r matches Err(UserCommandError::NotFound)
        &&& post == pre
    } else if total_match_count(pre, q) > 1 {
        &&& r matches Err(UserCommandError::Ambiguous(m)) && ambiguous_counts(pre, q, m)
        &&& post == pre
    } else if !approve {
        &&& r matches Err(UserCommandError::UserCancelled)
        &&& post == pre
    } else {
        r matches Ok(u) && exists|i: int|
            {
                &&& 0 <= i < pre.len()
                &&& #[trigger] query_matches(pre[i], q)
                &&& u@ == pre[i]
                &&& post == pre.remove(i)
            }
    }
}

/// Handles the deletion of an existing user.
///
/// A non-empty query is required and must resolve to exactly one record.
/// Deletion is destructive, so it is always gated on the confirmation
/// answer `approve`: a declined gate cancels the operation with no
/// mutation. On approval the record is re-located by identity, removed,
/// and returned.
pub fn delete_user(users: &mut Vec<User>, user_query: &UserQuery, approve: bool) -> (r: Result<
    User,
    UserCommandError,
>)
    requires
        old(users)@.len() <= u32::MAX as usize,
    ensures
        delete_user_post(users_view(old(users)@), users_view(final(users)@), user_query@, approve, r),
{
    let ghost uv = users_view(users@);
    let ghost qv = user_query@;
    if user_query.id.is_none() && user_query.name.is_none() && user_query.email.is_none() {
        return Err(UserCommandError::NoQueryProvided);
    }
    let target = match find_user(users, user_query) {
        Ok(found) => found.clone(),
        Err(FindError::NoUserFound) => {
            return Err(UserCommandError::NotFound);
        },
        Err(FindError::MultipleUsersFound(m)) => {
            return Err(UserCommandError::Ambiguous(m));
        },
    };
    if !approve {
        return Err(UserCommandError::UserCancelled);
    }
    let ghost w = choose|i: int| 0 <= i < uv.len() && uv[i] == target@;
    // A resolved match can always be re-located; the unreachable branch
    // still fails loudly rather than risking a silent corruption.
    let j = match position_of_user(users, &target) {
        Some(j) => j,
        None => {
            proof {
                assert(users@[w]@ != target@);
                assert(false);
            }
            return Err(UserCommandError::InternalError);
        },
    };
    let removed = users.remove(j);
    proof {
        assert(users_view(users@) =~= uv.remove(j as int));
        assert(query_matches(uv[j as int], qv));
    }
    Ok(removed)
}

/// The arguments of a listing: either every record, or those matching a
/// non-empty query.
pub struct ShowUser {
    pub all: bool,
    pub id: Option<u32>,
    pub name: Option<String>,
    pub email: Option<String>,
}

impl ShowUser {
    /// The query part of the listing arguments.
    pub open spec fn spec_query(&self) -> UserQueryView {
        UserQueryView { id: self.id, name: opt_str_view(self.name), email: opt_str_view(self.email) }
    }
}

/// What `list_users` guarantees: all records in list-all mode, the matched
/// records otherwise, and never a mutation.
pub open spec fn list_users_post(
    pre: Seq<UserView>,
    show: ShowUser,
    r: Result<Vec<User>, UserCommandError>,
) -> bool {
    if show.all {
        r matches Ok(v) && users_view(v@) == pre
    } else if !query_present(show.spec_query()) {
        r matches Err(UserCommandError::NoQueryProvided)
    } else if matching_users(pre, show.spec_query()).len() == 0 {
        r matches Err(UserCommandError::NotFound)
    } else {
        r matches Ok(v) && users_view(v@) == matching_users(pre, show.spec_query())
    }
}

/// Handles the listing of users: every record in list-all mode, otherwise
/// the records matching the given non-empty query. Listing never mutates
/// the collection.
pub fn list_users(users: &Vec<User>, show_user: &ShowUser) -> (r: Result<
    Vec<User>,
    UserCommandError,
>)
    ensures
        list_users_post(users_view(users@), *show_user, r),
{
    if show_user.all {
        return Ok(clone_users(users));
    }
    if show_user.id.is_none() && show_user.name.is_none() && show_user.email.is_none() {
        return Err(UserCommandError::NoQueryProvided);
    }
    let user_query = UserQuery {
        id: show_user.id,
        name: clone_opt(&show_user.name),
        email: clone_opt(&show_user.email),
    };
    match find_users(users, &user_query) {
        Ok(found) => Ok(found),
        Err(FindError::NoUserFound) => Err(UserCommandError::NotFound),
        Err(FindError::MultipleUsersFound(_)) => Err(UserCommandError::NotFound),
    }
}

/// No two records of the collection share an id.
pub open spec fn ids_unique(users: Seq<UserView>) -> bool {
    forall|i: int, j: int| 0 <= i < j < users.len() ==> users[i].id != users[j].id
}

/// No two records of the collection share an email.
pub open spec fn emails_unique(users: Seq<UserView>) -> bool {
    forall|i: int, j: int| 0 <= i < j < users.len() ==> users[i].email != users[j].email
}

/// Appending a record whose id no existing record carries keeps the ids
/// pairwise distinct: over any number of creations into an initially
/// empty collection, the generated ids never collide.
pub proof fn lemma_fresh_id_preserves_unique_ids(users: Seq<UserView>, u: UserView)
    requires
        ids_unique(users),
        !spec_has_id(users, u.id),
    ensures
        ids_unique(users.push(u)),
{
    let post = users.push(u);
    assert forall|i: int, j: int| 0 <= i < j < post.len() implies post[i].id != post[j].id by {
        if j == users.len() {
            if post[i].id == post[j].id {
                assert(users[i].id == u.id);
                assert(spec_has_id(users, u.id));
            }
        }
    }
}

/// A sparse update never changes a record's id, so it keeps the ids
/// pairwise distinct.
pub proof fn lemma_update_keeps_unique_ids(users: Seq<UserView>, i: int, after: UserView)
    requires
        ids_unique(users),
        0 <= i < users.len(),
        after.id == users[i].id,
    ensures
        ids_unique(users.update(i, after)),
{
}

/// Removing a record keeps the remaining ids pairwise distinct.
pub proof fn lemma_remove_keeps_unique_ids(users: Seq<UserView>, i: int)
    requires
        ids_unique(users),
        0 <= i < users.len(),
    ensures
        ids_unique(users.remove(i)),
{
    let post = users.remove(i);
    assert forall|a: int, b: int| 0 <= a < b < post.len() implies post[a].id != post[b].id by {
        let a0 = if a < i { a } else { a + 1 };
        let b0 = if b < i { b } else { b + 1 };
        assert(post[a] == users[a0] && post[b] == users[b0]);
    }
}

/// Appending a record whose email no existing record carries keeps the
/// emails pairwise distinct: creation upholds the uniqueness constraint.
pub proof fn lemma_fresh_email_preserves_unique_emails(users: Seq<UserView>, u: UserView)
    requires
        emails_unique(users),
        !spec_has_email(users, u.email),
    ensures
        emails_unique(users.push(u)),
{
    let post = users.push(u);
    assert forall|i: int, j: int| 0 <= i < j < post.len() implies post[i].email != post[j].email by {
        if j == users.len() {
            if post[i].email == post[j].email {
                assert(users[i].email == u.email);
                assert(spec_has_email(users, u.email));
            }
        }
    }
}

} // verus!
