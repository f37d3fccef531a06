//! The accounts and the projects, and the only ways to reach them.
//!
//! Ids are handed out in order, starting at 1, and nothing is ever deleted:
//! the record with id `n` is the `n`-th that was stored.

use vstd::prelude::*;
use vstd::utf8::encode_utf8;
use crate::models::{Failure, Project, ProjectView, User, UserView};
use crate::text::{blank, bytes_before, is_blank, rank, Rank};
use crate::text::{lemma_bytes_asymmetric, lemma_bytes_total, lemma_bytes_transitive};

verus! {

/// A stored account.
struct Account {
    id: i64,
    username: String,
    password_hash: String,
}

/// What a stored account is in contracts.
pub struct AccountView {
    pub id: int,
    pub username: Seq<char>,
    pub password_hash: Seq<char>,
}

impl View for Account {
    type V = AccountView;

    closed spec fn view(&self) -> AccountView {
        AccountView {
            id: self.id as int,
            username: self.username@,
            password_hash: self.password_hash@,
        }
    }
}

/// What a [`Database`] holds, oldest record first.
pub struct DatabaseView {
    pub users: Seq<AccountView>,
    pub projects: Seq<ProjectView>,
}

/// The largest id that can be handed out.
pub open spec fn max_id() -> int {
    i64::MAX as int
}

/// Whether the account `name` exists.
pub open spec fn has_username(v: DatabaseView, name: Seq<char>) -> bool {
    exists|i: int| 0 <= i < v.users.len() && #[trigger] v.users[i].username == name
}

/// The position of the account `name`, if it exists.
pub open spec fn position_of(v: DatabaseView, name: Seq<char>) -> int {
    choose|i: int| 0 <= i < v.users.len() && #[trigger] v.users[i].username == name
}

/// Whether `id` is the id of an account.
pub open spec fn has_user(v: DatabaseView, id: int) -> bool {
    1 <= id <= v.users.len()
}

/// The rules that every database keeps: ids count up from 1, no two accounts
/// share a username, and every project belongs to an account.
pub open spec fn valid(v: DatabaseView) -> bool {
    &&& v.users.len() <= max_id()
    &&& v.projects.len() <= max_id()
    &&& forall|i: int| 0 <= i < v.users.len() ==> (#[trigger] v.users[i]).id == i + 1
    &&& forall|i: int| 0 <= i < v.projects.len() ==> (#[trigger] v.projects[i]).id == i + 1
    &&& forall|i: int, j: int|
        0 <= i < j < v.users.len() ==> (#[trigger] v.users[i]).username != (
        #[trigger] v.users[j]).username
    &&& forall|i: int|
        0 <= i < v.projects.len() ==> has_user(v, (#[trigger] v.projects[i]).user_id)
}

/// What [`create_user`] leaves and returns.
pub open spec fn created_user(v: DatabaseView, name: Seq<char>, hash: Seq<char>) -> (
    DatabaseView,
    Result<i64, Failure>,
) {
    if has_username(v, name) {
        (v, Err(Failure::DuplicateUsername))
    } else if v.users.len() >= max_id() {
        (v, Err(Failure::Persistence))
    } else {
        (
            DatabaseView {
                users: v.users.push(
                    AccountView {
                        id: v.users.len() as int + 1,
                        username: name,
                        password_hash: hash,
                    },
                ),
                projects: v.projects,
            },
            Ok((v.users.len() + 1) as i64),
        )
    }
}

/// What [`get_user_by_username`] returns.
pub open spec fn found_user(v: DatabaseView, name: Seq<char>) -> Result<UserView, Failure> {
    if has_username(v, name) {
        Ok(UserView { id: position_of(v, name) + 1, username: name })
    } else {
        Err(Failure::NotFound)
    }
}

/// What [`get_password_hash`] returns.
pub open spec fn stored_hash(v: DatabaseView, id: int) -> Result<Seq<char>, Failure> {
    if has_user(v, id) {
        Ok(v.users[id - 1].password_hash)
    } else {
        Err(Failure::NotFound)
    }
}

/// The text behind an optional field.
pub open spec fn text_of(field: Option<&str>) -> Option<Seq<char>> {
    match field {
        Some(t) => Some(t@),
        None => None,
    }
}

/// The description that is stored for the one given: a blank one counts as
/// none.
pub open spec fn kept_description(given: Option<Seq<char>>) -> Option<Seq<char>> {
    match given {
        Some(d) => if is_blank(d) {
            None
        } else {
            Some(d)
        },
        None => None,
    }
}

/// What [`create_project`] leaves and returns.
pub open spec fn created_project(
    v: DatabaseView,
    owner: int,
    name: Seq<char>,
    description: Option<Seq<char>>,
    created_at: Seq<char>,
) -> (DatabaseView, Result<i64, Failure>) {
    if is_blank(name) {
        (v, Err(Failure::Validation))
    } else if !has_user(v, owner) || v.projects.len() >= max_id() {
        (v, Err(Failure::Persistence))
    } else {
        (
            DatabaseView {
                users: v.users,
                projects: v.projects.push(
                    ProjectView {
                        id: v.projects.len() as int + 1,
                        user_id: owner,
                        name: name,
                        description: kept_description(description),
                        created_at: created_at,
                    },
                ),
            },
            Ok((v.projects.len() + 1) as i64),
        )
    }
}

/// Whether `a` stands before `b` in a listing: the later timestamp first, and
/// of two projects with one timestamp the one stored later.
pub open spec fn listed_before(a: ProjectView, b: ProjectView) -> bool {
    let ta = encode_utf8(a.created_at);
    let tb = encode_utf8(b.created_at);
    bytes_before(tb, ta) || (ta == tb && a.id > b.id)
}

/// Whether `out` lists, in order, those of the first `upto` projects that
/// belong to `owner`.
pub open spec fn lists_upto(v: DatabaseView, owner: int, out: Seq<ProjectView>, upto: int) -> bool {
    &&& forall|i: int|
        0 <= i < out.len() ==> {
            &&& (#[trigger] out[i]).user_id == owner
            &&& 1 <= out[i].id <= upto
            &&& v.projects[out[i].id - 1] == out[i]
        }
    &&& forall|k: int|
        0 <= k < upto && (#[trigger] v.projects[k]).user_id == owner ==> exists|i: int|
            0 <= i < out.len() && (#[trigger] out[i]).id == k + 1
    &&& forall|i: int, j: int|
        0 <= i < j < out.len() ==> listed_before(#[trigger] out[i], #[trigger] out[j])
}

/// Whether `out` is the listing of `owner`'s projects: each of them once, no
/// project of anybody else, the most recent first.
pub open spec fn is_listing(v: DatabaseView, owner: int, out: Seq<ProjectView>) -> bool {
    lists_upto(v, owner, out, v.projects.len() as int)
}

/// The projects of a vector as contracts see them.
pub open spec fn project_views(projects: Seq<Project>) -> Seq<ProjectView> {
    Seq::new(projects.len(), |i: int| projects[i]@)
}

/// The accounts and the projects.
pub struct Database {
    users: Vec<Account>,
    projects: Vec<Project>,
}

impl View for Database {
    type V = DatabaseView;

    closed spec fn view(&self) -> DatabaseView {
        DatabaseView {
            users: Seq::new(self.users@.len(), |i: int| self.users@[i]@),
            projects: Seq::new(self.projects@.len(), |i: int| self.projects@[i]@),
        }
    }
}

impl Database {
    /// Whether the database keeps its rules.
    pub open spec fn wf(&self) -> bool {
        valid(self@)
    }

    /// A database without accounts and projects.
    pub fn new() -> (db: Database)
        ensures
            db.wf(),
            db@.users.len() == 0,
            db@.projects.len() == 0,
    {
        Database { users: Vec::new(), projects: Vec::new() }
    }

    /// The position of the account `name`.
    fn find(&self, name: &String) -> (at: Option<usize>)
        requires
            self.wf(),
        ensures
            at is Some <==> has_username(self@, name@),
            at is Some ==> at->0 == position_of(self@, name@) && at->0 < self.users.len(),
    {
        let mut i: usize = 0;
        while i < self.users.len()
            invariant
                i <= self.users.len(),
                self.wf(),
                forall|j: int| 0 <= j < i ==> (#[trigger] self@.users[j]).username != name@,
            decreases self.users.len() - i,
        {
            if self.users[i].username == *name {
                proof {
                    assert(self@.users[i as int].username == name@);
                    let w = position_of(self@, name@);
                    if w < i {
                        assert(self@.users[w].username != self@.users[i as int].username);
                    } else if i < w {
                        assert(self@.users[i as int].username != self@.users[w].username);
                    }
                }
                return Some(i);
            }
            i = i + 1;
        }
        None
    }
}

/// Stores a new account and returns its id. A username can be taken once: the
/// second account of that name is refused, and the database stays as it was.
pub fn create_user(db: &mut Database, username: &str, password_hash: &str) -> (r: Result<
    i64,
    Failure,
>)
    requires
        old(db).wf(),
    ensures
        final(db).wf(),
        (final(db)@, r) == created_user(old(db)@, username@, password_hash@),
{
    let name = username.to_owned();
    if db.find(&name).is_some() {
        return Err(Failure::DuplicateUsername);
    }
    let n = db.users.len();
    if n as u64 >= i64::MAX as u64 {
        return Err(Failure::Persistence);
    }
    let id: i64 = (n as u64 + 1) as i64;
    let ghost before = db@;
    db.users.push(Account { id, username: name, password_hash: password_hash.to_owned() });
    proof {
        let after = created_user(before, username@, password_hash@).0;
        assert(db@.users =~= after.users);
        assert(db@.projects =~= after.projects);
        assert forall|i: int, j: int| 0 <= i < j < db@.users.len() implies (
        #[trigger] db@.users[i]).username != (#[trigger] db@.users[j]).username by {
            if j == n {
                assert(before.users[i].username != username@);
            } else {
                assert(before.users[i].username != before.users[j].username);
            }
        }
        assert forall|i: int| 0 <= i < db@.projects.len() implies has_user(
            db@,
            (#[trigger] db@.projects[i]).user_id,
        ) by {
            assert(has_user(before, before.projects[i].user_id));
        }
    }
    Ok(id)
}

/// Looks an account up by its username.
pub fn get_user_by_username(db: &Database, username: &str) -> (r: Result<User, Failure>)
    requires
        db.wf(),
    ensures
        match r {
            Ok(user) => Ok::<UserView, Failure>(user@) == found_user(db@, username@),
            Err(e) => Err::<UserView, Failure>(e) == found_user(db@, username@),
        },
{
    let name = username.to_owned();
    match db.find(&name) {
        Some(i) => Ok(User { id: db.users[i].id, username: name }),
        None => Err(Failure::NotFound),
    }
}

/// The password hash that is stored for the account `user_id`.
pub fn get_password_hash(db: &Database, user_id: i64) -> (r: Result<String, Failure>)
    requires
        db.wf(),
    ensures
        match r {
            Ok(hash) => Ok::<Seq<char>, Failure>(hash@) == stored_hash(db@, user_id as int),
            Err(e) => Err::<Seq<char>, Failure>(e) == stored_hash(db@, user_id as int),
        },
{
    if user_id < 1 || user_id as u64 > db.users.len() as u64 {
        return Err(Failure::NotFound);
    }
    let i = (user_id - 1) as usize;
    assert(db@.users[i as int] == db.users@[i as int]@);
    Ok(db.users[i].password_hash.clone())
}

/// Stores a new project of the account `user_id` and returns its id. The name
/// must not be blank; a blank description is stored as none. The owner must be
/// an account.
pub fn create_project(
    db: &mut Database,
    user_id: i64,
    name: &str,
    desc: Option<&str>,
    created_at: &str,
) -> (r: Result<i64, Failure>)
    requires
        old(db).wf(),
    ensures
        final(db).wf(),
        (final(db)@, r) == created_project(
            old(db)@,
            user_id as int,
            name@,
            text_of(desc),
            created_at@,
        ),
{
    if blank(name) {
        return Err(Failure::Validation);
    }
    let n = db.projects.len();
    if user_id < 1 || user_id as u64 > db.users.len() as u64 || n as u64 >= i64::MAX as u64 {
        return Err(Failure::Persistence);
    }
    let description = match desc {
        Some(d) => if blank(d) {
            None
        } else {
            Some(d.to_owned())
        },
        None => None,
    };
    let id: i64 = (n as u64 + 1) as i64;
    let ghost before = db@;
    let project = Project {
        id,
        user_id,
        name: name.to_owned(),
        description,
        created_at: created_at.to_owned(),
    };
    db.projects.push(project);
    proof {
        let after = created_project(
            before,
            user_id as int,
            name@,
            text_of(desc),
            created_at@,
        ).0;
        assert(db@.users =~= after.users);
        assert(db@.projects =~= after.projects);
        assert forall|i: int| 0 <= i < db@.projects.len() implies has_user(
            db@,
            (#[trigger] db@.projects[i]).user_id,
        ) by {
            if i < n {
                assert(has_user(before, before.projects[i].user_id));
            }
        }
    }
    Ok(id)
}

/// The order of a listing is transitive.
pub proof fn lemma_listed_before_transitive(a: ProjectView, b: ProjectView, c: ProjectView)
    requires
        listed_before(a, b),
        listed_before(b, c),
    ensures
        listed_before(a, c),
{
    let ta = encode_utf8(a.created_at);
    let tb = encode_utf8(b.created_at);
    let tc = encode_utf8(c.created_at);
    if bytes_before(tc, tb) && bytes_before(tb, ta) {
        lemma_bytes_transitive(tc, tb, ta);
    }
}

/// Of two projects with different ids, one is listed before the other.
pub proof fn lemma_listed_before_total(a: ProjectView, b: ProjectView)
    requires
        a.id != b.id,
    ensures
        listed_before(a, b) != listed_before(b, a),
{
    let ta = encode_utf8(a.created_at);
    let tb = encode_utf8(b.created_at);
    lemma_bytes_total(ta, tb);
    lemma_bytes_asymmetric(ta, tb);
}

/// Tells whether `a` is listed before `b`.
fn goes_before(a: &Project, b: &Project) -> (r: bool)
    ensures
        r == listed_before(a@, b@),
{
    let ta = a.created_at.as_str().as_bytes();
    let tb = b.created_at.as_str().as_bytes();
    proof {
        lemma_bytes_asymmetric(tb@, ta@);
    }
    match rank(tb, ta) {
        Rank::Before => true,
        Rank::Same => a.id > b.id,
        Rank::After => false,
    }
}

/// Where `p` belongs in the ordered listing `out`.
fn place_of(out: &Vec<Project>, p: &Project) -> (at: usize)
    requires
        forall|j: int| 0 <= j < out.len() ==> (#[trigger] out[j]).id != p.id,
        forall|i: int, j: int|
            0 <= i < j < out.len() ==> listed_before((#[trigger] out[i])@, (#[trigger] out[j])@),
    ensures
        at <= out.len(),
        forall|j: int| 0 <= j < at ==> listed_before((#[trigger] out[j])@, p@),
        forall|j: int| at <= j < out.len() ==> listed_before(p@, (#[trigger] out[j])@),
{
    let mut at: usize = 0;
    while at < out.len()
        invariant
            at <= out.len(),
            forall|j: int| 0 <= j < out.len() ==> (#[trigger] out[j]).id != p.id,
            forall|i: int, j: int|
                0 <= i < j < out.len() ==> listed_before(
                    (#[trigger] out[i])@,
                    (#[trigger] out[j])@,
                ),
            forall|j: int| 0 <= j < at ==> listed_before((#[trigger] out[j])@, p@),
        decreases out.len() - at,
    {
        if goes_before(p, &out[at]) {
            proof {
                assert forall|j: int| at <= j < out.len() implies listed_before(
                    p@,
                    (#[trigger] out[j])@,
                ) by {
                    if at < j {
                        assert(listed_before(out[at as int]@, out[j]@));
                        lemma_listed_before_transitive(p@, out[at as int]@, out[j]@);
                    }
                }
            }
            return at;
        }
        proof {
            assert(out[at as int].id != p.id);
            lemma_listed_before_total(p@, out[at as int]@);
        }
        at = at + 1;
    }
    at
}

/// The projects of the account `user_id`, the most recent first. An account
/// without projects, and an id that no account has, give the empty listing.
pub fn get_projects_for_user(db: &Database, user_id: i64) -> (out: Vec<Project>)
    requires
        db.wf(),
    ensures
        is_listing(db@, user_id as int, project_views(out@)),
{
    let mut out: Vec<Project> = Vec::new();
    let mut k: usize = 0;
    while k < db.projects.len()
        invariant
            k <= db.projects.len(),
            db.wf(),
            lists_upto(db@, user_id as int, project_views(out@), k as int),
        decreases db.projects.len() - k,
    {
        let ghost owner = user_id as int;
        let ghost old_views = project_views(out@);
        assert(db@.projects[k as int] == db.projects@[k as int]@);
        if db.projects[k].user_id == user_id {
            let p = db.projects[k].duplicate();
            proof {
                assert forall|j: int| 0 <= j < out.len() implies (#[trigger] out[j]).id
                    != p.id by {
                    assert(old_views[j].id <= k);
                }
                assert forall|i: int, j: int| 0 <= i < j < out.len() implies listed_before(
                    (#[trigger] out[i])@,
                    (#[trigger] out[j])@,
                ) by {
                    assert(listed_before(old_views[i], old_views[j]));
                }
            }
            let at = place_of(&out, &p);
            let ghost pv = p@;
            proof {
                assert forall|j: int| 0 <= j < at implies listed_before(
                    #[trigger] old_views[j],
                    pv,
                ) by {
                    assert(listed_before(out[j]@, pv));
                }
                assert forall|j: int| at <= j < old_views.len() implies listed_before(
                    pv,
                    #[trigger] old_views[j],
                ) by {
                    assert(listed_before(pv, out[j]@));
                }
            }
            out.insert(at, p);
            proof {
                let new_views = project_views(out@);
                assert(new_views =~= old_views.insert(at as int, pv));
                lemma_insert_keeps_listing(db@, owner, old_views, k as int, at as int, pv);
            }
        } else {
            proof {
                assert forall|i: int| 0 <= i < old_views.len() implies 1 <= (
                #[trigger] old_views[i]).id <= k + 1 by {}
            }
        }
        k = k + 1;
    }
    out
}

/// Putting the next project of `owner` at its place extends a listing by it.
proof fn lemma_insert_keeps_listing(
    v: DatabaseView,
    owner: int,
    out: Seq<ProjectView>,
    k: int,
    at: int,
    p: ProjectView,
)
    requires
        valid(v),
        0 <= k < v.projects.len(),
        lists_upto(v, owner, out, k),
        p == v.projects[k],
        p.user_id == owner,
        0 <= at <= out.len(),
        forall|j: int| 0 <= j < at ==> listed_before(#[trigger] out[j], p),
        forall|j: int| at <= j < out.len() ==> listed_before(p, #[trigger] out[j]),
    ensures
        lists_upto(v, owner, out.insert(at, p), k + 1),
{
    let new = out.insert(at, p);
    assert forall|i: int| 0 <= i < new.len() implies {
        &&& (#[trigger] new[i]).user_id == owner
        &&& 1 <= new[i].id <= k + 1
        &&& v.projects[new[i].id - 1] == new[i]
    } by {
        if i < at {
            assert(new[i] == out[i]);
        } else if i > at {
            assert(new[i] == out[i - 1]);
        }
    }
    assert forall|m: int| 0 <= m < k + 1 && (#[trigger] v.projects[m]).user_id
        == owner implies exists|i: int| 0 <= i < new.len() && (#[trigger] new[i]).id == m + 1 by {
        if m == k {
            assert(new[at].id == m + 1);
        } else {
            let w = choose|i: int| 0 <= i < out.len() && (#[trigger] out[i]).id == m + 1;
            if w < at {
                assert(new[w].id == m + 1);
            } else {
                assert(new[w + 1] == out[w]);
                assert(new[w + 1].id == m + 1);
            }
        }
    }
    assert forall|i: int, j: int| 0 <= i < j < new.len() implies listed_before(
        #[trigger] new[i],
        #[trigger] new[j],
    ) by {
        let oi = if i < at { i } else { i - 1 };
        let oj = if j < at { j } else { j - 1 };
        if i == at {
            assert(new[j] == out[oj]);
        } else if j == at {
            assert(new[i] == out[oi]);
        } else {
            assert(new[i] == out[oi]);
            assert(new[j] == out[oj]);
            assert(listed_before(out[oi], out[oj]));
        }
    }
}

/// Opening an account keeps the rules of the database.
pub proof fn law_create_user_keeps_rules(v: DatabaseView, name: Seq<char>, hash: Seq<char>)
    requires
        valid(v),
    ensures
        valid(created_user(v, name, hash).0),
{
    let after = created_user(v, name, hash).0;
    if after != v {
        let n = v.users.len() as int;
        assert forall|i: int, j: int| 0 <= i < j < after.users.len() implies (
        #[trigger] after.users[i]).username != (#[trigger] after.users[j]).username by {
            if j == n {
                assert(v.users[i].username != name);
            } else {
                assert(v.users[i].username != v.users[j].username);
            }
        }
        assert forall|i: int| 0 <= i < after.projects.len() implies has_user(
            after,
            (#[trigger] after.projects[i]).user_id,
        ) by {
            assert(has_user(v, v.projects[i].user_id));
        }
    }
}

/// A username can be registered once. The first registration succeeds unless
/// the name is taken or the database is full; after a registration that
/// succeeded, every further one of the same name fails as a duplicate and
/// changes nothing, whatever its password hash.
pub proof fn law_username_registers_once(
    v: DatabaseView,
    name: Seq<char>,
    first_hash: Seq<char>,
    second_hash: Seq<char>,
)
    requires
        valid(v),
    ensures
        ({
            let (v1, r1) = created_user(v, name, first_hash);
            let (v2, r2) = created_user(v1, name, second_hash);
            &&& r1 is Ok <==> !has_username(v, name) && v.users.len() < max_id()
            &&& r1 is Ok ==> r2 == Err::<i64, Failure>(Failure::DuplicateUsername) && v2 == v1
            &&& r1 == Err::<i64, Failure>(Failure::DuplicateUsername) ==> r2 == r1 && v2 == v
        }),
{
    let (v1, r1) = created_user(v, name, first_hash);
    if r1 is Ok {
        assert(v1.users[v.users.len() as int].username == name);
    }
}

/// Storing a project keeps the rules of the database.
pub proof fn law_create_project_keeps_rules(
    v: DatabaseView,
    owner: int,
    name: Seq<char>,
    description: Option<Seq<char>>,
    created_at: Seq<char>,
)
    requires
        valid(v),
    ensures
        valid(created_project(v, owner, name, description, created_at).0),
{
    let after = created_project(v, owner, name, description, created_at).0;
    if after != v {
        assert forall|i: int| 0 <= i < after.projects.len() implies has_user(
            after,
            (#[trigger] after.projects[i]).user_id,
        ) by {
            if i < v.projects.len() {
                assert(has_user(v, v.projects[i].user_id));
            }
        }
    }
}

/// A project that one account stores never shows in the listing of another:
/// what lists the projects of `a` after `b` has stored a project is what
/// listed them before, and the new project is not in it.
pub proof fn law_listing_ignores_other_owners(
    v: DatabaseView,
    a: int,
    b: int,
    name: Seq<char>,
    description: Option<Seq<char>>,
    created_at: Seq<char>,
    out: Seq<ProjectView>,
)
    requires
        valid(v),
        a != b,
    ensures
        ({
            let (after, r) = created_project(v, b, name, description, created_at);
            &&& is_listing(after, a, out) <==> is_listing(v, a, out)
            &&& is_listing(after, a, out) ==> forall|i: int|
                0 <= i < out.len() ==> (#[trigger] out[i]).user_id == a && (r is Ok ==> out[i].id
                    != r->Ok_0)
        }),
{
    let (after, r) = created_project(v, b, name, description, created_at);
    let n = v.projects.len() as int;
    if r is Ok {
        assert(after.projects[n].user_id == b);
        if is_listing(after, a, out) {
            assert forall|i: int| 0 <= i < out.len() implies {
                &&& (#[trigger] out[i]).user_id == a
                &&& 1 <= out[i].id <= n
                &&& v.projects[out[i].id - 1] == out[i]
            } by {
                assert(after.projects[out[i].id - 1] == out[i]);
            }
            assert forall|k: int| 0 <= k < n && (#[trigger] v.projects[k]).user_id
                == a implies exists|i: int| 0 <= i < out.len() && (#[trigger] out[i]).id == k
                + 1 by {
                assert(after.projects[k] == v.projects[k]);
            }
            assert(is_listing(v, a, out));
        }
        if is_listing(v, a, out) {
            assert forall|i: int| 0 <= i < out.len() implies {
                &&& (#[trigger] out[i]).user_id == a
                &&& 1 <= out[i].id <= n + 1
                &&& after.projects[out[i].id - 1] == out[i]
            } by {
                assert(v.projects[out[i].id - 1] == out[i]);
            }
            assert forall|k: int| 0 <= k < n + 1 && (#[trigger] after.projects[k]).user_id
                == a implies exists|i: int| 0 <= i < out.len() && (#[trigger] out[i]).id == k
                + 1 by {
                assert(k < n);
                assert(after.projects[k] == v.projects[k]);
            }
            assert(is_listing(after, a, out));
        }
    }
}

/// No project is listed before itself, and of two projects at most one before
/// the other.
pub proof fn lemma_listed_before_asymmetric(a: ProjectView, b: ProjectView)
    ensures
        !(listed_before(a, b) && listed_before(b, a)),
        !listed_before(a, a),
{
    let ta = encode_utf8(a.created_at);
    let tb = encode_utf8(b.created_at);
    lemma_bytes_asymmetric(ta, tb);
    lemma_bytes_asymmetric(ta, ta);
}

/// Whether `out` holds each member of `s` once, in the order of a listing.
spec fn arranges(s: Set<ProjectView>, out: Seq<ProjectView>) -> bool {
    &&& forall|i: int| 0 <= i < out.len() ==> s.contains(#[trigger] out[i])
    &&& forall|e: ProjectView| #[trigger]
        s.contains(e) ==> exists|i: int| 0 <= i < out.len() && #[trigger] out[i] == e
    &&& forall|i: int, j: int|
        0 <= i < j < out.len() ==> listed_before(#[trigger] out[i], #[trigger] out[j])
}

proof fn lemma_arranged_rest(s: Set<ProjectView>, x: Seq<ProjectView>)
    requires
        arranges(s, x),
        x.len() > 0,
    ensures
        arranges(s.remove(x[0]), x.drop_first()),
{
    let rest = x.drop_first();
    let t = s.remove(x[0]);
    assert forall|i: int| 0 <= i < rest.len() implies t.contains(#[trigger] rest[i]) by {
        assert(rest[i] == x[i + 1]);
        assert(s.contains(x[i + 1]));
        assert(listed_before(x[0], x[i + 1]));
        lemma_listed_before_asymmetric(x[0], x[0]);
    }
    assert forall|e: ProjectView| #[trigger] t.contains(e) implies exists|i: int|
        0 <= i < rest.len() && #[trigger] rest[i] == e by {
        assert(s.contains(e));
        let w = choose|i: int| 0 <= i < x.len() && #[trigger] x[i] == e;
        assert(w != 0);
        assert(rest[w - 1] == e);
    }
    assert forall|i: int, j: int| 0 <= i < j < rest.len() implies listed_before(
        #[trigger] rest[i],
        #[trigger] rest[j],
    ) by {
        assert(listed_before(x[i + 1], x[j + 1]));
    }
}

proof fn lemma_arranged_once(s: Set<ProjectView>, x: Seq<ProjectView>, y: Seq<ProjectView>)
    requires
        arranges(s, x),
        arranges(s, y),
    ensures
        x == y,
    decreases x.len(),
{
    if x.len() == 0 {
        if y.len() > 0 {
            assert(s.contains(y[0]));
        }
        assert(x =~= y);
    } else {
        assert(s.contains(x[0]));
        let j = choose|j: int| 0 <= j < y.len() && #[trigger] y[j] == x[0];
        assert(s.contains(y[0]));
        let i = choose|i: int| 0 <= i < x.len() && #[trigger] x[i] == y[0];
        if i > 0 && j > 0 {
            assert(listed_before(x[0], x[i]));
            assert(listed_before(y[0], y[j]));
            lemma_listed_before_asymmetric(x[0], y[0]);
        }
        assert(x[0] == y[0]);
        lemma_arranged_rest(s, x);
        lemma_arranged_rest(s, y);
        lemma_arranged_once(s.remove(x[0]), x.drop_first(), y.drop_first());
        assert(x =~= seq![x[0]] + x.drop_first());
        assert(y =~= seq![y[0]] + y.drop_first());
    }
}

/// The projects of `owner` in `v`.
spec fn owned(v: DatabaseView, owner: int) -> Set<ProjectView> {
    Set::new(
        |e: ProjectView|
            e.user_id == owner && exists|k: int|
                0 <= k < v.projects.len() && #[trigger] v.projects[k] == e,
    )
}

proof fn lemma_listing_arranges(v: DatabaseView, owner: int, out: Seq<ProjectView>)
    requires
        valid(v),
        is_listing(v, owner, out),
    ensures
        arranges(owned(v, owner), out),
{
    let s = owned(v, owner);
    assert forall|i: int| 0 <= i < out.len() implies s.contains(#[trigger] out[i]) by {
        assert(v.projects[out[i].id - 1] == out[i]);
    }
    assert forall|e: ProjectView| #[trigger] s.contains(e) implies exists|i: int|
        0 <= i < out.len() && #[trigger] out[i] == e by {
        let k = choose|k: int| 0 <= k < v.projects.len() && #[trigger] v.projects[k] == e;
        assert(v.projects[k].user_id == owner);
        let w = choose|i: int| 0 <= i < out.len() && (#[trigger] out[i]).id == k + 1;
        assert(v.projects[out[w].id - 1] == out[w]);
    }
}

/// An account has one listing: two sequences that both list the projects of
/// `owner` are the same sequence.
pub proof fn law_listing_unique(
    v: DatabaseView,
    owner: int,
    x: Seq<ProjectView>,
    y: Seq<ProjectView>,
)
    requires
        valid(v),
        is_listing(v, owner, x),
        is_listing(v, owner, y),
    ensures
        x == y,
{
    lemma_listing_arranges(v, owner, x);
    lemma_listing_arranges(v, owner, y);
    lemma_arranged_once(owned(v, owner), x, y);
}

} // verus!
