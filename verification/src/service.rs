//! What each request does to the accounts, the sessions and the projects.
//!
//! Requests name a session token, never an account: whose projects are read or
//! written is decided by the session alone.

use vstd::prelude::*;
use crate::auth::{hash_password, hashed, password_matches, verify_password};
use crate::db::{
    create_user, created_project, created_user, found_user, get_password_hash,
    get_projects_for_user, get_user_by_username, has_username, is_listing,
    law_create_user_keeps_rules, law_username_registers_once, max_id, position_of, project_views,
    text_of, valid, Database, DatabaseView,
};
use crate::models::{AuthPayload, CreateProjectForm, Failure, Project, User, UserView};
use crate::sessions::{
    created_session, destroyed_session, expiry_after, resolved_session, SessionStore, Sessions,
};

verus! {

/// What [`identify`] leaves and returns: a request without a token comes from
/// nobody, and any other from whom its session stands for.
pub open spec fn identified(m: Sessions, token: Option<Seq<char>>, now: int) -> (
    Sessions,
    Option<UserView>,
) {
    match token {
        Some(t) => resolved_session(m, t, now),
        None => (m, None),
    }
}

/// What [`complete_registration`] leaves and returns.
pub open spec fn registered(
    v: DatabaseView,
    m: Sessions,
    username: Seq<char>,
    password_hash: Seq<char>,
    token: Seq<char>,
    now: int,
) -> (DatabaseView, Sessions, Result<Seq<char>, Failure>) {
    if has_username(v, username) {
        (v, m, Err(Failure::DuplicateUsername))
    } else if m.dom().contains(token) {
        (v, m, Err(Failure::TokenInUse))
    } else {
        match created_user(v, username, password_hash) {
            (after, Ok(id)) => (
                after,
                created_session(m, token, id as int, username, now).0,
                Ok(token),
            ),
            (_, Err(e)) => (v, m, Err(e)),
        }
    }
}

/// What [`complete_login`] leaves and returns.
pub open spec fn logged_in(
    v: DatabaseView,
    m: Sessions,
    username: Seq<char>,
    password_ok: bool,
    token: Seq<char>,
    now: int,
) -> (Sessions, Result<Seq<char>, Failure>) {
    if !has_username(v, username) || !password_ok {
        (m, Err(Failure::InvalidCredentials))
    } else if m.dom().contains(token) {
        (m, Err(Failure::TokenInUse))
    } else {
        (created_session(m, token, position_of(v, username) + 1, username, now).0, Ok(token))
    }
}

/// What [`create_project`] leaves and returns.
pub open spec fn project_created(
    v: DatabaseView,
    m: Sessions,
    token: Option<Seq<char>>,
    name: Seq<char>,
    description: Seq<char>,
    created_at: Seq<char>,
    now: int,
) -> (DatabaseView, Sessions, Result<i64, Failure>) {
    match identified(m, token, now) {
        (sessions, Some(user)) => {
            let (after, r) = created_project(v, user.id, name, Some(description), created_at);
            (after, sessions, r)
        },
        (sessions, None) => (v, sessions, Err(Failure::Unauthenticated)),
    }
}

/// What [`register`] leaves and returns: the password is hashed first, and the
/// account is opened with the hash.
pub open spec fn registered_with_password(
    v: DatabaseView,
    m: Sessions,
    username: Seq<char>,
    password: Seq<char>,
    salt: Seq<char>,
    token: Seq<char>,
    now: int,
) -> (DatabaseView, Sessions, Result<Seq<char>, Failure>) {
    match hashed(password, salt) {
        Some(hash) => registered(v, m, username, hash, token, now),
        None => (v, m, Err(Failure::Hashing)),
    }
}

/// Whether `password` is the password of the account `username`.
pub open spec fn password_accepted(
    v: DatabaseView,
    username: Seq<char>,
    password: Seq<char>,
) -> bool {
    has_username(v, username) && password_matches(
        password,
        v.users[position_of(v, username)].password_hash,
    )
}

/// What the home page shows.
#[derive(Debug)]
pub enum HomePage {
    /// The projects of the account behind the session, the most recent first.
    Projects { username: String, projects: Vec<Project> },
    /// Nobody is logged in.
    RedirectToLogin,
}

/// Tells who sends a request with the token `token` at `now`, and renews the
/// session.
pub fn identify(sessions: &mut SessionStore, token: Option<&str>, now: i64) -> (who: Option<User>)
    requires
        old(sessions).wf(),
    ensures
        final(sessions).wf(),
        final(sessions)@ == identified(old(sessions)@, text_of(token), now as int).0,
        match who {
            Some(user) => Some(user@) == identified(
                old(sessions)@,
                text_of(token),
                now as int,
            ).1,
            None => identified(old(sessions)@, text_of(token), now as int).1 is None,
        },
{
    match token {
        Some(t) => sessions.resolve(t, now),
        None => None,
    }
}

/// Opens an account with the password hash `password_hash` and logs it in
/// under the token `token`. Where the request fails, nothing is stored.
pub fn complete_registration(
    db: &mut Database,
    sessions: &mut SessionStore,
    payload: &AuthPayload,
    password_hash: &str,
    token: &str,
    now: i64,
) -> (r: Result<String, Failure>)
    requires
        old(db).wf(),
        old(sessions).wf(),
    ensures
        final(db).wf(),
        final(sessions).wf(),
        ({
            let (v, m, expected) = registered(
                old(db)@,
                old(sessions)@,
                payload.username@,
                password_hash@,
                token@,
                now as int,
            );
            &&& final(db)@ == v
            &&& final(sessions)@ == m
            &&& match r {
                Ok(t) => expected == Ok::<Seq<char>, Failure>(t@),
                Err(e) => expected == Err::<Seq<char>, Failure>(e),
            }
        }),
{
    let username = payload.username.as_str();
    if get_user_by_username(db, username).is_ok() {
        return Err(Failure::DuplicateUsername);
    }
    if sessions.contains(token) {
        return Err(Failure::TokenInUse);
    }
    match create_user(db, username, password_hash) {
        Ok(id) => {
            let opened = sessions.create(token, id, username, now);
            assert(opened is Ok);
            Ok(token.to_owned())
        },
        Err(e) => Err(e),
    }
}

/// Logs the account of `payload` in under the token `token`, given whether its
/// password was found to match the hash that is stored for the username. An
/// unknown username and a wrong password give the same failure.
pub fn complete_login(
    db: &Database,
    sessions: &mut SessionStore,
    payload: &AuthPayload,
    password_ok: bool,
    token: &str,
    now: i64,
) -> (r: Result<String, Failure>)
    requires
        db.wf(),
        old(sessions).wf(),
    ensures
        final(sessions).wf(),
        ({
            let (m, expected) = logged_in(
                db@,
                old(sessions)@,
                payload.username@,
                password_ok,
                token@,
                now as int,
            );
            &&& final(sessions)@ == m
            &&& match r {
                Ok(t) => expected == Ok::<Seq<char>, Failure>(t@),
                Err(e) => expected == Err::<Seq<char>, Failure>(e),
            }
        }),
{
    let username = payload.username.as_str();
    match get_user_by_username(db, username) {
        Ok(user) => {
            if !password_ok {
                return Err(Failure::InvalidCredentials);
            }
            if sessions.contains(token) {
                return Err(Failure::TokenInUse);
            }
            let opened = sessions.create(token, user.id, username, now);
            assert(opened is Ok);
            Ok(token.to_owned())
        },
        Err(_) => Err(Failure::InvalidCredentials),
    }
}

/// Opens an account for the username and the password of `payload` and logs
/// it in under the token `token`. `salt` is the salt to hash the password
/// with: random bytes, eight at least, written in base 64 without padding.
/// Where the request fails, nothing is stored.
pub fn register(
    db: &mut Database,
    sessions: &mut SessionStore,
    payload: &AuthPayload,
    salt: &str,
    token: &str,
    now: i64,
) -> (r: Result<String, Failure>)
    requires
        old(db).wf(),
        old(sessions).wf(),
    ensures
        final(db).wf(),
        final(sessions).wf(),
        ({
            let (v, m, expected) = registered_with_password(
                old(db)@,
                old(sessions)@,
                payload.username@,
                payload.password@,
                salt@,
                token@,
                now as int,
            );
            &&& final(db)@ == v
            &&& final(sessions)@ == m
            &&& match r {
                Ok(t) => expected == Ok::<Seq<char>, Failure>(t@),
                Err(e) => expected == Err::<Seq<char>, Failure>(e),
            }
        }),
        r is Ok ==> password_accepted(final(db)@, payload.username@, payload.password@),
{
    match hash_password(payload.password.as_str(), salt) {
        Some(hash) => {
            proof {
                law_password_goes_by_stored_hash(
                    db@,
                    sessions@,
                    payload.username@,
                    hash@,
                    token@,
                    now as int,
                    payload.password@,
                );
            }
            complete_registration(db, sessions, payload, hash.as_str(), token, now)
        },
        None => Err(Failure::Hashing),
    }
}

/// Logs the account of `payload` in under the token `token`, if its password
/// is the one that the account was opened with. An unknown username and a
/// wrong password give the same failure.
pub fn login(
    db: &Database,
    sessions: &mut SessionStore,
    payload: &AuthPayload,
    token: &str,
    now: i64,
) -> (r: Result<String, Failure>)
    requires
        db.wf(),
        old(sessions).wf(),
    ensures
        final(sessions).wf(),
        ({
            let (m, expected) = logged_in(
                db@,
                old(sessions)@,
                payload.username@,
                password_accepted(db@, payload.username@, payload.password@),
                token@,
                now as int,
            );
            &&& final(sessions)@ == m
            &&& match r {
                Ok(t) => expected == Ok::<Seq<char>, Failure>(t@),
                Err(e) => expected == Err::<Seq<char>, Failure>(e),
            }
        }),
{
    let password_ok = match get_user_by_username(db, payload.username.as_str()) {
        Ok(user) => match get_password_hash(db, user.id) {
            Ok(hash) => verify_password(payload.password.as_str(), hash.as_str()),
            Err(_) => false,
        },
        Err(_) => false,
    };
    complete_login(db, sessions, payload, password_ok, token, now)
}

/// Closes the session behind `token`. Other sessions, of the same account
/// too, stay open.
pub fn logout(sessions: &mut SessionStore, token: &str)
    requires
        old(sessions).wf(),
    ensures
        final(sessions).wf(),
        final(sessions)@ == destroyed_session(old(sessions)@, token@),
{
    sessions.destroy(token)
}

/// The home page for a request with the token `token`: the projects of the
/// account behind the session, or the way to the login page.
pub fn home(db: &Database, sessions: &mut SessionStore, token: Option<&str>, now: i64) -> (page:
    HomePage)
    requires
        db.wf(),
        old(sessions).wf(),
    ensures
        final(sessions).wf(),
        final(sessions)@ == identified(old(sessions)@, text_of(token), now as int).0,
        match page {
            HomePage::Projects { username, projects } => {
                let who = identified(old(sessions)@, text_of(token), now as int).1;
                &&& who is Some
                &&& who->0.username == username@
                &&& is_listing(db@, who->0.id, project_views(projects@))
            },
            HomePage::RedirectToLogin => identified(
                old(sessions)@,
                text_of(token),
                now as int,
            ).1 is None,
        },
{
    match identify(sessions, token, now) {
        Some(user) => {
            let projects = get_projects_for_user(db, user.id);
            HomePage::Projects { username: user.username, projects }
        },
        None => HomePage::RedirectToLogin,
    }
}

/// Stores a project for the account behind the session `token` and returns
/// its id. `created_at` is the timestamp to store with it.
pub fn create_project(
    db: &mut Database,
    sessions: &mut SessionStore,
    token: Option<&str>,
    form: &CreateProjectForm,
    created_at: &str,
    now: i64,
) -> (r: Result<i64, Failure>)
    requires
        old(db).wf(),
        old(sessions).wf(),
    ensures
        final(db).wf(),
        final(sessions).wf(),
        (final(db)@, final(sessions)@, r) == project_created(
            old(db)@,
            old(sessions)@,
            text_of(token),
            form.name@,
            form.description@,
            created_at@,
            now as int,
        ),
{
    match identify(sessions, token, now) {
        Some(user) => crate::db::create_project(
            db,
            user.id,
            form.name.as_str(),
            Some(form.description.as_str()),
            created_at,
        ),
        None => Err(Failure::Unauthenticated),
    }
}

/// Registering a username twice succeeds once: after a registration that
/// succeeded, a second one of the same name fails as a duplicate and stores
/// nothing, whatever its password and token.
pub proof fn law_register_twice(
    v: DatabaseView,
    m: Sessions,
    username: Seq<char>,
    first_hash: Seq<char>,
    first_token: Seq<char>,
    first_now: int,
    second_hash: Seq<char>,
    second_token: Seq<char>,
    second_now: int,
)
    requires
        valid(v),
    ensures
        ({
            let (v1, m1, r1) = registered(v, m, username, first_hash, first_token, first_now);
            let (v2, m2, r2) = registered(v1, m1, username, second_hash, second_token, second_now);
            &&& r1 is Ok <==> !has_username(v, username) && !m.dom().contains(first_token)
                && v.users.len() < max_id()
            &&& r1 is Ok ==> r2 == Err::<Seq<char>, Failure>(Failure::DuplicateUsername) && v2 == v1
                && m2 == m1
        }),
{
    law_username_registers_once(v, username, first_hash, second_hash);
}

/// A registration that succeeded has logged the new account in: its token
/// stands for the new account until the session runs out.
pub proof fn law_register_logs_in(
    v: DatabaseView,
    m: Sessions,
    username: Seq<char>,
    password_hash: Seq<char>,
    token: Seq<char>,
    now: int,
    later: int,
)
    requires
        valid(v),
        registered(v, m, username, password_hash, token, now).2 is Ok,
        now <= later < expiry_after(now),
    ensures
        ({
            let (v1, m1, r1) = registered(v, m, username, password_hash, token, now);
            &&& r1 == Ok::<Seq<char>, Failure>(token)
            &&& found_user(v1, username) is Ok
            &&& identified(m1, Some(token), later).1 == Some(found_user(v1, username)->Ok_0)
        }),
{
    let (v1, m1, r1) = registered(v, m, username, password_hash, token, now);
    let n = v.users.len() as int;
    law_create_user_keeps_rules(v, username, password_hash);
    assert(v1.users[n].username == username);
    let w = position_of(v1, username);
    if w != n {
        if w < n {
            assert(v1.users[w].username != v1.users[n].username);
        } else {
            assert(v1.users[n].username != v1.users[w].username);
        }
    }
}

/// After a registration that succeeded, which passwords the new account
/// accepts goes by the hash that it was opened with.
pub proof fn law_password_goes_by_stored_hash(
    v: DatabaseView,
    m: Sessions,
    username: Seq<char>,
    password_hash: Seq<char>,
    token: Seq<char>,
    now: int,
    password: Seq<char>,
)
    requires
        valid(v),
    ensures
        ({
            let (v1, m1, r1) = registered(v, m, username, password_hash, token, now);
            r1 is Ok ==> password_accepted(v1, username, password) == password_matches(
                password,
                password_hash,
            )
        }),
{
    let (v1, m1, r1) = registered(v, m, username, password_hash, token, now);
    if r1 is Ok {
        let n = v.users.len() as int;
        law_create_user_keeps_rules(v, username, password_hash);
        assert(v1.users[n].username == username);
        let w = position_of(v1, username);
        if w < n {
            assert(v1.users[w].username != v1.users[n].username);
        } else if n < w {
            assert(v1.users[n].username != v1.users[w].username);
        }
    }
}

/// A login with a wrong password and a login with a username that does not
/// exist fail alike, and neither opens a session.
pub proof fn law_login_failures_alike(
    v: DatabaseView,
    m: Sessions,
    known: Seq<char>,
    unknown: Seq<char>,
    password_ok: bool,
    token: Seq<char>,
    now: int,
)
    requires
        !has_username(v, unknown),
    ensures
        logged_in(v, m, known, false, token, now) == (
            m,
            Err::<Seq<char>, Failure>(Failure::InvalidCredentials),
        ),
        logged_in(v, m, unknown, password_ok, token, now) == logged_in(
            v,
            m,
            known,
            false,
            token,
            now,
        ),
{
}

/// Whose projects a request reads or writes is decided by its session alone:
/// a request without a live session stores nothing, and a project that is
/// stored belongs to the account that the session stands for.
pub proof fn law_project_goes_to_session_owner(
    v: DatabaseView,
    m: Sessions,
    token: Option<Seq<char>>,
    name: Seq<char>,
    description: Seq<char>,
    created_at: Seq<char>,
    now: int,
)
    ensures
        ({
            let who = identified(m, token, now).1;
            let (after, sessions, r) = project_created(
                v,
                m,
                token,
                name,
                description,
                created_at,
                now,
            );
            &&& who is None ==> after == v && r == Err::<i64, Failure>(Failure::Unauthenticated)
            &&& r is Ok ==> who is Some && after.projects == v.projects.push(after.projects.last())
                && after.projects.last().user_id == who->0.id
            &&& r is Err ==> after == v
        }),
{
}

} // verus!
