//! The sessions: which token stands for which account, and until when.
//!
//! A session lives for twenty-four hours after its last use. The store reads no
//! clock: each call is told the time, in seconds since the Unix epoch.

use vstd::prelude::*;
use crate::models::{Failure, User, UserView};

verus! {

/// How many hours a session outlives its last use.
pub const SESSION_HOURS: i64 = 24;

/// How many seconds a session outlives its last use.
pub open spec fn ttl_seconds() -> int {
    SESSION_HOURS * 3600
}

/// When a session that is used at `now` runs out. The sum stops at the largest
/// time that can be written.
pub open spec fn expiry_after(now: int) -> int {
    if now + ttl_seconds() > i64::MAX {
        i64::MAX as int
    } else {
        now + ttl_seconds()
    }
}

/// What a token stands for.
pub struct SessionView {
    pub user_id: int,
    pub username: Seq<char>,
    pub expires_at: int,
}

/// What a [`SessionStore`] holds: the session behind each token.
pub type Sessions = Map<Seq<char>, SessionView>;

/// Whether `token` names a session that has not run out at `now`.
pub open spec fn is_live(m: Sessions, token: Seq<char>, now: int) -> bool {
    m.dom().contains(token) && m[token].expires_at > now
}

/// What [`SessionStore::create`] leaves and returns.
pub open spec fn created_session(
    m: Sessions,
    token: Seq<char>,
    user_id: int,
    username: Seq<char>,
    now: int,
) -> (Sessions, Result<(), Failure>) {
    if m.dom().contains(token) {
        (m, Err(Failure::TokenInUse))
    } else {
        (
            m.insert(
                token,
                SessionView { user_id: user_id, username: username, expires_at: expiry_after(now) },
            ),
            Ok(()),
        )
    }
}

/// What [`SessionStore::resolve`] leaves and returns. A live session is
/// renewed; one that has run out is gone for good.
pub open spec fn resolved_session(m: Sessions, token: Seq<char>, now: int) -> (
    Sessions,
    Option<UserView>,
) {
    if is_live(m, token, now) {
        (
            m.insert(
                token,
                SessionView {
                    user_id: m[token].user_id,
                    username: m[token].username,
                    expires_at: expiry_after(now),
                },
            ),
            Some(UserView { id: m[token].user_id, username: m[token].username }),
        )
    } else {
        (m.remove(token), None)
    }
}

/// What [`SessionStore::destroy`] leaves.
pub open spec fn destroyed_session(m: Sessions, token: Seq<char>) -> Sessions {
    m.remove(token)
}

/// `Duration::hours` of the crate `time`, read back with `whole_seconds`: the
/// seconds in `hours` hours. The crate panics where the product leaves `i64`,
/// so such hours are not accepted.
#[verifier::external_body]
fn hours_in_seconds(hours: i64) -> (secs: i64)
    requires
        -2_562_047_788_015_215 <= hours <= 2_562_047_788_015_215,
    ensures
        secs == hours * 3600,
{
    time::Duration::hours(hours).whole_seconds()
}

/// The seconds that a session outlives its last use.
pub fn session_ttl() -> (secs: i64)
    ensures
        secs == ttl_seconds(),
{
    hours_in_seconds(SESSION_HOURS)
}

/// The time at which a session that is used at `now` runs out.
pub fn expiry(now: i64) -> (at: i64)
    ensures
        at == expiry_after(now as int),
{
    match now.checked_add(session_ttl()) {
        Some(at) => at,
        None => i64::MAX,
    }
}

/// A stored session.
struct SessionRecord {
    token: String,
    user_id: i64,
    username: String,
    expires_at: i64,
}

impl SessionRecord {
    spec fn data(&self) -> SessionView {
        SessionView {
            user_id: self.user_id as int,
            username: self.username@,
            expires_at: self.expires_at as int,
        }
    }
}

/// Whether one of `recs` has the token `t`.
spec fn holds(recs: Seq<SessionRecord>, t: Seq<char>) -> bool {
    exists|i: int| 0 <= i < recs.len() && (#[trigger] recs[i]).token@ == t
}

/// The position of the record with the token `t`.
spec fn slot(recs: Seq<SessionRecord>, t: Seq<char>) -> int {
    choose|i: int| 0 <= i < recs.len() && (#[trigger] recs[i]).token@ == t
}

/// Whether no two of `recs` share a token.
spec fn distinct(recs: Seq<SessionRecord>) -> bool {
    forall|i: int, j: int|
        0 <= i < j < recs.len() ==> (#[trigger] recs[i]).token@ != (#[trigger] recs[j]).token@
}

/// The sessions that `recs` hold.
spec fn map_of(recs: Seq<SessionRecord>) -> Sessions {
    Map::new(|t: Seq<char>| holds(recs, t), |t: Seq<char>| recs[slot(recs, t)].data())
}

proof fn lemma_at(recs: Seq<SessionRecord>, i: int)
    requires
        distinct(recs),
        0 <= i < recs.len(),
    ensures
        holds(recs, recs[i].token@),
        slot(recs, recs[i].token@) == i,
        map_of(recs).dom().contains(recs[i].token@),
        map_of(recs)[recs[i].token@] == recs[i].data(),
{
    let t = recs[i].token@;
    assert(recs[i].token@ == t);
    let w = slot(recs, t);
    if w < i {
        assert(recs[w].token@ != recs[i].token@);
    } else if i < w {
        assert(recs[i].token@ != recs[w].token@);
    }
}

proof fn lemma_push(recs: Seq<SessionRecord>, r: SessionRecord)
    requires
        distinct(recs),
        !holds(recs, r.token@),
    ensures
        distinct(recs.push(r)),
        map_of(recs.push(r)) == map_of(recs).insert(r.token@, r.data()),
{
    let new = recs.push(r);
    assert forall|i: int, j: int| 0 <= i < j < new.len() implies (#[trigger] new[i]).token@ != (
    #[trigger] new[j]).token@ by {
        if j == recs.len() {
            assert(recs[i].token@ != r.token@);
        } else {
            assert(recs[i].token@ != recs[j].token@);
        }
    }
    let a = map_of(new);
    let b = map_of(recs).insert(r.token@, r.data());
    assert forall|t: Seq<char>| a.dom().contains(t) == b.dom().contains(t) by {
        if holds(new, t) {
            let w = slot(new, t);
            if w < recs.len() {
                assert(recs[w].token@ == t);
            }
        }
        if holds(recs, t) {
            let w = slot(recs, t);
            assert(new[w].token@ == t);
        }
        if t == r.token@ {
            assert(new[recs.len() as int].token@ == t);
        }
    }
    assert forall|t: Seq<char>| a.dom().contains(t) implies a[t] == b[t] by {
        let w = slot(new, t);
        lemma_at(new, w);
        if w < recs.len() {
            lemma_at(recs, w);
        }
    }
    assert(a =~= b);
}

proof fn lemma_remove(recs: Seq<SessionRecord>, i: int)
    requires
        distinct(recs),
        0 <= i < recs.len(),
    ensures
        distinct(recs.remove(i)),
        !holds(recs.remove(i), recs[i].token@),
        map_of(recs.remove(i)) == map_of(recs).remove(recs[i].token@),
{
    let new = recs.remove(i);
    let gone = recs[i].token@;
    assert forall|x: int| 0 <= x < new.len() implies #[trigger] new[x] == recs[if x < i {
        x
    } else {
        x + 1
    }] by {}
    assert forall|x: int, y: int| 0 <= x < y < new.len() implies (#[trigger] new[x]).token@ != (
    #[trigger] new[y]).token@ by {
        let ox = if x < i { x } else { x + 1 };
        let oy = if y < i { y } else { y + 1 };
        assert(recs[ox].token@ != recs[oy].token@);
    }
    if holds(new, gone) {
        let w = slot(new, gone);
        let ow = if w < i { w } else { w + 1 };
        assert(new[w] == recs[ow]);
        if ow < i {
            assert(recs[ow].token@ != recs[i].token@);
        } else {
            assert(recs[i].token@ != recs[ow].token@);
        }
    }
    let a = map_of(new);
    let b = map_of(recs).remove(gone);
    assert forall|t: Seq<char>| a.dom().contains(t) == b.dom().contains(t) by {
        if holds(new, t) {
            let w = slot(new, t);
            let ow = if w < i { w } else { w + 1 };
            assert(new[w] == recs[ow]);
            assert(recs[ow].token@ == t);
        }
        if holds(recs, t) && t != gone {
            let w = slot(recs, t);
            let nw = if w < i { w } else { w - 1 };
            assert(new[nw] == recs[w]);
            assert(new[nw].token@ == t);
        }
    }
    assert forall|t: Seq<char>| a.dom().contains(t) implies a[t] == b[t] by {
        let w = slot(new, t);
        let ow = if w < i { w } else { w + 1 };
        assert(new[w] == recs[ow]);
        lemma_at(new, w);
        lemma_at(recs, ow);
    }
    assert(a =~= b);
}

/// The sessions.
pub struct SessionStore {
    records: Vec<SessionRecord>,
}

impl View for SessionStore {
    type V = Sessions;

    closed spec fn view(&self) -> Sessions {
        map_of(self.records@)
    }
}

impl SessionStore {
    /// Whether the store keeps its rule: one record for a token.
    pub closed spec fn wf(&self) -> bool {
        distinct(self.records@)
    }

    /// A store without sessions.
    pub fn new() -> (store: SessionStore)
        ensures
            store.wf(),
            store@ == Map::<Seq<char>, SessionView>::empty(),
    {
        let store = SessionStore { records: Vec::new() };
        assert(store@ =~= Map::<Seq<char>, SessionView>::empty());
        store
    }

    /// The position of the record with the token `token`.
    fn find(&self, token: &String) -> (at: Option<usize>)
        requires
            self.wf(),
        ensures
            at is Some <==> self@.dom().contains(token@),
            at is Some ==> at->0 < self.records.len() && self.records[at->0 as int].token@
                == token@,
    {
        let mut i: usize = 0;
        while i < self.records.len()
            invariant
                i <= self.records.len(),
                forall|j: int| 0 <= j < i ==> (#[trigger] self.records[j]).token@ != token@,
            decreases self.records.len() - i,
        {
            if self.records[i].token == *token {
                assert(holds(self.records@, token@));
                return Some(i);
            }
            i = i + 1;
        }
        None
    }

    /// Tells whether the token `token` is in use. The session is not renewed.
    pub fn contains(&self, token: &str) -> (b: bool)
        requires
            self.wf(),
        ensures
            b == self@.dom().contains(token@),
    {
        let key = token.to_owned();
        self.find(&key).is_some()
    }

    /// Opens a session for the account `user_id` under the token `token`, which
    /// the caller has drawn at random. A token that is in use is refused, and
    /// the store stays as it was.
    pub fn create(&mut self, token: &str, user_id: i64, username: &str, now: i64) -> (r: Result<
        (),
        Failure,
    >)
        requires
            old(self).wf(),
        ensures
            final(self).wf(),
            (final(self)@, r) == created_session(
                old(self)@,
                token@,
                user_id as int,
                username@,
                now as int,
            ),
    {
        let key = token.to_owned();
        if self.find(&key).is_some() {
            return Err(Failure::TokenInUse);
        }
        let record = SessionRecord {
            token: key,
            user_id,
            username: username.to_owned(),
            expires_at: expiry(now),
        };
        proof {
            lemma_push(self.records@, record);
        }
        self.records.push(record);
        Ok(())
    }

    /// Tells whom the token `token` stands for at `now`, and renews the session.
    /// An unknown token, and one whose session has run out, stand for nobody;
    /// a session that has run out is removed.
    pub fn resolve(&mut self, token: &str, now: i64) -> (who: Option<User>)
        requires
            old(self).wf(),
        ensures
            final(self).wf(),
            final(self)@ == resolved_session(old(self)@, token@, now as int).0,
            match who {
                Some(user) => Some(user@) == resolved_session(old(self)@, token@, now as int).1,
                None => resolved_session(old(self)@, token@, now as int).1 is None,
            },
    {
        let key = token.to_owned();
        let ghost before = self.records@;
        match self.find(&key) {
            None => {
                assert(self@.remove(token@) =~= self@);
                None
            },
            Some(i) => {
                proof {
                    lemma_at(before, i as int);
                    lemma_remove(before, i as int);
                }
                let old_record = self.records.remove(i);
                if old_record.expires_at > now {
                    let user = User {
                        id: old_record.user_id,
                        username: old_record.username.clone(),
                    };
                    let record = SessionRecord {
                        token: old_record.token,
                        user_id: old_record.user_id,
                        username: old_record.username,
                        expires_at: expiry(now),
                    };
                    proof {
                        lemma_push(self.records@, record);
                        assert(map_of(before).remove(token@).insert(token@, record.data())
                            =~= map_of(before).insert(token@, record.data()));
                    }
                    self.records.push(record);
                    Some(user)
                } else {
                    None
                }
            },
        }
    }

    /// Closes the session behind `token`. Closing a session that is not there
    /// changes nothing.
    pub fn destroy(&mut self, token: &str)
        requires
            old(self).wf(),
        ensures
            final(self).wf(),
            final(self)@ == destroyed_session(old(self)@, token@),
    {
        let key = token.to_owned();
        match self.find(&key) {
            None => {
                assert(self@.remove(token@) =~= self@);
            },
            Some(i) => {
                proof {
                    lemma_at(self.records@, i as int);
                    lemma_remove(self.records@, i as int);
                }
                let _ = self.records.remove(i);
            },
        }
    }
}

/// A session that was opened at `now` under a free token stands for the
/// account it was opened for, at `now` and at every later time before it runs
/// out. (At the largest time that can be written a session is born dead:
/// nothing is later than that.)
pub proof fn law_resolve_after_create(
    m: Sessions,
    token: Seq<char>,
    user_id: int,
    username: Seq<char>,
    now: int,
    later: int,
)
    requires
        !m.dom().contains(token),
        now <= later < expiry_after(now),
    ensures
        created_session(m, token, user_id, username, now).1 is Ok,
        resolved_session(created_session(m, token, user_id, username, now).0, token, later).1
            == Some(UserView { id: user_id, username: username }),
{
}

/// Once a session is closed, its token stands for nobody, at any time.
pub proof fn law_resolve_after_destroy(m: Sessions, token: Seq<char>, now: int)
    ensures
        resolved_session(destroyed_session(m, token), token, now).1 is None,
        !destroyed_session(m, token).dom().contains(token),
{
}

/// Closing a session twice is closing it once, and the sessions behind other
/// tokens are left as they are.
pub proof fn law_destroy_is_local(m: Sessions, token: Seq<char>, other: Seq<char>)
    requires
        other != token,
    ensures
        destroyed_session(destroyed_session(m, token), token) == destroyed_session(m, token),
        destroyed_session(m, token).dom().contains(other) == m.dom().contains(other),
        m.dom().contains(other) ==> destroyed_session(m, token)[other] == m[other],
{
    assert(m.remove(token).remove(token) =~= m.remove(token));
}

/// A token stands for somebody only through a session that was opened and has
/// neither been closed nor run out: a token that stood for nobody keeps
/// standing for nobody, whatever the time, until a session is opened under it.
pub proof fn law_anonymous_stays_anonymous(m: Sessions, token: Seq<char>, now: int, later: int)
    requires
        resolved_session(m, token, now).1 is None,
    ensures
        resolved_session(resolved_session(m, token, now).0, token, later).1 is None,
{
}

/// Each use of a live session moves its end to twenty-four hours after the
/// use, and leaves the sessions behind other tokens as they are.
pub proof fn law_resolve_renews(m: Sessions, token: Seq<char>, now: int, other: Seq<char>)
    requires
        is_live(m, token, now),
        other != token,
    ensures
        resolved_session(m, token, now).0[token].expires_at == expiry_after(now),
        resolved_session(m, token, now).0.dom().contains(other) == m.dom().contains(other),
        m.dom().contains(other) ==> resolved_session(m, token, now).0[other] == m[other],
{
}

} // verus!
