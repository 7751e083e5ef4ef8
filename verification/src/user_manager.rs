//! Accounting of the stream connections of proxy users, their grace period
//! and the stream sessions opened for them.

use vstd::prelude::*;
use crate::clock::{current_timestamp, random_u32};
use crate::text::str_eq;

verus! {

/// Whether a user may open one more stream.
#[derive(Clone, Copy, Debug, PartialEq, Eq, Structural)]
pub enum UserConnectionPermission {
    Exhausted,
    Allowed,
    GracePeriod,
}

/// The abstract value of a stream session.
pub struct SessionView {
    pub token: u32,
    pub virtual_id: u32,
    pub provider: Seq<char>,
    pub stream_url: Seq<char>,
    pub ts: u64,
    pub permission: UserConnectionPermission,
}

/// A stream session of a user: which stream of which provider, since when,
/// and with which permission it was opened.
pub struct UserSession {
    pub token: u32,
    pub virtual_id: u32,
    pub provider: String,
    pub stream_url: String,
    pub ts: u64,
    pub permission: UserConnectionPermission,
}

impl View for UserSession {
    type V = SessionView;

    open spec fn view(&self) -> SessionView {
        SessionView {
            token: self.token,
            virtual_id: self.virtual_id,
            provider: self.provider@,
            stream_url: self.stream_url@,
            ts: self.ts,
            permission: self.permission,
        }
    }
}

impl UserSession {
    /// A copy of the session.
    pub fn clone_session(&self) -> (r: UserSession)
        ensures
            r@ == self@,
    {
        UserSession {
            token: self.token,
            virtual_id: self.virtual_id,
            provider: self.provider.clone(),
            stream_url: self.stream_url.clone(),
            ts: self.ts,
            permission: self.permission,
        }
    }
}

/// The abstract connection data of a user.
pub struct UserDataView {
    pub max_connections: u32,
    pub connections: u32,
    pub granted_grace: bool,
    pub grace_ts: u64,
    pub sessions: Seq<SessionView>,
}

struct UserConnectionData {
    max_connections: u32,
    connections: u32,
    granted_grace: bool,
    grace_ts: u64,
    sessions: Vec<UserSession>,
}

/// The abstract values of a vector of sessions.
pub open spec fn sessions_view(v: Seq<UserSession>) -> Seq<SessionView> {
    v.map_values(|s: UserSession| s@)
}

impl View for UserConnectionData {
    type V = UserDataView;

    closed spec fn view(&self) -> UserDataView {
        UserDataView {
            max_connections: self.max_connections,
            connections: self.connections,
            granted_grace: self.granted_grace,
            grace_ts: self.grace_ts,
            sessions: sessions_view(self.sessions@),
        }
    }
}

/// The data of a user seen for the first time: one connection, no grace.
pub open spec fn new_user_data(max_connections: u32) -> UserDataView {
    UserDataView {
        max_connections: max_connections,
        connections: 1,
        granted_grace: false,
        grace_ts: 0,
        sessions: Seq::<SessionView>::empty(),
    }
}

impl UserConnectionData {
    fn new(max_connections: u32) -> (r: Self)
        ensures
            r@ == new_user_data(max_connections),
    {
        let r = UserConnectionData {
            max_connections,
            connections: 1,
            granted_grace: false,
            grace_ts: 0,
            sessions: Vec::new(),
        };
        proof {
            assert(sessions_view(r.sessions@) =~= Seq::<SessionView>::empty());
        }
        r
    }
}

/// Seconds from `since` to `now`; a clock that went back counts as no time.
pub open spec fn elapsed_secs(now: u64, since: u64) -> int {
    if now >= since { now - since } else { 0 }
}

/// `d` with its grace period ended.
pub open spec fn grace_reset(d: UserDataView) -> UserDataView {
    UserDataView { granted_grace: false, grace_ts: 0, ..d }
}

/// The permission check of a user at time `now`:
/// below the limit the user is allowed (and a grace period ends); a grace
/// period granted less than `timeout` seconds ago denies; otherwise, when
/// grace periods are configured and the user holds exactly the limit, a new
/// grace period starts; else the user is denied.
pub open spec fn permission_check(d: UserDataView, grace_period_millis: u64, timeout: u64, now: u64)
    -> (UserDataView, UserConnectionPermission)
{
    if d.connections < d.max_connections {
        (grace_reset(d), UserConnectionPermission::Allowed)
    } else if d.granted_grace && elapsed_secs(now, d.grace_ts) <= timeout {
        (d, UserConnectionPermission::Exhausted)
    } else {
        let d1 = if d.granted_grace { grace_reset(d) } else { d };
        if grace_period_millis > 0 && d.connections == d.max_connections {
            (UserDataView { granted_grace: true, grace_ts: now, ..d1 }, UserConnectionPermission::GracePeriod)
        } else {
            (d1, UserConnectionPermission::Exhausted)
        }
    }
}

/// The abstract state of the user registry.
pub struct UserManagerView {
    pub grace_period_millis: u64,
    pub grace_period_timeout_secs: u64,
    pub log_active_user: bool,
    pub users: Seq<(Seq<char>, UserDataView)>,
}

/// The position of the user called `name` at or after `i`, or -1.
pub open spec fn user_index_from(users: Seq<(Seq<char>, UserDataView)>, name: Seq<char>, i: nat) -> int
    decreases users.len() - i,
{
    if i >= users.len() {
        -1
    } else if users[i as int].0 == name {
        i as int
    } else {
        user_index_from(users, name, i + 1)
    }
}

/// The position of the user called `name`, or -1.
pub open spec fn user_index(users: Seq<(Seq<char>, UserDataView)>, name: Seq<char>) -> int {
    user_index_from(users, name, 0)
}

/// No user name occurs twice.
pub open spec fn users_unique(users: Seq<(Seq<char>, UserDataView)>) -> bool {
    forall|i: int, j: int| 0 <= i < j < users.len() ==> (#[trigger] users[i]).0 != (#[trigger] users[j]).0
}

/// The registry with the data of user `i` replaced by `d`.
pub open spec fn with_user(v: UserManagerView, i: int, d: UserDataView) -> UserManagerView {
    UserManagerView { users: v.users.update(i, (v.users[i].0, d)), ..v }
}

/// The sum of the connections of all users.
pub open spec fn connections_total(users: Seq<(Seq<char>, UserDataView)>) -> int
    decreases users.len(),
{
    if users.len() == 0 {
        0
    } else {
        connections_total(users.drop_last()) + users.last().1.connections
    }
}

/// The registry after a stream of `username` is counted with the limit
/// `max_connections`.
pub open spec fn after_add_connection(v: UserManagerView, username: Seq<char>, max_connections: u32) -> UserManagerView {
    let i = user_index(v.users, username);
    if i >= 0 {
        let d = v.users[i].1;
        with_user(v, i, UserDataView { connections: (d.connections + 1) as u32, max_connections: max_connections, ..d })
    } else {
        UserManagerView { users: v.users.push((username, new_user_data(max_connections))), ..v }
    }
}

/// The registry after a stream of `username` ends.
pub open spec fn after_remove_connection(v: UserManagerView, username: Seq<char>) -> UserManagerView {
    let i = user_index(v.users, username);
    if i >= 0 && v.users[i].1.connections > 0 {
        let d = v.users[i].1;
        with_user(v, i, UserDataView { connections: (d.connections - 1) as u32, ..d })
    } else {
        v
    }
}

struct UserEntry {
    username: String,
    data: UserConnectionData,
}

/// Keeps the connection count, grace state and sessions of every user that
/// opened a stream.
pub struct ActiveUserManager {
    grace_period_millis: u64,
    grace_period_timeout_secs: u64,
    log_active_user: bool,
    user: Vec<UserEntry>,
}

/// The abstract values of the user entries.
spec fn entries_view(v: Seq<UserEntry>) -> Seq<(Seq<char>, UserDataView)> {
    v.map_values(|e: UserEntry| (e.username@, e.data@))
}

impl View for ActiveUserManager {
    type V = UserManagerView;

    closed spec fn view(&self) -> UserManagerView {
        UserManagerView {
            grace_period_millis: self.grace_period_millis,
            grace_period_timeout_secs: self.grace_period_timeout_secs,
            log_active_user: self.log_active_user,
            users: entries_view(self.user@),
        }
    }
}

impl ActiveUserManager {
    /// An empty registry with the given grace settings.
    pub fn new(grace_period_millis: u64, grace_period_timeout_secs: u64, log_active_user: bool) -> (r: Self)
        ensures
            r@ == (UserManagerView {
                grace_period_millis: grace_period_millis,
                grace_period_timeout_secs: grace_period_timeout_secs,
                log_active_user: log_active_user,
                users: Seq::<(Seq<char>, UserDataView)>::empty(),
            }),
            users_unique(r@.users),
    {
        let r = ActiveUserManager { grace_period_millis, grace_period_timeout_secs, log_active_user, user: Vec::new() };
        proof {
            assert(entries_view(r.user@) =~= Seq::<(Seq<char>, UserDataView)>::empty());
        }
        r
    }

    /// Whether activity of users should be logged.
    pub fn log_active_user(&self) -> (r: bool)
        ensures
            r == self@.log_active_user,
    {
        self.log_active_user
    }

    /// The position of the user called `username`.
    fn find_user(&self, username: &str) -> (r: Option<usize>)
        ensures
            match r {
                Some(i) => i as int == user_index(self@.users, username@) && (i as int) < self@.users.len(),
                None => user_index(self@.users, username@) < 0,
            },
    {
        let ghost us = self@.users;
        let n = self.user.len();
        for i in 0..n
            invariant
                n == self.user.len(),
                us == self@.users,
                us.len() == n,
                user_index_from(us, username@, 0) == user_index_from(us, username@, i as nat),
        {
            proof {
                assert(us[i as int] == (self.user@[i as int].username@, self.user@[i as int].data@));
            }
            if str_eq(self.user[i].username.as_str(), username) {
                return Some(i);
            }
        }
        None
    }

    /// The number of connections of `username`; 0 for an unknown user.
    pub fn user_connections(&self, username: &str) -> (r: u32)
        ensures
            r == (if user_index(self@.users, username@) >= 0 {
                self@.users[user_index(self@.users, username@)].1.connections
            } else {
                0
            }),
    {
        match self.find_user(username) {
            Some(i) => {
                proof {
                    assert(self@.users[i as int].1 == self.user@[i as int].data@);
                }
                self.user[i].data.connections
            },
            None => 0,
        }
    }

    /// The number of known users.
    pub fn active_users(&self) -> (r: usize)
        ensures
            r == self@.users.len(),
    {
        self.user.len()
    }

    /// The sum of the connections of all users.
    pub fn active_connections(&self) -> (r: usize)
        requires
            connections_total(self@.users) <= usize::MAX,
        ensures
            r == connections_total(self@.users),
    {
        let ghost us = self@.users;
        let n = self.user.len();
        let mut total: usize = 0;
        for i in 0..n
            invariant
                n == self.user.len(),
                us == self@.users,
                us.len() == n,
                connections_total(us) <= usize::MAX,
                total == connections_total(us.take(i as int)),
        {
            proof {
                assert(us.take(i + 1).drop_last() =~= us.take(i as int));
                assert(us.take(i + 1).last() == us[i as int]);
                assert(us[i as int].1 == self.user@[i as int].data@);
                lemma_connections_total_prefix(us, i + 1);
            }
            total = total + self.user[i].data.connections as usize;
        }
        proof {
            assert(us.take(n as int) =~= us);
        }
        total
    }
}

/// The connections of a prefix are at most those of the whole list.
proof fn lemma_connections_total_prefix(us: Seq<(Seq<char>, UserDataView)>, k: int)
    requires
        0 <= k <= us.len(),
    ensures
        connections_total(us.take(k)) <= connections_total(us),
    decreases us.len(),
{
    if us.len() > 0 {
        if k == us.len() {
            assert(us.take(k) =~= us);
        } else {
            assert(us.drop_last().take(k) =~= us.take(k));
            lemma_connections_total_prefix(us.drop_last(), k);
        }
    }
}

/// The permission check of one user at time `now`.
fn check_connection_permission(data: &mut UserConnectionData, grace_period_millis: u64, grace_period_timeout_secs: u64, now: u64) -> (r: UserConnectionPermission)
    ensures
        (final(data)@, r) == permission_check(old(data)@, grace_period_millis, grace_period_timeout_secs, now),
{
    let current_connections = data.connections;
    if current_connections < data.max_connections {
        // back under the limit: the grace period ends
        data.granted_grace = false;
        data.grace_ts = 0;
        return UserConnectionPermission::Allowed;
    }
    if data.granted_grace {
        if now.saturating_sub(data.grace_ts) <= grace_period_timeout_secs {
            // the grace period still runs: deny
            return UserConnectionPermission::Exhausted;
        }
        // the grace period is over
        data.granted_grace = false;
        data.grace_ts = 0;
    }
    if grace_period_millis > 0 && current_connections == data.max_connections {
        // grant the grace period once
        data.granted_grace = true;
        data.grace_ts = now;
        return UserConnectionPermission::GracePeriod;
    }
    UserConnectionPermission::Exhausted
}

/// Whether a user may open one more stream, checked at time `now`: a
/// limited user that is known is checked as `permission_check` says; anyone
/// else is allowed.
pub open spec fn permission_outcome(old: UserManagerView, new: UserManagerView, username: Seq<char>, max_connections: u32, r: UserConnectionPermission, now: u64) -> bool {
    let i = user_index(old.users, username);
    if max_connections > 0 && i >= 0 {
        let (d, p) = permission_check(old.users[i].1, old.grace_period_millis, old.grace_period_timeout_secs, now);
        &&& new == with_user(old, i, d)
        &&& r == p
    } else {
        &&& new == old
        &&& r == UserConnectionPermission::Allowed
    }
}

impl ActiveUserManager {
    /// Whether `username` may open one more stream, checked at time `now`.
    pub fn connection_permission_at(&mut self, username: &str, max_connections: u32, now: u64) -> (r: UserConnectionPermission)
        requires
            users_unique(old(self)@.users),
        ensures
            permission_outcome(old(self)@, final(self)@, username@, max_connections, r, now),
            users_unique(final(self)@.users),
    {
        if max_connections > 0 {
            match self.find_user(username) {
                Some(i) => {
                    let ghost us = self@.users;
                    proof {
                        assert(us[i as int] == (self.user@[i as int].username@, self.user@[i as int].data@));
                    }
                    let gm = self.grace_period_millis;
                    let gt = self.grace_period_timeout_secs;
                    let r = check_connection_permission(&mut self.user[i].data, gm, gt, now);
                    proof {
                        assert(entries_view(self.user@) =~= us.update(i as int, (us[i as int].0, self.user@[i as int].data@)));
                        assert forall|a: int, b: int| 0 <= a < b < self@.users.len() implies
                            (#[trigger] self@.users[a]).0 != (#[trigger] self@.users[b]).0 by {
                            assert(self@.users[a].0 == us[a].0);
                            assert(self@.users[b].0 == us[b].0);
                        }
                    }
                    return r;
                },
                None => {},
            }
        }
        UserConnectionPermission::Allowed
    }

    /// Whether `username` may open one more stream, now.
    pub fn connection_permission(&mut self, username: &str, max_connections: u32) -> (r: UserConnectionPermission)
        requires
            users_unique(old(self)@.users),
        ensures
            exists|now: u64| #[trigger] permission_outcome(old(self)@, final(self)@, username@, max_connections, r, now),
            users_unique(final(self)@.users),
    {
        let now = current_timestamp();
        self.connection_permission_at(username, max_connections, now)
    }

    /// Counts a new stream of `username` and records its current limit; a
    /// user seen for the first time starts with one connection.
    pub fn add_connection(&mut self, username: &str, max_connections: u32)
        requires
            users_unique(old(self)@.users),
            user_index(old(self)@.users, username@) >= 0 ==> old(self)@.users[user_index(old(self)@.users, username@)].1.connections < u32::MAX,
        ensures
            users_unique(final(self)@.users),
            final(self)@ == after_add_connection(old(self)@, username@, max_connections),
    {
        let ghost us = self@.users;
        match self.find_user(username) {
            Some(i) => {
                proof {
                    assert(us[i as int] == (self.user@[i as int].username@, self.user@[i as int].data@));
                }
                self.user[i].data.connections = self.user[i].data.connections + 1;
                self.user[i].data.max_connections = max_connections;
                proof {
                    assert(entries_view(self.user@) =~= us.update(i as int, (us[i as int].0, self.user@[i as int].data@)));
                    assert(self.user@[i as int].data@.sessions == us[i as int].1.sessions);
                    assert forall|a: int, b: int| 0 <= a < b < self@.users.len() implies
                        (#[trigger] self@.users[a]).0 != (#[trigger] self@.users[b]).0 by {
                        assert(self@.users[a].0 == us[a].0);
                        assert(self@.users[b].0 == us[b].0);
                    }
                }
            },
            None => {
                let entry = UserEntry { username: username.to_string(), data: UserConnectionData::new(max_connections) };
                self.user.push(entry);
                proof {
                    assert(entries_view(self.user@) =~= us.push((username@, new_user_data(max_connections))));
                    lemma_user_index_absent(us, username@, 0);
                    assert forall|a: int, b: int| 0 <= a < b < self@.users.len() implies
                        (#[trigger] self@.users[a]).0 != (#[trigger] self@.users[b]).0 by {
                        if b == us.len() {
                            assert(self@.users[a].0 == us[a].0);
                        } else {
                            assert(self@.users[a].0 == us[a].0);
                            assert(self@.users[b].0 == us[b].0);
                        }
                    }
                }
            },
        }
    }

    /// Counts one stream of `username` less; the grace state is kept until
    /// the next permission check looks at it.
    pub fn remove_connection(&mut self, username: &str)
        requires
            users_unique(old(self)@.users),
        ensures
            users_unique(final(self)@.users),
            final(self)@ == after_remove_connection(old(self)@, username@),
    {
        let ghost us = self@.users;
        match self.find_user(username) {
            Some(i) => {
                proof {
                    assert(us[i as int] == (self.user@[i as int].username@, self.user@[i as int].data@));
                }
                if self.user[i].data.connections > 0 {
                    self.user[i].data.connections = self.user[i].data.connections - 1;
                    proof {
                        assert(entries_view(self.user@) =~= us.update(i as int, (us[i as int].0, self.user@[i as int].data@)));
                        assert forall|a: int, b: int| 0 <= a < b < self@.users.len() implies
                            (#[trigger] self@.users[a]).0 != (#[trigger] self@.users[b]).0 by {
                            assert(self@.users[a].0 == us[a].0);
                            assert(self@.users[b].0 == us[b].0);
                        }
                    }
                }
            },
            None => {},
        }
    }
}

/// A name that is not found occurs nowhere from `i` on.
proof fn lemma_user_index_absent(us: Seq<(Seq<char>, UserDataView)>, name: Seq<char>, i: nat)
    requires
        user_index_from(us, name, i) < 0,
    ensures
        forall|j: int| i <= j < us.len() ==> (#[trigger] us[j]).0 != name,
    decreases us.len() - i,
{
    if i < us.len() {
        lemma_user_index_absent(us, name, i + 1);
    }
}

/// The position of the first session with `token` at or after `i`, or -1.
pub open spec fn session_index_from(ss: Seq<SessionView>, token: u32, i: nat) -> int
    decreases ss.len() - i,
{
    if i >= ss.len() {
        -1
    } else if ss[i as int].token == token {
        i as int
    } else {
        session_index_from(ss, token, i + 1)
    }
}

/// The first session with `token`.
pub fn find_user_session(token: u32, sessions: &Vec<UserSession>) -> (r: Option<&UserSession>)
    ensures
        match r {
            Some(s) => {
                let k = session_index_from(sessions_view(sessions@), token, 0);
                &&& k >= 0
                &&& s@ == sessions_view(sessions@)[k]
            },
            None => session_index_from(sessions_view(sessions@), token, 0) < 0,
        },
{
    let ghost ss = sessions_view(sessions@);
    let n = sessions.len();
    for k in 0..n
        invariant
            n == sessions.len(),
            ss == sessions_view(sessions@),
            session_index_from(ss, token, 0) == session_index_from(ss, token, k as nat),
    {
        assert(ss[k as int] == sessions@[k as int]@);
        if sessions[k].token == token {
            return Some(&sessions[k]);
        }
    }
    None
}

/// The position of the first session with `token`.
fn session_position(sessions: &Vec<UserSession>, token: u32) -> (r: Option<usize>)
    ensures
        match r {
            Some(k) => k as int == session_index_from(sessions_view(sessions@), token, 0) && k < sessions@.len(),
            None => session_index_from(sessions_view(sessions@), token, 0) < 0,
        },
{
    let ghost ss = sessions_view(sessions@);
    let n = sessions.len();
    for k in 0..n
        invariant
            n == sessions.len(),
            ss == sessions_view(sessions@),
            session_index_from(ss, token, 0) == session_index_from(ss, token, k as nat),
    {
        assert(ss[k as int] == sessions@[k as int]@);
        if sessions[k].token == token {
            return Some(k);
        }
    }
    None
}

/// A session opened at time `now` with `token`.
pub open spec fn new_session(token: u32, virtual_id: u32, provider: Seq<char>, stream_url: Seq<char>, permission: UserConnectionPermission, now: u64) -> SessionView {
    SessionView { token, virtual_id, provider, stream_url, ts: now, permission }
}

/// Opening a session for a known user appends it to the user's sessions;
/// for an unknown user nothing changes.
pub open spec fn create_session_outcome(old: UserManagerView, new: UserManagerView, username: Seq<char>, s: SessionView, r: Option<u32>) -> bool {
    let i = user_index(old.users, username);
    if i >= 0 {
        let d = old.users[i].1;
        &&& new == with_user(old, i, UserDataView { sessions: d.sessions.push(s), ..d })
        &&& r == Some(s.token)
    } else {
        &&& new == old
        &&& r is None
    }
}

/// Looking up a session at time `now`: the first session with the token of
/// a known user is returned; when the user is limited and the session was
/// opened in a grace period, the user's permission is checked again and
/// the session takes the new permission.
pub open spec fn session_outcome(old: UserManagerView, new: UserManagerView, username: Seq<char>, token: u32, r: Option<SessionView>, now: u64) -> bool {
    let i = user_index(old.users, username);
    if i < 0 {
        &&& new == old
        &&& r is None
    } else {
        let d = old.users[i].1;
        let k = session_index_from(d.sessions, token, 0);
        if k < 0 {
            &&& new == old
            &&& r is None
        } else if d.max_connections != 0 && d.sessions[k].permission == UserConnectionPermission::GracePeriod {
            let (d2, p) = permission_check(d, old.grace_period_millis, old.grace_period_timeout_secs, now);
            let d3 = UserDataView { sessions: d2.sessions.update(k, SessionView { permission: p, ..d2.sessions[k] }), ..d2 };
            &&& new == with_user(old, i, d3)
            &&& r == Some(d3.sessions[k])
        } else {
            &&& new == old
            &&& r == Some(d.sessions[k])
        }
    }
}

/// The abstract value of an optional session.
pub open spec fn option_session(o: Option<UserSession>) -> Option<SessionView> {
    match o {
        Some(s) => Some(s@),
        None => None,
    }
}

impl ActiveUserManager {
    /// Opens a session with `token` at time `now` for a known user.
    pub fn create_user_session_at(&mut self, username: &str, virtual_id: u32, provider: &str, stream_url: &str,
        connection_permission: UserConnectionPermission, token: u32, now: u64) -> (r: Option<u32>)
        requires
            users_unique(old(self)@.users),
        ensures
            users_unique(final(self)@.users),
            create_session_outcome(old(self)@, final(self)@, username@,
                new_session(token, virtual_id, provider@, stream_url@, connection_permission, now), r),
    {
        let ghost us = self@.users;
        match self.find_user(username) {
            Some(i) => {
                proof {
                    assert(us[i as int] == (self.user@[i as int].username@, self.user@[i as int].data@));
                }
                let session = UserSession {
                    token,
                    virtual_id,
                    provider: provider.to_string(),
                    stream_url: stream_url.to_string(),
                    ts: now,
                    permission: connection_permission,
                };
                self.user[i].data.sessions.push(session);
                proof {
                    assert(sessions_view(self.user@[i as int].data.sessions@) =~= us[i as int].1.sessions.push(
                        new_session(token, virtual_id, provider@, stream_url@, connection_permission, now)));
                    assert(entries_view(self.user@) =~= us.update(i as int, (us[i as int].0, self.user@[i as int].data@)));
                    assert forall|a: int, b: int| 0 <= a < b < self@.users.len() implies
                        (#[trigger] self@.users[a]).0 != (#[trigger] self@.users[b]).0 by {
                        assert(self@.users[a].0 == us[a].0);
                        assert(self@.users[b].0 == us[b].0);
                    }
                }
                Some(token)
            },
            None => None,
        }
    }

    /// Opens a session for a known user, with a random token and the
    /// present time. Where the random source fails, no session is opened
    /// and the manager is left as it was.
    pub fn create_user_session(&mut self, username: &str, virtual_id: u32, provider: &str, stream_url: &str,
        connection_permission: UserConnectionPermission) -> (r: Option<u32>)
        requires
            users_unique(old(self)@.users),
        ensures
            users_unique(final(self)@.users),
            (r is None && final(self)@ == old(self)@)
                || exists|token: u32, now: u64| #[trigger] create_session_outcome(old(self)@, final(self)@, username@,
                    new_session(token, virtual_id, provider@, stream_url@, connection_permission, now), r),
    {
        match random_u32() {
            Some(token) => {
                let now = current_timestamp();
                self.create_user_session_at(username, virtual_id, provider, stream_url, connection_permission, token, now)
            },
            None => None,
        }
    }

    /// Looks up a session of `username` at time `now` (see `session_outcome`).
    pub fn update_user_session_at(&mut self, username: &str, token: u32, now: u64) -> (r: Option<UserSession>)
        requires
            users_unique(old(self)@.users),
        ensures
            users_unique(final(self)@.users),
            session_outcome(old(self)@, final(self)@, username@, token, option_session(r), now),
    {
        let ghost us = self@.users;
        match self.find_user(username) {
            None => None,
            Some(i) => {
                proof {
                    assert(us[i as int] == (self.user@[i as int].username@, self.user@[i as int].data@));
                }
                if self.user[i].data.max_connections == 0 {
                    return match find_user_session(token, &self.user[i].data.sessions) {
                        Some(session) => Some(session.clone_session()),
                        None => None,
                    };
                }
                let ghost ss = us[i as int].1.sessions;
                let found_session_index = session_position(&self.user[i].data.sessions, token);
                match found_session_index {
                    None => None,
                    Some(index) => {
                        assert(session_index_from(ss, token, 0) == index);
                        assert(ss[index as int] == self.user@[i as int].data.sessions@[index as int]@);
                        let session_permission = self.user[i].data.sessions[index].permission;
                        if session_permission == UserConnectionPermission::GracePeriod {
                            let gm = self.grace_period_millis;
                            let gt = self.grace_period_timeout_secs;
                            let new_permission = check_connection_permission(&mut self.user[i].data, gm, gt, now);
                            let ghost d2 = self.user@[i as int].data@;
                            self.user[i].data.sessions[index].permission = new_permission;
                            proof {
                                let d3 = UserDataView {
                                    sessions: d2.sessions.update(index as int, SessionView { permission: new_permission, ..d2.sessions[index as int] }),
                                    ..d2
                                };
                                assert(sessions_view(self.user@[i as int].data.sessions@) =~= d3.sessions);
                                assert(self.user@[i as int].data@ == d3);
                                assert(entries_view(self.user@) =~= us.update(i as int, (us[i as int].0, d3)));
                                assert forall|a: int, b: int| 0 <= a < b < self@.users.len() implies
                                    (#[trigger] self@.users[a]).0 != (#[trigger] self@.users[b]).0 by {
                                    assert(self@.users[a].0 == us[a].0);
                                    assert(self@.users[b].0 == us[b].0);
                                }
                            }
                        }
                        Some(self.user[i].data.sessions[index].clone_session())
                    },
                }
            },
        }
    }

    /// Looks up a session of `username` now (see `session_outcome`).
    pub fn get_user_session(&mut self, username: &str, token: u32) -> (r: Option<UserSession>)
        requires
            users_unique(old(self)@.users),
        ensures
            users_unique(final(self)@.users),
            exists|now: u64| #[trigger] session_outcome(old(self)@, final(self)@, username@, token, option_session(r), now),
    {
        let now = current_timestamp();
        self.update_user_session_at(username, token, now)
    }
}

/// A grace period is granted once: after a check grants it at `t1`, every
/// check within the timeout denies while the user still holds at least its
/// limit.
pub proof fn lemma_grace_granted_once(d: UserDataView, grace_period_millis: u64, timeout: u64, t1: u64, t2: u64, connections: u32)
    requires
        permission_check(d, grace_period_millis, timeout, t1).1 == UserConnectionPermission::GracePeriod,
        elapsed_secs(t2, t1) <= timeout,
        connections >= d.max_connections,
    ensures
        permission_check(
            UserDataView { connections: connections, ..permission_check(d, grace_period_millis, timeout, t1).0 },
            grace_period_millis,
            timeout,
            t2,
        ).1 == UserConnectionPermission::Exhausted,
{
}

/// A user below its limit is allowed; a user at or above it never is.
pub proof fn lemma_allowed_iff_below_limit(d: UserDataView, grace_period_millis: u64, timeout: u64, now: u64)
    ensures
        (permission_check(d, grace_period_millis, timeout, now).1 == UserConnectionPermission::Allowed) <==> d.connections
            < d.max_connections,
        permission_check(d, grace_period_millis, timeout, now).1 == UserConnectionPermission::GracePeriod ==> {
            &&& grace_period_millis > 0
            &&& d.connections == d.max_connections
        },
{
}

/// A permission check changes only the grace state: connections, limit and
/// sessions stay as they are.
pub proof fn lemma_check_keeps_counts(d: UserDataView, grace_period_millis: u64, timeout: u64, now: u64)
    ensures
        permission_check(d, grace_period_millis, timeout, now).0.connections == d.connections,
        permission_check(d, grace_period_millis, timeout, now).0.max_connections == d.max_connections,
        permission_check(d, grace_period_millis, timeout, now).0.sessions == d.sessions,
{
}

/// A stream that is counted and then ends leaves the user's connection
/// count as it was (a user seen for the first time stays known, with no
/// connection).
pub proof fn lemma_remove_undoes_add(v: UserManagerView, username: Seq<char>, max_connections: u32)
    requires
        users_unique(v.users),
        user_index(v.users, username) >= 0 ==> v.users[user_index(v.users, username)].1.connections < u32::MAX,
    ensures
        ({
            let w = after_remove_connection(after_add_connection(v, username, max_connections), username);
            let i = user_index(w.users, username);
            &&& i >= 0
            &&& w.users[i].1.connections == (if user_index(v.users, username) >= 0 {
                v.users[user_index(v.users, username)].1.connections
            } else {
                0
            })
        }),
{
    let i = user_index(v.users, username);
    let a = after_add_connection(v, username, max_connections);
    let w = after_remove_connection(a, username);
    lemma_user_index_bounds(v.users, username, 0);
    if i >= 0 {
        assert forall|j: int| 0 <= j < v.users.len() implies (#[trigger] v.users[j]).0 == a.users[j].0 by {}
        lemma_user_index_same_names(v.users, a.users, username, 0);
        assert(user_index(a.users, username) == i);
        assert forall|j: int| 0 <= j < a.users.len() implies (#[trigger] a.users[j]).0 == w.users[j].0 by {}
        lemma_user_index_same_names(a.users, w.users, username, 0);
    } else {
        lemma_user_index_absent(v.users, username, 0);
        let k = v.users.len() as int;
        assert forall|j: int| 0 <= j < k implies (#[trigger] a.users[j]).0 != username by {
            assert(a.users[j] == v.users[j]);
        }
        lemma_user_index_found(a.users, username, k);
        assert forall|j: int| 0 <= j < a.users.len() implies (#[trigger] a.users[j]).0 == w.users[j].0 by {}
        lemma_user_index_same_names(a.users, w.users, username, 0);
    }
}

/// A found position lies in the list and holds the name.
proof fn lemma_user_index_bounds(us: Seq<(Seq<char>, UserDataView)>, name: Seq<char>, i: nat)
    ensures
        user_index_from(us, name, i) >= 0 ==> {
            &&& i <= user_index_from(us, name, i) < us.len()
            &&& us[user_index_from(us, name, i)].0 == name
        },
    decreases us.len() - i,
{
    if i < us.len() {
        lemma_user_index_bounds(us, name, i + 1);
    }
}

/// Lists with the same names find a name at the same position.
proof fn lemma_user_index_same_names(a: Seq<(Seq<char>, UserDataView)>, b: Seq<(Seq<char>, UserDataView)>, name: Seq<char>, i: nat)
    requires
        a.len() == b.len(),
        forall|j: int| 0 <= j < a.len() ==> (#[trigger] a[j]).0 == b[j].0,
    ensures
        user_index_from(a, name, i) == user_index_from(b, name, i),
    decreases a.len() - i,
{
    if i < a.len() {
        lemma_user_index_same_names(a, b, name, i + 1);
    }
}

/// In a list whose names are unique, the one position holding a name is
/// where it is found.
proof fn lemma_user_index_found(us: Seq<(Seq<char>, UserDataView)>, name: Seq<char>, k: int)
    requires
        0 <= k < us.len(),
        us[k].0 == name,
        forall|j: int| 0 <= j < k ==> (#[trigger] us[j]).0 != name,
    ensures
        user_index(us, name) == k,
{
    lemma_user_index_skip(us, name, 0, k);
}

proof fn lemma_user_index_skip(us: Seq<(Seq<char>, UserDataView)>, name: Seq<char>, from: nat, k: int)
    requires
        from <= k < us.len(),
        us[k].0 == name,
        forall|j: int| from <= j < k ==> (#[trigger] us[j]).0 != name,
    ensures
        user_index_from(us, name, from) == k,
    decreases k - from,
{
    if from < k {
        lemma_user_index_skip(us, name, from + 1, k);
    }
}

proof fn lemma_session_index_push(ss: Seq<SessionView>, x: SessionView, token: u32, i: nat)
    requires
        session_index_from(ss, token, i) < 0,
        i <= ss.len(),
        x.token == token,
    ensures
        session_index_from(ss.push(x), token, i) == ss.len(),
    decreases ss.len() - i,
{
    if i < ss.len() {
        assert(ss.push(x)[i as int] == ss[i as int]);
        lemma_session_index_push(ss, x, token, i + 1);
    } else {
        assert(ss.push(x)[i as int] == x);
    }
}

/// A session just opened is found again by its token, with its stream,
/// provider and opening time, when the user held no other session with
/// that token (only its permission may be checked anew).
pub proof fn lemma_session_found_after_create(
    old: UserManagerView,
    mid: UserManagerView,
    new: UserManagerView,
    username: Seq<char>,
    s: SessionView,
    r: Option<u32>,
    r2: Option<SessionView>,
    now: u64,
)
    requires
        create_session_outcome(old, mid, username, s, r),
        r is Some,
        session_index_from(old.users[user_index(old.users, username)].1.sessions, s.token, 0) < 0,
        session_outcome(mid, new, username, s.token, r2, now),
    ensures
        r2 matches Some(x) && {
            &&& x.token == s.token
            &&& x.virtual_id == s.virtual_id
            &&& x.provider == s.provider
            &&& x.stream_url == s.stream_url
            &&& x.ts == s.ts
        },
{
    let i = user_index(old.users, username);
    lemma_user_index_bounds(old.users, username, 0);
    let d = old.users[i].1;
    assert forall|j: int| 0 <= j < old.users.len() implies (#[trigger] old.users[j]).0 == mid.users[j].0 by {
        if j == i {
            assert(mid.users[j] == (old.users[i].0, UserDataView { sessions: d.sessions.push(s), ..d }));
        }
    }
    lemma_user_index_same_names(old.users, mid.users, username, 0);
    lemma_session_index_push(d.sessions, s, s.token, 0);
    let ss = d.sessions.push(s);
    assert(mid.users[i].1.sessions == ss);
    assert(ss[d.sessions.len() as int] == s);
}

/// The registry after `n` streams of `username` are counted, each with the
/// limit `max_connections`.
pub open spec fn after_adds(v: UserManagerView, username: Seq<char>, max_connections: u32, n: nat) -> UserManagerView
    decreases n,
{
    if n == 0 {
        v
    } else {
        after_add_connection(after_adds(v, username, max_connections, (n - 1) as nat), username, max_connections)
    }
}

/// The user is unknown, or known with no connection and no grace period.
pub open spec fn fresh_user(v: UserManagerView, username: Seq<char>) -> bool {
    let i = user_index(v.users, username);
    i < 0 || (v.users[i].1.connections == 0 && !v.users[i].1.granted_grace)
}

/// A fresh user counted `n` times holds `n` connections under the limit,
/// and has been granted no grace period.
proof fn lemma_after_adds_fresh(v: UserManagerView, username: Seq<char>, m: u32, n: nat)
    requires
        fresh_user(v, username),
        1 <= n <= m,
    ensures
        ({
            let w = after_adds(v, username, m, n);
            let i = user_index(w.users, username);
            &&& 0 <= i < w.users.len()
            &&& w.users[i].1.connections == n
            &&& w.users[i].1.max_connections == m
            &&& !w.users[i].1.granted_grace
            &&& w.grace_period_millis == v.grace_period_millis
            &&& w.grace_period_timeout_secs == v.grace_period_timeout_secs
        }),
    decreases n,
{
    if n == 1 {
        let a = after_adds(v, username, m, 1);
        assert(after_adds(v, username, m, 0) == v);
        let i = user_index(v.users, username);
        if i < 0 {
            lemma_user_index_absent(v.users, username, 0);
            let k = v.users.len() as int;
            assert(a.users == v.users.push((username, new_user_data(m))));
            assert forall|j: int| 0 <= j < k implies (#[trigger] a.users[j]).0 != username by {
                assert(a.users[j] == v.users[j]);
            }
            lemma_user_index_found(a.users, username, k);
        } else {
            lemma_user_index_bounds(v.users, username, 0);
            assert forall|j: int| 0 <= j < v.users.len() implies (#[trigger] v.users[j]).0 == a.users[j].0 by {}
            lemma_user_index_same_names(v.users, a.users, username, 0);
        }
    } else {
        lemma_after_adds_fresh(v, username, m, (n - 1) as nat);
        let w0 = after_adds(v, username, m, (n - 1) as nat);
        let i = user_index(w0.users, username);
        let a = after_adds(v, username, m, n);
        assert(a == after_add_connection(w0, username, m));
        assert forall|j: int| 0 <= j < w0.users.len() implies (#[trigger] w0.users[j]).0 == a.users[j].0 by {}
        lemma_user_index_same_names(w0.users, a.users, username, 0);
    }
}

/// The permission sequence of a limited user: a user counted as many times
/// as its limit (from unknown, or from no connection and no grace period,
/// with grace periods configured) is granted a grace period by the next
/// check, and a check within the grace timeout after that denies.
pub proof fn lemma_permission_sequence(
    v: UserManagerView,
    username: Seq<char>,
    m: u32,
    t1: u64,
    t2: u64,
    w1: UserManagerView,
    r1: UserConnectionPermission,
    w2: UserManagerView,
    r2: UserConnectionPermission,
)
    requires
        fresh_user(v, username),
        v.grace_period_millis > 0,
        m > 0,
        elapsed_secs(t2, t1) <= v.grace_period_timeout_secs,
        permission_outcome(after_adds(v, username, m, m as nat), w1, username, m, r1, t1),
        permission_outcome(w1, w2, username, m, r2, t2),
    ensures
        r1 == UserConnectionPermission::GracePeriod,
        r2 == UserConnectionPermission::Exhausted,
{
    lemma_after_adds_fresh(v, username, m, m as nat);
    let w = after_adds(v, username, m, m as nat);
    let i = user_index(w.users, username);
    let d = w.users[i].1;
    assert(w1 == with_user(w, i, permission_check(d, w.grace_period_millis, w.grace_period_timeout_secs, t1).0));
    assert forall|j: int| 0 <= j < w.users.len() implies (#[trigger] w.users[j]).0 == w1.users[j].0 by {}
    lemma_user_index_same_names(w.users, w1.users, username, 0);
}

/// A check without a limit, or of a user the registry does not know,
/// allows the stream and leaves the registry as it was.
pub proof fn lemma_permission_unlimited_or_unknown(
    v: UserManagerView,
    username: Seq<char>,
    m: u32,
    now: u64,
    w: UserManagerView,
    r: UserConnectionPermission,
)
    requires
        m == 0 || user_index(v.users, username) < 0,
        permission_outcome(v, w, username, m, r, now),
    ensures
        r == UserConnectionPermission::Allowed,
        w == v,
{
}

/// Looking up a session of a limited user: a session opened in a grace
/// period comes back carrying the permission that the user's permission
/// check (`connection_permission_at`) gives at that time, and the registry
/// changes as that check changes it, apart from the session's permission;
/// any other session comes back as it was stored, the registry unchanged.
pub proof fn lemma_grace_session_rechecked(
    old: UserManagerView,
    new: UserManagerView,
    username: Seq<char>,
    token: u32,
    r: Option<SessionView>,
    now: u64,
    w: UserManagerView,
    p: UserConnectionPermission,
)
    requires
        session_outcome(old, new, username, token, r, now),
        user_index(old.users, username) >= 0,
        old.users[user_index(old.users, username)].1.max_connections > 0,
        session_index_from(old.users[user_index(old.users, username)].1.sessions, token, 0) >= 0,
        permission_outcome(old, w, username, old.users[user_index(old.users, username)].1.max_connections, p, now),
    ensures
        ({
            let d = old.users[user_index(old.users, username)].1;
            let s = d.sessions[session_index_from(d.sessions, token, 0)];
            &&& r is Some
            &&& s.permission == UserConnectionPermission::GracePeriod ==> r == Some(SessionView { permission: p, ..s })
            &&& s.permission != UserConnectionPermission::GracePeriod ==> (r == Some(s) && new == old)
        }),
{
    let i = user_index(old.users, username);
    let d = old.users[i].1;
    let k = session_index_from(d.sessions, token, 0);
    lemma_session_index_bounds(d.sessions, token, 0);
    lemma_check_keeps_counts(d, old.grace_period_millis, old.grace_period_timeout_secs, now);
}

proof fn lemma_session_index_bounds(ss: Seq<SessionView>, token: u32, i: nat)
    ensures
        session_index_from(ss, token, i) >= 0 ==> {
            &&& i <= session_index_from(ss, token, i) < ss.len()
            &&& ss[session_index_from(ss, token, i)].token == token
        },
    decreases ss.len() - i,
{
    if i < ss.len() {
        lemma_session_index_bounds(ss, token, i + 1);
    }
}

/// Looking up a session of an unknown user, or a token the user holds no
/// session for, finds nothing and changes nothing; a session of a user
/// without a limit comes back as stored, nothing changed.
pub proof fn lemma_session_lookup_misses(
    old: UserManagerView,
    new: UserManagerView,
    username: Seq<char>,
    token: u32,
    r: Option<SessionView>,
    now: u64,
)
    requires
        session_outcome(old, new, username, token, r, now),
    ensures
        user_index(old.users, username) < 0 ==> (r is None && new == old),
        user_index(old.users, username) >= 0 && session_index_from(
            old.users[user_index(old.users, username)].1.sessions, token, 0) < 0 ==> (r is None && new == old),
        user_index(old.users, username) >= 0 && old.users[user_index(old.users, username)].1.max_connections == 0
            && session_index_from(old.users[user_index(old.users, username)].1.sessions, token, 0) >= 0 ==> {
            let d = old.users[user_index(old.users, username)].1;
            &&& r == Some(d.sessions[session_index_from(d.sessions, token, 0)])
            &&& new == old
        },
        r matches Some(x) ==> x.token == token,
{
    let i = user_index(old.users, username);
    if i >= 0 {
        lemma_session_index_bounds(old.users[i].1.sessions, token, 0);
        lemma_check_keeps_counts(old.users[i].1, old.grace_period_millis, old.grace_period_timeout_secs, now);
    }
}

} // verus!
