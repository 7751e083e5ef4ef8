//! One provider account and the accounting of its open connections.
//!
//! A provider accepts `max_connections` streams at once (0 means no limit).
//! When the limit is reached a caller may ask for a grace connection: one
//! connection above the limit, granted once, so that a client that switches
//! channels can open the new stream before the old one is closed.

use vstd::prelude::*;
use crate::clock::current_timestamp;
use crate::text::str_eq;
use crate::config::{clone_opt_string, opt_view, ConfigInput, ConfigInputAlias, InputType};

verus! {

/// The answer of a provider to a connection request.
#[derive(Clone, Copy, Debug, PartialEq, Eq, Structural)]
pub enum ProviderConfigAllocation {
    Exhausted,
    Available,
    GracePeriod,
}

/// The mutable connection state of a provider.
#[derive(Clone, Copy, Debug, PartialEq, Eq, Structural)]
pub struct ProviderConfigConnection {
    pub current_connections: usize,
    pub granted_grace: bool,
    pub grace_ts: u64,
}

/// The connection state with no grace period running.
pub open spec fn without_grace(c: ProviderConfigConnection) -> ProviderConfigConnection {
    ProviderConfigConnection { current_connections: c.current_connections, granted_grace: false, grace_ts: 0 }
}

/// A grace timestamp is only set while a grace period is granted.
pub open spec fn connection_wf(c: ProviderConfigConnection) -> bool {
    !c.granted_grace ==> c.grace_ts == 0
}

/// Seconds from `since` to `now`; a clock that went back counts as no time.
pub open spec fn elapsed_secs(now: u64, since: u64) -> int {
    if now >= since { now - since } else { 0 }
}

/// What a connection request receives, given the current state.
pub open spec fn allocation_for(c: ProviderConfigConnection, max: usize, grace: bool) -> ProviderConfigAllocation {
    if max == 0 || c.current_connections < max {
        ProviderConfigAllocation::Available
    } else if grace && c.current_connections == max {
        ProviderConfigAllocation::GracePeriod
    } else {
        ProviderConfigAllocation::Exhausted
    }
}

/// The connection state after a connection request at time `now`.
pub open spec fn after_allocate(c: ProviderConfigConnection, max: usize, grace: bool, now: u64) -> ProviderConfigConnection {
    let next = (c.current_connections + 1) as usize;
    match allocation_for(c, max, grace) {
        ProviderConfigAllocation::Available => if max == 0 {
            ProviderConfigConnection { current_connections: next, ..c }
        } else {
            ProviderConfigConnection { current_connections: next, granted_grace: false, grace_ts: 0 }
        },
        ProviderConfigAllocation::GracePeriod =>
            ProviderConfigConnection { current_connections: next, granted_grace: true, grace_ts: now },
        ProviderConfigAllocation::Exhausted => c,
    }
}

/// Whether a redirect may use the provider (no connection is counted).
pub open spec fn next_allowed(c: ProviderConfigConnection, max: usize, grace: bool) -> bool {
    max == 0 || c.current_connections < max || (grace && c.current_connections == max)
}

/// A provider after a connection request at time `now`.
pub open spec fn allocated(p: ProviderView, grace: bool, now: u64) -> ProviderView {
    with_conn(p, after_allocate(p.conn, p.max, grace, now))
}

/// Whether every connection of a limited provider is in use.
pub open spec fn provider_exhausted(p: ProviderView) -> bool {
    p.max != 0 && p.conn.current_connections >= p.max
}

/// The connection state after a redirect request.
pub open spec fn after_next(c: ProviderConfigConnection, max: usize, grace: bool) -> ProviderConfigConnection {
    if max != 0 && next_allowed(c, max, grace) { without_grace(c) } else { c }
}

/// The connection state after a connection is counted whatever the limit.
pub open spec fn after_force(c: ProviderConfigConnection) -> ProviderConfigConnection {
    ProviderConfigConnection { current_connections: (c.current_connections + 1) as usize, ..c }
}

/// The connection state after one connection is closed.
pub open spec fn after_release(c: ProviderConfigConnection, max: usize) -> ProviderConfigConnection {
    let n: usize = if c.current_connections > 0 { (c.current_connections - 1) as usize } else { 0 };
    if n == 0 || n < max {
        ProviderConfigConnection { current_connections: n, granted_grace: false, grace_ts: 0 }
    } else {
        ProviderConfigConnection { current_connections: n, ..c }
    }
}

/// The connection state after a check for running above the limit.
pub open spec fn after_over_limit_check(c: ProviderConfigConnection, max: usize) -> ProviderConfigConnection {
    if max != 0 && c.current_connections < max { without_grace(c) } else { c }
}

/// The account data that identifies a provider.
pub struct ProviderIdentity {
    pub id: u16,
    pub name: Seq<char>,
    pub url: Seq<char>,
    pub username: Option<Seq<char>>,
    pub password: Option<Seq<char>>,
    pub input_type: InputType,
}

/// The abstract state of a provider: its account, its limits and its
/// connection state.
pub struct ProviderView {
    pub identity: ProviderIdentity,
    pub max: usize,
    pub priority: i16,
    pub conn: ProviderConfigConnection,
}

/// A provider in the state `conn`.
pub open spec fn with_conn(v: ProviderView, conn: ProviderConfigConnection) -> ProviderView {
    ProviderView { conn: conn, ..v }
}

/// A fresh connection state.
pub open spec fn fresh_connection() -> ProviderConfigConnection {
    ProviderConfigConnection { current_connections: 0, granted_grace: false, grace_ts: 0 }
}

/// The fresh provider of an input.
pub open spec fn input_provider_view(cfg: &ConfigInput) -> ProviderView {
    ProviderView {
        identity: ProviderIdentity {
            id: cfg.id,
            name: cfg.name@,
            url: cfg.url@,
            username: opt_view(cfg.username),
            password: opt_view(cfg.password),
            input_type: cfg.input_type,
        },
        max: cfg.max_connections as usize,
        priority: cfg.priority,
        conn: fresh_connection(),
    }
}

/// The fresh provider of an alias of an input.
pub open spec fn alias_provider_view(cfg: &ConfigInput, alias: &ConfigInputAlias) -> ProviderView {
    ProviderView {
        identity: ProviderIdentity {
            id: alias.id,
            name: alias.name@,
            url: alias.url@,
            username: opt_view(alias.username),
            password: opt_view(alias.password),
            input_type: cfg.input_type,
        },
        max: alias.max_connections as usize,
        priority: alias.priority,
        conn: fresh_connection(),
    }
}

/// The account data of a provider, handed out with an allocation.
pub struct ProviderInfo {
    pub id: u16,
    pub name: String,
    pub url: String,
    pub username: Option<String>,
    pub password: Option<String>,
    pub input_type: InputType,
}

impl View for ProviderInfo {
    type V = ProviderIdentity;

    open spec fn view(&self) -> ProviderIdentity {
        ProviderIdentity {
            id: self.id,
            name: self.name@,
            url: self.url@,
            username: opt_view(self.username),
            password: opt_view(self.password),
            input_type: self.input_type,
        }
    }
}

/// An individual provider account (an input or one of its aliases).
pub struct ProviderConfig {
    pub id: u16,
    pub name: String,
    pub url: String,
    pub username: Option<String>,
    pub password: Option<String>,
    pub input_type: InputType,
    max_connections: usize,
    priority: i16,
    connection: ProviderConfigConnection,
}

impl View for ProviderConfig {
    type V = ProviderView;

    closed spec fn view(&self) -> ProviderView {
        ProviderView {
            identity: ProviderIdentity {
                id: self.id,
                name: self.name@,
                url: self.url@,
                username: opt_view(self.username),
                password: opt_view(self.password),
                input_type: self.input_type,
            },
            max: self.max_connections,
            priority: self.priority,
            conn: self.connection,
        }
    }
}

impl ProviderConfig {
    /// Well-formedness: a grace timestamp is only set during a grace period.
    pub open spec fn wf(&self) -> bool {
        connection_wf(self@.conn)
    }

    /// The number of open connections.
    pub open spec fn connections(&self) -> nat {
        self@.conn.current_connections as nat
    }

    /// The provider of an input.
    pub fn new(cfg: &ConfigInput) -> (r: Self)
        ensures
            r@ == input_provider_view(cfg),
    {
        ProviderConfig {
            id: cfg.id,
            name: cfg.name.clone(),
            url: cfg.url.clone(),
            username: clone_opt_string(&cfg.username),
            password: clone_opt_string(&cfg.password),
            input_type: cfg.input_type,
            max_connections: cfg.max_connections as usize,
            priority: cfg.priority,
            connection: ProviderConfigConnection { current_connections: 0, granted_grace: false, grace_ts: 0 },
        }
    }

    /// The provider of an alias of an input: the account data and limits
    /// come from the alias, the input type from the input.
    pub fn new_alias(cfg: &ConfigInput, alias: &ConfigInputAlias) -> (r: Self)
        ensures
            r@ == alias_provider_view(cfg, alias),
    {
        ProviderConfig {
            id: alias.id,
            name: alias.name.clone(),
            url: alias.url.clone(),
            username: clone_opt_string(&alias.username),
            password: clone_opt_string(&alias.password),
            input_type: cfg.input_type,
            max_connections: alias.max_connections as usize,
            priority: alias.priority,
            connection: ProviderConfigConnection { current_connections: 0, granted_grace: false, grace_ts: 0 },
        }
    }

    /// True when the provider has a limit and all its connections are in use.
    pub fn is_exhausted(&self) -> (r: bool)
        ensures
            r == (self@.max != 0 && self.connections() >= self@.max),
    {
        let max = self.max_connections;
        if max == 0 {
            return false;
        }
        self.connection.current_connections >= max
    }

    /// Checks at time `now` whether the provider runs above its limit;
    /// below the limit a running grace period ends.
    pub fn is_over_limit_at(&mut self, grace_period_timeout_secs: u64, now: u64) -> (r: bool)
        requires
            old(self).wf(),
        ensures
            final(self).wf(),
            r == (old(self)@.max != 0 && old(self).connections() > old(self)@.max),
            final(self)@ == with_conn(old(self)@, after_over_limit_check(old(self)@.conn, old(self)@.max)),
    {
        let max = self.max_connections;
        if max == 0 {
            return false;
        }
        if self.connection.current_connections < self.max_connections {
            self.connection.granted_grace = false;
            self.connection.grace_ts = 0;
        }
        if self.connection.granted_grace && self.connection.current_connections > max {
            let elapsed = now.saturating_sub(self.connection.grace_ts);
            if elapsed <= grace_period_timeout_secs {
                // the grace period still runs: the connection above the limit is denied
                return true;
            }
        }
        self.connection.current_connections > max
    }

    /// Checks whether the provider runs above its limit, now.
    pub fn is_over_limit(&mut self, grace_period_timeout_secs: u64) -> (r: bool)
        requires
            old(self).wf(),
        ensures
            final(self).wf(),
            r == (old(self)@.max != 0 && old(self).connections() > old(self)@.max),
            final(self)@ == with_conn(old(self)@, after_over_limit_check(old(self)@.conn, old(self)@.max)),
    {
        let now = current_timestamp();
        self.is_over_limit_at(grace_period_timeout_secs, now)
    }

    /// Counts a connection whatever the limit says.
    pub fn force_allocate(&mut self)
        requires
            old(self).wf(),
            old(self).connections() < usize::MAX,
        ensures
            final(self).wf(),
            final(self)@ == with_conn(old(self)@, after_force(old(self)@.conn)),
    {
        self.connection.current_connections = self.connection.current_connections + 1;
    }

    /// Asks at time `now` for a connection, with or without grace.
    pub fn try_allocate_at(&mut self, grace: bool, grace_period_timeout_secs: u64, now: u64) -> (r: ProviderConfigAllocation)
        requires
            old(self).wf(),
            old(self).connections() < usize::MAX,
        ensures
            final(self).wf(),
            r == allocation_for(old(self)@.conn, old(self)@.max, grace),
            final(self)@ == with_conn(old(self)@, after_allocate(old(self)@.conn, old(self)@.max, grace, now)),
    {
        if self.max_connections == 0 {
            self.connection.current_connections = self.connection.current_connections + 1;
            return ProviderConfigAllocation::Available;
        }
        let connections = self.connection.current_connections;
        if connections < self.max_connections || (grace && connections <= self.max_connections) {
            if connections < self.max_connections {
                self.connection.granted_grace = false;
                self.connection.grace_ts = 0;
                self.connection.current_connections = self.connection.current_connections + 1;
                return ProviderConfigAllocation::Available;
            }
            let elapsed = now.saturating_sub(self.connection.grace_ts);
            if self.connection.granted_grace && elapsed <= grace_period_timeout_secs {
                if self.connection.current_connections > self.max_connections {
                    // the grace period still runs: deny
                    return ProviderConfigAllocation::Exhausted;
                }
                // the grace period is over
                self.connection.granted_grace = false;
                self.connection.grace_ts = 0;
            }
            self.connection.granted_grace = true;
            self.connection.grace_ts = now;
            self.connection.current_connections = self.connection.current_connections + 1;
            return ProviderConfigAllocation::GracePeriod;
        }
        ProviderConfigAllocation::Exhausted
    }

    /// Asks for a connection, with or without grace, at the present time.
    /// The kind of answer does not depend on the time; the start of a grace
    /// period is the clock's value.
    pub fn try_allocate(&mut self, grace: bool, grace_period_timeout_secs: u64) -> (r: ProviderConfigAllocation)
        requires
            old(self).wf(),
            old(self).connections() < usize::MAX,
        ensures
            final(self).wf(),
            r == allocation_for(old(self)@.conn, old(self)@.max, grace),
            exists|now: u64| final(self)@ == with_conn(old(self)@, after_allocate(old(self)@.conn, old(self)@.max, grace, now)),
    {
        let now = current_timestamp();
        self.try_allocate_at(grace, grace_period_timeout_secs, now)
    }

    /// Whether a redirect may go to this provider at time `now`; no
    /// connection is counted.
    pub fn get_next_at(&mut self, grace: bool, grace_period_timeout_secs: u64, now: u64) -> (r: bool)
        requires
            old(self).wf(),
        ensures
            final(self).wf(),
            r == next_allowed(old(self)@.conn, old(self)@.max, grace),
            final(self)@ == with_conn(old(self)@, after_next(old(self)@.conn, old(self)@.max, grace)),
    {
        if self.max_connections == 0 {
            return true;
        }
        let connections = self.connection.current_connections;
        if connections < self.max_connections || (grace && connections <= self.max_connections) {
            if connections < self.max_connections {
                self.connection.granted_grace = false;
                self.connection.grace_ts = 0;
            }
            if self.connection.granted_grace {
                let elapsed = now.saturating_sub(self.connection.grace_ts);
                if connections > self.max_connections && elapsed <= grace_period_timeout_secs {
                    // the grace period still runs: deny
                    return false;
                }
                // the grace period is over
                self.connection.granted_grace = false;
                self.connection.grace_ts = 0;
            }
            return true;
        }
        false
    }

    /// Whether a redirect may go to this provider now.
    pub fn get_next(&mut self, grace: bool, grace_period_timeout_secs: u64) -> (r: bool)
        requires
            old(self).wf(),
        ensures
            final(self).wf(),
            r == next_allowed(old(self)@.conn, old(self)@.max, grace),
            final(self)@ == with_conn(old(self)@, after_next(old(self)@.conn, old(self)@.max, grace)),
    {
        let now = current_timestamp();
        self.get_next_at(grace, grace_period_timeout_secs, now)
    }

    /// Closes one connection; below the limit a running grace period ends.
    pub fn release(&mut self)
        requires
            old(self).wf(),
        ensures
            final(self).wf(),
            final(self)@ == with_conn(old(self)@, after_release(old(self)@.conn, old(self)@.max)),
    {
        if self.connection.current_connections > 0 {
            self.connection.current_connections = self.connection.current_connections - 1;
        }
        if self.connection.current_connections == 0 || self.connection.current_connections < self.max_connections {
            self.connection.granted_grace = false;
            self.connection.grace_ts = 0;
        }
    }

    /// The number of open connections.
    pub fn get_current_connections(&self) -> (r: usize)
        ensures
            r == self.connections(),
    {
        self.connection.current_connections
    }

    /// Whether the provider is called `name`.
    pub fn has_name(&self, name: &str) -> (r: bool)
        ensures
            r == (self@.identity.name == name@),
    {
        str_eq(self.name.as_str(), name)
    }

    /// A copy of the provider's name.
    pub fn name_clone(&self) -> (r: String)
        ensures
            r@ == self@.identity.name,
    {
        self.name.clone()
    }

    /// The account data of the provider.
    pub fn info(&self) -> (r: ProviderInfo)
        ensures
            r@ == self@.identity,
    {
        ProviderInfo {
            id: self.id,
            name: self.name.clone(),
            url: self.url.clone(),
            username: clone_opt_string(&self.username),
            password: clone_opt_string(&self.password),
            input_type: self.input_type,
        }
    }

    /// The priority group of the provider.
    pub fn get_priority(&self) -> (r: i16)
        ensures
            r == self@.priority,
    {
        self.priority
    }
}

/// Closing a connection that a provider handed out gives the count back.
pub proof fn lemma_release_undoes_allocation(c: ProviderConfigConnection, max: usize, grace: bool, now: u64)
    requires
        connection_wf(c),
        c.current_connections < usize::MAX,
        allocation_for(c, max, grace) != ProviderConfigAllocation::Exhausted,
    ensures
        after_release(after_allocate(c, max, grace, now), max).current_connections == c.current_connections,
{
}

/// Closing a connection that was forced on a provider gives the count back.
pub proof fn lemma_release_undoes_force(c: ProviderConfigConnection, max: usize)
    requires
        c.current_connections < usize::MAX,
    ensures
        after_release(after_force(c), max).current_connections == c.current_connections,
{
}

/// A provider answers Available exactly when it has no limit or is below
/// it, and grants a grace connection exactly when grace is asked for and it
/// holds exactly its limit.
pub proof fn lemma_allocation_cases(c: ProviderConfigConnection, max: usize, grace: bool)
    ensures
        (allocation_for(c, max, grace) == ProviderConfigAllocation::Available) <==> (max == 0
            || c.current_connections < max),
        (allocation_for(c, max, grace) == ProviderConfigAllocation::GracePeriod) <==> (max != 0 && grace
            && c.current_connections == max),
{
}

/// A refused request changes nothing; an answered one counts exactly one
/// more connection.
pub proof fn lemma_allocation_counts(c: ProviderConfigConnection, max: usize, grace: bool, now: u64)
    requires
        c.current_connections < usize::MAX,
    ensures
        allocation_for(c, max, grace) == ProviderConfigAllocation::Exhausted ==> after_allocate(c, max, grace, now) == c,
        allocation_for(c, max, grace) != ProviderConfigAllocation::Exhausted ==> after_allocate(
            c,
            max,
            grace,
            now,
        ).current_connections == c.current_connections + 1,
{
}

/// A limited provider is exhausted exactly when it refuses a request made
/// without grace.
pub proof fn lemma_exhausted_iff_refused(c: ProviderConfigConnection, max: usize)
    ensures
        (max != 0 && c.current_connections >= max) <==> allocation_for(c, max, false)
            == ProviderConfigAllocation::Exhausted,
{
}

/// Without forced connections, a limited provider never holds more than one
/// connection above its limit: requests, redirects, releases and limit
/// checks all keep the count at most one above the limit.
pub proof fn lemma_grace_bound(c: ProviderConfigConnection, max: usize, grace: bool, now: u64)
    requires
        max > 0,
        c.current_connections <= max + 1,
    ensures
        after_allocate(c, max, grace, now).current_connections <= max + 1,
        after_next(c, max, grace).current_connections <= max + 1,
        after_release(c, max).current_connections <= max + 1,
        after_over_limit_check(c, max).current_connections <= max + 1,
{
}

/// Redirect requests and limit checks never change the number of open
/// connections.
pub proof fn lemma_checks_keep_count(c: ProviderConfigConnection, max: usize, grace: bool)
    ensures
        after_next(c, max, grace).current_connections == c.current_connections,
        after_over_limit_check(c, max).current_connections == c.current_connections,
{
}

/// Every operation keeps the connection state well formed.
pub proof fn lemma_operations_keep_wf(c: ProviderConfigConnection, max: usize, grace: bool, now: u64)
    requires
        connection_wf(c),
    ensures
        connection_wf(after_allocate(c, max, grace, now)),
        connection_wf(after_next(c, max, grace)),
        connection_wf(after_release(c, max)),
        connection_wf(after_over_limit_check(c, max)),
        connection_wf(after_force(c)),
{
}

} // verus!
