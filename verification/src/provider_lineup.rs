//! Lineups of providers: a single provider, or an input with aliases whose
//! providers are grouped by priority and used round robin inside a group.

use vstd::prelude::*;
use crate::clock::current_timestamp;
use crate::config::{ConfigInput, ConfigInputAlias};
use crate::provider_config::{
    after_force, after_next, after_over_limit_check, after_release, alias_provider_view, allocated, allocation_for, connection_wf, next_allowed, provider_exhausted, with_conn,
    fresh_connection, input_provider_view, ProviderConfig, ProviderConfigAllocation, ProviderIdentity, ProviderInfo, ProviderView,
};

verus! {

/// What a connection request to a lineup receives, abstractly.
pub enum AllocationView {
    Exhausted,
    Available(ProviderIdentity),
    GracePeriod(ProviderIdentity),
}

/// What a connection request to a lineup receives: nothing, a provider
/// below its limit, or a provider in its grace period.
pub enum ProviderAllocation {
    Exhausted,
    Available(ProviderInfo),
    GracePeriod(ProviderInfo),
}

impl View for ProviderAllocation {
    type V = AllocationView;

    open spec fn view(&self) -> AllocationView {
        match self {
            ProviderAllocation::Exhausted => AllocationView::Exhausted,
            ProviderAllocation::Available(p) => AllocationView::Available(p@),
            ProviderAllocation::GracePeriod(p) => AllocationView::GracePeriod(p@),
        }
    }
}

/// The answer of provider `id` as seen by the caller of a lineup.
pub open spec fn allocation_view(id: ProviderIdentity, a: ProviderConfigAllocation) -> AllocationView {
    match a {
        ProviderConfigAllocation::Exhausted => AllocationView::Exhausted,
        ProviderConfigAllocation::Available => AllocationView::Available(id),
        ProviderConfigAllocation::GracePeriod => AllocationView::GracePeriod(id),
    }
}

fn make_allocation(p: &ProviderConfig, a: ProviderConfigAllocation) -> (r: ProviderAllocation)
    ensures
        r@ == allocation_view(p@.identity, a),
{
    match a {
        ProviderConfigAllocation::Exhausted => ProviderAllocation::Exhausted,
        ProviderConfigAllocation::Available => ProviderAllocation::Available(p.info()),
        ProviderConfigAllocation::GracePeriod => ProviderAllocation::GracePeriod(p.info()),
    }
}

/// The abstract state of a priority group.
pub enum GroupView {
    Single(ProviderView),
    /// The index of the provider asked first, and the providers.
    Multi(usize, Seq<ProviderView>),
}

/// The providers of a group.
pub open spec fn group_members(g: GroupView) -> Seq<ProviderView> {
    match g {
        GroupView::Single(p) => seq![p],
        GroupView::Multi(_, ps) => ps,
    }
}

/// Every provider of a group is limited and uses all its connections.
pub open spec fn group_exhausted(g: GroupView) -> bool {
    forall|i: int| 0 <= i < group_members(g).len() ==> #[trigger] provider_exhausted(group_members(g)[i])
}

/// No provider of a group would overflow its connection counter.
pub open spec fn group_counts_bounded(g: GroupView) -> bool {
    forall|i: int| 0 <= i < group_members(g).len()
        ==> (#[trigger] group_members(g)[i]).conn.current_connections < usize::MAX
}

/// Well-formedness of a group: the round robin index points into it, a
/// group of several providers has at least two, and every connection state
/// is well formed.
pub open spec fn group_wf(g: GroupView) -> bool {
    &&& match g {
        GroupView::Single(_) => true,
        GroupView::Multi(start, ps) => ps.len() >= 2 && start < ps.len(),
    }
    &&& forall|i: int| 0 <= i < group_members(g).len() ==> connection_wf(#[trigger] group_members(g)[i].conn)
}

/// The position `d` steps after `start` in a round of `len` positions.
pub open spec fn wrap_index(start: int, d: int, len: int) -> int {
    if start + d < len { start + d } else { start + d - len }
}

/// The number of steps from `start`, at least `d`, after which the round
/// robin meets a provider that would answer a connection request, or the
/// number of providers if none would.
pub open spec fn allocatable_offset(ps: Seq<ProviderView>, start: nat, d: nat, grace: bool) -> nat
    decreases ps.len() - d,
{
    if d >= ps.len() {
        ps.len()
    } else if allocation_for(
        ps[wrap_index(start as int, d as int, ps.len() as int)].conn,
        ps[wrap_index(start as int, d as int, ps.len() as int)].max,
        grace,
    ) != ProviderConfigAllocation::Exhausted {
        d
    } else {
        allocatable_offset(ps, start, d + 1, grace)
    }
}

/// The first provider, going round from `start` over the whole group, that
/// would answer a connection request; the number of providers if none would.
pub open spec fn first_allocatable(ps: Seq<ProviderView>, start: nat, grace: bool) -> nat {
    if start >= ps.len() {
        ps.len()
    } else {
        let d = allocatable_offset(ps, start, 0, grace);
        if d < ps.len() { wrap_index(start as int, d as int, ps.len() as int) as nat } else { ps.len() }
    }
}

/// A connection request to a group at time `now`: a single provider is
/// asked directly; in a group of several, the providers are asked in round
/// robin order, starting at the group's index and going round the whole
/// group, and the index moves past the one that answers (it returns to the
/// first provider when none does).
pub open spec fn group_acquire(g: GroupView, grace: bool, now: u64) -> (GroupView, AllocationView) {
    match g {
        GroupView::Single(p) => {
            let a = allocation_for(p.conn, p.max, grace);
            if a == ProviderConfigAllocation::Exhausted {
                (g, AllocationView::Exhausted)
            } else {
                (GroupView::Single(allocated(p, grace, now)), allocation_view(p.identity, a))
            }
        },
        GroupView::Multi(start, ps) => {
            let j = first_allocatable(ps, start as nat, grace);
            if j < ps.len() {
                let p = ps[j as int];
                (
                    GroupView::Multi(((j + 1) % ps.len()) as usize, ps.update(j as int, allocated(p, grace, now))),
                    allocation_view(p.identity, allocation_for(p.conn, p.max, grace)),
                )
            } else {
                (GroupView::Multi(0, ps), AllocationView::Exhausted)
            }
        },
    }
}

/// The first provider at or after `from` that a redirect may use, or the
/// number of providers if none.
pub open spec fn first_next(ps: Seq<ProviderView>, from: nat, grace: bool) -> nat
    decreases ps.len() - from,
{
    if from >= ps.len() {
        ps.len()
    } else if next_allowed(ps[from as int].conn, ps[from as int].max, grace) {
        from
    } else {
        first_next(ps, from + 1, grace)
    }
}

/// A provider after a redirect request.
pub open spec fn after_next_view(p: ProviderView, grace: bool) -> ProviderView {
    with_conn(p, after_next(p.conn, p.max, grace))
}

/// A redirect request to a group: the same order as a connection request,
/// but no connection is counted.
pub open spec fn group_get_next(g: GroupView, grace: bool) -> (GroupView, Option<ProviderIdentity>) {
    match g {
        GroupView::Single(p) => {
            if next_allowed(p.conn, p.max, grace) {
                (GroupView::Single(after_next_view(p, grace)), Some(p.identity))
            } else {
                (g, None)
            }
        },
        GroupView::Multi(start, ps) => {
            let j = first_next(ps, start as nat, grace);
            if j < ps.len() {
                let p = ps[j as int];
                (
                    GroupView::Multi(((j + 1) % ps.len()) as usize, ps.update(j as int, after_next_view(p, grace))),
                    Some(p.identity),
                )
            } else {
                (GroupView::Multi(0, ps), None)
            }
        },
    }
}

/// A group of providers that share a priority.
pub enum ProviderPriorityGroup {
    SingleProviderGroup(ProviderConfig),
    /// The index of the provider asked first, and the providers.
    MultiProviderGroup(usize, Vec<ProviderConfig>),
}

/// The abstract states of a vector of providers.
pub open spec fn providers_view(v: Seq<ProviderConfig>) -> Seq<ProviderView> {
    v.map_values(|p: ProviderConfig| p@)
}

impl View for ProviderPriorityGroup {
    type V = GroupView;

    open spec fn view(&self) -> GroupView {
        match self {
            ProviderPriorityGroup::SingleProviderGroup(p) => GroupView::Single(p@),
            ProviderPriorityGroup::MultiProviderGroup(i, ps) => GroupView::Multi(*i, providers_view(ps@)),
        }
    }
}

/// The round robin step: the successor of `k` below `n`, wrapping to 0.
proof fn lemma_next_index(k: nat, n: nat)
    requires
        k < n,
    ensures
        ((k + 1) as int) % (n as int) == (if k + 1 < n { k + 1 } else { 0 }),
{
    if k + 1 < n {
        vstd::arithmetic::div_mod::lemma_small_mod((k + 1) as nat, n);
    } else {
        vstd::arithmetic::div_mod::lemma_mod_self_0(n as int);
    }
}

/// After skipping providers that cannot answer, the round robin meets the
/// same first one that can.
proof fn lemma_offset_skip(ps: Seq<ProviderView>, start: nat, from: nat, to: nat, grace: bool)
    requires
        from <= to <= ps.len(),
        forall|e: int| from <= e < to ==> allocation_for(
            #[trigger] ps[wrap_index(start as int, e, ps.len() as int)].conn,
            ps[wrap_index(start as int, e, ps.len() as int)].max,
            grace,
        ) == ProviderConfigAllocation::Exhausted,
    ensures
        allocatable_offset(ps, start, from, grace) == allocatable_offset(ps, start, to, grace),
    decreases to - from,
{
    if from < to {
        lemma_offset_skip(ps, start, (from + 1) as nat, to, grace);
    }
}

/// After skipping providers a redirect may not use, the first one it may
/// use is the same.
proof fn lemma_first_next_skip(ps: Seq<ProviderView>, from: nat, to: nat, grace: bool)
    requires
        from <= to <= ps.len(),
        forall|m: int| from <= m < to ==> !next_allowed(#[trigger] ps[m].conn, ps[m].max, grace),
    ensures
        first_next(ps, from, grace) == first_next(ps, to, grace),
    decreases to - from,
{
    if from < to {
        lemma_first_next_skip(ps, (from + 1) as nat, to, grace);
    }
}

impl ProviderPriorityGroup {
    /// Whether every provider of the group is limited and uses all its
    /// connections.
    pub fn is_exhausted(&self) -> (r: bool)
        ensures
            r == group_exhausted(self@),
    {
        match self {
            ProviderPriorityGroup::SingleProviderGroup(g) => {
                let r = g.is_exhausted();
                proof {
                    assert(self@ == GroupView::Single(g@));
                    assert(r == provider_exhausted(g@));
                    let ms = group_members(GroupView::Single(g@));
                    assert(ms.len() == 1);
                    assert(ms[0] == g@);
                    if r {
                        assert forall|i: int| 0 <= i < ms.len() implies #[trigger] provider_exhausted(ms[i]) by {
                            assert(i == 0);
                        }
                    }
                }
                r
            },
            ProviderPriorityGroup::MultiProviderGroup(_, groups) => {
                let n = groups.len();
                for k in 0..n
                    invariant
                        n == groups.len(),
                        group_members(self@) == providers_view(groups@),
                        forall|i: int| 0 <= i < k ==> provider_exhausted(#[trigger] group_members(self@)[i]),
                {
                    if !groups[k].is_exhausted() {
                        assert(!provider_exhausted(group_members(self@)[k as int]));
                        return false;
                    }
                }
                true
            },
        }
    }

    /// Whether the group has a member called `name`, and where the first is.
    pub fn position_of(&self, name: &str) -> (r: Option<usize>)
        ensures
            match r {
                Some(k) => k as int == find_in_group(group_members(self@), name@, 0) && k >= 0,
                None => find_in_group(group_members(self@), name@, 0) < 0,
            },
    {
        match self {
            ProviderPriorityGroup::SingleProviderGroup(pc) => {
                proof {
                    assert(group_members(self@)[0] == pc@);
                    assert(group_members(self@).len() == 1);
                    assert(find_in_group(group_members(self@), name@, 1) == -1);
                }
                if pc.has_name(name) {
                    Some(0)
                } else {
                    None
                }
            },
            ProviderPriorityGroup::MultiProviderGroup(_, group) => {
                let ghost ps = group_members(self@);
                let n = group.len();
                for k in 0..n
                    invariant
                        n == group.len(),
                        ps == providers_view(group@),
                        ps == group_members(self@),
                        find_in_group(ps, name@, 0) == find_in_group(ps, name@, k as nat),
                {
                    assert(ps[k as int] == group@[k as int]@);
                    if group[k].has_name(name) {
                        assert(find_in_group(ps, name@, k as nat) == k);
                        return Some(k);
                    }
                }
                None
            },
        }
    }

    /// Counts a connection at member `k` whatever its limit says.
    pub fn force_allocate_member(&mut self, k: usize) -> (r: ProviderInfo)
        requires
            group_wf(old(self)@),
            k < group_members(old(self)@).len(),
            group_members(old(self)@)[k as int].conn.current_connections < usize::MAX,
        ensures
            r@ == group_members(old(self)@)[k as int].identity,
            final(self)@ == group_with_member(old(self)@, k as int, with_conn(
                group_members(old(self)@)[k as int],
                after_force(group_members(old(self)@)[k as int].conn),
            )),
            group_wf(final(self)@),
            same_providers(old(self)@, final(self)@),
    {
        match self {
            ProviderPriorityGroup::SingleProviderGroup(pc) => {
                proof {
                    assert(group_members(GroupView::Single(pc@))[0] == pc@);
                }
                pc.force_allocate();
                proof {
                    assert(group_members(GroupView::Single(pc@))[0] == pc@);
                    assert(group_members(GroupView::Single(pc@)).len() == 1);
                }
                pc.info()
            },
            ProviderPriorityGroup::MultiProviderGroup(index, group) => {
                let ghost ps0 = providers_view(group@);
                assert(ps0[k as int] == group@[k as int]@);
                group[k].force_allocate();
                proof {
                    let ps1 = providers_view(group@);
                    assert(ps1 =~= ps0.update(k as int, with_conn(ps0[k as int], after_force(ps0[k as int].conn))));
                    assert forall|i: int| 0 <= i < ps1.len() implies connection_wf(#[trigger] ps1[i].conn) by {
                        if i != k {
                            assert(ps1[i] == ps0[i]);
                        }
                    }
                    assert forall|i: int| 0 <= i < ps0.len() implies {
                        &&& (#[trigger] group_members(GroupView::Multi(*index, ps0))[i]).identity
                            == group_members(GroupView::Multi(*index, ps1))[i].identity
                        &&& group_members(GroupView::Multi(*index, ps0))[i].max
                            == group_members(GroupView::Multi(*index, ps1))[i].max
                        &&& group_members(GroupView::Multi(*index, ps0))[i].priority
                            == group_members(GroupView::Multi(*index, ps1))[i].priority
                    } by {
                        if i != k {
                            assert(ps1[i] == ps0[i]);
                        }
                    }
                }
                group[k].info()
            },
        }
    }

    /// Checks at time `now` whether member `k` runs above its limit.
    pub fn is_over_limit_member(&mut self, k: usize, grace_period_timeout_secs: u64, now: u64) -> (r: bool)
        requires
            group_wf(old(self)@),
            k < group_members(old(self)@).len(),
        ensures
            r == (group_members(old(self)@)[k as int].max != 0
                && group_members(old(self)@)[k as int].conn.current_connections > group_members(old(self)@)[k as int].max),
            final(self)@ == group_with_member(old(self)@, k as int, with_conn(
                group_members(old(self)@)[k as int],
                after_over_limit_check(group_members(old(self)@)[k as int].conn, group_members(old(self)@)[k as int].max),
            )),
            group_wf(final(self)@),
            same_providers(old(self)@, final(self)@),
    {
        match self {
            ProviderPriorityGroup::SingleProviderGroup(pc) => {
                proof {
                    assert(group_members(GroupView::Single(pc@))[0] == pc@);
                }
                let r = pc.is_over_limit_at(grace_period_timeout_secs, now);
                proof {
                    assert(group_members(GroupView::Single(pc@))[0] == pc@);
                    assert(group_members(GroupView::Single(pc@)).len() == 1);
                }
                r
            },
            ProviderPriorityGroup::MultiProviderGroup(index, group) => {
                let ghost ps0 = providers_view(group@);
                assert(ps0[k as int] == group@[k as int]@);
                let r = group[k].is_over_limit_at(grace_period_timeout_secs, now);
                proof {
                    let ps1 = providers_view(group@);
                    assert(ps1 =~= ps0.update(k as int, with_conn(ps0[k as int], after_over_limit_check(ps0[k as int].conn, ps0[k as int].max))));
                    assert forall|i: int| 0 <= i < ps1.len() implies connection_wf(#[trigger] ps1[i].conn) by {
                        if i != k {
                            assert(ps1[i] == ps0[i]);
                        }
                    }
                    assert forall|i: int| 0 <= i < ps0.len() implies {
                        &&& (#[trigger] group_members(GroupView::Multi(*index, ps0))[i]).identity
                            == group_members(GroupView::Multi(*index, ps1))[i].identity
                        &&& group_members(GroupView::Multi(*index, ps0))[i].max
                            == group_members(GroupView::Multi(*index, ps1))[i].max
                        &&& group_members(GroupView::Multi(*index, ps0))[i].priority
                            == group_members(GroupView::Multi(*index, ps1))[i].priority
                    } by {
                        if i != k {
                            assert(ps1[i] == ps0[i]);
                        }
                    }
                }
                r
            },
        }
    }

    /// Appends the name and count of every provider of the group that has
    /// open connections.
    pub fn push_active(&self, out: &mut Vec<(String, usize)>)
        ensures
            entries_view(final(out)@) == entries_view(old(out)@) + active_entries(group_members(self@)),
    {
        match self {
            ProviderPriorityGroup::SingleProviderGroup(p) => {
                let ghost before = out@;
                let count = p.get_current_connections();
                proof {
                    let ms = group_members(self@);
                    assert(ms.drop_last() =~= Seq::<ProviderView>::empty());
                    assert(ms.last() == p@);
                    assert(active_entries(ms.drop_last()) =~= Seq::<(Seq<char>, usize)>::empty());
                }
                if count > 0 {
                    out.push((p.name_clone(), count));
                    proof {
                        let ms = group_members(self@);
                        assert(active_entries(ms) =~= seq![(p@.identity.name, count)]);
                        assert(entries_view(out@) =~= entries_view(before).push((p@.identity.name, count)));
                    }
                } else {
                    proof {
                        assert(entries_view(out@) =~= entries_view(before) + Seq::<(Seq<char>, usize)>::empty());
                    }
                }
            },
            ProviderPriorityGroup::MultiProviderGroup(_, ps) => {
                push_active_providers(ps, out);
            },
        }
    }

    /// Closes a connection of the first member called `name`; tells whether
    /// there is one.
    pub fn release_named(&mut self, name: &str) -> (r: bool)
        requires
            group_wf(old(self)@),
        ensures
            r == (find_in_group(group_members(old(self)@), name@, 0) >= 0),
            r ==> final(self)@ == group_with_member(
                old(self)@,
                find_in_group(group_members(old(self)@), name@, 0),
                released(group_members(old(self)@)[find_in_group(group_members(old(self)@), name@, 0)]),
            ),
            !r ==> final(self)@ == old(self)@,
            group_wf(final(self)@),
            same_providers(old(self)@, final(self)@),
    {
        match self {
            ProviderPriorityGroup::SingleProviderGroup(pc) => {
                let ghost p0 = pc@;
                proof {
                    assert(group_members(GroupView::Single(p0))[0] == p0);
                    assert(group_members(GroupView::Single(p0)).len() == 1);
                }
                if pc.has_name(name) {
                    pc.release();
                    proof {
                        assert(group_members(GroupView::Single(pc@))[0] == pc@);
                    }
                    true
                } else {
                    proof {
                        assert(find_in_group(group_members(GroupView::Single(p0)), name@, 1) == -1);
                    }
                    false
                }
            },
            ProviderPriorityGroup::MultiProviderGroup(index, group) => {
                release_in_multi_group(index, group, name)
            },
        }
    }

    /// Asks the group for a connection at time `now`.
    pub fn acquire_next_provider_from_group_at(&mut self, grace: bool, grace_period_timeout_secs: u64, now: u64) -> (r: ProviderAllocation)
        requires
            group_wf(old(self)@),
            group_counts_bounded(old(self)@),
        ensures
            (final(self)@, r@) == group_acquire(old(self)@, grace, now),
            group_wf(final(self)@),
            r@ is Exhausted ==> group_all_refuse(old(self)@, grace),
    {
        proof {
            lemma_group_refuses_only_when_full(self@, grace, now);
        }
        match self {
            ProviderPriorityGroup::SingleProviderGroup(p) => {
                proof {
                    assert(group_members(GroupView::Single(p@))[0] == p@);
                }
                let a = p.try_allocate_at(grace, grace_period_timeout_secs, now);
                let r = make_allocation(p, a);
                proof {
                    assert(group_members(GroupView::Single(p@))[0] == p@);
                }
                r
            },
            ProviderPriorityGroup::MultiProviderGroup(index, pg) => {
                acquire_from_multi_group(index, pg, grace, grace_period_timeout_secs, now)
            },
        }
    }

    /// Asks the group whether a redirect may use one of its providers.
    pub fn get_next_provider_from_group_at(&mut self, grace: bool, grace_period_timeout_secs: u64, now: u64) -> (r: Option<ProviderInfo>)
        requires
            group_wf(old(self)@),
        ensures
            (final(self)@, option_identity(r)) == group_get_next(old(self)@, grace),
            group_wf(final(self)@),
    {
        match self {
            ProviderPriorityGroup::SingleProviderGroup(p) => {
                proof {
                    assert(group_members(GroupView::Single(p@))[0] == p@);
                }
                let ok = p.get_next_at(grace, grace_period_timeout_secs, now);
                proof {
                    assert(group_members(GroupView::Single(p@))[0] == p@);
                }
                if ok {
                    Some(p.info())
                } else {
                    None
                }
            },
            ProviderPriorityGroup::MultiProviderGroup(index, pg) => {
                next_from_multi_group(index, pg, grace, grace_period_timeout_secs, now)
            },
        }
    }
}

fn acquire_from_multi_group(index: &mut usize, pg: &mut Vec<ProviderConfig>, grace: bool, grace_period_timeout_secs: u64, now: u64) -> (r: ProviderAllocation)
    requires
        group_wf(GroupView::Multi(*old(index), providers_view(old(pg)@))),
        group_counts_bounded(GroupView::Multi(*old(index), providers_view(old(pg)@))),
    ensures
        (GroupView::Multi(*final(index), providers_view(final(pg)@)), r@)
            == group_acquire(GroupView::Multi(*old(index), providers_view(old(pg)@)), grace, now),
        group_wf(GroupView::Multi(*final(index), providers_view(final(pg)@))),
{
    let ghost ps0 = providers_view(pg@);
    let provider_count = pg.len();
    let start = *index;
    let mut idx = start;
    let mut k: usize = 0;
    while k < provider_count
        invariant
            provider_count == pg.len(),
            provider_count >= 2,
            start < provider_count,
            k <= provider_count,
            idx == wrap_index(start as int, k as int, provider_count as int),
            providers_view(pg@) == ps0,
            providers_view(old(pg)@) == ps0,
            *old(index) == start,
            forall|i: int| 0 <= i < ps0.len() ==> connection_wf(#[trigger] ps0[i].conn),
            forall|i: int| 0 <= i < ps0.len() ==> (#[trigger] ps0[i]).conn.current_connections < usize::MAX,
            forall|e: int| 0 <= e < k ==> allocation_for(
                #[trigger] ps0[wrap_index(start as int, e, ps0.len() as int)].conn,
                ps0[wrap_index(start as int, e, ps0.len() as int)].max,
                grace,
            ) == ProviderConfigAllocation::Exhausted,
        decreases provider_count - k,
    {
        let cur = idx;
        proof {
            lemma_next_index(cur as nat, provider_count as nat);
        }
        idx = (idx + 1) % provider_count;
        assert(ps0[cur as int] == pg@[cur as int]@);
        let a = pg[cur].try_allocate_at(grace, grace_period_timeout_secs, now);
        match a {
            ProviderConfigAllocation::Exhausted => {
                assert(providers_view(pg@) =~= ps0);
                assert(ps0[wrap_index(start as int, k as int, ps0.len() as int)] == ps0[cur as int]);
            },
            _ => {
                let r = make_allocation(&pg[cur], a);
                *index = idx;
                proof {
                    lemma_offset_skip(ps0, start as nat, 0, k as nat, grace);
                    assert(ps0[wrap_index(start as int, k as int, ps0.len() as int)] == ps0[cur as int]);
                    assert(allocatable_offset(ps0, start as nat, k as nat, grace) == k);
                    assert(first_allocatable(ps0, start as nat, grace) == cur);
                    assert(providers_view(pg@) =~= ps0.update(cur as int, allocated(ps0[cur as int], grace, now)));
                    assert(pg@[cur as int]@.identity == ps0[cur as int].identity);
                    let ps1 = providers_view(pg@);
                    assert forall|i: int| 0 <= i < ps1.len() implies connection_wf(#[trigger] ps1[i].conn) by {
                        if i != cur {
                            assert(ps1[i] == ps0[i]);
                        }
                    }
                    assert(providers_view(old(pg)@) == ps0);
                    assert(group_acquire(GroupView::Multi(start, ps0), grace, now).1 == r@);
                    assert(group_acquire(GroupView::Multi(start, ps0), grace, now).0 == GroupView::Multi(idx, ps1));
                }
                return r;
            },
        }
        k = k + 1;
    }
    *index = 0;
    proof {
        lemma_offset_skip(ps0, start as nat, 0, provider_count as nat, grace);
        assert(first_allocatable(ps0, start as nat, grace) == provider_count);
    }
    ProviderAllocation::Exhausted
}

fn next_from_multi_group(index: &mut usize, pg: &mut Vec<ProviderConfig>, grace: bool, grace_period_timeout_secs: u64, now: u64) -> (r: Option<ProviderInfo>)
    requires
        group_wf(GroupView::Multi(*old(index), providers_view(old(pg)@))),
    ensures
        (GroupView::Multi(*final(index), providers_view(final(pg)@)), option_identity(r))
            == group_get_next(GroupView::Multi(*old(index), providers_view(old(pg)@)), grace),
        group_wf(GroupView::Multi(*final(index), providers_view(final(pg)@))),
{
    let ghost ps0 = providers_view(pg@);
    let provider_count = pg.len();
    let start = *index;
    let mut idx = start;
    let mut k = start;
    while k < provider_count
        invariant
            provider_count == pg.len(),
            provider_count >= 2,
            start < provider_count,
            start <= k <= provider_count,
            idx == (if k < provider_count { k } else { 0 }),
            providers_view(pg@) == ps0,
            providers_view(old(pg)@) == ps0,
            *old(index) == start,
            forall|i: int| 0 <= i < ps0.len() ==> connection_wf(#[trigger] ps0[i].conn),
            forall|m: int| start <= m < k ==> !next_allowed(#[trigger] ps0[m].conn, ps0[m].max, grace),
        decreases provider_count - k,
    {
        let cur = idx;
        proof {
            lemma_next_index(cur as nat, provider_count as nat);
        }
        idx = (idx + 1) % provider_count;
        assert(ps0[cur as int] == pg@[cur as int]@);
        let ok = pg[cur].get_next_at(grace, grace_period_timeout_secs, now);
        if ok {
            let r = pg[cur].info();
            *index = idx;
            proof {
                lemma_first_next_skip(ps0, start as nat, cur as nat, grace);
                assert(first_next(ps0, cur as nat, grace) == cur);
                assert(providers_view(pg@) =~= ps0.update(cur as int, after_next_view(ps0[cur as int], grace)));
                assert(pg@[cur as int]@.identity == ps0[cur as int].identity);
                let ps1 = providers_view(pg@);
                assert forall|i: int| 0 <= i < ps1.len() implies connection_wf(#[trigger] ps1[i].conn) by {
                    if i != cur {
                        assert(ps1[i] == ps0[i]);
                    }
                }
            }
            return Some(r);
        }
        assert(providers_view(pg@) =~= ps0);
        k = k + 1;
    }
    *index = idx;
    proof {
        lemma_first_next_skip(ps0, start as nat, provider_count as nat, grace);
    }
    None
}

/// The priority of a group: that of its first provider.
pub open spec fn group_priority(g: GroupView) -> i16 {
    group_members(g)[0].priority
}

/// Two groups hold the same providers (identity, limit and priority) in
/// the same order; only connection states and the round robin index may
/// differ.
pub open spec fn same_providers(g1: GroupView, g2: GroupView) -> bool {
    &&& group_members(g1).len() == group_members(g2).len()
    &&& (g1 is Single <==> g2 is Single)
    &&& forall|k: int| 0 <= k < group_members(g1).len() ==> {
        &&& (#[trigger] group_members(g1)[k]).identity == group_members(g2)[k].identity
        &&& group_members(g1)[k].max == group_members(g2)[k].max
        &&& group_members(g1)[k].priority == group_members(g2)[k].priority
    }
}

/// A request answered with Exhausted changes no connection state; an
/// answered one changes exactly the answering provider, as `allocated` says.
pub proof fn lemma_group_acquire_frame(g: GroupView, grace: bool, now: u64)
    requires
        group_wf(g),
    ensures
        same_providers(g, group_acquire(g, grace, now).0),
        group_wf(group_acquire(g, grace, now).0),
        group_acquire(g, grace, now).1 is Exhausted
            ==> group_members(group_acquire(g, grace, now).0) == group_members(g),
{
    let (g2, a) = group_acquire(g, grace, now);
    match g {
        GroupView::Single(p) => {
            assert(group_members(g2).len() == 1);
            assert(group_members(g)[0] == p);
            if allocation_for(p.conn, p.max, grace) != ProviderConfigAllocation::Exhausted {
                assert(group_members(g2)[0] == allocated(p, grace, now));
            }
            assert(connection_wf(group_members(g2)[0].conn));
        },
        GroupView::Multi(start, ps) => {
            let j = first_allocatable(ps, start as nat, grace);
            lemma_first_allocatable_bound(ps, start as nat, grace);
            if j < ps.len() {
                lemma_next_index(j, ps.len());
                let ps2 = group_members(g2);
                assert forall|i: int| 0 <= i < ps2.len() implies connection_wf(#[trigger] ps2[i].conn) by {
                    if i != j {
                        assert(ps2[i] == ps[i]);
                    }
                }
                assert forall|k: int| 0 <= k < ps.len() implies {
                    &&& (#[trigger] group_members(g)[k]).identity == group_members(g2)[k].identity
                    &&& group_members(g)[k].max == group_members(g2)[k].max
                    &&& group_members(g)[k].priority == group_members(g2)[k].priority
                } by {
                    if k != j {
                        assert(ps2[k] == ps[k]);
                    }
                }
            }
        },
    }
}

/// The round robin steps: every step is a position of the group, and before
/// the first provider that answers, every provider met refuses.
proof fn lemma_offset_bound(ps: Seq<ProviderView>, start: nat, d: nat, grace: bool)
    requires
        start < ps.len(),
        d <= ps.len(),
    ensures
        d <= allocatable_offset(ps, start, d, grace) <= ps.len(),
        forall|e: int| d <= e < allocatable_offset(ps, start, d, grace) ==> allocation_for(
            #[trigger] ps[wrap_index(start as int, e, ps.len() as int)].conn,
            ps[wrap_index(start as int, e, ps.len() as int)].max,
            grace,
        ) == ProviderConfigAllocation::Exhausted,
        allocatable_offset(ps, start, d, grace) < ps.len() ==> {
            let j = wrap_index(start as int, allocatable_offset(ps, start, d, grace) as int, ps.len() as int);
            &&& 0 <= j < ps.len()
            &&& allocation_for(ps[j].conn, ps[j].max, grace) != ProviderConfigAllocation::Exhausted
        },
    decreases ps.len() - d,
{
    if d < ps.len() {
        lemma_offset_bound(ps, start, d + 1, grace);
    }
}

/// The first provider that would answer is a position of the group and
/// does answer.
pub proof fn lemma_first_allocatable_bound(ps: Seq<ProviderView>, start: nat, grace: bool)
    ensures
        first_allocatable(ps, start, grace) <= ps.len(),
        first_allocatable(ps, start, grace) < ps.len() ==> allocation_for(
            ps[first_allocatable(ps, start, grace) as int].conn,
            ps[first_allocatable(ps, start, grace) as int].max,
            grace,
        ) != ProviderConfigAllocation::Exhausted,
{
    if start < ps.len() {
        lemma_offset_bound(ps, start, 0, grace);
    }
}

/// The first provider a redirect may use lies between `from` and the end.
proof fn lemma_first_next_bound(ps: Seq<ProviderView>, from: nat, grace: bool)
    ensures
        from <= ps.len() ==> from <= first_next(ps, from, grace) <= ps.len(),
        first_next(ps, from, grace) < ps.len() ==> next_allowed(
            ps[first_next(ps, from, grace) as int].conn,
            ps[first_next(ps, from, grace) as int].max,
            grace,
        ),
    decreases ps.len() - from,
{
    if from < ps.len() {
        lemma_first_next_bound(ps, from + 1, grace);
    }
}

/// A redirect request changes the providers as `after_next` says and keeps
/// the group well formed.
proof fn lemma_group_get_next_frame(g: GroupView, grace: bool)
    requires
        group_wf(g),
    ensures
        same_providers(g, group_get_next(g, grace).0),
        group_wf(group_get_next(g, grace).0),
        forall|k: int| 0 <= k < group_members(g).len()
            ==> (#[trigger] group_members(group_get_next(g, grace).0)[k]).conn.current_connections
                == group_members(g)[k].conn.current_connections,
{
    let (g2, a) = group_get_next(g, grace);
    match g {
        GroupView::Single(p) => {
            assert(group_members(g2).len() == 1);
            assert(group_members(g)[0] == p);
            if next_allowed(p.conn, p.max, grace) {
                assert(group_members(g2)[0] == after_next_view(p, grace));
            }
            assert(connection_wf(group_members(g2)[0].conn));
        },
        GroupView::Multi(start, ps) => {
            let j = first_next(ps, start as nat, grace);
            lemma_first_next_bound(ps, start as nat, grace);
            if j < ps.len() {
                lemma_next_index(j, ps.len());
                let ps2 = group_members(g2);
                assert forall|i: int| 0 <= i < ps2.len() implies connection_wf(#[trigger] ps2[i].conn) by {
                    if i != j {
                        assert(ps2[i] == ps[i]);
                    }
                }
                assert forall|k: int| 0 <= k < ps.len() implies {
                    &&& (#[trigger] group_members(g)[k]).identity == group_members(g2)[k].identity
                    &&& group_members(g)[k].max == group_members(g2)[k].max
                    &&& group_members(g)[k].priority == group_members(g2)[k].priority
                } by {
                    if k != j {
                        assert(ps2[k] == ps[k]);
                    }
                }
                assert forall|k: int| 0 <= k < ps.len() implies
                    (#[trigger] ps2[k]).conn.current_connections == ps[k].conn.current_connections by {
                    if k != j {
                        assert(ps2[k] == ps[k]);
                    }
                }
            }
        },
    }
}

/// The abstract state of a lineup of several providers.
pub struct MultiLineupView {
    pub groups: Seq<GroupView>,
    /// The group asked first.
    pub index: usize,
}

/// Well-formedness of a lineup: the groups are non-empty, well formed, of
/// strictly increasing priority, and every provider of a group carries the
/// group's priority; the index points to a group.
pub open spec fn lineup_wf(v: MultiLineupView) -> bool {
    &&& v.groups.len() > 0
    &&& v.index < v.groups.len()
    &&& forall|i: int| 0 <= i < v.groups.len() ==> group_wf(#[trigger] v.groups[i])
    &&& forall|i: int, j: int| 0 <= i < j < v.groups.len()
        ==> group_priority(#[trigger] v.groups[i]) < group_priority(#[trigger] v.groups[j])
    &&& forall|i: int, k: int| 0 <= i < v.groups.len() && 0 <= k < group_members(v.groups[i]).len()
        ==> (#[trigger] group_members(#[trigger] v.groups[i])[k]).priority == group_priority(v.groups[i])
}

/// No provider of the lineup would overflow its connection counter.
pub open spec fn lineup_counts_bounded(v: MultiLineupView) -> bool {
    forall|i: int| 0 <= i < v.groups.len() ==> group_counts_bounded(#[trigger] v.groups[i])
}

/// A connection request to the groups at positions `g` up to `end`: each
/// group is asked without grace and, when that fails and grace is wanted,
/// with grace; the first group that answers ends the search. Returns the
/// groups after the request, the answering group (or -1) and the answer.
pub open spec fn lineup_acquire_from(groups: Seq<GroupView>, g: nat, end: nat, with_grace: bool, now: u64)
    -> (Seq<GroupView>, int, AllocationView)
    decreases end - g,
{
    if g >= end || g >= groups.len() {
        (groups, -1, AllocationView::Exhausted)
    } else {
        let (g1, a1) = group_acquire(groups[g as int], false, now);
        let (g2, a2) = if with_grace && a1 is Exhausted {
            group_acquire(g1, true, now)
        } else {
            (g1, a1)
        };
        let gs = groups.update(g as int, g2);
        if a2 is Exhausted {
            lineup_acquire_from(gs, g + 1, end, with_grace, now)
        } else {
            (gs, g as int, a2)
        }
    }
}

/// The search of a connection request: the groups from the lineup's index
/// to the last, then, going round, the groups before the index.
pub open spec fn lineup_search(v: MultiLineupView, with_grace: bool, now: u64) -> (Seq<GroupView>, int, AllocationView) {
    let (gs1, g1, a1) = lineup_acquire_from(v.groups, v.index as nat, v.groups.len(), with_grace, now);
    if a1 is Exhausted {
        lineup_acquire_from(gs1, 0, v.index as nat, with_grace, now)
    } else {
        (gs1, g1, a1)
    }
}

/// A connection request to a lineup at time `now`: the groups are searched
/// in round robin order from the lineup's index (see `lineup_search`); when
/// the answering group is exhausted afterwards, the index moves to the next
/// group (wrapping to the first).
pub open spec fn lineup_acquire(v: MultiLineupView, with_grace: bool, now: u64) -> (MultiLineupView, AllocationView) {
    let (gs, g, a) = lineup_search(v, with_grace, now);
    let index = if g >= 0 && group_exhausted(gs[g]) { ((g + 1) % (gs.len() as int)) as usize } else { v.index };
    (MultiLineupView { groups: gs, index: index }, a)
}

/// A redirect request to the groups from `g` on: each group is asked
/// without grace and then with grace; the first group that answers ends the
/// search.
pub open spec fn lineup_get_next_from(groups: Seq<GroupView>, g: nat)
    -> (Seq<GroupView>, int, Option<ProviderIdentity>)
    decreases groups.len() - g,
{
    if g >= groups.len() {
        (groups, -1, None)
    } else {
        let (g1, a1) = group_get_next(groups[g as int], false);
        let (g2, a2) = if a1 is None {
            group_get_next(g1, true)
        } else {
            (g1, a1)
        };
        let gs = groups.update(g as int, g2);
        if a2 is None {
            lineup_get_next_from(gs, g + 1)
        } else {
            (gs, g as int, a2)
        }
    }
}

/// A redirect request to a lineup; the index moves as for a connection.
pub open spec fn lineup_get_next(v: MultiLineupView) -> (MultiLineupView, Option<ProviderIdentity>) {
    let (gs, g, a) = lineup_get_next_from(v.groups, v.index as nat);
    let index = if g >= 0 && group_exhausted(gs[g]) { ((g + 1) % (gs.len() as int)) as usize } else { v.index };
    (MultiLineupView { groups: gs, index: index }, a)
}

/// The first member at or after `k` called `name`, or -1.
pub open spec fn find_in_group(ps: Seq<ProviderView>, name: Seq<char>, k: nat) -> int
    decreases ps.len() - k,
{
    if k >= ps.len() {
        -1
    } else if ps[k as int].identity.name == name {
        k as int
    } else {
        find_in_group(ps, name, k + 1)
    }
}

/// The position (group, member) of the first provider called `name` in the
/// groups from `i` on, or (-1, -1).
pub open spec fn find_by_name_from(groups: Seq<GroupView>, name: Seq<char>, i: nat) -> (int, int)
    decreases groups.len() - i,
{
    if i >= groups.len() {
        (-1, -1)
    } else {
        let k = find_in_group(group_members(groups[i as int]), name, 0);
        if k >= 0 {
            (i as int, k)
        } else {
            find_by_name_from(groups, name, i + 1)
        }
    }
}

/// A group with member `k` replaced by `p`.
pub open spec fn group_with_member(g: GroupView, k: int, p: ProviderView) -> GroupView {
    match g {
        GroupView::Single(_) => GroupView::Single(p),
        GroupView::Multi(s, ps) => GroupView::Multi(s, ps.update(k, p)),
    }
}

/// A provider after one of its connections is closed.
pub open spec fn released(p: ProviderView) -> ProviderView {
    with_conn(p, after_release(p.conn, p.max))
}

/// Closing a connection of the provider called `name`: the first provider
/// of that name, in group order, is released; without one nothing changes.
pub open spec fn lineup_release(v: MultiLineupView, name: Seq<char>) -> MultiLineupView {
    let (i, k) = find_by_name_from(v.groups, name, 0);
    if i >= 0 {
        MultiLineupView {
            groups: v.groups.update(i, group_with_member(v.groups[i], k, released(group_members(v.groups[i])[k]))),
            index: v.index,
        }
    } else {
        v
    }
}

/// The providers of an input, in order: the input itself, then its aliases.
pub open spec fn input_providers(cfg: &ConfigInput) -> Seq<ProviderView> {
    seq![input_provider_view(cfg)] + match cfg.aliases {
        Some(a) => a@.map_values(|al: ConfigInputAlias| alias_provider_view(cfg, &al)),
        None => Seq::<ProviderView>::empty(),
    }
}

/// The predicate "has priority `q`".
pub open spec fn has_priority(q: i16) -> spec_fn(ProviderView) -> bool {
    |p: ProviderView| p.priority == q
}

/// `gs` groups the providers `ins` by priority: one group per priority that
/// occurs, in increasing priority, each holding the providers of its
/// priority in their order in `ins`; a group of several providers starts its
/// round robin at the first.
pub open spec fn grouped(gs: Seq<GroupView>, ins: Seq<ProviderView>) -> bool {
    &&& forall|i: int| 0 <= i < gs.len()
        ==> group_members(#[trigger] gs[i]) == ins.filter(has_priority(group_priority(gs[i])))
    &&& forall|i: int| 0 <= i < gs.len() ==> group_members(#[trigger] gs[i]).len() > 0
    &&& forall|i: int, j: int| 0 <= i < j < gs.len()
        ==> group_priority(#[trigger] gs[i]) < group_priority(#[trigger] gs[j])
    &&& forall|k: int| 0 <= k < ins.len()
        ==> exists|i: int| 0 <= i < gs.len() && group_priority(#[trigger] gs[i]) == (#[trigger] ins[k]).priority
    &&& forall|i: int| 0 <= i < gs.len() ==> match #[trigger] gs[i] {
        GroupView::Single(_) => true,
        GroupView::Multi(s, ps) => s == 0 && ps.len() >= 2,
    }
}

/// Facts about the groups under construction that make a lineup well formed.
spec fn members_fresh(gs: Seq<GroupView>) -> bool {
    &&& forall|i: int, k: int| 0 <= i < gs.len() && 0 <= k < group_members(gs[i]).len()
        ==> (#[trigger] group_members(#[trigger] gs[i])[k]).conn == fresh_connection()
    &&& forall|i: int, k: int| 0 <= i < gs.len() && 0 <= k < group_members(gs[i]).len()
        ==> (#[trigger] group_members(#[trigger] gs[i])[k]).priority == group_priority(gs[i])
}

/// A filter keeps nothing when nothing satisfies the predicate.
proof fn lemma_filter_none(s: Seq<ProviderView>, f: spec_fn(ProviderView) -> bool)
    requires
        forall|k: int| 0 <= k < s.len() ==> !f(#[trigger] s[k]),
    ensures
        s.filter(f) == Seq::<ProviderView>::empty(),
    decreases s.len(),
{
    reveal(Seq::filter);
    if s.len() > 0 {
        let t = s.drop_last();
        assert forall|k: int| 0 <= k < t.len() implies !f(#[trigger] t[k]) by {
            assert(t[k] == s[k]);
        }
        lemma_filter_none(t, f);
        assert(!f(s.last()));
    }
}

fn group_priority_of(g: &ProviderPriorityGroup) -> (r: i16)
    requires
        group_members(g@).len() > 0,
    ensures
        r == group_priority(g@),
{
    match g {
        ProviderPriorityGroup::SingleProviderGroup(p) => {
            proof {
                assert(group_members(g@)[0] == p@);
            }
            p.get_priority()
        },
        ProviderPriorityGroup::MultiProviderGroup(_, ps) => {
            proof {
                assert(group_members(g@)[0] == ps@[0]@);
            }
            ps[0].get_priority()
        },
    }
}

/// Adds a provider to the groups of its priority, creating the group when
/// it is the first of that priority.
#[verifier::spinoff_prover]
#[verifier::rlimit(50)]
fn insert_by_priority(groups: &mut Vec<ProviderPriorityGroup>, p: ProviderConfig, Ghost(ins): Ghost<Seq<ProviderView>>)
    requires
        grouped(groups_view(old(groups)@), ins),
        members_fresh(groups_view(old(groups)@)),
        p@.conn == fresh_connection(),
    ensures
        grouped(groups_view(final(groups)@), ins.push(p@)),
        members_fresh(groups_view(final(groups)@)),
{
    let ghost gs = groups_view(groups@);
    let ghost pv = p@;
    let ghost ins2 = ins.push(pv);
    let q = p.get_priority();
    let n = groups.len();
    let mut j: usize = 0;
    proof {
        assert forall|i: int| 0 <= i < n implies (#[trigger] groups@[i])@ == gs[i] by {}
    }
    while j < n && group_priority_of(&groups[j]) < q
        invariant
            n == groups.len(),
            groups_view(groups@) == gs,
            forall|i: int| 0 <= i < n ==> (#[trigger] groups@[i])@ == gs[i],
            grouped(gs, ins),
            0 <= j <= n,
            forall|i: int| 0 <= i < j ==> group_priority(#[trigger] gs[i]) < q,
        decreases n - j,
    {
        proof {
            assert(groups@[j as int]@ == gs[j as int]);
        }
        j = j + 1;
    }
    proof {
        if j < n {
            assert(groups@[j as int]@ == gs[j as int]);
        }
        reveal(Seq::filter);
        ins.lemma_filter_push(pv, has_priority(q));
    }
    if j < n && group_priority_of(&groups[j]) == q {
        let g = groups.remove(j);
        let ghost old_members = group_members(g@);
        let g2 = match g {
            ProviderPriorityGroup::SingleProviderGroup(p0) => {
                let mut v: Vec<ProviderConfig> = Vec::new();
                v.push(p0);
                v.push(p);
                proof {
                    assert(providers_view(v@) =~= old_members.push(pv));
                }
                ProviderPriorityGroup::MultiProviderGroup(0, v)
            },
            ProviderPriorityGroup::MultiProviderGroup(i, mut v) => {
                v.push(p);
                proof {
                    assert(providers_view(v@) =~= old_members.push(pv));
                }
                ProviderPriorityGroup::MultiProviderGroup(i, v)
            },
        };
        groups.insert(j, g2);
        proof {
            let gs2 = groups_view(groups@);
            assert(gs2 =~= gs.update(j as int, g2@));
            assert(group_members(g2@) == group_members(gs[j as int]).push(pv));
            assert(group_priority(g2@) == q);
            assert forall|i: int| 0 <= i < gs2.len() implies
                group_members(#[trigger] gs2[i]) == ins2.filter(has_priority(group_priority(gs2[i]))) by {
                ins.lemma_filter_push(pv, has_priority(group_priority(gs2[i])));
                if i != j {
                    assert(gs2[i] == gs[i]);
                    assert(group_priority(gs[i]) != q);
                }
            }
            assert forall|a: int, b: int| 0 <= a < b < gs2.len() implies
                group_priority(#[trigger] gs2[a]) < group_priority(#[trigger] gs2[b]) by {
                assert(group_priority(gs2[a]) == group_priority(gs[a]));
                assert(group_priority(gs2[b]) == group_priority(gs[b]));
            }
            assert forall|k: int| 0 <= k < ins2.len() implies
                exists|i: int| 0 <= i < gs2.len() && group_priority(#[trigger] gs2[i]) == (#[trigger] ins2[k]).priority by {
                if k < ins.len() {
                    assert(ins2[k] == ins[k]);
                    let i = choose|i: int| 0 <= i < gs.len() && group_priority(#[trigger] gs[i]) == ins[k].priority;
                    assert(group_priority(gs2[i]) == group_priority(gs[i]));
                } else {
                    assert(group_priority(gs2[j as int]) == ins2[k].priority);
                }
            }
            assert forall|i: int, k: int| 0 <= i < gs2.len() && 0 <= k < group_members(gs2[i]).len() implies
                (#[trigger] group_members(#[trigger] gs2[i])[k]).conn == fresh_connection() by {
                if i != j {
                    assert(gs2[i] == gs[i]);
                } else if k < old_members.len() {
                    assert(group_members(gs2[i])[k] == old_members[k]);
                }
            }
            assert forall|i: int, k: int| 0 <= i < gs2.len() && 0 <= k < group_members(gs2[i]).len() implies
                (#[trigger] group_members(#[trigger] gs2[i])[k]).priority == group_priority(gs2[i]) by {
                if i != j {
                    assert(gs2[i] == gs[i]);
                } else if k < old_members.len() {
                    assert(group_members(gs2[i])[k] == old_members[k]);
                    assert(group_priority(gs[i]) == old_members[0].priority);
                }
            }
        }
    } else {
        let g2 = ProviderPriorityGroup::SingleProviderGroup(p);
        groups.insert(j, g2);
        proof {
            let gs2 = groups_view(groups@);
            assert(gs2 =~= gs.insert(j as int, g2@));
            assert(group_members(g2@) =~= seq![pv]);
            assert(group_priority(g2@) == q);
            assert forall|k: int| 0 <= k < ins.len() implies !has_priority(q)(#[trigger] ins[k]) by {
                let i = choose|i: int| 0 <= i < gs.len() && group_priority(#[trigger] gs[i]) == ins[k].priority;
                if i < j {
                } else {
                    assert(group_priority(gs[j as int]) > q);
                    if i > j {
                        assert(group_priority(gs[j as int]) < group_priority(gs[i]));
                    }
                }
            }
            lemma_filter_none(ins, has_priority(q));
            assert(ins2.filter(has_priority(q)) =~= seq![pv]);
            assert forall|i: int| 0 <= i < gs2.len() implies
                group_members(#[trigger] gs2[i]) == ins2.filter(has_priority(group_priority(gs2[i]))) by {
                ins.lemma_filter_push(pv, has_priority(group_priority(gs2[i])));
                if i < j {
                    assert(gs2[i] == gs[i]);
                } else if i > j {
                    assert(gs2[i] == gs[i - 1]);
                    assert(group_priority(gs[j as int]) <= group_priority(gs[i - 1]));
                }
            }
            assert forall|a: int, b: int| 0 <= a < b < gs2.len() implies
                group_priority(#[trigger] gs2[a]) < group_priority(#[trigger] gs2[b]) by {
                if a < j && b < j {
                    assert(gs2[a] == gs[a] && gs2[b] == gs[b]);
                } else if a < j && b == j {
                    assert(gs2[a] == gs[a]);
                } else if a < j {
                    assert(gs2[a] == gs[a] && gs2[b] == gs[b - 1]);
                } else if a == j {
                    assert(gs2[b] == gs[b - 1]);
                    assert(group_priority(gs[j as int]) <= group_priority(gs[b - 1]));
                } else {
                    assert(gs2[a] == gs[a - 1] && gs2[b] == gs[b - 1]);
                }
            }
            assert forall|k: int| 0 <= k < ins2.len() implies
                exists|i: int| 0 <= i < gs2.len() && group_priority(#[trigger] gs2[i]) == (#[trigger] ins2[k]).priority by {
                if k < ins.len() {
                    assert(ins2[k] == ins[k]);
                    let i = choose|i: int| 0 <= i < gs.len() && group_priority(#[trigger] gs[i]) == ins[k].priority;
                    if i < j {
                        assert(gs2[i] == gs[i]);
                    } else {
                        assert(gs2[i + 1] == gs[i]);
                    }
                } else {
                    assert(group_priority(gs2[j as int]) == ins2[k].priority);
                }
            }
            assert forall|i: int| 0 <= i < gs2.len() implies match #[trigger] gs2[i] {
                GroupView::Single(_) => true,
                GroupView::Multi(s, ps) => s == 0 && ps.len() >= 2,
            } by {
                if i < j {
                    assert(gs2[i] == gs[i]);
                } else if i > j {
                    assert(gs2[i] == gs[i - 1]);
                }
            }
            assert forall|i: int| 0 <= i < gs2.len() implies group_members(#[trigger] gs2[i]).len() > 0 by {
                if i < j {
                    assert(gs2[i] == gs[i]);
                } else if i > j {
                    assert(gs2[i] == gs[i - 1]);
                }
            }
            assert forall|i: int, k: int| 0 <= i < gs2.len() && 0 <= k < group_members(gs2[i]).len() implies
                (#[trigger] group_members(#[trigger] gs2[i])[k]).conn == fresh_connection() by {
                if i < j {
                    assert(gs2[i] == gs[i]);
                } else if i > j {
                    assert(gs2[i] == gs[i - 1]);
                }
            }
            assert forall|i: int, k: int| 0 <= i < gs2.len() && 0 <= k < group_members(gs2[i]).len() implies
                (#[trigger] group_members(#[trigger] gs2[i])[k]).priority == group_priority(gs2[i]) by {
                if i < j {
                    assert(gs2[i] == gs[i]);
                } else if i > j {
                    assert(gs2[i] == gs[i - 1]);
                }
            }
        }
    }
}

/// A lineup of one provider.
pub struct SingleProviderLineup {
    provider: ProviderConfig,
}

impl View for SingleProviderLineup {
    type V = ProviderView;

    closed spec fn view(&self) -> ProviderView {
        self.provider@
    }
}

impl SingleProviderLineup {
    /// The lineup of an input without aliases.
    pub fn new(cfg: &ConfigInput) -> (r: Self)
        ensures
            r@ == input_provider_view(cfg),
    {
        SingleProviderLineup { provider: ProviderConfig::new(cfg) }
    }

    /// Asks the provider for a redirect; no connection is counted.
    pub fn get_next_at(&mut self, grace_period_timeout_secs: u64, now: u64) -> (r: Option<ProviderInfo>)
        requires
            connection_wf(old(self)@.conn),
        ensures
            final(self)@ == after_next_view(old(self)@, false),
            option_identity(r) == (if next_allowed(old(self)@.conn, old(self)@.max, false) {
                Some(old(self)@.identity)
            } else {
                None
            }),
    {
        if self.provider.get_next_at(false, grace_period_timeout_secs, now) {
            Some(self.provider.info())
        } else {
            None
        }
    }

    /// Asks the provider for a connection at time `now`.
    pub fn acquire_at(&mut self, with_grace: bool, grace_period_timeout_secs: u64, now: u64) -> (r: ProviderAllocation)
        requires
            connection_wf(old(self)@.conn),
            old(self)@.conn.current_connections < usize::MAX,
        ensures
            final(self)@ == allocated(old(self)@, with_grace, now),
            r@ == allocation_view(old(self)@.identity, allocation_for(old(self)@.conn, old(self)@.max, with_grace)),
    {
        let a = self.provider.try_allocate_at(with_grace, grace_period_timeout_secs, now);
        make_allocation(&self.provider, a)
    }

    /// Whether the provider is called `name`.
    pub fn has_name(&self, name: &str) -> (r: bool)
        ensures
            r == (self@.identity.name == name@),
    {
        self.provider.has_name(name)
    }

    /// The number of open connections.
    pub fn get_current_connections(&self) -> (r: usize)
        ensures
            r == self@.conn.current_connections,
    {
        self.provider.get_current_connections()
    }

    /// A copy of the provider's name.
    pub fn name_clone(&self) -> (r: String)
        ensures
            r@ == self@.identity.name,
    {
        self.provider.name_clone()
    }

    /// Counts a connection whatever the limit says.
    pub fn force_allocate(&mut self) -> (r: ProviderInfo)
        requires
            connection_wf(old(self)@.conn),
            old(self)@.conn.current_connections < usize::MAX,
        ensures
            final(self)@ == with_conn(old(self)@, after_force(old(self)@.conn)),
            r@ == old(self)@.identity,
    {
        self.provider.force_allocate();
        self.provider.info()
    }

    /// Checks at time `now` whether the provider runs above its limit.
    pub fn is_over_limit_at(&mut self, grace_period_timeout_secs: u64, now: u64) -> (r: bool)
        requires
            connection_wf(old(self)@.conn),
        ensures
            final(self)@ == with_conn(old(self)@, after_over_limit_check(old(self)@.conn, old(self)@.max)),
            r == (old(self)@.max != 0 && old(self)@.conn.current_connections > old(self)@.max),
    {
        self.provider.is_over_limit_at(grace_period_timeout_secs, now)
    }

    /// Asks the provider for a connection at the present time.
    pub fn acquire(&mut self, with_grace: bool, grace_period_timeout_secs: u64) -> (r: ProviderAllocation)
        requires
            connection_wf(old(self)@.conn),
            old(self)@.conn.current_connections < usize::MAX,
        ensures
            exists|now: u64| final(self)@ == #[trigger] allocated(old(self)@, with_grace, now),
            r@ == allocation_view(old(self)@.identity, allocation_for(old(self)@.conn, old(self)@.max, with_grace)),
    {
        let now = current_timestamp();
        self.acquire_at(with_grace, grace_period_timeout_secs, now)
    }

    /// Asks the provider for a redirect at the present time.
    pub fn get_next(&mut self, grace_period_timeout_secs: u64) -> (r: Option<ProviderInfo>)
        requires
            connection_wf(old(self)@.conn),
        ensures
            final(self)@ == after_next_view(old(self)@, false),
            option_identity(r) == (if next_allowed(old(self)@.conn, old(self)@.max, false) {
                Some(old(self)@.identity)
            } else {
                None
            }),
    {
        let now = current_timestamp();
        self.get_next_at(grace_period_timeout_secs, now)
    }

    /// Closes a connection when the provider is called `provider_name`.
    pub fn release(&mut self, provider_name: &str)
        requires
            connection_wf(old(self)@.conn),
        ensures
            final(self)@ == (if old(self)@.identity.name == provider_name@ {
                released(old(self)@)
            } else {
                old(self)@
            }),
    {
        if self.provider.has_name(provider_name) {
            self.provider.release();
        }
    }
}

/// The providers of a list of groups, in order.
pub open spec fn group_list_members(gs: Seq<GroupView>) -> Seq<ProviderView>
    decreases gs.len(),
{
    if gs.len() == 0 {
        Seq::<ProviderView>::empty()
    } else {
        group_list_members(gs.drop_last()) + group_members(gs.last())
    }
}

/// The name and connection count of every provider with open connections,
/// in order.
pub open spec fn active_entries(ps: Seq<ProviderView>) -> Seq<(Seq<char>, usize)>
    decreases ps.len(),
{
    if ps.len() == 0 {
        Seq::<(Seq<char>, usize)>::empty()
    } else {
        let r = active_entries(ps.drop_last());
        if ps.last().conn.current_connections > 0 {
            r.push((ps.last().identity.name, ps.last().conn.current_connections))
        } else {
            r
        }
    }
}

/// The abstract value of a list of (name, count) pairs.
pub open spec fn entries_view(v: Seq<(String, usize)>) -> Seq<(Seq<char>, usize)> {
    v.map_values(|e: (String, usize)| (e.0@, e.1))
}

/// The active entries of a concatenation are the concatenation of the
/// active entries.
pub proof fn lemma_active_entries_append(a: Seq<ProviderView>, b: Seq<ProviderView>)
    ensures
        active_entries(a + b) == active_entries(a) + active_entries(b),
    decreases b.len(),
{
    if b.len() == 0 {
        assert(a + b =~= a);
        assert(active_entries(a) + active_entries(b) =~= active_entries(a));
    } else {
        lemma_active_entries_append(a, b.drop_last());
        assert((a + b).drop_last() =~= a + b.drop_last());
        assert((a + b).last() == b.last());
    }
}

/// Appends the name and count of every provider of `ps` that has open
/// connections.
fn push_active_providers(ps: &Vec<ProviderConfig>, out: &mut Vec<(String, usize)>)
    ensures
        entries_view(final(out)@) == entries_view(old(out)@) + active_entries(providers_view(ps@)),
{
    let n = ps.len();
    for k in 0..n
        invariant
            n == ps.len(),
            entries_view(out@) == entries_view(old(out)@) + active_entries(providers_view(ps@).take(k as int)),
    {
        let ghost before = out@;
        let count = ps[k].get_current_connections();
        proof {
            let pv = providers_view(ps@);
            assert(pv.take(k + 1).drop_last() =~= pv.take(k as int));
            assert(pv.take(k + 1).last() == ps@[k as int]@);
        }
        if count > 0 {
            out.push((ps[k].name_clone(), count));
            proof {
                assert(entries_view(out@) =~= entries_view(before).push((ps@[k as int]@.identity.name, count)));
            }
        }
    }
    proof {
        assert(providers_view(ps@).take(n as int) =~= providers_view(ps@));
    }
}

/// Several providers (an input and its aliases) grouped by priority; a
/// request goes to the lowest priority value first, round robin inside a
/// group.
pub struct MultiProviderLineup {
    providers: Vec<ProviderPriorityGroup>,
    index: usize,
}

/// The abstract states of a vector of groups.
pub open spec fn groups_view(v: Seq<ProviderPriorityGroup>) -> Seq<GroupView> {
    v.map_values(|g: ProviderPriorityGroup| g@)
}

impl View for MultiProviderLineup {
    type V = MultiLineupView;

    closed spec fn view(&self) -> MultiLineupView {
        MultiLineupView { groups: groups_view(self.providers@), index: self.index }
    }
}

impl MultiProviderLineup {
    /// The lineup of an input and its aliases.
    pub fn new(input: &ConfigInput) -> (r: Self)
        ensures
            grouped(r@.groups, input_providers(input)),
            r@.index == 0,
            lineup_wf(r@),
            forall|i: int, k: int| 0 <= i < r@.groups.len() && 0 <= k < group_members(r@.groups[i]).len()
                ==> (#[trigger] group_members(#[trigger] r@.groups[i])[k]).conn == fresh_connection(),
    {
        let mut groups: Vec<ProviderPriorityGroup> = Vec::new();
        let ghost empty = Seq::<ProviderView>::empty();
        proof {
            assert(groups_view(groups@) =~= Seq::<GroupView>::empty());
        }
        let first = ProviderConfig::new(input);
        let ghost mut ins = empty.push(first@);
        insert_by_priority(&mut groups, first, Ghost(empty));
        match &input.aliases {
            Some(aliases) => {
                let n = aliases.len();
                for i in 0..n
                    invariant
                        n == aliases.len(),
                        input.aliases == Some(*aliases),
                        ins == input_providers(input).take(i + 1),
                        grouped(groups_view(groups@), ins),
                        members_fresh(groups_view(groups@)),
                {
                    let p = ProviderConfig::new_alias(input, &aliases[i]);
                    proof {
                        assert(input_providers(input)[i + 1] == alias_provider_view(input, &aliases@[i as int]));
                        assert(input_providers(input).take(i + 2) =~= ins.push(p@));
                    }
                    insert_by_priority(&mut groups, p, Ghost(ins));
                    proof {
                        ins = ins.push(alias_provider_view(input, &aliases@[i as int]));
                    }
                }
                proof {
                    assert(input_providers(input).take(n + 1) =~= input_providers(input));
                }
            },
            None => {
                proof {
                    assert(ins =~= input_providers(input));
                }
            },
        }
        let r = MultiProviderLineup { providers: groups, index: 0 };
        proof {
            let gs = r@.groups;
            assert(ins.len() > 0);
            assert(ins[0] == ins[0]);
            assert(exists|i: int| 0 <= i < gs.len() && group_priority(#[trigger] gs[i]) == ins[0].priority);
            assert forall|i: int| 0 <= i < gs.len() implies group_wf(#[trigger] gs[i]) by {
                assert forall|k: int| 0 <= k < group_members(gs[i]).len() implies
                    connection_wf(#[trigger] group_members(gs[i])[k].conn) by {
                    assert(group_members(gs[i])[k].conn == fresh_connection());
                }
            }
        }
        r
    }

    /// Asks the groups at positions `from` up to `end` for a connection at
    /// time `now` (see `lineup_acquire_from`); returns the answer and the
    /// answering group. The lineup's index is left alone.
    fn acquire_in_groups(&mut self, from: usize, end: usize, with_grace: bool, grace_period_timeout_secs: u64, now: u64)
        -> (r: (ProviderAllocation, usize))
        requires
            lineup_wf(old(self)@),
            lineup_counts_bounded(old(self)@),
            from <= end <= old(self)@.groups.len(),
        ensures
            ({
                let (gs, g, a) = lineup_acquire_from(old(self)@.groups, from as nat, end as nat, with_grace, now);
                &&& final(self)@.groups == gs
                &&& r.0@ == a
                &&& g >= 0 ==> r.1 == g
            }),
            final(self)@.index == old(self)@.index,
            lineup_wf(final(self)@),
            r.0@ is Exhausted ==> lineup_counts_bounded(final(self)@),
    {
        let ghost g0 = old(self)@.groups;
        proof {
            lemma_acquire_from_skips(g0, from as nat, end as nat, with_grace, now);
        }
        let main_idx = self.index;
        let provider_count = self.providers.len();
        let mut index: usize = from;
        while index < end
            invariant
                provider_count == self.providers.len(),
                main_idx == self.index,
                from <= index <= end <= provider_count,
                main_idx == old(self)@.index,
                old(self)@.groups == g0,
                lineup_acquire_from(g0, from as nat, end as nat, with_grace, now)
                    == lineup_acquire_from(self@.groups, index as nat, end as nat, with_grace, now),
                lineup_wf(self@),
                lineup_counts_bounded(self@),
                forall|i: int| 0 <= i < provider_count ==> same_providers(#[trigger] g0[i], self@.groups[i]),
            decreases end - index,
        {
            let ghost gs = self@.groups;
            let ghost g = gs[index as int];
            proof {
                assert(self.providers@[index as int]@ == g);
                lemma_group_acquire_frame(g, false, now);
            }
            let without_grace = self.providers[index].acquire_next_provider_from_group_at(false, grace_period_timeout_secs, now);
            let ghost g1 = group_acquire(g, false, now).0;
            let allocation = if with_grace && matches!(without_grace, ProviderAllocation::Exhausted) {
                proof {
                    lemma_group_acquire_frame(g1, true, now);
                }
                self.providers[index].acquire_next_provider_from_group_at(true, grace_period_timeout_secs, now)
            } else {
                without_grace
            };
            proof {
                assert(groups_view(self.providers@) =~= gs.update(index as int, self.providers@[index as int]@));
                lemma_lineup_wf_update(gs, main_idx, self@.groups, main_idx, index as int);
            }
            match allocation {
                ProviderAllocation::Exhausted => {},
                _ => {
                    return (allocation, index);
                },
            }
            proof {
                assert forall|i: int| 0 <= i < self@.groups.len() implies group_counts_bounded(#[trigger] self@.groups[i]) by {
                    if i == index {
                        assert(group_members(self@.groups[i]) == group_members(gs[i]));
                    } else {
                        assert(self@.groups[i] == gs[i]);
                    }
                }
            }
            index = index + 1;
        }
        (ProviderAllocation::Exhausted, end)
    }

    /// Asks the lineup for a connection at time `now`.
    pub fn acquire_at(&mut self, with_grace: bool, grace_period_timeout_secs: u64, now: u64) -> (r: ProviderAllocation)
        requires
            lineup_wf(old(self)@),
            lineup_counts_bounded(old(self)@),
        ensures
            (final(self)@, r@) == lineup_acquire(old(self)@, with_grace, now),
            lineup_wf(final(self)@),
            r@ is Exhausted ==> lineup_all_refuse(old(self)@, with_grace),
    {
        proof {
            lemma_lineup_refuses_only_when_exhausted(old(self)@, with_grace, now);
            lemma_acquire_from_skips(old(self)@.groups, old(self)@.index as nat, old(self)@.groups.len(), with_grace, now);
        }
        let main_idx = self.index;
        let provider_count = self.providers.len();
        let (first, first_group) = self.acquire_in_groups(main_idx, provider_count, with_grace, grace_period_timeout_secs, now);
        let (allocation, g) = match first {
            ProviderAllocation::Exhausted => {
                proof {
                    lemma_acquire_from_skips(self@.groups, 0, main_idx as nat, with_grace, now);
                }
                self.acquire_in_groups(0, main_idx, with_grace, grace_period_timeout_secs, now)
            },
            _ => (first, first_group),
        };
        match allocation {
            ProviderAllocation::Exhausted => ProviderAllocation::Exhausted,
            _ => {
                if self.providers[g].is_exhausted() {
                    proof {
                        lemma_next_index(g as nat, provider_count as nat);
                    }
                    self.index = (g + 1) % provider_count;
                }
                allocation
            },
        }
    }

    /// Asks the lineup for a connection at the present time.
    pub fn acquire(&mut self, with_grace: bool, grace_period_timeout_secs: u64) -> (r: ProviderAllocation)
        requires
            lineup_wf(old(self)@),
            lineup_counts_bounded(old(self)@),
        ensures
            exists|now: u64| (final(self)@, r@) == #[trigger] lineup_acquire(old(self)@, with_grace, now),
            lineup_wf(final(self)@),
            r@ is Exhausted ==> lineup_all_refuse(old(self)@, with_grace),
    {
        let now = current_timestamp();
        self.acquire_at(with_grace, grace_period_timeout_secs, now)
    }

    /// Asks the lineup for a redirect at the present time.
    pub fn get_next(&mut self, grace_period_timeout_secs: u64) -> (r: Option<ProviderInfo>)
        requires
            lineup_wf(old(self)@),
        ensures
            (final(self)@, option_identity(r)) == lineup_get_next(old(self)@),
            lineup_wf(final(self)@),
    {
        let now = current_timestamp();
        self.get_next_at(grace_period_timeout_secs, now)
    }

    /// Asks the lineup whether a redirect may use one of its providers; no
    /// connection is counted.
    pub fn get_next_at(&mut self, grace_period_timeout_secs: u64, now: u64) -> (r: Option<ProviderInfo>)
        requires
            lineup_wf(old(self)@),
        ensures
            (final(self)@, option_identity(r)) == lineup_get_next(old(self)@),
            lineup_wf(final(self)@),
    {
        let ghost g0 = old(self)@.groups;
        let main_idx = self.index;
        let provider_count = self.providers.len();
        let mut index = main_idx;
        while index < provider_count
            invariant
                provider_count == self.providers.len(),
                main_idx == self.index,
                main_idx <= index <= provider_count,
                main_idx == old(self)@.index,
                old(self)@.groups == g0,
                lineup_get_next_from(g0, main_idx as nat) == lineup_get_next_from(self@.groups, index as nat),
                lineup_wf(self@),
            decreases provider_count - index,
        {
            let ghost gs = self@.groups;
            let ghost g = gs[index as int];
            proof {
                assert(self.providers@[index as int]@ == g);
                lemma_group_get_next_frame(g, false);
            }
            let without_grace = self.providers[index].get_next_provider_from_group_at(false, grace_period_timeout_secs, now);
            let ghost g1 = group_get_next(g, false).0;
            let config = if without_grace.is_none() {
                proof {
                    lemma_group_get_next_frame(g1, true);
                }
                self.providers[index].get_next_provider_from_group_at(true, grace_period_timeout_secs, now)
            } else {
                without_grace
            };
            proof {
                assert(groups_view(self.providers@) =~= gs.update(index as int, self.providers@[index as int]@));
            }
            match config {
                None => {},
                Some(_) => {
                    if self.providers[index].is_exhausted() {
                        proof {
                            lemma_next_index(index as nat, provider_count as nat);
                        }
                        self.index = (index + 1) % provider_count;
                    }
                    proof {
                        lemma_lineup_wf_update(gs, main_idx, self@.groups, self.index, index as int);
                    }
                    return config;
                },
            }
            proof {
                lemma_lineup_wf_update(gs, main_idx, self@.groups, main_idx, index as int);
            }
            index = index + 1;
        }
        None
    }

    /// Closes a connection of the first provider called `provider_name`.
    pub fn release(&mut self, provider_name: &str)
        requires
            lineup_wf(old(self)@),
        ensures
            final(self)@ == lineup_release(old(self)@, provider_name@),
            lineup_wf(final(self)@),
    {
        let ghost g0 = old(self)@.groups;
        let n = self.providers.len();
        for i in 0..n
            invariant
                n == self.providers.len(),
                self@ == old(self)@,
                old(self)@.groups == g0,
                lineup_wf(old(self)@),
                find_by_name_from(g0, provider_name@, 0) == find_by_name_from(g0, provider_name@, i as nat),
        {
            proof {
                assert(self.providers@[i as int]@ == g0[i as int]);
            }
            if self.providers[i].release_named(provider_name) {
                proof {
                    assert(groups_view(self.providers@) =~= g0.update(i as int, self.providers@[i as int]@));
                    lemma_lineup_wf_update(g0, self.index, self@.groups, self.index, i as int);
                }
                return;
            }
            proof {
                assert(groups_view(self.providers@) =~= g0);
            }
        }
    }
    /// The position (group, member) of the first provider called `name`.
    pub fn position_of(&self, name: &str) -> (r: Option<(usize, usize)>)
        ensures
            match r {
                Some((g, k)) => find_by_name_from(self@.groups, name@, 0) == (g as int, k as int),
                None => find_by_name_from(self@.groups, name@, 0).0 < 0,
            },
    {
        let ghost gs = self@.groups;
        let n = self.providers.len();
        for g in 0..n
            invariant
                n == self.providers.len(),
                gs == self@.groups,
                find_by_name_from(gs, name@, 0) == find_by_name_from(gs, name@, g as nat),
        {
            proof {
                assert(self.providers@[g as int]@ == gs[g as int]);
            }
            match self.providers[g].position_of(name) {
                Some(k) => {
                    return Some((g, k));
                },
                None => {},
            }
        }
        None
    }

    /// Counts a connection at position (`g`, `k`) whatever its limit says.
    pub fn force_allocate_at_position(&mut self, g: usize, k: usize) -> (r: ProviderInfo)
        requires
            lineup_wf(old(self)@),
            g < old(self)@.groups.len(),
            k < group_members(old(self)@.groups[g as int]).len(),
            group_members(old(self)@.groups[g as int])[k as int].conn.current_connections < usize::MAX,
        ensures
            r@ == group_members(old(self)@.groups[g as int])[k as int].identity,
            final(self)@ == (MultiLineupView {
                groups: old(self)@.groups.update(g as int, group_with_member(old(self)@.groups[g as int], k as int, with_conn(
                    group_members(old(self)@.groups[g as int])[k as int],
                    after_force(group_members(old(self)@.groups[g as int])[k as int].conn),
                ))),
                index: old(self)@.index,
            }),
            lineup_wf(final(self)@),
    {
        let ghost gs = self@.groups;
        proof {
            assert(self.providers@[g as int]@ == gs[g as int]);
        }
        let r = self.providers[g].force_allocate_member(k);
        proof {
            assert(groups_view(self.providers@) =~= gs.update(g as int, self.providers@[g as int]@));
            lemma_lineup_wf_update(gs, self.index, self@.groups, self.index, g as int);
        }
        r
    }

    /// Checks at time `now` whether the provider at (`g`, `k`) runs above
    /// its limit.
    pub fn is_over_limit_at_position(&mut self, g: usize, k: usize, grace_period_timeout_secs: u64, now: u64) -> (r: bool)
        requires
            lineup_wf(old(self)@),
            g < old(self)@.groups.len(),
            k < group_members(old(self)@.groups[g as int]).len(),
        ensures
            r == (group_members(old(self)@.groups[g as int])[k as int].max != 0
                && group_members(old(self)@.groups[g as int])[k as int].conn.current_connections
                    > group_members(old(self)@.groups[g as int])[k as int].max),
            final(self)@ == (MultiLineupView {
                groups: old(self)@.groups.update(g as int, group_with_member(old(self)@.groups[g as int], k as int, with_conn(
                    group_members(old(self)@.groups[g as int])[k as int],
                    after_over_limit_check(
                        group_members(old(self)@.groups[g as int])[k as int].conn,
                        group_members(old(self)@.groups[g as int])[k as int].max,
                    ),
                ))),
                index: old(self)@.index,
            }),
            lineup_wf(final(self)@),
    {
        let ghost gs = self@.groups;
        proof {
            assert(self.providers@[g as int]@ == gs[g as int]);
        }
        let r = self.providers[g].is_over_limit_member(k, grace_period_timeout_secs, now);
        proof {
            assert(groups_view(self.providers@) =~= gs.update(g as int, self.providers@[g as int]@));
            lemma_lineup_wf_update(gs, self.index, self@.groups, self.index, g as int);
        }
        r
    }
    /// Appends the name and count of every provider of the lineup that has
    /// open connections, in group order.
    pub fn push_active(&self, out: &mut Vec<(String, usize)>)
        ensures
            entries_view(final(out)@) == entries_view(old(out)@) + active_entries(group_list_members(self@.groups)),
    {
        let ghost gs = self@.groups;
        let n = self.providers.len();
        for g in 0..n
            invariant
                n == self.providers.len(),
                gs == self@.groups,
                gs.len() == n,
                entries_view(out@) == entries_view(old(out)@) + active_entries(group_list_members(gs.take(g as int))),
        {
            let ghost before = out@;
            proof {
                assert(self.providers@[g as int]@ == gs[g as int]);
                assert(gs.take(g + 1).drop_last() =~= gs.take(g as int));
                assert(gs.take(g + 1).last() == gs[g as int]);
                lemma_active_entries_append(group_list_members(gs.take(g as int)), group_members(gs[g as int]));
            }
            self.providers[g].push_active(out);
        }
        proof {
            assert(gs.take(n as int) =~= gs);
        }
    }
}

/// Replacing one group by a group of the same providers keeps a lineup well
/// formed.
proof fn lemma_lineup_wf_update(gs: Seq<GroupView>, index: usize, gs2: Seq<GroupView>, index2: usize, i: int)
    requires
        lineup_wf(MultiLineupView { groups: gs, index: index }),
        0 <= i < gs.len(),
        index2 < gs.len(),
        gs2.len() == gs.len(),
        forall|j: int| 0 <= j < gs.len() && j != i ==> gs2[j] == gs[j],
        same_providers(gs[i], gs2[i]),
        group_wf(gs2[i]),
    ensures
        lineup_wf(MultiLineupView { groups: gs2, index: index2 }),
        forall|j: int| 0 <= j < gs.len() ==> same_providers(#[trigger] gs[j], gs2[j]),
{
    assert(group_members(gs[i]).len() > 0);
    assert(group_priority(gs2[i]) == group_priority(gs[i]));
    assert forall|j: int| 0 <= j < gs.len() implies same_providers(#[trigger] gs[j], gs2[j]) by {
        if j != i {
            assert(gs2[j] == gs[j]);
        }
    }
    assert forall|a: int, b: int| 0 <= a < b < gs2.len() implies
        group_priority(#[trigger] gs2[a]) < group_priority(#[trigger] gs2[b]) by {
        assert(group_priority(gs2[a]) == group_priority(gs[a]));
        assert(group_priority(gs2[b]) == group_priority(gs[b]));
    }
    assert forall|a: int, k: int| 0 <= a < gs2.len() && 0 <= k < group_members(gs2[a]).len() implies
        (#[trigger] group_members(#[trigger] gs2[a])[k]).priority == group_priority(gs2[a]) by {
        assert(group_members(gs2[a])[k].priority == group_members(gs[a])[k].priority);
        assert(group_priority(gs2[a]) == group_priority(gs[a]));
    }
}

fn release_in_multi_group(index: &mut usize, pg: &mut Vec<ProviderConfig>, name: &str) -> (r: bool)
    requires
        group_wf(GroupView::Multi(*old(index), providers_view(old(pg)@))),
    ensures
        *final(index) == *old(index),
        r == (find_in_group(providers_view(old(pg)@), name@, 0) >= 0),
        r ==> providers_view(final(pg)@) == providers_view(old(pg)@).update(
            find_in_group(providers_view(old(pg)@), name@, 0),
            released(providers_view(old(pg)@)[find_in_group(providers_view(old(pg)@), name@, 0)]),
        ),
        !r ==> providers_view(final(pg)@) == providers_view(old(pg)@),
        group_wf(GroupView::Multi(*final(index), providers_view(final(pg)@))),
        same_providers(
            GroupView::Multi(*old(index), providers_view(old(pg)@)),
            GroupView::Multi(*final(index), providers_view(final(pg)@)),
        ),
{
    let ghost ps0 = providers_view(pg@);
    let n = pg.len();
    for k in 0..n
        invariant
            n == pg.len(),
            providers_view(pg@) == ps0,
            providers_view(old(pg)@) == ps0,
            *index == *old(index),
            group_wf(GroupView::Multi(*old(index), ps0)),
            find_in_group(ps0, name@, 0) == find_in_group(ps0, name@, k as nat),
    {
        assert(ps0[k as int] == pg@[k as int]@);
        if pg[k].has_name(name) {
            pg[k].release();
            proof {
                let ps1 = providers_view(pg@);
                assert(ps1 =~= ps0.update(k as int, released(ps0[k as int])));
                assert forall|i: int| 0 <= i < ps1.len() implies connection_wf(#[trigger] ps1[i].conn) by {
                    if i != k {
                        assert(ps1[i] == ps0[i]);
                    }
                }
                assert forall|i: int| 0 <= i < ps0.len() implies {
                    &&& (#[trigger] group_members(GroupView::Multi(*old(index), ps0))[i]).identity
                        == group_members(GroupView::Multi(*index, ps1))[i].identity
                    &&& group_members(GroupView::Multi(*old(index), ps0))[i].max
                        == group_members(GroupView::Multi(*index, ps1))[i].max
                    &&& group_members(GroupView::Multi(*old(index), ps0))[i].priority
                        == group_members(GroupView::Multi(*index, ps1))[i].priority
                } by {
                    if i != k {
                        assert(ps1[i] == ps0[i]);
                    }
                }
            }
            return true;
        }
    }
    false
}

/// When the round robin finds no provider that would answer, none of the
/// group's providers would.
pub proof fn lemma_first_allocatable_none(ps: Seq<ProviderView>, start: nat, grace: bool)
    requires
        start < ps.len(),
        first_allocatable(ps, start, grace) >= ps.len(),
    ensures
        forall|m: int| 0 <= m < ps.len() ==> allocation_for(#[trigger] ps[m].conn, ps[m].max, grace)
            == ProviderConfigAllocation::Exhausted,
{
    lemma_offset_bound(ps, start, 0, grace);
    let n = ps.len() as int;
    assert forall|m: int| 0 <= m < ps.len() implies allocation_for(#[trigger] ps[m].conn, ps[m].max, grace)
        == ProviderConfigAllocation::Exhausted by {
        let e = if m >= start { m - start } else { m + n - start };
        assert(wrap_index(start as int, e, n) == m);
        assert(allocation_for(ps[wrap_index(start as int, e, n)].conn, ps[wrap_index(start as int, e, n)].max, grace)
            == ProviderConfigAllocation::Exhausted);
    }
}

/// No provider of the group could take a connection.
pub open spec fn group_all_refuse(g: GroupView, grace: bool) -> bool {
    forall|k: int| 0 <= k < group_members(g).len() ==> allocation_for(
        (#[trigger] group_members(g)[k]).conn,
        group_members(g)[k].max,
        grace,
    ) == ProviderConfigAllocation::Exhausted
}

/// A group answers a connection request while any of its providers has
/// room: going round from its index it refuses only when none could take
/// the connection.
pub proof fn lemma_group_refuses_only_when_full(g: GroupView, grace: bool, now: u64)
    requires
        group_wf(g),
    ensures
        group_acquire(g, grace, now).1 is Exhausted ==> group_all_refuse(g, grace),
{
    match g {
        GroupView::Single(p) => {
            assert(group_members(g)[0] == p);
        },
        GroupView::Multi(start, ps) => {
            lemma_first_allocatable_bound(ps, start as nat, grace);
            if first_allocatable(ps, start as nat, grace) >= ps.len() {
                lemma_first_allocatable_none(ps, start as nat, grace);
            }
        },
    }
}

/// A group that refuses a request of the lineup (without grace, then with
/// grace when grace is wanted) has no provider that could take a connection.
proof fn lemma_group_refuses_all(g: GroupView, with_grace: bool, now: u64)
    requires
        group_wf(g),
        ({
            let (g1, a1) = group_acquire(g, false, now);
            let a2 = if with_grace && a1 is Exhausted { group_acquire(g1, true, now).1 } else { a1 };
            a2 is Exhausted
        }),
    ensures
        forall|k: int| 0 <= k < group_members(g).len() ==> allocation_for(
            (#[trigger] group_members(g)[k]).conn,
            group_members(g)[k].max,
            with_grace,
        ) == ProviderConfigAllocation::Exhausted,
{
    match g {
        GroupView::Single(p) => {
            assert(group_members(g)[0] == p);
        },
        GroupView::Multi(start, ps) => {
            let g1 = group_acquire(g, false, now).0;
            lemma_first_allocatable_bound(ps, start as nat, false);
            assert(g1 == GroupView::Multi(0, ps));
            if with_grace {
                lemma_first_allocatable_bound(ps, 0, true);
                lemma_first_allocatable_none(ps, 0, true);
            } else {
                lemma_first_allocatable_none(ps, start as nat, false);
            }
        },
    }
}

/// The search of `lineup_acquire_from` passes over a group only when none
/// of its providers could take a connection; it changes only the groups it
/// asks, keeps them well formed, and a search that finds nothing changes no
/// provider's connections.
pub proof fn lemma_acquire_from_skips(groups: Seq<GroupView>, j: nat, end: nat, with_grace: bool, now: u64)
    requires
        end <= groups.len(),
        forall|i: int| 0 <= i < groups.len() ==> group_wf(#[trigger] groups[i]),
    ensures
        ({
            let (gs, g, a) = lineup_acquire_from(groups, j, end, with_grace, now);
            let stop = if g >= 0 { g } else { end as int };
            &&& forall|i: int, k: int| j <= i < stop && 0 <= k < group_members(groups[i]).len()
                ==> allocation_for(
                    (#[trigger] group_members(#[trigger] groups[i])[k]).conn,
                    group_members(groups[i])[k].max,
                    with_grace,
                ) == ProviderConfigAllocation::Exhausted
            &&& g >= 0 ==> j <= g < end
            &&& (a is Exhausted) <==> g < 0
            &&& gs.len() == groups.len()
            &&& forall|i: int| 0 <= i < gs.len() ==> group_wf(#[trigger] gs[i])
            &&& forall|i: int| 0 <= i < gs.len() && (i < j || i >= end) ==> #[trigger] gs[i] == groups[i]
            &&& a is Exhausted ==> forall|i: int| 0 <= i < gs.len()
                ==> group_members(#[trigger] gs[i]) == group_members(groups[i])
        }),
    decreases end - j,
{
    if j < end && j < groups.len() {
        let (g1, a1) = group_acquire(groups[j as int], false, now);
        let (g2, a2) = if with_grace && a1 is Exhausted {
            group_acquire(g1, true, now)
        } else {
            (g1, a1)
        };
        let gs = groups.update(j as int, g2);
        lemma_group_acquire_frame(groups[j as int], false, now);
        lemma_group_acquire_frame(g1, true, now);
        assert forall|i: int| 0 <= i < gs.len() implies group_wf(#[trigger] gs[i]) by {
            if i != j {
                assert(gs[i] == groups[i]);
            }
        }
        if a2 is Exhausted {
            lemma_group_refuses_all(groups[j as int], with_grace, now);
            lemma_acquire_from_skips(gs, j + 1, end, with_grace, now);
            let (gs3, g3, a3) = lineup_acquire_from(gs, j + 1, end, with_grace, now);
            let stop = if g3 >= 0 { g3 } else { end as int };
            assert forall|i: int, k: int| j <= i < stop && 0 <= k < group_members(groups[i]).len() implies
                allocation_for(
                    (#[trigger] group_members(#[trigger] groups[i])[k]).conn,
                    group_members(groups[i])[k].max,
                    with_grace,
                ) == ProviderConfigAllocation::Exhausted by {
                if i > j {
                    assert(gs[i] == groups[i]);
                    assert(group_members(gs[i])[k] == group_members(groups[i])[k]);
                }
            }
            assert forall|i: int| 0 <= i < gs3.len() && (i < j || i >= end) implies #[trigger] gs3[i] == groups[i] by {
                assert(gs3[i] == gs[i]);
            }
            if a3 is Exhausted {
                assert forall|i: int| 0 <= i < gs3.len() implies group_members(#[trigger] gs3[i]) == group_members(groups[i]) by {
                    assert(group_members(gs3[i]) == group_members(gs[i]));
                }
            }
        }
    }
}

/// A lineup answers a connection request while any of its providers has
/// room: it refuses only when no provider of any group could take the
/// connection (with grace where grace is wanted).
pub proof fn lemma_lineup_refuses_only_when_exhausted(v: MultiLineupView, with_grace: bool, now: u64)
    requires
        lineup_wf(v),
    ensures
        lineup_acquire(v, with_grace, now).1 is Exhausted ==> lineup_all_refuse(v, with_grace),
{
    let n = v.groups.len();
    lemma_acquire_from_skips(v.groups, v.index as nat, n, with_grace, now);
    let (gs1, g1, a1) = lineup_acquire_from(v.groups, v.index as nat, n, with_grace, now);
    if a1 is Exhausted {
        lemma_acquire_from_skips(gs1, 0, v.index as nat, with_grace, now);
        let (gs2, g2, a2) = lineup_acquire_from(gs1, 0, v.index as nat, with_grace, now);
        if a2 is Exhausted {
            assert forall|i: int, k: int| 0 <= i < v.groups.len() && 0 <= k < group_members(v.groups[i]).len() implies
                allocation_for(
                    (#[trigger] group_members(#[trigger] v.groups[i])[k]).conn,
                    group_members(v.groups[i])[k].max,
                    with_grace,
                ) == ProviderConfigAllocation::Exhausted by {
                if i < v.index {
                    assert(gs1[i] == v.groups[i]);
                    assert(group_members(gs1[i])[k] == group_members(v.groups[i])[k]);
                }
            }
        }
    }
}

/// No provider of any group of the lineup could take a connection.
pub open spec fn lineup_all_refuse(v: MultiLineupView, with_grace: bool) -> bool {
    forall|i: int, k: int| 0 <= i < v.groups.len() && 0 <= k < group_members(v.groups[i]).len()
        ==> allocation_for(
            (#[trigger] group_members(#[trigger] v.groups[i])[k]).conn,
            group_members(v.groups[i])[k].max,
            with_grace,
        ) == ProviderConfigAllocation::Exhausted
}

/// The number of open connections of a list of providers.
pub open spec fn members_total(ps: Seq<ProviderView>) -> int
    decreases ps.len(),
{
    if ps.len() == 0 {
        0
    } else {
        members_total(ps.drop_last()) + ps.last().conn.current_connections
    }
}

/// The number of open connections of a lineup.
pub open spec fn lineup_total(v: MultiLineupView) -> int {
    members_total(group_list_members(v.groups))
}

proof fn lemma_members_total_append(a: Seq<ProviderView>, b: Seq<ProviderView>)
    ensures
        members_total(a + b) == members_total(a) + members_total(b),
    decreases b.len(),
{
    if b.len() == 0 {
        assert(a + b =~= a);
    } else {
        lemma_members_total_append(a, b.drop_last());
        assert((a + b).drop_last() =~= a + b.drop_last());
    }
}

/// Replacing one provider changes the total by the difference of the two
/// providers' counts.
pub proof fn lemma_members_total_update(ps: Seq<ProviderView>, j: int, p: ProviderView)
    requires
        0 <= j < ps.len(),
    ensures
        members_total(ps.update(j, p)) == members_total(ps) - ps[j].conn.current_connections + p.conn.current_connections,
{
    let a = ps.take(j);
    let b = ps.skip(j + 1);
    assert(ps =~= a + seq![ps[j]] + b);
    assert(ps.update(j, p) =~= a + seq![p] + b);
    lemma_members_total_append(a + seq![ps[j]], b);
    lemma_members_total_append(a, seq![ps[j]]);
    lemma_members_total_append(a + seq![p], b);
    lemma_members_total_append(a, seq![p]);
    assert(seq![ps[j]].drop_last() =~= Seq::<ProviderView>::empty());
    assert(seq![p].drop_last() =~= Seq::<ProviderView>::empty());
}

proof fn lemma_group_list_append(a: Seq<GroupView>, b: Seq<GroupView>)
    ensures
        group_list_members(a + b) == group_list_members(a) + group_list_members(b),
    decreases b.len(),
{
    if b.len() == 0 {
        assert(a + b =~= a);
        assert(group_list_members(a) + group_list_members(b) =~= group_list_members(a));
    } else {
        lemma_group_list_append(a, b.drop_last());
        assert((a + b).drop_last() =~= a + b.drop_last());
    }
}

/// Replacing one group changes the total by the difference of the two
/// groups' totals.
pub proof fn lemma_group_list_update(gs: Seq<GroupView>, i: int, g2: GroupView)
    requires
        0 <= i < gs.len(),
    ensures
        members_total(group_list_members(gs.update(i, g2))) == members_total(group_list_members(gs))
            - members_total(group_members(gs[i])) + members_total(group_members(g2)),
{
    let a = gs.take(i);
    let b = gs.skip(i + 1);
    assert(gs =~= a + seq![gs[i]] + b);
    assert(gs.update(i, g2) =~= a + seq![g2] + b);
    lemma_group_list_append(a + seq![gs[i]], b);
    lemma_group_list_append(a, seq![gs[i]]);
    lemma_group_list_append(a + seq![g2], b);
    lemma_group_list_append(a, seq![g2]);
    assert(seq![gs[i]].drop_last() =~= Seq::<GroupView>::empty());
    assert(seq![g2].drop_last() =~= Seq::<GroupView>::empty());
    assert(group_list_members(seq![gs[i]].drop_last()) =~= Seq::<ProviderView>::empty());
    assert(group_list_members(seq![g2].drop_last()) =~= Seq::<ProviderView>::empty());
    assert(group_list_members(seq![gs[i]]) =~= group_members(gs[i]));
    assert(group_list_members(seq![g2]) =~= group_members(g2));
    let x = group_list_members(a);
    let y = group_list_members(b);
    lemma_members_total_append(x + group_members(gs[i]), y);
    lemma_members_total_append(x, group_members(gs[i]));
    lemma_members_total_append(x + group_members(g2), y);
    lemma_members_total_append(x, group_members(g2));
}

/// A group request that is answered counts one connection more in the
/// group; a refused one changes no count.
proof fn lemma_group_acquire_count(g: GroupView, grace: bool, now: u64)
    requires
        group_wf(g),
        group_counts_bounded(g),
    ensures
        members_total(group_members(group_acquire(g, grace, now).0)) == members_total(group_members(g)) + (
        if group_acquire(g, grace, now).1 is Exhausted {
            0int
        } else {
            1int
        }),
{
    let (g2, a) = group_acquire(g, grace, now);
    match g {
        GroupView::Single(p) => {
            assert(group_members(g)[0] == p);
            assert(group_members(g).drop_last() =~= Seq::<ProviderView>::empty());
            assert(group_members(g2).drop_last() =~= Seq::<ProviderView>::empty());
        },
        GroupView::Multi(start, ps) => {
            let j = first_allocatable(ps, start as nat, grace);
            lemma_first_allocatable_bound(ps, start as nat, grace);
            if j < ps.len() {
                assert(group_members(g)[j as int] == ps[j as int]);
                lemma_members_total_update(ps, j as int, allocated(ps[j as int], grace, now));
            }
        },
    }
}

proof fn lemma_acquire_from_count(groups: Seq<GroupView>, j: nat, end: nat, with_grace: bool, now: u64)
    requires
        forall|i: int| 0 <= i < groups.len() ==> group_wf(#[trigger] groups[i]),
        forall|i: int| 0 <= i < groups.len() ==> group_counts_bounded(#[trigger] groups[i]),
    ensures
        members_total(group_list_members(lineup_acquire_from(groups, j, end, with_grace, now).0))
            == members_total(group_list_members(groups)) + (
        if lineup_acquire_from(groups, j, end, with_grace, now).2 is Exhausted {
            0int
        } else {
            1int
        }),
        lineup_acquire_from(groups, j, end, with_grace, now).0.len() == groups.len(),
    decreases end - j,
{
    if j < end && j < groups.len() {
        let (g1, a1) = group_acquire(groups[j as int], false, now);
        lemma_group_acquire_frame(groups[j as int], false, now);
        lemma_group_acquire_count(groups[j as int], false, now);
        let (g2, a2) = if with_grace && a1 is Exhausted {
            assert(group_counts_bounded(g1));
            lemma_group_acquire_frame(g1, true, now);
            lemma_group_acquire_count(g1, true, now);
            group_acquire(g1, true, now)
        } else {
            (g1, a1)
        };
        let gs = groups.update(j as int, g2);
        lemma_group_list_update(groups, j as int, g2);
        if a2 is Exhausted {
            assert(group_members(g2) == group_members(groups[j as int]));
            assert forall|i: int| 0 <= i < gs.len() implies group_wf(#[trigger] gs[i]) by {
                if i != j {
                    assert(gs[i] == groups[i]);
                }
            }
            assert forall|i: int| 0 <= i < gs.len() implies group_counts_bounded(#[trigger] gs[i]) by {
                if i != j {
                    assert(gs[i] == groups[i]);
                }
            }
            lemma_acquire_from_count(gs, j + 1, end, with_grace, now);
        }
    }
}

/// A connection request to a lineup counts exactly one more connection when
/// it is answered and changes no count when it is refused.
pub proof fn lemma_lineup_acquire_counts_one(v: MultiLineupView, with_grace: bool, now: u64)
    requires
        lineup_wf(v),
        lineup_counts_bounded(v),
    ensures
        lineup_total(lineup_acquire(v, with_grace, now).0) == lineup_total(v) + (
        if lineup_acquire(v, with_grace, now).1 is Exhausted {
            0int
        } else {
            1int
        }),
{
    let n = v.groups.len();
    lemma_acquire_from_count(v.groups, v.index as nat, n, with_grace, now);
    lemma_acquire_from_skips(v.groups, v.index as nat, n, with_grace, now);
    let (gs1, g1, a1) = lineup_acquire_from(v.groups, v.index as nat, n, with_grace, now);
    if a1 is Exhausted {
        assert forall|i: int| 0 <= i < gs1.len() implies group_counts_bounded(#[trigger] gs1[i]) by {
            assert(group_members(gs1[i]) == group_members(v.groups[i]));
            assert(group_counts_bounded(v.groups[i]));
        }
        lemma_acquire_from_count(gs1, 0, v.index as nat, with_grace, now);
    }
}

/// The identity carried by an optional provider.
pub open spec fn option_identity(o: Option<ProviderInfo>) -> Option<ProviderIdentity> {
    match o {
        Some(p) => Some(p@),
        None => None,
    }
}

} // verus!
