//! The registry of all provider lineups: connections are asked for, forced,
//! checked and closed by the name of an input or of one of its aliases.

use vstd::prelude::*;
use crate::clock::current_timestamp;
use crate::config::ConfigInput;
use crate::provider_config::{
    after_force, after_over_limit_check, allocated, allocation_for, connection_wf, input_provider_view,
    lemma_allocation_counts,
    next_allowed, with_conn, ProviderInfo, ProviderView,
};
use crate::provider_lineup::{
    after_next_view, allocation_view, find_by_name_from, group_members, group_with_member, grouped,
    input_providers, lineup_acquire, lineup_counts_bounded, lineup_get_next, lineup_release, lineup_wf,
    option_identity, released, active_entries, entries_view, group_list_members, lemma_active_entries_append, AllocationView, GroupView, MultiLineupView, MultiProviderLineup,
    lineup_total, lemma_lineup_acquire_counts_one, lemma_group_list_update, lemma_members_total_update,
    find_in_group, lemma_group_acquire_frame, lemma_first_allocatable_bound, same_providers,
    lineup_acquire_from, lemma_acquire_from_skips, group_acquire, first_allocatable, group_wf, group_counts_bounded,
    ProviderAllocation, SingleProviderLineup,
};
use crate::provider_config::ProviderIdentity;
use crate::text::str_eq;

verus! {

/// The abstract state of a lineup.
pub enum LineupView {
    Single(ProviderView),
    Multi(MultiLineupView),
}

/// The groups of a lineup; a single provider forms one group.
pub open spec fn lineup_groups(l: LineupView) -> Seq<GroupView> {
    match l {
        LineupView::Single(p) => seq![GroupView::Single(p)],
        LineupView::Multi(m) => m.groups,
    }
}

/// The position (group, member) of the first provider of `l` called `name`.
pub open spec fn lineup_find(l: LineupView, name: Seq<char>) -> (int, int) {
    find_by_name_from(lineup_groups(l), name, 0)
}

/// The provider of `l` at position (`g`, `k`).
pub open spec fn lineup_provider_at(l: LineupView, g: int, k: int) -> ProviderView {
    group_members(lineup_groups(l)[g])[k]
}

/// `l` with the provider at (`g`, `k`) replaced by `p`.
pub open spec fn lineup_with_provider(l: LineupView, g: int, k: int, p: ProviderView) -> LineupView {
    match l {
        LineupView::Single(_) => LineupView::Single(p),
        LineupView::Multi(m) => LineupView::Multi(MultiLineupView {
            groups: m.groups.update(g, group_with_member(m.groups[g], k, p)),
            index: m.index,
        }),
    }
}

/// Well-formedness of a lineup.
pub open spec fn lineup_view_wf(l: LineupView) -> bool {
    match l {
        LineupView::Single(p) => connection_wf(p.conn),
        LineupView::Multi(m) => lineup_wf(m),
    }
}

/// No provider of the lineup would overflow its connection counter.
pub open spec fn lineup_view_counts_bounded(l: LineupView) -> bool {
    match l {
        LineupView::Single(p) => p.conn.current_connections < usize::MAX,
        LineupView::Multi(m) => lineup_counts_bounded(m),
    }
}

/// A connection request to a lineup at time `now`.
pub open spec fn lineup_view_acquire(l: LineupView, with_grace: bool, now: u64) -> (LineupView, AllocationView) {
    match l {
        LineupView::Single(p) => (
            LineupView::Single(allocated(p, with_grace, now)),
            allocation_view(p.identity, allocation_for(p.conn, p.max, with_grace)),
        ),
        LineupView::Multi(m) => {
            let (m2, a) = lineup_acquire(m, with_grace, now);
            (LineupView::Multi(m2), a)
        },
    }
}

/// A redirect request to a lineup (a single provider is asked without grace).
pub open spec fn lineup_view_get_next(l: LineupView) -> (LineupView, Option<ProviderIdentity>) {
    match l {
        LineupView::Single(p) => (
            LineupView::Single(after_next_view(p, false)),
            if next_allowed(p.conn, p.max, false) { Some(p.identity) } else { None },
        ),
        LineupView::Multi(m) => {
            let (m2, a) = lineup_get_next(m);
            (LineupView::Multi(m2), a)
        },
    }
}

/// Closing a connection of the provider called `name` in a lineup.
pub open spec fn lineup_view_release(l: LineupView, name: Seq<char>) -> LineupView {
    match l {
        LineupView::Single(p) => LineupView::Single(if p.identity.name == name { released(p) } else { p }),
        LineupView::Multi(m) => LineupView::Multi(lineup_release(m, name)),
    }
}

/// A lineup of one provider or of several.
pub enum ProviderLineup {
    Single(SingleProviderLineup),
    Multi(MultiProviderLineup),
}

impl View for ProviderLineup {
    type V = LineupView;

    open spec fn view(&self) -> LineupView {
        match self {
            ProviderLineup::Single(l) => LineupView::Single(l@),
            ProviderLineup::Multi(l) => LineupView::Multi(l@),
        }
    }
}

/// The lineup built for an input: several providers when the input has
/// aliases, else one.
pub open spec fn lineup_of_input(l: LineupView, input: &ConfigInput) -> bool {
    if input.aliases is Some && input.aliases->0@.len() > 0 {
        &&& l matches LineupView::Multi(m)
        &&& grouped(m.groups, input_providers(input))
        &&& m.index == 0
        &&& lineup_wf(m)
        &&& forall|i: int, k: int| 0 <= i < m.groups.len() && 0 <= k < group_members(m.groups[i]).len()
            ==> (#[trigger] group_members(#[trigger] m.groups[i])[k]).conn.current_connections == 0
    } else {
        l == LineupView::Single(input_provider_view(input))
    }
}

/// The abstract state of the provider registry.
pub struct ManagerView {
    pub grace_period_millis: u64,
    pub grace_period_timeout_secs: u64,
    pub lineups: Seq<LineupView>,
}

/// The first lineup at or after `i` that has a provider called `name`, or -1.
pub open spec fn manager_find_from(ls: Seq<LineupView>, name: Seq<char>, i: nat) -> int
    decreases ls.len() - i,
{
    if i >= ls.len() {
        -1
    } else if lineup_find(ls[i as int], name).0 >= 0 {
        i as int
    } else {
        manager_find_from(ls, name, i + 1)
    }
}

/// The first lineup that has a provider called `name`, or -1.
pub open spec fn manager_find(ls: Seq<LineupView>, name: Seq<char>) -> int {
    manager_find_from(ls, name, 0)
}

/// Well-formedness of the registry: every lineup is well formed.
pub open spec fn manager_wf(v: ManagerView) -> bool {
    forall|i: int| 0 <= i < v.lineups.len() ==> lineup_view_wf(#[trigger] v.lineups[i])
}

/// No provider of the registry would overflow its connection counter.
pub open spec fn manager_counts_bounded(v: ManagerView) -> bool {
    forall|i: int| 0 <= i < v.lineups.len() ==> lineup_view_counts_bounded(#[trigger] v.lineups[i])
}

/// The registry with lineup `i` replaced by `l`.
pub open spec fn with_lineup(v: ManagerView, i: int, l: LineupView) -> ManagerView {
    ManagerView { lineups: v.lineups.update(i, l), ..v }
}

/// A connection request at time `now` by the name of an input: the first
/// lineup that has a provider of that name is asked, grace being wanted when
/// a grace period is configured; without such a lineup the answer is
/// Exhausted and nothing changes.
pub open spec fn acquire_outcome(old: ManagerView, new: ManagerView, name: Seq<char>, r: AllocationView, now: u64) -> bool {
    let i = manager_find(old.lineups, name);
    if i < 0 {
        &&& new == old
        &&& r == AllocationView::Exhausted
    } else {
        let (l2, a) = lineup_view_acquire(old.lineups[i], old.grace_period_millis > 0, now);
        &&& new == with_lineup(old, i, l2)
        &&& r == a
    }
}

/// The providers of a list of lineups, in order.
pub open spec fn lineup_list_members(ls: Seq<LineupView>) -> Seq<ProviderView>
    decreases ls.len(),
{
    if ls.len() == 0 {
        Seq::<ProviderView>::empty()
    } else {
        lineup_list_members(ls.drop_last()) + group_list_members(lineup_groups(ls.last()))
    }
}

/// Keeps track of the providers of all inputs and of their connections.
pub struct ActiveProviderManager {
    grace_period_millis: u64,
    grace_period_timeout_secs: u64,
    providers: Vec<ProviderLineup>,
}

/// The abstract states of a vector of lineups.
pub open spec fn lineups_view(v: Seq<ProviderLineup>) -> Seq<LineupView> {
    v.map_values(|l: ProviderLineup| l@)
}

impl View for ActiveProviderManager {
    type V = ManagerView;

    closed spec fn view(&self) -> ManagerView {
        ManagerView {
            grace_period_millis: self.grace_period_millis,
            grace_period_timeout_secs: self.grace_period_timeout_secs,
            lineups: lineups_view(self.providers@),
        }
    }
}

impl ProviderLineup {
    /// Appends the name and count of every provider of the lineup that has
    /// open connections.
    fn push_active(&self, out: &mut Vec<(String, usize)>)
        ensures
            entries_view(final(out)@) == entries_view(old(out)@) + active_entries(group_list_members(lineup_groups(self@))),
    {
        match self {
            ProviderLineup::Single(l) => {
                let ghost before = out@;
                let count = l.get_current_connections();
                proof {
                    let gs = lineup_groups(self@);
                    assert(gs.drop_last() =~= Seq::<GroupView>::empty());
                    assert(group_list_members(gs.drop_last()) =~= Seq::<ProviderView>::empty());
                    assert(gs.last() == GroupView::Single(l@));
                    assert(group_list_members(gs) =~= seq![l@]);
                    let ms = group_list_members(gs);
                    assert(ms.drop_last() =~= Seq::<ProviderView>::empty());
                    assert(active_entries(ms.drop_last()) =~= Seq::<(Seq<char>, usize)>::empty());
                }
                if count > 0 {
                    out.push((l.name_clone(), count));
                    proof {
                        assert(entries_view(out@) =~= entries_view(before).push((l@.identity.name, count)));
                    }
                } else {
                    proof {
                        assert(entries_view(out@) =~= entries_view(before) + Seq::<(Seq<char>, usize)>::empty());
                    }
                }
            },
            ProviderLineup::Multi(l) => l.push_active(out),
        }
    }

    /// Where the first provider called `name` is.
    fn position_of(&self, name: &str) -> (r: Option<(usize, usize)>)
        ensures
            match r {
                Some((g, k)) => lineup_find(self@, name@) == (g as int, k as int),
                None => lineup_find(self@, name@).0 < 0,
            },
    {
        match self {
            ProviderLineup::Single(l) => {
                let ghost gs = lineup_groups(self@);
                proof {
                    assert(group_members(gs[0])[0] == l@);
                    assert(group_members(gs[0]).len() == 1);
                    reveal_with_fuel(crate::provider_lineup::find_in_group, 2);
                    reveal_with_fuel(find_by_name_from, 2);
                }
                if l.has_name(name) {
                    Some((0, 0))
                } else {
                    None
                }
            },
            ProviderLineup::Multi(l) => l.position_of(name),
        }
    }

    /// Asks the lineup for a connection at time `now`.
    fn acquire_at(&mut self, with_grace: bool, grace_period_timeout_secs: u64, now: u64) -> (r: ProviderAllocation)
        requires
            lineup_view_wf(old(self)@),
            lineup_view_counts_bounded(old(self)@),
        ensures
            (final(self)@, r@) == lineup_view_acquire(old(self)@, with_grace, now),
            lineup_view_wf(final(self)@),
    {
        match self {
            ProviderLineup::Single(l) => l.acquire_at(with_grace, grace_period_timeout_secs, now),
            ProviderLineup::Multi(l) => l.acquire_at(with_grace, grace_period_timeout_secs, now),
        }
    }

    /// Asks the lineup whether a redirect may use one of its providers.
    fn get_next_at(&mut self, grace_period_timeout_secs: u64, now: u64) -> (r: Option<ProviderInfo>)
        requires
            lineup_view_wf(old(self)@),
        ensures
            (final(self)@, option_identity(r)) == lineup_view_get_next(old(self)@),
            lineup_view_wf(final(self)@),
    {
        match self {
            ProviderLineup::Single(l) => l.get_next_at(grace_period_timeout_secs, now),
            ProviderLineup::Multi(l) => l.get_next_at(grace_period_timeout_secs, now),
        }
    }

    /// Closes a connection of the provider called `provider_name`.
    fn release(&mut self, provider_name: &str)
        requires
            lineup_view_wf(old(self)@),
        ensures
            final(self)@ == lineup_view_release(old(self)@, provider_name@),
            lineup_view_wf(final(self)@),
    {
        match self {
            ProviderLineup::Single(l) => l.release(provider_name),
            ProviderLineup::Multi(l) => l.release(provider_name),
        }
    }

    /// Counts a connection at position (`g`, `k`) whatever the limit says.
    fn force_allocate_at_position(&mut self, g: usize, k: usize) -> (r: ProviderInfo)
        requires
            lineup_view_wf(old(self)@),
            g < lineup_groups(old(self)@).len(),
            k < group_members(lineup_groups(old(self)@)[g as int]).len(),
            lineup_provider_at(old(self)@, g as int, k as int).conn.current_connections < usize::MAX,
        ensures
            r@ == lineup_provider_at(old(self)@, g as int, k as int).identity,
            final(self)@ == lineup_with_provider(old(self)@, g as int, k as int, with_conn(
                lineup_provider_at(old(self)@, g as int, k as int),
                after_force(lineup_provider_at(old(self)@, g as int, k as int).conn),
            )),
            lineup_view_wf(final(self)@),
    {
        match self {
            ProviderLineup::Single(l) => {
                proof {
                    assert(lineup_provider_at(LineupView::Single(l@), 0, 0) == l@);
                }
                l.force_allocate()
            },
            ProviderLineup::Multi(l) => l.force_allocate_at_position(g, k),
        }
    }

    /// Checks at time `now` whether the provider at (`g`, `k`) runs above
    /// its limit.
    fn is_over_limit_at_position(&mut self, g: usize, k: usize, grace_period_timeout_secs: u64, now: u64) -> (r: bool)
        requires
            lineup_view_wf(old(self)@),
            g < lineup_groups(old(self)@).len(),
            k < group_members(lineup_groups(old(self)@)[g as int]).len(),
        ensures
            r == (lineup_provider_at(old(self)@, g as int, k as int).max != 0
                && lineup_provider_at(old(self)@, g as int, k as int).conn.current_connections
                    > lineup_provider_at(old(self)@, g as int, k as int).max),
            final(self)@ == lineup_with_provider(old(self)@, g as int, k as int, with_conn(
                lineup_provider_at(old(self)@, g as int, k as int),
                after_over_limit_check(
                    lineup_provider_at(old(self)@, g as int, k as int).conn,
                    lineup_provider_at(old(self)@, g as int, k as int).max,
                ),
            )),
            lineup_view_wf(final(self)@),
    {
        match self {
            ProviderLineup::Single(l) => {
                proof {
                    assert(lineup_provider_at(LineupView::Single(l@), 0, 0) == l@);
                }
                l.is_over_limit_at(grace_period_timeout_secs, now)
            },
            ProviderLineup::Multi(l) => l.is_over_limit_at_position(g, k, grace_period_timeout_secs, now),
        }
    }
}

impl ActiveProviderManager {
    /// An empty registry with the given grace settings.
    pub fn new(grace_period_millis: u64, grace_period_timeout_secs: u64) -> (r: Self)
        ensures
            r@ == (ManagerView {
                grace_period_millis: grace_period_millis,
                grace_period_timeout_secs: grace_period_timeout_secs,
                lineups: Seq::<LineupView>::empty(),
            }),
            manager_wf(r@),
    {
        let r = ActiveProviderManager { grace_period_millis, grace_period_timeout_secs, providers: Vec::new() };
        proof {
            assert(lineups_view(r.providers@) =~= Seq::<LineupView>::empty());
        }
        r
    }

    /// A registry holding a lineup for each input, in order.
    pub fn from_inputs(grace_period_millis: u64, grace_period_timeout_secs: u64, inputs: &Vec<ConfigInput>) -> (r: Self)
        ensures
            r@.grace_period_millis == grace_period_millis,
            r@.grace_period_timeout_secs == grace_period_timeout_secs,
            r@.lineups.len() == inputs.len(),
            forall|i: int| 0 <= i < inputs.len() ==> lineup_of_input(#[trigger] r@.lineups[i], &inputs@[i]),
            manager_wf(r@),
    {
        let mut r = Self::new(grace_period_millis, grace_period_timeout_secs);
        let n = inputs.len();
        for i in 0..n
            invariant
                n == inputs.len(),
                r@.grace_period_millis == grace_period_millis,
                r@.grace_period_timeout_secs == grace_period_timeout_secs,
                r@.lineups.len() == i,
                forall|j: int| 0 <= j < i ==> lineup_of_input(#[trigger] r@.lineups[j], &inputs@[j]),
                manager_wf(r@),
        {
            let ghost before = r@.lineups;
            r.add_provider(&inputs[i]);
            proof {
                assert forall|j: int| 0 <= j < i + 1 implies lineup_of_input(#[trigger] r@.lineups[j], &inputs@[j]) by {
                    if j < i {
                        assert(r@.lineups.drop_last()[j] == r@.lineups[j]);
                        assert(r@.lineups[j] == before[j]);
                    }
                }
            }
        }
        r
    }

    /// Adds the lineup of an input.
    pub fn add_provider(&mut self, input: &ConfigInput)
        requires
            manager_wf(old(self)@),
        ensures
            final(self)@.grace_period_millis == old(self)@.grace_period_millis,
            final(self)@.grace_period_timeout_secs == old(self)@.grace_period_timeout_secs,
            final(self)@.lineups.len() == old(self)@.lineups.len() + 1,
            final(self)@.lineups.drop_last() == old(self)@.lineups,
            lineup_of_input(final(self)@.lineups.last(), input),
            manager_wf(final(self)@),
    {
        let has_aliases = match &input.aliases {
            Some(a) => a.len() > 0,
            None => false,
        };
        let lineup = if has_aliases {
            let m = MultiProviderLineup::new(input);
            proof {
                let mv = m@;
                assert forall|i: int, k: int| 0 <= i < mv.groups.len() && 0 <= k < group_members(mv.groups[i]).len()
                    implies (#[trigger] group_members(#[trigger] mv.groups[i])[k]).conn.current_connections == 0 by {
                    assert(group_members(mv.groups[i])[k].conn == crate::provider_config::fresh_connection());
                }
            }
            ProviderLineup::Multi(m)
        } else {
            ProviderLineup::Single(SingleProviderLineup::new(input))
        };
        let ghost l = lineup@;
        self.providers.push(lineup);
        proof {
            assert(lineups_view(self.providers@) =~= old(self)@.lineups.push(l));
            assert(lineups_view(self.providers@).drop_last() =~= old(self)@.lineups);
        }
    }

    /// The connection count of every provider with open connections, by
    /// name: one entry per name, in the order names first appear in the
    /// registry, a later provider of the same name replacing the count of
    /// an earlier one (see `entries_map`); None when there is none.
    pub fn active_connections(&self) -> (r: Option<Vec<(String, usize)>>)
        ensures
            match r {
                Some(v) => {
                    &&& entries_view(v@) == entries_map(active_entries(lineup_list_members(self@.lineups)))
                    &&& v@.len() > 0
                },
                None => active_entries(lineup_list_members(self@.lineups)).len() == 0,
            },
    {
        let list = self.active_provider_list();
        let r = entries_as_map(&list);
        proof {
            lemma_entries_map_len(entries_view(list@));
        }
        if r.len() == 0 {
            None
        } else {
            Some(r)
        }
    }

    /// The name and connection count of every provider with open
    /// connections, in registry order.
    fn active_provider_list(&self) -> (r: Vec<(String, usize)>)
        ensures
            entries_view(r@) == active_entries(lineup_list_members(self@.lineups)),
    {
        let ghost ls = self@.lineups;
        let mut result: Vec<(String, usize)> = Vec::new();
        let n = self.providers.len();
        proof {
            assert(entries_view(result@) =~= Seq::<(Seq<char>, usize)>::empty());
            assert(ls.take(0) =~= Seq::<LineupView>::empty());
        }
        for i in 0..n
            invariant
                n == self.providers.len(),
                ls == self@.lineups,
                ls.len() == n,
                entries_view(result@) == active_entries(lineup_list_members(ls.take(i as int))),
        {
            proof {
                assert(self.providers@[i as int]@ == ls[i as int]);
                assert(ls.take(i + 1).drop_last() =~= ls.take(i as int));
                assert(ls.take(i + 1).last() == ls[i as int]);
                lemma_active_entries_append(
                    lineup_list_members(ls.take(i as int)),
                    group_list_members(lineup_groups(ls[i as int])),
                );
            }
            self.providers[i].push_active(&mut result);
        }
        proof {
            assert(ls.take(n as int) =~= ls);
        }
        result
    }

    /// The lineup that has a provider called `name`.
    fn find_lineup(&self, name: &str) -> (r: Option<(usize, usize, usize)>)
        ensures
            match r {
                Some((i, g, k)) => {
                    &&& (i as int) < self@.lineups.len()
                    &&& manager_find(self@.lineups, name@) == i as int
                    &&& lineup_find(self@.lineups[i as int], name@) == (g as int, k as int)
                },
                None => manager_find(self@.lineups, name@) < 0,
            },
    {
        let ghost ls = self@.lineups;
        let n = self.providers.len();
        for i in 0..n
            invariant
                n == self.providers.len(),
                ls == self@.lineups,
                ls.len() == n,
                manager_find_from(ls, name@, 0) == manager_find_from(ls, name@, i as nat),
        {
            proof {
                assert(self.providers@[i as int]@ == ls[i as int]);
            }
            match self.providers[i].position_of(name) {
                Some((g, k)) => {
                    return Some((i, g, k));
                },
                None => {},
            }
        }
        None
    }

    /// Counts a connection at the provider called `provider_name` whatever
    /// its limit says; Exhausted when there is no such provider.
    pub fn force_exact_acquire_connection(&mut self, provider_name: &str) -> (r: ProviderAllocation)
        requires
            manager_wf(old(self)@),
            manager_counts_bounded(old(self)@),
        ensures
            manager_wf(final(self)@),
            ({
                let i = manager_find(old(self)@.lineups, provider_name@);
                if i < 0 {
                    &&& final(self)@ == old(self)@
                    &&& r@ == AllocationView::Exhausted
                } else {
                    let l = old(self)@.lineups[i];
                    let (g, k) = lineup_find(l, provider_name@);
                    let p = lineup_provider_at(l, g, k);
                    &&& final(self)@ == with_lineup(old(self)@, i, lineup_with_provider(l, g, k, with_conn(p, after_force(p.conn))))
                    &&& r@ == AllocationView::Available(p.identity)
                }
            }),
    {
        match self.find_lineup(provider_name) {
            None => ProviderAllocation::Exhausted,
            Some((i, g, k)) => {
                let ghost ls = self@.lineups;
                proof {
                    assert(self.providers@[i as int]@ == ls[i as int]);
                    assert(lineup_view_counts_bounded(ls[i as int]));
                    lemma_find_in_bounds(ls[i as int], provider_name@);
                    lemma_position_bounded(ls[i as int], g as int, k as int);
                }
                let info = self.providers[i].force_allocate_at_position(g, k);
                proof {
                    assert(lineups_view(self.providers@) =~= ls.update(i as int, self.providers@[i as int]@));
                }
                ProviderAllocation::Available(info)
            },
        }
    }

    /// Asks at time `now` for a connection from the lineup that has a
    /// provider called `input_name`; grace is wanted when a grace period is
    /// configured. Exhausted when there is no such lineup.
    pub fn acquire_connection_at(&mut self, input_name: &str, now: u64) -> (r: ProviderAllocation)
        requires
            manager_wf(old(self)@),
            manager_counts_bounded(old(self)@),
        ensures
            manager_wf(final(self)@),
            acquire_outcome(old(self)@, final(self)@, input_name@, r@, now),
    {
        match self.find_lineup(input_name) {
            None => ProviderAllocation::Exhausted,
            Some((i, _g, _k)) => {
                let ghost ls = self@.lineups;
                proof {
                    assert(self.providers@[i as int]@ == ls[i as int]);
                }
                let with_grace = self.grace_period_millis > 0;
                let r = self.providers[i].acquire_at(with_grace, self.grace_period_timeout_secs, now);
                proof {
                    assert(lineups_view(self.providers@) =~= ls.update(i as int, self.providers@[i as int]@));
                }
                r
            },
        }
    }

    /// Asks for a connection from the lineup that has a provider called
    /// `input_name`, at the present time.
    pub fn acquire_connection(&mut self, input_name: &str) -> (r: ProviderAllocation)
        requires
            manager_wf(old(self)@),
            manager_counts_bounded(old(self)@),
        ensures
            manager_wf(final(self)@),
            exists|now: u64| #[trigger] acquire_outcome(old(self)@, final(self)@, input_name@, r@, now),
    {
        let now = current_timestamp();
        self.acquire_connection_at(input_name, now)
    }

    /// For redirects: the provider of the lineup that has a provider called
    /// `input_name` that a redirect may use; no connection is counted.
    pub fn get_next_provider_at(&mut self, input_name: &str, now: u64) -> (r: Option<ProviderInfo>)
        requires
            manager_wf(old(self)@),
        ensures
            manager_wf(final(self)@),
            ({
                let i = manager_find(old(self)@.lineups, input_name@);
                if i < 0 {
                    &&& final(self)@ == old(self)@
                    &&& r is None
                } else {
                    let (l2, a) = lineup_view_get_next(old(self)@.lineups[i]);
                    &&& final(self)@ == with_lineup(old(self)@, i, l2)
                    &&& option_identity(r) == a
                }
            }),
    {
        match self.find_lineup(input_name) {
            None => None,
            Some((i, _g, _k)) => {
                let ghost ls = self@.lineups;
                proof {
                    assert(self.providers@[i as int]@ == ls[i as int]);
                }
                let r = self.providers[i].get_next_at(self.grace_period_timeout_secs, now);
                proof {
                    assert(lineups_view(self.providers@) =~= ls.update(i as int, self.providers@[i as int]@));
                }
                r
            },
        }
    }

    /// For redirects, at the present time.
    pub fn get_next_provider(&mut self, input_name: &str) -> (r: Option<ProviderInfo>)
        requires
            manager_wf(old(self)@),
        ensures
            manager_wf(final(self)@),
            ({
                let i = manager_find(old(self)@.lineups, input_name@);
                if i < 0 {
                    &&& final(self)@ == old(self)@
                    &&& r is None
                } else {
                    let (l2, a) = lineup_view_get_next(old(self)@.lineups[i]);
                    &&& final(self)@ == with_lineup(old(self)@, i, l2)
                    &&& option_identity(r) == a
                }
            }),
    {
        let now = current_timestamp();
        self.get_next_provider_at(input_name, now)
    }

    /// Closes a connection of the provider called `provider_name`.
    pub fn release_connection(&mut self, provider_name: &str)
        requires
            manager_wf(old(self)@),
        ensures
            manager_wf(final(self)@),
            ({
                let i = manager_find(old(self)@.lineups, provider_name@);
                if i < 0 {
                    final(self)@ == old(self)@
                } else {
                    final(self)@ == with_lineup(old(self)@, i, lineup_view_release(old(self)@.lineups[i], provider_name@))
                }
            }),
    {
        match self.find_lineup(provider_name) {
            None => {},
            Some((i, _g, _k)) => {
                let ghost ls = self@.lineups;
                proof {
                    assert(self.providers@[i as int]@ == ls[i as int]);
                }
                self.providers[i].release(provider_name);
                proof {
                    assert(lineups_view(self.providers@) =~= ls.update(i as int, self.providers@[i as int]@));
                }
            },
        }
    }

    /// Checks at time `now` whether the provider called `provider_name`
    /// runs above its limit; false when there is none.
    pub fn is_over_limit_at(&mut self, provider_name: &str, now: u64) -> (r: bool)
        requires
            manager_wf(old(self)@),
        ensures
            manager_wf(final(self)@),
            ({
                let i = manager_find(old(self)@.lineups, provider_name@);
                if i < 0 {
                    &&& final(self)@ == old(self)@
                    &&& !r
                } else {
                    let l = old(self)@.lineups[i];
                    let (g, k) = lineup_find(l, provider_name@);
                    let p = lineup_provider_at(l, g, k);
                    &&& final(self)@ == with_lineup(old(self)@, i, lineup_with_provider(l, g, k,
                        with_conn(p, after_over_limit_check(p.conn, p.max))))
                    &&& r == (p.max != 0 && p.conn.current_connections > p.max)
                }
            }),
    {
        match self.find_lineup(provider_name) {
            None => false,
            Some((i, g, k)) => {
                let ghost ls = self@.lineups;
                proof {
                    assert(self.providers@[i as int]@ == ls[i as int]);
                    lemma_find_in_bounds(ls[i as int], provider_name@);
                }
                let r = self.providers[i].is_over_limit_at_position(g, k, self.grace_period_timeout_secs, now);
                proof {
                    assert(lineups_view(self.providers@) =~= ls.update(i as int, self.providers@[i as int]@));
                }
                r
            },
        }
    }

    /// Checks whether the provider called `provider_name` runs above its
    /// limit, now.
    pub fn is_over_limit(&mut self, provider_name: &str) -> (r: bool)
        requires
            manager_wf(old(self)@),
        ensures
            manager_wf(final(self)@),
            ({
                let i = manager_find(old(self)@.lineups, provider_name@);
                if i < 0 {
                    &&& final(self)@ == old(self)@
                    &&& !r
                } else {
                    let l = old(self)@.lineups[i];
                    let (g, k) = lineup_find(l, provider_name@);
                    let p = lineup_provider_at(l, g, k);
                    &&& final(self)@ == with_lineup(old(self)@, i, lineup_with_provider(l, g, k,
                        with_conn(p, after_over_limit_check(p.conn, p.max))))
                    &&& r == (p.max != 0 && p.conn.current_connections > p.max)
                }
            }),
    {
        let now = current_timestamp();
        self.is_over_limit_at(provider_name, now)
    }
}

/// A position found by name lies inside the lineup.
proof fn lemma_find_in_bounds(l: LineupView, name: Seq<char>)
    requires
        lineup_find(l, name).0 >= 0,
    ensures
        lineup_find(l, name).0 < lineup_groups(l).len(),
        0 <= lineup_find(l, name).1 < group_members(lineup_groups(l)[lineup_find(l, name).0]).len(),
{
    lemma_find_from_bounds(lineup_groups(l), name, 0);
}

proof fn lemma_find_in_group_bounds(ps: Seq<ProviderView>, name: Seq<char>, k: nat)
    ensures
        crate::provider_lineup::find_in_group(ps, name, k) < ps.len(),
        crate::provider_lineup::find_in_group(ps, name, k) >= 0 ==> crate::provider_lineup::find_in_group(ps, name, k) >= k,
    decreases ps.len() - k,
{
    if k < ps.len() {
        lemma_find_in_group_bounds(ps, name, k + 1);
    }
}

proof fn lemma_find_from_bounds(gs: Seq<GroupView>, name: Seq<char>, i: nat)
    ensures
        find_by_name_from(gs, name, i).0 >= 0 ==> {
            &&& find_by_name_from(gs, name, i).0 < gs.len()
            &&& 0 <= find_by_name_from(gs, name, i).1 < group_members(gs[find_by_name_from(gs, name, i).0]).len()
        },
    decreases gs.len() - i,
{
    if i < gs.len() {
        lemma_find_in_group_bounds(group_members(gs[i as int]), name, 0);
        lemma_find_from_bounds(gs, name, i + 1);
    }
}

/// The counter of a provider of a bounded lineup is below the maximum.
proof fn lemma_position_bounded(l: LineupView, g: int, k: int)
    requires
        lineup_view_counts_bounded(l),
        0 <= g < lineup_groups(l).len(),
        0 <= k < group_members(lineup_groups(l)[g]).len(),
    ensures
        lineup_provider_at(l, g, k).conn.current_connections < usize::MAX,
{
    match l {
        LineupView::Single(p) => {
            assert(lineup_groups(l)[0] == GroupView::Single(p));
            assert(group_members(GroupView::Single(p))[0] == p);
        },
        LineupView::Multi(m) => {
            assert(crate::provider_lineup::group_counts_bounded(m.groups[g]));
        },
    }
}

/// The number of open connections of a lineup.
pub open spec fn lineup_view_total(l: LineupView) -> int {
    match l {
        LineupView::Single(p) => p.conn.current_connections as int,
        LineupView::Multi(m) => lineup_total(m),
    }
}

/// The number of open connections of a list of lineups.
pub open spec fn manager_total(ls: Seq<LineupView>) -> int
    decreases ls.len(),
{
    if ls.len() == 0 {
        0
    } else {
        manager_total(ls.drop_last()) + lineup_view_total(ls.last())
    }
}

proof fn lemma_manager_total_update(ls: Seq<LineupView>, i: int, l: LineupView)
    requires
        0 <= i < ls.len(),
    ensures
        manager_total(ls.update(i, l)) == manager_total(ls) - lineup_view_total(ls[i]) + lineup_view_total(l),
    decreases ls.len(),
{
    if i == ls.len() - 1 {
        assert(ls.update(i, l).drop_last() =~= ls.drop_last());
    } else {
        lemma_manager_total_update(ls.drop_last(), i, l);
        assert(ls.update(i, l).drop_last() =~= ls.drop_last().update(i, l));
    }
}

proof fn lemma_manager_find_bounds(ls: Seq<LineupView>, name: Seq<char>, i: nat)
    ensures
        manager_find_from(ls, name, i) < ls.len(),
    decreases ls.len() - i,
{
    if i < ls.len() {
        lemma_manager_find_bounds(ls, name, i + 1);
    }
}

/// The registry counts exactly one more open connection after a granted
/// request, and none after a refused one.
pub proof fn lemma_acquire_counts_one(old: ManagerView, new: ManagerView, name: Seq<char>, r: AllocationView, now: u64)
    requires
        manager_wf(old),
        manager_counts_bounded(old),
        acquire_outcome(old, new, name, r, now),
    ensures
        manager_total(new.lineups) == manager_total(old.lineups) + (if r is Exhausted { 0int } else { 1int }),
{
    let i = manager_find(old.lineups, name);
    if i >= 0 {
        lemma_manager_find_bounds(old.lineups, name, 0);
        let l = old.lineups[i];
        assert(lineup_view_counts_bounded(l));
        let with_grace = old.grace_period_millis > 0;
        let (l2, a) = lineup_view_acquire(l, with_grace, now);
        lemma_manager_total_update(old.lineups, i, l2);
        assert(new.lineups == old.lineups.update(i, l2));
        match l {
            LineupView::Single(p) => {
                lemma_allocation_counts(p.conn, p.max, with_grace, now);
            },
            LineupView::Multi(m) => {
                assert(lineup_view_wf(l));
                lemma_lineup_acquire_counts_one(m, with_grace, now);
            },
        }
    }
}

proof fn lemma_manager_find_found(ls: Seq<LineupView>, name: Seq<char>, i: nat)
    ensures
        manager_find_from(ls, name, i) >= 0 ==> lineup_find(ls[manager_find_from(ls, name, i)], name).0 >= 0,
    decreases ls.len() - i,
{
    if i < ls.len() {
        lemma_manager_find_found(ls, name, i + 1);
    }
}

proof fn lemma_find_in_group_names(ps: Seq<ProviderView>, name: Seq<char>, k: nat)
    ensures
        find_in_group(ps, name, k) >= 0 ==> ps[find_in_group(ps, name, k)].identity.name == name,
    decreases ps.len() - k,
{
    if k < ps.len() {
        lemma_find_in_group_names(ps, name, k + 1);
    }
}

/// The open connections of the provider that a release by `name` closes in
/// a lineup (the first one of that name), 0 when there is none.
pub open spec fn named_connections(l: LineupView, name: Seq<char>) -> int {
    let (g, k) = lineup_find(l, name);
    if g >= 0 { lineup_provider_at(l, g, k).conn.current_connections as int } else { 0 }
}

/// Closing a connection by a provider's name lowers the registry's count
/// by one when that provider has an open connection, and changes no count
/// otherwise.
pub proof fn lemma_release_counts_one(old: ManagerView, name: Seq<char>)
    ensures
        ({
            let i = manager_find(old.lineups, name);
            let new = if i < 0 { old } else { with_lineup(old, i, lineup_view_release(old.lineups[i], name)) };
            manager_total(new.lineups) == manager_total(old.lineups)
                - (if i >= 0 && named_connections(old.lineups[i], name) > 0 { 1int } else { 0int })
        }),
{
    let i = manager_find(old.lineups, name);
    if i >= 0 {
        lemma_manager_find_bounds(old.lineups, name, 0);
        lemma_manager_find_found(old.lineups, name, 0);
        let l = old.lineups[i];
        lemma_find_in_bounds(l, name);
        let l2 = lineup_view_release(l, name);
        lemma_manager_total_update(old.lineups, i, l2);
        let (g, k) = lineup_find(l, name);
        match l {
            LineupView::Single(p) => {
                assert(group_members(GroupView::Single(p)) =~= seq![p]);
                assert(lineup_groups(l)[0] == GroupView::Single(p));
                assert(find_by_name_from(lineup_groups(l), name, 1) == (-1int, -1int));
                assert(find_in_group(seq![p], name, 0) >= 0);
                lemma_find_in_group_names(seq![p], name, 0);
                assert(k == 0);
                assert(lineup_provider_at(l, g, k) == p);
                assert(p.identity.name == name);
                assert(l2 == LineupView::Single(released(p)));
                assert(lineup_view_total(l2) == lineup_view_total(l) - (if p.conn.current_connections > 0 { 1int } else { 0int }));
            },
            LineupView::Multi(m) => {
                let gi = m.groups[g];
                let member = group_members(gi)[k];
                let g2 = group_with_member(gi, k, released(member));
                lemma_group_list_update(m.groups, g, g2);
                match gi {
                    GroupView::Single(p) => {
                        assert(group_members(gi) =~= seq![p]);
                        assert(group_members(g2) =~= seq![released(p)]);
                        assert(seq![p].drop_last() =~= Seq::<ProviderView>::empty());
                        assert(seq![released(p)].drop_last() =~= Seq::<ProviderView>::empty());
                    },
                    GroupView::Multi(st, ps) => {
                        lemma_members_total_update(ps, k, released(ps[k]));
                    },
                }
                assert(l2 == LineupView::Multi(lineup_release(m, name)));
                assert(lineup_release(m, name).groups == m.groups.update(g, g2));
                assert(lineup_view_total(l2) == lineup_view_total(l) - (if member.conn.current_connections > 0 { 1int } else { 0int }));
            },
        }
    }
}

/// The provider at position (`g`, `k`) of a list of groups.
pub open spec fn member_at(gs: Seq<GroupView>, g: int, k: int) -> ProviderView {
    group_members(gs[g])[k]
}

/// Whether (`g`, `k`) is a position of the groups.
pub open spec fn is_position(gs: Seq<GroupView>, g: int, k: int) -> bool {
    0 <= g < gs.len() && 0 <= k < group_members(gs[g]).len()
}

/// No two providers of the groups share a name.
pub open spec fn names_unique(gs: Seq<GroupView>) -> bool {
    forall|g1: int, k1: int, g2: int, k2: int|
        #![trigger member_at(gs, g1, k1), member_at(gs, g2, k2)]
        is_position(gs, g1, k1) && is_position(gs, g2, k2) && (g1 != g2 || k1 != k2)
            ==> member_at(gs, g1, k1).identity.name != member_at(gs, g2, k2).identity.name
}

/// The groups hold the same providers, position by position, up to their
/// connection state.
pub open spec fn same_lineup_providers(gs: Seq<GroupView>, hs: Seq<GroupView>) -> bool {
    gs.len() == hs.len() && forall|g: int| 0 <= g < gs.len() ==> same_providers(#[trigger] gs[g], hs[g])
}

proof fn lemma_same_providers_trans(a: GroupView, b: GroupView, c: GroupView)
    requires
        same_providers(a, b),
        same_providers(b, c),
    ensures
        same_providers(a, c),
{
    assert forall|k: int| 0 <= k < group_members(a).len() implies {
        &&& (#[trigger] group_members(a)[k]).identity == group_members(c)[k].identity
        &&& group_members(a)[k].max == group_members(c)[k].max
        &&& group_members(a)[k].priority == group_members(c)[k].priority
    } by {
        assert(group_members(b)[k].identity == group_members(c)[k].identity);
    }
}

proof fn lemma_same_providers_refl(a: GroupView)
    ensures
        same_providers(a, a),
{
}

/// A connection request keeps every provider in its place.
proof fn lemma_acquire_from_same(gs: Seq<GroupView>, i: nat, end: nat, with_grace: bool, now: u64)
    requires
        forall|g: int| 0 <= g < gs.len() ==> group_wf(#[trigger] gs[g]),
    ensures
        same_lineup_providers(gs, lineup_acquire_from(gs, i, end, with_grace, now).0),
        forall|g: int| 0 <= g < gs.len() ==> group_wf(#[trigger] lineup_acquire_from(gs, i, end, with_grace, now).0[g]),
    decreases end - i,
{
    if i < end && i < gs.len() {
        lemma_group_acquire_frame(gs[i as int], false, now);
        let (g1, a1) = group_acquire(gs[i as int], false, now);
        let (g2, a2) = if with_grace && a1 is Exhausted {
            lemma_group_acquire_frame(g1, true, now);
            lemma_same_providers_trans(gs[i as int], g1, group_acquire(g1, true, now).0);
            group_acquire(g1, true, now)
        } else {
            (g1, a1)
        };
        let hs = gs.update(i as int, g2);
        assert(same_providers(gs[i as int], g2));
        assert(group_wf(g2));
        assert forall|g: int| 0 <= g < gs.len() implies same_providers(#[trigger] gs[g], hs[g]) by {
            if g != i {
                lemma_same_providers_refl(gs[g]);
            }
        }
        if a2 is Exhausted {
            assert forall|g: int| 0 <= g < hs.len() implies group_wf(#[trigger] hs[g]) by {
                if g != i {
                    assert(hs[g] == gs[g]);
                }
            }
            lemma_acquire_from_same(hs, i + 1, end, with_grace, now);
            let rs = lineup_acquire_from(hs, i + 1, end, with_grace, now).0;
            assert forall|g: int| 0 <= g < gs.len() implies same_providers(#[trigger] gs[g], rs[g]) by {
                lemma_same_providers_trans(gs[g], hs[g], rs[g]);
            }
        }
    } else {
        assert forall|g: int| 0 <= g < gs.len() implies same_providers(#[trigger] gs[g], gs[g]) by {
            lemma_same_providers_refl(gs[g]);
        }
    }
}

proof fn lemma_find_in_group_same(ps: Seq<ProviderView>, qs: Seq<ProviderView>, name: Seq<char>, k: nat)
    requires
        ps.len() == qs.len(),
        forall|j: int| 0 <= j < ps.len() ==> (#[trigger] ps[j]).identity == qs[j].identity,
    ensures
        find_in_group(ps, name, k) == find_in_group(qs, name, k),
    decreases ps.len() - k,
{
    if k < ps.len() {
        assert(ps[k as int].identity == qs[k as int].identity);
        lemma_find_in_group_same(ps, qs, name, k + 1);
    }
}

/// Where a name is found depends on the providers only, not on their
/// connection state.
proof fn lemma_find_from_same(gs: Seq<GroupView>, hs: Seq<GroupView>, name: Seq<char>, i: nat)
    requires
        same_lineup_providers(gs, hs),
    ensures
        find_by_name_from(gs, name, i) == find_by_name_from(hs, name, i),
    decreases gs.len() - i,
{
    if i < gs.len() {
        let ps = group_members(gs[i as int]);
        let qs = group_members(hs[i as int]);
        assert(same_providers(gs[i as int], hs[i as int]));
        assert forall|j: int| 0 <= j < ps.len() implies (#[trigger] ps[j]).identity == qs[j].identity by {
            assert(group_members(gs[i as int])[j].identity == group_members(hs[i as int])[j].identity);
        }
        lemma_find_in_group_same(ps, qs, name, 0);
        lemma_find_from_same(gs, hs, name, i + 1);
    }
}

/// The provider a granted answer names.
pub open spec fn granted_identity(a: AllocationView) -> ProviderIdentity {
    match a {
        AllocationView::Available(id) => id,
        AllocationView::GracePeriod(id) => id,
        AllocationView::Exhausted => arbitrary(),
    }
}

/// A granted group request leaves the granted provider, in its place,
/// holding at least one connection.
proof fn lemma_group_grant(g: GroupView, grace: bool, now: u64) -> (k: int)
    requires
        group_counts_bounded(g),
        !(group_acquire(g, grace, now).1 is Exhausted),
    ensures
        0 <= k < group_members(group_acquire(g, grace, now).0).len(),
        group_members(group_acquire(g, grace, now).0)[k].identity == granted_identity(group_acquire(g, grace, now).1),
        group_members(group_acquire(g, grace, now).0)[k].conn.current_connections >= 1,
{
    match g {
        GroupView::Single(p) => {
            assert(group_members(g)[0] == p);
            lemma_allocation_counts(p.conn, p.max, grace, now);
            0
        },
        GroupView::Multi(start, ps) => {
            let j = first_allocatable(ps, start as nat, grace);
            lemma_first_allocatable_bound(ps, start as nat, grace);
            assert(group_members(g)[j as int] == ps[j as int]);
            lemma_allocation_counts(ps[j as int].conn, ps[j as int].max, grace, now);
            j as int
        },
    }
}

/// A granted lineup request leaves the granted provider, in its place,
/// holding at least one connection.
proof fn lemma_acquire_from_grant(gs: Seq<GroupView>, i: nat, end: nat, with_grace: bool, now: u64) -> (pos: (int, int))
    requires
        forall|g: int| 0 <= g < gs.len() ==> group_wf(#[trigger] gs[g]),
        forall|g: int| 0 <= g < gs.len() ==> group_counts_bounded(#[trigger] gs[g]),
        !(lineup_acquire_from(gs, i, end, with_grace, now).2 is Exhausted),
    ensures
        is_position(lineup_acquire_from(gs, i, end, with_grace, now).0, pos.0, pos.1),
        member_at(lineup_acquire_from(gs, i, end, with_grace, now).0, pos.0, pos.1).identity
            == granted_identity(lineup_acquire_from(gs, i, end, with_grace, now).2),
        member_at(lineup_acquire_from(gs, i, end, with_grace, now).0, pos.0, pos.1).conn.current_connections >= 1,
    decreases end - i,
{
    assert(i < end && i < gs.len());
    let (g1, a1) = group_acquire(gs[i as int], false, now);
    lemma_group_acquire_frame(gs[i as int], false, now);
    if !(a1 is Exhausted) {
        let k = lemma_group_grant(gs[i as int], false, now);
        let hs = gs.update(i as int, g1);
        assert(member_at(hs, i as int, k) == group_members(g1)[k]);
        (i as int, k)
    } else if with_grace {
        assert(group_members(g1) == group_members(gs[i as int]));
        assert(group_counts_bounded(g1));
        let (g2, a2) = group_acquire(g1, true, now);
        lemma_group_acquire_frame(g1, true, now);
        if !(a2 is Exhausted) {
            let k = lemma_group_grant(g1, true, now);
            let hs = gs.update(i as int, g2);
            assert(member_at(hs, i as int, k) == group_members(g2)[k]);
            (i as int, k)
        } else {
            assert(group_members(g2) == group_members(gs[i as int]));
            let hs = gs.update(i as int, g2);
            assert forall|g: int| 0 <= g < hs.len() implies group_wf(#[trigger] hs[g]) by {
                if g != i {
                    assert(hs[g] == gs[g]);
                }
            }
            assert forall|g: int| 0 <= g < hs.len() implies group_counts_bounded(#[trigger] hs[g]) by {
                if g != i {
                    assert(hs[g] == gs[g]);
                } else {
                    assert(group_members(hs[g]) == group_members(gs[g]));
                }
            }
            lemma_acquire_from_grant(hs, i + 1, end, with_grace, now)
        }
    } else {
        let hs = gs.update(i as int, g1);
        assert forall|g: int| 0 <= g < hs.len() implies group_wf(#[trigger] hs[g]) by {
            if g != i {
                assert(hs[g] == gs[g]);
            }
        }
        assert forall|g: int| 0 <= g < hs.len() implies group_counts_bounded(#[trigger] hs[g]) by {
            if g != i {
                assert(hs[g] == gs[g]);
            } else {
                assert(group_members(hs[g]) == group_members(gs[g]));
            }
        }
        lemma_acquire_from_grant(hs, i + 1, end, with_grace, now)
    }
}

proof fn lemma_find_in_group_none(ps: Seq<ProviderView>, name: Seq<char>, k: nat)
    requires
        forall|j: int| k <= j < ps.len() ==> (#[trigger] ps[j]).identity.name != name,
    ensures
        find_in_group(ps, name, k) == -1,
    decreases ps.len() - k,
{
    if k < ps.len() {
        assert(ps[k as int].identity.name != name);
        lemma_find_in_group_none(ps, name, k + 1);
    }
}

proof fn lemma_find_in_group_at(ps: Seq<ProviderView>, name: Seq<char>, k: nat, at: int)
    requires
        k <= at < ps.len(),
        ps[at].identity.name == name,
        forall|j: int| k <= j < at ==> (#[trigger] ps[j]).identity.name != name,
    ensures
        find_in_group(ps, name, k) == at,
    decreases at - k,
{
    if k < at {
        assert(ps[k as int].identity.name != name);
        lemma_find_in_group_at(ps, name, k + 1, at);
    }
}

/// In groups whose names are unique, a provider's name is found at its
/// own place.
proof fn lemma_find_unique(gs: Seq<GroupView>, g: int, k: int, i: nat)
    requires
        names_unique(gs),
        is_position(gs, g, k),
        i <= g,
    ensures
        find_by_name_from(gs, member_at(gs, g, k).identity.name, i) == (g, k),
    decreases g - i,
{
    let name = member_at(gs, g, k).identity.name;
    let ps = group_members(gs[i as int]);
    if i < g {
        assert forall|j: int| 0 <= j < ps.len() implies (#[trigger] ps[j]).identity.name != name by {
            assert(member_at(gs, i as int, j) == ps[j]);
            assert(is_position(gs, i as int, j));
        }
        lemma_find_in_group_none(ps, name, 0);
        lemma_find_unique(gs, g, k, i + 1);
    } else {
        assert forall|j: int| 0 <= j < k implies (#[trigger] ps[j]).identity.name != name by {
            assert(member_at(gs, g, j) == ps[j]);
            assert(is_position(gs, g, j));
        }
        assert(ps[k] == member_at(gs, g, k));
        lemma_find_in_group_at(ps, name, 0, k);
    }
}

/// No two providers of the registry share a name.
pub open spec fn registry_names_unique(ls: Seq<LineupView>) -> bool {
    &&& forall|i: int| 0 <= i < ls.len() ==> names_unique(lineup_groups(#[trigger] ls[i]))
    &&& forall|i1: int, g1: int, k1: int, i2: int, g2: int, k2: int|
        #![trigger member_at(lineup_groups(ls[i1]), g1, k1), member_at(lineup_groups(ls[i2]), g2, k2)]
        0 <= i1 < ls.len() && 0 <= i2 < ls.len() && i1 != i2
            && is_position(lineup_groups(ls[i1]), g1, k1) && is_position(lineup_groups(ls[i2]), g2, k2)
            ==> member_at(lineup_groups(ls[i1]), g1, k1).identity.name
                != member_at(lineup_groups(ls[i2]), g2, k2).identity.name
}

proof fn lemma_find_from_names(gs: Seq<GroupView>, name: Seq<char>, i: nat)
    ensures
        find_by_name_from(gs, name, i).0 >= 0 ==> {
            &&& is_position(gs, find_by_name_from(gs, name, i).0, find_by_name_from(gs, name, i).1)
            &&& member_at(gs, find_by_name_from(gs, name, i).0, find_by_name_from(gs, name, i).1).identity.name == name
        },
    decreases gs.len() - i,
{
    if i < gs.len() {
        let ps = group_members(gs[i as int]);
        lemma_find_in_group_names(ps, name, 0);
        lemma_find_in_group_bounds(ps, name, 0);
        lemma_find_from_names(gs, name, i + 1);
    }
}

/// In a registry whose names are unique, a provider's name leads to its
/// lineup and to its place there.
proof fn lemma_manager_find_unique(ls: Seq<LineupView>, i: int, g: int, k: int, j: nat)
    requires
        registry_names_unique(ls),
        0 <= i < ls.len(),
        is_position(lineup_groups(ls[i]), g, k),
        j <= i,
    ensures
        manager_find_from(ls, member_at(lineup_groups(ls[i]), g, k).identity.name, j) == i,
        lineup_find(ls[i], member_at(lineup_groups(ls[i]), g, k).identity.name) == (g, k),
    decreases i - j,
{
    let name = member_at(lineup_groups(ls[i]), g, k).identity.name;
    assert(names_unique(lineup_groups(ls[i])));
    lemma_find_unique(lineup_groups(ls[i]), g, k, 0);
    if j < i {
        let gj = lineup_groups(ls[j as int]);
        lemma_find_from_names(gj, name, 0);
        let (g2, k2) = find_by_name_from(gj, name, 0);
        if g2 >= 0 {
            assert(member_at(lineup_groups(ls[j as int]), g2, k2).identity.name
                != member_at(lineup_groups(ls[i]), g, k).identity.name);
        }
        lemma_manager_find_unique(ls, i, g, k, j + 1);
    }
}

/// Unique names stay unique when the providers stay in their places.
proof fn lemma_unique_transfer(ls: Seq<LineupView>, ms: Seq<LineupView>)
    requires
        registry_names_unique(ls),
        ls.len() == ms.len(),
        forall|j: int| 0 <= j < ls.len() ==> same_lineup_providers(lineup_groups(#[trigger] ls[j]), lineup_groups(ms[j])),
    ensures
        registry_names_unique(ms),
{
    assert forall|j: int, g: int, k: int| 0 <= j < ms.len() && is_position(lineup_groups(ms[j]), g, k) implies
        is_position(lineup_groups(ls[j]), g, k) && #[trigger] member_at(lineup_groups(ms[j]), g, k).identity
            == member_at(lineup_groups(ls[j]), g, k).identity by {
        assert(same_lineup_providers(lineup_groups(ls[j]), lineup_groups(ms[j])));
        assert(same_providers(lineup_groups(ls[j])[g], lineup_groups(ms[j])[g]));
        assert(group_members(lineup_groups(ls[j])[g])[k].identity == group_members(lineup_groups(ms[j])[g])[k].identity);
    }
    assert forall|i: int| 0 <= i < ms.len() implies names_unique(lineup_groups(#[trigger] ms[i])) by {
        assert(names_unique(lineup_groups(ls[i])));
        let gs = lineup_groups(ms[i]);
        assert forall|g1: int, k1: int, g2: int, k2: int|
            is_position(gs, g1, k1) && is_position(gs, g2, k2) && (g1 != g2 || k1 != k2) implies
            #[trigger] member_at(gs, g1, k1).identity.name != #[trigger] member_at(gs, g2, k2).identity.name by {
            assert(member_at(lineup_groups(ms[i]), g1, k1).identity == member_at(lineup_groups(ls[i]), g1, k1).identity);
            assert(member_at(lineup_groups(ms[i]), g2, k2).identity == member_at(lineup_groups(ls[i]), g2, k2).identity);
        }
    }
    assert forall|i1: int, g1: int, k1: int, i2: int, g2: int, k2: int|
        0 <= i1 < ms.len() && 0 <= i2 < ms.len() && i1 != i2
            && is_position(lineup_groups(ms[i1]), g1, k1) && is_position(lineup_groups(ms[i2]), g2, k2) implies
        #[trigger] member_at(lineup_groups(ms[i1]), g1, k1).identity.name
            != #[trigger] member_at(lineup_groups(ms[i2]), g2, k2).identity.name by {
        assert(member_at(lineup_groups(ms[i1]), g1, k1).identity == member_at(lineup_groups(ls[i1]), g1, k1).identity);
        assert(member_at(lineup_groups(ms[i2]), g2, k2).identity == member_at(lineup_groups(ls[i2]), g2, k2).identity);
    }
}

/// Closing, by its name, the connection a granted request opened gives the
/// registry back its count of open connections, when no two providers of
/// the registry share a name.
pub proof fn lemma_release_undoes_acquire(old: ManagerView, mid: ManagerView, name: Seq<char>, r: AllocationView, now: u64)
    requires
        manager_wf(old),
        manager_counts_bounded(old),
        registry_names_unique(old.lineups),
        acquire_outcome(old, mid, name, r, now),
        !(r is Exhausted),
    ensures
        ({
            let n = granted_identity(r).name;
            let i = manager_find(mid.lineups, n);
            &&& i >= 0
            &&& manager_total(with_lineup(mid, i, lineup_view_release(mid.lineups[i], n)).lineups)
                == manager_total(old.lineups)
        }),
{
    lemma_acquire_counts_one(old, mid, name, r, now);
    let i = manager_find(old.lineups, name);
    lemma_manager_find_bounds(old.lineups, name, 0);
    let l = old.lineups[i];
    let with_grace = old.grace_period_millis > 0;
    let (l2, a) = lineup_view_acquire(l, with_grace, now);
    assert(lineup_view_wf(l));
    assert(lineup_view_counts_bounded(l));
    let pos: (int, int) = match l {
        LineupView::Single(p) => {
            assert(lineup_groups(l2) =~= seq![GroupView::Single(allocated(p, with_grace, now))]);
            lemma_allocation_counts(p.conn, p.max, with_grace, now);
            assert(member_at(lineup_groups(l2), 0, 0) == allocated(p, with_grace, now));
            assert(same_providers(lineup_groups(l)[0], lineup_groups(l2)[0]));
            (0int, 0int)
        },
        LineupView::Multi(m) => {
            let n = m.groups.len();
            let (gs1, g1, a1) = lineup_acquire_from(m.groups, m.index as nat, n, with_grace, now);
            lemma_acquire_from_same(m.groups, m.index as nat, n, with_grace, now);
            if a1 is Exhausted {
                lemma_acquire_from_skips(m.groups, m.index as nat, n, with_grace, now);
                assert forall|g: int| 0 <= g < gs1.len() implies group_counts_bounded(#[trigger] gs1[g]) by {
                    assert(group_members(gs1[g]) == group_members(m.groups[g]));
                    assert(group_counts_bounded(m.groups[g]));
                }
                let (gs, gi, ga) = lineup_acquire_from(gs1, 0, m.index as nat, with_grace, now);
                assert(lineup_groups(l2) == gs);
                lemma_acquire_from_same(gs1, 0, m.index as nat, with_grace, now);
                assert forall|g: int| 0 <= g < m.groups.len() implies same_providers(#[trigger] m.groups[g], gs[g]) by {
                    lemma_same_providers_trans(m.groups[g], gs1[g], gs[g]);
                }
                lemma_acquire_from_grant(gs1, 0, m.index as nat, with_grace, now)
            } else {
                assert(lineup_groups(l2) == gs1);
                lemma_acquire_from_grant(m.groups, m.index as nat, n, with_grace, now)
            }
        },
    };
    assert(same_lineup_providers(lineup_groups(l), lineup_groups(l2)));
    assert(mid.lineups == old.lineups.update(i, l2));
    assert forall|j: int| 0 <= j < old.lineups.len() implies
        same_lineup_providers(lineup_groups(#[trigger] old.lineups[j]), lineup_groups(mid.lineups[j])) by {
        if j != i {
            let gs = lineup_groups(old.lineups[j]);
            assert forall|g: int| 0 <= g < gs.len() implies same_providers(#[trigger] gs[g], gs[g]) by {
                lemma_same_providers_refl(gs[g]);
            }
        }
    }
    lemma_unique_transfer(old.lineups, mid.lineups);
    lemma_manager_find_unique(mid.lineups, i, pos.0, pos.1, 0);
    lemma_release_counts_one(mid, granted_identity(r).name);
}

/// The position of the first entry called `name` at or after `i`, or -1.
pub open spec fn entry_index_from(es: Seq<(Seq<char>, usize)>, name: Seq<char>, i: nat) -> int
    decreases es.len() - i,
{
    if i >= es.len() {
        -1
    } else if es[i as int].0 == name {
        i as int
    } else {
        entry_index_from(es, name, i + 1)
    }
}

/// A map insertion into a list of entries: an entry with the name takes the
/// new count; otherwise the entry is appended.
pub open spec fn insert_entry(es: Seq<(Seq<char>, usize)>, e: (Seq<char>, usize)) -> Seq<(Seq<char>, usize)> {
    let j = entry_index_from(es, e.0, 0);
    if j >= 0 { es.update(j, e) } else { es.push(e) }
}

/// The entries inserted one after the other into an empty map.
pub open spec fn entries_map(es: Seq<(Seq<char>, usize)>) -> Seq<(Seq<char>, usize)>
    decreases es.len(),
{
    if es.len() == 0 {
        Seq::<(Seq<char>, usize)>::empty()
    } else {
        insert_entry(entries_map(es.drop_last()), es.last())
    }
}

/// No name occurs twice among the entries.
pub open spec fn entry_names_unique(es: Seq<(Seq<char>, usize)>) -> bool {
    forall|a: int, b: int| 0 <= a < b < es.len() ==> (#[trigger] es[a]).0 != (#[trigger] es[b]).0
}

proof fn lemma_entry_index_bounds(es: Seq<(Seq<char>, usize)>, name: Seq<char>, i: nat)
    ensures
        entry_index_from(es, name, i) >= 0 ==> {
            &&& i <= entry_index_from(es, name, i) < es.len()
            &&& es[entry_index_from(es, name, i)].0 == name
        },
        entry_index_from(es, name, i) < 0 ==> forall|j: int| i <= j < es.len() ==> (#[trigger] es[j]).0 != name,
    decreases es.len() - i,
{
    if i < es.len() {
        lemma_entry_index_bounds(es, name, i + 1);
    }
}

/// The map of a list of entries holds every name once, and is empty only
/// when the list is.
pub proof fn lemma_entries_map_len(es: Seq<(Seq<char>, usize)>)
    ensures
        entry_names_unique(entries_map(es)),
        entries_map(es).len() == 0 <==> es.len() == 0,
    decreases es.len(),
{
    if es.len() > 0 {
        lemma_entries_map_len(es.drop_last());
        let m = entries_map(es.drop_last());
        let e = es.last();
        lemma_entry_index_bounds(m, e.0, 0);
        let r = insert_entry(m, e);
        assert forall|a: int, b: int| 0 <= a < b < r.len() implies (#[trigger] r[a]).0 != (#[trigger] r[b]).0 by {
            if entry_index_from(m, e.0, 0) < 0 {
                if b == m.len() {
                    assert(r[a] == m[a]);
                } else {
                    assert(r[a] == m[a] && r[b] == m[b]);
                }
            } else {
                let j = entry_index_from(m, e.0, 0);
                assert(r[a].0 == m[a].0);
                assert(r[b].0 == m[b].0);
            }
        }
    }
}

fn find_entry(es: &Vec<(String, usize)>, name: &str) -> (r: Option<usize>)
    ensures
        match r {
            Some(j) => entry_index_from(entries_view(es@), name@, 0) == j as int,
            None => entry_index_from(entries_view(es@), name@, 0) < 0,
        },
{
    let n = es.len();
    let ghost ev = entries_view(es@);
    let mut i: usize = 0;
    while i < n
        invariant
            n == es@.len(),
            ev == entries_view(es@),
            i <= n,
            entry_index_from(ev, name@, 0) == entry_index_from(ev, name@, i as nat),
        decreases n - i,
    {
        assert(ev[i as int] == (es@[i as int].0@, es@[i as int].1));
        if str_eq(es[i].0.as_str(), name) {
            return Some(i);
        }
        i = i + 1;
    }
    None
}

/// Inserts the entries of a list one after the other into a map kept as a
/// list (see `entries_map`).
fn entries_as_map(list: &Vec<(String, usize)>) -> (r: Vec<(String, usize)>)
    ensures
        entries_view(r@) == entries_map(entries_view(list@)),
{
    let ghost lv = entries_view(list@);
    let mut out: Vec<(String, usize)> = Vec::new();
    let n = list.len();
    proof {
        assert(lv.take(0) =~= Seq::<(Seq<char>, usize)>::empty());
        assert(entries_view(out@) =~= Seq::<(Seq<char>, usize)>::empty());
    }
    for i in 0..n
        invariant
            n == list@.len(),
            lv == entries_view(list@),
            entries_view(out@) == entries_map(lv.take(i as int)),
    {
        let name = list[i].0.clone();
        let count = list[i].1;
        proof {
            assert(lv.take(i + 1).drop_last() =~= lv.take(i as int));
            assert(lv.take(i + 1).last() == lv[i as int]);
            assert(lv[i as int] == (name@, count));
        }
        let ghost before = entries_view(out@);
        match find_entry(&out, name.as_str()) {
            Some(j) => {
                proof {
                    lemma_entry_index_bounds(before, lv[i as int].0, 0);
                }
                out.set(j, (name, count));
                proof {
                    assert(entries_view(out@) =~= before.update(j as int, lv[i as int]));
                }
            },
            None => {
                out.push((name, count));
                proof {
                    assert(entries_view(out@) =~= before.push(lv[i as int]));
                }
            },
        }
    }
    proof {
        assert(lv.take(n as int) =~= lv);
    }
    out
}

} // verus!
