//! Selections over configured sources: the groups a playlist shows, and the
//! inputs and targets a processing run covers.

use vstd::prelude::*;
use crate::text::str_eq;

verus! {

/// The first occurrences of the values of a sequence, in order.
pub open spec fn unique_firsts(s: Seq<Seq<char>>) -> Seq<Seq<char>>
    decreases s.len(),
{
    if s.len() == 0 {
        s
    } else {
        let p = unique_firsts(s.drop_last());
        if p.contains(s.last()) { p } else { p.push(s.last()) }
    }
}

/// The views of a list of strings.
pub open spec fn strings_view(v: Seq<String>) -> Seq<Seq<char>> {
    v.map_values(|s: String| s@)
}

/// Whether the list holds a string with the characters of `s`.
fn contains_string(v: &Vec<String>, s: &str) -> (r: bool)
    ensures
        r == strings_view(v@).contains(s@),
{
    let n = v.len();
    let mut i: usize = 0;
    while i < n
        invariant
            n == v@.len(),
            i <= n,
            forall|j: int| 0 <= j < i ==> #[trigger] strings_view(v@)[j] != s@,
        decreases n - i,
    {
        if str_eq(v[i].as_str(), s) {
            assert(strings_view(v@)[i as int] == s@);
            return true;
        }
        i = i + 1;
    }
    false
}

/// The groups of a playlist as the user sees them: each group once, in the
/// order of their first entry.
pub fn unique_groups(groups: &Vec<String>) -> (r: Vec<String>)
    ensures
        strings_view(r@) == unique_firsts(strings_view(groups@)),
{
    let ghost all = strings_view(groups@);
    let mut r: Vec<String> = Vec::new();
    let n = groups.len();
    let mut i: usize = 0;
    proof {
        assert(all.take(0) =~= Seq::<Seq<char>>::empty());
        assert(strings_view(r@) =~= Seq::<Seq<char>>::empty());
    }
    while i < n
        invariant
            n == groups@.len(),
            i <= n,
            all == strings_view(groups@),
            strings_view(r@) == unique_firsts(all.take(i as int)),
        decreases n - i,
    {
        let ghost before = r@;
        proof {
            assert(all.take(i + 1).drop_last() =~= all.take(i as int));
            assert(all.take(i + 1).last() == groups@[i as int]@);
        }
        if !contains_string(&r, groups[i].as_str()) {
            r.push(groups[i].clone());
            proof {
                assert(strings_view(r@) =~= strings_view(before).push(groups@[i as int]@));
            }
        }
        i = i + 1;
    }
    proof {
        assert(all.take(n as int) =~= all);
    }
    r
}

/// Every group occurs once in the unique groups.
pub proof fn lemma_unique_firsts_distinct(s: Seq<Seq<char>>)
    ensures
        forall|a: int, b: int| 0 <= a < b < unique_firsts(s).len() ==> unique_firsts(s)[a] != unique_firsts(s)[b],
    decreases s.len(),
{
    if s.len() > 0 {
        lemma_unique_firsts_distinct(s.drop_last());
        let p = unique_firsts(s.drop_last());
        if !p.contains(s.last()) {
            assert forall|a: int, b: int| 0 <= a < b < p.push(s.last()).len() implies
                p.push(s.last())[a] != p.push(s.last())[b] by {
                if b == p.len() {
                    assert(p.push(s.last())[a] == p[a]);
                }
            }
        }
    }
}

/// The inputs and targets a processing run covers.
pub struct ProcessTargets {
    pub enabled: bool,
    pub inputs: Vec<u16>,
    pub targets: Vec<u16>,
}

/// The entries of `v` that `keep` holds, in order.
pub open spec fn kept_in(v: Seq<u16>, keep: Seq<u16>) -> Seq<u16> {
    v.filter(|x: u16| keep.contains(x))
}

fn filter_ids(v: &Vec<u16>, keep: &Vec<u16>) -> (r: Vec<u16>)
    ensures
        r@ == kept_in(v@, keep@),
{
    let ghost pred = |x: u16| keep@.contains(x);
    let mut r: Vec<u16> = Vec::new();
    let n = v.len();
    let mut i: usize = 0;
    proof {
        assert(v@.take(0) =~= Seq::<u16>::empty());
        reveal(Seq::filter);
        assert(r@ =~= v@.take(0).filter(pred));
    }
    while i < n
        invariant
            n == v@.len(),
            i <= n,
            pred == (|x: u16| keep@.contains(x)),
            r@ == v@.take(i as int).filter(pred),
        decreases n - i,
    {
        let x = v[i];
        let mut found = false;
        let m = keep.len();
        let mut j: usize = 0;
        while j < m
            invariant
                m == keep@.len(),
                j <= m,
                found == (exists|k: int| 0 <= k < j && keep@[k] == x),
            decreases m - j,
        {
            if keep[j] == x {
                found = true;
            }
            j = j + 1;
        }
        proof {
            assert(v@.take(i + 1).drop_last() =~= v@.take(i as int));
            assert(v@.take(i + 1).last() == x);
            reveal(Seq::filter);
            if found {
                let k = choose|k: int| 0 <= k < m && keep@[k] == x;
                assert(keep@.contains(x));
            }
        }
        if found {
            r.push(x);
        }
        i = i + 1;
    }
    proof {
        assert(v@.take(n as int) =~= v@);
    }
    r
}

/// The run a user asked for, narrowed by the configured one: without a
/// valid, enabled request the configured run stands; with a disabled
/// configured run the request stands; otherwise the requested inputs and
/// targets are kept where the configured inputs hold their id.
pub fn narrow_process_targets(requested: Option<&ProcessTargets>, configured: &ProcessTargets) -> (r: ProcessTargets)
    ensures
        match requested {
            Some(u) if u.enabled => {
                if !configured.enabled {
                    r.enabled == u.enabled && r.inputs@ == u.inputs@ && r.targets@ == u.targets@
                } else {
                    &&& r.enabled
                    &&& r.inputs@ == kept_in(u.inputs@, configured.inputs@)
                    &&& r.targets@ == kept_in(u.targets@, configured.inputs@)
                }
            },
            _ => r.enabled == configured.enabled && r.inputs@ == configured.inputs@ && r.targets@ == configured.targets@,
        },
{
    match requested {
        Some(u) => {
            if u.enabled {
                if !configured.enabled {
                    return ProcessTargets { enabled: u.enabled, inputs: u.inputs.clone(), targets: u.targets.clone() };
                }
                let inputs = filter_ids(&u.inputs, &configured.inputs);
                let targets = filter_ids(&u.targets, &configured.inputs);
                return ProcessTargets { enabled: u.enabled, inputs, targets };
            }
        },
        None => {},
    }
    ProcessTargets { enabled: configured.enabled, inputs: configured.inputs.clone(), targets: configured.targets.clone() }
}

} // verus!
