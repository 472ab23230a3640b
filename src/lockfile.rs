use crate::check::{first_fault, lemma_lock_version_found, lemma_no_fault, Fault};
use crate::digest::{checksum, checksum_of, source_locator, source_of};
use crate::manifest::{names_sorted, pairs_view, DepView, Manifest, PackageInfo};
use crate::text::lemma_chars_lt_irreflexive;
use vstd::prelude::*;
use vstd::seq_lib::to_multiset_contains;

verus! {

/// One locked dependency: name, version, checksum and source locator.
#[derive(Debug, Clone, PartialEq, Eq)]
pub struct LockedDep {
    pub name: String,
    pub version: String,
    pub checksum: String,
    pub source: String,
}

/// A locked dependency as plain values: (name, version, checksum, source).
pub type LockedView = (Seq<char>, Seq<char>, Seq<char>, Seq<char>);

impl View for LockedDep {
    type V = LockedView;

    open spec fn view(&self) -> LockedView {
        (self.name@, self.version@, self.checksum@, self.source@)
    }
}

pub open spec fn locks_view(v: Seq<LockedDep>) -> Seq<LockedView> {
    v.map_values(|l: LockedDep| l@)
}

/// A lock plan: the package, its locked dependencies in order, and the
/// seed that ordered them, if one did.
#[derive(Debug, Clone, PartialEq, Eq)]
pub struct Lockfile {
    pub package: PackageInfo,
    pub dependencies: Vec<LockedDep>,
    pub seed: Option<u64>,
}

/// The order that a seeded shuffle gives `items`.
pub uninterp spec fn seeded_shuffle(seed: u64, items: Seq<DepView>) -> Seq<DepView>;

/// Relies on rand_chacha's `ChaCha8Rng::seed_from_u64` and rand's
/// `SliceRandom::shuffle`: a Fisher-Yates shuffle driven by a portable
/// generator, so the outcome depends on the seed and the items alone, and
/// only moves items.
#[verifier::external_body]
fn shuffle_with_seed(items: &mut Vec<(String, String)>, seed: u64)
    ensures
        pairs_view(final(items)@) == seeded_shuffle(seed, pairs_view(old(items)@)),
        pairs_view(final(items)@).to_multiset() == pairs_view(old(items)@).to_multiset(),
{
    let mut rng = <rand_chacha::ChaCha8Rng as rand::SeedableRng>::seed_from_u64(seed);
    rand::seq::SliceRandom::shuffle(items.as_mut_slice(), &mut rng);
}

/// The order of a lock plan: ascending by name without a seed, the seeded
/// shuffle of that order with one.
pub open spec fn order_of(d: Seq<DepView>, seed: Option<u64>) -> Seq<DepView> {
    match seed {
        None => d,
        Some(s) => seeded_shuffle(s, d),
    }
}

/// The lock entry recorded for a requirement.
pub open spec fn locked_entry(p: DepView) -> LockedView {
    (p.0, p.1, checksum_of(p.0, p.1), source_of(p.0, p.1))
}

/// The entries of the lock plan for requirements `d` under `seed`.
pub open spec fn plan_entries(d: Seq<DepView>, seed: Option<u64>) -> Seq<LockedView> {
    order_of(d, seed).map_values(|p: DepView| locked_entry(p))
}

/// Ordering is a function of the requirements and the seed alone: the same
/// requirements under equal seeds, or both without one, give the same order
/// and the same lock entries.
pub proof fn lemma_order_deterministic(d: Seq<DepView>, s1: Option<u64>, s2: Option<u64>)
    requires
        s1 == s2,
    ensures
        order_of(d, s1) == order_of(d, s2),
        plan_entries(d, s1) == plan_entries(d, s2),
{
}

/// Orders the dependencies of `manifest`: by name without a seed, by a
/// shuffle of that order that depends on the seed alone with one.  The
/// result holds every requirement once and nothing else.
pub fn order(manifest: &Manifest, seed: Option<u64>) -> (r: Vec<(String, String)>)
    requires
        manifest.wf(),
    ensures
        pairs_view(r@) == order_of(manifest.deps(), seed),
        pairs_view(r@).to_multiset() == manifest.deps().to_multiset(),
        seed is None ==> names_sorted(pairs_view(r@)),
{
    let deps = manifest.dependencies();
    let mut r: Vec<(String, String)> = Vec::new();
    let n = deps.len();
    let mut i: usize = 0;
    while i < n
        invariant
            n == deps@.len(),
            pairs_view(deps@) == manifest.deps(),
            i <= n,
            r@.len() == i,
            pairs_view(r@) == pairs_view(deps@).take(i as int),
        decreases n - i,
    {
        let p = (deps[i].0.clone(), deps[i].1.clone());
        let ghost pv = p@;
        assert(pv == pairs_view(deps@)[i as int]);
        assert(r@.len() == i);
        r.push(p);
        assert(r@[i as int]@ == pv);
        assert(pairs_view(r@)[i as int] == pv);
        assert(pairs_view(r@) =~= pairs_view(deps@).take(i + 1));
        i = i + 1;
    }
    assert(pairs_view(deps@).take(n as int) =~= pairs_view(deps@));
    if let Some(s) = seed {
        shuffle_with_seed(&mut r, s);
    }
    r
}

/// A lock plan for `manifest`: its dependencies in the order that `order`
/// gives, each with its checksum and source locator, the manifest's package
/// and the seed.  Such a plan is always consistent with the manifest.
pub fn resolve(manifest: &Manifest, seed: Option<u64>) -> (r: Lockfile)
    requires
        manifest.wf(),
    ensures
        r.package@ == manifest.info()@,
        r.seed == seed,
        locks_view(r.dependencies@) == plan_entries(manifest.deps(), seed),
        first_fault(manifest.deps(), locks_view(r.dependencies@)) == None::<Fault>,
{
    let ordered = order(manifest, seed);
    let ghost o = pairs_view(ordered@);
    let mut locked: Vec<LockedDep> = Vec::new();
    let n = ordered.len();
    let mut i: usize = 0;
    while i < n
        invariant
            n == ordered@.len(),
            o == pairs_view(ordered@),
            i <= n,
            locked@.len() == i,
            o.len() == n,
            locks_view(locked@) == o.take(i as int).map_values(|p: DepView| locked_entry(p)),
        decreases n - i,
    {
        let name = &ordered[i].0;
        let version = &ordered[i].1;
        let entry = LockedDep {
            name: name.clone(),
            version: version.clone(),
            checksum: checksum(name.as_str(), version.as_str()),
            source: source_locator(name.as_str(), version.as_str()),
        };
        let ghost prev = locks_view(locked@);
        let ghost ev = entry@;
        assert(ev == locked_entry(o[i as int]));
        assert(locked@.len() == i);
        locked.push(entry);
        assert(locked@[i as int]@ == ev);
        assert(locks_view(locked@)[i as int] == ev);
        assert forall|k: int| 0 <= k < i implies #[trigger] locks_view(locked@)[k] == locked_entry(
            o[k],
        ) by {
            assert(locks_view(locked@)[k] == prev[k]);
            assert(prev[k] == o.take(i as int).map_values(|p: DepView| locked_entry(p))[k]);
        }
        assert(locks_view(locked@) =~= o.take(i + 1).map_values(|p: DepView| locked_entry(p)));
        i = i + 1;
    }
    assert(o.take(n as int) =~= o);
    proof {
        lemma_fresh_lock_consistent(manifest.deps(), o);
    }
    Lockfile { package: manifest.package().copied(), dependencies: locked, seed }
}

/// A lock plan built from any ordering of a manifest's requirements locks
/// each requirement with its own version, so the consistency check finds
/// nothing to report.
pub proof fn lemma_fresh_lock_consistent(d: Seq<DepView>, o: Seq<DepView>)
    requires
        names_sorted(d),
        o.to_multiset() == d.to_multiset(),
    ensures
        first_fault(d, o.map_values(|p: DepView| locked_entry(p))) == None::<Fault>,
{
    let e = o.map_values(|p: DepView| locked_entry(p));
    assert forall|i: int| 0 <= i < d.len() implies crate::check::lock_version(
        e,
        (#[trigger] d[i]).0,
    ) == Some(d[i].1) by {
        let x = d[i];
        to_multiset_contains(d, x);
        to_multiset_contains(o, x);
        assert(d.contains(x));
        let j = choose|j: int| 0 <= j < o.len() && o[j] == x;
        assert(e[j].0 == x.0 && e[j].1 == x.1);
        assert forall|k: int| 0 <= k < e.len() && #[trigger] e[k].0 == x.0 implies e[k].1
            == x.1 by {
            let y = o[k];
            to_multiset_contains(o, y);
            to_multiset_contains(d, y);
            let m = choose|m: int| 0 <= m < d.len() && d[m] == y;
            if m != i {
                lemma_chars_lt_irreflexive(x.0);
                if m < i {
                    assert(crate::text::chars_lt(d[m].0, d[i].0));
                } else {
                    assert(crate::text::chars_lt(d[i].0, d[m].0));
                }
            }
        }
        lemma_lock_version_found(e, x.0, x.1);
    }
    lemma_no_fault(d, e);
}

} // verus!
