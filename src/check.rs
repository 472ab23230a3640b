use crate::lockfile::{locks_view, LockedView, Lockfile};
use crate::manifest::{DepView, Manifest};
use vstd::prelude::*;

verus! {

/// Why a lock plan does not match its manifest, as plain values.
pub enum Fault {
    Missing(Seq<char>),
    Mismatch(Seq<char>, Seq<char>, Seq<char>),
}

/// Why a lock plan does not match its manifest.
#[derive(Debug, Clone, PartialEq, Eq)]
pub enum ConsistencyError {
    /// A dependency of the manifest has no entry in the lock plan.
    MissingFromLock(String),
    /// The locked version differs: (name, manifest version, lock version).
    VersionMismatch(String, String, String),
}

impl View for ConsistencyError {
    type V = Fault;

    open spec fn view(&self) -> Fault {
        match self {
            ConsistencyError::MissingFromLock(n) => Fault::Missing(n@),
            ConsistencyError::VersionMismatch(n, m, l) => Fault::Mismatch(n@, m@, l@),
        }
    }
}

/// The version of the first entry of `e` named `name`, if any.
pub open spec fn lock_version(e: Seq<LockedView>, name: Seq<char>) -> Option<Seq<char>>
    decreases e.len(),
{
    if e.len() == 0 {
        None
    } else if e[0].0 == name {
        Some(e[0].1)
    } else {
        lock_version(e.drop_first(), name)
    }
}

/// What is wrong, if anything, with how `e` locks the requirement `dep`.
pub open spec fn dep_fault(e: Seq<LockedView>, dep: DepView) -> Option<Fault> {
    match lock_version(e, dep.0) {
        None => Some(Fault::Missing(dep.0)),
        Some(v) => if v == dep.1 {
            None
        } else {
            Some(Fault::Mismatch(dep.0, dep.1, v))
        },
    }
}

/// The fault of the first requirement of `d`, in manifest order, that `e`
/// does not lock; `None` when `e` locks them all.
pub open spec fn first_fault(d: Seq<DepView>, e: Seq<LockedView>) -> Option<Fault>
    decreases d.len(),
{
    if d.len() == 0 {
        None
    } else {
        match dep_fault(e, d[0]) {
            Some(f) => Some(f),
            None => first_fault(d.drop_first(), e),
        }
    }
}

pub proof fn lemma_lock_version_found(e: Seq<LockedView>, name: Seq<char>, version: Seq<char>)
    requires
        exists|j: int| 0 <= j < e.len() && #[trigger] e[j].0 == name && e[j].1 == version,
        forall|j: int| 0 <= j < e.len() && #[trigger] e[j].0 == name ==> e[j].1 == version,
    ensures
        lock_version(e, name) == Some(version),
    decreases e.len(),
{
    if e[0].0 != name {
        let j = choose|j: int| 0 <= j < e.len() && #[trigger] e[j].0 == name && e[j].1 == version;
        assert(e.drop_first()[j - 1] == e[j]);
        assert forall|k: int| 0 <= k < e.drop_first().len() && #[trigger] e.drop_first()[k].0
            == name implies e.drop_first()[k].1 == version by {
            assert(e.drop_first()[k] == e[k + 1]);
        }
        lemma_lock_version_found(e.drop_first(), name, version);
    }
}

pub proof fn lemma_no_fault(d: Seq<DepView>, e: Seq<LockedView>)
    requires
        forall|i: int| 0 <= i < d.len() ==> lock_version(e, (#[trigger] d[i]).0) == Some(d[i].1),
    ensures
        first_fault(d, e) == None::<Fault>,
    decreases d.len(),
{
    if d.len() > 0 {
        assert(lock_version(e, d[0].0) == Some(d[0].1));
        assert forall|i: int| 0 <= i < d.drop_first().len() implies lock_version(
            e,
            (#[trigger] d.drop_first()[i]).0,
        ) == Some(d.drop_first()[i].1) by {
            assert(d.drop_first()[i] == d[i + 1]);
        }
        lemma_no_fault(d.drop_first(), e);
    }
}

/// Checks that every dependency of `manifest` is locked by `lock` with the
/// same version.  Requirements are examined in ascending name order and the
/// first that fails is reported; lock entries that the manifest does not
/// name are allowed.
pub fn check_consistency(manifest: &Manifest, lock: &Lockfile) -> (r: Result<(), ConsistencyError>)
    ensures
        match r {
            Ok(()) => first_fault(manifest.deps(), locks_view(lock.dependencies@)) == None::<Fault>,
            Err(err) => first_fault(manifest.deps(), locks_view(lock.dependencies@)) == Some(err@),
        },
{
    let deps = manifest.dependencies();
    let ghost d = manifest.deps();
    let ghost e = locks_view(lock.dependencies@);
    let n = deps.len();
    let m = lock.dependencies.len();
    let mut i: usize = 0;
    assert(d.skip(0) =~= d);
    while i < n
        invariant
            n == d.len(),
            m == e.len(),
            e == locks_view(lock.dependencies@),
            d == manifest.deps(),
            crate::manifest::pairs_view(deps@) == d,
            i <= n,
            first_fault(d, e) == first_fault(d.skip(i as int), e),
        decreases n - i,
    {
        let name = &deps[i].0;
        let version = &deps[i].1;
        let mut j: usize = 0;
        assert(e.skip(0) =~= e);
        while j < m && lock.dependencies[j].name != *name
            invariant
                m == e.len(),
                e == locks_view(lock.dependencies@),
                j <= m,
                lock_version(e, name@) == lock_version(e.skip(j as int), name@),
            decreases m - j,
        {
            assert(e.skip(j as int).drop_first() =~= e.skip(j + 1));
            j = j + 1;
        }
        assert(d.skip(i as int)[0] == d[i as int]);
        if j == m {
            return Err(ConsistencyError::MissingFromLock(name.clone()));
        }
        assert(e.skip(j as int)[0] == e[j as int]);
        if lock.dependencies[j].version != *version {
            return Err(
                ConsistencyError::VersionMismatch(
                    name.clone(),
                    version.clone(),
                    lock.dependencies[j].version.clone(),
                ),
            );
        }
        assert(d.skip(i as int).drop_first() =~= d.skip(i + 1));
        i = i + 1;
    }
    Ok(())
}

} // verus!
