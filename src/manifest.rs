use crate::text::{
    chars_lt, lemma_chars_lt_irreflexive, lemma_chars_lt_total, lemma_chars_lt_transitive,
    name_less,
};
use vstd::prelude::*;
use vstd::string::*;

verus! {

/// Name, version and specification version of the package being built.
#[derive(Debug, Clone, PartialEq, Eq)]
pub struct PackageInfo {
    pub name: String,
    pub version: String,
    pub dpl_version: String,
}

impl View for PackageInfo {
    type V = (Seq<char>, Seq<char>, Seq<char>);

    open spec fn view(&self) -> Self::V {
        (self.name@, self.version@, self.dpl_version@)
    }
}

impl PackageInfo {
    /// A copy with the same three fields.
    pub fn copied(&self) -> (r: PackageInfo)
        ensures
            r@ == self@,
    {
        PackageInfo {
            name: self.name.clone(),
            version: self.version.clone(),
            dpl_version: self.dpl_version.clone(),
        }
    }
}

/// The specification version a manifest gets when it names none.
pub open spec fn latest_dpl_version() -> Seq<char> {
    seq!['0', '.', '2']
}

/// The specification version used when a manifest names none: "0.2".
pub fn default_dpl_version() -> (r: String)
    ensures
        r@ == latest_dpl_version(),
{
    proof {
        reveal_strlit("0.2");
    }
    let r = String::from_str("0.2");
    assert(r@ =~= latest_dpl_version());
    r
}

/// A dependency as plain values: (name, version requirement).
pub type DepView = (Seq<char>, Seq<char>);

pub open spec fn pairs_view(v: Seq<(String, String)>) -> Seq<DepView> {
    v.map_values(|p: (String, String)| p@)
}

/// Names strictly ascending; in particular no name occurs twice.
pub open spec fn names_sorted(d: Seq<DepView>) -> bool {
    forall|i: int, j: int| 0 <= i < j < d.len() ==> chars_lt(#[trigger] d[i].0, #[trigger] d[j].0)
}

/// `after` is `before` with the requirement of `name` set to `version`:
/// that entry is added or replaced, every other entry kept.
pub open spec fn sets_requirement(
    after: Seq<DepView>,
    before: Seq<DepView>,
    name: Seq<char>,
    version: Seq<char>,
) -> bool {
    forall|e: DepView|
        #[trigger] after.contains(e) <==> (e == (name, version) || (before.contains(e) && e.0
            != name))
}

/// A package and its dependency requirements, kept in ascending name order.
#[derive(Debug, Clone)]
pub struct Manifest {
    package: PackageInfo,
    dependencies: Vec<(String, String)>,
}

impl Manifest {
    /// The package this manifest describes.
    pub closed spec fn info(&self) -> PackageInfo {
        self.package
    }

    /// The dependency requirements, in ascending name order.
    pub closed spec fn deps(&self) -> Seq<DepView> {
        pairs_view(self.dependencies@)
    }

    pub open spec fn wf(&self) -> bool {
        names_sorted(self.deps())
    }

    /// A manifest for `package` with no dependencies.
    pub fn new(package: PackageInfo) -> (r: Manifest)
        ensures
            r.wf(),
            r.info() == package,
            r.deps() == Seq::<DepView>::empty(),
    {
        let r = Manifest { package, dependencies: Vec::new() };
        assert(r.deps() =~= Seq::<DepView>::empty());
        r
    }

    /// The package this manifest describes.
    pub fn package(&self) -> (r: &PackageInfo)
        ensures
            *r == self.info(),
    {
        &self.package
    }

    /// The dependency requirements, in ascending name order.
    pub fn dependencies(&self) -> (r: &Vec<(String, String)>)
        ensures
            pairs_view(r@) == self.deps(),
    {
        &self.dependencies
    }

    /// Sets the requirement of dependency `name` to `version`, adding the
    /// dependency if the manifest does not have it yet.
    pub fn insert_dependency(&mut self, name: &str, version: &str)
        requires
            old(self).wf(),
        ensures
            final(self).wf(),
            final(self).info() == old(self).info(),
            sets_requirement(final(self).deps(), old(self).deps(), name@, version@),
    {
        let ghost d = self.deps();
        let n = self.dependencies.len();
        let mut i: usize = 0;
        while i < n && name_less(self.dependencies[i].0.as_str(), name)
            invariant
                n == self.dependencies@.len(),
                d == self.deps(),
                names_sorted(d),
                i <= n,
                forall|k: int| 0 <= k < i ==> chars_lt(#[trigger] d[k].0, name@),
            decreases n - i,
        {
            i = i + 1;
        }
        let entry = (String::from_str(name), String::from_str(version));
        if i < n && self.dependencies[i].0 == entry.0 {
            self.dependencies.set(i, entry);
            proof {
                let d2 = self.deps();
                assert(d2 =~= d.update(i as int, (name@, version@)));
                assert(d[i as int].0 == name@);
                assert forall|k: int| 0 <= k < d2.len() implies #[trigger] d2[k].0 == d[k].0 by {}
                assert(names_sorted(d2));
                assert forall|k: int| 0 <= k < d.len() && k != i implies d[k].0 != name@ by {
                    if k < i {
                        lemma_chars_lt_irreflexive(name@);
                    } else {
                        assert(chars_lt(d[i as int].0, d[k].0));
                        lemma_chars_lt_irreflexive(name@);
                    }
                }
                assert forall|e: DepView| #[trigger] d2.contains(e) <==> (e == (name@, version@) || (
                d.contains(e) && e.0 != name@)) by {
                    if d2.contains(e) {
                        let k = choose|k: int| 0 <= k < d2.len() && d2[k] == e;
                        if k != i {
                            assert(d.contains(e));
                        }
                    }
                    if d.contains(e) && e.0 != name@ {
                        let k = choose|k: int| 0 <= k < d.len() && d[k] == e;
                        assert(d2[k] == e);
                    }
                    if e == (name@, version@) {
                        assert(d2[i as int] == e);
                    }
                }
            }
        } else {
            proof {
                if i < n {
                    assert(!chars_lt(d[i as int].0, name@));
                    assert(d[i as int].0 != name@);
                    lemma_chars_lt_total(d[i as int].0, name@);
                }
            }
            self.dependencies.insert(i, entry);
            proof {
                let d2 = self.deps();
                assert(d2 =~= d.insert(i as int, (name@, version@)));
                assert forall|a: int, b: int| 0 <= a < b < d2.len() implies chars_lt(
                    #[trigger] d2[a].0,
                    #[trigger] d2[b].0,
                ) by {
                    if b == i {
                        assert(chars_lt(d[a].0, name@));
                    } else if a == i {
                        assert(d2[b] == d[b - 1]);
                        if b - 1 > i {
                            assert(chars_lt(d[i as int].0, d[b - 1].0));
                            lemma_chars_lt_transitive(name@, d[i as int].0, d[b - 1].0);
                        }
                    } else if a < i && b > i {
                        assert(chars_lt(d[a].0, name@));
                    } else if a > i {
                        assert(chars_lt(d[a - 1].0, d[b - 1].0));
                    }
                }
                assert forall|k: int| 0 <= k < d.len() implies d[k].0 != name@ by {
                    lemma_chars_lt_irreflexive(name@);
                    if k >= i {
                        if k > i {
                            assert(chars_lt(d[i as int].0, d[k].0));
                            lemma_chars_lt_transitive(name@, d[i as int].0, d[k].0);
                        }
                    }
                }
                assert forall|e: DepView| #[trigger] d2.contains(e) <==> (e == (name@, version@) || (
                d.contains(e) && e.0 != name@)) by {
                    if d2.contains(e) {
                        let k = choose|k: int| 0 <= k < d2.len() && d2[k] == e;
                        if k < i {
                            assert(d[k] == e);
                        } else if k > i {
                            assert(d[k - 1] == e);
                        }
                    }
                    if d.contains(e) && e.0 != name@ {
                        let k = choose|k: int| 0 <= k < d.len() && d[k] == e;
                        if k < i {
                            assert(d2[k] == e);
                        } else {
                            assert(d2[k + 1] == e);
                        }
                    }
                    if e == (name@, version@) {
                        assert(d2[i as int] == e);
                    }
                }
            }
        }
    }

    /// Adds the standard library: "dustlib" 0.2.0 always, and "dustlib_k"
    /// 0.2.0 when the package targets specification version "0.2".
    pub fn add_stdlib_dependencies(&mut self)
        requires
            old(self).wf(),
        ensures
            final(self).wf(),
            final(self).info() == old(self).info(),
            forall|e: DepView| #[trigger]
                final(self).deps().contains(e) <==> (e == (stdlib_name(), stdlib_version()) || (
                targets_latest(old(self).info()) && e == (stdlib_k_name(), stdlib_version())) || (
                old(self).deps().contains(e) && e.0 != stdlib_name() && !(targets_latest(
                    old(self).info(),
                ) && e.0 == stdlib_k_name()))),
    {
        proof {
            reveal_strlit("dustlib");
            reveal_strlit("dustlib_k");
            reveal_strlit("0.2.0");
        }
        let ghost d0 = self.deps();
        assert("dustlib"@ =~= stdlib_name());
        assert("dustlib_k"@ =~= stdlib_k_name());
        assert("0.2.0"@ =~= stdlib_version());
        self.insert_dependency("dustlib", "0.2.0");
        let ghost d1 = self.deps();
        if self.package.dpl_version == default_dpl_version() {
            self.insert_dependency("dustlib_k", "0.2.0");
            assert(stdlib_name() != stdlib_k_name()) by {
                assert(stdlib_name().len() != stdlib_k_name().len());
            }
            assert forall|e: DepView| #[trigger] self.deps().contains(e) implies d1.contains(e) || e
                == (stdlib_k_name(), stdlib_version()) by {}
            assert forall|e: DepView| #[trigger] d0.contains(e) && e.0 != stdlib_name() && e.0
                != stdlib_k_name() implies self.deps().contains(e) by {
                assert(d1.contains(e));
            }
            assert(d1.contains((stdlib_name(), stdlib_version())));
            assert(self.deps().contains((stdlib_name(), stdlib_version())));
        }
    }
}

pub open spec fn stdlib_name() -> Seq<char> {
    seq!['d', 'u', 's', 't', 'l', 'i', 'b']
}

pub open spec fn stdlib_k_name() -> Seq<char> {
    seq!['d', 'u', 's', 't', 'l', 'i', 'b', '_', 'k']
}

pub open spec fn stdlib_version() -> Seq<char> {
    seq!['0', '.', '2', '.', '0']
}

/// Whether a package targets specification version "0.2".
pub open spec fn targets_latest(p: PackageInfo) -> bool {
    p.dpl_version@ == latest_dpl_version()
}

/// The manifest that a new package named `name` starts with: version
/// "0.1.0", specification version "0.2", no dependencies.
pub fn initial_manifest(name: &str) -> (r: Manifest)
    ensures
        r.wf(),
        r.info()@ == (name@, seq!['0', '.', '1', '.', '0'], latest_dpl_version()),
        r.deps() == Seq::<DepView>::empty(),
{
    proof {
        reveal_strlit("0.1.0");
    }
    let version = String::from_str("0.1.0");
    assert(version@ =~= seq!['0', '.', '1', '.', '0']);
    let package = PackageInfo {
        name: String::from_str(name),
        version,
        dpl_version: default_dpl_version(),
    };
    Manifest::new(package)
}

} // verus!
