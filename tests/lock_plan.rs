use dustpkg::{
    check_consistency, checksum, default_dpl_version, initial_manifest, name_less, order, resolve,
    source_locator, ConsistencyError, LockedDep, Lockfile, Manifest, PackageInfo,
};

fn package(name: &str) -> PackageInfo {
    PackageInfo {
        name: name.to_string(),
        version: "0.1.0".to_string(),
        dpl_version: default_dpl_version(),
    }
}

fn manifest_with(deps: &[(&str, &str)]) -> Manifest {
    let mut m = Manifest::new(package("demo"));
    for (n, v) in deps {
        m.insert_dependency(n, v);
    }
    m
}

fn names(lock: &Lockfile) -> Vec<String> {
    lock.dependencies.iter().map(|d| d.name.clone()).collect()
}

fn locked(name: &str, version: &str) -> LockedDep {
    LockedDep {
        name: name.to_string(),
        version: version.to_string(),
        checksum: checksum(name, version),
        source: source_locator(name, version),
    }
}

#[test]
fn init_creates_manifest() {
    let m = initial_manifest("hello");
    assert_eq!(m.package().name, "hello");
    assert_eq!(m.package().version, "0.1.0");
    assert_eq!(m.package().dpl_version, "0.2");
    assert!(m.dependencies().is_empty());
}

#[test]
fn add_dependency_and_lock() {
    let mut m = initial_manifest("hello");
    m.insert_dependency("serde", "1.0.0");
    assert_eq!(m.dependencies(), &vec![("serde".to_string(), "1.0.0".to_string())]);
    let lock = resolve(&m, None);
    assert_eq!(lock.dependencies.len(), 1);
    assert_eq!(lock.dependencies[0].name, "serde");
    assert_eq!(
        lock.dependencies[0].checksum,
        "00ec0f10a47edffa3c27a256efabf6f6092ef25a141c32796e3184b80daada70"
    );
    assert_eq!(lock.dependencies[0].source, "registry/serde-1.0.0");
}

#[test]
fn build_after_add() {
    let mut m = initial_manifest("hello");
    m.insert_dependency("serde", "1.0.0");
    let lock = resolve(&m, None);
    assert_eq!(check_consistency(&m, &lock), Ok(()));
}

#[test]
fn update_with_seed_produces_different_order() {
    let m = manifest_with(&[("a", "0.1.0"), ("b", "0.2.0")]);
    let lock0 = resolve(&m, Some(0));
    let lock42 = resolve(&m, Some(42));
    assert_ne!(lock0, lock42, "different seeds should produce different lock ordering");
    let mut n0 = names(&lock0);
    let mut n42 = names(&lock42);
    assert_ne!(n0, n42);
    n0.sort();
    n42.sort();
    assert_eq!(n0, vec!["a".to_string(), "b".to_string()]);
    assert_eq!(n42, vec!["a".to_string(), "b".to_string()]);
}

#[test]
fn empty_manifest_gives_empty_plan() {
    let m = manifest_with(&[]);
    assert!(order(&m, None).is_empty());
    assert!(order(&m, Some(7)).is_empty());
    let lock = resolve(&m, None);
    assert!(lock.dependencies.is_empty());
    assert_eq!(lock.seed, None);
    assert_eq!(check_consistency(&m, &lock), Ok(()));
}

#[test]
fn unseeded_plan_is_alphabetical_with_checksums() {
    let m = manifest_with(&[("b", "0.2.0"), ("a", "0.1.0")]);
    let lock = resolve(&m, None);
    assert_eq!(names(&lock), vec!["a".to_string(), "b".to_string()]);
    assert_eq!(
        lock.dependencies[0].checksum,
        "c1bca63b3ac0a3b80f4c1bb4be288eb51dd225bf4261f49b3412efe6be5918eb"
    );
    assert_eq!(
        lock.dependencies[1].checksum,
        "863fccf00937e0e64ae6ba9bb9936036bd9d1ee0f924eebbfe655039c92e4d6e"
    );
    assert_eq!(lock.dependencies[1].version, "0.2.0");
    assert_eq!(lock.package, package("demo"));
}

#[test]
fn same_seed_gives_same_plan() {
    let m = manifest_with(&[("c", "3"), ("a", "1"), ("b", "2"), ("d", "4"), ("e", "5")]);
    for seed in [0u64, 1, 42, u64::MAX] {
        let first = resolve(&m, Some(seed));
        let second = resolve(&m, Some(seed));
        assert_eq!(first, second);
        assert_eq!(first.seed, Some(seed));
        assert_eq!(order(&m, Some(seed)), order(&m, Some(seed)));
    }
    assert_eq!(resolve(&m, None), resolve(&m, None));
}

#[test]
fn seeded_order_is_a_permutation() {
    let deps = [("c", "3"), ("a", "1"), ("b", "2"), ("d", "4"), ("e", "5")];
    let m = manifest_with(&deps);
    for seed in [0u64, 5, 42, 1000] {
        let mut got = order(&m, Some(seed));
        got.sort();
        let mut want: Vec<(String, String)> =
            deps.iter().map(|(n, v)| (n.to_string(), v.to_string())).collect();
        want.sort();
        assert_eq!(got, want);
        assert_eq!(check_consistency(&m, &resolve(&m, Some(seed))), Ok(()));
    }
}

#[test]
fn version_mismatch_is_reported() {
    let m = manifest_with(&[("serde", "1.0.0")]);
    let lock = Lockfile {
        package: package("demo"),
        dependencies: vec![locked("serde", "1.0.1")],
        seed: None,
    };
    assert_eq!(
        check_consistency(&m, &lock),
        Err(ConsistencyError::VersionMismatch(
            "serde".to_string(),
            "1.0.0".to_string(),
            "1.0.1".to_string()
        ))
    );
}

#[test]
fn missing_dependency_is_reported() {
    let m = manifest_with(&[("foo", "1.0")]);
    let lock = Lockfile { package: package("demo"), dependencies: vec![], seed: None };
    assert_eq!(
        check_consistency(&m, &lock),
        Err(ConsistencyError::MissingFromLock("foo".to_string()))
    );
}

#[test]
fn extra_lock_entries_are_allowed() {
    let m = manifest_with(&[("a", "1")]);
    let lock = Lockfile {
        package: package("demo"),
        dependencies: vec![locked("z", "9"), locked("a", "1")],
        seed: None,
    };
    assert_eq!(check_consistency(&m, &lock), Ok(()));
}

#[test]
fn first_failing_requirement_by_name_is_reported() {
    let m = manifest_with(&[("b", "2"), ("a", "1")]);
    let lock = Lockfile {
        package: package("demo"),
        dependencies: vec![locked("b", "3")],
        seed: None,
    };
    assert_eq!(
        check_consistency(&m, &lock),
        Err(ConsistencyError::MissingFromLock("a".to_string()))
    );
}

#[test]
fn first_lock_entry_of_a_name_decides() {
    let m = manifest_with(&[("a", "1")]);
    let lock = Lockfile {
        package: package("demo"),
        dependencies: vec![locked("a", "2"), locked("a", "1")],
        seed: None,
    };
    assert_eq!(
        check_consistency(&m, &lock),
        Err(ConsistencyError::VersionMismatch("a".to_string(), "1".to_string(), "2".to_string()))
    );
}

#[test]
fn insert_replaces_existing_requirement() {
    let mut m = manifest_with(&[("serde", "1.0.0"), ("anyhow", "1")]);
    m.insert_dependency("serde", "1.0.1");
    assert_eq!(
        m.dependencies(),
        &vec![
            ("anyhow".to_string(), "1".to_string()),
            ("serde".to_string(), "1.0.1".to_string())
        ]
    );
}

#[test]
fn stdlib_dependencies_follow_dpl_version() {
    let mut m = manifest_with(&[("zeta", "1")]);
    m.add_stdlib_dependencies();
    assert_eq!(
        m.dependencies(),
        &vec![
            ("dustlib".to_string(), "0.2.0".to_string()),
            ("dustlib_k".to_string(), "0.2.0".to_string()),
            ("zeta".to_string(), "1".to_string())
        ]
    );
    let mut old = Manifest::new(PackageInfo {
        name: "old".to_string(),
        version: "1.0.0".to_string(),
        dpl_version: "0.1".to_string(),
    });
    old.add_stdlib_dependencies();
    assert_eq!(old.dependencies(), &vec![("dustlib".to_string(), "0.2.0".to_string())]);
}

#[test]
fn checksum_is_stable_and_distinguishes_identities() {
    assert_eq!(checksum("a", "0.1.0"), checksum("a", "0.1.0"));
    assert_eq!(checksum("a", "0.1.0").len(), 64);
    assert_ne!(checksum("a", "0.1.0"), checksum("a", "0.1.1"));
    assert_ne!(checksum("a", "0.1.0"), checksum("A", "0.1.0"));
    assert_ne!(checksum("a", "0.1.0"), checksum("a", " 0.1.0"));
    assert_eq!(checksum("a@0.1", "0"), checksum("a", "0.1@0"));
    assert_eq!(
        checksum("", ""),
        "c3641f8544d7c02f3580b07c0f9887f0c6a27ff5ab1d4a3e29caf197cfc299ae"
    );
}

#[test]
fn names_compare_by_code_point() {
    assert!(name_less("a", "b"));
    assert!(name_less("a", "ab"));
    assert!(!name_less("ab", "a"));
    assert!(!name_less("a", "a"));
    assert!(name_less("B", "a"));
    assert!(name_less("", "a"));
    assert!(name_less("z", "\u{e9}"));
}
