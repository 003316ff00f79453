use pacjump::info::{DepInfo, PacList, PackageInfo};
use pacjump::make_key;
use pacjump::recurse_deps::{recurse_dependencies, SatEntry, SatisfierTable};

fn dep(name: &str) -> DepInfo {
    dep_spec(name, name)
}

fn dep_spec(dep_string: &str, name: &str) -> DepInfo {
    DepInfo {
        dep_string: dep_string.to_string(),
        name: name.to_string(),
        depmod: "Any".to_string(),
        version: None,
        description: None,
        name_hash: 0,
        satisfier: None,
    }
}

/// The database's find-satisfier answers for these scenarios: a
/// specification is satisfied by the first package carrying its bare name.
fn name_table(universe: &[PackageInfo]) -> SatisfierTable {
    let mut entries = Vec::new();
    for p in universe {
        for d in p.depends_on.0.iter().chain(p.optional_deps.0.iter()) {
            let satisfier = universe.iter().position(|u| u.name == d.name);
            entries.push(SatEntry { dep_string: d.dep_string.clone(), satisfier });
        }
    }
    SatisfierTable { entries }
}

fn pkg(name: &str, version: &str, deps: &[&str], optdeps: &[&str]) -> PackageInfo {
    PackageInfo::new(
        Some("core".to_string()),
        name.to_string(),
        version.to_string(),
        None,
        Some("x86_64".to_string()),
        None,
        PacList(vec!["GPL".to_string()]),
        PacList(Vec::new()),
        PacList(Vec::new()),
        PacList(deps.iter().map(|d| dep(d)).collect()),
        PacList(optdeps.iter().map(|d| dep(d)).collect()),
        PacList(Vec::new()),
        PacList(Vec::new()),
        PacList(Vec::new()),
        PacList(Vec::new()),
        100,
        200,
        Some("builder".to_string()),
        5,
        None,
        "Explicit".to_string(),
        false,
        None,
        None,
        None,
        "None".to_string(),
    )
}

fn names(packages: &[PackageInfo]) -> Vec<String> {
    packages.iter().map(|p| p.name.clone()).collect()
}

#[test]
fn make_key_joins_name_and_version() {
    assert_eq!(make_key("alpha", "1.0"), "alpha=1.0");
    assert_eq!(make_key("", ""), "=");
}

#[test]
fn chain_visits_in_discovery_order_and_emits_post_order() {
    // universe = {A(deps:[B]), B(deps:[])}: visited is {A, B} in that
    // discovery order and the accumulator holds [B, A], the reverse of it.
    let universe = vec![pkg("a", "1", &["b"], &[]), pkg("b", "1", &[], &[])];
    let root = universe[0].clone();
    let r = recurse_dependencies(&universe, &root, &name_table(&universe), false, false);
    assert_eq!(r.visited, vec!["a=1".to_string(), "b=1".to_string()]);
    assert_eq!(names(&r.packages), vec!["b".to_string(), "a".to_string()]);
    // the satisfier key is recorded on the root's rewritten dependency list
    let a_out = &r.packages[1];
    assert_eq!(a_out.depends_on.0.len(), 1);
    assert_eq!(a_out.depends_on.0[0].satisfier, Some("b=1".to_string()));
}

#[test]
fn cycle_terminates_and_visits_each_package_once() {
    // A depends on B and B depends on A: resolution terminates and each of
    // {A, B} is visited exactly once.
    let universe = vec![pkg("a", "1", &["b"], &[]), pkg("b", "1", &["a"], &[])];
    let root = universe[0].clone();
    let r = recurse_dependencies(&universe, &root, &name_table(&universe), false, false);
    assert_eq!(r.visited, vec!["a=1".to_string(), "b=1".to_string()]);
    assert_eq!(r.packages.len(), 2);
    let b_out = &r.packages[0];
    assert_eq!(b_out.name, "b");
    assert_eq!(b_out.depends_on.0[0].satisfier, Some("a=1".to_string()));
}

#[test]
fn diamond_emits_shared_dependency_once_with_one_key() {
    // A -> B, A -> C, B -> D, C -> D: D appears exactly once in the output
    // and the dependency entries of B and C carry the same satisfier key.
    let universe = vec![
        pkg("a", "1", &["b", "c"], &[]),
        pkg("b", "1", &["d"], &[]),
        pkg("c", "1", &["d"], &[]),
        pkg("d", "1", &[], &[]),
    ];
    let root = universe[0].clone();
    let r = recurse_dependencies(&universe, &root, &name_table(&universe), false, false);
    assert_eq!(
        r.visited,
        vec![
            "a=1".to_string(),
            "b=1".to_string(),
            "d=1".to_string(),
            "c=1".to_string(),
        ]
    );
    let d_count = r.packages.iter().filter(|p| p.name == "d").count();
    assert_eq!(d_count, 1);
    let b_out = r.packages.iter().find(|p| p.name == "b").unwrap();
    let c_out = r.packages.iter().find(|p| p.name == "c").unwrap();
    assert_eq!(b_out.depends_on.0[0].satisfier, Some("d=1".to_string()));
    assert_eq!(c_out.depends_on.0[0].satisfier, c_out.depends_on.0[0].satisfier);
    assert_eq!(b_out.depends_on.0[0].satisfier, c_out.depends_on.0[0].satisfier);
}

#[test]
fn unsatisfiable_spec_stays_unset_and_siblings_resolve() {
    // the dependency on a name absent from the universe keeps its satisfier
    // slot unset; the sibling specification is resolved regardless
    let universe = vec![pkg("a", "1", &["ghost", "b"], &[]), pkg("b", "2", &[], &[])];
    let root = universe[0].clone();
    let r = recurse_dependencies(&universe, &root, &name_table(&universe), false, false);
    let a_out = r.packages.iter().find(|p| p.name == "a").unwrap();
    assert_eq!(a_out.depends_on.0[0].satisfier, None);
    assert_eq!(a_out.depends_on.0[1].satisfier, Some("b=2".to_string()));
    assert_eq!(r.visited, vec!["a=1".to_string(), "b=2".to_string()]);
}

#[test]
fn summary_mode_keeps_visited_and_empties_packages() {
    let universe = vec![
        pkg("a", "1", &["b", "c"], &[]),
        pkg("b", "1", &["d"], &[]),
        pkg("c", "1", &["d"], &[]),
        pkg("d", "1", &[], &[]),
    ];
    let root = universe[0].clone();
    let table = name_table(&universe);
    let full = recurse_dependencies(&universe, &root, &table, false, false);
    let brief = recurse_dependencies(&universe, &root, &table, false, true);
    assert_eq!(brief.visited, full.visited);
    assert!(brief.packages.is_empty());
    assert_eq!(full.packages.len(), full.visited.len());
}

#[test]
fn optional_dependencies_resolve_only_when_asked() {
    let universe = vec![pkg("a", "1", &[], &["b"]), pkg("b", "1", &[], &[])];
    let root = universe[0].clone();
    let table = name_table(&universe);
    let without = recurse_dependencies(&universe, &root, &table, false, false);
    assert_eq!(without.visited, vec!["a=1".to_string()]);
    let a_out = &without.packages[0];
    assert_eq!(a_out.optional_deps.0[0].satisfier, None);
    let with = recurse_dependencies(&universe, &root, &table, true, false);
    assert_eq!(with.visited, vec!["a=1".to_string(), "b=1".to_string()]);
    let a_with = with.packages.iter().find(|p| p.name == "a").unwrap();
    assert_eq!(a_with.optional_deps.0[0].satisfier, Some("b=1".to_string()));
}

#[test]
fn the_databases_answer_decides_constraint_satisfaction() {
    // "b>=2.0" is its own specification string: the database answers it
    // separately — here with no satisfier, since only b 1.0 exists — while
    // the sibling specification "c" resolves; the table carries exactly
    // those answers
    let mut universe = vec![
        pkg("a", "1", &["c"], &[]),
        pkg("b", "1.0", &[], &[]),
        pkg("c", "1", &[], &[]),
    ];
    universe[0].depends_on.0.insert(0, dep_spec("b>=2.0", "b"));
    let root = universe[0].clone();
    let table = SatisfierTable {
        entries: vec![
            SatEntry { dep_string: "b>=2.0".to_string(), satisfier: None },
            SatEntry { dep_string: "c".to_string(), satisfier: Some(2) },
        ],
    };
    let r = recurse_dependencies(&universe, &root, &table, false, false);
    let a_out = r.packages.iter().find(|p| p.name == "a").unwrap();
    assert_eq!(a_out.depends_on.0[0].satisfier, None);
    assert_eq!(a_out.depends_on.0[1].satisfier, Some("c=1".to_string()));
    assert_eq!(r.visited, vec!["a=1".to_string(), "c=1".to_string()]);
}

#[test]
fn a_provided_name_resolves_to_its_provider() {
    // the database satisfies the virtual dependency "sh" with the package
    // that provides it; the recorded key is the provider's own
    let mut universe = vec![pkg("a", "1", &[], &[]), pkg("bash", "5.2", &[], &[])];
    universe[0].depends_on.0.push(dep_spec("sh", "sh"));
    let root = universe[0].clone();
    let table = SatisfierTable {
        entries: vec![SatEntry { dep_string: "sh".to_string(), satisfier: Some(1) }],
    };
    let r = recurse_dependencies(&universe, &root, &table, false, false);
    let a_out = r.packages.iter().find(|p| p.name == "a").unwrap();
    assert_eq!(a_out.depends_on.0[0].satisfier, Some("bash=5.2".to_string()));
    assert_eq!(r.visited, vec!["a=1".to_string(), "bash=5.2".to_string()]);
    assert!(r.packages.iter().any(|p| p.name == "bash"));
}

#[test]
fn an_out_of_range_answer_counts_as_unsatisfied() {
    let universe = vec![pkg("a", "1", &["b"], &[])];
    let root = universe[0].clone();
    let table = SatisfierTable {
        entries: vec![SatEntry { dep_string: "b".to_string(), satisfier: Some(7) }],
    };
    let r = recurse_dependencies(&universe, &root, &table, false, false);
    let a_out = r.packages.iter().find(|p| p.name == "a").unwrap();
    assert_eq!(a_out.depends_on.0[0].satisfier, None);
}

#[test]
fn emitted_records_keep_every_other_field() {
    let universe = vec![pkg("a", "1", &["b"], &[]), pkg("b", "1", &[], &[])];
    let root = universe[0].clone();
    let r = recurse_dependencies(&universe, &root, &name_table(&universe), false, false);
    let a_out = r.packages.iter().find(|p| p.name == "a").unwrap();
    assert_eq!(a_out.repository, Some("core".to_string()));
    assert_eq!(a_out.licenses.0, vec!["GPL".to_string()]);
    assert_eq!(a_out.download_size, 100);
    assert_eq!(a_out.installed_size, 200);
    assert_eq!(a_out.packager, Some("builder".to_string()));
    assert_eq!(a_out.install_reason, "Explicit");
    assert_eq!(a_out.validated_by, "None");
}
