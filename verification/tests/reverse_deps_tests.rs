use pacjump::info::{DepInfo, PacList, PackageInfo};
use pacjump::reverse_deps::{get_reverse_deps_map, DepKind, ReverseDeps, ReverseDepsDatabase};

fn dep(name: &str) -> DepInfo {
    DepInfo {
        dep_string: name.to_string(),
        name: name.to_string(),
        depmod: "Any".to_string(),
        version: None,
        description: None,
        name_hash: 0,
        satisfier: None,
    }
}

fn pkg(name: &str, deps: &[&str], optdeps: &[&str], makedeps: &[&str], checkdeps: &[&str]) -> PackageInfo {
    PackageInfo::new(
        None,
        name.to_string(),
        "1.0".to_string(),
        None,
        None,
        None,
        PacList(Vec::new()),
        PacList(Vec::new()),
        PacList(Vec::new()),
        PacList(deps.iter().map(|d| dep(d)).collect()),
        PacList(optdeps.iter().map(|d| dep(d)).collect()),
        PacList(makedeps.iter().map(|d| dep(d)).collect()),
        PacList(checkdeps.iter().map(|d| dep(d)).collect()),
        PacList(Vec::new()),
        PacList(Vec::new()),
        0,
        0,
        None,
        0,
        None,
        "Explicit".to_string(),
        false,
        None,
        None,
        None,
        "None".to_string(),
    )
}

#[test]
fn members_are_exactly_the_declaring_packages() {
    // every package with a runtime dependency on a name is a member at that
    // name, and only those: the two directions of the index contract
    let universe = vec![
        pkg("a", &["b", "c"], &[], &[], &[]),
        pkg("b", &["c"], &[], &[], &[]),
        pkg("c", &[], &[], &[], &[]),
    ];
    let m = get_reverse_deps_map(&universe, DepKind::Runtime);
    let at_c = m.get_or_empty(&"c".to_string());
    assert_eq!(at_c.0, vec!["a".to_string(), "b".to_string()]);
    let at_b = m.get_or_empty(&"b".to_string());
    assert_eq!(at_b.0, vec!["a".to_string()]);
    // a name nothing depends on has no entry: the lookup defaults to empty
    let at_a = m.get_or_empty(&"a".to_string());
    assert!(at_a.0.is_empty());
}

#[test]
fn a_package_listed_twice_is_recorded_once() {
    let universe = vec![pkg("a", &["b", "b"], &[], &[], &[]), pkg("b", &[], &[], &[], &[])];
    let m = get_reverse_deps_map(&universe, DepKind::Runtime);
    let at_b = m.get_or_empty(&"b".to_string());
    assert_eq!(at_b.0, vec!["a".to_string()]);
}

#[test]
fn the_four_kinds_are_indexed_independently() {
    let universe = vec![
        pkg("a", &["r"], &["o"], &["m"], &["c"]),
        pkg("r", &[], &[], &[], &[]),
        pkg("o", &[], &[], &[], &[]),
        pkg("m", &[], &[], &[], &[]),
        pkg("c", &[], &[], &[], &[]),
    ];
    let db = ReverseDepsDatabase::new(&universe);
    assert_eq!(db.required_by.get_or_empty(&"r".to_string()).0, vec!["a".to_string()]);
    assert!(db.required_by.get_or_empty(&"o".to_string()).0.is_empty());
    assert_eq!(db.optional_for.get_or_empty(&"o".to_string()).0, vec!["a".to_string()]);
    assert_eq!(db.required_by_make.get_or_empty(&"m".to_string()).0, vec!["a".to_string()]);
    assert_eq!(db.required_by_check.get_or_empty(&"c".to_string()).0, vec!["a".to_string()]);
}

#[test]
fn insert_keeps_order_and_drops_repeats() {
    let mut set = ReverseDeps::new();
    set.insert("x".to_string());
    set.insert("y".to_string());
    set.insert("x".to_string());
    assert_eq!(set.0, vec!["x".to_string(), "y".to_string()]);
    assert!(set.contains(&"y".to_string()));
    assert!(!set.contains(&"z".to_string()));
}

#[test]
fn add_reverse_deps_attaches_the_four_sets() {
    let universe = vec![
        pkg("a", &["b"], &["b"], &[], &[]),
        pkg("b", &[], &[], &[], &[]),
        pkg("c", &["b"], &[], &[], &[]),
    ];
    let db = ReverseDepsDatabase::new(&universe);
    let b = universe[1].clone();
    let enriched = b.add_reverse_deps(&db);
    assert_eq!(enriched.required_by.0, vec!["a".to_string(), "c".to_string()]);
    assert_eq!(enriched.optional_for.0, vec!["a".to_string()]);
    assert!(enriched.required_by_make.0.is_empty());
    assert!(enriched.required_by_check.0.is_empty());
    // the rest of the record is untouched
    assert_eq!(enriched.name, "b");
    assert_eq!(enriched.version, "1.0");
}
