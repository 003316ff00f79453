use pacjump::info::{DepInfo, PacList, PackageInfo};
use pacjump::reverse_deps::ReverseDepsDatabase;
use pacjump::{find_in_databases, PackageFilters, QueryError};

fn record(name: &str, version: &str, packager: &str, reason: &str) -> PackageInfo {
    PackageInfo::new(
        None,
        name.to_string(),
        version.to_string(),
        None,
        None,
        None,
        PacList(Vec::new()),
        PacList(Vec::new()),
        PacList(Vec::new()),
        PacList(Vec::<DepInfo>::new()),
        PacList(Vec::new()),
        PacList(Vec::new()),
        PacList(Vec::new()),
        PacList(Vec::new()),
        PacList(Vec::new()),
        0,
        0,
        Some(packager.to_string()),
        0,
        None,
        reason.to_string(),
        false,
        None,
        None,
        None,
        "None".to_string(),
    )
}

fn filters(sync: bool, all: bool, plain: bool) -> PackageFilters {
    PackageFilters { sync, all, plain, recurse: None, optional: false, summary: false }
}

#[test]
fn matching_records_make_the_sync_side_authoritative() {
    // same packager and version: the sync record is the base, the install
    // fields are overlaid from the local record, and the local record fills
    // the companion slot — no field is lost
    let mut local = record("pkg", "1.0", "x", "Explicit");
    local.install_date = Some(777);
    local.install_script = true;
    let mut sync = record("pkg", "1.0", "x", "Unknown");
    sync.md5_sum = Some("abc".to_string());
    sync.signatures = Some("sig".to_string());
    sync.validated_by = "SHA-256 Sum".to_string();
    let f = filters(false, true, false);
    let merged = f.enrich_pkg_info(local, Some(sync));
    assert_eq!(merged.md5_sum, Some("abc".to_string()));
    assert_eq!(merged.signatures, Some("sig".to_string()));
    assert_eq!(merged.validated_by, "SHA-256 Sum");
    assert_eq!(merged.install_date, Some(777));
    assert_eq!(merged.install_reason, "Explicit");
    assert!(merged.install_script);
    let companion = merged.sync_with.expect("companion expected");
    assert_eq!(companion.name, "pkg");
    assert_eq!(companion.install_date, Some(777));
    assert_eq!(companion.install_reason, "Explicit");
}

#[test]
fn mismatched_records_keep_the_local_side_authoritative() {
    // reconcile(local={version:"1.0",packager:"x"}, sync={version:"2.0",
    // packager:"y"}): the local record stays the base, nothing is overlaid,
    // and the sync record is attached as the companion
    let local = record("pkg", "1.0", "x", "Explicit");
    let mut sync = record("pkg", "2.0", "y", "Unknown");
    sync.md5_sum = Some("abc".to_string());
    let f = filters(false, true, false);
    let merged = f.enrich_pkg_info(local, Some(sync));
    assert_eq!(merged.version, "1.0");
    assert_eq!(merged.packager, Some("x".to_string()));
    assert_eq!(merged.md5_sum, None);
    assert_eq!(merged.install_reason, "Explicit");
    let companion = merged.sync_with.expect("companion expected");
    assert_eq!(companion.version, "2.0");
    assert_eq!(companion.packager, Some("y".to_string()));
    assert_eq!(companion.md5_sum, Some("abc".to_string()));
}

#[test]
fn a_version_difference_alone_blocks_the_overlay() {
    let local = record("pkg", "1.0", "x", "Explicit");
    let sync = record("pkg", "2.0", "x", "Unknown");
    let f = filters(false, true, false);
    let merged = f.enrich_pkg_info(local, Some(sync));
    assert_eq!(merged.version, "1.0");
    let companion = merged.sync_with.expect("companion expected");
    assert_eq!(companion.version, "2.0");
}

#[test]
fn a_sync_query_overlays_install_fields_when_origins_match() {
    let mut local = record("pkg", "2.0", "y", "Depend");
    local.install_date = Some(3);
    let sync = record("pkg", "2.0", "y", "Unknown");
    let f = filters(true, true, false);
    let merged = f.enrich_pkg_info(sync, Some(local));
    assert_eq!(merged.version, "2.0");
    assert_eq!(merged.install_date, Some(3));
    assert_eq!(merged.install_reason, "Depend");
    let companion = merged.sync_with.expect("companion expected");
    assert_eq!(companion.install_reason, "Depend");
}

#[test]
fn a_sync_query_against_a_differing_local_record_keeps_local_authoritative() {
    // the one reconciliation policy applies in this direction too: on a
    // packager or version mismatch the local record is the base, nothing is
    // overlaid, and the queried sync record fills the companion slot
    let mut local = record("pkg", "1.0", "x", "Depend");
    local.install_date = Some(3);
    let mut sync = record("pkg", "2.0", "y", "Unknown");
    sync.md5_sum = Some("abc".to_string());
    let f = filters(true, true, false);
    let merged = f.enrich_pkg_info(sync, Some(local));
    assert_eq!(merged.version, "1.0");
    assert_eq!(merged.packager, Some("x".to_string()));
    assert_eq!(merged.md5_sum, None);
    assert_eq!(merged.install_date, Some(3));
    assert_eq!(merged.install_reason, "Depend");
    let companion = merged.sync_with.expect("companion expected");
    assert_eq!(companion.version, "2.0");
    assert_eq!(companion.md5_sum, Some("abc".to_string()));
}

#[test]
fn without_a_complementary_record_nothing_changes() {
    let local = record("pkg", "1.0", "x", "Explicit");
    let f = filters(false, true, false);
    let merged = f.enrich_pkg_info(local, None);
    assert_eq!(merged.version, "1.0");
    assert!(merged.sync_with.is_none());
}

#[test]
fn explicit_filter_refuses_dependency_installed_packages() {
    let universe: Vec<PackageInfo> = Vec::new();
    let db = ReverseDepsDatabase::new(&universe);
    let f = filters(false, false, true);
    let dep_installed = record("pkg", "1.0", "x", "Depend");
    let r = f.generate_pkg_info(dep_installed, None, &db);
    assert_eq!(r.unwrap_err(), QueryError::NotExplicit);
    let explicit = record("pkg", "1.0", "x", "Explicit");
    let r = f.generate_pkg_info(explicit, None, &db);
    assert!(r.is_ok());
}

#[test]
fn the_all_filter_admits_every_install_reason() {
    let universe: Vec<PackageInfo> = Vec::new();
    let db = ReverseDepsDatabase::new(&universe);
    let f = filters(false, true, true);
    let dep_installed = record("pkg", "1.0", "x", "Depend");
    assert!(f.generate_pkg_info(dep_installed, None, &db).is_ok());
}

#[test]
fn a_recursing_query_admits_every_install_reason() {
    let universe: Vec<PackageInfo> = Vec::new();
    let db = ReverseDepsDatabase::new(&universe);
    let f = PackageFilters {
        sync: false,
        all: false,
        plain: true,
        recurse: Some("pkg".to_string()),
        optional: false,
        summary: false,
    };
    let dep_installed = record("pkg", "1.0", "x", "Depend");
    assert!(f.generate_pkg_info(dep_installed, None, &db).is_ok());
}

#[test]
fn generate_reconciles_and_attaches_reverse_deps() {
    let universe = vec![record("other", "1.0", "x", "Explicit")];
    // give the one universe package a runtime dependency on "pkg"
    let mut universe = universe;
    universe[0].depends_on.0.push(DepInfo {
        dep_string: "pkg".to_string(),
        name: "pkg".to_string(),
        depmod: "Any".to_string(),
        version: None,
        description: None,
        name_hash: 0,
        satisfier: None,
    });
    let db = ReverseDepsDatabase::new(&universe);
    let f = filters(false, true, false);
    let local = record("pkg", "1.0", "x", "Explicit");
    let sync = record("pkg", "1.0", "x", "Unknown");
    let out = f.generate_pkg_info(local, Some(sync), &db).unwrap();
    // reconciled with the matching sync base, and the index attached
    assert!(out.sync_with.is_some());
    assert_eq!(out.required_by.0, vec!["other".to_string()]);
}

#[test]
fn plain_mode_skips_reconciliation() {
    let universe: Vec<PackageInfo> = Vec::new();
    let db = ReverseDepsDatabase::new(&universe);
    let f = filters(false, true, true);
    let local = record("pkg", "1.0", "x", "Explicit");
    let sync = record("pkg", "1.0", "x", "Unknown");
    let out = f.generate_pkg_info(local, Some(sync), &db).unwrap();
    assert!(out.sync_with.is_none());
}

#[test]
fn find_in_databases_returns_the_first_match_or_not_found() {
    let dbs = vec![record("a", "1", "x", "Explicit"), record("b", "2", "x", "Explicit")];
    let found = find_in_databases(&dbs, &"b".to_string()).unwrap();
    assert_eq!(found.version, "2");
    let missing = find_in_databases(&dbs, &"z".to_string());
    assert_eq!(missing.unwrap_err(), QueryError::NotFound);
}

#[test]
fn decode_keyid_is_best_effort() {
    // no signature bytes: the record passes through unchanged
    let bare = record("pkg", "1.0", "x", "Explicit");
    let out = bare.decode_keyid(None);
    assert!(out.key_id.is_none());
    // a successful extraction stores the key ids
    let mut signed = record("pkg", "1.0", "x", "Explicit");
    signed.signatures = Some("c2ln".to_string());
    let out = signed.decode_keyid(Some(Ok(vec!["KEY1".to_string(), "KEY2".to_string()])));
    assert_eq!(out.key_id, Some(vec!["KEY1".to_string(), "KEY2".to_string()]));
    // a failure stores the single diagnostic string instead of aborting
    let mut signed = record("pkg", "1.0", "x", "Explicit");
    signed.signatures = Some("c2ln".to_string());
    let out = signed.decode_keyid(Some(Err("no key found".to_string())));
    assert_eq!(out.key_id, Some(vec!["no key found".to_string()]));
}

#[test]
fn new_records_start_with_lazy_fields_absent() {
    let r = record("pkg", "1.0", "x", "Explicit");
    assert!(r.key_id.is_none());
    assert!(r.sync_with.is_none());
    assert!(r.required_by.0.is_empty());
    assert!(r.optional_for.0.is_empty());
    assert!(r.required_by_make.0.is_empty());
    assert!(r.required_by_check.0.is_empty());
}

#[test]
fn add_sync_info_only_fills_the_companion_slot() {
    let local = record("pkg", "1.0", "x", "Explicit");
    let sync = record("pkg", "2.0", "y", "Unknown");
    let merged = local.add_sync_info(sync);
    assert_eq!(merged.version, "1.0");
    assert_eq!(merged.packager, Some("x".to_string()));
    assert_eq!(merged.sync_with.unwrap().version, "2.0");
}

#[test]
fn add_local_info_overlays_exactly_the_install_fields() {
    let mut local = record("pkg", "1.0", "x", "Depend");
    local.install_date = Some(42);
    local.install_script = true;
    let sync = record("pkg", "2.0", "y", "Unknown");
    let merged = sync.add_local_info(local);
    assert_eq!(merged.version, "2.0");
    assert_eq!(merged.packager, Some("y".to_string()));
    assert_eq!(merged.install_date, Some(42));
    assert_eq!(merged.install_reason, "Depend");
    assert!(merged.install_script);
    assert_eq!(merged.sync_with.unwrap().version, "1.0");
}
