use pacjump::siglevel::{fold_siglevels, process_siglevel, SigLevel};

fn empty() -> SigLevel {
    SigLevel {
        package: false,
        package_optional: false,
        package_marginal_ok: false,
        package_unknown_ok: false,
        database: false,
        database_optional: false,
        database_marginal_ok: false,
        database_unknown_ok: false,
        use_default: false,
    }
}

#[test]
fn a_blank_line_leaves_the_level_unmodified() {
    let package_optional = SigLevel { package_optional: true, ..empty() };
    let out = process_siglevel(package_optional, "\n\t \n");
    assert_eq!(out, package_optional);
}

#[test]
fn package_required_demands_package_signatures() {
    let out = process_siglevel(SigLevel::use_default(), "PackageRequired");
    assert_eq!(out, SigLevel { package: true, ..empty() });
}

#[test]
fn surrounding_whitespace_is_ignored() {
    let out = process_siglevel(SigLevel::use_default(), "  PackageOptional\t");
    assert_eq!(out, SigLevel { package: true, package_optional: true, ..empty() });
}

#[test]
fn never_clears_the_package_demand() {
    let required = SigLevel { package: true, ..empty() };
    let out = process_siglevel(required, "PackageNever");
    assert_eq!(out, empty());
}

#[test]
fn trust_all_and_trusted_only_toggle_the_trust_flags() {
    let out = process_siglevel(SigLevel::use_default(), "PackageTrustAll");
    assert_eq!(
        out,
        SigLevel { package_marginal_ok: true, package_unknown_ok: true, ..empty() }
    );
    let out = process_siglevel(out, "PackageTrustedOnly");
    assert_eq!(out, empty());
}

#[test]
fn database_words_touch_only_database_flags() {
    let out = process_siglevel(SigLevel::use_default(), "DatabaseOptional");
    assert_eq!(out, SigLevel { database: true, database_optional: true, ..empty() });
    let out = process_siglevel(out, "DatabaseRequired");
    assert_eq!(out, SigLevel { database: true, ..empty() });
}

#[test]
fn fold_stacks_lines_in_order() {
    let lines = [
        "PackageRequired",
        "PackageTrustedOnly",
        "DatabaseOptional",
        "DatabaseTrustedOnly",
    ]
    .join("\n");
    let out = fold_siglevels(SigLevel::use_default(), lines);
    assert_eq!(
        out,
        SigLevel { package: true, database: true, database_optional: true, ..empty() }
    );
}

#[test]
fn fold_ignores_empty_lines_and_empty_input() {
    let database_optional = SigLevel { database_optional: true, ..empty() };
    let out = fold_siglevels(database_optional, "\n\n\n".to_string());
    assert_eq!(out, database_optional);
    let out = fold_siglevels(database_optional, "".to_string());
    assert_eq!(out, database_optional);
}
