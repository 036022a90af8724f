use pacmanman::commands::{
    get_all_packages, get_explicit_packages, get_foreign_packages, get_orphan_packages,
    parse_version_list, PackageType,
};

fn names_types(list: &[pacmanman::commands::PackageVersionInfo]) -> Vec<(String, PackageType)> {
    list.iter()
        .map(|p| (p.name.clone(), p.package_type))
        .collect()
}

#[test]
fn version_list_well_formed_lines() {
    let recs = parse_version_list("foo 1.0\nbar 2.0\n", PackageType::Explicit);
    assert_eq!(recs.len(), 2);
    assert_eq!(recs[0].name, "foo");
    assert_eq!(recs[0].version, "1.0");
    assert_eq!(recs[1].name, "bar");
    assert_eq!(recs[1].version, "2.0");
    assert!(recs.iter().all(|r| r.package_type == PackageType::Explicit));
    assert!(recs.iter().all(|r| !r.has_details()));
}

#[test]
fn version_list_drops_short_lines() {
    let recs = parse_version_list("loner\n\nfoo 1.0\n   \n", PackageType::Orphan);
    assert_eq!(recs.len(), 1);
    assert_eq!(recs[0].name, "foo");
    assert_eq!(recs[0].version, "1.0");
    assert_eq!(recs[0].package_type, PackageType::Orphan);
}

#[test]
fn version_list_whitespace_delimited_fields() {
    let recs = parse_version_list("foo   1.0 extra", PackageType::Foreign);
    assert_eq!(recs.len(), 1);
    assert_eq!(recs[0].name, "foo");
    assert_eq!(recs[0].version, "1.0");
}

#[test]
fn version_list_empty_text() {
    assert_eq!(parse_version_list("", PackageType::Explicit).len(), 0);
}

#[test]
fn query_wrappers_tag_their_classification() {
    let text = "foo 1.0\n";
    assert_eq!(
        get_explicit_packages(text)[0].package_type,
        PackageType::Explicit
    );
    assert_eq!(
        get_orphan_packages(text)[0].package_type,
        PackageType::Orphan
    );
    assert_eq!(
        get_foreign_packages(text)[0].package_type,
        PackageType::Foreign
    );
}

#[test]
fn build_reclassifies_and_sorts() {
    // group A returns foo and bar tagged explicit, group C returns bar:
    // the catalog is [bar foreign, foo explicit], sorted by name.
    let catalog = get_all_packages("foo 1.0\nbar 2.0\n", "", "bar 2.0\n");
    assert_eq!(
        names_types(&catalog),
        vec![
            ("bar".to_string(), PackageType::Foreign),
            ("foo".to_string(), PackageType::Explicit),
        ]
    );
}

#[test]
fn build_merges_orphans() {
    let catalog = get_all_packages("zzz 1\n", "mid 2\n", "");
    assert_eq!(
        names_types(&catalog),
        vec![
            ("mid".to_string(), PackageType::Orphan),
            ("zzz".to_string(), PackageType::Explicit),
        ]
    );
}

#[test]
fn build_is_deterministic() {
    let a = "foo 1.0\nbar 2.0\nbaz 3.1\n";
    let b = "dep 0.2\n";
    let c = "bar 2.0\n";
    let one = get_all_packages(a, b, c);
    let two = get_all_packages(a, b, c);
    assert_eq!(one.len(), two.len());
    for (x, y) in one.iter().zip(two.iter()) {
        assert_eq!(x.name, y.name);
        assert_eq!(x.version, y.version);
        assert_eq!(x.package_type, y.package_type);
    }
}

#[test]
fn reclassification_precedence_no_duplicate() {
    // a name in both the explicit and the foreign query appears once,
    // tagged foreign.
    let catalog = get_all_packages("bar 2.0\n", "", "bar 2.0\n");
    assert_eq!(catalog.len(), 1);
    assert_eq!(catalog[0].name, "bar");
    assert_eq!(catalog[0].package_type, PackageType::Foreign);
}

#[test]
fn duplicate_across_groups_later_wins() {
    // defensively, a name in both the explicit and the orphan group is
    // kept once; the later-merged (orphan) entry wins.
    let catalog = get_all_packages("x 1\n", "x 2\n", "");
    assert_eq!(catalog.len(), 1);
    assert_eq!(catalog[0].name, "x");
    assert_eq!(catalog[0].version, "2");
    assert_eq!(catalog[0].package_type, PackageType::Orphan);
}

#[test]
fn sort_is_bytewise_case_sensitive() {
    let catalog = get_all_packages("beta 1\nalpha 1\nZeta 1\n", "", "");
    let names: Vec<&str> = catalog.iter().map(|p| p.name.as_str()).collect();
    assert_eq!(names, vec!["Zeta", "alpha", "beta"]);
}
