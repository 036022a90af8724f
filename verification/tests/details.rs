use pacmanman::commands::{parse_details_list, PackageDetails, PackageType};

#[test]
fn detail_block_all_recognized_keys() {
    let text = "Name : ripgrep\n\
                Version : 14.1.0-1\n\
                Description : A search tool\n\
                URL : https://example.invalid\n\
                Depends On : pcre2\n\
                Optional Deps : none\n\
                Required By : tools\n\
                Optional For : nothing\n\
                Installed Size : 6.17 MiB\n\
                Install Reason : Explicitly installed\n";
    let d = parse_details_list(text);
    assert_eq!(d.name, "ripgrep");
    assert_eq!(d.version, "14.1.0-1");
    assert_eq!(d.description, "A search tool");
    assert_eq!(d.url, "https://example.invalid");
    assert_eq!(d.depends_on, vec!["pcre2".to_string()]);
    assert_eq!(d.optional_dependencies, vec!["none".to_string()]);
    assert_eq!(d.required_by, vec!["tools".to_string()]);
    assert_eq!(d.optional_for, vec!["nothing".to_string()]);
    assert_eq!(d.installed_size, "6.17 MiB");
    assert_eq!(d.installed_reason, "Explicitly installed");
}

#[test]
fn detail_block_depends_on_is_one_token_and_url_trimmed() {
    // the remainder after the colon is a single token for Depends On,
    // and the value's leading space is trimmed.
    let d = parse_details_list("Depends On  : libx libY\nURL : http://x\n");
    assert_eq!(d.depends_on, vec!["libx libY".to_string()]);
    assert_eq!(d.url, "http://x");
}

#[test]
fn detail_block_required_by_splits_on_spaces() {
    let d = parse_details_list("Required By : alpha beta  gamma\n");
    assert_eq!(
        d.required_by,
        vec!["alpha".to_string(), "beta".to_string(), "gamma".to_string()]
    );
}

#[test]
fn detail_block_optional_for_splits_on_spaces() {
    let d = parse_details_list("Optional For : one two\n");
    assert_eq!(d.optional_for, vec!["one".to_string(), "two".to_string()]);
}

#[test]
fn detail_block_missing_keys_stay_empty() {
    let d = parse_details_list("Name : foo\n");
    assert_eq!(d.name, "foo");
    assert_eq!(d.version, "");
    assert_eq!(d.description, "");
    assert_eq!(d.url, "");
    assert!(d.depends_on.is_empty());
    assert!(d.optional_dependencies.is_empty());
    assert!(d.required_by.is_empty());
    assert!(d.optional_for.is_empty());
    assert_eq!(d.installed_size, "");
    assert_eq!(d.installed_reason, "");
}

#[test]
fn detail_block_empty_text_gives_defaults() {
    let d = parse_details_list("");
    assert_eq!(d.name, "");
    assert!(d.depends_on.is_empty());
}

#[test]
fn detail_block_skips_lines_without_colon() {
    let d = parse_details_list("no colon here\nName : foo\n");
    assert_eq!(d.name, "foo");
}

#[test]
fn detail_block_ignores_unrecognized_keys() {
    let d = parse_details_list("Packager : someone\nName : foo\n");
    assert_eq!(d.name, "foo");
    assert_eq!(d.version, "");
}

#[test]
fn detail_block_key_matching_is_case_and_space_insensitive() {
    let d = parse_details_list("INSTALL REASON : dependency\ni n s t a l l e d s i z e : 3 KiB\n");
    assert_eq!(d.installed_reason, "dependency");
    assert_eq!(d.installed_size, "3 KiB");
}

#[test]
fn detail_block_later_duplicate_key_wins() {
    let d = parse_details_list("Name : first\nName : second\n");
    assert_eq!(d.name, "second");
}

#[test]
fn detail_block_value_split_at_first_colon() {
    let d = parse_details_list("Description : ratio 1:2\n");
    assert_eq!(d.description, "ratio 1:2");
}

#[test]
fn record_detail_fetched_once_then_cached() {
    let mut recs =
        pacmanman::commands::parse_version_list("foo 1.0\n", PackageType::Explicit);
    let rec = &mut recs[0];
    assert!(!rec.has_details());

    let mut first = PackageDetails::default();
    first.description = "from the first fetch".to_string();
    let got = rec.get_details(first);
    assert_eq!(got.description, "from the first fetch");
    assert!(rec.has_details());

    let mut second = PackageDetails::default();
    second.description = "a later fetch that must be ignored".to_string();
    let got_again = rec.get_details(second);
    assert_eq!(got_again.description, "from the first fetch");
    assert_eq!(
        rec.cached_details().as_ref().unwrap().description,
        "from the first fetch"
    );
}
