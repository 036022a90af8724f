use pacmanman::app::{Action, App, Key, ListFilter, Screens, StatefulList, UiCommand};
use pacmanman::commands::{parse_version_list, PackageDetails, PackageType};

fn catalog_of(text: &str) -> Vec<pacmanman::commands::PackageVersionInfo> {
    parse_version_list(text, PackageType::Explicit)
}

fn view_names(list: &StatefulList) -> Vec<String> {
    list.filtered_items
        .iter()
        .map(|&i| list.items[i].name.clone())
        .collect()
}

#[test]
fn new_list_shows_everything_and_selects_top() {
    let list = StatefulList::new(catalog_of("a 1\nb 1\nc 1\n"));
    assert_eq!(list.filtered_items.len(), 3);
    assert_eq!(list.selected, Some(0));
    assert_eq!(list.last_selected, None);
}

#[test]
fn new_list_on_empty_catalog_selects_nothing() {
    let list = StatefulList::new(Vec::new());
    assert_eq!(list.filtered_items.len(), 0);
    assert_eq!(list.selected, None);
}

#[test]
fn wraparound_next_n_times_returns_to_top() {
    // a view of length N: N forward moves from index 0 land on 0 again
    let mut list = StatefulList::new(catalog_of("a 1\nb 1\nc 1\nd 1\n"));
    let n = list.filtered_items.len();
    assert_eq!(list.selected, Some(0));
    for _ in 0..n {
        list.next();
    }
    assert_eq!(list.selected, Some(0));
}

#[test]
fn wraparound_previous_from_top_lands_on_bottom() {
    let mut list = StatefulList::new(catalog_of("a 1\nb 1\nc 1\nd 1\n"));
    list.previous();
    assert_eq!(list.selected, Some(3));
}

#[test]
fn next_and_previous_step_by_one() {
    let mut list = StatefulList::new(catalog_of("a 1\nb 1\nc 1\n"));
    list.next();
    assert_eq!(list.selected, Some(1));
    list.next();
    assert_eq!(list.selected, Some(2));
    list.previous();
    assert_eq!(list.selected, Some(1));
}

#[test]
fn navigation_on_empty_view_is_a_no_op() {
    let mut list = StatefulList::new(Vec::new());
    list.next();
    assert_eq!(list.selected, None);
    list.previous();
    assert_eq!(list.selected, None);
    list.go_top();
    assert_eq!(list.selected, None);
}

#[test]
fn go_bottom_on_empty_view_does_not_crash() {
    // the unguarded jump underflowed here; it must be a no-op
    let mut list = StatefulList::new(Vec::new());
    list.go_bottom();
    assert_eq!(list.selected, None);
}

#[test]
fn go_top_and_go_bottom_jump() {
    let mut list = StatefulList::new(catalog_of("a 1\nb 1\nc 1\n"));
    list.go_bottom();
    assert_eq!(list.selected, Some(2));
    list.go_top();
    assert_eq!(list.selected, Some(0));
}

#[test]
fn text_search_keeps_catalog_order() {
    // TextSearch("fo") over [bar, foo, foobar] yields [foo, foobar]
    let mut list = StatefulList::new(catalog_of("bar 1\nfoo 1\nfoobar 1\n"));
    list.change_filter(ListFilter::Search("fo".to_string()));
    assert_eq!(view_names(&list), vec!["foo".to_string(), "foobar".to_string()]);
    assert_eq!(list.selected, Some(0));
}

#[test]
fn search_is_case_sensitive_substring() {
    let mut list = StatefulList::new(catalog_of("Foo 1\nfoo 1\nxfoox 1\n"));
    list.change_filter(ListFilter::Search("foo".to_string()));
    assert_eq!(view_names(&list), vec!["foo".to_string(), "xfoox".to_string()]);
}

#[test]
fn classification_filters_match_the_tag() {
    let mut items = parse_version_list("exp 1\n", PackageType::Explicit);
    items.extend(parse_version_list("orp 1\n", PackageType::Orphan));
    items.extend(parse_version_list("frn 1\n", PackageType::Foreign));
    let mut list = StatefulList::new(items);

    list.change_filter(ListFilter::Explicit);
    assert_eq!(view_names(&list), vec!["exp".to_string()]);
    list.change_filter(ListFilter::Orphans);
    assert_eq!(view_names(&list), vec!["orp".to_string()]);
    list.change_filter(ListFilter::Foreign);
    assert_eq!(view_names(&list), vec!["frn".to_string()]);
    list.change_filter(ListFilter::All);
    assert_eq!(list.filtered_items.len(), 3);
}

#[test]
fn filter_change_resets_selection_to_top_or_none() {
    let mut list = StatefulList::new(catalog_of("a 1\nb 1\nc 1\n"));
    list.next();
    list.next();
    assert_eq!(list.selected, Some(2));
    list.change_filter(ListFilter::All);
    assert_eq!(list.selected, Some(0));
    assert_eq!(list.last_selected, Some(2));

    list.change_filter(ListFilter::Search("no such name".to_string()));
    assert_eq!(list.selected, None);
    assert_eq!(list.filtered_items.len(), 0);
}

#[test]
fn selected_returns_the_record_under_the_cursor() {
    let mut list = StatefulList::new(catalog_of("a 1\nb 2\nc 3\n"));
    list.next();
    let p = list.selected().expect("a record is selected");
    assert_eq!(p.name, "b");
    assert_eq!(p.version, "2");
}

#[test]
fn selected_on_empty_view_is_none() {
    let mut list = StatefulList::new(catalog_of("a 1\n"));
    list.change_filter(ListFilter::Search("zzz".to_string()));
    assert!(list.selected().is_none());
}

#[test]
fn fill_selected_details_caches_on_the_catalog_record() {
    let mut list = StatefulList::new(catalog_of("a 1\nb 2\n"));
    list.next();
    let mut d = PackageDetails::default();
    d.description = "fetched once".to_string();
    let got = list.fill_selected_details(d).expect("a record is selected");
    assert_eq!(got.description, "fetched once");

    // narrow the view; the same catalog record still carries the cache
    list.change_filter(ListFilter::Search("b".to_string()));
    let p = list.selected().expect("b is in view");
    assert_eq!(p.name, "b");
    assert_eq!(
        p.cached_details().as_ref().unwrap().description,
        "fetched once"
    );

    // a second fill returns the cache and ignores the new fetch
    let mut later = PackageDetails::default();
    later.description = "ignored".to_string();
    let again = list.fill_selected_details(later).unwrap();
    assert_eq!(again.description, "fetched once");
}

#[test]
fn fill_selected_details_without_selection_is_none() {
    let mut list = StatefulList::new(Vec::new());
    assert!(list.fill_selected_details(PackageDetails::default()).is_none());
}

#[test]
fn dispatch_table_listing_screen() {
    assert!(matches!(
        pacmanman::app::dispatch_key(Screens::DetailsList, Key::Char('q')),
        UiCommand::Quit
    ));
    assert!(matches!(
        pacmanman::app::dispatch_key(Screens::DetailsList, Key::Up),
        UiCommand::MovePrevious
    ));
    assert!(matches!(
        pacmanman::app::dispatch_key(Screens::DetailsList, Key::Char('j')),
        UiCommand::MoveNext
    ));
    assert!(matches!(
        pacmanman::app::dispatch_key(Screens::DetailsList, Key::Char('s')),
        UiCommand::OpenFilterInput
    ));
    assert!(matches!(
        pacmanman::app::dispatch_key(Screens::DetailsList, Key::Char('x')),
        UiCommand::Nothing
    ));
}

#[test]
fn dispatch_table_filter_entry_screen() {
    assert!(matches!(
        pacmanman::app::dispatch_key(Screens::FilterInput, Key::Enter),
        UiCommand::ConfirmFilter
    ));
    assert!(matches!(
        pacmanman::app::dispatch_key(Screens::FilterInput, Key::Esc),
        UiCommand::CancelFilter
    ));
    assert!(matches!(
        pacmanman::app::dispatch_key(Screens::FilterInput, Key::Char('z')),
        UiCommand::EditInput
    ));
}

#[test]
fn modal_flow_search_entry_confirm() {
    let mut app = App::new(catalog_of("bar 1\nfoo 1\nfoobar 1\n"));
    assert_eq!(app.current_screen, Screens::DetailsList);

    assert_eq!(app.handle_key(Key::Char('s'), ""), Action::Nothing);
    assert_eq!(app.current_screen, Screens::FilterInput);

    assert_eq!(app.handle_key(Key::Char('f'), ""), Action::EditInput);
    assert_eq!(app.current_screen, Screens::FilterInput);

    assert_eq!(app.handle_key(Key::Enter, "fo"), Action::ResetInput);
    assert_eq!(app.current_screen, Screens::DetailsList);
    assert_eq!(
        view_names(&app.packages_list),
        vec!["foo".to_string(), "foobar".to_string()]
    );
}

#[test]
fn modal_flow_cancel_keeps_the_filter() {
    let mut app = App::new(catalog_of("a 1\nb 1\n"));
    app.handle_key(Key::Char('s'), "");
    assert_eq!(app.handle_key(Key::Esc, "typed but canceled"), Action::ResetInput);
    assert_eq!(app.current_screen, Screens::DetailsList);
    assert_eq!(app.packages_list.filtered_items.len(), 2);
}

#[test]
fn key_handling_drives_navigation_and_filters() {
    let mut items = parse_version_list("exp 1\n", PackageType::Explicit);
    items.extend(parse_version_list("orp 1\n", PackageType::Orphan));
    let mut app = App::new(items);

    assert_eq!(app.handle_key(Key::Char('q'), ""), Action::Quit);
    assert_eq!(app.handle_key(Key::Down, ""), Action::Nothing);
    assert_eq!(app.packages_list.selected, Some(1));
    app.handle_key(Key::Char('k'), "");
    assert_eq!(app.packages_list.selected, Some(0));
    app.handle_key(Key::Char('G'), "");
    assert_eq!(app.packages_list.selected, Some(1));
    app.handle_key(Key::Char('g'), "");
    assert_eq!(app.packages_list.selected, Some(0));
    app.handle_key(Key::Char('o'), "");
    assert_eq!(view_names(&app.packages_list), vec!["orp".to_string()]);
    app.handle_key(Key::Char('a'), "");
    assert_eq!(app.packages_list.filtered_items.len(), 2);
}
