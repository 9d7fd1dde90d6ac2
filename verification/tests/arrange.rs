use data_browser::components::arrange::{arrange, page_of, Arranged, Line, PAGE_SIZE};
use data_browser::components::row::{Row, RowKind, RowStatus};
use data_browser::state::listing::{Chosen, ListingState, Sorting};

fn folder(key: &str, children: Vec<Row>) -> Row {
    Row {
        children,
        ..Row::container_row(key.to_string(), key.to_string(), RowStatus::Remote, RowKind::Folder)
    }
}

fn snapshot(key: &str) -> Row {
    Row::container_row(
        key.to_string(),
        key.to_string(),
        RowStatus::Remote,
        RowKind::Product { folder: true },
    )
}

fn depths(arranged: &Arranged<'_>) -> Vec<usize> {
    arranged
        .lines
        .iter()
        .map(|line| match line {
            Line::Entry { depth, .. } | Line::Group { depth, .. } | Line::Waiting { depth } => *depth,
        })
        .collect()
}

#[test]
fn expansion_goes_all_the_way_down() {
    let rows = vec![folder("a/", vec![folder("a/b/", vec![folder("a/b/c/", Vec::new())])])];
    let mut listing = ListingState::default();
    listing.expanded.insert("a/".to_string());
    listing.expanded.insert("a/b/".to_string());

    assert_eq!(depths(&arrange(&rows, &listing)), vec![0, 1, 2]);

    listing.expanded.remove("a/b/");
    assert_eq!(depths(&arrange(&rows, &listing)), vec![0, 1]);
}

#[test]
fn page_of_finds_the_row_across_pages_and_a_trailing_slash() {
    let rows: Vec<Row> = (0..45).map(|index| folder(&format!("p/{:02}/", index), Vec::new())).collect();
    let listing = ListingState { sorting: Sorting::Name, ..Default::default() };

    assert_eq!(page_of(&rows, &listing, "p/00"), Some(0));
    assert_eq!(page_of(&rows, &listing, "p/25/"), Some(1));
    assert_eq!(page_of(&rows, &listing, "p/44"), Some(2));
    assert_eq!(page_of(&rows, &listing, "чего тут нет"), None);
}

#[test]
fn page_of_obeys_the_same_filter_as_the_list() {
    let rows: Vec<Row> = vec![folder("p/one/", Vec::new()), folder("p/two/", Vec::new())];
    let listing = ListingState { query: "two".to_string(), ..Default::default() };

    assert_eq!(page_of(&rows, &listing, "p/two/"), Some(0));
    assert_eq!(page_of(&rows, &listing, "p/one/"), None);
}

#[test]
fn the_header_box_counts_only_the_snapshots_it_shows() {
    let rows = vec![snapshot("p/a"), snapshot("p/b"), folder("p/c/", Vec::new())];
    let mut listing = ListingState::default();
    assert!(!arrange(&rows, &listing).all_marked(&listing), "пока не отмечено ничего");

    listing.selected.insert("p/a".to_string(), Chosen::Snapshot);
    assert!(!arrange(&rows, &listing).all_marked(&listing), "отмечен один из двух");

    listing.selected.insert("p/b".to_string(), Chosen::Snapshot);
    assert!(arrange(&rows, &listing).all_marked(&listing), "папка в счёт не идёт");

    let mut narrowed = ListingState { query: "a".to_string(), ..Default::default() };
    narrowed.selected.insert("p/a".to_string(), Chosen::Snapshot);
    assert!(arrange(&rows, &narrowed).all_marked(&narrowed));
}

#[test]
fn the_header_box_of_an_unmarkable_list_is_empty() {
    let listing = ListingState::default();
    let folders = vec![folder("p/c/", Vec::new())];
    assert!(!arrange(&folders, &listing).all_marked(&listing));
    assert!(!arrange(&[], &listing).all_marked(&listing));
}

#[test]
fn expanded_snapshots_count_as_shown() {
    let rows = vec![folder("p/day/", vec![snapshot("p/day/one")])];
    let mut listing = ListingState::default();
    listing.expanded.insert("p/day/".to_string());

    assert_eq!(arrange(&rows, &listing).marks(), vec!["p/day/one"]);
    assert!(!arrange(&rows, &listing).all_marked(&listing));

    listing.selected.insert("p/day/one".to_string(), Chosen::Snapshot);
    assert!(arrange(&rows, &listing).all_marked(&listing));
}

#[test]
fn the_header_box_stops_at_the_page() {
    let rows: Vec<Row> = (0..PAGE_SIZE + 5).map(|index| snapshot(&format!("p/{:02}", index))).collect();
    let listing = ListingState::default();
    assert_eq!(arrange(&rows, &listing).marks().len(), PAGE_SIZE);
}

#[test]
fn the_filter_field_does_not_tell_capitals_apart() {
    let rows = vec![folder("p/ONE/", Vec::new()), folder("p/two/", Vec::new())];
    let listing = ListingState { query: "oNe".to_string(), ..Default::default() };
    let arranged = arrange(&rows, &listing);
    assert_eq!(arranged.total, 1);
    assert_eq!(arranged.shown()[0].identifier, "p/ONE/");
}

#[test]
fn pages_cover_every_row_once() {
    let rows: Vec<Row> = (0..PAGE_SIZE * 2 + 3).map(|index| snapshot(&format!("p/{:03}", index))).collect();
    let mut seen: Vec<String> = Vec::new();
    for page in 0..3 {
        let listing = ListingState { page, sorting: Sorting::Name, ..Default::default() };
        let arranged = arrange(&rows, &listing);
        assert_eq!(arranged.pages, 3);
        assert_eq!(arranged.page, page);
        seen.extend(arranged.shown().iter().map(|row| row.identifier.clone()));
    }
    let all: Vec<String> = rows.iter().map(|row| row.identifier.clone()).collect();
    assert_eq!(seen, all);
    let past = ListingState { page: 9, ..Default::default() };
    assert_eq!(arrange(&rows, &past).page, 2);
}

#[test]
fn a_page_says_what_it_shows() {
    let rows: Vec<Row> = (0..36).map(|index| snapshot(&format!("p/{:02}", index))).collect();
    let first = ListingState::default();
    assert_eq!(arrange(&rows, &first).range(), "1–20 из 36");
    let second = ListingState { page: 1, ..Default::default() };
    assert_eq!(arrange(&rows, &second).range(), "21–36 из 36");
    assert_eq!(arrange(&[], &first).range(), "");
}

#[test]
fn an_empty_filter_field_lets_every_row_pass() {
    let rows = vec![folder("p/ONE/", Vec::new()), snapshot("p/two"), snapshot("")];
    let listing = ListingState { query: String::new(), ..Default::default() };
    assert_eq!(arrange(&rows, &listing).total, 3);
    let narrowed = ListingState { query: "t".to_string(), ..Default::default() };
    assert_eq!(arrange(&rows, &narrowed).total, 1);
}

#[test]
fn the_header_box_speaks_of_lone_files_too() {
    let file = Row {
        identifier: "p/dem.tif".to_string(),
        title: "dem.tif".to_string(),
        kind: RowKind::File,
        ..Default::default()
    };
    let mut rows = vec![file];
    let mut listing = ListingState::default();
    assert_eq!(arrange(&rows, &listing).marks(), vec!["p/dem.tif"]);
    assert!(!arrange(&rows, &listing).all_marked(&listing));
    let what = || Chosen::File {
        identifier: "p/dem.tif".to_string(),
        product: String::new(),
        name: String::new(),
    };
    listing.selected.insert("p/dem.tif".to_string(), what());
    assert!(arrange(&rows, &listing).all_marked(&listing));

    rows.push(snapshot("p/a"));
    assert!(!arrange(&rows, &listing).all_marked(&listing));
    let mut listing = ListingState::default();
    listing.selected.insert("p/a".to_string(), Chosen::Snapshot);
    assert!(!arrange(&rows, &listing).all_marked(&listing));
    listing.selected.insert("p/dem.tif".to_string(), what());
    assert!(arrange(&rows, &listing).all_marked(&listing));
}
