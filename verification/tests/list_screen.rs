use data_browser::components::list_screen::{heading, view, Body, Screen, ScrollTo};
use data_browser::components::row::{Row, RowKind, RowStatus};
use data_browser::components::table::{Cell, Column};
use data_browser::message::{Msg, ViewMsg};
use data_browser::state::ids::ViewId;
use data_browser::state::listing::{Chosen, ListingState, Sorting};

fn tab() -> ViewId {
    ViewId { number: 7 }
}

fn snapshots(count: usize) -> Vec<Row> {
    (0..count)
        .map(|at| {
            Row::container_row(
                format!("p/{:02}", at),
                format!("{:02}.SAFE", at),
                RowStatus::Remote,
                RowKind::Product { folder: true },
            )
        })
        .collect()
}

fn screen<'a>(rows: Vec<Row>, path: Option<&'a str>, target: &'a str, outlined: usize) -> Screen<'a> {
    Screen {
        title: "Каталог",
        subtitle: "2 снимка".to_string(),
        path,
        empty: "Папка пуста",
        rows,
        picked: "",
        outlined,
        menu: None,
        target,
    }
}

#[test]
fn a_long_subtitle_is_cut() {
    let shown = heading("Поиск", &"ошибка ".repeat(40));
    assert_eq!(shown.subtitle.chars().count(), 72);
    assert_eq!(heading("Поиск", "36 снимков").subtitle, "36 снимков");
}

#[test]
fn an_empty_list_and_a_filtered_one_are_told_apart() {
    let listing = ListingState::default();
    let shown = view(tab(), &screen(Vec::new(), None, "", 0), &listing, 900, 0);
    assert!(matches!(shown.body, Body::Nothing(said) if said == "Папка пуста"));
    assert!(shown.pager.is_none() && shown.path.is_none() && shown.chosen.is_none());

    let narrowed = ListingState { query: "нет такого".to_string(), ..Default::default() };
    let shown = view(tab(), &screen(snapshots(2), None, "", 0), &narrowed, 900, 0);
    assert!(matches!(shown.body, Body::Nothing(said) if said == "Под отбор ничего не подошло"));
}

#[test]
fn a_list_scrolls_to_the_row_it_was_walked_to() {
    let listing = ListingState { sorting: Sorting::Name, aim: 4, ..Default::default() };
    let shown = view(tab(), &screen(snapshots(9), Some("p/"), "p/05/", 0), &listing, 900, 0);
    match shown.body {
        Body::Rows { name, lines, aim } => {
            assert_eq!(name, "rows:7");
            assert_eq!(lines.len(), 9);
            assert_eq!(aim, Some(ScrollTo { rows: 3, request: 4 }));
        }
        Body::Nothing(_) => panic!("строк нет"),
    }
    let (crumbs, up) = shown.path.expect("путь есть");
    assert_eq!(crumbs.len(), 2);
    assert!(matches!(up, Msg::In(_, ViewMsg::Up)));

    let shown = view(tab(), &screen(snapshots(9), Some("p/"), "p/нет", 0), &listing, 900, 0);
    assert!(matches!(shown.body, Body::Rows { aim: None, .. }));
}

#[test]
fn the_choice_is_told_by_what_is_on_the_globe() {
    let mut listing = ListingState::default();
    listing.selected.insert("p/00".to_string(), Chosen::Snapshot);
    listing.selected.insert("p/01".to_string(), Chosen::Snapshot);
    let said = |outlined: usize| {
        let shown = view(tab(), &screen(snapshots(2), None, "", outlined), &listing, 900, 0);
        let chosen = shown.chosen.expect("выбор есть");
        assert!(matches!(chosen.clear, Msg::In(_, ViewMsg::CheckClear)));
        chosen.said
    };
    assert_eq!(said(2), "2 на шаре");
    assert_eq!(said(1), "1 на шаре из 2");
}

#[test]
fn a_narrow_screen_has_fewer_columns() {
    let listing = ListingState::default();
    let wide = view(tab(), &screen(snapshots(30), None, "", 0), &listing, 1400, 0);
    assert!(wide.columns.contains(&Column::Check) && wide.columns.contains(&Column::Date));
    assert_eq!(wide.header.len(), wide.columns.len());
    assert_eq!(wide.pager.expect("страниц две").range, "1–20 из 30");
    let narrow = view(tab(), &screen(snapshots(3), None, "", 0), &listing, 160, 0);
    assert!(narrow.compact && !narrow.columns.contains(&Column::Date));
}

#[test]
fn a_list_of_lone_files_has_a_box_to_choose_them_by() {
    let file = || Row {
        identifier: "p/dem.tif".to_string(),
        title: "dem.tif".to_string(),
        kind: RowKind::File,
        ..Default::default()
    };
    let pressed = |listing: &ListingState| {
        let shown = view(tab(), &screen(vec![file()], None, "", 0), listing, 1400, 0);
        let at = shown.columns.iter().position(|column| *column == Column::Check).expect("колонка выбора");
        match &shown.header[at] {
            Cell::Check { marked, message: Some(Msg::In(_, ViewMsg::CheckShown(on))), .. } => (*marked, *on),
            _ => panic!("коробочки нет"),
        }
    };
    let mut listing = ListingState::default();
    assert_eq!(pressed(&listing), (Some(false), true));
    let what = Chosen::File { identifier: "p/dem.tif".to_string(), product: String::new(), name: String::new() };
    listing.selected.insert("p/dem.tif".to_string(), what);
    assert_eq!(pressed(&listing), (Some(true), false));

    let folder = Row::container_row("p/".to_string(), "p".to_string(), RowStatus::Remote, RowKind::Folder);
    let shown = view(tab(), &screen(vec![folder], None, "", 0), &listing, 1400, 0);
    assert!(!shown.columns.contains(&Column::Check));
}
