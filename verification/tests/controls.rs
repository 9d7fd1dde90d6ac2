use data_browser::components::arrange::arrange;
use data_browser::components::controls::{
    bar, date_field, pager, path, search_field, shape, toolbar, Control, Shape, Typing,
};
use data_browser::components::row::{Row, RowKind, RowStatus};
use data_browser::message::{Msg, ViewMsg};
use data_browser::state::ids::ViewId;
use data_browser::state::listing::{ListingState, Menu};

/// Twentieths of a point.
const POINT: u32 = 20;
const FIELD: u32 = 280 * POINT;
const CHIPS: [u32; 3] = [140 * POINT, 150 * POINT, 160 * POINT];

fn view() -> ViewId {
    ViewId { number: 7 }
}

#[test]
fn a_wide_half_keeps_the_bar_in_one_line() {
    assert_eq!(shape(900 * POINT, FIELD, &CHIPS.to_vec()), Shape::Line);
}

#[test]
fn a_narrow_half_unfolds_the_bar() {
    assert_eq!(shape(700 * POINT, FIELD, &CHIPS.to_vec()), Shape::Stack(vec![3]));
    assert_eq!(shape(400 * POINT, FIELD, &CHIPS.to_vec()), Shape::Stack(vec![2, 1]));

    for width in [120, 400, 700, 780] {
        let Shape::Stack(rows) = shape(width * POINT, FIELD, &CHIPS.to_vec()) else { continue };
        assert_eq!(rows.iter().sum::<usize>(), CHIPS.len(), "ширина {}", width);
        assert!(rows.iter().all(|count| *count > 0), "пустой ряд при ширине {}", width);
    }
}

#[test]
fn a_control_wider_than_the_bar_stands_alone() {
    assert_eq!(shape(150 * POINT, FIELD, &CHIPS.to_vec()), Shape::Stack(vec![1, 1, 1]));
}

#[test]
fn a_bar_keeps_every_control_in_order() {
    let controls = || vec![("a", CHIPS[0]), ("b", CHIPS[1]), ("c", CHIPS[2])];
    assert_eq!(bar(900 * POINT, ("field", FIELD), controls()), vec![vec!["field", "a", "b", "c"]]);
    assert_eq!(
        bar(400 * POINT, ("field", FIELD), controls()),
        vec![vec!["field"], vec!["a", "b"], vec!["c"]]
    );
}

#[test]
fn a_path_leads_to_every_folder_of_it() {
    let crumbs = path(view(), "eodata/Sentinel-2/");
    let labels: Vec<&str> = crumbs.iter().map(|crumb| crumb.label.as_str()).collect();
    assert_eq!(labels, ["корень", "eodata", "Sentinel-2"]);
    let here: Vec<bool> = crumbs.iter().map(|crumb| crumb.here).collect();
    assert_eq!(here, [false, false, true]);
    let targets: Vec<String> = crumbs
        .iter()
        .map(|crumb| match &crumb.message {
            Msg::In(_, ViewMsg::Enter(target)) => target.clone(),
            _ => panic!("ступень ведёт не в папку"),
        })
        .collect();
    assert_eq!(targets, ["", "eodata/", "eodata/Sentinel-2/"]);
    assert!(path(view(), "")[0].here);
}

fn rows(count: usize) -> Vec<Row> {
    (0..count)
        .map(|at| {
            Row::container_row(format!("p/{:02}", at), format!("{:02}", at), RowStatus::Remote, RowKind::File)
        })
        .collect()
}

#[test]
fn pages_can_be_turned_within_the_list() {
    let all = rows(45);
    let first = ListingState::default();
    let shown = pager(view(), &arrange(&all, &first));
    assert_eq!(shown.range, "1–20 из 45");
    assert_eq!(shown.pages.len(), 3);
    assert!(shown.back.is_none());
    assert!(matches!(shown.on, Some(Msg::In(_, ViewMsg::Page(1)))));
    assert!(shown.pages[0].shown && !shown.pages[1].shown);
    assert_eq!(shown.pages[2].label, "3");

    let last = ListingState { page: 2, ..Default::default() };
    let shown = pager(view(), &arrange(&all, &last));
    assert!(matches!(shown.back, Some(Msg::In(_, ViewMsg::Page(1)))));
    assert!(shown.on.is_none());
}

#[test]
fn grouping_is_offered_where_there_is_something_to_group() {
    let listing = ListingState::default();
    let captions = |groupable: bool| -> Vec<&'static str> {
        toolbar(view(), &listing, None, &vec![5, 4, 1], groupable, 4000 * POINT)
            .into_iter()
            .flatten()
            .filter_map(|control| match control {
                Control::Chip(chip) => Some(chip.caption),
                Control::Field(_) => None,
            })
            .collect()
    };
    assert_eq!(captions(true), ["Состояние:", "Группировка:", "Сортировка:"]);
    assert_eq!(captions(false), ["Состояние:", "Сортировка:"]);
}

#[test]
fn only_the_open_chip_has_items() {
    let listing = ListingState::default();
    let lines = toolbar(view(), &listing, Some(&Menu::Filter), &vec![5, 4], true, 4000 * POINT);
    let chips: Vec<_> = lines
        .into_iter()
        .flatten()
        .filter_map(|control| match control {
            Control::Chip(chip) => Some(chip),
            Control::Field(field) => {
                assert_eq!(field.placeholder, "Фильтр по имени");
                assert!(field.submit.is_none());
                let typed = field.typing.message("s2a".to_string());
                assert!(matches!(typed, Msg::In(id, ViewMsg::Query(query)) if id == view() && query == "s2a"));
                None
            }
        })
        .collect();
    assert!(matches!(chips[0].message, Msg::In(_, ViewMsg::OpenMenu(Some(Menu::Filter)))));
    assert!(matches!(chips[0].dismiss, Msg::In(_, ViewMsg::OpenMenu(None))));
    assert!(chips[0].open && !chips[1].open && !chips[2].open);
    assert!(chips[1].items.is_empty() && chips[2].items.is_empty());
    assert!(chips[0].items[0].marked() && !chips[0].items[1].marked());
    assert_eq!(chips[0].items[0].count, Some(5));
    assert_eq!(chips[0].items[1].count, Some(4));
    assert_eq!(chips[0].items.last().and_then(|item| item.count), None);
}

#[test]
fn a_date_field_says_how_a_date_is_typed() {
    let field = date_field("с", "2026-08-01", Typing::From(view()), Msg::In(view(), ViewMsg::RunSearch));
    assert!(matches!(field.submit, Msg::In(_, ViewMsg::RunSearch)));
    let typed = field.typing.message("2026".to_string());
    assert!(matches!(typed, Msg::In(_, ViewMsg::SearchFrom(day)) if day == "2026"));
    assert_eq!((field.caption, field.value.as_str()), ("с", "2026-08-01"));
    assert_eq!(field.placeholder, "ГГГГ-ММ-ДД");
    assert_eq!(field.width, 150 * POINT);
}

#[test]
fn a_field_of_the_catalogue_waits_to_be_submitted() {
    let run = Msg::In(view(), ViewMsg::RunSearch);
    let field = search_field("Поиск", "msi", Typing::Search(view()), Some(run));
    assert!(matches!(field.submit, Some(Msg::In(_, ViewMsg::RunSearch))));
    let typed = field.typing.message("msil2a".to_string());
    assert!(matches!(typed, Msg::In(_, ViewMsg::SearchQuery(query)) if query == "msil2a"));
    let to = Typing::To(view()).message("2026".to_string());
    assert!(matches!(to, Msg::In(_, ViewMsg::SearchTo(day)) if day == "2026"));
}
