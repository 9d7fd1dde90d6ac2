use data_browser::calls::{Call, OutlineStyle};
use data_browser::handlers::browse::reveal_record;
use data_browser::handlers::outline::{
    clear, drawn, focus, located, mark_shown, pick, refresh, toggle, toggle_outline, unmark_all,
};
use data_browser::handlers::overlay::show;
use data_browser::proto::{DataProduct, GeoPoint, LibraryEntry, LibraryStatus, LocateResponse, Ring};
use data_browser::state::browse::BrowseState;
use data_browser::state::globe::{Highlight, Located, Outlined};
use data_browser::state::listing::Chosen;
use data_browser::state::overlay::{Handle, OverlayRaster, OverlayRole, OverlayState, Progress};
use data_browser::state::screen::ViewKind;
use data_browser::state::search::SearchState;
use data_browser::state::{Config, State};

fn state() -> State {
    match State::new(Config { initial_view: None }) {
        Ok(state) => state,
        Err(name) => panic!("{}", name),
    }
}

fn corners() -> Vec<Ring> {
    vec![Ring {
        points: [(10.0f64, 10.0f64), (10.0, 20.0), (20.0, 20.0), (20.0, 10.0)]
            .into_iter()
            .map(|(lat, lon)| GeoPoint { lat: lat.to_bits(), lon: lon.to_bits() })
            .collect(),
    }]
}

fn square(key: &str) -> Outlined {
    Outlined { key: key.to_string(), label: key.to_string(), folder: false, rings: corners() }
}

fn product(key: &str) -> DataProduct {
    DataProduct { identifier: key.to_string(), footprint: corners(), ..Default::default() }
}

fn styles(state: &State) -> Vec<OutlineStyle> {
    drawn(state).iter().map(|outline| outline.style).collect()
}

#[test]
fn a_snapshot_on_its_way_is_outlined_with_a_hatch() {
    let key = "eodata/store/A.SAFE";

    let mut state = state();
    state.located.insert(key.to_string(), Located::Found(product(key)));
    assert!(drawn(&state).is_empty(), "неспрошенное на шаре не рисуется");

    state.showing.insert(key.to_string());
    assert_eq!(styles(&state), vec![OutlineStyle::OutlinePending]);

    state.showing.remove(key);
    show(&mut state, &product(key), None);
    assert_eq!(styles(&state), vec![OutlineStyle::OutlinePending]);

    if let Some(overlay) = state.overlays.first_mut() {
        overlay.rasters = vec![OverlayRaster {
            resource: Handle { id: 0, size: 0 },
            role: OverlayRole::OverlayPreview,
            geolocation: None,
        }];
        overlay.progress = Progress { working: true, blank: true, ..Default::default() };
    }
    assert_eq!(styles(&state), vec![OutlineStyle::OutlinePending], "штрих снят раньше картинки");

    if let Some(overlay) = state.overlays.first_mut() {
        overlay.progress = Progress { working: true, blank: false, ..Default::default() };
    }
    assert!(drawn(&state).is_empty(), "штрих пережил приезд картинки");
}

#[test]
fn an_asked_outline_is_not_doubled_by_the_hatch() {
    let key = "eodata/store/A.SAFE";
    let mut state = state();
    state.outlined = vec![square(key)];
    state.showing.insert(key.to_string());
    state.located.insert(key.to_string(), Located::Found(product(key)));

    assert_eq!(styles(&state), vec![OutlineStyle::OutlinePlain], "контур нарисован дважды");

    state.highlight = Some(Highlight { key: key.to_string(), view: None, on_globe: true });
    assert_eq!(styles(&state), vec![OutlineStyle::OutlineSelected]);
}

#[test]
fn the_highlight_has_one_owner() {
    let mut state = state();
    let pane = state.focused();
    let view = state.open_in(pane, ViewKind::Browse(BrowseState::default()));
    state.outlined = vec![square("eodata/store/A.SAFE")];
    let elsewhere = "eodata/store/B.SAFE".to_string();

    reveal_record(&mut state, view, elsewhere.clone());
    assert_eq!(state.target_in(view), elsewhere);

    // The place 15, 15 lies in the only outline.
    pick(&mut state, vec![Some(7)]);
    assert_eq!(state.picked_key(), "eodata/store/A.SAFE");
    assert_eq!(state.target_in(view), "", "подсветка перехода пережила выбор на шаре");

    reveal_record(&mut state, view, elsewhere);
    assert_eq!(state.picked_key(), "", "лента на шаре пережила переход к другой строке");
}

#[test]
fn the_checkbox_remembers_what_the_row_was() {
    let lib = |name: &str, product: &str, identifier: &str| LibraryEntry {
        name: name.to_string(),
        identifier: identifier.to_string(),
        product: product.to_string(),
        done: 1,
        total: 1,
        status: LibraryStatus::LibComplete,
        modified: 0,
        siblings: 1,
        trouble: String::new(),
    };

    let mut state = state();
    state.library.entries = vec![
        lib("B1.TIF", "eodata/store/S2B_X.SAFE", "eodata/store/S2B_X.SAFE/B1.TIF"),
        lib("dem.tif", "", "eodata/dem/dem.tif"),
    ];
    let pane = state.focused();
    let view = state.open_in(pane, ViewKind::Downloaded(Default::default()));

    toggle(&mut state, view, "eodata/store/S2B_X.SAFE".to_string());
    toggle(&mut state, view, "eodata/dem/dem.tif".to_string());

    let listing = state.get(view).and_then(ViewKind::listing).expect("список");
    assert!(
        matches!(listing.selected.get("eodata/store/S2B_X.SAFE"), Some(Chosen::Snapshot)),
        "снимок записан не снимком"
    );
    match listing.selected.get("eodata/dem/dem.tif") {
        Some(Chosen::File { identifier, name, .. }) => {
            assert_eq!(identifier, "eodata/dem/dem.tif", "ключ файла нужен закачке");
            assert_eq!(name, "dem.tif", "имя записи нужно удалению");
        }
        _ => panic!("файл записан не файлом"),
    }

    toggle(&mut state, view, "eodata/dem/dem.tif".to_string());
    let listing = state.get(view).and_then(ViewKind::listing).expect("список");
    assert!(!listing.selected.contains_key("eodata/dem/dem.tif"));
}

#[test]
fn the_header_box_takes_the_shown_rows_into_the_choice_only() {
    let mut state = state();
    state.library.entries = vec![LibraryEntry {
        name: "dem.tif".to_string(),
        identifier: "eodata/dem/dem.tif".to_string(),
        product: String::new(),
        done: 1,
        total: 1,
        status: LibraryStatus::LibComplete,
        modified: 0,
        siblings: 1,
        trouble: String::new(),
    }];
    let pane = state.focused();
    let view = state.open_in(pane, ViewKind::Downloaded(Default::default()));

    mark_shown(&mut state, view, true);
    let listing = state.get(view).and_then(ViewKind::listing).expect("список");
    assert_eq!(listing.selected.len(), 1, "показанная строка не выбрана");
    assert!(state.outlines.is_empty(), "коробочка шапки полезла на шар");

    mark_shown(&mut state, view, false);
    let listing = state.get(view).and_then(ViewKind::listing).expect("список");
    assert!(listing.selected.is_empty(), "второе нажатие не сняло выбор");
}

#[test]
fn the_globe_and_the_choice_do_not_clear_each_other() {
    let mut state = state();
    let pane = state.focused();
    let view = state.open_in(pane, ViewKind::Browse(BrowseState::default()));

    state.outlines.insert("eodata/store/A.SAFE".to_string());
    state.outlined = vec![square("eodata/store/A.SAFE")];
    toggle(&mut state, view, "eodata/store/dem.tif".to_string());

    clear(&mut state);
    assert!(state.outlines.is_empty() && state.outlined.is_empty(), "контуры не сняты");
    let listing = state.get(view).and_then(ViewKind::listing).expect("список");
    assert_eq!(listing.selected.len(), 1, "«снять с шара» выбросило набранное");

    state.outlines.insert("eodata/store/A.SAFE".to_string());
    unmark_all(&mut state, view);
    let listing = state.get(view).and_then(ViewKind::listing).expect("список");
    assert!(listing.selected.is_empty(), "выбор не снят");
    assert_eq!(state.outlines.len(), 1, "«снять выбор» унесло контур");
}

#[test]
fn a_failed_ask_is_retried_not_dropped() {
    let mut state = state();
    let key = "eodata/store/A.SAFE".to_string();
    state.outlines.insert(key.clone());
    state.located.insert(key.clone(), Located::Failed);

    toggle_outline(&mut state, key.clone());
    assert!(state.outlines.contains(&key), "просьба снята вместо переспроса");
    assert!(matches!(state.located.get(&key), Some(Located::Asking)), "не переспросили");

    let other = "eodata/store/B.SAFE".to_string();
    state.located.insert(other.clone(), Located::Failed);
    toggle_outline(&mut state, other.clone());
    assert!(state.outlines.contains(&other));
    assert!(matches!(state.located.get(&other), Some(Located::Asking)));
}

#[test]
fn geometry_from_the_search_survives_it() {
    let mut state = state();
    let key = "eodata/store/A.SAFE".to_string();
    let pane = state.focused();
    let found = DataProduct { name: "A.SAFE".to_string(), ..product(&key) };
    let view = state.open_in(
        pane,
        ViewKind::Search(SearchState { results: vec![found], ..Default::default() }),
    );

    state.outlines.insert(key.clone());
    refresh(&mut state);
    assert_eq!(state.outlined.len(), 1, "контур из выдачи не нарисован");
    assert!(matches!(state.located.get(&key), Some(Located::Found(_))), "геометрия не в кэше");

    if let Some(ViewKind::Search(search)) = state.get_mut(view) {
        search.results.clear();
    }
    refresh(&mut state);
    assert_eq!(state.outlined.len(), 1, "контур моргнул вместе с выдачей");
    assert!(matches!(state.located.get(&key), Some(Located::Found(_))), "поехали спрашивать");
}

#[test]
fn the_checkbox_neither_draws_nor_asks() {
    let mut state = state();
    let pane = state.focused();
    let view = state.open_in(pane, ViewKind::Browse(BrowseState::default()));
    let key = "eodata/store/A.SAFE".to_string();

    toggle(&mut state, view, key.clone());
    refresh(&mut state);
    assert!(state.outlined.is_empty(), "у выбранного нашёлся контур");
    assert!(state.located.is_empty(), "за выбранным сходили в каталог");

    toggle_outline(&mut state, key.clone());
    assert!(
        matches!(state.located.get(&key), Some(Located::Asking)),
        "за контуром в каталог не пошли"
    );

    toggle_outline(&mut state, key.clone());
    assert!(!state.outlines.contains(&key), "контур не снялся");
}

#[test]
fn a_layer_without_a_contour_keeps_its_selection() {
    let mut state = state();
    let key = "eodata/store/A.SAFE".to_string();
    state.overlays.push(OverlayState::new(key.clone(), "A.SAFE".to_string(), false, None, Vec::new()));

    focus(&mut state, &key);
    assert_eq!(state.picked_key(), key, "наводка на слой его не выбрала");

    refresh(&mut state);
    assert_eq!(state.picked_key(), key, "выбор слоя погас на пересборке контуров");

    state.overlays.clear();
    refresh(&mut state);
    assert_eq!(state.picked_key(), "", "выбор пережил уход снимка с шара");
}

#[test]
fn walking_to_the_picked_row_keeps_its_ribbon() {
    let mut state = state();
    let pane = state.focused();
    let view = state.open_in(pane, ViewKind::Browse(BrowseState::default()));
    let key = "eodata/store/A.SAFE".to_string();
    state.outlined = vec![square(&key)];

    // The place 15, 15 lies in the only outline.
    pick(&mut state, vec![Some(7)]);
    assert_eq!(state.picked_key(), key);

    reveal_record(&mut state, view, key.clone());
    assert_eq!(state.picked_key(), key, "лента погасла под собственным переходом");
    assert_eq!(state.target_in(view), key);
}

#[test]
fn the_smallest_of_the_outlines_hit_is_picked() {
    let mut state = state();
    state.outlined = vec![square("a"), square("b"), square("c")];
    pick(&mut state, vec![Some(9), None, Some(3)]);
    assert_eq!(state.picked_key(), "c");
    pick(&mut state, vec![None, None, None]);
    assert_eq!(state.picked_key(), "");
}

#[test]
fn a_snapshot_is_asked_for_once() {
    let mut state = state();
    toggle_outline(&mut state, "eodata/store/A.SAFE".to_string());
    let asked = |state: &State| state.calls.iter().filter(|call| matches!(call, Call::Locate { .. })).count();
    assert_eq!(asked(&state), 1);
    refresh(&mut state);
    refresh(&mut state);
    assert_eq!(asked(&state), 1);
}

#[test]
fn an_answer_is_taken_down_as_it_came() {
    let key = "eodata/store/A.SAFE".to_string();
    let mut state = state();
    state.outlines.insert(key.clone());

    located(
        &mut state,
        key.clone(),
        LocateResponse { product: None, answered: false, error: "нет связи".to_string() },
    );
    assert!(matches!(state.located.get(&key), Some(Located::Failed)));
    assert_eq!(state.notice.as_deref(), Some("Контур не спросился: нет связи"));

    located(&mut state, key.clone(), LocateResponse { product: None, answered: true, error: String::new() });
    assert!(matches!(state.located.get(&key), Some(Located::Missing)));

    located(
        &mut state,
        key.clone(),
        LocateResponse { product: Some(product(&key)), answered: true, error: String::new() },
    );
    assert_eq!(state.outlined.len(), 1);
}

#[test]
fn a_second_refresh_changes_nothing() {
    let mut state = state();
    for key in ["b", "a", "c"] {
        state.outlines.insert(key.to_string());
    }
    state.located.insert("a".to_string(), Located::Found(product("a")));
    state.located.insert("b".to_string(), Located::Found(product("b")));
    refresh(&mut state);
    let keys = |state: &State| -> Vec<String> { state.outlined.iter().map(|one| one.key.clone()).collect() };
    assert_eq!(keys(&state), ["a", "b"]);
    assert!(matches!(&state.calls[..], [Call::Locate { identifier, .. }, Call::Outlines { .. }] if identifier == "c"));
    assert!(matches!(state.located.get("c"), Some(Located::Asking)));
    refresh(&mut state);
    assert_eq!(keys(&state), ["a", "b"]);
    assert!(matches!(&state.calls[2..], [Call::Outlines { outlines }] if outlines.len() == 2));
}
