use data_browser::calls::Call;
use data_browser::handlers::overlay::show;
use data_browser::handlers::search::{
    on_cloud, on_from, on_mission, on_period, on_query, on_search_result, on_to, run,
};
use data_browser::proto::{DataProduct, GeoPoint, Ring, SearchResponse};
use data_browser::state::ids::ViewId;
use data_browser::state::listing::Chosen;
use data_browser::state::screen::ViewKind;
use data_browser::state::search::{Cloud, Mission, Period, SearchState};
use data_browser::state::{Config, State};

fn searching() -> (State, ViewId) {
    let mut state = match State::new(Config { initial_view: None }) {
        Ok(state) => state,
        Err(name) => panic!("{}", name),
    };
    let pane = state.focused();
    let view = state.open_in(pane, ViewKind::Search(SearchState::default()));
    (state, view)
}

fn search(state: &State, view: ViewId) -> &SearchState {
    match state.get(view) {
        Some(ViewKind::Search(search)) => search,
        _ => panic!("вкладка не поиск"),
    }
}

fn product(key: &str) -> DataProduct {
    DataProduct {
        identifier: key.to_string(),
        footprint: vec![Ring { points: vec![GeoPoint { lat: 0, lon: 0 }] }],
        ..Default::default()
    }
}

fn mark(state: &State) -> String {
    match state.calls.last() {
        Some(Call::Search { correlation, .. }) => correlation.clone(),
        _ => panic!("каталог не спрошен"),
    }
}

#[test]
fn typing_asks_nothing_and_running_asks_once() {
    let (mut state, view) = searching();
    on_query(&mut state, view, "msil2a".to_string());
    on_from(&mut state, view, "2026-08-01".to_string());
    on_to(&mut state, view, "2026-08-13".to_string());
    assert!(state.calls.is_empty());
    run(&mut state, view, 0);
    assert!(
        matches!(&state.calls[0], Call::Search { name, from: 0, to: 0, max_cloud: None, .. } if name == "msil2a")
    );
    on_period(&mut state, view, Period::Custom, 0);
    assert!(
        matches!(state.calls.last(), Some(Call::Search { from: 1_785_542_400, to: 1_786_579_200, .. }))
    );
}

#[test]
fn a_radar_is_not_asked_about_clouds() {
    let (mut state, view) = searching();
    on_cloud(&mut state, view, Cloud::Tenth, 0);
    assert!(matches!(state.calls.last(), Some(Call::Search { max_cloud: Some(10), .. })));
    let radar = *Mission::all().iter().find(|mission| !mission.clouded()).expect("радар есть");
    on_mission(&mut state, view, radar, 0);
    assert_eq!(search(&state, view).cloud, Cloud::Any);
    assert!(matches!(state.calls.last(), Some(Call::Search { max_cloud: None, .. })));
}

#[test]
fn what_is_no_longer_found_leaves_the_globe_and_the_choice() {
    let (mut state, view) = searching();
    run(&mut state, view, 0);
    let asked = mark(&state);
    on_search_result(
        &mut state,
        &asked,
        SearchResponse { products: vec![product("a"), product("b")], error: String::new() },
    );
    assert_eq!(search(&state, view).results.len(), 2);
    show(&mut state, &product("a"), Some(view));
    show(&mut state, &product("b"), Some(view));
    for key in ["a", "b"] {
        if let Some(listing) = state.listing_mut(view) {
            listing.selected.insert(key.to_string(), Chosen::Snapshot);
        }
    }

    run(&mut state, view, 0);
    let asked = mark(&state);
    on_search_result(
        &mut state,
        &asked,
        SearchResponse { products: vec![product("b")], error: String::new() },
    );
    assert_eq!(state.overlays.len(), 1);
    assert_eq!(state.overlays[0].identifier, "b");
    let listing = &search(&state, view).listing;
    assert!(!listing.selected.contains_key("a") && listing.selected.contains_key("b"));
}

#[test]
fn a_refusal_takes_nothing_off_the_globe() {
    let (mut state, view) = searching();
    show(&mut state, &product("a"), Some(view));
    run(&mut state, view, 0);
    let asked = mark(&state);
    on_search_result(
        &mut state,
        &asked,
        SearchResponse { products: Vec::new(), error: "нет связи".to_string() },
    );
    assert_eq!(search(&state, view).error.as_deref(), Some("нет связи"));
    assert_eq!(state.overlays.len(), 1);
}

#[test]
fn an_answer_to_an_earlier_question_is_passed_over() {
    let (mut state, view) = searching();
    run(&mut state, view, 0);
    let old = mark(&state);
    run(&mut state, view, 0);
    on_search_result(
        &mut state,
        &old,
        SearchResponse { products: vec![product("a")], error: String::new() },
    );
    assert!(search(&state, view).results.is_empty());
}
