use data_browser::calls::Call;
use data_browser::handlers::browse::{on_enter, on_list_path_result, on_up, request_children, reveal_record, MAX_ITEMS};
use data_browser::handlers::listing::{on_expand, on_filter, on_menu, on_page, on_query};
use data_browser::proto::{ListEntry, ListPathResponse};
use data_browser::state::browse::BrowseState;
use data_browser::state::ids::ViewId;
use data_browser::state::listing::{Filter, Menu};
use data_browser::state::screen::ViewKind;
use data_browser::state::{Config, State};

fn catalogue() -> (State, ViewId) {
    let mut state = match State::new(Config { initial_view: None }) {
        Ok(state) => state,
        Err(name) => panic!("{}", name),
    };
    let pane = state.focused();
    let view = state.open_in(pane, ViewKind::Browse(BrowseState::default()));
    (state, view)
}

fn browse(state: &State, view: ViewId) -> &BrowseState {
    match state.get(view) {
        Some(ViewKind::Browse(browse)) => browse,
        _ => panic!("вкладка не каталог"),
    }
}

fn mark(state: &State) -> String {
    match state.calls.last() {
        Some(Call::ListPath { correlation, .. }) => correlation.clone(),
        _ => panic!("листинг не спрошен"),
    }
}

fn line(key: &str) -> ListEntry {
    ListEntry {
        key: key.to_string(),
        size: 1,
        modified: 2,
        product: String::new(),
        unviewable: String::new(),
    }
}

fn page(keys: &[&str], token: &str) -> ListPathResponse {
    ListPathResponse {
        entries: keys.iter().map(|key| line(key)).collect(),
        next_token: token.to_string(),
        error: String::new(),
    }
}

#[test]
fn up_undoes_the_way_down() {
    let (mut state, view) = catalogue();
    on_enter(&mut state, view, "eodata/".to_string());
    on_enter(&mut state, view, "eodata/Sentinel-2".to_string());
    assert_eq!(browse(&state, view).current_path, "eodata/Sentinel-2/");
    on_up(&mut state, view);
    assert_eq!(browse(&state, view).current_path, "eodata/");
    on_up(&mut state, view);
    on_up(&mut state, view);
    assert_eq!(browse(&state, view).current_path, "");
}

#[test]
fn a_folder_comes_page_by_page() {
    let (mut state, view) = catalogue();
    on_enter(&mut state, view, "p/".to_string());
    let asked = mark(&state);
    on_list_path_result(&mut state, asked.clone(), page(&["p/a/", "p/b"], "дальше"));
    assert_eq!(mark(&state), asked);
    assert!(matches!(state.calls.last(), Some(Call::ListPath { token, .. }) if token == "дальше"));
    on_list_path_result(&mut state, asked.clone(), page(&["p/c"], ""));
    let shown = browse(&state, view);
    let names: Vec<&str> = shown.items.iter().map(|item| item.name.as_str()).collect();
    assert_eq!(names, ["a", "b", "c"]);
    assert!(shown.items[0].is_folder && !shown.items[1].is_folder);

    let before = state.calls.len();
    on_list_path_result(&mut state, asked, page(&["p/d"], ""));
    assert_eq!(browse(&state, view).items.len(), 3);
    assert_eq!(state.calls.len(), before);
}

#[test]
fn an_answer_for_a_folder_that_was_left_is_passed_over() {
    let (mut state, view) = catalogue();
    on_enter(&mut state, view, "p/".to_string());
    let old = mark(&state);
    on_enter(&mut state, view, "q/".to_string());
    on_list_path_result(&mut state, old, page(&["p/a"], ""));
    assert!(browse(&state, view).items.is_empty());
}

#[test]
fn a_refusal_is_shown_and_leaves_no_records() {
    let (mut state, view) = catalogue();
    on_enter(&mut state, view, "p/".to_string());
    let asked = mark(&state);
    on_list_path_result(
        &mut state,
        asked,
        ListPathResponse { entries: Vec::new(), next_token: String::new(), error: "HTTP 403".to_string() },
    );
    assert_eq!(browse(&state, view).error.as_deref(), Some("HTTP 403"));
}

#[test]
fn a_folder_without_an_end_is_cut_and_said_to_be() {
    let (mut state, view) = catalogue();
    on_enter(&mut state, view, "p/".to_string());
    let asked = mark(&state);
    let entries = (0..MAX_ITEMS).map(|at| line(&format!("p/{}", at))).collect();
    on_list_path_result(
        &mut state,
        asked,
        ListPathResponse { entries, next_token: "дальше".to_string(), error: String::new() },
    );
    assert_eq!(state.notice.as_deref(), Some("Показаны первые 1000 записей папки"));
}

#[test]
fn the_contents_of_a_row_are_asked_for_once() {
    let (mut state, view) = catalogue();
    on_expand(&mut state, view, "p/day/".to_string());
    assert_eq!(state.calls.len(), 1);
    let asked = mark(&state);
    on_expand(&mut state, view, "p/day/".to_string());
    on_expand(&mut state, view, "p/day/".to_string());
    request_children(&mut state, view, "p/day".to_string());
    assert_eq!(state.calls.len(), 1);
    on_list_path_result(&mut state, asked, page(&["p/day/one"], ""));
    assert_eq!(browse(&state, view).children.get("p/day/").len(), 1);
}

#[test]
fn a_row_that_did_not_open_is_asked_for_again() {
    let (mut state, view) = catalogue();
    on_expand(&mut state, view, "p/day/".to_string());
    let asked = mark(&state);
    on_list_path_result(
        &mut state,
        asked,
        ListPathResponse { entries: Vec::new(), next_token: String::new(), error: "нет связи".to_string() },
    );
    assert_eq!(state.notice.as_deref(), Some("Папка не раскрылась: нет связи"));
    request_children(&mut state, view, "p/day/".to_string());
    assert_eq!(state.calls.len(), 2);
}

#[test]
fn a_list_narrowed_anew_starts_from_its_first_page() {
    let (mut state, view) = catalogue();
    on_page(&mut state, view, 3);
    on_menu(&mut state, view, Some(Menu::Filter));
    assert!(state.open.is_some());
    on_filter(&mut state, view, Filter::all()[1]);
    assert!(state.open.is_none());
    assert_eq!(browse(&state, view).listing.page, 0);
    on_page(&mut state, view, 3);
    on_query(&mut state, view, "s2a".to_string());
    assert_eq!(browse(&state, view).listing.page, 0);
    assert_eq!(browse(&state, view).listing.query, "s2a");
}

#[test]
fn a_record_hidden_by_the_filter_is_said_to_be() {
    let (mut state, view) = catalogue();
    on_query(&mut state, view, "нет такого".to_string());
    reveal_record(&mut state, view, "p/a".to_string());
    assert_eq!(browse(&state, view).current_path, "p/");
    let asked = mark(&state);
    on_list_path_result(&mut state, asked, page(&["p/a"], ""));
    assert_eq!(state.notice.as_deref(), Some("Строка есть в папке, но её скрыл отбор"));
}
