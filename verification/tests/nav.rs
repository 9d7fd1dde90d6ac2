use data_browser::calls::Call;
use data_browser::handlers::nav::{
    bootstrap, on_new_globe, on_new_tab, on_tab_close, on_tab_menu, on_tab_move, on_tab_options, on_tab_select,
    on_tab_split, on_tab_unsplit, singleton,
};
use data_browser::handlers::window::{on_window_resized, Window};
use data_browser::message::NewTab;
use data_browser::state::browse::BrowseState;
use data_browser::state::screen::ViewKind;
use data_browser::state::side::Side;
use data_browser::state::{Config, Open, State};

fn state() -> State {
    match State::new(Config { initial_view: None }) {
        Ok(state) => state,
        Err(name) => panic!("{}", name),
    }
}

#[test]
fn an_unknown_first_tab_is_refused_by_its_name() {
    let named = |name: &str| State::new(Config { initial_view: Some(name.to_string()) });
    match named("nowhere") {
        Err(name) => assert_eq!(name, "nowhere"),
        Ok(_) => panic!("такой вкладки нет"),
    }
    match named("downloaded") {
        Ok(state) => assert_eq!(state.start, NewTab::Downloaded),
        Err(name) => panic!("{}", name),
    }
}

#[test]
fn a_new_tab_asks_for_what_it_shows() {
    let mut state = state();
    let pane = state.focused();
    on_new_tab(&mut state, pane, NewTab::Browse, 0);
    assert!(
        matches!(state.calls.last(), Some(Call::ListPath { path, recursive: false, .. }) if path.is_empty())
    );
    on_new_tab(&mut state, pane, NewTab::Search, 0);
    assert!(matches!(state.calls.last(), Some(Call::Search { .. })));
    on_new_tab(&mut state, pane, NewTab::Downloaded, 0);
    assert!(matches!(state.calls.last(), Some(Call::ListLibrary)));
    assert_eq!(state.views().len(), 3);
}

#[test]
fn of_some_tabs_there_are_never_two() {
    let mut state = state();
    let pane = state.focused();
    on_new_globe(&mut state);
    let globe = singleton(&state, NewTab::Globe).expect("глобус открыт");
    on_new_tab(&mut state, pane, NewTab::Empty, 0);
    assert_ne!(state.active_in(pane), Some(globe));
    on_new_tab(&mut state, pane, NewTab::Globe, 0);
    assert_eq!(state.views().len(), 2);
    assert_eq!(state.active_in(pane), Some(globe));
    assert_eq!(singleton(&state, NewTab::Browse), None);
}

#[test]
fn a_tab_is_split_off_and_panes_are_brought_together() {
    let mut state = state();
    let pane = state.focused();
    let first = state.open_in(pane, ViewKind::Browse(BrowseState::default()));
    let second = state.open_in(pane, ViewKind::Empty);
    on_tab_split(&mut state, second, Side::Right);
    assert_eq!(state.layout().count(), 2);
    assert_eq!(state.views_in(pane).len(), 1);
    on_tab_move(&mut state, second);
    assert_eq!(state.views().len(), 2);
    on_tab_select(&mut state, first);
    on_tab_unsplit(&mut state);
    assert_eq!(state.layout().count(), 1);
    assert_eq!(state.views().len(), 2);
}

#[test]
fn a_closed_tab_is_gone() {
    let mut state = state();
    let pane = state.focused();
    let view = state.open_in(pane, ViewKind::Empty);
    on_tab_close(&mut state, view);
    assert!(state.get(view).is_none());
    assert_eq!(state.views().len(), 0);
    assert_eq!(state.layout().count(), 1);
}

#[test]
fn one_menu_is_open_at_a_time() {
    let mut state = state();
    let pane = state.focused();
    let view = state.open_in(pane, ViewKind::Empty);
    on_tab_menu(&mut state, Some(pane));
    assert!(matches!(state.open, Some(Open::NewTabs(_))));
    on_tab_options(&mut state, Some(view));
    assert!(matches!(state.open, Some(Open::Tab(_))));
    on_tab_options(&mut state, None);
    assert!(state.open.is_none());
}

#[test]
fn the_first_word_of_the_window_asks_for_what_tabs_live_by() {
    let mut state = state();
    let pane = state.focused();
    state.open_in(pane, ViewKind::Browse(BrowseState::default()));
    let mut window = Window { width: 0, height: 0 };
    on_window_resized(&mut state, &mut window, 800, 600);
    assert_eq!(window, Window { width: 800, height: 600 });
    assert!(matches!(state.calls[0], Call::ListLibrary));
    assert!(matches!(state.calls[1], Call::ListPath { .. }));
    assert_eq!(state.calls.len(), 2);
    on_window_resized(&mut state, &mut window, 900, 600);
    assert_eq!(state.calls.len(), 2);
    bootstrap(&mut state);
    assert_eq!(state.calls.len(), 4);
}

#[test]
fn an_open_tab_comes_into_the_pane_it_was_asked_for_in() {
    let mut state = state();
    let left = state.focused();
    on_new_tab(&mut state, left, NewTab::Downloaded, 0);
    let downloaded = singleton(&state, NewTab::Downloaded).expect("скачанное открыто");
    on_new_tab(&mut state, left, NewTab::Empty, 0);
    let empty = state.active_in(left).expect("пустая вкладка");
    on_tab_split(&mut state, empty, Side::Right);
    let right = state.focused();
    assert_ne!(left, right);

    let asked = state.calls.len();
    on_new_tab(&mut state, right, NewTab::Downloaded, 0);
    assert_eq!(state.calls.len(), asked);
    assert_eq!(state.views().len(), 2);
    assert_eq!(state.focused(), right);
    assert_eq!(state.active_in(right), Some(downloaded));
    assert!(state.views_in(left).is_empty());

    on_new_tab(&mut state, left, NewTab::Browse, 0);
    on_new_tab(&mut state, left, NewTab::Browse, 0);
    assert_eq!(state.views_in(left).len(), 2);
    let roots = state.calls[asked..]
        .iter()
        .filter(|call| matches!(call, Call::ListPath { path, .. } if path.is_empty()))
        .count();
    assert_eq!(roots, 2);
}
