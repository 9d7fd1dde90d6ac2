use data_browser::calls::Call;
use data_browser::handlers::persist::{
    load, on_read_result, on_write_result, on_writing, remember, restore, save_if_changed, snapshot, Read, Saved,
    SavedNode, SavedTab,
};
use data_browser::state::browse::BrowseState;
use data_browser::state::overlay::Handle;
use data_browser::state::screen::ViewKind;
use data_browser::state::side::Side;
use data_browser::state::{Config, State};

fn state() -> State {
    match State::new(Config { initial_view: None }) {
        Ok(state) => state,
        Err(name) => panic!("{}", name),
    }
}

#[test]
fn layout_survives_a_round_trip() {
    let mut before = state();
    let left = before.focused();
    let right = before.split_pane(left, Side::Right, 0.3f32.to_bits()).expect("панель заведена");
    let under = before.split_pane(right, Side::Below, 0.75f32.to_bits()).expect("панель заведена");
    before.open_in(left, ViewKind::Browse(BrowseState::default()));
    before.open_in(left, ViewKind::Empty);
    before.open_in(right, ViewKind::Globe(Default::default()));
    before.open_in(under, ViewKind::Shown);
    let first = before.views_in(left).first().expect("вкладка").id;
    before.focus(first);

    let body = snapshot(&before);

    let mut after = state();
    restore(&mut after, &body, 0);

    assert_eq!(after.layout().count(), 3);
    assert_eq!(snapshot(&after), body, "раскладка после чтения не та же");
}

#[test]
fn a_second_singleton_is_dropped() {
    let mut restored = state();
    let saved = Saved {
        root: SavedNode::Pane {
            tabs: vec![SavedTab::Globe, SavedTab::Globe, SavedTab::Shown],
            active: 0,
        },
        focus: 0,
    };
    restore(&mut restored, &saved, 0);
    assert_eq!(restored.views().len(), 2);
}

#[test]
fn a_layout_is_written_only_when_it_changed() {
    let mut state = state();
    remember(&mut state, 5);
    save_if_changed(&mut state, vec![1, 2], 5);
    assert!(state.calls.is_empty());
    save_if_changed(&mut state, vec![1, 2], 6);
    assert_eq!(state.calls.len(), 1);
    assert!(matches!(&state.calls[0], Call::WriteLayout { body, .. } if body == &vec![1, 2]));
    save_if_changed(&mut state, vec![1, 2], 6);
    assert_eq!(state.calls.len(), 1);
}

#[test]
fn only_the_answer_that_was_asked_for_is_read() {
    let mut state = state();
    load(&mut state);
    let asked = match &state.calls[0] {
        Call::ReadLayout { correlation, .. } => correlation.clone(),
        _ => panic!("раскладку не спросили"),
    };
    assert!(matches!(on_read_result(&mut state, "чужой", None, 0), Read::Stale));
    let saved = Saved {
        root: SavedNode::Pane { tabs: vec![SavedTab::Downloaded], active: 0 },
        focus: 0,
    };
    assert!(matches!(on_read_result(&mut state, &asked, Some(saved), 0), Read::Restored));
    assert_eq!(state.views().len(), 1);
    assert!(matches!(on_read_result(&mut state, &asked, None, 0), Read::Stale));
}

#[test]
fn the_memory_of_a_written_layout_is_let_go_once() {
    let mut state = state();
    let memory = Handle { id: 4, size: 2 };
    on_writing(&mut state, "7".to_string(), memory);
    on_write_result(&mut state, "8");
    assert!(state.calls.is_empty());
    on_write_result(&mut state, "7");
    assert!(matches!(state.calls[..], [Call::Release { handle }] if handle == memory));
    on_write_result(&mut state, "7");
    assert_eq!(state.calls.len(), 1);
}
