use data_browser::calls::Call;
use data_browser::handlers::library::{
    on_delete_pressed, on_delete_snapshot, on_download_pressed, on_pause_snapshot, on_reveal_pressed, on_state,
};
use data_browser::handlers::listing::{on_group, on_page, on_sort};
use data_browser::handlers::outline::{drop_one, toggle_outline};
use data_browser::proto::{LibraryEntry, LibraryStateMsg, LibraryStatus};
use data_browser::state::browse::BrowseState;
use data_browser::state::listing::{Grouping, Sorting};
use data_browser::state::screen::ViewKind;
use data_browser::state::{Config, State};

fn state() -> State {
    match State::new(Config { initial_view: None }) {
        Ok(state) => state,
        Err(name) => panic!("{}", name),
    }
}

fn entry(name: &str, status: LibraryStatus, done: u64) -> LibraryEntry {
    LibraryEntry {
        name: name.to_string(),
        identifier: format!("p/A.SAFE/{}", name),
        product: "p/A.SAFE".to_string(),
        done,
        total: 100,
        status,
        modified: 0,
        siblings: 0,
        trouble: String::new(),
    }
}

fn with(entries: Vec<LibraryEntry>, now: i64, state: &mut State) {
    on_state(state, LibraryStateMsg { entries, error: String::new() }, now);
}

#[test]
fn a_press_without_a_name_asks_nothing() {
    let mut state = state();
    on_delete_pressed(&mut state, String::new());
    on_reveal_pressed(&mut state, String::new());
    on_download_pressed(&mut state, String::new(), "p".to_string());
    on_delete_snapshot(&mut state, String::new());
    assert!(state.calls.is_empty());
    on_reveal_pressed(&mut state, "a".to_string());
    assert!(matches!(&state.calls[0], Call::Reveal { name } if name == "a"));
}

#[test]
fn a_press_on_a_download_that_goes_is_a_pause() {
    let mut state = state();
    with(vec![entry("a", LibraryStatus::LibDownloading, 10)], 0, &mut state);
    on_download_pressed(&mut state, "p/A.SAFE/a".to_string(), "p/A.SAFE".to_string());
    assert!(matches!(&state.calls[0], Call::Pause { name } if name == "a"));
    with(vec![entry("a", LibraryStatus::LibPaused, 10)], 1, &mut state);
    on_download_pressed(&mut state, "p/A.SAFE/a".to_string(), "p/A.SAFE".to_string());
    assert!(matches!(&state.calls[1], Call::Download { product, .. } if product == "p/A.SAFE"));
}

#[test]
fn a_snapshot_is_paused_and_deleted_file_by_file() {
    let mut state = state();
    with(
        vec![entry("a", LibraryStatus::LibComplete, 100), entry("b", LibraryStatus::LibDownloading, 10)],
        0,
        &mut state,
    );
    on_pause_snapshot(&mut state, "p/A.SAFE".to_string());
    assert!(matches!(&state.calls[..], [Call::Pause { name }] if name == "b"));
    state.calls.clear();
    on_delete_snapshot(&mut state, "p/A.SAFE".to_string());
    let names: Vec<&str> = state
        .calls
        .iter()
        .map(|call| match call {
            Call::Delete { name } => name.as_str(),
            _ => panic!("не удаление"),
        })
        .collect();
    assert_eq!(names, ["a", "b"]);
}

#[test]
fn speed_is_told_by_two_states() {
    let mut state = state();
    with(vec![entry("a", LibraryStatus::LibDownloading, 10)], 100, &mut state);
    assert!(state.speed.is_none());
    with(vec![entry("a", LibraryStatus::LibDownloading, 40)], 100, &mut state);
    assert!(state.speed.is_none());
    with(vec![entry("a", LibraryStatus::LibDownloading, 70)], 103, &mut state);
    let speed = state.speed.expect("скорость измерена");
    assert_eq!((speed.bytes, speed.seconds), (60, 3));
    on_state(&mut state, LibraryStateMsg { entries: Vec::new(), error: "нет диска".to_string() }, 104);
    assert_eq!(state.error.as_deref(), Some("Library: нет диска"));
    assert_eq!(state.library.entries.len(), 1);
    with(Vec::new(), 105, &mut state);
    assert!(state.error.is_none() && state.speed.is_none() && state.measured.is_none());
}

#[test]
fn a_list_grouped_or_sorted_anew_starts_from_its_first_page() {
    let mut state = state();
    let pane = state.focused();
    let view = state.open_in(pane, ViewKind::Browse(BrowseState::default()));
    on_page(&mut state, view, 2);
    on_group(&mut state, view, Grouping::all()[1]);
    on_page(&mut state, view, 2);
    on_sort(&mut state, view, Sorting::Size);
    match state.get(view) {
        Some(ViewKind::Browse(browse)) => {
            assert_eq!(browse.listing.page, 0);
            assert_eq!(browse.listing.grouping, Grouping::all()[1]);
            assert_eq!(browse.listing.sorting, Sorting::Size);
        }
        _ => panic!("вкладка не каталог"),
    }
}

#[test]
fn an_outline_is_dropped_by_its_key() {
    let mut state = state();
    drop_one(&mut state, "a");
    assert!(state.calls.is_empty());
    toggle_outline(&mut state, "a".to_string());
    assert!(state.outlines.contains("a"));
    drop_one(&mut state, "a");
    assert!(!state.outlines.contains("a"));
    assert!(matches!(state.calls.last(), Some(Call::Outlines { outlines }) if outlines.is_empty()));
}
