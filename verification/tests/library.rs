use data_browser::calls::Call;
use data_browser::handlers::library::{
    batch, deletions, fetches, on_delete_selected, on_download_selected, on_pause_snapshot, on_state, Fetch,
};
use data_browser::proto::{LibraryEntry, LibraryStateMsg, LibraryStatus};
use data_browser::state::browse::BrowseState;
use data_browser::state::ids::ViewId;
use data_browser::state::listing::Chosen;
use data_browser::state::screen::ViewKind;
use data_browser::state::{Config, Speed, State};

fn state() -> State {
    match State::new(Config { initial_view: None }) {
        Ok(state) => state,
        Err(name) => panic!("{}", name),
    }
}

fn entry(name: &str, product: &str, status: LibraryStatus) -> LibraryEntry {
    LibraryEntry {
        name: name.to_string(),
        identifier: format!("eodata/{}/{}", product, name),
        product: product.to_string(),
        done: 10,
        total: 10,
        status,
        modified: 0,
        siblings: 0,
        trouble: String::new(),
    }
}

fn chose(picked: Vec<(&str, Chosen)>, entries: Vec<LibraryEntry>) -> (State, ViewId) {
    let mut state = state();
    state.library.entries = entries;
    let pane = state.focused();
    let view = state.open_in(pane, ViewKind::Browse(BrowseState::default()));
    let listing = state.listing_mut(view).expect("список");
    for (key, what) in picked {
        listing.selected.insert(key.to_string(), what);
    }
    (state, view)
}

fn file(identifier: &str, name: &str) -> Chosen {
    Chosen::File { identifier: identifier.to_string(), product: String::new(), name: name.to_string() }
}

#[test]
fn a_snapshot_unfolds_into_its_own_files_and_only_once() {
    let (state, view) = chose(
        vec![
            ("S2B_X.SAFE", Chosen::Snapshot),
            ("eodata/S2B_X.SAFE/B1.TIF", file("eodata/S2B_X.SAFE/B1.TIF", "B1.TIF")),
        ],
        vec![
            entry("B1.TIF", "S2B_X.SAFE", LibraryStatus::LibComplete),
            entry("B2.TIF", "S2B_X.SAFE", LibraryStatus::LibComplete),
            entry("C1.TIF", "S2B_Y.SAFE", LibraryStatus::LibComplete),
        ],
    );

    assert_eq!(
        deletions(&state, view).0,
        vec!["B1.TIF".to_string(), "B2.TIF".to_string()],
        "оба файла снимка по разу, чужой не тронут"
    );
}

#[test]
fn a_file_downloaded_after_it_was_chosen_is_still_deleted() {
    let (state, view) = chose(
        vec![("eodata/lone/dem.tif", file("eodata/lone/dem.tif", ""))],
        vec![entry("dem.tif", "lone", LibraryStatus::LibComplete)],
    );

    assert_eq!(deletions(&state, view).0, vec!["dem.tif".to_string()]);
}

#[test]
fn nothing_on_disk_means_nothing_to_delete() {
    let (state, view) = chose(vec![("eodata/lone/dem.tif", file("eodata/lone/dem.tif", ""))], Vec::new());

    assert!(deletions(&state, view).0.is_empty());
}

#[test]
fn what_is_already_here_is_not_fetched_again() {
    let (state, view) = chose(
        vec![
            ("eodata/lone/done.tif", file("eodata/lone/done.tif", "done.tif")),
            ("eodata/lone/going.tif", file("eodata/lone/going.tif", "going.tif")),
            ("eodata/lone/new.tif", file("eodata/lone/new.tif", "")),
        ],
        vec![
            entry("done.tif", "lone", LibraryStatus::LibComplete),
            entry("going.tif", "lone", LibraryStatus::LibDownloading),
        ],
    );

    assert_eq!(
        fetches(&state, view),
        vec![Fetch::File { identifier: "eodata/lone/new.tif".to_string(), product: String::new() }]
    );
}

#[test]
fn a_whole_snapshot_is_not_fetched_again() {
    let whole = |files: u32, done: LibraryStatus| {
        let mut one = entry("B1.TIF", "S2B_X.SAFE", done);
        one.siblings = files;
        let mut two = entry("B2.TIF", "S2B_X.SAFE", LibraryStatus::LibComplete);
        two.siblings = files;
        vec![one, two]
    };

    let (state, view) =
        chose(vec![("S2B_X.SAFE", Chosen::Snapshot)], whole(2, LibraryStatus::LibComplete));
    assert!(fetches(&state, view).is_empty(), "снимок уже целиком на диске");

    let (state, view) =
        chose(vec![("S2B_X.SAFE", Chosen::Snapshot)], whole(3, LibraryStatus::LibComplete));
    assert_eq!(
        fetches(&state, view),
        vec![Fetch::Snapshot("S2B_X.SAFE".to_string())],
        "в снимке три файла, а на диске два"
    );
}

#[test]
fn a_file_without_a_provider_key_is_deleted_but_not_fetched() {
    let (state, view) = chose(
        vec![(
            "dem.tif",
            Chosen::File { identifier: String::new(), product: String::new(), name: "dem.tif".to_string() },
        )],
        Vec::new(),
    );

    assert_eq!(deletions(&state, view).0, vec!["dem.tif".to_string()]);
    assert!(fetches(&state, view).is_empty(), "закачка без ключа никуда не поедет");
}

#[test]
fn an_interrupted_file_is_picked_up_again() {
    let (state, view) = chose(
        vec![("eodata/lone/half.tif", file("eodata/lone/half.tif", "half.tif"))],
        vec![entry("half.tif", "lone", LibraryStatus::LibPaused)],
    );

    assert_eq!(
        fetches(&state, view),
        vec![Fetch::File { identifier: "eodata/lone/half.tif".to_string(), product: String::new() }]
    );
}

#[test]
fn a_snapshot_never_walked_is_worth_fetching() {
    let (state, view) = chose(vec![("S2B_X.SAFE", Chosen::Snapshot)], Vec::new());

    assert_eq!(fetches(&state, view), vec![Fetch::Snapshot("S2B_X.SAFE".to_string())]);
}

#[test]
fn the_buttons_answer_for_what_the_action_will_do() {
    let (state, view) = chose(
        vec![("eodata/lone/done.tif", file("eodata/lone/done.tif", "done.tif"))],
        vec![entry("done.tif", "lone", LibraryStatus::LibComplete)],
    );
    let can = batch(&state, view);
    assert!(can.deletable && !can.fetchable);

    let (state, view) = chose(vec![("S2B_X.SAFE", Chosen::Snapshot)], Vec::new());
    let can = batch(&state, view);
    assert!(!can.deletable && can.fetchable);
}

#[test]
fn deleting_drops_the_file_from_the_choice_and_keeps_the_snapshot() {
    let (mut state, view) = chose(
        vec![
            ("S2B_X.SAFE", Chosen::Snapshot),
            ("eodata/lone/dem.tif", file("eodata/lone/dem.tif", "dem.tif")),
        ],
        vec![entry("dem.tif", "lone", LibraryStatus::LibComplete)],
    );

    on_delete_selected(&mut state, view);

    let listing = state.get(view).and_then(ViewKind::listing).expect("список");
    assert!(listing.selected.contains_key("S2B_X.SAFE"), "снимок ушёл из выбора");
    assert!(!listing.selected.contains_key("eodata/lone/dem.tif"), "файл остался в выборе");
}

#[test]
fn a_chosen_file_goes_straight_to_the_downloads() {
    let (mut state, view) =
        chose(vec![("eodata/lone/new.tif", file("eodata/lone/new.tif", ""))], Vec::new());
    on_download_selected(&mut state, view);
    assert_eq!(state.calls.len(), 1);
    assert!(
        matches!(&state.calls[0], Call::Download { identifier, product } if identifier == "eodata/lone/new.tif" && product.is_empty())
    );
}

#[test]
fn pausing_a_snapshot_pauses_what_goes_on_of_it() {
    let mut state = state();
    state.library.entries = vec![
        entry("B1.TIF", "S2B_X.SAFE", LibraryStatus::LibDownloading),
        entry("B2.TIF", "S2B_X.SAFE", LibraryStatus::LibComplete),
        entry("C1.TIF", "S2B_Y.SAFE", LibraryStatus::LibDownloading),
    ];
    on_pause_snapshot(&mut state, "S2B_X.SAFE".to_string());
    assert_eq!(state.calls.len(), 1);
    assert!(matches!(&state.calls[0], Call::Pause { name } if name == "B1.TIF"));
}

#[test]
fn a_speed_is_measured_between_two_states() {
    let told = |done: u64| LibraryStateMsg {
        entries: vec![LibraryEntry { done, ..entry("B1.TIF", "S2B_X.SAFE", LibraryStatus::LibDownloading) }],
        error: String::new(),
    };
    let mut state = state();
    on_state(&mut state, told(100), 10);
    assert_eq!(state.speed, None);
    on_state(&mut state, told(700), 13);
    assert_eq!(state.speed, Some(Speed { bytes: 600, seconds: 3 }));
    on_state(&mut state, told(900), 13);
    assert_eq!(state.speed, Some(Speed { bytes: 600, seconds: 3 }));

    on_state(&mut state, LibraryStateMsg { entries: Vec::new(), error: "нет связи".to_string() }, 20);
    assert_eq!(state.error.as_deref(), Some("Library: нет связи"));
    assert_eq!(state.library.entries.len(), 1);
    on_state(&mut state, LibraryStateMsg { entries: Vec::new(), error: String::new() }, 21);
    assert_eq!(state.error, None);
    assert_eq!(state.speed, None);
}
