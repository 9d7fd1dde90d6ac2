use data_browser::components::row::{OnOutline, RowKind, RowStatus};
use data_browser::components::rows::{from_key, outlined};
use data_browser::proto::{DataProduct, GeoPoint, LibraryEntry, LibraryStatus, Ring};
use data_browser::state::globe::{Located, Outlined};
use data_browser::state::{Config, State};

const KEY: &str = "eodata/store/A.SAFE";

fn state() -> State {
    match State::new(Config { initial_view: None }) {
        Ok(state) => state,
        Err(name) => panic!("{}", name),
    }
}

fn answer(geometry: bool) -> Located {
    let footprint = match geometry {
        false => Vec::new(),
        true => vec![Ring { points: vec![GeoPoint { lat: 10.0f64.to_bits(), lon: 10.0f64.to_bits() }] }],
    };
    Located::Found(DataProduct { identifier: KEY.to_string(), footprint, ..Default::default() })
}

fn drawn() -> Outlined {
    Outlined { key: KEY.to_string(), label: "A.SAFE".to_string(), folder: false, rings: Vec::new() }
}

#[test]
fn the_outline_icon_tells_the_request_from_the_drawing() {
    let mut state = state();
    assert_eq!(outlined(&state, KEY), OnOutline::Off, "очертить не просили");
    assert_eq!(outlined(&state, ""), OnOutline::Off, "адресовать нечем");

    state.outlines.insert(KEY.to_string());
    assert_eq!(outlined(&state, KEY), OnOutline::Asking, "запрос уходит этой же пересборкой");

    state.located.insert(KEY.to_string(), Located::Asking);
    assert_eq!(outlined(&state, KEY), OnOutline::Asking);

    state.located.insert(KEY.to_string(), Located::Failed);
    assert_eq!(outlined(&state, KEY), OnOutline::Failed, "сеть — не ответ про снимок");

    state.located.insert(KEY.to_string(), Located::Missing);
    assert_eq!(outlined(&state, KEY), OnOutline::Blank, "каталог такого не знает");

    state.located.insert(KEY.to_string(), answer(false));
    assert_eq!(outlined(&state, KEY), OnOutline::Blank, "знает, а геометрии нет");

    state.outlined.push(drawn());
    assert_eq!(outlined(&state, KEY), OnOutline::Drawn);
}

#[test]
fn a_catalogue_row_knows_its_outline_too() {
    let mut state = state();
    state.outlines.insert(KEY.to_string());
    state.outlined.push(drawn());

    let row = from_key(
        &state,
        format!("{}/", KEY),
        "A.SAFE".to_string(),
        0,
        0,
        RowKind::Product { folder: true },
        KEY.to_string(),
    );

    assert_eq!(row.outlined, OnOutline::Drawn, "строка каталога не знает про контур");
}

#[test]
fn a_catalogue_snapshot_says_it_is_downloading() {
    let file = |name: &str, status: LibraryStatus, done: u64| LibraryEntry {
        name: name.to_string(),
        identifier: format!("{}/{}", KEY, name),
        product: KEY.to_string(),
        done,
        total: done,
        status,
        modified: 0,
        siblings: 0,
        trouble: String::new(),
    };
    let row = |state: &State| {
        from_key(
            state,
            format!("{}/", KEY),
            "A.SAFE".to_string(),
            1000,
            0,
            RowKind::Product { folder: true },
            KEY.to_string(),
        )
    };

    let mut state = state();
    state.library.entries =
        vec![file("B1.TIF", LibraryStatus::LibComplete, 10), file("B2.TIF", LibraryStatus::LibDownloading, 5)];
    match row(&state).status {
        RowStatus::Downloading { done, total } => {
            assert_eq!((done, total), (15, 1000), "полосе нечем считаться");
        }
        _ => panic!("качающийся снимок назван не тем"),
    }

    state.library.entries =
        vec![file("B1.TIF", LibraryStatus::LibComplete, 10), file("B2.TIF", LibraryStatus::LibPaused, 5)];
    assert!(matches!(row(&state).status, RowStatus::Partial { done: 2, .. }));

    state.library.entries = Vec::new();
    assert!(matches!(row(&state).status, RowStatus::Remote));
}

#[test]
fn a_known_geometry_is_as_good_as_drawn() {
    let mut state = state();
    state.outlines.insert(KEY.to_string());
    state.located.insert(KEY.to_string(), answer(true));
    assert_eq!(outlined(&state, KEY), OnOutline::Drawn);
}
