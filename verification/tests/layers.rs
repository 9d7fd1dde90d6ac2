use data_browser::calls::{Call, Pair};
use data_browser::handlers::overlay::{
    clear_all, handed, on_handed, on_imagery_result, on_located, on_opened, on_overlay_progress, on_toggle_pressed,
    raster_handed, show, source_closed,
};
use data_browser::proto::{
    DataProduct, GeoPoint, ImageryRaster, ImageryResponse, ImageryRole, LayerProgress, LocateResponse,
    OverlaysProgress, Ring,
};
use data_browser::state::browse::BrowseState;
use data_browser::state::ids::ViewId;
use data_browser::state::overlay::{Handle, OverlayRole, Progress};
use data_browser::state::screen::ViewKind;
use data_browser::state::{Config, State};

fn state() -> State {
    match State::new(Config { initial_view: None }) {
        Ok(state) => state,
        Err(name) => panic!("{}", name),
    }
}

fn product(key: &str) -> DataProduct {
    DataProduct {
        identifier: key.to_string(),
        name: key.to_string(),
        footprint: vec![Ring { points: vec![GeoPoint { lat: 0, lon: 0 }] }],
        ..Default::default()
    }
}

fn file(id: u64) -> Handle {
    Handle { id, size: 1 }
}

fn raster(role: ImageryRole, name: &str, geolocation: &str) -> ImageryRaster {
    ImageryRaster { role, identifier: name.to_string(), geolocation: geolocation.to_string() }
}

fn rasters(rasters: Vec<ImageryRaster>) -> ImageryResponse {
    ImageryResponse { rasters, utm: None, reason: String::new(), error: String::new() }
}

/// A layer whose rasters were asked for, and the mark of the question.
fn asked(key: &str) -> (State, String) {
    let mut state = state();
    show(&mut state, &product(key), None);
    let mark = state.overlays[0].imagery.clone().expect("растры спрошены");
    state.calls.clear();
    (state, mark)
}

/// The marks of the questions for files, in order.
fn opens(state: &State) -> Vec<String> {
    state
        .calls
        .iter()
        .filter_map(|call| match call {
            Call::OpenRemote { correlation, .. } => Some(correlation.clone()),
            _ => None,
        })
        .collect()
}

#[test]
fn a_snapshot_is_laid_once() {
    let mut state = state();
    show(&mut state, &product("a"), None);
    show(&mut state, &product("a"), None);
    assert_eq!(state.overlays.len(), 1);
    assert_eq!(state.calls.iter().filter(|call| matches!(call, Call::Imagery { .. })).count(), 1);
    assert!(matches!(state.calls.last(), Some(Call::Outlines { .. })));
}

#[test]
fn a_layer_goes_from_its_rasters_to_the_globe() {
    let (mut state, mark) = asked("a");
    on_imagery_result(
        &mut state,
        &mark,
        rasters(vec![
            raster(ImageryRole::ImageryDetailed, "tci", "geo"),
            raster(ImageryRole::ImageryPreview, "ql", ""),
        ]),
    );
    let marks = opens(&state);
    assert_eq!(marks.len(), 3);
    for (at, mark) in marks.iter().enumerate() {
        assert!(on_opened(&mut state, mark, Some(file(at as u64))));
    }
    assert!(!on_opened(&mut state, &marks[0], Some(file(9))));
    let pairs = match state.calls.last() {
        Some(Call::HandOff { key, pairs }) if key == "a" => pairs.clone(),
        _ => panic!("растры не отданы"),
    };
    let roles: Vec<OverlayRole> = pairs.iter().map(|pair| pair.role).collect();
    assert_eq!(roles, [OverlayRole::OverlayPreview, OverlayRole::OverlayDetailed]);
    assert_eq!((pairs[0].raster, pairs[0].coordinates), (file(2), None));
    assert_eq!((pairs[1].raster, pairs[1].coordinates), (file(0), Some(file(1))));

    let given = pairs.iter().filter_map(|pair| handed(*pair, Some(pair.raster), pair.coordinates)).collect();
    on_handed(&mut state, "a", given);
    let layer = &state.overlays[0];
    assert_eq!(layer.progress, Progress { working: true, blank: true, ..Progress::default() });
    assert_eq!(layer.rasters.len(), 2);
    let sent = state.calls.iter().rev().find_map(|call| match call {
        Call::Overlays { overlays } => Some(overlays.len()),
        _ => None,
    });
    assert_eq!(sent, Some(1));
}

#[test]
fn no_opened_file_is_forgotten() {
    let (mut state, mark) = asked("a");
    on_imagery_result(&mut state, &mark, rasters(vec![raster(ImageryRole::ImageryDetailed, "tci", "geo")]));
    let marks = opens(&state);
    on_opened(&mut state, &marks[0], None);
    on_opened(&mut state, &marks[1], Some(file(5)));
    assert!(state.calls.iter().any(|call| matches!(call, Call::Release { handle } if *handle == file(5))));
    assert!(state.overlays.is_empty());
    assert_eq!(state.notice.as_deref(), Some("«a»: ни один растр не открылся"));

    let (mut state, mark) = asked("a");
    on_imagery_result(&mut state, &mark, rasters(vec![raster(ImageryRole::ImageryDetailed, "tci", "geo")]));
    let marks = opens(&state);
    on_opened(&mut state, &marks[0], Some(file(6)));
    clear_all(&mut state);
    assert!(state.calls.iter().any(|call| matches!(call, Call::Release { handle } if *handle == file(6))));
    assert!(on_opened(&mut state, &marks[1], Some(file(7))));
    assert!(matches!(state.calls.last(), Some(Call::Release { handle }) if *handle == file(7)));
}

#[test]
fn a_layer_that_cannot_be_laid_says_why() {
    let said = |response: ImageryResponse| {
        let (mut state, mark) = asked("a");
        on_imagery_result(&mut state, &mark, response);
        assert!(state.overlays.is_empty());
        state.notice.expect("причина сказана")
    };
    let none = || rasters(Vec::new());
    assert_eq!(said(none()), "«a»: нет растров для наложения");
    assert_eq!(said(ImageryResponse { reason: "архив".to_string(), ..none() }), "«a»: архив");
    assert_eq!(
        said(ImageryResponse { error: "HTTP 500".to_string(), ..none() }),
        "«a»: растры не спросились: HTTP 500"
    );

    let mut state = state();
    show(&mut state, &DataProduct { footprint: Vec::new(), ..product("b") }, None);
    let mark = state.overlays[0].imagery.clone().expect("растры спрошены");
    on_imagery_result(&mut state, &mark, rasters(vec![raster(ImageryRole::ImageryPreview, "ql", "")]));
    assert_eq!(state.notice.as_deref(), Some("«b»: без привязки: у продукта нет геометрии"));
}

#[test]
fn the_word_of_the_globe_is_taken_down() {
    let mut state = state();
    show(&mut state, &product("a"), None);
    show(&mut state, &product("b"), None);
    show(&mut state, &product("c"), None);
    let half = Progress { working: true, share: 0.5f32.to_bits(), ..Progress::default() };
    let word = |key: &str, trouble: &str, error: &str| LayerProgress {
        key: key.to_string(),
        progress: half,
        trouble: trouble.to_string(),
        error: error.to_string(),
    };
    on_overlay_progress(
        &mut state,
        OverlaysProgress { overlays: vec![word("a", "без координат", ""), word("b", "", "не лёг")] },
    );
    let keys: Vec<&str> = state.overlays.iter().map(|layer| layer.identifier.as_str()).collect();
    assert_eq!(keys, ["a", "c"]);
    assert_eq!((state.overlays[0].progress, state.overlays[0].trouble.as_str()), (half, "без координат"));
    assert_eq!(state.overlays[1].progress, Progress::default());
    assert_eq!(state.notice.as_deref(), Some("«b»: не лёг"));
}

#[test]
fn a_show_that_is_no_longer_wanted_lays_nothing() {
    let found = || LocateResponse { product: Some(product("a")), answered: true, error: String::new() };
    let mut state = state();
    let pane = state.focused();
    let view = state.open_in(pane, ViewKind::Browse(BrowseState::default()));
    on_toggle_pressed(&mut state, view, "a".to_string());
    on_toggle_pressed(&mut state, view, "a".to_string());
    on_located(&mut state, "a", found());
    assert!(state.overlays.is_empty());

    on_toggle_pressed(&mut state, view, "a".to_string());
    on_located(&mut state, "a", found());
    assert_eq!(state.overlays.len(), 1);
    assert!(!state.showing.contains("a"));

    on_toggle_pressed(&mut state, view, "b".to_string());
    on_located(
        &mut state,
        "b",
        LocateResponse { product: None, answered: true, error: "нет такого".to_string() },
    );
    assert_eq!(state.notice.as_deref(), Some("Показать на шаре не вышло: нет такого"));
}

#[test]
fn layers_leave_with_the_search_that_found_them() {
    let source = Some(ViewId { number: 3 });
    let mut state = state();
    show(&mut state, &product("a"), source);
    show(&mut state, &product("b"), None);
    source_closed(&mut state, ViewId { number: 3 });
    assert_eq!(state.overlays.len(), 1);
    assert_eq!(state.notice.as_deref(), Some("«a» снят с шара: его больше нет в выдаче"));
    show(&mut state, &product("c"), source);
    show(&mut state, &product("d"), source);
    source_closed(&mut state, ViewId { number: 3 });
    assert_eq!(state.notice.as_deref(), Some("2 снимка снято с шара: их больше нет в выдаче"));
}

#[test]
fn coordinates_do_not_outlive_a_raster_that_was_not_taken() {
    let mut state = state();
    let pair = Pair { role: OverlayRole::OverlayDetailed, raster: file(1), coordinates: Some(file(2)) };
    let waiting = state.calls.len();
    assert_eq!(raster_handed(&mut state, pair, Some(file(7))), Some(file(2)));
    assert_eq!(state.calls.len(), waiting);
    assert_eq!(raster_handed(&mut state, pair, None), None);
    assert!(matches!(&state.calls[waiting..], [Call::Release { handle }] if *handle == file(2)));

    let bare = Pair { coordinates: None, ..pair };
    assert_eq!(raster_handed(&mut state, bare, None), None);
    assert_eq!(raster_handed(&mut state, bare, Some(file(7))), None);
    assert_eq!(state.calls.len(), waiting + 1);
    assert!(handed(pair, None, None).is_none());
}
