use data_browser::calls::Call;
use data_browser::handlers::globe;
use data_browser::handlers::preview;
use data_browser::message::{PointerAction, PointerEvent, ViewportSize};
use data_browser::proto::{ImageryRaster, ImageryResponse, ImageryRole};
use data_browser::state::browse::BrowseState;
use data_browser::state::globe::{Outlined, Surface};
use data_browser::state::ids::ViewId;
use data_browser::state::overlay::Handle;
use data_browser::state::preview::{PreviewState, ViewState};
use data_browser::state::screen::ViewKind;
use data_browser::state::{Config, State};

fn state() -> State {
    match State::new(Config { initial_view: None }) {
        Ok(state) => state,
        Err(name) => panic!("{}", name),
    }
}

fn at(action: PointerAction, x: f32, y: f32) -> PointerEvent {
    PointerEvent { action, x: x.to_bits(), y: y.to_bits(), button: 1, scroll_y: 0 }
}

fn place() -> Option<Surface> {
    Some(Surface { id: 1, width: 400, height: 300 })
}

fn with_globe() -> (State, ViewId) {
    let mut state = state();
    let pane = state.focused();
    let view = state.open_in(pane, ViewKind::Globe(Default::default()));
    globe::on_resized(&mut state, ViewportSize { width: 400, height: 300 });
    assert!(matches!(state.calls.pop(), Some(Call::PlaceGlobe { width: 400, height: 300, .. })));
    globe::on_placed(&mut state, view, place());
    (state, view)
}

#[test]
fn a_globe_of_the_same_size_keeps_its_place() {
    let (mut state, _) = with_globe();
    globe::on_resized(&mut state, ViewportSize { width: 400, height: 300 });
    assert!(state.calls.is_empty());
}

#[test]
fn a_press_that_stays_is_a_click_and_one_that_goes_is_a_turn() {
    let (mut state, _) = with_globe();
    state.outlined =
        vec![Outlined { key: "a".to_string(), label: String::new(), folder: false, rings: Vec::new() }];
    globe::on_pointer(&mut state, at(PointerAction::Pressed, 10.0, 10.0), 0);
    globe::on_pointer(&mut state, at(PointerAction::Moved, 12.0, 11.0), 3.0f32.to_bits());
    globe::on_pointer(&mut state, at(PointerAction::Released, 12.0, 11.0), 0);
    assert!(matches!(state.calls[0], Call::Orbit { height: 300, .. }));
    let asked = match &state.calls[1] {
        Call::Probe { correlation, width: 400, height: 300, .. } => correlation.clone(),
        _ => panic!("щелчок не спросил места"),
    };
    globe::on_probed(&mut state, "чужой", vec![Some(1)]);
    assert_eq!(state.picked_key(), "");
    globe::on_probed(&mut state, &asked, vec![Some(1)]);
    assert_eq!(state.picked_key(), "a");

    let before = state.calls.len();
    globe::on_pointer(&mut state, at(PointerAction::Pressed, 10.0, 10.0), 0);
    globe::on_pointer(&mut state, at(PointerAction::Moved, 30.0, 10.0), 20.0f32.to_bits());
    globe::on_pointer(&mut state, at(PointerAction::Released, 30.0, 10.0), 0);
    assert_eq!(state.calls.len(), before + 1);
}

#[test]
fn a_wheel_brings_the_globe_nearer() {
    let (mut state, _) = with_globe();
    let turned = PointerEvent { scroll_y: 1.5f32.to_bits(), ..at(PointerAction::Scrolled, 0.0, 0.0) };
    globe::on_pointer(&mut state, turned, 0);
    assert!(matches!(state.calls[0], Call::GlobeZoom { delta } if delta == 1.5f32.to_bits()));
    globe::on_pointer(&mut state, at(PointerAction::Scrolled, 0.0, 0.0), 0);
    assert_eq!(state.calls.len(), 1);
}

fn with_preview() -> (State, ViewId) {
    let mut state = state();
    let pane = state.focused();
    let view = state.open_in(pane, ViewKind::Preview(PreviewState::new("a.tif".to_string(), None)));
    preview::on_placed(&mut state, view, place());
    (state, view)
}

#[test]
fn a_picture_is_dragged_and_scaled() {
    let (mut state, view) = with_preview();
    preview::on_pointer(&mut state, view, at(PointerAction::Moved, 5.0, 5.0));
    assert!(state.calls.is_empty());
    preview::on_pointer(&mut state, view, at(PointerAction::Pressed, 5.0, 5.0));
    preview::on_pointer(&mut state, view, at(PointerAction::Moved, 5.0, 5.0));
    assert!(state.calls.is_empty());
    preview::on_pointer(&mut state, view, at(PointerAction::Moved, 8.0, 5.0));
    assert!(
        matches!(&state.calls[0], Call::Pan { from, to, .. } if from.x == 5.0f32.to_bits() && to.x == 8.0f32.to_bits())
    );
    preview::on_pointer(&mut state, view, at(PointerAction::Released, 8.0, 5.0));
    preview::on_pointer(&mut state, view, at(PointerAction::Moved, 9.0, 5.0));
    assert_eq!(state.calls.len(), 1);

    preview::on_fit(&mut state, view);
    preview::on_zoom_step(&mut state, view, 1.0f32.to_bits());
    preview::on_zoom_step(&mut state, view, (-1.0f32).to_bits());
    assert!(matches!(state.calls[1], Call::Fit { .. }));
    assert!(matches!(state.calls[2], Call::ZoomStep { width: 400, height: 300, closer: true, .. }));
    assert!(matches!(state.calls[3], Call::ZoomStep { closer: false, .. }));
}

#[test]
fn a_complaint_of_the_canvas_is_answered_once() {
    let (mut state, view) = with_preview();
    let told = |needs_place: bool| ViewState { view: view.to_text(), needs_place };
    preview::on_view_state(&mut state, told(true));
    assert!(matches!(state.calls[0], Call::PlacePreview { width: 400, height: 300, .. }));
    preview::on_view_state(&mut state, told(true));
    assert_eq!(state.calls.len(), 1);
    preview::on_view_state(&mut state, told(false));
    preview::on_view_state(&mut state, told(true));
    assert_eq!(state.calls.len(), 2);
    preview::on_view_state(&mut state, ViewState { view: "не число".to_string(), needs_place: true });
    assert_eq!(state.calls.len(), 2);
}

fn listed() -> (State, ViewId) {
    let mut state = state();
    let pane = state.focused();
    let view = state.open_in(pane, ViewKind::Browse(BrowseState::default()));
    (state, view)
}

fn shown(state: &State) -> (ViewId, &PreviewState) {
    for tab in state.views() {
        if let ViewKind::Preview(preview) = &tab.kind {
            return (tab.id, preview);
        }
    }
    panic!("просмотр не открыт")
}

#[test]
fn an_opened_file_is_given_to_the_canvas_and_then_shown() {
    let (mut state, from) = listed();
    preview::on_view_local_pressed(&mut state, from, "dem.tif".to_string());
    let asked = match state.calls.last() {
        Some(Call::OpenLocal { name, correlation }) if name == "dem.tif" => correlation.clone(),
        _ => panic!("файл не открывают"),
    };
    let file = Handle { id: 3, size: 9 };
    assert!(!preview::on_resource_opened(&mut state, "чужой", Some(file), Ok(file)));
    assert!(preview::on_resource_opened(&mut state, &asked, Some(file), Ok(file)));
    assert!(matches!(state.calls.last(), Some(Call::GiveToCanvas { handle, .. }) if *handle == file));
    let (view, _) = shown(&state);
    preview::on_given(&mut state, view, Ok(file));
    assert!(matches!(state.calls.last(), Some(Call::Show { label, .. }) if label == "dem.tif"));
    preview::on_given(&mut state, view, Err("нет места".to_string()));
    assert_eq!(shown(&state).1.error.as_deref(), Some("нет места"));
}

#[test]
fn a_file_that_came_too_late_is_let_go() {
    let (mut state, from) = listed();
    preview::on_view_remote_pressed(&mut state, from, "p/a.tif".to_string());
    let asked = match state.calls.last() {
        Some(Call::OpenRemote { correlation, .. }) => correlation.clone(),
        _ => panic!("файл не открывают"),
    };
    let (view, _) = shown(&state);
    data_browser::handlers::nav::on_tab_close(&mut state, view);
    let file = Handle { id: 3, size: 9 };
    assert!(preview::on_resource_opened(&mut state, &asked, Some(file), Ok(file)));
    assert!(matches!(state.calls.last(), Some(Call::Release { handle }) if *handle == file));
}

#[test]
fn of_the_rasters_of_a_snapshot_the_detailed_one_is_shown() {
    let raster = |role: ImageryRole, name: &str| ImageryRaster {
        role,
        identifier: name.to_string(),
        geolocation: String::new(),
    };
    let answer = |rasters: Vec<ImageryRaster>, error: &str| ImageryResponse {
        rasters,
        utm: None,
        reason: String::new(),
        error: error.to_string(),
    };
    let press = || {
        let (mut state, from) = listed();
        preview::on_view_product_pressed(&mut state, from, "p/A.SAFE".to_string());
        let asked = match state.calls.last() {
            Some(Call::Imagery { correlation, .. }) => correlation.clone(),
            _ => panic!("растры не спрошены"),
        };
        (state, asked)
    };

    let (mut state, asked) = press();
    let both = answer(
        vec![raster(ImageryRole::ImageryPreview, "ql"), raster(ImageryRole::ImageryDetailed, "tci")],
        "",
    );
    assert!(preview::on_imagery_result(&mut state, &asked, &both));
    assert!(matches!(state.calls.last(), Some(Call::OpenRemote { identifier, .. }) if identifier == "tci"));
    assert_eq!(shown(&state).1.label, "tci");

    let (mut state, asked) = press();
    let small = answer(vec![raster(ImageryRole::ImageryPreview, "ql")], "");
    assert!(preview::on_imagery_result(&mut state, &asked, &small));
    assert!(matches!(state.calls.last(), Some(Call::OpenRemote { identifier, .. }) if identifier == "ql"));

    let (mut state, asked) = press();
    assert!(preview::on_imagery_result(&mut state, &asked, &answer(Vec::new(), "")));
    assert_eq!(shown(&state).1.error.as_deref(), Some("внутри снимка нечего показать"));

    let (mut state, asked) = press();
    assert!(preview::on_imagery_result(&mut state, &asked, &answer(Vec::new(), "HTTP 500")));
    assert_eq!(shown(&state).1.error.as_deref(), Some("HTTP 500"));
}
