use data_browser::handlers::overlay::{
    hide_all, on_toggle_pressed, preview_first, remove, set_hidden, set_opacity, shift, show,
};
use data_browser::proto::{DataProduct, GeoPoint, Ring};
use data_browser::state::browse::BrowseState;
use data_browser::state::overlay::{OverlayRole, Pace, Progress};
use data_browser::state::screen::ViewKind;
use data_browser::state::side::Shift;
use data_browser::state::{Config, State};

fn state() -> State {
    match State::new(Config { initial_view: None }) {
        Ok(state) => state,
        Err(name) => panic!("{}", name),
    }
}

fn ring(points: &[(f64, f64)]) -> Ring {
    Ring {
        points: points
            .iter()
            .map(|&(lat, lon)| GeoPoint { lat: lat.to_bits(), lon: lon.to_bits() })
            .collect(),
    }
}

#[test]
fn a_preview_goes_before_the_detailed_one() {
    let (preview, detailed) = (OverlayRole::OverlayPreview, OverlayRole::OverlayDetailed);
    let mut pairs = vec![(detailed, "подробный", ()), (preview, "квиклук", ())];

    preview_first(&mut pairs);

    let order: Vec<_> = pairs.iter().map(|(_, name, _)| *name).collect();
    assert_eq!(order, ["квиклук", "подробный"]);
}

#[test]
fn rasters_of_one_role_stay_in_the_order_of_opening() {
    let detailed = OverlayRole::OverlayDetailed;
    let mut pairs = vec![
        (detailed, "первый", ()),
        (OverlayRole::OverlayPreview, "квиклук", ()),
        (detailed, "второй", ()),
    ];

    preview_first(&mut pairs);

    let order: Vec<_> = pairs.iter().map(|(_, name, _)| *name).collect();
    assert_eq!(order, ["квиклук", "первый", "второй"]);
}

#[test]
fn what_is_shown_is_taken_off_by_the_same_icon() {
    let key = "eodata/store/A.SAFE";
    let mut state = state();
    let pane = state.focused();
    let view = state.open_in(pane, ViewKind::Browse(BrowseState::default()));

    on_toggle_pressed(&mut state, view, key.to_string());
    assert!(state.showing.contains(key), "просьба не записана");

    on_toggle_pressed(&mut state, view, key.to_string());
    assert!(!state.showing.contains(key), "просьбу нечем отменить");

    let product = DataProduct {
        identifier: key.to_string(),
        footprint: vec![ring(&[(10.0, 10.0), (10.0, 20.0), (20.0, 20.0), (20.0, 10.0)])],
        ..Default::default()
    };
    show(&mut state, &product, None);
    assert_eq!(state.overlays.len(), 1);
    on_toggle_pressed(&mut state, view, key.to_string());
    assert!(state.overlays.is_empty(), "лежащий слой нечем снять");
}

fn laid(keys: &[&str]) -> State {
    let mut state = state();
    for key in keys {
        show(
            &mut state,
            &DataProduct {
                identifier: key.to_string(),
                footprint: vec![ring(&[(10.0, 10.0)])],
                ..Default::default()
            },
            None,
        );
    }
    state
}

fn order(state: &State) -> Vec<&str> {
    state.overlays.iter().map(|layer| layer.identifier.as_str()).collect()
}

#[test]
fn a_layer_moved_up_and_down_is_where_it_was() {
    let mut state = laid(&["a", "b", "c"]);
    let before: Vec<String> = order(&state).iter().map(|key| key.to_string()).collect();
    shift(&mut state, "b", Shift::Up);
    assert_ne!(order(&state), before);
    shift(&mut state, "b", Shift::Down);
    assert_eq!(order(&state), before);
    remove(&mut state, "b");
    assert_eq!(state.overlays.len(), 2);
}

#[test]
fn layers_are_hidden_one_by_one_and_all_at_once() {
    let mut state = laid(&["a", "b"]);
    set_hidden(&mut state, "b", true);
    assert_eq!(state.overlays.iter().filter(|layer| layer.hidden).count(), 1);
    hide_all(&mut state, true);
    assert!(state.overlays.iter().all(|layer| layer.hidden));
    hide_all(&mut state, false);
    assert!(state.overlays.iter().all(|layer| !layer.hidden));
    set_opacity(&mut state, "a", 0.5f32.to_bits());
    let half = state.overlays.iter().find(|layer| layer.identifier == "a").map(|layer| layer.opacity);
    assert_eq!(half, Some(0.5f32.to_bits()));
}

#[test]
fn work_without_a_share_is_still_work() {
    assert_eq!(Progress::default().pace(), Pace::Idle);
    assert_eq!(Progress { working: true, blank: true, ..Default::default() }.pace(), Pace::Unknown);
}
