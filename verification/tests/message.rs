use data_browser::message::{
    Msg, NewTab, Number, Payload, PointerEvent, UiEventResponse, ViewMsg, ViewportSize,
};
use data_browser::state::ids::{PaneId, ViewId};
use data_browser::state::listing::{Filter, Grouping, Menu, Sorting};
use data_browser::state::search::{Cloud, Mission, Period};
use data_browser::state::side::{Shift, Side};

fn wire(message: &Msg) -> UiEventResponse {
    let (method, value) = message.encode();
    UiEventResponse { method, key: message.key(), payload: Some(Payload::Value(value)) }
}

fn id() -> ViewId {
    ViewId::parse("7").expect("ViewId из строки")
}

fn pane() -> PaneId {
    PaneId::parse("3").expect("PaneId из строки")
}

#[test]
fn every_variant_survives_the_wire() {
    let mut messages = vec![
        Msg::TabSelect(id()),
        Msg::TabClose(id()),
        Msg::TabMenu(Some(pane())),
        Msg::TabMenu(None),
        Msg::TabOptions(Some(id())),
        Msg::TabOptions(None),
        Msg::TabCollapse,
        Msg::Divided,
        Msg::Download("продукт".into(), "снимок".into()),
        Msg::Delete("запись".into()),
        Msg::DeleteSnapshot("снимок".into()),
        Msg::DownloadSnapshot("снимок".into()),
        Msg::PauseSnapshot("снимок".into()),
        Msg::Reveal("запись".into()),
        Msg::GlobeClear,
        Msg::OverlayHidden("продукт".into(), true),
        Msg::OverlayHidden("продукт".into(), false),
        Msg::OverlayRemove("продукт".into()),
        Msg::OverlayShift("продукт".into(), Shift::Up),
        Msg::OverlayShift("продукт".into(), Shift::Down),
        Msg::OverlayHideAll(true),
        Msg::OverlayMenu(Some("продукт".into())),
        Msg::OverlayMenu(None),
        Msg::OverlayVariables(Some("продукт".into())),
        Msg::OverlayVariables(None),
        Msg::OverlayVariable("продукт".into(), "/PRODUCT/qa_value".into()),
        Msg::OutlineToggle("продукт".into()),
        Msg::OutlineRemove("продукт".into()),
        Msg::OutlineFocus("продукт".into()),
        Msg::In(id(), ViewMsg::OpenMenu(None)),
        Msg::In(id(), ViewMsg::OpenMenu(Some(Menu::Filter))),
        Msg::In(id(), ViewMsg::OpenMenu(Some(Menu::Row("снимок".into())))),
        Msg::In(id(), ViewMsg::Query("s2a".into())),
        Msg::In(id(), ViewMsg::Page(3)),
        Msg::In(id(), ViewMsg::Expand("снимок".into())),
        Msg::In(id(), ViewMsg::Check("снимок".into())),
        Msg::In(id(), ViewMsg::CheckShown(true)),
        Msg::In(id(), ViewMsg::CheckShown(false)),
        Msg::In(id(), ViewMsg::CheckClear),
        Msg::In(id(), ViewMsg::CheckDownload),
        Msg::In(id(), ViewMsg::CheckDelete),
        Msg::In(id(), ViewMsg::InCatalog("eodata/Sentinel-2/S2B.SAFE".into())),
        Msg::In(id(), ViewMsg::SearchQuery("msil2a".into())),
        Msg::In(id(), ViewMsg::SearchFrom("2026-08-01".into())),
        Msg::In(id(), ViewMsg::SearchTo("2026-08-13".into())),
        Msg::In(id(), ViewMsg::RunSearch),
        Msg::In(id(), ViewMsg::Enter("eodata/Sentinel-2/".into())),
        Msg::In(id(), ViewMsg::Up),
        Msg::In(id(), ViewMsg::Preview("запись".into())),
        Msg::In(id(), ViewMsg::PreviewRemote("продукт".into())),
        Msg::In(id(), ViewMsg::PreviewProduct("снимок.SAFE".into())),
        Msg::In(id(), ViewMsg::PreviewFit),
        Msg::In(id(), ViewMsg::PreviewZoom(Number::read("1.0").expect("число"))),
        Msg::In(id(), ViewMsg::PreviewVariables(true)),
        Msg::In(id(), ViewMsg::PreviewVariables(false)),
        Msg::In(id(), ViewMsg::PreviewVariable("/PRODUCT/qa_value".into())),
        Msg::In(id(), ViewMsg::GlobeToggle("продукт".into())),
    ];
    messages.extend(NewTab::all().iter().map(|kind| Msg::NewTab(pane(), *kind)));
    messages.extend(NewTab::kinds().iter().map(|kind| Msg::In(id(), ViewMsg::Fill(*kind))));
    messages.extend(Side::all().iter().map(|side| Msg::TabMove(id(), *side)));
    messages.extend(Filter::all().iter().map(|choice| Msg::In(id(), ViewMsg::Filter(*choice))));
    messages.extend(Grouping::all().iter().map(|choice| Msg::In(id(), ViewMsg::Group(*choice))));
    messages.extend(Sorting::all().iter().map(|choice| Msg::In(id(), ViewMsg::Sort(*choice))));
    messages.extend(Mission::all().iter().map(|choice| Msg::In(id(), ViewMsg::SearchMission(*choice))));
    messages.extend(Period::all().iter().map(|choice| Msg::In(id(), ViewMsg::SearchPeriod(*choice))));
    messages.extend(Cloud::all().iter().map(|choice| Msg::In(id(), ViewMsg::SearchCloud(*choice))));

    for message in messages {
        let event = wire(&message);
        let decoded = Msg::decode(&event).unwrap_or_else(|| panic!("«{}» не разобралось", event.method));
        assert_eq!(decoded.encode(), message.encode(), "нагрузка «{}»", event.method);
        assert_eq!(decoded.key(), message.key(), "адресат «{}»", event.method);
    }
}

#[test]
fn substituted_payloads_still_name_their_tab() {
    let size = ViewportSize { width: 800, height: 600 };
    let pointer = PointerEvent::default();
    let cases: Vec<(&str, Payload)> = vec![
        ("globe_resized", Payload::Size(size.clone())),
        ("preview_resized", Payload::Size(size.clone())),
        ("globe_pointer", Payload::Pointer(pointer.clone())),
        ("preview_pointer", Payload::Pointer(pointer.clone())),
    ];
    for (name, payload) in cases {
        let event =
            UiEventResponse { method: name.to_string(), key: "7".to_string(), payload: Some(payload) };
        let Some(Msg::In(view, carried)) = Msg::decode(&event) else {
            panic!("«{}» разобралось не тем", name)
        };
        assert_eq!(view, id(), "адресат «{}»", name);
        match carried {
            ViewMsg::GlobeResized(got) | ViewMsg::PreviewResized(got) => {
                assert_eq!(got, size, "размер «{}»", name)
            }
            ViewMsg::GlobePointer(got) | ViewMsg::PreviewPointer(got) => {
                assert_eq!(got, pointer, "указатель «{}»", name)
            }
            _ => panic!("«{}» разобралось не тем", name),
        }
    }
}

#[test]
fn slider_names_its_layer_apart_from_its_value() {
    let event = UiEventResponse {
        method: "overlay_opacity".to_string(),
        key: "eodata/Sentinel-2/S2B.SAFE".to_string(),
        payload: Some(Payload::Value("0.62".to_string())),
    };
    match Msg::decode(&event) {
        Some(Msg::OverlayOpacity(key, value)) => {
            assert_eq!(key, "eodata/Sentinel-2/S2B.SAFE");
            let value: f32 = value.written.parse().expect("число");
            assert!((value - 0.62).abs() < 1e-6, "{}", value);
        }
        other => panic!("разобралось не тем: {:?}", other.map(|m| m.encode())),
    }
}

#[test]
fn divider_names_its_split_apart_from_its_delta() {
    let event = UiEventResponse {
        method: "divide".to_string(),
        key: "4".to_string(),
        payload: Some(Payload::Value("-12.5".to_string())),
    };
    match Msg::decode(&event) {
        Some(Msg::Divide(split, delta)) => {
            assert_eq!(split.to_text(), "4");
            let delta: f32 = delta.written.parse().expect("число");
            assert!((delta + 12.5).abs() < 1e-6, "{}", delta);
        }
        other => panic!("разобралось не тем: {:?}", other.map(|m| m.encode())),
    }
}

#[test]
fn hidden_carries_state_and_layer_apart() {
    let key = "eodata/Sentinel-1/S1A_IW_GRDH_1SDV_054821_06AC1F.SAFE";
    for hidden in [true, false] {
        let message = Msg::OverlayHidden(key.into(), hidden);
        assert_eq!(message.encode().1, hidden.to_string(), "нагрузка — только состояние");
        assert_eq!(message.key(), key, "адресат — только слой");
        match Msg::decode(&wire(&message)) {
            Some(Msg::OverlayHidden(decoded, state)) => {
                assert_eq!((decoded.as_str(), state), (key, hidden));
            }
            other => panic!("разобралось не тем: {:?}", other.map(|m| m.encode())),
        }
    }
}

#[test]
fn view_message_without_a_tab_is_none() {
    let event = UiEventResponse {
        method: "run_search".to_string(),
        key: String::new(),
        payload: Some(Payload::Value(String::new())),
    };
    assert!(Msg::decode(&event).is_none());
}

#[test]
fn unknown_method_is_none() {
    let event = UiEventResponse {
        method: "неведомое".to_string(),
        key: String::new(),
        payload: Some(Payload::Value(String::new())),
    };
    assert!(Msg::decode(&event).is_none());
}

#[test]
fn what_writes_no_number_is_none() {
    for written in ["", "abc", "1,5", "--1", "0x1", "1.2.3"] {
        assert!(Number::read(written).is_none(), "{}", written);
        assert!(written.parse::<f32>().is_err(), "{}", written);
    }
    for written in ["0", "-12.5", "+3", ".5", "5.", "1e3", "-1E-3", "inf", "NaN"] {
        assert_eq!(Number::read(written).is_some(), written.parse::<f32>().is_ok(), "{}", written);
    }
}
