use data_browser::components::menu::{panel, Glyph, Item};
use data_browser::components::row::{OnGlobe, OnOutline, Row, RowKind, RowStatus};
use data_browser::components::table::{
    fit, menu_items, quick, width_of, Column, IconTone, Optional, CELL_PADDING, GUTTER, MIN_PANE, NAME_MIN,
};
use data_browser::message::{Msg, ViewMsg};
use data_browser::state::browse::BrowseState;
use data_browser::state::ids::ViewId;
use data_browser::state::screen::ViewKind;
use data_browser::state::{Config, State};

fn state_view() -> (State, ViewId) {
    let mut state = match State::new(Config { initial_view: None }) {
        Ok(state) => state,
        Err(name) => panic!("{}", name),
    };
    let pane = state.focused();
    let view = state.open_in(pane, ViewKind::Browse(BrowseState::default()));
    (state, view)
}

fn snapshot(outlined: OnOutline) -> Row {
    Row {
        outlined,
        ..Row::container_row(
            "eodata/store/A.SAFE".to_string(),
            "A.SAFE".to_string(),
            RowStatus::Remote,
            RowKind::Product { folder: false },
        )
    }
}

#[test]
fn the_row_offers_only_the_three_globe_icons() {
    let (_state, view) = state_view();

    let icons = quick(view, &snapshot(OnOutline::Off));
    let glyphs: Vec<Glyph> = icons.iter().map(|q| q.glyph).collect();
    assert_eq!(glyphs, vec![Glyph::Outline, Glyph::Globe, Glyph::Focus]);
    assert!(icons.iter().all(|q| !q.label.is_empty()), "безымянный пункт меню");

    let file = Row::container_row(
        "eodata/store/dem.tif".to_string(),
        "dem.tif".to_string(),
        RowStatus::Remote,
        RowKind::File,
    );
    assert!(quick(view, &file).is_empty(), "у файла шара не бывает");
}

#[test]
fn the_globe_icons_toggle_and_the_aim_stands_apart() {
    let (_state, view) = state_view();
    let quick_of = |row: &Row| quick(view, row);

    let idle = quick_of(&snapshot(OnOutline::Off));
    assert!(matches!(idle[0].message, Some(Msg::OutlineToggle(_))), "контур — переключатель");
    assert!(
        matches!(idle[1].message, Some(Msg::In(_, ViewMsg::GlobeToggle(_)))),
        "растр — тоже переключатель"
    );
    assert!(idle[2].message.is_none(), "наводить не на что, и нажатия нет");
    assert_eq!(idle[2].tone, IconTone::Idle);

    let drawn = quick_of(&snapshot(OnOutline::Drawn));
    assert!(matches!(drawn[2].message, Some(Msg::OutlineFocus(_))));

    let laid = Row {
        globe: OnGlobe::Laid { hidden: false, progress: Default::default() },
        ..snapshot(OnOutline::Off)
    };
    assert!(matches!(quick_of(&laid)[2].message, Some(Msg::OutlineFocus(_))));

    let assembling = Row { globe: OnGlobe::Assembling, ..snapshot(OnOutline::Off) };
    assert!(matches!(quick_of(&assembling)[2].message, Some(Msg::OutlineFocus(_))));

    let asked = Row { globe: OnGlobe::Asked, ..snapshot(OnOutline::Off) };
    assert!(quick_of(&asked)[2].message.is_none(), "наводка обещает несуществующее место");
    assert_eq!(quick_of(&asked)[1].tone, IconTone::Half);
    assert!(matches!(quick_of(&asked)[1].message, Some(Msg::In(_, ViewMsg::GlobeToggle(_)))));
}

#[test]
fn the_outline_icon_burns_only_when_drawn() {
    let (_state, view) = state_view();
    let tone = |outlined| quick(view, &snapshot(outlined))[0].tone;

    assert_eq!(tone(OnOutline::Drawn), IconTone::Lit);
    assert_eq!(tone(OnOutline::Off), IconTone::Rest);
    for half in [OnOutline::Asking, OnOutline::Blank, OnOutline::Failed] {
        assert_eq!(tone(half), IconTone::Half, "{:?} горит не вполсилы", half);
    }

    let hints: std::collections::HashSet<String> =
        [OnOutline::Off, OnOutline::Asking, OnOutline::Blank, OnOutline::Failed, OnOutline::Drawn]
            .into_iter()
            .map(|outlined| quick(view, &snapshot(outlined))[0].hint.clone())
            .collect();
    assert_eq!(hints.len(), 5, "два лица объяснены одной подсказкой");
}

#[test]
fn the_menu_does_not_offer_the_same_eye_twice() {
    let (_state, view) = state_view();
    let named = |row: &Row| -> Vec<String> {
        menu_items(view, row, "").iter().map(|item| item.named().to_string()).collect()
    };

    let mut done = snapshot(OnOutline::Off);
    done.status = RowStatus::Complete;
    done.name = "A.SAFE".to_string();
    let items = named(&done);
    assert!(items.contains(&"Открыть".to_string()));
    assert!(!items.contains(&"Смотреть снимок".to_string()), "два глаза подряд");

    let items = named(&snapshot(OnOutline::Off));
    assert!(items.contains(&"Смотреть снимок".to_string()));
}

#[test]
fn optional_columns_appear_only_where_they_are_needed() {
    let wide = 1400;
    let bare = fit(wide, Optional::default()).columns;
    assert!(!bare.contains(&Column::Check) && !bare.contains(&Column::Twist));

    let full = fit(wide, Optional { twisty: true, checkable: true }).columns;
    assert_eq!(full.first(), Some(&Column::Check));
    assert_eq!(full.get(1), Some(&Column::Twist));
}

#[test]
fn narrow_panes_drop_columns_instead_of_squeezing_the_name() {
    let optional = Optional { twisty: true, checkable: true };
    let fit = fit(420, optional);
    assert!(fit.name >= NAME_MIN, "имени досталось {}", fit.name);
    assert!(!fit.compact, "значки уступают только когда имени не остаётся вовсе");
    assert!(fit.columns.contains(&Column::Name) && fit.columns.contains(&Column::Actions));
    assert!(!fit.columns.contains(&Column::Progress), "справочное уходит первым");
}

#[test]
fn a_pane_too_narrow_for_the_minimum_reports_what_is_left() {
    let optional = Optional { twisty: false, checkable: true };
    let fit = fit(272, optional);

    assert!(fit.name < NAME_MIN, "проверяется именно нехватка, а досталось {}", fit.name);
    assert!(!fit.columns.contains(&Column::Icon), "значок уступает последним");
    let fixed: u32 = fit.columns.iter().map(|column| width_of(*column)).sum();
    assert_eq!(fit.name, 272 - fixed - GUTTER * 2 - CELL_PADDING * 2);
}

#[test]
fn the_narrowest_pane_keeps_the_name_and_moves_the_icons_into_the_menu() {
    let optional = Optional { twisty: true, checkable: true };
    let tight = fit(MIN_PANE, optional);
    assert!(tight.compact, "значки не уступили");
    assert!(tight.name > 0, "имени опять не осталось");
    assert!(tight.columns.contains(&Column::Name) && tight.columns.contains(&Column::Actions));

    assert!(!fit(900, optional).compact);
}

#[test]
fn a_panel_widens_for_its_longest_label() {
    let short = panel(vec![Item::note("коротко".to_string())]);
    assert_eq!(short.width, 4280);
    let long = panel(vec![Item::note("коротко".to_string()), Item::note("я".repeat(40))]);
    assert_eq!(long.width, 40 * 130 + 1040);
}

#[test]
fn what_cannot_be_shown_says_why_and_stays_in_its_place() {
    let (_state, view) = state_view();
    let raw = Row { unviewable: "сырьё уровня 0".to_string(), ..snapshot(OnOutline::Off) };
    let icons = quick(view, &raw);
    let glyphs: Vec<Glyph> = icons.iter().map(|q| q.glyph).collect();
    assert_eq!(glyphs, vec![Glyph::Outline, Glyph::Globe, Glyph::Focus]);
    assert_eq!((icons[1].tone, icons[1].hint.as_str()), (IconTone::Idle, "сырьё уровня 0"));
    assert!(icons[1].message.is_none());
}

#[test]
fn what_came_to_nothing_warns_and_can_be_tried_again() {
    let (_state, view) = state_view();
    let failed = Row { unshowable: "нет связи".to_string(), ..snapshot(OnOutline::Off) };
    let icon = &quick(view, &failed)[1];
    assert_eq!((icon.tone, icon.hint.as_str()), (IconTone::Warn, "нет связи"));
    assert!(matches!(icon.message, Some(Msg::In(_, ViewMsg::GlobeToggle(_)))));

    let both = Row { unviewable: "архив".to_string(), ..failed };
    let icon = &quick(view, &both)[1];
    assert_eq!((icon.tone, icon.hint.as_str()), (IconTone::Idle, "архив"));
}
