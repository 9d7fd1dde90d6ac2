//! The tab of the globe: a place for somebody else's picture, and gestures over it.
//!
//! The gesture is ours and the camera is the globe's. So what goes out is a movement in
//! shares of the area, and what a click has hit is asked of the globe: one point of the
//! picture is a different place at every height.

use vstd::prelude::*;
use crate::calls::{self, Call};
use crate::handlers::nav;
use crate::handlers::outline;
use crate::handlers::preview;
use crate::message::{NewTab, PointerAction, PointerEvent, ViewportSize};
use crate::state::globe::{Drag, GlobeState, Spot, Surface};
use crate::state::ids::ViewId;
use crate::state::request::Reply;
use crate::state::screen::{self, Screen, Tab, ViewKind};
use crate::state::{self, State};

verus! {

broadcast use vstd::string::group_string_axioms;

/// How far a pointer may go for a press to count as a click: the bits of four points. A
/// hand trembles by a point or two.
pub const CLICK_SLOP: u32 = 0x4080_0000;

/// The tab of the globe and what it remembers.
pub open spec fn globe_in(views: Seq<Tab>) -> Option<(ViewId, GlobeState)> {
    match nav::only_one(views, NewTab::Globe) {
        Some(view) => match screen::kind_in(views, view) {
            Some(ViewKind::Globe(globe)) => Some((view, globe)),
            _ => None,
        },
        None => None,
    }
}

fn active(state: &State) -> (globe: Option<(ViewId, &GlobeState)>)
    ensures
        match globe {
            Some((view, globe)) => globe_in(state.screen.views@) == Some((view, *globe)),
            None => globe_in(state.screen.views@) is None,
        },
{
    match nav::singleton(state, NewTab::Globe) {
        Some(view) => match state.screen.get(view) {
            Some(ViewKind::Globe(globe)) => Some((view, globe)),
            _ => None,
        },
        None => None,
    }
}

/// The area of the globe has another size. While the size is the same nothing is done.
pub fn on_resized(state: &mut State, size: ViewportSize)
    ensures
        *final(state) == (State { calls: final(state).calls, ..*old(state) }),
        final(state).said() == match globe_in(old(state).screen.views@) {
            Some((view, globe)) => if preview::covers(globe.surface, size.width, size.height) {
                old(state).said()
            } else {
                old(state).said().push(
                    calls::CallView::PlaceGlobe { view, width: size.width, height: size.height },
                )
            },
            None => old(state).said(),
        },
{
    let (view, stays): (ViewId, bool) = match active(state) {
        Some((view, globe)) => (
            view,
            match globe.surface {
                Some(surface) => surface.width == size.width && surface.height == size.height,
                None => false,
            },
        ),
        None => {
            return;
        },
    };
    if stays {
        return;
    }
    let call: Call = Call::PlaceGlobe { view, width: size.width, height: size.height };
    proof {
        calls::said_push(state.calls@, call);
    }
    state.calls.push(call);
}

/// Only what the tab of the globe remembers has changed, and requests wait.
pub open spec fn only_globe(before: State, after: State, view: ViewId, now: GlobeState) -> bool {
    &&& after == (State {
        screen: Screen { views: after.screen.views, ..before.screen },
        asked: after.asked,
        probe: after.probe,
        calls: after.calls,
        ..before
    })
    &&& after.screen.views@ == screen::with_kind(before.screen.views@, view, ViewKind::Globe(now))
}

/// A place was made for the globe, or the earlier one was left.
pub fn on_placed(state: &mut State, view: ViewId, surface: Option<Surface>)
    ensures
        match screen::kind_in(old(state).screen.views@, view) {
            Some(ViewKind::Globe(was)) => {
                &&& only_globe(*old(state), *final(state), view, (GlobeState { surface, ..was }))
                &&& final(state).asked == old(state).asked
                &&& final(state).probe == old(state).probe
                &&& final(state).said() == old(state).said()
            },
            _ => *final(state) == *old(state),
        },
        old(state).screen.whole() ==> final(state).screen.whole(),
{
    let there: bool = match state.screen.get(view) {
        Some(ViewKind::Globe(_)) => true,
        _ => false,
    };
    if !there {
        return;
    }
    if let Some(globe) = state.screen.globe_mut(view) {
        globe.surface = surface;
    }
}

/// A way that still counts as standing still. Bits of a number below nought count too.
pub open spec fn is_click(travelled: u32) -> bool {
    travelled <= CLICK_SLOP || 0x8000_0000 <= travelled <= 0xff80_0000
}

fn clicked(travelled: u32) -> (yes: bool)
    ensures
        yes == is_click(travelled),
{
    travelled <= CLICK_SLOP || (0x8000_0000 <= travelled && travelled <= 0xff80_0000)
}

/// What a pointer over the globe leaves of the gesture. The left button turns; how far
/// the pointer has gone is remembered, for that alone tells a click from a turn.
pub open spec fn dragging_after(was: Option<Drag>, event: PointerEvent, travelled: u32) -> Option<Drag> {
    let at = Spot { x: event.x, y: event.y };
    match event.action {
        PointerAction::Pressed => if event.button == 1 { Some(Drag { last: at, travelled: 0 }) } else { was },
        PointerAction::Moved => if was is Some { Some(Drag { last: at, travelled }) } else { None },
        PointerAction::Released => None,
        PointerAction::Left => None,
        PointerAction::Scrolled => was,
    }
}

/// The gesture was a click: the button was let go where it was pressed.
pub open spec fn was_click(was: Option<Drag>, event: PointerEvent) -> bool {
    event.action is Released && (was matches Some(drag) && is_click(drag.travelled))
}

/// What the globe is told of a pointer over it. Both ways are measured by the height of
/// the area: the angle of sight is given upright, and a share of it is the same angle
/// whichever way it leads.
pub open spec fn turned(was: Option<Drag>, event: PointerEvent, surface: Surface, mark: Seq<char>) -> Seq<calls::CallView> {
    let at = Spot { x: event.x, y: event.y };
    match event.action {
        PointerAction::Moved => match was {
            Some(drag) => if preview::has_moved(drag.last, at) {
                seq![calls::CallView::Orbit { from: drag.last, to: at, height: surface.height }]
            } else {
                Seq::empty()
            },
            None => Seq::empty(),
        },
        PointerAction::Released => if was_click(was, event) {
            seq![calls::CallView::Probe { at, width: surface.width, height: surface.height, correlation: mark }]
        } else {
            Seq::empty()
        },
        PointerAction::Scrolled => if preview::is_nought(event.scroll_y) {
            Seq::empty()
        } else {
            seq![calls::CallView::GlobeZoom { delta: event.scroll_y }]
        },
        _ => Seq::empty(),
    }
}

/// A pointer over the globe. `travelled` is how far it has gone by now, in the bits of
/// its number. A globe that has no place yet takes no notice: there is nothing to
/// measure by. A click asks what it has hit.
pub fn on_pointer(state: &mut State, event: PointerEvent, travelled: u32)
    ensures
        match globe_in(old(state).screen.views@) {
            Some((view, was)) => match was.surface {
                None => *final(state) == *old(state),
                Some(surface) => {
                    let click = was_click(was.dragging, event);
                    let mark = old(state).next_mark();
                    &&& only_globe(
                        *old(state),
                        *final(state),
                        view,
                        (GlobeState { dragging: dragging_after(was.dragging, event, travelled), ..was }),
                    )
                    &&& final(state).said() == old(state).said() + turned(was.dragging, event, surface, mark)
                    &&& final(state).asked == if click { state::one_more(old(state).asked) } else { old(state).asked }
                    &&& final(state).probe.waiting() == if click { Some(mark) } else { old(state).probe.waiting() }
                },
            },
            None => *final(state) == *old(state),
        },
        old(state).screen.whole() ==> final(state).screen.whole(),
{
    let ghost before = state.said();
    assert(before + Seq::empty() =~= before);
    let at: Spot = Spot { x: event.x, y: event.y };
    let (view, surface, was): (ViewId, Surface, Option<Drag>) = match active(state) {
        Some((view, globe)) => match globe.surface {
            Some(surface) => (view, surface, globe.dragging),
            None => {
                return;
            },
        },
        None => {
            return;
        },
    };
    let mut call: Option<Call> = None;
    let mut click: bool = false;
    let dragging: Option<Drag> = match event.action {
        PointerAction::Pressed => if event.button == 1 { Some(Drag { last: at, travelled: 0 }) } else { was },
        PointerAction::Moved => match was {
            Some(drag) => {
                if preview::moves(drag.last, at) {
                    call = Some(Call::Orbit { from: drag.last, to: at, height: surface.height });
                }
                Some(Drag { last: at, travelled })
            },
            None => None,
        },
        PointerAction::Released => {
            click = match was {
                Some(drag) => clicked(drag.travelled),
                None => false,
            };
            None
        },
        PointerAction::Left => None,
        PointerAction::Scrolled => {
            if event.scroll_y % 0x8000_0000 != 0 {
                call = Some(Call::GlobeZoom { delta: event.scroll_y });
            }
            was
        },
    };
    if let Some(globe) = state.screen.globe_mut(view) {
        globe.dragging = dragging;
    }
    if click {
        probe(state, at, surface);
        assert(state.said() =~= before + turned(was, event, surface, old(state).next_mark()));
    } else if let Some(call) = call {
        proof {
            calls::said_push(state.calls@, call);
            assert(before.push(call@) =~= before + seq![call@]);
        }
        state.calls.push(call);
    }
}

/// Asks what a click has hit: the height is the camera's, and the camera is not ours.
fn probe(state: &mut State, at: Spot, surface: Surface)
    ensures
        *final(state) == (State {
            asked: state::one_more(old(state).asked),
            probe: final(state).probe,
            calls: final(state).calls,
            ..*old(state)
        }),
        final(state).probe.waiting() == Some(old(state).next_mark()),
        final(state).said() == old(state).said().push(
            calls::CallView::Probe {
                at,
                width: surface.width,
                height: surface.height,
                correlation: old(state).next_mark(),
            },
        ),
{
    let correlation: String = state.mark();
    state.probe.begin(correlation.clone());
    let call: Call = Call::Probe { at, width: surface.width, height: surface.height, correlation };
    proof {
        calls::said_push(state.calls@, call);
    }
    state.calls.push(call);
}

/// What a click has hit has come. Beside the Earth and beside all outlines the pick is
/// taken back: that is what a click on an empty place means. An answer to an earlier
/// click is passed over.
pub fn on_probed(state: &mut State, correlation: &str, hits: Vec<Option<u64>>)
    requires
        hits@.len() <= old(state).outlined@.len(),
    ensures
        if old(state).probe.waiting() == Some(correlation@) {
            exists|middle: State| {
                &&& middle == (State { probe: middle.probe, ..*old(state) })
                &&& middle.probe.waiting() is None
                &&& #[trigger] outline::picked_now(
                    middle,
                    *final(state),
                    outline::hit_key(old(state).outlined@, hits@),
                )
            }
        } else {
            *final(state) == *old(state)
        },
{
    if state.probe.status(correlation) != Reply::Current {
        return;
    }
    state.probe.settle(correlation);
    outline::pick(state, hits);
}

// -- Laws --

/// The globe turns with the pointer while the button is down, comes closer with the wheel,
/// and asks what lies under a press that did not move; nothing else makes it speak.
pub proof fn the_globe_follows_the_pointer(was: Option<Drag>, event: PointerEvent, surface: Surface, mark: Seq<char>)
    ensures
        ({
            let at = Spot { x: event.x, y: event.y };
            let said = turned(was, event, surface, mark);
            &&& event.action is Pressed || event.action is Left ==> said.len() == 0
            &&& event.action is Moved && was is None ==> said.len() == 0
            &&& event.action is Moved ==> (was matches Some(drag) ==> {
                &&& said.len() > 0 ==> said == seq![
                    calls::CallView::Orbit { from: drag.last, to: at, height: surface.height },
                ]
                &&& drag.last == at && preview::is_finite(at.x) && preview::is_finite(at.y) ==> said.len() == 0
                &&& drag.last.x != at.x && at.x % 0x8000_0000 != 0 ==> said.len() == 1
                &&& drag.last.y != at.y && at.y % 0x8000_0000 != 0 ==> said.len() == 1
            })
            &&& event.action is Released ==> {
                &&& was is None ==> said.len() == 0
                &&& was matches Some(drag) ==> (drag.travelled <= 0x4080_0000 ==> said == seq![
                    calls::CallView::Probe { at, width: surface.width, height: surface.height, correlation: mark },
                ])
                &&& was matches Some(drag) ==> (0x4080_0000 < drag.travelled < 0x8000_0000 ==> said.len() == 0)
            }
            &&& event.action is Scrolled ==> {
                &&& event.scroll_y % 0x8000_0000 == 0 ==> said.len() == 0
                &&& event.scroll_y % 0x8000_0000 != 0 ==> said == seq![calls::CallView::GlobeZoom { delta: event.scroll_y }]
            }
        }),
{
}

/// A drag begins where the first button goes down, follows the pointer, and ends with the
/// button or when the pointer leaves.
pub proof fn a_drag_lasts_while_the_button_is_down(was: Option<Drag>, event: PointerEvent, travelled: u32)
    ensures
        ({
            let now = dragging_after(was, event, travelled);
            &&& event.action is Pressed && event.button == 1 ==> (now matches Some(drag) && drag.last.x == event.x
                && drag.last.y == event.y && drag.travelled == 0)
            &&& event.action is Pressed && event.button != 1 ==> now == was
            &&& event.action is Moved && was is Some ==> (now matches Some(drag) && drag.last.x == event.x && drag.last.y
                == event.y && drag.travelled == travelled)
            &&& event.action is Moved && was is None ==> now is None
            &&& event.action is Released || event.action is Left ==> now is None
            &&& event.action is Scrolled ==> now == was
        }),
{
}

/// There is a globe where a tab shows one, and it is the first such tab.
pub proof fn the_globe_is_the_tab_that_shows_it(views: Seq<Tab>)
    ensures
        (forall|i: int| 0 <= i < views.len() ==> !((#[trigger] views[i]).kind is Globe)) ==> globe_in(views) is None,
        globe_in(views) matches Some((view, globe)) ==> exists|i: int|
            0 <= i < views.len() && (#[trigger] views[i]).id == view && views[i].kind == ViewKind::Globe(globe),
{
    nav::the_only_tab_is_found(views, NewTab::Globe);
    if let Some(view) = nav::only_one(views, NewTab::Globe) {
        screen::view_place_is_first(views, view);
    }
}

/// A click is a press that was let go after no more than the slop; a way further than that
/// is a turn.
pub proof fn a_click_is_a_press_let_go_in_place(drag: Drag, event: PointerEvent)
    ensures
        event.action is Released && drag.travelled <= CLICK_SLOP ==> was_click(Some(drag), event),
        CLICK_SLOP < drag.travelled < 0x8000_0000 ==> !was_click(Some(drag), event),
        !(event.action is Released) ==> !was_click(Some(drag), event),
        !was_click(None, event),
{
}

} // verus!
