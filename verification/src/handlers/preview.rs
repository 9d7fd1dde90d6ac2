//! A tab that shows one snapshot: the file is opened, handed over to the canvas, and
//! gestures over the canvas are told it as movements of its camera.
//!
//! Whose an answer is and whether it still matters are two questions. The first is
//! answered by the table of marks, the second by the tab: it may have been closed, or
//! have asked for something else.

use vstd::prelude::*;
use crate::calls::{self, Call};
use crate::handlers::browse;
use crate::handlers::nav;
use crate::message::{PointerAction, PointerEvent, ViewportSize};
use crate::number;
use crate::proto::{ImageryRaster, ImageryResponse, ImageryRole};
use crate::state::globe::{Spot, Surface};
use crate::state::ids::{self, PaneId, ViewId};
use crate::state::overlay::Handle;
use crate::state::preview::{PreviewState, ViewState};
use crate::state::request::Reply;
use crate::state::screen::{self, Screen, ViewKind};
use crate::state::{self, State};

verus! {

broadcast use vstd::string::group_string_axioms;

// -- To open a snapshot --

/// The record of the library, as it is written.
pub open spec fn entry_of(entry: Option<String>) -> Option<Seq<char>> {
    match entry {
        Some(name) => Some(name@),
        None => None,
    }
}

/// A tab of which nothing is to be seen yet, and which waits for this answer.
pub open spec fn is_waiting(preview: PreviewState, label: Seq<char>, entry: Option<Seq<char>>, mark: Seq<char>) -> bool {
    &&& preview.label@ == label
    &&& entry_of(preview.entry) == entry
    &&& preview.error is None
    &&& preview.surface is None
    &&& preview.dragging is None
    &&& preview.view_state is None
    &&& !preview.replaced
    &&& preview.request.waiting() == Some(mark)
}

/// What a new tab waits for.
#[derive(Clone, Copy, PartialEq, Eq, Structural, Debug)]
pub enum Awaited {
    /// An open file.
    File,
    /// The rasters of a product.
    Rasters,
}

/// A tab was opened on a snapshot in a pane, and something was asked for it.
pub open spec fn tab_opened(
    before: State,
    after: State,
    pane: PaneId,
    label: Seq<char>,
    entry: Option<Seq<char>>,
    awaited: Awaited,
    call: calls::CallView,
) -> bool {
    let view = ViewId { number: before.screen.next };
    let mark = before.next_mark();
    &&& after == (State {
        screen: after.screen,
        asked: state::one_more(before.asked),
        previews: after.previews,
        preview_imagery: after.preview_imagery,
        calls: after.calls,
        ..before
    })
    &&& screen::kind_in(after.screen.views@, view) matches Some(ViewKind::Preview(now)) && {
        &&& is_waiting(now, label, entry, mark)
        &&& screen::opened(before.screen, after.screen, pane, ViewKind::Preview(now))
    }
    &&& after.previews@ == match awaited {
        Awaited::File => before.previews@.insert(mark, view),
        Awaited::Rasters => before.previews@,
    }
    &&& after.preview_imagery@ == match awaited {
        Awaited::File => before.preview_imagery@,
        Awaited::Rasters => before.preview_imagery@.insert(mark, view),
    }
    &&& after.said() == before.said().push(call)
}

/// What is asked for a snapshot: of the library when it is downloaded, and of the
/// provider otherwise.
pub open spec fn opening(label: Seq<char>, entry: Option<Seq<char>>, mark: Seq<char>) -> calls::CallView {
    match entry {
        Some(name) => calls::CallView::OpenLocal { name, correlation: mark },
        None => calls::CallView::OpenRemote { identifier: label, correlation: mark },
    }
}

/// Opens a tab and marks its question; the question itself is the caller's.
fn begin_open(state: &mut State, pane: PaneId, label: String, entry: Option<String>) -> (both: (ViewId, String))
    requires
        old(state).screen.whole(),
        old(state).screen.next < u64::MAX,
    ensures
        both.0.number == old(state).screen.next,
        both.1@ == old(state).next_mark(),
        *final(state) == (State {
            screen: final(state).screen,
            asked: state::one_more(old(state).asked),
            ..*old(state)
        }),
        screen::kind_in(final(state).screen.views@, both.0) matches Some(ViewKind::Preview(now)) && is_waiting(
            now,
            label@,
            entry_of(entry),
            both.1@,
        ) && screen::opened(old(state).screen, final(state).screen, pane, ViewKind::Preview(now)),
        final(state).screen.whole(),
{
    let ghost before = *state;
    let view: ViewId = nav::open_preview(state, pane, label, entry);
    let ghost middle = *state;
    let correlation: String = state.mark();
    let ghost mut now: PreviewState = arbitrary();
    if let Some(preview) = state.screen.preview_mut(view) {
        preview.request.begin(correlation.clone());
        proof {
            now = *preview;
        }
    }
    proof {
        if let Some(kind) = screen::kind_in(middle.screen.views@, view) {
            screen::opened_and_told(before.screen, middle.screen, state.screen, pane, kind, ViewKind::Preview(now));
        }
    }
    (view, correlation)
}

/// Opens a downloaded file: where it lies only the library knows.
pub fn on_view_local_pressed(state: &mut State, from: ViewId, name: String)
    requires
        old(state).screen.whole(),
        old(state).screen.next < u64::MAX,
    ensures
        if name@.len() == 0 {
            *final(state) == *old(state)
        } else {
            tab_opened(
                (State { open: None, ..*old(state) }),
                *final(state),
                screen::pane_in(old(state).screen, from),
                name@,
                Some(name@),
                Awaited::File,
                opening(name@, Some(name@), old(state).next_mark()),
            )
        },
        final(state).screen.whole(),
{
    if name.as_str().is_empty() {
        return;
    }
    state.close_menus();
    let pane: PaneId = nav::half_of(state, from);
    let (view, correlation): (ViewId, String) = begin_open(state, pane, name.clone(), Some(name.clone()));
    state.previews.insert(correlation.clone(), view);
    let call: Call = Call::OpenLocal { name, correlation };
    proof {
        calls::said_push(state.calls@, call);
    }
    state.calls.push(call);
}

/// Opens a file that is not downloaded: only the provider can sign the request for it.
pub fn on_view_remote_pressed(state: &mut State, from: ViewId, identifier: String)
    requires
        old(state).screen.whole(),
        old(state).screen.next < u64::MAX,
    ensures
        if identifier@.len() == 0 {
            *final(state) == *old(state)
        } else {
            tab_opened(
                (State { open: None, ..*old(state) }),
                *final(state),
                screen::pane_in(old(state).screen, from),
                identifier@,
                None,
                Awaited::File,
                opening(identifier@, None, old(state).next_mark()),
            )
        },
        final(state).screen.whole(),
{
    if identifier.as_str().is_empty() {
        return;
    }
    state.close_menus();
    let pane: PaneId = nav::half_of(state, from);
    let (view, correlation): (ViewId, String) = begin_open(state, pane, identifier.clone(), None);
    state.previews.insert(correlation.clone(), view);
    let call: Call = Call::OpenRemote { identifier, correlation };
    proof {
        calls::said_push(state.calls@, call);
    }
    state.calls.push(call);
}

/// Shows a snapshot that lies as a folder. It cannot be opened itself, and which of the
/// rasters in it to show only the provider knows: they are asked for first. The tab is
/// opened at once, for silence would read as nothing having happened.
pub fn on_view_product_pressed(state: &mut State, from: ViewId, identifier: String)
    requires
        old(state).screen.whole(),
        old(state).screen.next < u64::MAX,
    ensures
        if identifier@.len() == 0 {
            *final(state) == *old(state)
        } else {
            tab_opened(
                (State { open: None, ..*old(state) }),
                *final(state),
                screen::pane_in(old(state).screen, from),
                identifier@,
                None,
                Awaited::Rasters,
                calls::CallView::Imagery { identifier: identifier@, correlation: old(state).next_mark() },
            )
        },
        final(state).screen.whole(),
{
    if identifier.as_str().is_empty() {
        return;
    }
    state.close_menus();
    let pane: PaneId = nav::half_of(state, from);
    let (view, correlation): (ViewId, String) = begin_open(state, pane, identifier.clone(), None);
    state.preview_imagery.insert(correlation.clone(), view);
    let call: Call = Call::Imagery { identifier, correlation };
    proof {
        calls::said_push(state.calls@, call);
    }
    state.calls.push(call);
}

/// Opens a snapshot anew, as a remembered tab comes back. The pane is named outright,
/// and the snapshot by what it was called.
pub fn reopen(state: &mut State, pane: PaneId, label: String, entry: Option<String>)
    requires
        old(state).screen.whole(),
        old(state).screen.next < u64::MAX,
    ensures
        if label@.len() == 0 {
            *final(state) == *old(state)
        } else {
            tab_opened(
                *old(state),
                *final(state),
                pane,
                label@,
                entry_of(entry),
                Awaited::File,
                opening(label@, entry_of(entry), old(state).next_mark()),
            )
        },
        final(state).screen.whole(),
{
    if label.as_str().is_empty() {
        return;
    }
    let local: Option<String> = match &entry {
        Some(name) => Some(name.clone()),
        None => None,
    };
    let (view, correlation): (ViewId, String) = begin_open(state, pane, label.clone(), entry);
    state.previews.insert(correlation.clone(), view);
    let call: Call = match local {
        Some(name) => Call::OpenLocal { name, correlation },
        None => Call::OpenRemote { identifier: label, correlation },
    };
    proof {
        calls::said_push(state.calls@, call);
    }
    state.calls.push(call);
}

// -- What has come --

/// Only one tab of a snapshot has changed.
pub open spec fn only_preview(before: State, after: State, view: ViewId, now: PreviewState) -> bool {
    &&& after == (State { screen: Screen { views: after.screen.views, ..before.screen }, ..before })
    &&& after.screen.views@ == screen::with_kind(before.screen.views@, view, ViewKind::Preview(now))
}

/// The first raster to look at closely.
pub open spec fn first_detailed(rasters: Seq<ImageryRaster>) -> Option<ImageryRaster>
    decreases rasters.len(),
{
    if rasters.len() == 0 {
        None
    } else if rasters[0].role == ImageryRole::ImageryDetailed {
        Some(rasters[0])
    } else {
        first_detailed(rasters.skip(1))
    }
}

/// The raster to show: one to look at closely, or else whatever there is. A small
/// picture is better than none.
pub open spec fn best_raster(rasters: Seq<ImageryRaster>) -> Option<ImageryRaster> {
    match first_detailed(rasters) {
        Some(raster) => Some(raster),
        None => if rasters.len() > 0 { Some(rasters[0]) } else { None },
    }
}

fn choose_raster<'a>(rasters: &'a Vec<ImageryRaster>) -> (raster: Option<&'a ImageryRaster>)
    ensures
        match raster {
            Some(raster) => best_raster(rasters@) == Some(*raster),
            None => best_raster(rasters@) is None,
        },
{
    let ghost all = rasters@;
    let mut i: usize = 0;
    assert(all.skip(0) =~= all);
    while i < rasters.len()
        invariant
            i <= all.len(),
            all == rasters@,
            first_detailed(all.skip(i as int)) == first_detailed(all),
        decreases all.len() - i,
    {
        assert(all.skip(i as int)[0] == all[i as int]);
        if rasters[i].role == ImageryRole::ImageryDetailed {
            return Some(&rasters[i]);
        }
        assert(all.skip(i as int).skip(1) =~= all.skip(i + 1));
        i += 1;
    }
    if rasters.len() > 0 { Some(&rasters[0]) } else { None }
}

/// Why a snapshot is not shown, by the provider's word or by our own.
pub open spec fn nothing_inside(response: ImageryResponse) -> Seq<char> {
    if response.error@.len() == 0 { "внутри снимка нечего показать"@ } else { response.error@ }
}

/// The rasters of a snapshot have come: the best of them is opened, under its own name.
/// A tab that is closed, or has asked for something else, takes no notice.
pub open spec fn rasters_came(
    before: State,
    after: State,
    view: ViewId,
    correlation: Seq<char>,
    response: ImageryResponse,
) -> bool {
    let mark = before.next_mark();
    match screen::kind_in(before.screen.views@, view) {
        Some(ViewKind::Preview(was)) => if was.request.waiting() != Some(correlation) {
            after == before
        } else {
            match best_raster(response.rasters@) {
                None => exists|now: PreviewState| {
                    &&& #[trigger] only_preview(before, after, view, now)
                    &&& now == (PreviewState { error: now.error, request: now.request, ..was })
                    &&& now.error matches Some(error) && error@ == nothing_inside(response)
                    &&& now.request.waiting() is None
                },
                Some(raster) => exists|now: PreviewState, middle: State| {
                    &&& #[trigger] only_preview(before, middle, view, now)
                    &&& now == (PreviewState { label: now.label, request: now.request, ..was })
                    &&& now.label@ == raster.identifier@
                    &&& now.request.waiting() == Some(mark)
                    &&& after == (State {
                        asked: state::one_more(before.asked),
                        previews: after.previews,
                        calls: after.calls,
                        ..middle
                    })
                    &&& after.previews@ == before.previews@.insert(mark, view)
                    &&& after.said() == before.said().push(
                        calls::CallView::OpenRemote { identifier: raster.identifier@, correlation: mark },
                    )
                },
            }
        },
        _ => after == before,
    }
}

/// The rasters of a snapshot have come. Says whether they were asked for here: a layer
/// asks for them too.
pub fn on_imagery_result(state: &mut State, correlation: &str, response: &ImageryResponse) -> (ours: bool)
    ensures
        ours == old(state).preview_imagery@.contains_key(correlation@),
        if ours {
            exists|middle: State|
                middle == (State { preview_imagery: middle.preview_imagery, ..*old(state) }) && middle.preview_imagery@
                    == old(state).preview_imagery@.remove(correlation@) && #[trigger] rasters_came(
                    middle,
                    *final(state),
                    old(state).preview_imagery@[correlation@],
                    correlation@,
                    *response,
                )
        } else {
            *final(state) == *old(state)
        },
        old(state).screen.whole() ==> final(state).screen.whole(),
{
    if !state.preview_imagery.contains_key(correlation) {
        return false;
    }
    let taken: Option<ViewId> = state.preview_imagery.remove(correlation);
    let Some(view) = taken else {
        return false;
    };
    let ghost middle = *state;
    let ghost views = state.screen.views@;
    proof {
        browse::told_kind(views, view);
    }
    let current: bool = match state.screen.get(view) {
        Some(ViewKind::Preview(preview)) => preview.request.status(correlation) == Reply::Current,
        _ => false,
    };
    if !current {
        assert(rasters_came(middle, *state, view, correlation@, *response));
        return true;
    }
    match choose_raster(&response.rasters) {
        None => {
            if let Some(preview) = state.screen.preview_mut(view) {
                preview.request.settle(correlation);
                preview.error = Some(
                    if response.error.as_str().is_empty() {
                        "внутри снимка нечего показать".to_owned()
                    } else {
                        response.error.clone()
                    },
                );
            }
            proof {
                if let Some(ViewKind::Preview(now)) = screen::kind_in(state.screen.views@, view) {
                    assert(only_preview(middle, *state, view, now));
                }
            }
        },
        Some(raster) => {
            let identifier: String = raster.identifier.clone();
            let mark: String = number::decimal(state.asked as u128);
            if let Some(preview) = state.screen.preview_mut(view) {
                preview.label = identifier.clone();
                preview.request.begin(mark);
            }
            let ghost told = *state;
            proof {
                if let Some(ViewKind::Preview(now)) = screen::kind_in(state.screen.views@, view) {
                    assert(only_preview(middle, told, view, now));
                }
            }
            let correlation: String = state.mark();
            state.previews.insert(correlation.clone(), view);
            let call: Call = Call::OpenRemote { identifier, correlation };
            proof {
                calls::said_push(state.calls@, call);
            }
            state.calls.push(call);
        },
    }
    assert(rasters_came(middle, *state, view, correlation@, *response));
    true
}

/// Something did not work out, and the tab says what.
pub open spec fn failed(before: State, after: State, view: ViewId, error: String) -> bool {
    match screen::kind_in(before.screen.views@, view) {
        Some(ViewKind::Preview(was)) => only_preview(before, after, view, PreviewState { error: Some(error), ..was }),
        _ => after == before,
    }
}

fn fail(state: &mut State, view: ViewId, error: String)
    ensures
        failed(*old(state), *final(state), view, error),
        old(state).screen.whole() ==> final(state).screen.whole(),
{
    let there: bool = match state.screen.get(view) {
        Some(ViewKind::Preview(_)) => true,
        _ => false,
    };
    if !there {
        return;
    }
    if let Some(preview) = state.screen.preview_mut(view) {
        preview.error = Some(error);
    }
}

/// The answer to the question that a tab waits for was taken.
pub open spec fn settled(before: State, after: State, view: ViewId) -> bool {
    &&& screen::kind_in(before.screen.views@, view) matches Some(ViewKind::Preview(was)) && screen::kind_in(
        after.screen.views@,
        view,
    ) matches Some(ViewKind::Preview(now)) && {
        &&& now == (PreviewState { request: now.request, ..was })
        &&& now.request.waiting() is None
        &&& only_preview(before, after, view, now)
    }
}

/// A file has been opened for a tab. Where the tab waits for it, the file is handed
/// over to the canvas. Where it does not, the file is ours all the same and is let go:
/// dropping it would lose what is open on the other side.
pub open spec fn file_came(
    before: State,
    after: State,
    view: ViewId,
    correlation: Seq<char>,
    handle: Option<Handle>,
    accepted: Result<Handle, String>,
) -> bool {
    let current = screen::kind_in(before.screen.views@, view) matches Some(ViewKind::Preview(was))
        && was.request.waiting() == Some(correlation);
    if !current {
        &&& after == (State { calls: after.calls, ..before })
        &&& after.said() == match handle {
            Some(handle) => before.said().push(calls::CallView::Release { handle }),
            None => before.said(),
        }
    } else {
        exists|middle: State| #[trigger] settled(before, middle, view) && match accepted {
            Err(error) => failed(middle, after, view, error),
            Ok(handle) => {
                &&& after == (State { calls: after.calls, ..middle })
                &&& after.said() == middle.said().push(calls::CallView::GiveToCanvas { view, handle })
            },
        }
    }
}

/// A file is open, whoever opened it. `handle` is the file, and `accepted` what came of
/// taking it into possession. Says whether it was asked for here.
pub fn on_resource_opened(
    state: &mut State,
    correlation: &str,
    handle: Option<Handle>,
    accepted: Result<Handle, String>,
) -> (ours: bool)
    ensures
        ours == old(state).previews@.contains_key(correlation@),
        if ours {
            exists|middle: State|
                middle == (State { previews: middle.previews, ..*old(state) }) && middle.previews@ == old(
                    state,
                ).previews@.remove(correlation@) && #[trigger] file_came(
                    middle,
                    *final(state),
                    old(state).previews@[correlation@],
                    correlation@,
                    handle,
                    accepted,
                )
        } else {
            *final(state) == *old(state)
        },
        old(state).screen.whole() ==> final(state).screen.whole(),
{
    if !state.previews.contains_key(correlation) {
        return false;
    }
    let taken: Option<ViewId> = state.previews.remove(correlation);
    let Some(view) = taken else {
        return false;
    };
    let ghost middle = *state;
    proof {
        browse::told_kind(state.screen.views@, view);
    }
    let current: bool = match state.screen.get(view) {
        Some(ViewKind::Preview(preview)) => preview.request.status(correlation) == Reply::Current,
        _ => false,
    };
    if !current {
        if let Some(handle) = handle {
            let call: Call = Call::Release { handle };
            proof {
                calls::said_push(state.calls@, call);
            }
            state.calls.push(call);
        }
        assert(file_came(middle, *state, view, correlation@, handle, accepted));
        return true;
    }
    if let Some(preview) = state.screen.preview_mut(view) {
        preview.request.settle(correlation);
    }
    let ghost told = *state;
    assert(settled(middle, told, view));
    match accepted {
        Err(error) => fail(state, view, error),
        Ok(handle) => {
            let call: Call = Call::GiveToCanvas { view, handle };
            proof {
                calls::said_push(state.calls@, call);
            }
            state.calls.push(call);
        },
    }
    assert(file_came(middle, *state, view, correlation@, handle, accepted));
    true
}

/// The canvas has the file of a tab, or could not be given it; only then is it told to
/// show it. A tab that was closed meanwhile shows nothing.
pub fn on_given(state: &mut State, view: ViewId, given: Result<Handle, String>)
    ensures
        match given {
            Err(error) => failed(*old(state), *final(state), view, error),
            Ok(resource) => match screen::kind_in(old(state).screen.views@, view) {
                Some(ViewKind::Preview(preview)) => {
                    &&& *final(state) == (State { calls: final(state).calls, ..*old(state) })
                    &&& final(state).said() == old(state).said().push(
                        calls::CallView::Show { view, resource, label: preview.label@ },
                    )
                },
                _ => *final(state) == *old(state),
            },
        },
        old(state).screen.whole() ==> final(state).screen.whole(),
{
    match given {
        Err(error) => fail(state, view, error),
        Ok(resource) => {
            let label: String = match state.screen.get(view) {
                Some(ViewKind::Preview(preview)) => preview.label.clone(),
                _ => {
                    return;
                },
            };
            let call: Call = Call::Show { view, resource, label };
            proof {
                calls::said_push(state.calls@, call);
            }
            state.calls.push(call);
        },
    }
}

// -- The place of the canvas --

/// A place is of this size already.
pub open spec fn covers(surface: Option<Surface>, width: u32, height: u32) -> bool {
    surface matches Some(surface) && surface.width == width && surface.height == height
}

/// The canvas of a tab has another size. While the size is the same nothing is done:
/// another place on every count of the layout would be another texture each time.
pub fn on_resized(state: &mut State, view: ViewId, size: ViewportSize)
    ensures
        *final(state) == (State { calls: final(state).calls, ..*old(state) }),
        final(state).said() == match screen::kind_in(old(state).screen.views@, view) {
            Some(ViewKind::Preview(preview)) => if covers(preview.surface, size.width, size.height) {
                old(state).said()
            } else {
                old(state).said().push(
                    calls::CallView::PlacePreview { view, width: size.width, height: size.height },
                )
            },
            _ => old(state).said(),
        },
{
    let stays: bool = match state.screen.get(view) {
        Some(ViewKind::Preview(preview)) => match preview.surface {
            Some(surface) => surface.width == size.width && surface.height == size.height,
            None => false,
        },
        _ => {
            return;
        },
    };
    if stays {
        return;
    }
    let call: Call = Call::PlacePreview { view, width: size.width, height: size.height };
    proof {
        calls::said_push(state.calls@, call);
    }
    state.calls.push(call);
}

/// A place was made for the canvas of a tab, or the earlier one was left.
pub fn on_placed(state: &mut State, view: ViewId, surface: Option<Surface>)
    ensures
        match screen::kind_in(old(state).screen.views@, view) {
            Some(ViewKind::Preview(was)) => only_preview(
                *old(state),
                *final(state),
                view,
                (PreviewState { surface, ..was }),
            ),
            _ => *final(state) == *old(state),
        },
        old(state).screen.whole() ==> final(state).screen.whole(),
{
    let there: bool = match state.screen.get(view) {
        Some(ViewKind::Preview(_)) => true,
        _ => false,
    };
    if !there {
        return;
    }
    if let Some(preview) = state.screen.preview_mut(view) {
        preview.surface = surface;
    }
}

/// What the canvas says of a tab was taken down. Where it has no place for its picture
/// it is given one of the same size, once for a complaint: what passes is healed by the
/// first, and what does not would go round in a circle.
pub open spec fn heard(before: State, after: State, view: ViewId, told: ViewState) -> bool {
    match screen::kind_in(before.screen.views@, view) {
        Some(ViewKind::Preview(was)) => exists|middle: State| {
            &&& #[trigger] only_preview(
                before,
                middle,
                view,
                PreviewState { replaced: told.needs_place, view_state: Some(told), ..was },
            )
            &&& after == (State { calls: after.calls, ..middle })
            &&& after.said() == match was.surface {
                Some(place) => if told.needs_place && !was.replaced {
                    before.said().push(
                        calls::CallView::PlacePreview { view, width: place.width, height: place.height },
                    )
                } else {
                    before.said()
                },
                None => before.said(),
            }
        },
        _ => after == before,
    }
}

/// The canvas reports on a tab. Which one, it says itself; a tab that is closed, or that
/// is written so that it cannot be read, has nobody to be told.
pub fn on_view_state(state: &mut State, view_state: ViewState)
    ensures
        match ids::read_id(view_state.view@) {
            Some(number) => heard(*old(state), *final(state), ViewId { number: number as u64 }, view_state),
            None => *final(state) == *old(state),
        },
        old(state).screen.whole() ==> final(state).screen.whole(),
{
    let ghost before = *state;
    let ghost told = view_state;
    let Some(view) = ViewId::parse(&view_state.view) else {
        return;
    };
    let (retry, size): (bool, Option<Surface>) = match state.screen.get(view) {
        Some(ViewKind::Preview(preview)) => (view_state.needs_place && !preview.replaced, preview.surface),
        _ => {
            return;
        },
    };
    if let Some(preview) = state.screen.preview_mut(view) {
        preview.replaced = view_state.needs_place;
        preview.view_state = Some(view_state);
    }
    let ghost middle = *state;
    proof {
        if let Some(ViewKind::Preview(was)) = screen::kind_in(before.screen.views@, view) {
            assert(only_preview(
                before,
                middle,
                view,
                PreviewState { replaced: told.needs_place, view_state: Some(told), ..was },
            ));
        }
    }
    if retry {
        if let Some(place) = size {
            let call: Call = Call::PlacePreview { view, width: place.width, height: place.height };
            proof {
                calls::said_push(state.calls@, call);
            }
            state.calls.push(call);
        }
    }
}

// -- Gestures --

/// Bits that stand for a number, and not for none or for one without an end.
pub open spec fn is_finite(bits: u32) -> bool {
    bits % 0x8000_0000 < 0x7f80_0000
}

/// Bits that stand for nothing, of either sign.
pub open spec fn is_nought(bits: u32) -> bool {
    bits % 0x8000_0000 == 0
}

/// The difference of two numbers is not nought.
pub open spec fn differ(from: u32, to: u32) -> bool {
    !(is_finite(from) && is_finite(to) && (from == to || (is_nought(from) && is_nought(to))))
}

/// A pointer has moved from one place to another.
pub open spec fn has_moved(from: Spot, to: Spot) -> bool {
    differ(from.x, to.x) || differ(from.y, to.y)
}

fn apart(from: u32, to: u32) -> (yes: bool)
    ensures
        yes == differ(from, to),
{
    let finite: bool = from % 0x8000_0000 < 0x7f80_0000 && to % 0x8000_0000 < 0x7f80_0000;
    let nought: bool = from % 0x8000_0000 == 0 && to % 0x8000_0000 == 0;
    !(finite && (from == to || nought))
}

/// A pointer has moved.
pub fn moves(from: Spot, to: Spot) -> (yes: bool)
    ensures
        yes == has_moved(from, to),
{
    apart(from.x, to.x) || apart(from.y, to.y)
}

/// What a pointer over a canvas does: dragging moves the picture, and the wheel scales
/// it around the pointer. Only the left button drags.
pub open spec fn gestured(was: PreviewState, view: ViewId, event: PointerEvent) -> (Option<Spot>, Seq<calls::CallView>) {
    let at = Spot { x: event.x, y: event.y };
    match event.action {
        PointerAction::Pressed => (if event.button == 1 { Some(at) } else { was.dragging }, Seq::empty()),
        PointerAction::Moved => match was.dragging {
            Some(last) => (
                Some(at),
                if has_moved(last, at) { seq![calls::CallView::Pan { view, from: last, to: at }] } else { Seq::empty() },
            ),
            None => (None, Seq::empty()),
        },
        PointerAction::Released => (None, Seq::empty()),
        PointerAction::Left => (None, Seq::empty()),
        PointerAction::Scrolled => (
            was.dragging,
            if is_nought(event.scroll_y) {
                Seq::empty()
            } else {
                seq![calls::CallView::ZoomAt { view, at, scroll: event.scroll_y }]
            },
        ),
    }
}

/// A pointer over a canvas. A canvas that has no place yet takes no notice.
pub fn on_pointer(state: &mut State, view: ViewId, event: PointerEvent)
    ensures
        match screen::kind_in(old(state).screen.views@, view) {
            Some(ViewKind::Preview(was)) => if was.surface is None {
                *final(state) == *old(state)
            } else {
                let (dragging, said) = gestured(was, view, event);
                &&& *final(state) == (State {
                    screen: Screen { views: final(state).screen.views, ..old(state).screen },
                    calls: final(state).calls,
                    ..*old(state)
                })
                &&& final(state).screen.views@ == screen::with_kind(
                    old(state).screen.views@,
                    view,
                    ViewKind::Preview(PreviewState { dragging, ..was }),
                )
                &&& final(state).said() == old(state).said() + said
            },
            _ => *final(state) == *old(state),
        },
        old(state).screen.whole() ==> final(state).screen.whole(),
{
    let ghost before = state.said();
    assert(before + Seq::empty() =~= before);
    let at: Spot = Spot { x: event.x, y: event.y };
    let was: Option<Spot> = match state.screen.get(view) {
        Some(ViewKind::Preview(preview)) => {
            if preview.surface.is_none() {
                return;
            }
            preview.dragging
        },
        _ => {
            return;
        },
    };
    let (dragging, call): (Option<Spot>, Option<Call>) = match event.action {
        PointerAction::Pressed => (if event.button == 1 { Some(at) } else { was }, None),
        PointerAction::Moved => match was {
            Some(last) => (Some(at), if moves(last, at) { Some(Call::Pan { view, from: last, to: at }) } else { None }),
            None => (None, None),
        },
        PointerAction::Released => (None, None),
        PointerAction::Left => (None, None),
        PointerAction::Scrolled => (
            was,
            if event.scroll_y % 0x8000_0000 == 0 {
                None
            } else {
                Some(Call::ZoomAt { view, at, scroll: event.scroll_y })
            },
        ),
    };
    if let Some(preview) = state.screen.preview_mut(view) {
        preview.dragging = dragging;
    }
    if let Some(call) = call {
        proof {
            calls::said_push(state.calls@, call);
            assert(before.push(call@) =~= before + seq![call@]);
        }
        state.calls.push(call);
    }
}

/// Fits the picture into its canvas.
pub fn on_fit(state: &mut State, view: ViewId)
    ensures
        *final(state) == (State { calls: final(state).calls, ..*old(state) }),
        final(state).said() == if screen::kind_in(old(state).screen.views@, view) matches Some(ViewKind::Preview(_)) {
            old(state).said().push(calls::CallView::Fit { view })
        } else {
            old(state).said()
        },
{
    let there: bool = match state.screen.get(view) {
        Some(ViewKind::Preview(_)) => true,
        _ => false,
    };
    if there {
        let call: Call = Call::Fit { view };
        proof {
            calls::said_push(state.calls@, call);
        }
        state.calls.push(call);
    }
}

/// Bits that stand for a number above nought.
pub open spec fn is_above_nought(bits: u32) -> bool {
    0 < bits <= 0x7f80_0000
}

/// Scales the picture by one step around the middle of its canvas; which way, the sign
/// of the number says that these bits stand for.
pub fn on_zoom_step(state: &mut State, view: ViewId, direction: u32)
    ensures
        *final(state) == (State { calls: final(state).calls, ..*old(state) }),
        final(state).said() == match screen::kind_in(old(state).screen.views@, view) {
            Some(ViewKind::Preview(preview)) => match preview.surface {
                Some(surface) => old(state).said().push(
                    calls::CallView::ZoomStep {
                        view,
                        width: surface.width,
                        height: surface.height,
                        closer: is_above_nought(direction),
                    },
                ),
                None => old(state).said(),
            },
            _ => old(state).said(),
        },
{
    let surface: Surface = match state.screen.get(view) {
        Some(ViewKind::Preview(preview)) => match preview.surface {
            Some(surface) => surface,
            None => {
                return;
            },
        },
        _ => {
            return;
        },
    };
    let closer: bool = 0 < direction && direction <= 0x7f80_0000;
    let call: Call = Call::ZoomStep { view, width: surface.width, height: surface.height, closer };
    proof {
        calls::said_push(state.calls@, call);
    }
    state.calls.push(call);
}

// -- Laws --

/// A picture that is looked at gets a tab of its own, in the pane that was asked for; it is
/// called as it was asked to be, waits for its file, and the file is asked for once.
pub proof fn what_is_looked_at_gets_a_tab(
    before: State,
    after: State,
    pane: PaneId,
    label: Seq<char>,
    entry: Option<Seq<char>>,
    awaited: Awaited,
    call: calls::CallView,
)
    requires
        before.screen.whole(),
        tab_opened(before, after, pane, label, entry, awaited, call),
    ensures
        after.screen.views@.len() == before.screen.views@.len() + 1,
        after.screen.views@.last().kind matches ViewKind::Preview(now) && now.label@ == label && entry_of(now.entry) == entry
            && now.error is None && now.request.waiting() == Some(before.next_mark()),
        after.said().len() == before.said().len() + 1,
        after.said().last() == call,
        awaited is File ==> after.previews@.contains_key(before.next_mark()) && after.previews@[before.next_mark()]
            == after.screen.views@.last().id,
        awaited is Rasters ==> after.preview_imagery@.contains_key(before.next_mark())
            && after.preview_imagery@[before.next_mark()] == after.screen.views@.last().id,
        screen::has_pane(before.screen.panes(), pane) ==> after.screen.views@.last().pane == pane,
{
    let view = ViewId { number: before.screen.next };
    if let Some(ViewKind::Preview(now)) = screen::kind_in(after.screen.views@, view) {
        assert(after.screen.views@ =~= before.screen.views@.push(after.screen.views@.last()));
    }
}

/// What is here is opened by the name of its record, and what is not by its key.
pub proof fn what_is_here_is_opened_here(label: Seq<char>, name: Seq<char>, mark: Seq<char>)
    ensures
        opening(label, Some(name), mark) matches calls::CallView::OpenLocal { name: asked, correlation } && asked == name
            && correlation == mark,
        opening(label, None, mark) matches calls::CallView::OpenRemote { identifier, correlation } && identifier == label
            && correlation == mark,
{
}

/// Of the rasters of a product the first detailed one is looked at, and the first of all
/// where none is detailed.
pub proof fn the_best_raster_is_looked_at(rasters: Seq<ImageryRaster>, at: int)
    ensures
        0 <= at < rasters.len() && rasters[at].role is ImageryDetailed && (forall|j: int|
            0 <= j < at ==> !((#[trigger] rasters[j]).role is ImageryDetailed)) ==> best_raster(rasters) == Some(rasters[at]),
        rasters.len() > 0 && (forall|j: int| 0 <= j < rasters.len() ==> !((#[trigger] rasters[j]).role is ImageryDetailed))
            ==> best_raster(rasters) == Some(rasters[0]),
        rasters.len() == 0 ==> best_raster(rasters) is None,
{
    if 0 <= at < rasters.len() && rasters[at].role is ImageryDetailed && (forall|j: int|
        0 <= j < at ==> !((#[trigger] rasters[j]).role is ImageryDetailed)) {
        the_first_detailed(rasters, at);
    }
    if forall|j: int| 0 <= j < rasters.len() ==> !((#[trigger] rasters[j]).role is ImageryDetailed) {
        none_detailed(rasters);
    }
}

proof fn the_first_detailed(rasters: Seq<ImageryRaster>, at: int)
    requires
        0 <= at < rasters.len(),
        rasters[at].role is ImageryDetailed,
        forall|j: int| 0 <= j < at ==> !((#[trigger] rasters[j]).role is ImageryDetailed),
    ensures
        first_detailed(rasters) == Some(rasters[at]),
    decreases rasters.len(),
{
    if at > 0 {
        assert(!(rasters[0].role is ImageryDetailed));
        assert forall|j: int| 0 <= j < at - 1 implies !((#[trigger] rasters.skip(1)[j]).role is ImageryDetailed) by {
            assert(rasters.skip(1)[j] == rasters[j + 1]);
        }
        assert(rasters.skip(1)[at - 1] == rasters[at]);
        the_first_detailed(rasters.skip(1), at - 1);
    }
}

proof fn none_detailed(rasters: Seq<ImageryRaster>)
    requires
        forall|j: int| 0 <= j < rasters.len() ==> !((#[trigger] rasters[j]).role is ImageryDetailed),
    ensures
        first_detailed(rasters) is None,
    decreases rasters.len(),
{
    if rasters.len() > 0 {
        assert(!(rasters[0].role is ImageryDetailed));
        assert forall|j: int| 0 <= j < rasters.skip(1).len() implies !((#[trigger] rasters.skip(1)[j]).role
            is ImageryDetailed) by {
            assert(rasters.skip(1)[j] == rasters[j + 1]);
        }
        none_detailed(rasters.skip(1));
    }
}

/// The best raster of a product is opened next, and the tab waits for it; a product without
/// rasters says why, and waits no longer; an answer that nobody waits for is not heard.
pub proof fn the_best_raster_is_opened(
    before: State,
    after: State,
    view: ViewId,
    correlation: Seq<char>,
    response: ImageryResponse,
    was: PreviewState,
)
    requires
        rasters_came(before, after, view, correlation, response),
        screen::kind_in(before.screen.views@, view) == Some(ViewKind::Preview(was)),
    ensures
        was.request.waiting() != Some(correlation) ==> after == before,
        was.request.waiting() == Some(correlation) && response.rasters@.len() == 0 ==> {
            &&& after.said() == before.said()
            &&& screen::kind_in(after.screen.views@, view) matches Some(ViewKind::Preview(now)) && now.request.waiting()
                is None && (now.error matches Some(error) && {
                &&& response.error@.len() > 0 ==> error@ == response.error@
                &&& response.error@.len() == 0 ==> error@ == "внутри снимка нечего показать"@
            })
        },
        was.request.waiting() == Some(correlation) ==> (best_raster(response.rasters@) matches Some(raster) ==> {
            &&& after.said() == before.said().push(
                calls::CallView::OpenRemote { identifier: raster.identifier@, correlation: before.next_mark() },
            )
            &&& after.previews@.contains_key(before.next_mark()) && after.previews@[before.next_mark()] == view
            &&& screen::kind_in(after.screen.views@, view) matches Some(ViewKind::Preview(now)) && now.label@
                == raster.identifier@ && now.request.waiting() == Some(before.next_mark())
        }),
{
    if was.request.waiting() == Some(correlation) {
        match best_raster(response.rasters@) {
            None => {
                let now = choose|now: PreviewState| {
                    &&& #[trigger] only_preview(before, after, view, now)
                    &&& now == (PreviewState { error: now.error, request: now.request, ..was })
                    &&& now.error matches Some(error) && error@ == nothing_inside(response)
                    &&& now.request.waiting() is None
                };
                screen::with_kind_keeps_places(before.screen.views@, view, ViewKind::Preview(now));
            },
            Some(raster) => {
                let mark = before.next_mark();
                let (now, middle) = choose|now: PreviewState, middle: State| {
                    &&& #[trigger] only_preview(before, middle, view, now)
                    &&& now == (PreviewState { label: now.label, request: now.request, ..was })
                    &&& now.label@ == raster.identifier@
                    &&& now.request.waiting() == Some(mark)
                    &&& after == (State {
                        asked: state::one_more(before.asked),
                        previews: after.previews,
                        calls: after.calls,
                        ..middle
                    })
                    &&& after.previews@ == before.previews@.insert(mark, view)
                    &&& after.said() == before.said().push(
                        calls::CallView::OpenRemote { identifier: raster.identifier@, correlation: mark },
                    )
                };
                screen::with_kind_keeps_places(before.screen.views@, view, ViewKind::Preview(now));
            },
        }
    }
}

/// A file that is waited for goes to the canvas of its tab; one that nobody waits for is
/// given back, and one that could not be opened says why.
pub proof fn a_file_goes_to_its_canvas(
    before: State,
    after: State,
    view: ViewId,
    correlation: Seq<char>,
    handle: Option<Handle>,
    accepted: Result<Handle, String>,
)
    requires
        file_came(before, after, view, correlation, handle, accepted),
    ensures
        !(screen::kind_in(before.screen.views@, view) matches Some(ViewKind::Preview(was)) && was.request.waiting() == Some(
            correlation,
        )) ==> {
            &&& handle matches Some(given) ==> after.said() == before.said().push(calls::CallView::Release { handle: given })
            &&& handle is None ==> after.said() == before.said()
            &&& after.screen == before.screen
        },
        (screen::kind_in(before.screen.views@, view) matches Some(ViewKind::Preview(was)) && was.request.waiting() == Some(
            correlation,
        )) ==> {
            &&& accepted matches Ok(given) ==> after.said() == before.said().push(
                calls::CallView::GiveToCanvas { view, handle: given },
            )
            &&& accepted matches Err(error) ==> after.said() == before.said() && (screen::kind_in(
                after.screen.views@,
                view,
            ) matches Some(ViewKind::Preview(now)) && now.error == Some(error))
        },
{
    if screen::kind_in(before.screen.views@, view) matches Some(ViewKind::Preview(was)) && was.request.waiting() == Some(
        correlation,
    ) {
        let middle = choose|middle: State| #[trigger] settled(before, middle, view) && match accepted {
            Err(error) => failed(middle, after, view, error),
            Ok(handle) => {
                &&& after == (State { calls: after.calls, ..middle })
                &&& after.said() == middle.said().push(calls::CallView::GiveToCanvas { view, handle })
            },
        };
        if let Err(error) = accepted {
            if let Some(ViewKind::Preview(was)) = screen::kind_in(middle.screen.views@, view) {
                screen::with_kind_keeps_places(
                    middle.screen.views@,
                    view,
                    ViewKind::Preview(PreviewState { error: Some(error), ..was }),
                );
            }
        }
    }
}

/// A picture is dragged from where the button went down to where the pointer goes, only
/// while the button is down, and is zoomed where the pointer is.
pub proof fn a_picture_follows_the_pointer(was: PreviewState, view: ViewId, event: PointerEvent)
    ensures
        ({
            let at = Spot { x: event.x, y: event.y };
            let (dragging, said) = gestured(was, view, event);
            &&& event.action is Pressed ==> said.len() == 0 && (event.button == 1 ==> dragging == Some(at)) && (event.button
                != 1 ==> dragging == was.dragging)
            &&& event.action is Released || event.action is Left ==> dragging is None && said.len() == 0
            &&& event.action is Moved && was.dragging is None ==> dragging is None && said.len() == 0
            &&& event.action is Moved ==> (was.dragging matches Some(last) ==> {
                &&& dragging == Some(at)
                &&& last == at && is_finite(at.x) && is_finite(at.y) ==> said.len() == 0
                &&& said.len() > 0 ==> said == seq![calls::CallView::Pan { view, from: last, to: at }]
                &&& is_finite(last.x) && is_finite(at.x) && last.x != at.x && !is_nought(last.x) ==> said.len() == 1
            })
            &&& event.action is Scrolled ==> dragging == was.dragging && (event.scroll_y % 0x8000_0000 == 0 ==> said.len()
                == 0) && (event.scroll_y % 0x8000_0000 != 0 ==> said == seq![
                calls::CallView::ZoomAt { view, at, scroll: event.scroll_y },
            ])
        }),
{
}

/// Two bits of nought are one nought, and what is no number differs from everything.
pub proof fn what_differs_has_moved(from: u32, to: u32)
    ensures
        is_finite(from) && from == to ==> !differ(from, to),
        !differ(0, 0x8000_0000),
        !is_finite(from) ==> differ(from, to),
        !is_finite(to) ==> differ(from, to),
        from != to && (from % 0x8000_0000 != 0 || to % 0x8000_0000 != 0) ==> differ(from, to),
{
}

/// A canvas that complains of its place is given the same place once more, once.
pub proof fn a_canvas_is_given_its_place_once(before: State, after: State, view: ViewId, told: ViewState, was: PreviewState)
    requires
        heard(before, after, view, told),
        screen::kind_in(before.screen.views@, view) == Some(ViewKind::Preview(was)),
    ensures
        screen::kind_in(after.screen.views@, view) matches Some(ViewKind::Preview(now)) && now.replaced == told.needs_place
            && now.view_state == Some(told) && now.surface == was.surface,
        told.needs_place && !was.replaced ==> (was.surface matches Some(place) ==> after.said() == before.said().push(
            calls::CallView::PlacePreview { view, width: place.width, height: place.height },
        )),
        !told.needs_place || was.replaced || was.surface is None ==> after.said() == before.said(),
{
    screen::with_kind_keeps_places(
        before.screen.views@,
        view,
        ViewKind::Preview(PreviewState { replaced: told.needs_place, view_state: Some(told), ..was }),
    );
}

/// A surface covers a window of its own size and no other.
pub proof fn a_surface_covers_its_own_size(surface: Surface, width: u32, height: u32)
    ensures
        covers(Some(surface), width, height) <==> surface.width == width && surface.height == height,
        !covers(None, width, height),
{
}

/// What lies above nought brings closer.
pub proof fn above_nought_is_closer(bits: u32)
    ensures
        is_above_nought(bits) ==> bits < 0x8000_0000 && bits != 0,
        !is_above_nought(0),
        !is_above_nought(0x8000_0000),
        bits > 0 && bits < 0x7f80_0000 ==> is_above_nought(bits),
        bits >= 0x8000_0000 ==> !is_above_nought(bits),
{
}

} // verus!
