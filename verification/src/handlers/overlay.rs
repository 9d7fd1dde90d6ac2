//! Layers over the globe: from a product to its files, and from its files to a
//! picture.
//!
//! The globe takes all layers as one set, so every change of the set ends by
//! sending it. A layer that is still being put together is not in the set; its
//! place is drawn as an outline, and so the outlines go out together with it.

use vstd::prelude::*;
use crate::calls::{self, Call, Overlay, Pair};
use crate::handlers::library;
use crate::handlers::nav;
use crate::handlers::outline;
use crate::handlers::search;
use crate::keyed::Names;
use crate::number;
use crate::proto::{self, DataProduct, ImageryResponse, ImageryRole, LayerProgress, LocateResponse, OverlaysProgress, Ring};
use crate::state::globe::{self, Locate, Located};
use crate::state::ids::ViewId;
use crate::state::overlay::{
    self, Assembly, Collected, Handle, Opening, OverlayRaster, OverlayRole, OverlayState, Part, Progress,
};
use crate::state::screen::{self, ViewKind};
use crate::state::side::Shift;
use crate::state::{self, Open, State};
use crate::text;

verus! {

broadcast use vstd::string::group_string_axioms;

/// The role of a raster for the globe. Two lists of two modules, tied together
/// here and not by the chance that their numbers agree.
pub fn role_for_globe(role: ImageryRole) -> (seen: OverlayRole)
    ensures
        seen == globe_role(role),
{
    match role {
        ImageryRole::ImageryPreview => OverlayRole::OverlayPreview,
        ImageryRole::ImageryDetailed => OverlayRole::OverlayDetailed,
    }
}

pub open spec fn globe_role(role: ImageryRole) -> OverlayRole {
    match role {
        ImageryRole::ImageryPreview => OverlayRole::OverlayPreview,
        ImageryRole::ImageryDetailed => OverlayRole::OverlayDetailed,
    }
}

// -- The set --

/// What the globe is told of a layer. The footprint stands in for a frame, and
/// beside one it is left out.
pub open spec fn layer_told(layer: OverlayState) -> calls::OverlayView {
    calls::OverlayView {
        key: layer.identifier@,
        label: layer.label@,
        utm: layer.utm,
        footprint: if layer.utm is Some { Seq::empty() } else { proto::outlines_of(layer.footprint@) },
        rasters: layer.rasters@,
        opacity: layer.opacity,
        hidden: layer.hidden,
    }
}

/// What the globe is told of all layers: of those whose rasters it has.
pub open spec fn layers_told(layers: Seq<OverlayState>) -> Seq<calls::OverlayView>
    decreases layers.len(),
{
    if layers.len() == 0 {
        Seq::empty()
    } else {
        let rest = layers_told(layers.drop_last());
        if layers.last().rasters@.len() > 0 { rest.push(layer_told(layers.last())) } else { rest }
    }
}

/// What is said when the set is sent: the layers, and the outlines.
pub open spec fn set_said(state: State) -> Seq<calls::CallView> {
    seq![
        calls::CallView::Overlays { overlays: layers_told(state.overlays@) },
        outline::outlines_call(state),
    ]
}

fn copy_rasters(rasters: &Vec<OverlayRaster>) -> (copy: Vec<OverlayRaster>)
    ensures
        copy@ == rasters@,
{
    let mut copy: Vec<OverlayRaster> = Vec::new();
    let mut i: usize = 0;
    while i < rasters.len()
        invariant
            i <= rasters@.len(),
            copy@ == rasters@.take(i as int),
        decreases rasters@.len() - i,
    {
        copy.push(rasters[i]);
        assert(rasters@.take(i + 1) =~= rasters@.take(i as int).push(rasters@[i as int]));
        i += 1;
    }
    assert(rasters@.take(rasters@.len() as int) =~= rasters@);
    copy
}

/// Tells the globe all layers, and with them all outlines.
fn send_set(state: &mut State)
    ensures
        *final(state) == (State { calls: final(state).calls, ..*old(state) }),
        final(state).said() == old(state).said() + set_said(*final(state)),
        set_said(*final(state)) == set_said(*old(state)),
{
    let ghost all = state.overlays@;
    let ghost start = state.said();
    let mut overlays: Vec<Overlay> = Vec::new();
    let mut i: usize = 0;
    assert(calls::overlays_seen(overlays@) =~= layers_told(all.take(0)));
    while i < state.overlays.len()
        invariant
            i <= all.len(),
            all == state.overlays@,
            calls::overlays_seen(overlays@) == layers_told(all.take(i as int)),
        decreases all.len() - i,
    {
        let layer: &OverlayState = &state.overlays[i];
        assert(all.take(i + 1).drop_last() =~= all.take(i as int));
        if layer.on_globe() {
            let ghost before = overlays@;
            let footprint: Vec<Ring> = if layer.utm.is_some() { Vec::new() } else { proto::copy_rings(&layer.footprint) };
            proof {
                if layer.utm is Some {
                    assert(proto::outlines_of(footprint@) =~= Seq::empty());
                }
            }
            overlays.push(
                Overlay {
                    key: layer.identifier.clone(),
                    label: layer.label.clone(),
                    utm: layer.utm,
                    footprint,
                    rasters: copy_rasters(&layer.rasters),
                    opacity: layer.opacity,
                    hidden: layer.hidden,
                },
            );
            assert(calls::overlays_seen(overlays@) =~= calls::overlays_seen(before).push(layer_told(*layer)));
        }
        i += 1;
    }
    assert(all.take(all.len() as int) =~= all);
    let call: Call = Call::Overlays { overlays };
    proof {
        calls::said_push(state.calls@, call);
    }
    state.calls.push(call);
    outline::send(state);
    assert(state.said() =~= start + set_said(*state));
}

// -- The end of a layer --

/// Files to let go.
pub open spec fn releases(files: Seq<Collected>) -> Seq<calls::CallView> {
    files.map_values(|file: Collected| calls::CallView::Release { handle: file.handle })
}

/// Questions that a layer may leave behind, and the waiting requests.
pub ghost struct Loose {
    pub imageries: Map<Seq<char>, Seq<char>>,
    pub opens: Map<Seq<char>, overlay::OpeningView>,
    pub said: Seq<calls::CallView>,
}

/// What the questions for rasters were asked for.
pub open spec fn imageries_seen(imageries: Map<Seq<char>, String>) -> Map<Seq<char>, Seq<char>> {
    imageries.map_values(|key: String| key@)
}

pub open spec fn loose(state: State) -> Loose {
    Loose {
        imageries: imageries_seen(state.imageries@),
        opens: overlay::opens_seen(state.opens@),
        said: state.said(),
    }
}

/// The questions with these left without a layer: each stays known, so that the
/// file it brings is taken and let go.
pub open spec fn orphaned(
    opens: Map<Seq<char>, overlay::OpeningView>,
    marks: Seq<Seq<char>>,
) -> Map<Seq<char>, overlay::OpeningView> {
    Map::new(
        |mark: Seq<char>| opens.contains_key(mark),
        |mark: Seq<char>|
            if marks.contains(mark) {
                overlay::OpeningView { key: Seq::empty(), ..opens[mark] }
            } else {
                opens[mark]
            },
    )
}

impl Loose {
    /// A layer is given up. Its question for rasters is struck out, those for files
    /// lose their layer, and the files it has are let go. What the globe has of it
    /// the globe lets go itself.
    pub open spec fn without(self, layer: OverlayState) -> Loose {
        let imageries = match layer.imagery {
            Some(mark) => self.imageries.remove(mark@),
            None => self.imageries,
        };
        match layer.assembly {
            Some(assembly) => Loose {
                imageries,
                opens: orphaned(self.opens, text::texts(assembly.opens@)),
                said: self.said + releases(assembly.collected@),
            },
            None => Loose { imageries, ..self },
        }
    }

    pub open spec fn without_all(self, layers: Seq<OverlayState>) -> Loose
        decreases layers.len(),
    {
        if layers.len() == 0 { self } else { self.without_all(layers.drop_last()).without(layers.last()) }
    }
}

/// Only questions of layers and waiting requests have changed.
pub open spec fn only_loose(before: State, after: State) -> bool {
    after == (State { imageries: after.imageries, opens: after.opens, calls: after.calls, ..before })
}

/// The end of one layer.
fn abandon(state: &mut State, layer: OverlayState)
    ensures
        only_loose(*old(state), *final(state)),
        loose(*final(state)) == loose(*old(state)).without(layer),
{
    let ghost start = loose(*state);
    if let Some(mark) = &layer.imagery {
        state.imageries.remove(mark);
        assert(imageries_seen(state.imageries@) =~= start.imageries.remove(mark@));
    }
    let ghost middle = *state;
    if let Some(assembly) = layer.assembly {
        let ghost marks = text::texts(assembly.opens@);
        let ghost before = overlay::opens_seen(state.opens@);
        let mut i: usize = 0;
        assert(orphaned(before, marks.take(0)) =~= before);
        while i < assembly.opens.len()
            invariant
                i <= assembly.opens@.len(),
                marks == text::texts(assembly.opens@),
                *state == (State { opens: state.opens, ..middle }),
                overlay::opens_seen(state.opens@) == orphaned(before, marks.take(i as int)),
            decreases assembly.opens@.len() - i,
        {
            let mark: &String = &assembly.opens[i];
            assert(marks[i as int] == mark@);
            let ghost now = overlay::opens_seen(state.opens@);
            proof {
                crate::names::taken_more(marks, i as int);
            }
            let ghost next = orphaned(before, marks.take(i + 1));
            let ghost table = state.opens@;
            if let Some(opening) = state.opens.remove(mark) {
                let blank: Opening = Opening { key: String::new(), role: opening.role, part: opening.part };
                state.opens.insert(mark.clone(), blank);
                proof {
                    assert(table.contains_key(mark@));
                    assert(now.contains_key(mark@));
                    assert(before.contains_key(mark@));
                    assert(now[mark@] == opening@);
                    assert(blank@ == next[mark@]);
                    assert(overlay::opens_seen(state.opens@) =~= now.insert(mark@, blank@));
                }
            } else {
                assert(!now.contains_key(mark@));
                assert(overlay::opens_seen(state.opens@) =~= now);
            }
            assert(overlay::opens_seen(state.opens@).dom() =~= next.dom());
            assert forall|other: Seq<char>| #[trigger] next.contains_key(other) implies overlay::opens_seen(state.opens@)[other]
                == next[other] by {
                if other != mark@ {
                    assert(marks.take(i + 1).contains(other) == marks.take(i as int).contains(other));
                }
            }
            assert(overlay::opens_seen(state.opens@) =~= next);
            i += 1;
        }
        assert(marks.take(marks.len() as int) =~= marks);
        let ghost said = releases(assembly.collected@);
        let ghost waiting = state.said();
        let ghost later = *state;
        let mut j: usize = 0;
        assert(waiting + said.take(0) =~= waiting);
        while j < assembly.collected.len()
            invariant
                j <= assembly.collected@.len(),
                said == releases(assembly.collected@),
                said.len() == assembly.collected@.len(),
                *state == (State { calls: state.calls, ..later }),
                state.said() == waiting + said.take(j as int),
            decreases assembly.collected@.len() - j,
        {
            let call: Call = Call::Release { handle: assembly.collected[j].handle };
            proof {
                calls::said_push(state.calls@, call);
                assert(waiting + said.take(j + 1) =~= (waiting + said.take(j as int)).push(said[j as int]));
            }
            state.calls.push(call);
            j += 1;
        }
        assert(said.take(said.len() as int) =~= said);
    }
}

/// A layer was taken away: nothing happens where there is none.
pub open spec fn removed(before: State, after: State, key: Seq<char>) -> bool {
    let at = overlay::layer_place(before.overlays@, key);
    if 0 <= at < before.overlays@.len() {
        let end = loose(before).without(before.overlays@[at]);
        &&& after == (State {
            overlays: after.overlays,
            imageries: after.imageries,
            opens: after.opens,
            highlight: outline::still_picked(before.highlight, before.outlined@, after.overlays@),
            calls: after.calls,
            ..before
        })
        &&& after.overlays@ == before.overlays@.remove(at)
        &&& loose(after) == (Loose { said: end.said + set_said(after), ..end })
    } else {
        after == before
    }
}

/// Takes one layer away: its files are let go, and the set is sent.
pub fn remove(state: &mut State, key: &str)
    ensures
        removed(*old(state), *final(state), key@),
{
    let at: usize = overlay::find_layer(&state.overlays, key);
    if at >= state.overlays.len() {
        return;
    }
    let layer: OverlayState = state.overlays.remove(at);
    abandon(state, layer);
    outline::forget_gone(state);
    send_set(state);
}

/// Layers with two that stand next to each other changed about.
pub open spec fn exchanged(layers: Seq<OverlayState>, low: int) -> Seq<OverlayState> {
    layers.update(low, layers[low + 1]).update(low + 1, layers[low])
}

/// The layers once one was moved by one place; at the edge it stays.
pub open spec fn shifted(layers: Seq<OverlayState>, key: Seq<char>, shift: Shift) -> Seq<OverlayState> {
    let at = overlay::layer_place(layers, key);
    match shift {
        Shift::Up => if 0 <= at < layers.len() - 1 { exchanged(layers, at) } else { layers },
        Shift::Down => if 0 < at < layers.len() { exchanged(layers, at - 1) } else { layers },
    }
}

/// The layer can be moved so.
pub open spec fn can_shift(layers: Seq<OverlayState>, key: Seq<char>, shift: Shift) -> bool {
    let at = overlay::layer_place(layers, key);
    match shift {
        Shift::Up => 0 <= at < layers.len() - 1,
        Shift::Down => 0 < at < layers.len(),
    }
}

/// Moves a layer by one place among the others. Their order is the order of the
/// layers on the globe, bottom to top.
pub fn shift(state: &mut State, key: &str, shift: Shift)
    ensures
        *final(state) == (State { overlays: final(state).overlays, calls: final(state).calls, ..*old(state) }),
        final(state).overlays@ == shifted(old(state).overlays@, key@, shift),
        final(state).said() == if can_shift(old(state).overlays@, key@, shift) {
            old(state).said() + set_said(*final(state))
        } else {
            old(state).said()
        },
{
    let at: usize = overlay::find_layer(&state.overlays, key);
    if at >= state.overlays.len() {
        return;
    }
    let low: usize = match shift {
        Shift::Up => {
            if at + 1 >= state.overlays.len() {
                return;
            }
            at
        },
        Shift::Down => {
            if at == 0 {
                return;
            }
            at - 1
        },
    };
    let ghost before = state.overlays@;
    let layer: OverlayState = state.overlays.remove(low);
    state.overlays.insert(low + 1, layer);
    assert(state.overlays@ =~= exchanged(before, low as int));
    send_set(state);
}

/// No snapshot has two layers.
pub open spec fn layers_apart(layers: Seq<OverlayState>) -> bool {
    forall|i: int, j: int|
        0 <= i < j < layers.len() ==> (#[trigger] layers[i]).identifier@ != (#[trigger] layers[j]).identifier@
}

/// A layer is a shift up and one down where it was.
pub proof fn a_shift_is_undone(layers: Seq<OverlayState>, key: Seq<char>)
    requires
        can_shift(layers, key, Shift::Up),
        layers_apart(layers),
    ensures
        shifted(shifted(layers, key, Shift::Up), key, Shift::Down) == layers,
{
    let at = overlay::layer_place(layers, key);
    let up = exchanged(layers, at);
    overlay::layer_place_is_first(layers, key);
    assert(up[at + 1].identifier@ == key);
    assert forall|j: int| 0 <= j < at + 1 implies (#[trigger] up[j]).identifier@ != key by {
        if j == at {
            assert(layers[at + 1].identifier@ != key);
        } else {
            assert(up[j] == layers[j]);
        }
    }
    overlay::layer_place_is(up, key, at + 1);
    assert(shifted(up, key, Shift::Down) =~= layers);
}

/// A layer is a shift down and one up where it was.
pub proof fn a_shift_down_is_undone(layers: Seq<OverlayState>, key: Seq<char>)
    requires
        can_shift(layers, key, Shift::Down),
        layers_apart(layers),
    ensures
        shifted(shifted(layers, key, Shift::Down), key, Shift::Up) == layers,
{
    let at = overlay::layer_place(layers, key);
    let down = exchanged(layers, at - 1);
    overlay::layer_place_is_first(layers, key);
    assert(down[at - 1].identifier@ == key);
    assert forall|j: int| 0 <= j < at - 1 implies (#[trigger] down[j]).identifier@ != key by {
        assert(down[j] == layers[j]);
    }
    overlay::layer_place_is(down, key, at - 1);
    assert(shifted(down, key, Shift::Up) =~= layers);
}

/// Takes everything off the globe.
pub fn clear_all(state: &mut State)
    ensures
        *final(state) == (State {
            showing: final(state).showing,
            overlays: final(state).overlays,
            imageries: final(state).imageries,
            opens: final(state).opens,
            highlight: outline::still_picked(old(state).highlight, old(state).outlined@, Seq::empty()),
            calls: final(state).calls,
            ..*old(state)
        }),
        final(state).showing@ == Set::<Seq<char>>::empty(),
        final(state).overlays@ == Seq::<OverlayState>::empty(),
        ({
            let end = loose(*old(state)).without_all(old(state).overlays@);
            loose(*final(state)) == (Loose { said: end.said + set_said(*final(state)), ..end })
        }),
{
    state.showing.clear();
    let mut gone: Vec<OverlayState> = Vec::new();
    std::mem::swap(&mut gone, &mut state.overlays);
    abandon_all(state, gone);
    outline::forget_gone(state);
    assert(state.overlays@ =~= Seq::empty());
    send_set(state);
}

fn abandon_all(state: &mut State, gone: Vec<OverlayState>)
    ensures
        only_loose(*old(state), *final(state)),
        loose(*final(state)) == loose(*old(state)).without_all(gone@),
{
    let ghost all = gone@;
    let ghost start = loose(*state);
    let mut gone: Vec<OverlayState> = gone;
    let mut done: usize = 0;
    let count: usize = gone.len();
    while done < count
        invariant
            done <= count,
            count == all.len(),
            gone@ == all.skip(done as int),
            start == loose(*old(state)),
            only_loose(*old(state), *state),
            loose(*state) == start.without_all(all.take(done as int)),
        decreases count - done,
    {
        assert(gone@[0] == all[done as int]);
        let layer: OverlayState = gone.remove(0);
        assert(all.skip(done as int).remove(0) =~= all.skip(done + 1));
        assert(all.take(done + 1).drop_last() =~= all.take(done as int));
        abandon(state, layer);
        done += 1;
    }
    assert(all.take(all.len() as int) =~= all);
}

// -- A new layer --

/// A product was laid: one that is there already is only told of again. A new layer
/// lies on top of the others, and its rasters are asked for.
pub open spec fn laid(before: State, after: State, product: proto::ProductView, source: Option<ViewId>) -> bool {
    if overlay::has_layer(before.overlays@, product.identifier) {
        &&& after == (State { calls: after.calls, ..before })
        &&& after.said() == before.said() + set_said(after)
    } else {
        let mark = before.next_mark();
        &&& after == (State {
            overlays: after.overlays,
            imageries: after.imageries,
            asked: state::one_more(before.asked),
            calls: after.calls,
            ..before
        })
        &&& imageries_seen(after.imageries@) == imageries_seen(before.imageries@).insert(mark, product.identifier)
        &&& after.overlays@.len() == before.overlays@.len() + 1
        &&& after.overlays@.drop_last() == before.overlays@
        &&& is_new(after.overlays@.last(), product, source, mark)
        &&& after.said() == before.said().push(
            calls::CallView::Imagery { identifier: product.identifier, correlation: mark },
        ) + set_said(after)
    }
}

/// A layer of which nothing is known but its product, and whose rasters were asked
/// for.
pub open spec fn is_new(layer: OverlayState, product: proto::ProductView, source: Option<ViewId>, mark: Seq<char>) -> bool {
    &&& layer.identifier@ == product.identifier
    &&& layer.label@ == product.name
    &&& layer.folder == product.folder
    &&& layer.source == source
    &&& proto::outlines_of(layer.footprint@) == product.footprint
    &&& layer.opacity == overlay::OPAQUE
    &&& !layer.hidden
    &&& layer.utm is None
    &&& layer.rasters@.len() == 0
    &&& layer.imagery matches Some(asked) && asked@ == mark
    &&& layer.assembly is None
    &&& layer.progress == (Progress { ready: 0, total: 0, share: 0, working: false, step: 0, steps: 0, blank: false })
    &&& layer.trouble@.len() == 0
}

/// Lays a product on the globe. `source` is the search in whose results it was
/// found.
pub fn show(state: &mut State, product: &DataProduct, source: Option<ViewId>)
    ensures
        laid(*old(state), *final(state), product@, source),
{
    let ghost before = *state;
    if overlay::find_layer(&state.overlays, &product.identifier) < state.overlays.len() {
        proof {
            overlay::layer_place_is_first(state.overlays@, product.identifier@);
        }
        send_set(state);
        return;
    }
    let mut layer: OverlayState = OverlayState::new(
        product.identifier.clone(),
        product.name.clone(),
        product.folder,
        source,
        proto::copy_rings(&product.footprint),
    );
    let correlation: String = state.mark();
    state.imageries.insert(correlation.clone(), product.identifier.clone());
    layer.imagery = Some(correlation.clone());
    state.overlays.push(layer);
    let call: Call = Call::Imagery { identifier: product.identifier.clone(), correlation };
    proof {
        calls::said_push(state.calls@, call);
    }
    state.calls.push(call);
    assert(imageries_seen(state.imageries@) =~= imageries_seen(before.imageries@).insert(
        before.next_mark(),
        product.identifier@,
    ));
    send_set(state);
    assert(state.overlays@.drop_last() =~= before.overlays@);
}

// -- Layers that live with what was found --

/// A layer stays when a search has found something else: one that the search did
/// not find stays, and one that it found stays as long as it is found.
pub open spec fn stays(layer: OverlayState, view: ViewId, alive: Set<Seq<char>>) -> bool {
    layer.source != Some(view) || alive.contains(layer.identifier@)
}

pub open spec fn staying(layers: Seq<OverlayState>, view: ViewId, alive: Set<Seq<char>>) -> Seq<OverlayState>
    decreases layers.len(),
{
    if layers.len() == 0 {
        Seq::empty()
    } else {
        let rest = staying(layers.drop_last(), view, alive);
        if stays(layers.last(), view, alive) { rest.push(layers.last()) } else { rest }
    }
}

pub open spec fn leaving(layers: Seq<OverlayState>, view: ViewId, alive: Set<Seq<char>>) -> Seq<OverlayState>
    decreases layers.len(),
{
    if layers.len() == 0 {
        Seq::empty()
    } else {
        let rest = leaving(layers.drop_last(), view, alive);
        if stays(layers.last(), view, alive) { rest } else { rest.push(layers.last()) }
    }
}

/// What is said of the layers that left: no person took them away, so it is said
/// aloud.
pub open spec fn leaving_notice(gone: Seq<OverlayState>) -> Option<Seq<char>> {
    if gone.len() == 0 {
        None
    } else if gone.len() == 1 {
        Some(
            "«"@ + crate::components::format::cut_middle(gone[0].label@, 40) + "» снят с шара: его больше нет в выдаче"@,
        )
    } else {
        Some(
            number::written(gone.len()) + " "@ + seq!["снимок"@, "снимка"@, "снимков"@][crate::components::format::noun_form(
                gone.len(),
            )] + " снято с шара: их больше нет в выдаче"@,
        )
    }
}

/// Only those layers are left that stay.
pub open spec fn narrowed(before: State, after: State, view: ViewId, alive: Set<Seq<char>>) -> bool {
    let gone = leaving(before.overlays@, view, alive);
    let end = loose(before).without_all(gone);
    &&& after == (State {
        overlays: after.overlays,
        imageries: after.imageries,
        opens: after.opens,
        notice: after.notice,
        highlight: outline::still_picked(before.highlight, before.outlined@, after.overlays@),
        calls: after.calls,
        ..before
    })
    &&& after.overlays@ == staying(before.overlays@, view, alive)
    &&& match leaving_notice(gone) {
        Some(words) => library::notices(after, words),
        None => after.notice == before.notice,
    }
    &&& loose(after) == (Loose { said: end.said + set_said(after), ..end })
}

fn said_of(gone: &Vec<OverlayState>) -> (said: Option<String>)
    ensures
        match said {
            Some(words) => leaving_notice(gone@) == Some(words@),
            None => leaving_notice(gone@) is None,
        },
{
    if gone.len() == 0 {
        return None;
    }
    if gone.len() == 1 {
        let mut words: String = "«".to_owned();
        words.append(&crate::components::format::ellipsize(&gone[0].label, 40));
        words.append("» снят с шара: его больше нет в выдаче");
        return Some(words);
    }
    let mut words: String = number::decimal(gone.len() as u128);
    words.append(" ");
    words.append(crate::components::format::plural(gone.len(), ["снимок", "снимка", "снимков"]));
    words.append(" снято с шара: их больше нет в выдаче");
    Some(words)
}

fn retain(state: &mut State, view: ViewId, alive: &Names)
    ensures
        narrowed(*old(state), *final(state), view, alive@),
{
    let ghost before = *state;
    let ghost all = state.overlays@;
    let mut rest: Vec<OverlayState> = Vec::new();
    std::mem::swap(&mut rest, &mut state.overlays);
    let mut kept: Vec<OverlayState> = Vec::new();
    let mut gone: Vec<OverlayState> = Vec::new();
    let mut done: usize = 0;
    let count: usize = rest.len();
    while done < count
        invariant
            done <= count,
            count == all.len(),
            rest@ == all.skip(done as int),
            kept@ == staying(all.take(done as int), view, alive@),
            gone@ == leaving(all.take(done as int), view, alive@),
        decreases count - done,
    {
        assert(rest@[0] == all[done as int]);
        let layer: OverlayState = rest.remove(0);
        assert(all.skip(done as int).remove(0) =~= all.skip(done + 1));
        assert(all.take(done + 1).drop_last() =~= all.take(done as int));
        let ours: bool = match layer.source {
            Some(source) => source == view,
            None => false,
        };
        if !ours || alive.contains(&layer.identifier) {
            kept.push(layer);
        } else {
            gone.push(layer);
        }
        done += 1;
    }
    assert(all.take(all.len() as int) =~= all);
    state.overlays = kept;
    let said: Option<String> = said_of(&gone);
    abandon_all(state, gone);
    if let Some(words) = said {
        state.notice = Some(words);
    }
    outline::forget_gone(state);
    send_set(state);
}

/// A search has found something else: its layers stay only as long as they are
/// found.
pub fn keep_only(state: &mut State, view: ViewId, alive: &Names)
    ensures
        narrowed(*old(state), *final(state), view, alive@),
{
    retain(state, view, alive);
}

/// A search was closed: its layers go with it, and those found by their keys stay.
pub fn source_closed(state: &mut State, view: ViewId)
    ensures
        narrowed(*old(state), *final(state), view, Set::empty()),
{
    let none: Names = Names::new();
    retain(state, view, &none);
}

// -- How layers are shown --

/// The share that bits stand for, held between none and all. What is no number
/// stays what it is.
pub open spec fn clamped(bits: u32) -> u32 {
    if 0x3f80_0000 < bits <= 0x7f80_0000 {
        0x3f80_0000
    } else if 0x8000_0000 < bits <= 0xff80_0000 {
        0
    } else {
        bits
    }
}

/// One layer was changed and the set was sent; nothing happens where there is none.
pub open spec fn changed(before: State, after: State, key: Seq<char>, how: spec_fn(OverlayState) -> OverlayState) -> bool {
    let at = overlay::layer_place(before.overlays@, key);
    if 0 <= at < before.overlays@.len() {
        &&& after == (State { overlays: after.overlays, calls: after.calls, ..before })
        &&& after.overlays@ == before.overlays@.update(at, how(before.overlays@[at]))
        &&& after.said() == before.said() + set_said(after)
    } else {
        after == before
    }
}

/// A layer that is so opaque.
pub open spec fn fading(opacity: u32) -> spec_fn(OverlayState) -> OverlayState {
    |layer: OverlayState| OverlayState { opacity: clamped(opacity), ..layer }
}

/// How opaque a layer is, by the bits of the share.
pub fn set_opacity(state: &mut State, key: &str, opacity: u32)
    ensures
        changed(
            *old(state),
            *final(state),
            key@,
            fading(opacity),
        ),
{
    let at: usize = overlay::find_layer(&state.overlays, key);
    if at >= state.overlays.len() {
        return;
    }
    let share: u32 = if 0x3f80_0000 < opacity && opacity <= 0x7f80_0000 {
        0x3f80_0000
    } else if 0x8000_0000 < opacity && opacity <= 0xff80_0000 {
        0
    } else {
        opacity
    };
    state.overlays[at].opacity = share;
    send_set(state);
}

/// A layer that is hidden, or to be seen.
pub open spec fn hiding(hidden: bool) -> spec_fn(OverlayState) -> OverlayState {
    |layer: OverlayState| OverlayState { hidden, ..layer }
}

/// Hides a layer, or shows it.
pub fn set_hidden(state: &mut State, key: &str, hidden: bool)
    ensures
        changed(*old(state), *final(state), key@, hiding(hidden)),
{
    let at: usize = overlay::find_layer(&state.overlays, key);
    if at >= state.overlays.len() {
        return;
    }
    state.overlays[at].hidden = hidden;
    send_set(state);
}

/// The menu of a layer: opens it, or closes the open one.
pub fn menu(state: &mut State, key: Option<String>)
    ensures
        *final(state) == (State {
            open: match key {
                Some(key) => {
                    let open = Open::Layer(key);
                    if old(state).open matches Some(other) && other.same_spec(open) { None } else { Some(open) }
                },
                None => None,
            },
            ..*old(state)
        }),
{
    match key {
        Some(key) => state.toggle_open(Open::Layer(key)),
        None => state.close_menus(),
    }
}

/// Hides all layers, or shows them.
pub fn hide_all(state: &mut State, hidden: bool)
    ensures
        *final(state) == (State { overlays: final(state).overlays, calls: final(state).calls, ..*old(state) }),
        final(state).overlays@ == old(state).overlays@.map_values(
            |layer: OverlayState| OverlayState { hidden, ..layer },
        ),
        final(state).said() == old(state).said() + set_said(*final(state)),
        forall|i: int| 0 <= i < final(state).overlays@.len() ==> (#[trigger] final(state).overlays@[i]).hidden == hidden,
{
    let ghost before = *state;
    let mut i: usize = 0;
    while i < state.overlays.len()
        invariant
            i <= state.overlays@.len(),
            *state == (State { overlays: state.overlays, ..before }),
            state.overlays@.len() == before.overlays@.len(),
            forall|j: int|
                0 <= j < i ==> #[trigger] state.overlays@[j] == (OverlayState { hidden, ..before.overlays@[j] }),
            forall|j: int| i <= j < state.overlays@.len() ==> #[trigger] state.overlays@[j] == before.overlays@[j],
        decreases state.overlays@.len() - i,
    {
        state.overlays[i].hidden = hidden;
        i += 1;
    }
    assert(state.overlays@ =~= before.overlays@.map_values(|layer: OverlayState| OverlayState { hidden, ..layer }));
    send_set(state);
}

// -- How a layer is put together --

/// What is said when a layer is given up.
pub open spec fn given_up_notice(label: Seq<char>, why: Seq<char>) -> Seq<char> {
    "«"@ + crate::components::format::cut_middle(label, 40) + "»: "@ + why
}

/// A layer was given up: why is said, and the layer is taken away.
pub open spec fn given_up(before: State, after: State, key: Seq<char>, label: Seq<char>, why: Seq<char>) -> bool {
    exists|noticed: State|
        noticed == (State { notice: noticed.notice, ..before }) && library::notices(noticed, given_up_notice(label, why))
            && #[trigger] removed(noticed, after, key)
}

/// Gives a layer up, by the way in which a person takes it away: a line that never
/// shows anything is worse than none. Why is said on the screen, for a press was
/// made and nothing has come of it.
fn give_up(state: &mut State, key: &str, label: &str, why: &str)
    ensures
        given_up(*old(state), *final(state), key@, label@, why@),
{
    let ghost before = *state;
    let mut words: String = "«".to_owned();
    words.append(&crate::components::format::ellipsize(label, 40));
    words.append("»: ");
    words.append(why);
    state.notice = Some(words);
    let ghost noticed = *state;
    remove(state, key);
    assert(removed(noticed, *state, key@));
}

/// A file of a layer.
pub ghost struct FileView {
    pub role: OverlayRole,
    pub part: Part,
    pub identifier: Seq<char>,
}

/// The files of a layer: every raster, and its coordinates where they are apart.
pub open spec fn files_told(rasters: Seq<proto::ImageryRaster>) -> Seq<FileView>
    decreases rasters.len(),
{
    if rasters.len() == 0 {
        Seq::empty()
    } else {
        let raster = rasters.last();
        let role = globe_role(raster.role);
        let rest = files_told(rasters.drop_last()).push(
            FileView { role, part: Part::Raster, identifier: raster.identifier@ },
        );
        if raster.geolocation@.len() > 0 {
            rest.push(FileView { role, part: Part::Geolocation, identifier: raster.geolocation@ })
        } else {
            rest
        }
    }
}

/// Files that are being opened.
pub ghost struct Openings {
    pub asked: u64,
    pub opens: Map<Seq<char>, overlay::OpeningView>,
    pub said: Seq<calls::CallView>,
    pub marks: Seq<Seq<char>>,
}

impl Openings {
    /// One file more: what lies on disk is opened by the library, and the rest by
    /// the provider.
    pub open spec fn one_more(self, entries: Seq<proto::LibraryEntry>, key: Seq<char>, file: FileView) -> Openings {
        let mark = number::written(self.asked as nat);
        Openings {
            asked: state::one_more(self.asked),
            opens: self.opens.insert(mark, overlay::OpeningView { key, role: file.role, part: file.part }),
            said: self.said.push(
                if library::is_here(entries, file.identifier) {
                    calls::CallView::OpenLocal {
                        name: crate::state::library::entry_of(entries, file.identifier)->0.name@,
                        correlation: mark,
                    }
                } else {
                    calls::CallView::OpenRemote { identifier: file.identifier, correlation: mark }
                },
            ),
            marks: self.marks.push(mark),
        }
    }

    pub open spec fn opening(self, entries: Seq<proto::LibraryEntry>, key: Seq<char>, files: Seq<FileView>) -> Openings
        decreases files.len(),
    {
        if files.len() == 0 {
            self
        } else {
            self.opening(entries, key, files.drop_last()).one_more(entries, key, files.last())
        }
    }
}

pub open spec fn openings(state: State, marks: Seq<Seq<char>>) -> Openings {
    Openings { asked: state.asked, opens: overlay::opens_seen(state.opens@), said: state.said(), marks }
}

fn open_file(state: &mut State, key: &str, role: OverlayRole, part: Part, identifier: &String, marks: &mut Vec<String>)
    ensures
        *final(state) == (State {
            asked: final(state).asked,
            opens: final(state).opens,
            calls: final(state).calls,
            ..*old(state)
        }),
        openings(*final(state), text::texts(final(marks)@)) == openings(*old(state), text::texts(old(marks)@)).one_more(
            old(state).library.entries@,
            key@,
            (FileView { role, part, identifier: identifier@ }),
        ),
{
    let ghost before = *state;
    let ghost earlier = marks@;
    let local: Option<String> = match state.library.local_name(identifier) {
        Some(name) => Some(name.clone()),
        None => None,
    };
    let correlation: String = state.mark();
    let ghost mark = correlation@;
    state.opens.insert(correlation.clone(), Opening { key: key.to_owned(), role, part });
    marks.push(correlation.clone());
    let call: Call = match local {
        Some(name) => Call::OpenLocal { name, correlation },
        None => Call::OpenRemote { identifier: identifier.clone(), correlation },
    };
    proof {
        calls::said_push(state.calls@, call);
    }
    state.calls.push(call);
    proof {
        assert(text::texts(marks@) =~= text::texts(earlier).push(mark));
        assert(overlay::opens_seen(state.opens@) =~= overlay::opens_seen(before.opens@).insert(
            mark,
            overlay::OpeningView { key: key@, role, part },
        ));
    }
}

fn open_files(state: &mut State, key: &str, rasters: &Vec<proto::ImageryRaster>) -> (marks: Vec<String>)
    ensures
        *final(state) == (State {
            asked: final(state).asked,
            opens: final(state).opens,
            calls: final(state).calls,
            ..*old(state)
        }),
        openings(*final(state), text::texts(marks@)) == openings(*old(state), Seq::empty()).opening(
            old(state).library.entries@,
            key@,
            files_told(rasters@),
        ),
{
    let ghost entries = state.library.entries@;
    let ghost start = openings(*state, Seq::empty());
    let mut marks: Vec<String> = Vec::new();
    let mut i: usize = 0;
    assert(text::texts(marks@) =~= Seq::empty());
    while i < rasters.len()
        invariant
            i <= rasters@.len(),
            entries == old(state).library.entries@,
            start == openings(*old(state), Seq::empty()),
            *state == (State { asked: state.asked, opens: state.opens, calls: state.calls, ..*old(state) }),
            openings(*state, text::texts(marks@)) == start.opening(entries, key@, files_told(rasters@.take(i as int))),
        decreases rasters@.len() - i,
    {
        let raster: &proto::ImageryRaster = &rasters[i];
        let role: OverlayRole = role_for_globe(raster.role);
        let ghost done = files_told(rasters@.take(i as int));
        let ghost file = FileView { role, part: Part::Raster, identifier: raster.identifier@ };
        assert(rasters@.take(i + 1).drop_last() =~= rasters@.take(i as int));
        open_file(state, key, role, Part::Raster, &raster.identifier, &mut marks);
        assert(done.push(file).drop_last() =~= done);
        assert(start.opening(entries, key@, done.push(file)) == start.opening(entries, key@, done).one_more(
            entries,
            key@,
            file,
        ));
        if !raster.geolocation.as_str().is_empty() {
            open_file(state, key, role, Part::Geolocation, &raster.geolocation, &mut marks);
            let ghost apart = FileView { role, part: Part::Geolocation, identifier: raster.geolocation@ };
            let ghost both = done.push(file).push(apart);
            assert(both.drop_last() =~= done.push(file));
            assert(start.opening(entries, key@, both) == start.opening(entries, key@, done.push(file)).one_more(
                entries,
                key@,
                apart,
            ));
        }
        i += 1;
    }
    assert(rasters@.take(rasters@.len() as int) =~= rasters@);
    marks
}

/// A layer has begun to be put together: its files are being opened.
pub open spec fn begun(before: State, after: State, key: Seq<char>, response: ImageryResponse) -> bool {
    let at = overlay::layer_place(before.overlays@, key);
    let done = openings(before, Seq::empty()).opening(before.library.entries@, key, files_told(response.rasters@));
    &&& after == (State {
        overlays: after.overlays,
        asked: after.asked,
        opens: after.opens,
        calls: after.calls,
        ..before
    })
    &&& openings(after, done.marks) == done
    &&& after.overlays@ == before.overlays@.update(at, after.overlays@[at])
    &&& after.overlays@[at] == (OverlayState {
        imagery: None,
        assembly: after.overlays@[at].assembly,
        ..before.overlays@[at]
    })
    &&& after.overlays@[at].assembly matches Some(assembly) && {
        &&& assembly.utm == response.utm
        &&& text::texts(assembly.opens@) == done.marks
        &&& assembly.collected@.len() == 0
    }
}

/// Why there is nothing to lay, by the provider's word or by our own.
pub open spec fn nothing_to_lay(response: ImageryResponse) -> Seq<char> {
    if response.reason@.len() == 0 { "нет растров для наложения"@ } else { response.reason@ }
}

/// The rasters of a layer have come. A layer that is gone or is being put together
/// already takes no notice; where the rasters could not be named, there are none, or
/// there is no geometry at all, it is given up.
pub open spec fn named(before: State, after: State, key: Seq<char>, response: ImageryResponse) -> bool {
    match overlay::layer_of(before.overlays@, key) {
        None => after == before,
        Some(layer) => if layer.assembly is Some {
            after == before
        } else if response.error@.len() > 0 {
            given_up(before, after, key, layer.label@, "растры не спросились: "@ + response.error@)
        } else if response.rasters@.len() == 0 {
            given_up(before, after, key, layer.label@, nothing_to_lay(response))
        } else if response.utm is None && !layer.placed() {
            given_up(before, after, key, layer.label@, "без привязки: у продукта нет геометрии"@)
        } else {
            begun(before, after, key, response)
        },
    }
}

/// The provider's answer: the rasters of a layer, each to be opened as a file. An
/// answer to a question that is no longer known is none of ours.
pub fn on_imagery_result(state: &mut State, correlation: &str, response: ImageryResponse)
    ensures
        ({
            let asked = imageries_seen(old(state).imageries@);
            if asked.contains_key(correlation@) {
                exists|middle: State|
                    middle == (State { imageries: middle.imageries, ..*old(state) }) && imageries_seen(middle.imageries@)
                        == asked.remove(correlation@) && #[trigger] named(
                        middle,
                        *final(state),
                        asked[correlation@],
                        response,
                    )
            } else {
                *final(state) == (State { imageries: final(state).imageries, ..*old(state) }) && imageries_seen(
                    final(state).imageries@,
                ) == asked
            }
        }),
{
    let ghost asked = imageries_seen(state.imageries@);
    let ghost table = state.imageries@;
    let taken: Option<String> = state.imageries.remove(correlation);
    assert(imageries_seen(state.imageries@) =~= asked.remove(correlation@));
    let Some(key) = taken else {
        assert(!table.contains_key(correlation@));
        assert(asked.remove(correlation@) =~= asked);
        return;
    };
    let ghost middle = *state;
    assert(table.contains_key(correlation@));
    assert(asked[correlation@] == key@);
    rasters_named(state, &key, response);
    assert(named(middle, *state, asked[correlation@], response));
}

fn rasters_named(state: &mut State, key: &str, response: ImageryResponse)
    ensures
        named(*old(state), *final(state), key@, response),
{
    let ghost before = *state;
    let at: usize = overlay::find_layer(&state.overlays, key);
    proof {
        overlay::layer_place_is_first(state.overlays@, key@);
    }
    if at >= state.overlays.len() {
        return;
    }
    if state.overlays[at].assembly.is_some() {
        return;
    }
    let label: String = state.overlays[at].label.clone();
    if !response.error.as_str().is_empty() {
        let why: String = text::concat("растры не спросились: ", &response.error);
        give_up(state, key, &label, &why);
        return;
    }
    if response.rasters.len() == 0 {
        if response.reason.as_str().is_empty() {
            give_up(state, key, &label, "нет растров для наложения");
        } else {
            give_up(state, key, &label, &response.reason);
        }
        return;
    }
    if response.utm.is_none() && !proto::any_points(&state.overlays[at].footprint) {
        give_up(state, key, &label, "без привязки: у продукта нет геометрии");
        return;
    }
    let utm: Option<overlay::UtmFrame> = response.utm;
    let opens: Vec<String> = open_files(state, key, &response.rasters);
    state.overlays[at].imagery = None;
    state.overlays[at].assembly = Some(Assembly { utm, opens, collected: Vec::new() });
    assert(state.overlays@ =~= before.overlays@.update(at as int, state.overlays@[at as int]));
}

/// The items of one role, in order.
pub open spec fn of_role<A, B>(items: Seq<(OverlayRole, A, B)>, role: OverlayRole) -> Seq<(OverlayRole, A, B)>
    decreases items.len(),
{
    if items.len() == 0 {
        Seq::empty()
    } else {
        let rest = of_role(items.drop_last(), role);
        if items.last().0 == role { rest.push(items.last()) } else { rest }
    }
}

/// Previews before the detailed, as the set goes to the globe: what is first in it
/// is worked on first and holds up the others. Those of one role stay in the order
/// in which they were opened.
pub open spec fn previews_first<A, B>(items: Seq<(OverlayRole, A, B)>) -> Seq<(OverlayRole, A, B)> {
    of_role(items, OverlayRole::OverlayPreview) + of_role(items, OverlayRole::OverlayDetailed)
}

pub fn preview_first<A, B>(pairs: &mut Vec<(OverlayRole, A, B)>)
    ensures
        final(pairs)@ == previews_first(old(pairs)@),
        final(pairs)@.to_multiset() == old(pairs)@.to_multiset(),
{
    let ghost all = pairs@;
    let mut previews: Vec<(OverlayRole, A, B)> = Vec::new();
    let mut detailed: Vec<(OverlayRole, A, B)> = Vec::new();
    let count: usize = pairs.len();
    let mut done: usize = 0;
    while done < count
        invariant
            done <= count,
            count == all.len(),
            pairs@ == all.skip(done as int),
            previews@ == of_role(all.take(done as int), OverlayRole::OverlayPreview),
            detailed@ == of_role(all.take(done as int), OverlayRole::OverlayDetailed),
        decreases count - done,
    {
        assert(pairs@[0] == all[done as int]);
        let pair: (OverlayRole, A, B) = pairs.remove(0);
        assert(all.skip(done as int).remove(0) =~= all.skip(done + 1));
        assert(all.take(done + 1).drop_last() =~= all.take(done as int));
        match pair.0 {
            OverlayRole::OverlayPreview => previews.push(pair),
            OverlayRole::OverlayDetailed => detailed.push(pair),
        }
        done += 1;
    }
    assert(all.take(all.len() as int) =~= all);
    pairs.append(&mut previews);
    pairs.append(&mut detailed);
    assert(pairs@ =~= previews_first(all));
    proof {
        roles_keep_all(all);
    }
}

proof fn roles_keep_all<A, B>(items: Seq<(OverlayRole, A, B)>)
    ensures
        previews_first(items).to_multiset() == items.to_multiset(),
    decreases items.len(),
{
    broadcast use vstd::seq_lib::group_to_multiset_ensures;

    if items.len() > 0 {
        let rest = items.drop_last();
        let last = items.last();
        roles_keep_all(rest);
        assert(items =~= rest.push(last));
        let front = of_role(rest, OverlayRole::OverlayPreview);
        let back = of_role(rest, OverlayRole::OverlayDetailed);
        vstd::seq_lib::lemma_multiset_commutative(front, back);
        match last.0 {
            OverlayRole::OverlayPreview => {
                vstd::seq_lib::lemma_multiset_commutative(front.push(last), back);
            },
            OverlayRole::OverlayDetailed => {
                vstd::seq_lib::lemma_multiset_commutative(front, back.push(last));
            },
        }
        assert(previews_first(items).to_multiset() =~= previews_first(rest).to_multiset().insert(last));
    }
}

/// The rasters among opened files, each without its coordinates.
pub open spec fn bare_pairs(files: Seq<Collected>) -> Seq<(OverlayRole, Handle, Option<Handle>)>
    decreases files.len(),
{
    if files.len() == 0 {
        Seq::empty()
    } else {
        let rest = bare_pairs(files.drop_last());
        let file = files.last();
        if file.part == Part::Raster { rest.push((file.role, file.handle, None)) } else { rest }
    }
}

/// The coordinates among opened files.
pub open spec fn coordinates(files: Seq<Collected>) -> Seq<Collected>
    decreases files.len(),
{
    if files.len() == 0 {
        Seq::empty()
    } else {
        let rest = coordinates(files.drop_last());
        if files.last().part == Part::Geolocation { rest.push(files.last()) } else { rest }
    }
}

/// Where the first pair of a role stands; the number of pairs when there is none.
pub open spec fn role_place(pairs: Seq<(OverlayRole, Handle, Option<Handle>)>, role: OverlayRole) -> int
    decreases pairs.len(),
{
    if pairs.len() == 0 {
        0
    } else if pairs[0].0 == role {
        0
    } else {
        1 + role_place(pairs.skip(1), role)
    }
}

/// Pairs once coordinates were joined to rasters of their roles, and the coordinates
/// that have no raster.
pub open spec fn joined(
    pairs: Seq<(OverlayRole, Handle, Option<Handle>)>,
    apart: Seq<Collected>,
) -> (Seq<(OverlayRole, Handle, Option<Handle>)>, Seq<Collected>)
    decreases apart.len(),
{
    if apart.len() == 0 {
        (pairs, Seq::empty())
    } else {
        let (done, spare) = joined(pairs, apart.drop_last());
        let file = apart.last();
        let at = role_place(done, file.role);
        if 0 <= at < done.len() {
            (done.update(at, (done[at].0, done[at].1, Some(file.handle))), spare)
        } else {
            (done, spare.push(file))
        }
    }
}

fn find_role(pairs: &Vec<(OverlayRole, Handle, Option<Handle>)>, role: OverlayRole) -> (at: usize)
    ensures
        at == role_place(pairs@, role),
        at <= pairs@.len(),
{
    let ghost all = pairs@;
    let mut at: usize = 0;
    assert(all.skip(0) =~= all);
    while at < pairs.len() && pairs[at].0 != role
        invariant
            at <= all.len(),
            all == pairs@,
            role_place(all, role) == at + role_place(all.skip(at as int), role),
        decreases all.len() - at,
    {
        assert(all.skip(at as int)[0] == all[at as int]);
        assert(all.skip(at as int).skip(1) =~= all.skip(at + 1));
        at += 1;
    }
    proof {
        if at < all.len() {
            assert(all.skip(at as int)[0] == all[at as int]);
        }
    }
    at
}

fn join(files: &Vec<Collected>) -> (both: (Vec<(OverlayRole, Handle, Option<Handle>)>, Vec<Collected>))
    ensures
        (both.0@, both.1@) == joined(bare_pairs(files@), coordinates(files@)),
{
    let ghost all = files@;
    let mut pairs: Vec<(OverlayRole, Handle, Option<Handle>)> = Vec::new();
    let mut apart: Vec<Collected> = Vec::new();
    let mut i: usize = 0;
    while i < files.len()
        invariant
            i <= all.len(),
            all == files@,
            pairs@ == bare_pairs(all.take(i as int)),
            apart@ == coordinates(all.take(i as int)),
        decreases all.len() - i,
    {
        let file: Collected = files[i];
        assert(all.take(i + 1).drop_last() =~= all.take(i as int));
        match file.part {
            Part::Raster => pairs.push((file.role, file.handle, None)),
            Part::Geolocation => apart.push(file),
        }
        i += 1;
    }
    assert(all.take(all.len() as int) =~= all);
    let ghost bare = pairs@;
    let ghost others = apart@;
    let mut spare: Vec<Collected> = Vec::new();
    let mut j: usize = 0;
    while j < apart.len()
        invariant
            j <= others.len(),
            others == apart@,
            (pairs@, spare@) == joined(bare, others.take(j as int)),
        decreases others.len() - j,
    {
        let file: Collected = apart[j];
        assert(others.take(j + 1).drop_last() =~= others.take(j as int));
        let at: usize = find_role(&pairs, file.role);
        if at < pairs.len() {
            let (role, raster, _): (OverlayRole, Handle, Option<Handle>) = pairs[at];
            pairs.set(at, (role, raster, Some(file.handle)));
        } else {
            spare.push(file);
        }
        j += 1;
    }
    assert(others.take(others.len() as int) =~= others);
    (pairs, spare)
}

/// The pairs as they go to the globe.
pub open spec fn to_hand(pairs: Seq<(OverlayRole, Handle, Option<Handle>)>) -> Seq<Pair> {
    previews_first(pairs).map_values(
        |pair: (OverlayRole, Handle, Option<Handle>)| Pair { role: pair.0, raster: pair.1, coordinates: pair.2 },
    )
}

/// All files of a layer were opened, or not: coordinates without a raster are let
/// go, and what can be shown is handed over to the globe. A layer of which nothing
/// was opened is given up.
pub open spec fn finished(before: State, after: State, key: Seq<char>) -> bool {
    let at = overlay::layer_place(before.overlays@, key);
    match overlay::layer_of(before.overlays@, key) {
        Some(layer) => match layer.assembly {
            Some(assembly) => {
                let (pairs, spare) = joined(bare_pairs(assembly.collected@), coordinates(assembly.collected@));
                let said = before.said() + releases(spare);
                if pairs.len() == 0 {
                    exists|middle: State| {
                        &&& middle == (State { overlays: middle.overlays, calls: middle.calls, ..before })
                        &&& middle.overlays@ == before.overlays@.update(at, OverlayState { assembly: None, ..layer })
                        &&& middle.said() == said
                        &&& #[trigger] given_up(middle, after, key, layer.label@, "ни один растр не открылся"@)
                    }
                } else {
                    &&& after == (State { overlays: after.overlays, calls: after.calls, ..before })
                    &&& after.overlays@ == before.overlays@.update(
                        at,
                        OverlayState { assembly: None, utm: assembly.utm, ..layer },
                    )
                    &&& after.said() == said.push(calls::CallView::HandOff { key, pairs: to_hand(pairs) })
                }
            },
            None => after == before,
        },
        None => after == before,
    }
}

fn release_all(state: &mut State, files: &Vec<Collected>)
    ensures
        *final(state) == (State { calls: final(state).calls, ..*old(state) }),
        final(state).said() == old(state).said() + releases(files@),
{
    let ghost said = releases(files@);
    let ghost waiting = state.said();
    let ghost before = *state;
    let mut j: usize = 0;
    assert(waiting + said.take(0) =~= waiting);
    while j < files.len()
        invariant
            j <= files@.len(),
            said == releases(files@),
            said.len() == files@.len(),
            *state == (State { calls: state.calls, ..before }),
            state.said() == waiting + said.take(j as int),
        decreases files@.len() - j,
    {
        let call: Call = Call::Release { handle: files[j].handle };
        proof {
            calls::said_push(state.calls@, call);
            assert(waiting + said.take(j + 1) =~= (waiting + said.take(j as int)).push(said[j as int]));
        }
        state.calls.push(call);
        j += 1;
    }
    assert(said.take(said.len() as int) =~= said);
}

fn hand_pairs(sorted: &Vec<(OverlayRole, Handle, Option<Handle>)>) -> (pairs: Vec<Pair>)
    ensures
        pairs@ == sorted@.map_values(
            |pair: (OverlayRole, Handle, Option<Handle>)| Pair { role: pair.0, raster: pair.1, coordinates: pair.2 },
        ),
{
    let ghost all = sorted@.map_values(
        |pair: (OverlayRole, Handle, Option<Handle>)| Pair { role: pair.0, raster: pair.1, coordinates: pair.2 },
    );
    let mut pairs: Vec<Pair> = Vec::new();
    let mut i: usize = 0;
    while i < sorted.len()
        invariant
            i <= sorted@.len(),
            all == sorted@.map_values(
                |pair: (OverlayRole, Handle, Option<Handle>)| Pair { role: pair.0, raster: pair.1, coordinates: pair.2 },
            ),
            pairs@ == all.take(i as int),
        decreases sorted@.len() - i,
    {
        let (role, raster, coordinates): (OverlayRole, Handle, Option<Handle>) = sorted[i];
        pairs.push(Pair { role, raster, coordinates });
        assert(all.take(i + 1) =~= all.take(i as int).push(all[i as int]));
        i += 1;
    }
    assert(all.take(all.len() as int) =~= all);
    pairs
}

/// All files of a layer have been asked for and answered.
fn finish(state: &mut State, key: &str)
    ensures
        finished(*old(state), *final(state), key@),
{
    let ghost before = *state;
    let at: usize = overlay::find_layer(&state.overlays, key);
    proof {
        overlay::layer_place_is_first(state.overlays@, key@);
    }
    if at >= state.overlays.len() || state.overlays[at].assembly.is_none() {
        return;
    }
    let mut taken: Option<Assembly> = None;
    std::mem::swap(&mut taken, &mut state.overlays[at].assembly);
    let Some(assembly) = taken else {
        return;
    };
    let label: String = state.overlays[at].label.clone();
    let (pairs, spare): (Vec<(OverlayRole, Handle, Option<Handle>)>, Vec<Collected>) = join(&assembly.collected);
    let mut pairs: Vec<(OverlayRole, Handle, Option<Handle>)> = pairs;
    release_all(state, &spare);
    assert(state.overlays@ =~= before.overlays@.update(
        at as int,
        OverlayState { assembly: None, ..before.overlays@[at as int] },
    ));
    if pairs.len() == 0 {
        let ghost middle = *state;
        give_up(state, key, &label, "ни один растр не открылся");
        assert(given_up(middle, *state, key@, label@, "ни один растр не открылся"@));
        return;
    }
    preview_first(&mut pairs);
    state.overlays[at].utm = assembly.utm;
    let call: Call = Call::HandOff { key: key.to_owned(), pairs: hand_pairs(&pairs) };
    proof {
        calls::said_push(state.calls@, call);
    }
    state.calls.push(call);
    assert(state.overlays@ =~= before.overlays@.update(
        at as int,
        OverlayState { assembly: None, utm: assembly.utm, ..before.overlays@[at as int] },
    ));
}

/// The marks without one.
pub open spec fn answered_mark(marks: Seq<Seq<char>>, mark: Seq<char>) -> Seq<Seq<char>>
    decreases marks.len(),
{
    if marks.len() == 0 {
        Seq::empty()
    } else {
        let rest = answered_mark(marks.drop_last(), mark);
        if marks.last() == mark { rest } else { rest.push(marks.last()) }
    }
}

fn strike(marks: &Vec<String>, mark: &str) -> (rest: Vec<String>)
    ensures
        text::texts(rest@) == answered_mark(text::texts(marks@), mark@),
{
    let ghost all = text::texts(marks@);
    let mut rest: Vec<String> = Vec::new();
    let mut i: usize = 0;
    assert(text::texts(rest@) =~= Seq::empty());
    while i < marks.len()
        invariant
            i <= marks@.len(),
            all == text::texts(marks@),
            text::texts(rest@) == answered_mark(all.take(i as int), mark@),
        decreases marks@.len() - i,
    {
        assert(all[i as int] == marks@[i as int]@);
        assert(all.take(i + 1).drop_last() =~= all.take(i as int));
        if !text::same(&marks[i], mark) {
            let ghost before = rest@;
            rest.push(marks[i].clone());
            assert(text::texts(rest@) =~= text::texts(before).push(all[i as int]));
        }
        i += 1;
    }
    assert(all.take(all.len() as int) =~= all);
    rest
}

/// A file of a layer was opened, or was not: it is kept for the layer, and behind
/// the last one the layer is finished. A file whose layer is gone, or is not being
/// put together, is let go.
pub open spec fn opened(
    before: State,
    after: State,
    opening: overlay::OpeningView,
    mark: Seq<char>,
    file: Option<Handle>,
) -> bool {
    let at = overlay::layer_place(before.overlays@, opening.key);
    let lone = {
        &&& after == (State { calls: after.calls, ..before })
        &&& after.said() == match file {
            Some(handle) => before.said().push(calls::CallView::Release { handle }),
            None => before.said(),
        }
    };
    match overlay::layer_of(before.overlays@, opening.key) {
        None => lone,
        Some(layer) => match layer.assembly {
            None => lone,
            Some(assembly) => exists|middle: State| {
                &&& #[trigger] kept(before, middle, opening, mark, file)
                &&& if answered_mark(text::texts(assembly.opens@), mark).len() == 0 {
                    finished(middle, after, opening.key)
                } else {
                    after == middle
                }
            },
        },
    }
}

/// A file was kept for the layer that it was opened for.
pub open spec fn kept(
    before: State,
    after: State,
    opening: overlay::OpeningView,
    mark: Seq<char>,
    file: Option<Handle>,
) -> bool {
    let at = overlay::layer_place(before.overlays@, opening.key);
    &&& after == (State { overlays: after.overlays, ..before })
    &&& after.overlays@ == before.overlays@.update(at, after.overlays@[at])
    &&& after.overlays@[at] == (OverlayState { assembly: after.overlays@[at].assembly, ..before.overlays@[at] })
    &&& before.overlays@[at].assembly matches Some(was) && after.overlays@[at].assembly matches Some(now) && {
        &&& now.utm == was.utm
        &&& text::texts(now.opens@) == answered_mark(text::texts(was.opens@), mark)
        &&& now.collected@ == match file {
            Some(handle) => was.collected@.push(Collected { role: opening.role, part: opening.part, handle }),
            None => was.collected@,
        }
    }
}

fn file_opened(state: &mut State, opening: Opening, mark: &str, file: Option<Handle>)
    ensures
        opened(*old(state), *final(state), opening@, mark@, file),
{
    let ghost before = *state;
    let at: usize = overlay::find_layer(&state.overlays, &opening.key);
    proof {
        overlay::layer_place_is_first(state.overlays@, opening.key@);
    }
    if at >= state.overlays.len() || state.overlays[at].assembly.is_none() {
        if let Some(handle) = file {
            let call: Call = Call::Release { handle };
            proof {
                calls::said_push(state.calls@, call);
            }
            state.calls.push(call);
        }
        return;
    }
    let mut taken: Option<Assembly> = None;
    std::mem::swap(&mut taken, &mut state.overlays[at].assembly);
    let Some(mut assembly) = taken else {
        return;
    };
    assembly.opens = strike(&assembly.opens, mark);
    if let Some(handle) = file {
        assembly.collected.push(Collected { role: opening.role, part: opening.part, handle });
    }
    let last: bool = assembly.opens.len() == 0;
    assert(text::texts(assembly.opens@).len() == assembly.opens@.len());
    state.overlays[at].assembly = Some(assembly);
    let ghost middle = *state;
    assert(state.overlays@ =~= before.overlays@.update(at as int, state.overlays@[at as int]));
    assert(kept(before, middle, opening@, mark@, file));
    if last {
        finish(state, &opening.key);
    }
}

/// A file was opened for a layer; `file` is `None` when that did not work out. Says
/// whether the answer was ours.
pub fn on_opened(state: &mut State, correlation: &str, file: Option<Handle>) -> (ours: bool)
    ensures
        ({
            let asked = overlay::opens_seen(old(state).opens@);
            &&& ours == asked.contains_key(correlation@)
            &&& if ours {
                exists|middle: State|
                    middle == (State { opens: middle.opens, ..*old(state) }) && overlay::opens_seen(middle.opens@)
                        == asked.remove(correlation@) && #[trigger] opened(
                        middle,
                        *final(state),
                        asked[correlation@],
                        correlation@,
                        file,
                    )
            } else {
                *final(state) == (State { opens: final(state).opens, ..*old(state) }) && overlay::opens_seen(
                    final(state).opens@,
                ) == asked
            }
        }),
{
    let ghost asked = overlay::opens_seen(state.opens@);
    let ghost table = state.opens@;
    let taken: Option<Opening> = state.opens.remove(correlation);
    assert(overlay::opens_seen(state.opens@) =~= asked.remove(correlation@));
    let Some(opening) = taken else {
        assert(!table.contains_key(correlation@));
        assert(asked.remove(correlation@) =~= asked);
        return false;
    };
    let ghost middle = *state;
    assert(table.contains_key(correlation@));
    assert(asked[correlation@] == opening@);
    file_opened(state, opening, correlation, file);
    assert(opened(middle, *state, asked[correlation@], correlation@, file));
    true
}

/// What of a pair is to be handed over behind its raster: its coordinates, unless the
/// globe did not take the raster.
pub open spec fn goes_next(pair: Pair, raster: Option<Handle>) -> Option<Handle> {
    if raster is Some { pair.coordinates } else { None }
}

/// What of a pair is let go behind its raster: the coordinates of a raster that the globe
/// did not take are of no use to anyone, and are still ours.
pub open spec fn let_go_behind(pair: Pair, raster: Option<Handle>) -> Seq<calls::CallView> {
    match (raster, pair.coordinates) {
        (None, Some(handle)) => seq![calls::CallView::Release { handle }],
        _ => Seq::empty(),
    }
}

/// The raster of a pair was handed over; `raster` is `None` when that did not work out.
/// Gives what is to be handed over next.
pub fn raster_handed(state: &mut State, pair: Pair, raster: Option<Handle>) -> (next: Option<Handle>)
    ensures
        next == goes_next(pair, raster),
        *final(state) == (State { calls: final(state).calls, ..*old(state) }),
        final(state).said() == old(state).said() + let_go_behind(pair, raster),
{
    if raster.is_some() {
        assert(state.said() + let_go_behind(pair, raster) =~= state.said());
        return pair.coordinates;
    }
    match pair.coordinates {
        Some(handle) => {
            let call: Call = Call::Release { handle };
            proof {
                calls::said_push(state.calls@, call);
                assert(state.said() + let_go_behind(pair, raster) =~= state.said().push(
                    calls::CallView::Release { handle },
                ));
            }
            state.calls.push(call);
        },
        None => {
            assert(state.said() + let_go_behind(pair, raster) =~= state.said());
        },
    }
    None
}

/// What became of a pair that was handed over: without its raster it is nothing, and
/// without its coordinates the raster is laid by the footprint.
pub fn handed(pair: Pair, raster: Option<Handle>, coordinates: Option<Handle>) -> (given: Option<OverlayRaster>)
    ensures
        given == match raster {
            Some(resource) => Some(OverlayRaster { resource, role: pair.role, geolocation: coordinates }),
            None => None,
        },
{
    match raster {
        Some(resource) => Some(OverlayRaster { resource, role: pair.role, geolocation: coordinates }),
        None => None,
    }
}

/// The globe has the rasters of a layer, and goes to work on them: until its first
/// word the layer says that it is worked on and that there is nothing to see. A
/// layer of which nothing could be handed over is given up.
pub open spec fn on_its_way(before: State, after: State, key: Seq<char>, rasters: Seq<OverlayRaster>) -> bool {
    let at = overlay::layer_place(before.overlays@, key);
    match overlay::layer_of(before.overlays@, key) {
        None => after == before,
        Some(layer) => if rasters.len() == 0 {
            given_up(before, after, key, layer.label@, "ни один растр не открылся"@)
        } else {
            &&& after == (State { overlays: after.overlays, calls: after.calls, ..before })
            &&& after.overlays@ == before.overlays@.update(at, after.overlays@[at])
            &&& after.overlays@[at] == (OverlayState {
                rasters: after.overlays@[at].rasters,
                progress: Progress {
                    ready: 0,
                    total: 0,
                    share: 0,
                    working: true,
                    step: 0,
                    steps: 0,
                    blank: true,
                },
                ..layer
            })
            &&& after.overlays@[at].rasters@ == rasters
            &&& after.said() == before.said() + set_said(after)
        },
    }
}

pub fn on_handed(state: &mut State, key: &str, rasters: Vec<OverlayRaster>)
    ensures
        on_its_way(*old(state), *final(state), key@, rasters@),
{
    let ghost before = *state;
    let at: usize = overlay::find_layer(&state.overlays, key);
    proof {
        overlay::layer_place_is_first(state.overlays@, key@);
    }
    if at >= state.overlays.len() {
        return;
    }
    if rasters.len() == 0 {
        let label: String = state.overlays[at].label.clone();
        give_up(state, key, &label, "ни один растр не открылся");
        return;
    }
    state.overlays[at].rasters = rasters;
    state.overlays[at].progress = Progress { working: true, blank: true, ..Progress::default() };
    assert(state.overlays@ =~= before.overlays@.update(at as int, state.overlays@[at as int]));
    send_set(state);
}

// -- How the work goes --

/// What was first said of a layer.
pub open spec fn said_first(said: Seq<LayerProgress>, key: Seq<char>) -> Option<LayerProgress>
    decreases said.len(),
{
    if said.len() == 0 {
        None
    } else if said[0].key@ == key {
        Some(said[0])
    } else {
        said_first(said.skip(1), key)
    }
}

/// A layer with what was said of it taken down. One of which nothing was said stays
/// as it was: silence means that the globe does not know of it yet.
pub open spec fn told_of(layer: OverlayState, now: OverlayState, said: Seq<LayerProgress>) -> bool {
    match said_first(said, layer.identifier@) {
        Some(word) => now == (OverlayState { progress: word.progress, trouble: now.trouble, ..layer }) && now.trouble@
            == word.trouble@,
        None => now == layer,
    }
}

/// A layer was given up if the globe said that it cannot be laid.
pub open spec fn doomed_one(before: State, after: State, word: LayerProgress) -> bool {
    match overlay::layer_of(before.overlays@, word.key@) {
        Some(layer) => if word.error@.len() > 0 {
            given_up(before, after, word.key@, layer.label@, word.error@)
        } else {
            after == before
        },
        None => after == before,
    }
}

/// Layers that cannot be laid were given up, one after another.
pub open spec fn doomed(before: State, after: State, said: Seq<LayerProgress>) -> bool
    decreases said.len(),
{
    if said.len() == 0 {
        after == before
    } else {
        exists|middle: State|
            doomed(before, middle, said.drop_last()) && #[trigger] doomed_one(middle, after, said.last())
    }
}

fn find_word<'a>(said: &'a Vec<LayerProgress>, key: &str) -> (word: Option<&'a LayerProgress>)
    ensures
        match word {
            Some(word) => said_first(said@, key@) == Some(*word),
            None => said_first(said@, key@) is None,
        },
{
    let ghost all = said@;
    let mut i: usize = 0;
    assert(all.skip(0) =~= all);
    while i < said.len()
        invariant
            i <= all.len(),
            all == said@,
            said_first(all.skip(i as int), key@) == said_first(all, key@),
        decreases all.len() - i,
    {
        assert(all.skip(i as int)[0] == all[i as int]);
        if text::same(&said[i].key, key) {
            return Some(&said[i]);
        }
        assert(all.skip(i as int).skip(1) =~= all.skip(i + 1));
        i += 1;
    }
    None
}

/// How the work on layers goes, by the globe's word. A layer that cannot be laid is
/// taken away, and why is said. The outlines are sent again: while there is nothing
/// to see of a layer, its place is drawn, and only this word ends that.
pub fn on_overlay_progress(state: &mut State, msg: OverlaysProgress)
    ensures
        exists|told: State, rest: State| {
            &&& told == (State { overlays: told.overlays, ..*old(state) })
            &&& told.overlays@.len() == old(state).overlays@.len()
            &&& forall|i: int|
                0 <= i < told.overlays@.len() ==> told_of(
                    old(state).overlays@[i],
                    #[trigger] told.overlays@[i],
                    msg.overlays@,
                )
            &&& #[trigger] doomed(told, rest, msg.overlays@)
            &&& *final(state) == (State { calls: final(state).calls, ..rest })
            &&& final(state).said() == rest.said().push(outline::outlines_call(rest))
        },
{
    let ghost before = *state;
    let said: Vec<LayerProgress> = msg.overlays;
    let mut i: usize = 0;
    while i < state.overlays.len()
        invariant
            i <= state.overlays@.len(),
            *state == (State { overlays: state.overlays, ..before }),
            state.overlays@.len() == before.overlays@.len(),
            forall|j: int| 0 <= j < i ==> told_of(before.overlays@[j], #[trigger] state.overlays@[j], said@),
            forall|j: int| i <= j < state.overlays@.len() ==> #[trigger] state.overlays@[j] == before.overlays@[j],
        decreases state.overlays@.len() - i,
    {
        if let Some(word) = find_word(&said, &state.overlays[i].identifier) {
            state.overlays[i].trouble = word.trouble.clone();
            state.overlays[i].progress = word.progress;
        }
        i += 1;
    }
    let ghost told = *state;
    let mut j: usize = 0;
    assert(doomed(told, told, said@.take(0)));
    while j < said.len()
        invariant
            j <= said@.len(),
            doomed(told, *state, said@.take(j as int)),
        decreases said@.len() - j,
    {
        let word: &LayerProgress = &said[j];
        let ghost middle = *state;
        assert(said@.take(j + 1).drop_last() =~= said@.take(j as int));
        let at: usize = overlay::find_layer(&state.overlays, &word.key);
        proof {
            overlay::layer_place_is_first(state.overlays@, word.key@);
        }
        if !word.error.as_str().is_empty() && at < state.overlays.len() {
            let label: String = state.overlays[at].label.clone();
            give_up(state, &word.key, &label, &word.error);
        }
        assert(said@.take(j + 1).last() == *word);
        assert(doomed_one(middle, *state, *word));
        j += 1;
    }
    assert(said@.take(said@.len() as int) =~= said@);
    let ghost rest = *state;
    outline::send(state);
    assert(doomed(told, rest, said@));
}

// -- A product by its key --

/// The state once a found product was taken down under its own key. The answer may
/// come under another key than was asked: what was asked is then forgotten, unless
/// an outline waits for it.
pub open spec fn found(before: State, after: State, key: Seq<char>, product: proto::ProductView) -> bool {
    let rest = if key != product.identifier && !before.outlines@.contains(key) {
        globe::located_seen(before.located@).remove(key)
    } else {
        globe::located_seen(before.located@)
    };
    &&& after == (State { located: after.located, ..before })
    &&& globe::located_seen(after.located@) == rest.insert(product.identifier, globe::LocatedView::Found(product))
}

/// A product that was to be shown has come, or has not.
pub open spec fn show_answered(before: State, after: State, key: Seq<char>, response: LocateResponse) -> bool {
    match response.product {
        Some(product) => exists|middle: State| found(before, middle, key, product@) && #[trigger] laid(
            middle,
            after,
            product@,
            None,
        ),
        None => {
            &&& after == (State { notice: after.notice, calls: after.calls, ..before })
            &&& library::notices(after, "Показать на шаре не вышло: "@ + response.error@)
            &&& after.said() == before.said() + set_said(after)
        },
    }
}

/// A product was found by its key, and is shown as it would be out of a search. If
/// nobody waits for it any more, nothing happens: a request cannot be called back,
/// but to be shown it has to be wanted still.
pub fn on_located(state: &mut State, key: &str, response: LocateResponse)
    ensures
        if old(state).showing@.contains(key@) {
            exists|middle: State|
                middle == (State { showing: middle.showing, ..*old(state) }) && middle.showing@
                    == old(state).showing@.remove(key@) && #[trigger] show_answered(middle, *final(state), key@, response)
        } else {
            *final(state) == (State { showing: final(state).showing, ..*old(state) }) && final(state).showing@
                == old(state).showing@
        },
{
    let ghost before = *state;
    if !state.showing.remove(key) {
        assert(state.showing@ =~= before.showing@);
        return;
    }
    let ghost middle = *state;
    match response.product {
        None => {
            state.notice = Some(text::concat("Показать на шаре не вышло: ", &response.error));
            send_set(state);
        },
        Some(product) => {
            let ghost answers = globe::located_seen(state.located@);
            if !text::same(key, &product.identifier) && !state.outlines.contains(key) {
                state.located.remove(key);
                assert(globe::located_seen(state.located@) =~= answers.remove(key@));
            }
            let ghost rest = globe::located_seen(state.located@);
            state.located.insert(product.identifier.clone(), Located::Found(product.clone()));
            assert(globe::located_seen(state.located@) =~= rest.insert(
                product.identifier@,
                globe::LocatedView::Found(product@),
            ));
            let ghost taken = *state;
            assert(found(middle, taken, key@, product@));
            show(state, &product, None);
            assert(laid(taken, *state, product@, None));
        },
    }
    assert(show_answered(middle, *state, key@, response));
}

// -- The button of a row --

/// The product that a tab has found under a key, if the tab is a search.
pub open spec fn at_hand(state: State, view: ViewId, key: Seq<char>) -> Option<DataProduct> {
    match screen::kind_in(state.screen.views@, view) {
        Some(ViewKind::Search(search)) => outline::product_in(search.results@, key),
        _ => None,
    }
}

/// A product was asked for by its key, to be laid when it comes. What is known of it
/// is not lost meanwhile: an outline would go out for a moment.
pub open spec fn sought(before: State, after: State, key: Seq<char>) -> bool {
    let mark = before.next_mark();
    let known = globe::located_seen(before.located@);
    &&& after == (State {
        located: after.located,
        showing: after.showing,
        asked: state::one_more(before.asked),
        locates: after.locates,
        calls: after.calls,
        ..before
    })
    &&& globe::located_seen(after.located@) == if known.contains_key(key) && known[key] is Found {
        known
    } else {
        known.insert(key, globe::LocatedView::Asking)
    }
    &&& after.showing@ == before.showing@.insert(key)
    &&& globe::locates_seen(after.locates@) == globe::locates_seen(before.locates@).insert(
        mark,
        globe::LocateView::Overlay(key),
    )
    &&& after.said() == before.said().push(calls::CallView::Locate { identifier: key, correlation: mark }) + set_said(
        after,
    )
}

/// The button that lays a snapshot was pressed. It takes off what it laid, and what is
/// on its way; otherwise the snapshot is laid from the search that found it, or else
/// asked for, and the globe comes up.
pub open spec fn pressed(before: State, after: State, view: ViewId, key: Seq<char>) -> bool {
    let shut = State { open: None, ..before };
    if overlay::has_layer(before.overlays@, key) {
        removed(shut, after, key)
    } else if before.showing@.contains(key) {
        &&& after == (State { showing: after.showing, calls: after.calls, ..shut })
        &&& after.showing@ == before.showing@.remove(key)
        &&& after.said() == before.said() + set_said(after)
    } else {
        match at_hand(before, view, key) {
            Some(product) => exists|middle: State| #[trigger]
                laid(shut, middle, product@, Some(view)) && nav::globe_turned_to(middle, after),
            None => exists|middle: State| #[trigger] sought(shut, middle, key) && nav::globe_turned_to(middle, after),
        }
    }
}

/// Lays the snapshot of a row on the globe, or takes it off. The camera does not move,
/// and the row is not chosen: to look is one thing and to choose another.
pub fn on_toggle_pressed(state: &mut State, view: ViewId, identifier: String)
    requires
        old(state).screen.whole(),
        old(state).screen.next < u64::MAX,
    ensures
        pressed(*old(state), *final(state), view, identifier@),
        final(state).screen.whole(),
{
    let ghost before = *state;
    let ghost name = identifier@;
    state.close_menus();
    let ghost shut = *state;
    proof {
        overlay::layer_place_is_first(state.overlays@, name);
    }
    if overlay::find_layer(&state.overlays, &identifier) < state.overlays.len() {
        remove(state, &identifier);
        return;
    }
    if state.showing.contains(&identifier) {
        state.showing.remove(&identifier);
        send_set(state);
        return;
    }
    if search::show(state, view, &identifier) {
        let ghost middle = *state;
        nav::on_new_globe(state);
        assert(nav::globe_turned_to(middle, *state));
        return;
    }
    let known: bool = match state.located.get(&identifier) {
        Some(Located::Found(_)) => true,
        _ => false,
    };
    if !known {
        state.located.insert(identifier.clone(), Located::Asking);
        assert(globe::located_seen(state.located@) =~= globe::located_seen(before.located@).insert(
            name,
            globe::LocatedView::Asking,
        ));
    }
    state.showing.insert(identifier.clone());
    let correlation: String = state.mark();
    let ghost mark = correlation@;
    state.locates.insert(correlation.clone(), Locate::Overlay(identifier.clone()));
    assert(globe::locates_seen(state.locates@) =~= globe::locates_seen(before.locates@).insert(
        mark,
        globe::LocateView::Overlay(name),
    ));
    let call: Call = Call::Locate { identifier, correlation };
    proof {
        calls::said_push(state.calls@, call);
    }
    state.calls.push(call);
    send_set(state);
    let ghost middle = *state;
    assert(sought(shut, middle, name));
    nav::on_new_globe(state);
}

// -- What holds of all layers --

proof fn product_in_is_of_its_key(products: Seq<DataProduct>, key: Seq<char>)
    requires
        outline::product_in(products, key) is Some,
    ensures
        outline::product_in(products, key)->0.identifier@ == key,
    decreases products.len(),
{
    if products[0].identifier@ != key {
        product_in_is_of_its_key(products.skip(1), key);
    }
}

/// One button lays a snapshot and takes it off: whatever the first press has set going,
/// the second leaves no layer and nothing on its way that was not there before.
pub proof fn the_same_button_takes_off(before: State, middle: State, after: State, view: ViewId, key: Seq<char>)
    requires
        !overlay::has_layer(before.overlays@, key),
        !before.showing@.contains(key),
        pressed(before, middle, view, key),
        pressed(middle, after, view, key),
    ensures
        overlay::has_layer(middle.overlays@, key) || middle.showing@.contains(key),
        after.overlays@ == before.overlays@,
        after.showing@ == before.showing@,
{
    let shut = State { open: None, ..before };
    let layers = before.overlays@;
    overlay::layer_place_is_first(layers, key);
    match at_hand(before, view, key) {
        Some(product) => {
            product_in_is_of_its_key(screen::kind_in(before.screen.views@, view)->0->Search_0.results@, key);
            let there = choose|there: State| #[trigger]
                laid(shut, there, product@, Some(view)) && nav::globe_turned_to(there, middle);
            let now = middle.overlays@;
            assert(now.drop_last() == layers);
            assert(now.last().identifier@ == key);
            assert forall|j: int| 0 <= j < layers.len() implies (#[trigger] now[j]).identifier@ != key by {
                assert(now.drop_last()[j] == layers[j]);
            }
            overlay::layer_place_is(now, key, layers.len() as int);
            assert(now.remove(layers.len() as int) =~= layers);
        },
        None => {
            let there = choose|there: State| #[trigger]
                sought(shut, there, key) && nav::globe_turned_to(there, middle);
            assert(before.showing@.insert(key).remove(key) =~= before.showing@);
        },
    }
}

/// However often a snapshot is laid, it has one layer.
pub proof fn laying_keeps_layers_apart(before: State, after: State, product: proto::ProductView, source: Option<ViewId>)
    requires
        layers_apart(before.overlays@),
        laid(before, after, product, source),
    ensures
        layers_apart(after.overlays@),
{
    let layers = before.overlays@;
    let now = after.overlays@;
    overlay::layer_place_is_first(layers, product.identifier);
    if !overlay::has_layer(layers, product.identifier) {
        assert forall|i: int, j: int| 0 <= i < j < now.len() implies (#[trigger] now[i]).identifier@ != (
        #[trigger] now[j]).identifier@ by {
            assert(now.drop_last()[i] == layers[i]);
            if j < layers.len() {
                assert(now.drop_last()[j] == layers[j]);
            }
        }
    }
}

/// Moving a layer leaves every snapshot with one.
pub proof fn shifting_keeps_layers_apart(layers: Seq<OverlayState>, key: Seq<char>, shift: Shift)
    requires
        layers_apart(layers),
    ensures
        layers_apart(shifted(layers, key, shift)),
        shifted(layers, key, shift).to_multiset() == layers.to_multiset(),
{
    let at = overlay::layer_place(layers, key);
    if can_shift(layers, key, shift) {
        let low = if shift == Shift::Up { at } else { at - 1 };
        let now = exchanged(layers, low);
        broadcast use vstd::seq_lib::group_to_multiset_ensures;

        assert(now.to_multiset() =~= layers.to_multiset());
    }
}

/// Taking layers away leaves every snapshot with one layer at most.
pub proof fn leaving_keeps_layers_apart(layers: Seq<OverlayState>, view: ViewId, alive: Set<Seq<char>>)
    requires
        layers_apart(layers),
    ensures
        layers_apart(staying(layers, view, alive)),
        forall|i: int|
            0 <= i < staying(layers, view, alive).len() ==> layers.contains(#[trigger] staying(layers, view, alive)[i]),
    decreases layers.len(),
{
    let now = staying(layers, view, alive);
    if layers.len() > 0 {
        let front = layers.drop_last();
        let rest = staying(front, view, alive);
        leaving_keeps_layers_apart(front, view, alive);
        assert forall|i: int| 0 <= i < rest.len() implies layers.contains(#[trigger] rest[i]) && rest[i].identifier@
            != layers.last().identifier@ by {
            let at = choose|at: int| 0 <= at < front.len() && front[at] == rest[i];
            assert(layers[at] == rest[i]);
        }
        assert(layers[layers.len() - 1] == layers.last());
        assert forall|i: int| 0 <= i < now.len() implies layers.contains(#[trigger] now[i]) by {
            if i < rest.len() {
                assert(now[i] == rest[i]);
            }
        }
        assert forall|i: int, j: int| 0 <= i < j < now.len() implies (#[trigger] now[i]).identifier@ != (
        #[trigger] now[j]).identifier@ by {
            assert(now[i] == rest[i]);
            if j < rest.len() {
                assert(now[j] == rest[j]);
            }
        }
    }
}

/// Taking one layer away leaves every other snapshot with its one.
pub proof fn removing_keeps_layers_apart(before: State, after: State, key: Seq<char>)
    requires
        layers_apart(before.overlays@),
        removed(before, after, key),
    ensures
        layers_apart(after.overlays@),
        !overlay::has_layer(after.overlays@, key),
{
    let layers = before.overlays@;
    let now = after.overlays@;
    let at = overlay::layer_place(layers, key);
    overlay::layer_place_is_first(layers, key);
    overlay::layer_place_is_first(now, key);
    if 0 <= at < layers.len() {
        assert forall|i: int| 0 <= i < now.len() implies (#[trigger] now[i]).identifier@ != key by {
            assert(now[i] == if i < at { layers[i] } else { layers[i + 1] });
            if i >= at {
                assert(layers[at].identifier@ != layers[i + 1].identifier@);
            }
        }
        assert forall|i: int, j: int| 0 <= i < j < now.len() implies (#[trigger] now[i]).identifier@ != (
        #[trigger] now[j]).identifier@ by {
            assert(now[i] == if i < at { layers[i] } else { layers[i + 1] });
            assert(now[j] == if j < at { layers[j] } else { layers[j + 1] });
        }
    }
}

/// A file goes to the globe: as a raster, or as the coordinates of one.
pub open spec fn is_handed(pairs: Seq<(OverlayRole, Handle, Option<Handle>)>, file: Collected) -> bool {
    exists|i: int|
        0 <= i < pairs.len() && (#[trigger] pairs[i]).0 == file.role && if file.part == Part::Raster {
            pairs[i].1 == file.handle
        } else {
            pairs[i].2 == Some(file.handle)
        }
}

/// The coordinates of one role were opened once.
pub open spec fn coordinates_apart(files: Seq<Collected>) -> bool {
    forall|i: int, j: int|
        0 <= i < j < files.len() && (#[trigger] files[i]).part == Part::Geolocation && (#[trigger] files[j]).part
            == Part::Geolocation ==> files[i].role != files[j].role
}

proof fn role_place_is_of_its_role(pairs: Seq<(OverlayRole, Handle, Option<Handle>)>, role: OverlayRole)
    ensures
        0 <= role_place(pairs, role) <= pairs.len(),
        role_place(pairs, role) < pairs.len() ==> pairs[role_place(pairs, role)].0 == role,
    decreases pairs.len(),
{
    if pairs.len() > 0 && pairs[0].0 != role {
        role_place_is_of_its_role(pairs.skip(1), role);
    }
}

proof fn rasters_are_paired(files: Seq<Collected>, at: int)
    requires
        0 <= at < files.len(),
        files[at].part == Part::Raster,
    ensures
        is_handed(bare_pairs(files), files[at]),
    decreases files.len(),
{
    let rest = bare_pairs(files.drop_last());
    let now = bare_pairs(files);
    if at == files.len() - 1 {
        assert(now[rest.len() as int].1 == files[at].handle);
    } else {
        rasters_are_paired(files.drop_last(), at);
        let i = choose|i: int|
            0 <= i < rest.len() && (#[trigger] rest[i]).0 == files[at].role && rest[i].1 == files[at].handle;
        assert(now[i] == rest[i]);
    }
}

/// Coordinates among opened files are theirs, in order, and of different roles.
proof fn coordinates_are_told(files: Seq<Collected>)
    requires
        coordinates_apart(files),
    ensures
        coordinates_apart(coordinates(files)),
        forall|i: int|
            0 <= i < coordinates(files).len() ==> (#[trigger] coordinates(files)[i]).part == Part::Geolocation
                && files.contains(coordinates(files)[i]),
        forall|i: int|
            0 <= i < files.len() && (#[trigger] files[i]).part == Part::Geolocation ==> coordinates(files).contains(
                files[i],
            ),
    decreases files.len(),
{
    if files.len() > 0 {
        let front = files.drop_last();
        let last = files.last();
        let rest = coordinates(front);
        let now = coordinates(files);
        assert(coordinates_apart(front)) by {
            assert forall|i: int, j: int|
                0 <= i < j < front.len() && (#[trigger] front[i]).part == Part::Geolocation && (#[trigger] front[j]).part
                    == Part::Geolocation implies front[i].role != front[j].role by {
                assert(front[i] == files[i] && front[j] == files[j]);
            }
        }
        coordinates_are_told(front);
        assert(files[files.len() - 1] == last);
        assert forall|i: int| 0 <= i < rest.len() implies files.contains(#[trigger] rest[i]) && (last.part
            == Part::Geolocation ==> rest[i].role != last.role) by {
            let at = choose|at: int| 0 <= at < front.len() && front[at] == rest[i];
            assert(files[at] == rest[i]);
        }
        assert forall|i: int| 0 <= i < now.len() implies (#[trigger] now[i]).part == Part::Geolocation
            && files.contains(now[i]) by {
            if i < rest.len() {
                assert(now[i] == rest[i]);
            }
        }
        assert forall|i: int, j: int|
            0 <= i < j < now.len() && (#[trigger] now[i]).part == Part::Geolocation && (#[trigger] now[j]).part
                == Part::Geolocation implies now[i].role != now[j].role by {
            assert(now[i] == rest[i]);
            if j < rest.len() {
                assert(now[j] == rest[j]);
            }
        }
        assert forall|i: int| 0 <= i < files.len() && (#[trigger] files[i]).part == Part::Geolocation implies now.contains(
            files[i],
        ) by {
            if i < front.len() {
                assert(front[i] == files[i]);
                let at = choose|at: int| 0 <= at < rest.len() && rest[at] == files[i];
                assert(now[at] == files[i]);
            } else {
                assert(now[now.len() - 1] == files[i]);
            }
        }
    }
}

/// Joining loses no raster, and keeps or lets go every file of coordinates.
proof fn joining_loses_nothing(pairs: Seq<(OverlayRole, Handle, Option<Handle>)>, apart: Seq<Collected>)
    requires
        coordinates_apart(apart),
        forall|i: int| 0 <= i < apart.len() ==> (#[trigger] apart[i]).part == Part::Geolocation,
    ensures
        joined(pairs, apart).0.len() == pairs.len(),
        forall|i: int|
            0 <= i < pairs.len() ==> (#[trigger] joined(pairs, apart).0[i]).0 == pairs[i].0 && joined(pairs, apart).0[i].1
                == pairs[i].1,
        forall|i: int|
            0 <= i < apart.len() ==> is_handed(joined(pairs, apart).0, #[trigger] apart[i]) || joined(
                pairs,
                apart,
            ).1.contains(apart[i]),
    decreases apart.len(),
{
    if apart.len() > 0 {
        let front = apart.drop_last();
        let file = apart.last();
        assert(coordinates_apart(front)) by {
            assert forall|i: int, j: int|
                0 <= i < j < front.len() && (#[trigger] front[i]).part == Part::Geolocation && (#[trigger] front[j]).part
                    == Part::Geolocation implies front[i].role != front[j].role by {
                assert(front[i] == apart[i] && front[j] == apart[j]);
            }
        }
        assert forall|i: int| 0 <= i < front.len() implies (#[trigger] front[i]).part == Part::Geolocation by {
            assert(front[i] == apart[i]);
        }
        joining_loses_nothing(pairs, front);
        let (done, spare) = joined(pairs, front);
        let (now, left) = joined(pairs, apart);
        let at = role_place(done, file.role);
        role_place_is_of_its_role(done, file.role);
        assert forall|i: int| 0 <= i < apart.len() implies is_handed(now, #[trigger] apart[i]) || left.contains(apart[i]) by {
            if i < front.len() {
                assert(front[i] == apart[i]);
                assert(apart[i].role != file.role);
                if is_handed(done, front[i]) {
                    let k = choose|k: int|
                        0 <= k < done.len() && (#[trigger] done[k]).0 == apart[i].role && done[k].2 == Some(apart[i].handle);
                    assert(now[k] == done[k]);
                } else {
                    let k = choose|k: int| 0 <= k < spare.len() && spare[k] == front[i];
                    assert(left[k] == apart[i]);
                }
            } else if at < done.len() {
                assert(now[at].2 == Some(file.handle));
            } else {
                assert(left[left.len() - 1] == file);
            }
        }
    }
}

/// No opened file is forgotten: each goes to the globe or is let go, as long as the
/// coordinates of one role were opened once.
pub proof fn no_opened_file_is_forgotten(files: Seq<Collected>, at: int)
    requires
        coordinates_apart(files),
        0 <= at < files.len(),
    ensures
        is_handed(joined(bare_pairs(files), coordinates(files)).0, files[at]) || joined(
            bare_pairs(files),
            coordinates(files),
        ).1.contains(files[at]),
{
    let bare = bare_pairs(files);
    let apart = coordinates(files);
    let now = joined(bare, apart).0;
    coordinates_are_told(files);
    joining_loses_nothing(bare, apart);
    if files[at].part == Part::Raster {
        rasters_are_paired(files, at);
        let i = choose|i: int|
            0 <= i < bare.len() && (#[trigger] bare[i]).0 == files[at].role && bare[i].1 == files[at].handle;
        assert(now[i].1 == files[at].handle);
    } else {
        assert(apart.contains(files[at]));
        let i = choose|i: int| 0 <= i < apart.len() && apart[i] == files[at];
        assert(apart[i] == files[at]);
    }
}

/// A file is accounted for by a pair on its way to the globe: as the raster, or as the
/// coordinates, which go the same way behind the raster or else are let go.
pub open spec fn accounted_by(pair: Pair, raster: Option<Handle>, file: Collected) -> bool {
    &&& pair.role == file.role
    &&& match file.part {
        Part::Raster => pair.raster == file.handle,
        Part::Geolocation => {
            ||| goes_next(pair, raster) == Some(file.handle) && let_go_behind(pair, raster).len() == 0
            ||| goes_next(pair, raster) is None && let_go_behind(pair, raster) == seq![
                calls::CallView::Release { handle: file.handle },
            ]
        },
    }
}

/// None is left out of the set by the order in which it goes to the globe.
proof fn all_roles_go<A, B>(items: Seq<(OverlayRole, A, B)>, at: int)
    requires
        0 <= at < items.len(),
    ensures
        previews_first(items).contains(items[at]),
{
    let role = items[at].0;
    let front = of_role(items, OverlayRole::OverlayPreview);
    let back = of_role(items, OverlayRole::OverlayDetailed);
    of_role_has(items, role, at);
    let part = of_role(items, role);
    let i = choose|i: int| 0 <= i < part.len() && part[i] == items[at];
    if role == OverlayRole::OverlayPreview {
        assert(previews_first(items)[i] == items[at]);
    } else {
        assert(previews_first(items)[front.len() + i] == items[at]);
    }
}

proof fn of_role_has<A, B>(items: Seq<(OverlayRole, A, B)>, role: OverlayRole, at: int)
    requires
        0 <= at < items.len(),
        items[at].0 == role,
    ensures
        of_role(items, role).contains(items[at]),
    decreases items.len(),
{
    let all = of_role(items, role);
    if at == items.len() - 1 {
        assert(all[all.len() - 1] == items[at]);
    } else {
        let front = items.drop_last();
        of_role_has(front, role, at);
        let rest = of_role(front, role);
        let i = choose|i: int| 0 <= i < rest.len() && rest[i] == front[at];
        assert(all[i] == items[at]);
    }
}

/// No opened file is forgotten on its way to the globe either, whatever the globe takes:
/// one that does not belong to any pair was let go, a raster is offered to the globe, and
/// coordinates are offered behind their raster or let go with it.
pub proof fn no_file_is_forgotten_on_its_way(files: Seq<Collected>, taken: Seq<Option<Handle>>, at: int)
    requires
        coordinates_apart(files),
        0 <= at < files.len(),
        taken.len() == joined(bare_pairs(files), coordinates(files)).0.len(),
    ensures
        ({
            let (pairs, spare) = joined(bare_pairs(files), coordinates(files));
            let going = to_hand(pairs);
            ||| spare.contains(files[at])
            ||| exists|i: int| 0 <= i < going.len() && #[trigger] accounted_by(going[i], taken[i], files[at])
        }),
{
    let (pairs, spare) = joined(bare_pairs(files), coordinates(files));
    let going = to_hand(pairs);
    let file = files[at];
    no_opened_file_is_forgotten(files, at);
    if !spare.contains(file) {
        let k = choose|k: int|
            0 <= k < pairs.len() && (#[trigger] pairs[k]).0 == file.role && if file.part == Part::Raster {
                pairs[k].1 == file.handle
            } else {
                pairs[k].2 == Some(file.handle)
            };
        all_roles_go(pairs, k);
        let sorted = previews_first(pairs);
        let i = choose|i: int| 0 <= i < sorted.len() && sorted[i] == pairs[k];
        assert(going[i] == (Pair { role: pairs[k].0, raster: pairs[k].1, coordinates: pairs[k].2 }));
        assert(accounted_by(going[i], taken[i], file));
    }
}

/// How many of the first layers the globe has rasters of.
pub open spec fn laid_among(layers: Seq<OverlayState>, count: int) -> nat
    decreases count,
{
    if count <= 0 || count > layers.len() {
        0
    } else {
        laid_among(layers, count - 1) + if layers[count - 1].rasters@.len() > 0 { 1nat } else { 0 }
    }
}

/// The globe is told each layer that has rasters just as the list has it: under its key and
/// name, with its rasters, as opaque and as hidden as it is, by its frame or else by its
/// footprint. The layers are told in the order of the list, and no others are.
pub proof fn the_globe_is_told_what_the_list_says(layers: Seq<OverlayState>, at: int)
    requires
        0 <= at < layers.len(),
    ensures
        layers_told(layers).len() == laid_among(layers, layers.len() as int),
        layers[at].rasters@.len() > 0 ==> {
            let told = layers_told(layers)[laid_among(layers, at) as int];
            &&& laid_among(layers, at) < layers_told(layers).len()
            &&& told.key == layers[at].identifier@
            &&& told.label == layers[at].label@
            &&& told.hidden == layers[at].hidden
            &&& told.opacity == layers[at].opacity
            &&& told.rasters == layers[at].rasters@
            &&& told.utm == layers[at].utm
            &&& layers[at].utm is None ==> told.footprint == proto::outlines_of(layers[at].footprint@)
            &&& layers[at].utm is Some ==> told.footprint.len() == 0
        },
    decreases layers.len(),
{
    let front = layers.drop_last();
    let last = layers.len() - 1;
    laid_among_the_front(layers, last);
    laid_among_the_front(layers, at);
    if front.len() > 0 {
        let other = if at < last { at } else { 0 };
        assert(front[other] == layers[other]);
        the_globe_is_told_what_the_list_says(front, other);
    } else {
        assert(layers_told(front).len() == 0);
    }
    if at < last {
        laid_grows(front, at, last);
        laid_among_the_front(layers, at + 1);
    }
}

proof fn laid_among_the_front(layers: Seq<OverlayState>, count: int)
    requires
        0 <= count < layers.len(),
    ensures
        laid_among(layers, count) == laid_among(layers.drop_last(), count),
    decreases count,
{
    if count > 0 {
        laid_among_the_front(layers, count - 1);
        assert(layers.drop_last()[count - 1] == layers[count - 1]);
    }
}

proof fn laid_grows(layers: Seq<OverlayState>, less: int, more: int)
    requires
        0 <= less <= more <= layers.len(),
    ensures
        laid_among(layers, less) <= laid_among(layers, more),
        less < more && layers[less].rasters@.len() > 0 ==> laid_among(layers, less) < laid_among(layers, more),
    decreases more - less,
{
    if less < more {
        laid_grows(layers, less, more - 1);
        if less == more - 1 {
            assert(laid_among(layers, more) == laid_among(layers, less) + if layers[less].rasters@.len() > 0 {
                1nat
            } else {
                0
            });
        }
    }
}

/// Whatever is told under a key is told of the layer that has it.
proof fn told_of_its_layer(layers: Seq<OverlayState>, k: int) -> (at: int)
    requires
        0 <= k < layers_told(layers).len(),
    ensures
        0 <= at < layers.len(),
        layers[at].rasters@.len() > 0,
        layers_told(layers)[k] == layer_told(layers[at]),
    decreases layers.len(),
{
    let front = layers.drop_last();
    if k < layers_told(front).len() {
        let at = told_of_its_layer(front, k);
        assert(front[at] == layers[at]);
        at
    } else {
        assert(layers[layers.len() - 1] == layers.last());
        layers.len() - 1
    }
}

/// The set that is sent is the word of the layers as they stand, followed by the outlines.
pub proof fn the_set_is_all_layers(state: State, at: int)
    requires
        0 <= at < state.overlays@.len(),
        state.overlays@[at].rasters@.len() > 0,
    ensures
        set_said(state).len() == 2,
        set_said(state)[0] matches calls::CallView::Overlays { overlays } && exists|k: int| {
            &&& 0 <= k < overlays.len()
            &&& (#[trigger] overlays[k]).key == state.overlays@[at].identifier@
            &&& overlays[k].hidden == state.overlays@[at].hidden
            &&& overlays[k].opacity == state.overlays@[at].opacity
            &&& overlays[k].rasters == state.overlays@[at].rasters@
        },
        set_said(state)[1] is Outlines,
{
    the_globe_is_told_what_the_list_says(state.overlays@, at);
    let k = laid_among(state.overlays@, at) as int;
    let told = layers_told(state.overlays@);
    assert(told[k].key == state.overlays@[at].identifier@ && 0 <= k < told.len());
    assert(set_said(state)[0] == (calls::CallView::Overlays { overlays: told }));
    if let calls::CallView::Overlays { overlays } = set_said(state)[0] {
        assert(overlays[k].key == state.overlays@[at].identifier@);
    }
}

/// A layer that is hidden in the list is hidden on the globe, and one that is shown there is
/// shown: the last word to the globe says of its key what was pressed, and says of every
/// other layer what it said before.
pub proof fn what_is_hidden_is_told_hidden(before: State, after: State, key: Seq<char>, hidden: bool, at: int)
    requires
        changed(before, after, key, hiding(hidden)),
        layers_apart(before.overlays@),
        0 <= at < before.overlays@.len(),
        before.overlays@[at].identifier@ == key,
        before.overlays@[at].rasters@.len() > 0,
    ensures
        after.overlays@[at].hidden == hidden,
        after.overlays@[at].opacity == before.overlays@[at].opacity,
        after.said().len() == before.said().len() + 2,
        after.said()[before.said().len() as int] matches calls::CallView::Overlays { overlays } && {
            &&& exists|k: int| 0 <= k < overlays.len() && (#[trigger] overlays[k]).key == key
            &&& forall|k: int|
                0 <= k < overlays.len() && (#[trigger] overlays[k]).key == key ==> overlays[k].hidden == hidden
            &&& forall|k: int, i: int|
                0 <= k < overlays.len() && 0 <= i < before.overlays@.len() && i != at && (#[trigger] overlays[k]).key
                    == (#[trigger] before.overlays@[i]).identifier@ ==> overlays[k].hidden == before.overlays@[i].hidden
        },
{
    overlay::layer_place_is(before.overlays@, key, at);
    let layers = after.overlays@;
    assert(layers[at].identifier@ == key && layers[at].hidden == hidden);
    assert forall|i: int, j: int| 0 <= i < j < layers.len() implies (#[trigger] layers[i]).identifier@ != (
    #[trigger] layers[j]).identifier@ by {
        assert(layers[i].identifier@ == before.overlays@[i].identifier@);
        assert(layers[j].identifier@ == before.overlays@[j].identifier@);
    }
    the_set_is_all_layers(after, at);
    let told = layers_told(layers);
    assert(after.said()[before.said().len() as int] == set_said(after)[0]);
    assert forall|k: int| 0 <= k < told.len() && (#[trigger] told[k]).key == key implies told[k].hidden == hidden by {
        let of = told_of_its_layer(layers, k);
        assert(of == at);
    }
    assert forall|k: int, i: int|
        0 <= k < told.len() && 0 <= i < before.overlays@.len() && i != at && (#[trigger] told[k]).key == (
        #[trigger] before.overlays@[i]).identifier@ implies told[k].hidden == before.overlays@[i].hidden by {
        let of = told_of_its_layer(layers, k);
        assert(layers[i].identifier@ == before.overlays@[i].identifier@);
        assert(of == i);
    }
}

/// A layer is as opaque on the globe as it was set to be, from not at all to wholly; more
/// than wholly is wholly, and less than not at all is not at all.
pub proof fn what_is_faded_is_told_faded(before: State, after: State, key: Seq<char>, opacity: u32, at: int)
    requires
        changed(before, after, key, fading(opacity)),
        layers_apart(before.overlays@),
        0 <= at < before.overlays@.len(),
        before.overlays@[at].identifier@ == key,
        before.overlays@[at].rasters@.len() > 0,
    ensures
        opacity <= 0x3f80_0000 ==> after.overlays@[at].opacity == opacity,
        0x3f80_0000 <= opacity <= 0x7f80_0000 ==> after.overlays@[at].opacity == 0x3f80_0000,
        0x8000_0000 < opacity <= 0xff80_0000 ==> after.overlays@[at].opacity == 0,
        after.overlays@[at].hidden == before.overlays@[at].hidden,
        after.said().len() == before.said().len() + 2,
        after.said()[before.said().len() as int] matches calls::CallView::Overlays { overlays } && exists|k: int|
            0 <= k < overlays.len() && (#[trigger] overlays[k]).key == key && overlays[k].opacity
                == after.overlays@[at].opacity,
        forall|i: int|
            0 <= i < before.overlays@.len() && i != at ==> #[trigger] after.overlays@[i] == before.overlays@[i],
{
    overlay::layer_place_is(before.overlays@, key, at);
    assert(after.overlays@[at].identifier@ == key);
    the_set_is_all_layers(after, at);
    assert(after.said()[before.said().len() as int] == set_said(after)[0]);
}

/// A layer moved up stands one place higher, over the one it stood under, and moved down one
/// place lower; the others stay where they are, and at the edge all do.
pub proof fn a_layer_moves_by_one_place(layers: Seq<OverlayState>, key: Seq<char>, at: int)
    requires
        layers_apart(layers),
        0 <= at < layers.len(),
        layers[at].identifier@ == key,
    ensures
        at + 1 < layers.len() ==> {
            let now = shifted(layers, key, Shift::Up);
            &&& now.len() == layers.len()
            &&& now[at + 1] == layers[at]
            &&& now[at] == layers[at + 1]
            &&& forall|i: int| 0 <= i < layers.len() && i != at && i != at + 1 ==> #[trigger] now[i] == layers[i]
            &&& can_shift(layers, key, Shift::Up)
        },
        at + 1 == layers.len() ==> shifted(layers, key, Shift::Up) == layers && !can_shift(layers, key, Shift::Up),
        at > 0 ==> {
            let now = shifted(layers, key, Shift::Down);
            &&& now.len() == layers.len()
            &&& now[at - 1] == layers[at]
            &&& now[at] == layers[at - 1]
            &&& forall|i: int| 0 <= i < layers.len() && i != at && i != at - 1 ==> #[trigger] now[i] == layers[i]
            &&& can_shift(layers, key, Shift::Down)
        },
        at == 0 ==> shifted(layers, key, Shift::Down) == layers && !can_shift(layers, key, Shift::Down),
{
    overlay::layer_place_is(layers, key, at);
}

/// A layer that was taken away is no longer in the list nor in what the globe is told; the
/// others stay in their order; and each of its files that were open is let go.
pub proof fn what_is_taken_away_is_gone(before: State, after: State, key: Seq<char>, at: int)
    requires
        removed(before, after, key),
        layers_apart(before.overlays@),
        0 <= at < before.overlays@.len(),
        before.overlays@[at].identifier@ == key,
    ensures
        after.overlays@.len() == before.overlays@.len() - 1,
        forall|i: int| 0 <= i < after.overlays@.len() ==> (#[trigger] after.overlays@[i]).identifier@ != key,
        forall|i: int| 0 <= i < at ==> #[trigger] after.overlays@[i] == before.overlays@[i],
        forall|i: int| at <= i < after.overlays@.len() ==> #[trigger] after.overlays@[i] == before.overlays@[i + 1],
        forall|k: int| 0 <= k < layers_told(after.overlays@).len() ==> (#[trigger] layers_told(after.overlays@)[k]).key != key,
        after.said().len() >= before.said().len() + 2,
        after.said()[after.said().len() - 2] == (calls::CallView::Overlays { overlays: layers_told(after.overlays@) }),
        before.overlays@[at].assembly matches Some(assembly) ==> forall|f: int|
            0 <= f < assembly.collected@.len() ==> after.said().contains(
                calls::CallView::Release { handle: (#[trigger] assembly.collected@[f]).handle },
            ),
{
    overlay::layer_place_is(before.overlays@, key, at);
    let layers = after.overlays@;
    assert forall|i: int| 0 <= i < layers.len() implies (#[trigger] layers[i]).identifier@ != key by {
        if i >= at {
            assert(layers[i] == before.overlays@[i + 1]);
        }
    }
    assert forall|k: int| 0 <= k < layers_told(layers).len() implies (#[trigger] layers_told(layers)[k]).key != key by {
        let of = told_of_its_layer(layers, k);
    }
    let end = loose(before).without(before.overlays@[at]);
    assert(after.said() == loose(after).said);
    assert(after.said() == end.said + set_said(after));
    if let Some(assembly) = before.overlays@[at].assembly {
        assert forall|f: int| 0 <= f < assembly.collected@.len() implies after.said().contains(
            calls::CallView::Release { handle: (#[trigger] assembly.collected@[f]).handle },
        ) by {
            let place = before.said().len() + f;
            assert(releases(assembly.collected@)[f] == calls::CallView::Release { handle: assembly.collected@[f].handle });
            assert(after.said()[place] == releases(assembly.collected@)[f]);
        }
    }
}

/// A snapshot that is laid comes on top of the layers, wholly opaque and to be seen, under
/// its own key and name; its rasters are asked for under that key. One that has a layer
/// gets no second.
pub proof fn a_new_layer_comes_on_top(before: State, after: State, product: proto::ProductView, source: Option<ViewId>)
    requires
        laid(before, after, product, source),
    ensures
        (exists|i: int| 0 <= i < before.overlays@.len() && (#[trigger] before.overlays@[i]).identifier@
            == product.identifier) ==> after.overlays@ == before.overlays@,
        (forall|i: int| 0 <= i < before.overlays@.len() ==> (#[trigger] before.overlays@[i]).identifier@
            != product.identifier) ==> {
            let layer = after.overlays@.last();
            &&& after.overlays@.len() == before.overlays@.len() + 1
            &&& forall|i: int| 0 <= i < before.overlays@.len() ==> #[trigger] after.overlays@[i] == before.overlays@[i]
            &&& layer.identifier@ == product.identifier
            &&& layer.label@ == product.name
            &&& layer.source == source
            &&& !layer.hidden
            &&& layer.opacity == 0x3f80_0000
            &&& layer.rasters@.len() == 0
            &&& after.said()[before.said().len() as int] matches calls::CallView::Imagery { identifier, correlation }
                && identifier == product.identifier && (layer.imagery matches Some(mark) && mark@ == correlation)
        },
{
    overlay::layer_place_is_first(before.overlays@, product.identifier);
    let at = overlay::layer_place(before.overlays@, product.identifier);
    if at < before.overlays@.len() {
        assert(before.overlays@[at].identifier@ == product.identifier);
    } else {
        assert forall|i: int| 0 <= i < before.overlays@.len() implies #[trigger] after.overlays@[i]
            == before.overlays@[i] by {
            assert(after.overlays@.drop_last()[i] == before.overlays@[i]);
        }
    }
}

/// Layers of a search go when their products are no longer found in it; those that came
/// from elsewhere stay, and so do those that are found.
pub proof fn a_layer_goes_with_what_was_found(layers: Seq<OverlayState>, view: ViewId, alive: Set<Seq<char>>, at: int)
    requires
        0 <= at < layers.len(),
    ensures
        layers[at].source == Some(view) && !alive.contains(layers[at].identifier@) ==> leaving(layers, view, alive).contains(
            layers[at],
        ),
        layers[at].source != Some(view) || alive.contains(layers[at].identifier@) ==> staying(layers, view, alive).contains(
            layers[at],
        ),
        forall|i: int|
            0 <= i < staying(layers, view, alive).len() ==> (#[trigger] staying(layers, view, alive)[i]).source != Some(view)
                || alive.contains(staying(layers, view, alive)[i].identifier@),
        staying(layers, view, alive).len() + leaving(layers, view, alive).len() == layers.len(),
    decreases layers.len(),
{
    let front = layers.drop_last();
    let (stay, leave) = (staying(layers, view, alive), leaving(layers, view, alive));
    let (kept, gone) = (staying(front, view, alive), leaving(front, view, alive));
    let last = layers.len() - 1;
    if front.len() > 0 {
        let other = if at < last { at } else { 0 };
        a_layer_goes_with_what_was_found(front, view, alive, other);
        assert(front[other] == layers[other]);
        if at < last {
            if kept.contains(layers[at]) {
                let k = choose|k: int| 0 <= k < kept.len() && kept[k] == layers[at];
                assert(stay[k] == layers[at]);
            }
            if gone.contains(layers[at]) {
                let k = choose|k: int| 0 <= k < gone.len() && gone[k] == layers[at];
                assert(leave[k] == layers[at]);
            }
        }
    }
    assert forall|i: int| 0 <= i < stay.len() implies (#[trigger] stay[i]).source != Some(view) || alive.contains(
        stay[i].identifier@,
    ) by {
        if i < kept.len() {
            assert(stay[i] == kept[i]);
        }
    }
    if at == last {
        if stays(layers[at], view, alive) {
            assert(stay[stay.len() - 1] == layers[at]);
        } else {
            assert(leave[leave.len() - 1] == layers[at]);
        }
    }
}

/// Each raster of an answer is opened, and its coordinates with it where they lie apart;
/// from disk where the file is there, and from the provider where it is not.
pub proof fn a_raster_is_opened_where_it_is(
    openings: Openings,
    entries: Seq<proto::LibraryEntry>,
    key: Seq<char>,
    file: FileView,
)
    ensures
        ({
            let after = openings.one_more(entries, key, file);
            &&& after.said.len() == openings.said.len() + 1
            &&& after.said.drop_last() == openings.said
            &&& library::record_is_complete(entries, file.identifier) ==> after.said.last() is OpenLocal
            &&& !library::record_is_complete(entries, file.identifier) ==> after.said.last() == (
            calls::CallView::OpenRemote { identifier: file.identifier, correlation: after.marks.last() })
            &&& after.opens.contains_key(after.marks.last())
            &&& after.opens[after.marks.last()] == (overlay::OpeningView { key, role: file.role, part: file.part })
        }),
{
    library::here_is_a_complete_record(entries, file.identifier);
    assert(openings.one_more(entries, key, file).said.drop_last() =~= openings.said);
}

/// The files of an answer are its rasters, each followed by its coordinates where it has
/// such, in the role the provider gave it.
pub proof fn the_files_of_an_answer_are_its_rasters(rasters: Seq<proto::ImageryRaster>, raster: proto::ImageryRaster)
    ensures
        files_told(Seq::empty()).len() == 0,
        ({
            let role = if raster.role == ImageryRole::ImageryPreview {
                OverlayRole::OverlayPreview
            } else {
                OverlayRole::OverlayDetailed
            };
            let first = FileView { role, part: Part::Raster, identifier: raster.identifier@ };
            let second = FileView { role, part: Part::Geolocation, identifier: raster.geolocation@ };
            files_told(rasters.push(raster)) == if raster.geolocation@.len() > 0 {
                files_told(rasters).push(first).push(second)
            } else {
                files_told(rasters).push(first)
            }
        }),
{
    assert(rasters.push(raster).drop_last() =~= rasters);
}

/// Previews go to the globe before the detailed rasters.
pub proof fn previews_go_first<A, B>(items: Seq<(OverlayRole, A, B)>, i: int, j: int)
    requires
        0 <= i < j < previews_first(items).len(),
        previews_first(items)[j].0 == OverlayRole::OverlayPreview,
    ensures
        previews_first(items)[i].0 == OverlayRole::OverlayPreview,
{
    let front = of_role(items, OverlayRole::OverlayPreview);
    let back = of_role(items, OverlayRole::OverlayDetailed);
    of_role_is_of_it(items, OverlayRole::OverlayPreview);
    of_role_is_of_it(items, OverlayRole::OverlayDetailed);
    if j >= front.len() {
        assert(previews_first(items)[j] == back[j - front.len()]);
    }
    assert(previews_first(items)[i] == front[i]);
}

proof fn of_role_is_of_it<A, B>(items: Seq<(OverlayRole, A, B)>, role: OverlayRole)
    ensures
        forall|k: int| 0 <= k < of_role(items, role).len() ==> (#[trigger] of_role(items, role)[k]).0 == role,
    decreases items.len(),
{
    if items.len() > 0 {
        of_role_is_of_it(items.drop_last(), role);
    }
}

/// A word of the globe is taken down for the layer that it speaks of: how the work goes, and
/// what is wrong. Of a layer that it does not speak of, nothing changes.
pub proof fn a_word_is_taken_down_for_its_layer(layer: OverlayState, now: OverlayState, said: Seq<LayerProgress>, at: int)
    requires
        told_of(layer, now, said),
        0 <= at < said.len(),
        forall|j: int| 0 <= j < at ==> (#[trigger] said[j]).key@ != layer.identifier@,
    ensures
        said[at].key@ == layer.identifier@ ==> now.progress == said[at].progress && now.trouble@ == said[at].trouble@,
        at == said.len() - 1 && said[at].key@ != layer.identifier@ ==> now == layer,
        now.identifier == layer.identifier && now.hidden == layer.hidden && now.opacity == layer.opacity,
        now.rasters == layer.rasters,
{
    first_word_is(said, layer.identifier@, at);
}

proof fn first_word_is(said: Seq<LayerProgress>, key: Seq<char>, at: int)
    requires
        0 <= at < said.len(),
        forall|j: int| 0 <= j < at ==> (#[trigger] said[j]).key@ != key,
    ensures
        said[at].key@ == key ==> said_first(said, key) == Some(said[at]),
        at == said.len() - 1 && said[at].key@ != key ==> said_first(said, key) is None,
    decreases at,
{
    let rest = said.skip(1);
    if at > 0 {
        assert(said[0].key@ != key);
        assert forall|j: int| 0 <= j < at - 1 implies (#[trigger] rest[j]).key@ != key by {
            assert(rest[j] == said[j + 1]);
        }
        first_word_is(rest, key, at - 1);
        assert(rest[at - 1] == said[at]);
    } else if said.len() == 1 && said[0].key@ != key {
        assert(said_first(rest, key) is None);
    }
}

/// What stays when a search is closed did not come from it.
pub proof fn what_stays_is_not_from_there(layers: Seq<OverlayState>, view: ViewId)
    ensures
        forall|i: int|
            0 <= i < staying(layers, view, Set::empty()).len() ==> (#[trigger] staying(
                layers,
                view,
                Set::empty(),
            )[i]).source != Some(view),
    decreases layers.len(),
{
    if layers.len() > 0 {
        let front = layers.drop_last();
        what_stays_is_not_from_there(front, view);
        let rest = staying(front, view, Set::empty());
        let all = staying(layers, view, Set::empty());
        assert forall|i: int| 0 <= i < all.len() implies (#[trigger] all[i]).source != Some(view) by {
            if i < rest.len() {
                assert(all[i] == rest[i]);
            }
        }
    }
}

/// A file that is here is opened by the name of the record that has it, and under the mark
/// that the answer will come by.
pub proof fn a_file_that_is_here_is_opened_by_its_record(
    openings: Openings,
    entries: Seq<proto::LibraryEntry>,
    key: Seq<char>,
    file: FileView,
    at: int,
)
    requires
        0 <= at < entries.len(),
        entries[at].identifier@ == file.identifier,
        forall|j: int| 0 <= j < at ==> (#[trigger] entries[j]).identifier@ != file.identifier,
        entries[at].status is LibComplete,
    ensures
        openings.one_more(entries, key, file).said.last() == (calls::CallView::OpenLocal {
            name: entries[at].name@,
            correlation: openings.one_more(entries, key, file).marks.last(),
        }),
{
    let first = crate::state::library::a_key_means_its_first_record(entries, file.identifier);
    if first < at {
        assert(entries[first].identifier@ != file.identifier);
    } else if at < first {
        assert(entries[at].identifier@ != file.identifier);
    }
}

/// A layer that is given up is gone, and why is said after its name.
pub proof fn what_is_given_up_says_why(before: State, after: State, key: Seq<char>, label: Seq<char>, why: Seq<char>, at: int)
    requires
        given_up(before, after, key, label, why),
        layers_apart(before.overlays@),
        0 <= at < before.overlays@.len(),
        before.overlays@[at].identifier@ == key,
    ensures
        after.overlays@.len() == before.overlays@.len() - 1,
        forall|i: int| 0 <= i < after.overlays@.len() ==> (#[trigger] after.overlays@[i]).identifier@ != key,
        after.notice matches Some(words) && (label.len() <= 40 ==> words@ == "«"@ + label + "»: "@ + why),
{
    let noticed = choose|noticed: State|
        noticed == (State { notice: noticed.notice, ..before }) && library::notices(noticed, given_up_notice(label, why))
            && #[trigger] removed(noticed, after, key);
    what_is_taken_away_is_gone(noticed, after, key, at);
}

/// The answer on the rasters of a layer gives it up where there are none to lay or nowhere to
/// lay them, and says so; else the layer is put together, in the place the answer gave.
pub proof fn a_layer_without_rasters_is_given_up(before: State, after: State, key: Seq<char>, response: ImageryResponse, at: int)
    requires
        named(before, after, key, response),
        layers_apart(before.overlays@),
        0 <= at < before.overlays@.len(),
        before.overlays@[at].identifier@ == key,
        before.overlays@[at].assembly is None,
    ensures
        response.error@.len() > 0 ==> given_up(
            before,
            after,
            key,
            before.overlays@[at].label@,
            "растры не спросились: "@ + response.error@,
        ),
        response.error@.len() == 0 && response.rasters@.len() == 0 && response.reason@.len() > 0 ==> given_up(
            before,
            after,
            key,
            before.overlays@[at].label@,
            response.reason@,
        ),
        response.error@.len() == 0 && response.rasters@.len() == 0 && response.reason@.len() == 0 ==> given_up(
            before,
            after,
            key,
            before.overlays@[at].label@,
            "нет растров для наложения"@,
        ),
        response.error@.len() == 0 && response.rasters@.len() > 0 && response.utm is None && (forall|i: int|
            0 <= i < before.overlays@[at].footprint@.len() ==> (#[trigger] before.overlays@[at].footprint@[i]).points@.len()
                == 0) ==> given_up(
            before,
            after,
            key,
            before.overlays@[at].label@,
            "без привязки: у продукта нет геометрии"@,
        ),
        response.error@.len() == 0 && response.rasters@.len() > 0 && (response.utm is Some || (exists|i: int|
            0 <= i < before.overlays@[at].footprint@.len() && (#[trigger] before.overlays@[at].footprint@[i]).points@.len()
                > 0)) ==> {
            &&& after.overlays@.len() == before.overlays@.len()
            &&& after.overlays@[at].imagery is None
            &&& after.overlays@[at].assembly matches Some(assembly) && assembly.utm == response.utm
                && assembly.collected@.len() == 0
            &&& after.overlays@[at].label == before.overlays@[at].label
            &&& forall|i: int|
                0 <= i < before.overlays@.len() && i != at ==> #[trigger] after.overlays@[i] == before.overlays@[i]
            &&& after.notice == before.notice
        },
{
    overlay::layer_place_is(before.overlays@, key, at);
    overlay::a_layer_has_a_place_where_it_has_a_point(before.overlays@[at]);
}

/// Once the last file of a layer is open, its rasters are handed to the globe under its key;
/// a layer of which none was opened is given up.
pub proof fn a_layer_is_handed_over_whole(before: State, after: State, key: Seq<char>, at: int, assembly: overlay::Assembly)
    requires
        finished(before, after, key),
        layers_apart(before.overlays@),
        0 <= at < before.overlays@.len(),
        before.overlays@[at].identifier@ == key,
        before.overlays@[at].assembly == Some(assembly),
        exists|f: int| 0 <= f < assembly.collected@.len() && (#[trigger] assembly.collected@[f]).part is Raster,
    ensures
        after.said().last() matches calls::CallView::HandOff { key: to, pairs } && to == key && pairs.len() > 0,
        after.overlays@.len() == before.overlays@.len(),
        after.overlays@[at].utm == assembly.utm,
        after.overlays@[at].assembly is None,
        after.overlays@[at].hidden == before.overlays@[at].hidden,
        after.notice == before.notice,
{
    overlay::layer_place_is(before.overlays@, key, at);
    let f = choose|f: int| 0 <= f < assembly.collected@.len() && (#[trigger] assembly.collected@[f]).part is Raster;
    a_raster_makes_a_pair(assembly.collected@, f);
    let bare = bare_pairs(assembly.collected@);
    joining_keeps_the_pairs(bare, coordinates(assembly.collected@));
    let (pairs, spare) = joined(bare, coordinates(assembly.collected@));
    first_things_are_all(pairs);
}

proof fn a_raster_makes_a_pair(files: Seq<Collected>, f: int)
    requires
        0 <= f < files.len(),
        files[f].part is Raster,
    ensures
        bare_pairs(files).len() > 0,
    decreases files.len(),
{
    if f < files.len() - 1 {
        a_raster_makes_a_pair(files.drop_last(), f);
    }
}

proof fn joining_keeps_the_pairs(pairs: Seq<(OverlayRole, Handle, Option<Handle>)>, apart: Seq<Collected>)
    ensures
        joined(pairs, apart).0.len() == pairs.len(),
    decreases apart.len(),
{
    if apart.len() > 0 {
        joining_keeps_the_pairs(pairs, apart.drop_last());
    }
}

proof fn first_things_are_all<A, B>(items: Seq<(OverlayRole, A, B)>)
    ensures
        previews_first(items).len() == items.len(),
    decreases items.len(),
{
    if items.len() > 0 {
        first_things_are_all(items.drop_last());
    }
}

/// The rasters of a layer are those that the globe took, and the layer is worked on from then
/// on though there is nothing to see; a layer of which the globe took none is given up.
pub proof fn a_layer_has_what_the_globe_took(before: State, after: State, key: Seq<char>, rasters: Seq<OverlayRaster>, at: int)
    requires
        on_its_way(before, after, key, rasters),
        layers_apart(before.overlays@),
        0 <= at < before.overlays@.len(),
        before.overlays@[at].identifier@ == key,
    ensures
        rasters.len() > 0 ==> {
            &&& after.overlays@.len() == before.overlays@.len()
            &&& after.overlays@[at].rasters@ == rasters
            &&& after.overlays@[at].progress.working && after.overlays@[at].progress.blank
            &&& after.overlays@[at].hidden == before.overlays@[at].hidden
            &&& after.overlays@[at].opacity == before.overlays@[at].opacity
            &&& forall|i: int|
                0 <= i < before.overlays@.len() && i != at ==> #[trigger] after.overlays@[i] == before.overlays@[i]
            &&& after.said().len() == before.said().len() + 2
        },
        rasters.len() == 0 ==> given_up(before, after, key, before.overlays@[at].label@, "ни один растр не открылся"@),
{
    overlay::layer_place_is(before.overlays@, key, at);
}

/// An opened file is kept for its layer in its role until all are open, and its question is
/// struck off; a file that nobody waits for is given back.
pub proof fn an_opened_file_is_kept_for_its_layer(
    before: State,
    after: State,
    opening: overlay::OpeningView,
    mark: Seq<char>,
    handle: Handle,
    at: int,
    was: overlay::Assembly,
)
    requires
        kept(before, after, opening, mark, Some(handle)),
        layers_apart(before.overlays@),
        0 <= at < before.overlays@.len(),
        before.overlays@[at].identifier@ == opening.key,
        before.overlays@[at].assembly == Some(was),
    ensures
        after.overlays@[at].assembly matches Some(now) && {
            &&& now.collected@.len() == was.collected@.len() + 1
            &&& now.collected@.drop_last() == was.collected@
            &&& now.collected@.last().handle == handle
            &&& now.collected@.last().role == opening.role
            &&& now.collected@.last().part == opening.part
            &&& now.utm == was.utm
            &&& !text::texts(now.opens@).contains(mark)
        },
        after.said() == before.said(),
{
    overlay::layer_place_is(before.overlays@, opening.key, at);
    a_mark_is_struck_off(text::texts(was.opens@), mark, mark);
    if let Some(now) = after.overlays@[at].assembly {
        assert(now.collected@.drop_last() =~= was.collected@);
    }
}

/// A mark that is struck off is no longer there, and every other is.
pub proof fn a_mark_is_struck_off(marks: Seq<Seq<char>>, mark: Seq<char>, other: Seq<char>)
    ensures
        !answered_mark(marks, mark).contains(mark),
        other != mark ==> answered_mark(marks, mark).contains(other) == marks.contains(other),
    decreases marks.len(),
{
    let rest = answered_mark(marks, mark);
    if marks.len() > 0 {
        let front = marks.drop_last();
        a_mark_is_struck_off(front, mark, other);
        let less = answered_mark(front, mark);
        if rest.contains(mark) {
            let k = choose|k: int| 0 <= k < rest.len() && rest[k] == mark;
            if k < less.len() {
                assert(less[k] == mark);
            }
        }
        if other != mark {
            if marks.contains(other) {
                let k = choose|k: int| 0 <= k < marks.len() && marks[k] == other;
                if k < front.len() {
                    assert(front[k] == other);
                    let m = choose|m: int| 0 <= m < less.len() && less[m] == other;
                    assert(rest[m] == other);
                } else {
                    assert(rest[rest.len() - 1] == other);
                }
            }
            if rest.contains(other) {
                let k = choose|k: int| 0 <= k < rest.len() && rest[k] == other;
                if k < less.len() {
                    assert(less[k] == other);
                    let m = choose|m: int| 0 <= m < front.len() && front[m] == other;
                    assert(marks[m] == other);
                } else {
                    assert(marks[marks.len() - 1] == other);
                }
            }
        }
    }
}

/// The button of the globe takes a layer off, calls off one that is asked for, lays one that
/// the search has found, for that search, and has any other looked for.
pub proof fn the_globe_button_turns_one(before: State, after: State, view: ViewId, key: Seq<char>)
    requires
        pressed(before, after, view, key),
    ensures
        after.open is None,
        (exists|i: int| 0 <= i < before.overlays@.len() && (#[trigger] before.overlays@[i]).identifier@ == key) ==> removed(
            State { open: None, ..before },
            after,
            key,
        ),
        (forall|i: int| 0 <= i < before.overlays@.len() ==> (#[trigger] before.overlays@[i]).identifier@ != key) ==> {
            &&& before.showing@.contains(key) ==> !after.showing@.contains(key) && after.overlays == before.overlays
            &&& !before.showing@.contains(key) ==> (at_hand(before, view, key) matches Some(product)
                ==> after.overlays@.len() > 0 && (product@.identifier == key ==> after.overlays@.last().source == Some(view)
                && after.overlays@.last().identifier@ == key))
            &&& !before.showing@.contains(key) && at_hand(before, view, key) is None ==> {
                &&& after.showing@.contains(key)
                &&& after.overlays == before.overlays
                &&& after.said().len() > before.said().len()
                &&& after.said()[before.said().len() as int] == (calls::CallView::Locate {
                    identifier: key,
                    correlation: before.next_mark(),
                })
            }
        },
{
    overlay::a_layer_goes_by_its_key(before.overlays@, key);
    let shut = State { open: None, ..before };
    if !overlay::has_layer(before.overlays@, key) && !before.showing@.contains(key) {
        match at_hand(before, view, key) {
            Some(product) => {
                let middle = choose|middle: State| #[trigger]
                    laid(shut, middle, product@, Some(view)) && nav::globe_turned_to(middle, after);
                assert(after.overlays == middle.overlays);
                overlay::a_layer_goes_by_its_key(before.overlays@, product@.identifier);
            },
            None => {
                let middle = choose|middle: State| #[trigger] sought(shut, middle, key) && nav::globe_turned_to(middle, after);
                assert(after.overlays == middle.overlays);
                assert(after.said() == middle.said());
            },
        }
    }
}

/// What the search at hand has found is found by its key in its results.
pub proof fn what_is_at_hand_was_found(state: State, view: ViewId, key: Seq<char>)
    ensures
        at_hand(state, view, key) matches Some(product) ==> product.identifier@ == key && (screen::kind_in(
            state.screen.views@,
            view,
        ) matches Some(ViewKind::Search(search)) && search.results@.contains(product)),
        (screen::kind_in(state.screen.views@, view) matches Some(ViewKind::Search(search)) && exists|i: int|
            0 <= i < search.results@.len() && (#[trigger] search.results@[i]).identifier@ == key) ==> at_hand(
            state,
            view,
            key,
        ) is Some,
{
    if let Some(ViewKind::Search(search)) = screen::kind_in(state.screen.views@, view) {
        outline::a_product_is_found_by_its_key(search.results@, key);
    }
}

/// What the catalogue found is laid; where it found nothing, that is said with the reason.
pub proof fn what_was_looked_for_is_laid(before: State, after: State, key: Seq<char>, response: LocateResponse)
    requires
        show_answered(before, after, key, response),
    ensures
        response.product matches Some(product) ==> overlay::has_layer(after.overlays@, product.identifier@)
            && after.located@.contains_key(product.identifier@),
        response.product is None ==> after.overlays == before.overlays && (after.notice matches Some(words) && words@
            == "Показать на шаре не вышло: "@ + response.error@),
{
    if let Some(product) = response.product {
        let middle = choose|middle: State| found(before, middle, key, product@) && #[trigger] laid(
            middle,
            after,
            product@,
            None,
        );
        let seen = globe::located_seen(middle.located@);
        assert(seen.contains_key(product@.identifier));
        assert(middle.located@.contains_key(product@.identifier));
        overlay::a_layer_goes_by_its_key(after.overlays@, product@.identifier);
        if !overlay::has_layer(middle.overlays@, product@.identifier) {
            assert(after.overlays@[after.overlays@.len() - 1].identifier@ == product@.identifier);
        }
    }
}

/// That layers left is said: of one by its name, of several by their number, and of none
/// nothing.
pub proof fn that_layers_left_is_said(gone: Seq<OverlayState>)
    ensures
        gone.len() == 0 ==> leaving_notice(gone) is None,
        gone.len() == 1 && gone[0].label@.len() <= 40 ==> leaving_notice(gone) == Some(
            "«"@ + gone[0].label@ + "» снят с шара: его больше нет в выдаче"@,
        ),
        gone.len() == 3 ==> leaving_notice(gone) == Some(
            number::written(3) + " "@ + "снимка"@ + " снято с шара: их больше нет в выдаче"@,
        ),
        gone.len() > 1 && gone.len() % 10 >= 5 ==> leaving_notice(gone) == Some(
            number::written(gone.len()) + " "@ + "снимков"@ + " снято с шара: их больше нет в выдаче"@,
        ),
{
    crate::components::format::a_noun_follows_its_number(gone.len());
}

/// A layer of which the globe says that it cannot lie is given up with the globe's reason; a
/// word without an error gives up nothing.
pub proof fn a_doomed_layer_is_given_up(before: State, after: State, word: LayerProgress, at: int)
    requires
        doomed_one(before, after, word),
        0 <= at <= before.overlays@.len(),
        forall|j: int| 0 <= j < at ==> (#[trigger] before.overlays@[j]).identifier@ != word.key@,
        at < before.overlays@.len() ==> before.overlays@[at].identifier@ == word.key@,
    ensures
        at < before.overlays@.len() && word.error@.len() > 0 ==> given_up(
            before,
            after,
            word.key@,
            before.overlays@[at].label@,
            word.error@,
        ),
        at == before.overlays@.len() || word.error@.len() == 0 ==> after == before,
{
    overlay::layer_place_is(before.overlays@, word.key@, at);
}

/// What a layer that goes was waiting for is waited for no longer: its question for rasters
/// is dropped, its questions for files belong to no layer, and its open files are let go;
/// nothing of another layer is touched.
pub proof fn nobody_waits_for_a_layer_that_is_gone(loose: Loose, layer: OverlayState, mark: Seq<char>)
    ensures
        ({
            let after = loose.without(layer);
            &&& layer.imagery matches Some(asked) ==> !after.imageries.contains_key(asked@)
            &&& (layer.imagery matches Some(asked) ==> asked@ != mark) ==> after.imageries.contains_key(mark)
                == loose.imageries.contains_key(mark)
            &&& layer.assembly is None ==> after.opens == loose.opens && after.said == loose.said
            &&& layer.assembly matches Some(assembly) ==> {
                &&& loose.opens.contains_key(mark) && text::texts(assembly.opens@).contains(mark)
                    ==> after.opens[mark].key.len() == 0
                &&& loose.opens.contains_key(mark) && !text::texts(assembly.opens@).contains(mark) ==> after.opens[mark]
                    == loose.opens[mark]
                &&& after.opens.contains_key(mark) == loose.opens.contains_key(mark)
                &&& after.said.len() == loose.said.len() + assembly.collected@.len()
            }
        }),
{
}

/// The opacity of a layer stays between nought and one: what lies between is kept, what is
/// larger is one, and what is below nought is nought.
pub proof fn opacity_stays_between_nought_and_one(bits: u32)
    ensures
        bits <= 0x3f80_0000 ==> clamped(bits) == bits,
        0x3f80_0000 < bits <= 0x7f80_0000 ==> clamped(bits) == 0x3f80_0000,
        0x8000_0000 < bits <= 0xff80_0000 ==> clamped(bits) == 0,
{
}

/// The coordinates of a raster go to the globe behind it where it was taken, and are let go
/// where it was not.
pub proof fn coordinates_follow_their_raster(pair: Pair, raster: Option<Handle>)
    ensures
        raster is Some ==> goes_next(pair, raster) == pair.coordinates && let_go_behind(pair, raster).len() == 0,
        raster is None ==> goes_next(pair, raster) is None,
        raster is None ==> (pair.coordinates matches Some(handle) ==> let_go_behind(pair, raster) == seq![
            calls::CallView::Release { handle },
        ]),
        pair.coordinates is None ==> let_go_behind(pair, raster).len() == 0,
{
}

} // verus!
