//! The choice of rows, the outlines on the globe, and why neither follows from the
//! other.
//!
//! A row has three states that do not depend on each other: whether it is chosen,
//! whether its snapshot is outlined, and whether it lies on the globe as a raster.
//! Outlines are one set for the whole application, for there is one globe; a choice
//! is each list's own.

use vstd::prelude::*;
use crate::calls::{self, Call, Outline, OutlineStyle};
use crate::components::arrange::{self, Arranged};
use crate::components::list_screen;
use crate::components::row::{self, Row};
use crate::components::rows;
use crate::handlers::library;
use crate::handlers::nav;
use crate::names;
use crate::number;
use crate::proto::{self, DataProduct, LocateResponse, Ring};
use crate::state::globe::{self, Highlight, Locate, Located, Outlined};
use crate::state::ids::ViewId;
use crate::state::listing::{self, Chosen, ListingState};
use crate::state::overlay::{self, Pace};
use crate::state::screen::{self, Screen, Tab, ViewKind};
use crate::state::{self, State};
use crate::text;

verus! {

broadcast use vstd::string::group_string_axioms;

// -- The choice --

/// Only the choice of one list has changed.
pub open spec fn only_choice(before: State, after: State, view: ViewId) -> bool {
    &&& after == (State { screen: Screen { views: after.screen.views, ..before.screen }, ..before })
    &&& match screen::listing_in(before.screen.views@, view) {
        Some(listing) => screen::listing_in(after.screen.views@, view) matches Some(now) && {
            &&& now == (ListingState { selected: now.selected, ..listing })
            &&& after.screen.views@ == screen::with_listing(before.screen.views@, view, now)
        },
        None => after.screen.views@ == before.screen.views@,
    }
}

/// What stands behind a row when it is chosen. A file's keys are taken down then:
/// a choice outlives the way into another folder.
pub open spec fn behind(row: row::RowView) -> listing::ChosenView {
    if row.is_snapshot() {
        listing::ChosenView::Snapshot
    } else {
        listing::ChosenView::File { identifier: row.snapshot_key(), product: row.product, name: row.name }
    }
}

/// What stands behind a key: the first row shown under it, or a snapshot where no
/// row is.
pub open spec fn behind_key(rows: Seq<row::RowView>, key: Seq<char>) -> listing::ChosenView
    decreases rows.len(),
{
    if rows.len() == 0 {
        listing::ChosenView::Snapshot
    } else if rows[0].choice_key() == key {
        behind(rows[0])
    } else {
        behind_key(rows.skip(1), key)
    }
}

/// The rows that can be chosen where a tab shows its list.
pub open spec fn choices_in(state: State, view: ViewId) -> Seq<row::RowView> {
    match screen::listing_in(state.screen.views@, view) {
        Some(listing) => arrange::choices_shown(
            rows::sky(state).rows(screen::kind_in(state.screen.views@, view)),
            listing,
        ),
        None => Seq::empty(),
    }
}

fn chosen(row: &Row) -> (what: Chosen)
    ensures
        what@ == behind(row@),
{
    if row.is_snapshot() {
        Chosen::Snapshot
    } else {
        Chosen::File {
            identifier: row.snapshot_key().to_owned(),
            product: row.product.clone(),
            name: row.name.clone(),
        }
    }
}

fn chosen_by_key(state: &State, view: ViewId, key: &str) -> (what: Chosen)
    ensures
        what@ == behind_key(choices_in(*state, view), key@),
{
    let rows: Vec<Row> = rows::of(state, view);
    match state.screen.listing(view) {
        Some(listing) => {
            let arranged: Arranged<'_> = arrange::arrange(rows.as_slice(), listing);
            let choices: Vec<&Row> = arranged.choices();
            let ghost all = arrange::refs_seen(choices@);
            let mut i: usize = 0;
            assert(all.skip(0) =~= all);
            while i < choices.len()
                invariant
                    i <= choices@.len(),
                    all == arrange::refs_seen(choices@),
                    all == choices_in(*state, view),
                    behind_key(all.skip(i as int), key@) == behind_key(all, key@),
                decreases choices@.len() - i,
            {
                assert(all.skip(i as int)[0] == choices@[i as int]@);
                if text::same(choices[i].choice_key(), key) {
                    return chosen(choices[i]);
                }
                assert(all.skip(i as int).skip(1) =~= all.skip(i + 1));
                i += 1;
            }
            Chosen::Snapshot
        },
        None => Chosen::Snapshot,
    }
}

/// Chooses a row, or takes the choice back. The globe is not touched.
pub fn toggle(state: &mut State, view: ViewId, key: String)
    ensures
        only_choice(*old(state), *final(state), view),
        screen::listing_in(old(state).screen.views@, view) is Some ==> {
            let was = library::chosen_in(old(state).screen.views@, view);
            let now = library::chosen_in(final(state).screen.views@, view);
            if was.contains_key(key@) {
                now == was.remove(key@)
            } else {
                &&& now == was.insert(key@, now[key@])
                &&& now[key@]@ == behind_key(choices_in(*old(state), view), key@)
            }
        },
        old(state).screen.whole() ==> final(state).screen.whole(),
{
    let what: Chosen = chosen_by_key(state, view, &key);
    let ghost views = state.screen.views@;
    if let Some(listing) = state.listing_mut(view) {
        listing.select(key, what);
    }
    proof {
        told_again(views, view);
    }
}

/// A list that is shown anew is found so.
proof fn told_again(views: Seq<Tab>, view: ViewId)
    ensures
        screen::listing_in(views, view) is Some ==> forall|after: ListingState|
            #[trigger] screen::listing_in(screen::with_listing(views, view, after), view) == Some(after),
{
    if screen::listing_in(views, view) is Some {
        assert forall|after: ListingState|
            #[trigger] screen::listing_in(screen::with_listing(views, view, after), view) == Some(after) by {
            screen::with_listing_is_told(views, view, after);
        }
    }
}

/// The choice with these rows taken in.
pub open spec fn taken_in(selected: Map<Seq<char>, listing::ChosenView>, rows: Seq<row::RowView>) -> Map<
    Seq<char>,
    listing::ChosenView,
>
    decreases rows.len(),
{
    if rows.len() == 0 {
        selected
    } else {
        taken_in(selected, rows.drop_last()).insert(rows.last().choice_key(), behind(rows.last()))
    }
}

/// The choice with these rows let go.
pub open spec fn let_go(selected: Map<Seq<char>, listing::ChosenView>, rows: Seq<row::RowView>) -> Map<
    Seq<char>,
    listing::ChosenView,
>
    decreases rows.len(),
{
    if rows.len() == 0 {
        selected
    } else {
        let_go(selected, rows.drop_last()).remove(rows.last().choice_key())
    }
}

/// What a choice says.
pub open spec fn choice_seen(selected: Map<Seq<char>, Chosen>) -> Map<Seq<char>, listing::ChosenView> {
    selected.map_values(|what: Chosen| what@)
}

/// Chooses all that is shown and can be chosen, or takes the choice of it back: the box in
/// the header. It acts on the rows that it speaks of (see [`Arranged::marks`]).
pub fn mark_shown(state: &mut State, view: ViewId, on: bool)
    ensures
        only_choice(*old(state), *final(state), view),
        screen::listing_in(old(state).screen.views@, view) is Some ==> {
            let was = choice_seen(library::chosen_in(old(state).screen.views@, view));
            let now = choice_seen(library::chosen_in(final(state).screen.views@, view));
            let shown = choices_in(*old(state), view);
            now == if on { taken_in(was, shown) } else { let_go(was, shown) }
        },
        old(state).screen.whole() ==> final(state).screen.whole(),
{
    let rows: Vec<Row> = rows::of(state, view);
    let mut picked: Vec<(String, Chosen)> = Vec::new();
    let ghost shown = choices_in(*state, view);
    match state.screen.listing(view) {
        Some(listing) => {
            let arranged: Arranged<'_> = arrange::arrange(rows.as_slice(), listing);
            let choices: Vec<&Row> = arranged.choices();
            assert(arrange::refs_seen(choices@) == shown);
            let mut i: usize = 0;
            while i < choices.len()
                invariant
                    i <= choices@.len(),
                    arrange::refs_seen(choices@) == shown,
                    picked@.len() == i,
                    forall|j: int|
                        0 <= j < i ==> (#[trigger] picked@[j]).0@ == shown[j].choice_key() && picked@[j].1@ == behind(
                            shown[j],
                        ),
                decreases choices@.len() - i,
            {
                assert(shown[i as int] == choices@[i as int]@);
                picked.push((choices[i].choice_key().to_owned(), chosen(choices[i])));
                i += 1;
            }
            assert(shown.len() == choices@.len());
        },
        None => {
            return;
        },
    }
    let ghost views = state.screen.views@;
    if let Some(listing) = state.listing_mut(view) {
        let ghost before = *listing;
        let ghost was = choice_seen(listing.selected@);
        let mut i: usize = 0;
        while i < picked.len()
            invariant
                i <= picked@.len(),
                picked@.len() == shown.len(),
                forall|j: int|
                    0 <= j < shown.len() ==> (#[trigger] picked@[j]).0@ == shown[j].choice_key() && picked@[j].1@ == behind(
                        shown[j],
                    ),
                *listing == (ListingState { selected: listing.selected, ..before }),
                choice_seen(listing.selected@) == if on {
                    taken_in(was, shown.take(i as int))
                } else {
                    let_go(was, shown.take(i as int))
                },
            decreases picked@.len() - i,
        {
            let ghost earlier = choice_seen(listing.selected@);
            assert(shown.take(i + 1).drop_last() =~= shown.take(i as int));
            assert(picked@[i as int].0@ == shown[i as int].choice_key());
            if on {
                listing.selected.insert(picked[i].0.clone(), picked[i].1.clone());
                assert(choice_seen(listing.selected@) =~= earlier.insert(
                    shown[i as int].choice_key(),
                    behind(shown[i as int]),
                ));
            } else {
                listing.selected.remove(&picked[i].0);
                assert(choice_seen(listing.selected@) =~= earlier.remove(shown[i as int].choice_key()));
            }
            i += 1;
        }
        assert(shown.take(shown.len() as int) =~= shown);
    }
    proof {
        told_again(views, view);
    }
}

/// Takes the whole choice of a list back, and not only what is shown of it: a
/// choice outlives the way into another folder.
pub fn unmark_all(state: &mut State, view: ViewId)
    ensures
        only_choice(*old(state), *final(state), view),
        library::chosen_in(final(state).screen.views@, view) == Map::<Seq<char>, Chosen>::empty(),
        old(state).screen.whole() ==> final(state).screen.whole(),
{
    let ghost views = state.screen.views@;
    if let Some(listing) = state.listing_mut(view) {
        if !listing.selected.is_empty() {
            listing.selected.clear();
        }
    }
    proof {
        told_again(views, view);
    }
}

// -- What is known of a snapshot --

/// The first product with this key.
pub open spec fn product_in(products: Seq<DataProduct>, key: Seq<char>) -> Option<DataProduct>
    decreases products.len(),
{
    if products.len() == 0 {
        None
    } else if products[0].identifier@ == key {
        Some(products[0])
    } else {
        product_in(products.skip(1), key)
    }
}

/// The first product with this key that any search has found. All searches are
/// looked through, and not only the tab where the key was asked for: the same
/// snapshot is asked for in the catalogue, and its geometry lies in a search.
pub open spec fn found_in(views: Seq<Tab>, key: Seq<char>) -> Option<DataProduct>
    decreases views.len(),
{
    if views.len() == 0 {
        None
    } else {
        let here = match views[0].kind {
            ViewKind::Search(search) => product_in(search.results@, key),
            _ => None,
        };
        match here {
            Some(product) => Some(product),
            None => found_in(views.skip(1), key),
        }
    }
}

/// What is known of the geometry of a snapshot.
pub open spec fn known_product(views: Seq<Tab>, located: Map<Seq<char>, Located>, key: Seq<char>) -> Option<
    DataProduct,
> {
    match found_in(views, key) {
        Some(product) => Some(product),
        None => if located.contains_key(key) {
            match located[key] {
                Located::Found(product) => Some(product),
                _ => None,
            }
        } else {
            None
        },
    }
}

/// Nothing is known of it, and the catalogue has not been asked.
pub open spec fn to_ask(views: Seq<Tab>, located: Map<Seq<char>, Located>, key: Seq<char>) -> bool {
    found_in(views, key) is None && !located.contains_key(key)
}

enum Known<'a> {
    Have(&'a DataProduct),
    /// The provider has to be asked.
    Ask,
    /// There is nothing to draw and nothing to ask.
    Nothing,
}

/// The first product with this key.
pub fn find_product<'a>(products: &'a Vec<DataProduct>, key: &str) -> (found: Option<&'a DataProduct>)
    ensures
        match found {
            Some(product) => product_in(products@, key@) == Some(*product),
            None => product_in(products@, key@) is None,
        },
{
    let ghost all = products@;
    let mut i: usize = 0;
    assert(all.skip(0) =~= all);
    while i < products.len()
        invariant
            i <= all.len(),
            all == products@,
            product_in(all.skip(i as int), key@) == product_in(all, key@),
        decreases all.len() - i,
    {
        assert(all.skip(i as int)[0] == all[i as int]);
        if text::same(&products[i].identifier, key) {
            return Some(&products[i]);
        }
        assert(all.skip(i as int).skip(1) =~= all.skip(i + 1));
        i += 1;
    }
    None
}

fn product<'a>(state: &'a State, key: &str) -> (known: Known<'a>)
    ensures
        match known {
            Known::Have(product) => known_product(state.screen.views@, state.located@, key@) == Some(*product),
            Known::Ask => known_product(state.screen.views@, state.located@, key@) is None && to_ask(
                state.screen.views@,
                state.located@,
                key@,
            ),
            Known::Nothing => known_product(state.screen.views@, state.located@, key@) is None && !to_ask(
                state.screen.views@,
                state.located@,
                key@,
            ),
        },
{
    let ghost views = state.screen.views@;
    let mut i: usize = 0;
    assert(views.skip(0) =~= views);
    while i < state.screen.views.len()
        invariant
            i <= views.len(),
            views == state.screen.views@,
            found_in(views.skip(i as int), key@) == found_in(views, key@),
        decreases views.len() - i,
    {
        assert(views.skip(i as int)[0] == views[i as int]);
        if let ViewKind::Search(search) = &state.screen.views[i].kind {
            if let Some(found) = find_product(&search.results, key) {
                return Known::Have(found);
            }
        }
        assert(views.skip(i as int).skip(1) =~= views.skip(i + 1));
        i += 1;
    }
    match state.located.get(key) {
        Some(Located::Found(found)) => Known::Have(found),
        Some(_) => Known::Nothing,
        None => Known::Ask,
    }
}

// -- What is drawn --

/// The rings of a footprint, drawn in one style.
pub open spec fn rings_as(rings: Seq<Seq<proto::GeoPoint>>, style: OutlineStyle) -> Seq<calls::OutlineView> {
    rings.map_values(|points: Seq<proto::GeoPoint>| calls::OutlineView { points, style })
}

/// The outlines that were asked for; the one that is picked stands out.
pub open spec fn asked_lines(outlined: Seq<globe::OutlinedView>, picked: Seq<char>) -> Seq<calls::OutlineView>
    decreases outlined.len(),
{
    if outlined.len() == 0 {
        Seq::empty()
    } else {
        let one = outlined.last();
        asked_lines(outlined.drop_last(), picked) + rings_as(
            one.rings,
            if picked == one.key { OutlineStyle::OutlineSelected } else { OutlineStyle::OutlinePlain },
        )
    }
}

/// The snapshots that are on their way to the globe: asked for, and nothing of
/// them is to be seen.
pub open spec fn coming(here: rows::Sky, keys: Seq<Seq<char>>) -> Seq<Seq<char>>
    decreases keys.len(),
{
    if keys.len() == 0 {
        Seq::empty()
    } else {
        let rest = coming(here, keys.drop_last());
        if here.globe(keys.last()).pace_spec() == Pace::Unknown { rest.push(keys.last()) } else { rest }
    }
}

/// The keys of the layers, bottom to top.
pub open spec fn layer_keys(layers: Seq<overlay::OverlayState>) -> Seq<Seq<char>> {
    layers.map_values(|layer: overlay::OverlayState| layer.identifier@)
}

/// The names of which there is no layer.
pub open spec fn without_layers(layers: Seq<overlay::OverlayState>, keys: Seq<Seq<char>>) -> Seq<Seq<char>>
    decreases keys.len(),
{
    if keys.len() == 0 {
        Seq::empty()
    } else {
        let rest = without_layers(layers, keys.drop_last());
        if overlay::has_layer(layers, keys.last()) { rest } else { rest.push(keys.last()) }
    }
}

/// The snapshots that are laid or are to be laid.
pub open spec fn meant(here: rows::Sky) -> Seq<Seq<char>> {
    layer_keys(here.layers) + without_layers(here.layers, names::in_order(here.showing))
}

/// The places of snapshots on their way. One that is outlined already is not drawn
/// twice.
pub open spec fn hatches(here: rows::Sky, views: Seq<Tab>, keys: Seq<Seq<char>>) -> Seq<calls::OutlineView>
    decreases keys.len(),
{
    if keys.len() == 0 {
        Seq::empty()
    } else {
        let rest = hatches(here, views, keys.drop_last());
        if rows::is_drawn(here.outlined, keys.last()) {
            rest
        } else {
            match known_product(views, here.located, keys.last()) {
                Some(product) => rest + rings_as(proto::outlines_of(product.footprint@), OutlineStyle::OutlinePending),
                None => rest,
            }
        }
    }
}

/// All outlines on the globe: those asked for, and the places of what is on its
/// way.
pub open spec fn lines_drawn(state: State) -> Seq<calls::OutlineView> {
    let here = rows::sky(state);
    asked_lines(globe::outlined_seen(state.outlined@), state::picked_of(state.highlight)) + hatches(
        here,
        state.screen.views@,
        coming(here, meant(here)),
    )
}

fn add_rings(outlines: &mut Vec<Outline>, geometry: &Vec<Ring>, style: OutlineStyle)
    ensures
        calls::outlines_seen(final(outlines)@) == calls::outlines_seen(old(outlines)@) + rings_as(
            proto::outlines_of(geometry@),
            style,
        ),
{
    let ghost start = calls::outlines_seen(outlines@);
    let ghost all = rings_as(proto::outlines_of(geometry@), style);
    let mut i: usize = 0;
    assert(start + all.take(0) =~= start);
    while i < geometry.len()
        invariant
            i <= geometry@.len(),
            all == rings_as(proto::outlines_of(geometry@), style),
            all.len() == geometry@.len(),
            calls::outlines_seen(outlines@) == start + all.take(i as int),
        decreases geometry@.len() - i,
    {
        let ghost before = outlines@;
        let points: Vec<proto::GeoPoint> = proto::copy_points(&geometry[i].points);
        outlines.push(Outline { points, style });
        assert(all[i as int] == calls::OutlineView { points: geometry@[i as int].points@, style });
        assert(calls::outlines_seen(outlines@) =~= calls::outlines_seen(before).push(all[i as int]));
        assert(start + all.take(i + 1) =~= (start + all.take(i as int)).push(all[i as int]));
        i += 1;
    }
    assert(all.take(all.len() as int) =~= all);
}

/// The snapshots that are on their way to the globe. What is to be seen of them is
/// asked by the rule that the strip under a row goes by.
fn under_way(state: &State) -> (keys: Vec<String>)
    ensures
        text::texts(keys@) == coming(rows::sky(*state), meant(rows::sky(*state))),
{
    let ghost here = rows::sky(*state);
    let ghost laid = layer_keys(here.layers);
    let showing: Vec<String> = names::sorted_names(&state.showing);
    let ghost asked = text::texts(showing@);
    let mut keys: Vec<String> = Vec::new();
    let mut i: usize = 0;
    assert(text::texts(keys@) =~= coming(here, laid.take(0)));
    while i < state.overlays.len()
        invariant
            i <= state.overlays@.len(),
            here == rows::sky(*state),
            laid == layer_keys(here.layers),
            laid.len() == state.overlays@.len(),
            text::texts(keys@) == coming(here, laid.take(i as int)),
        decreases state.overlays@.len() - i,
    {
        let key: &String = &state.overlays[i].identifier;
        assert(laid[i as int] == key@);
        assert(laid.take(i + 1).drop_last() =~= laid.take(i as int));
        if let Pace::Unknown = rows::onto_globe(state, key).pace() {
            let ghost before = keys@;
            keys.push(key.clone());
            assert(text::texts(keys@) =~= text::texts(before).push(key@));
        }
        i += 1;
    }
    assert(laid.take(laid.len() as int) =~= laid);
    let mut j: usize = 0;
    assert(without_layers(here.layers, asked.take(0)) =~= Seq::empty());
    assert(laid + without_layers(here.layers, asked.take(0)) =~= laid);
    while j < showing.len()
        invariant
            j <= showing@.len(),
            here == rows::sky(*state),
            laid == layer_keys(here.layers),
            asked == text::texts(showing@),
            asked.len() == showing@.len(),
            text::texts(keys@) == coming(here, laid + without_layers(here.layers, asked.take(j as int))),
        decreases showing@.len() - j,
    {
        let key: &String = &showing[j];
        let ghost rest = without_layers(here.layers, asked.take(j as int));
        assert(asked[j as int] == key@);
        assert(asked.take(j + 1).drop_last() =~= asked.take(j as int));
        if overlay::find_layer(&state.overlays, key) >= state.overlays.len() {
            assert((laid + rest.push(key@)).drop_last() =~= laid + rest);
            assert((laid + rest.push(key@)).last() == key@);
            if let Pace::Unknown = rows::onto_globe(state, key).pace() {
                let ghost before = keys@;
                keys.push(key.clone());
                assert(text::texts(keys@) =~= text::texts(before).push(key@));
            }
        } else {
            proof {
                overlay::layer_place_is_first(here.layers, key@);
            }
        }
        j += 1;
    }
    assert(asked.take(asked.len() as int) =~= asked);
    keys
}

/// What the set is made of: what was outlined on request, and the places of what
/// is on its way.
pub fn drawn(state: &State) -> (outlines: Vec<Outline>)
    ensures
        calls::outlines_seen(outlines@) == lines_drawn(*state),
{
    let ghost here = rows::sky(*state);
    let ghost asked = globe::outlined_seen(state.outlined@);
    let picked: &str = state.picked_key();
    let mut outlines: Vec<Outline> = Vec::new();
    let mut i: usize = 0;
    assert(calls::outlines_seen(outlines@) =~= asked_lines(asked.take(0), picked@));
    while i < state.outlined.len()
        invariant
            i <= state.outlined@.len(),
            asked == globe::outlined_seen(state.outlined@),
            calls::outlines_seen(outlines@) == asked_lines(asked.take(i as int), picked@),
        decreases state.outlined@.len() - i,
    {
        let one: &Outlined = &state.outlined[i];
        assert(asked[i as int] == one@);
        assert(asked.take(i + 1).drop_last() =~= asked.take(i as int));
        let style: OutlineStyle = if text::same(picked, &one.key) {
            OutlineStyle::OutlineSelected
        } else {
            OutlineStyle::OutlinePlain
        };
        add_rings(&mut outlines, &one.rings, style);
        i += 1;
    }
    assert(asked.take(asked.len() as int) =~= asked);
    let ghost front = calls::outlines_seen(outlines@);
    let keys: Vec<String> = under_way(state);
    let ghost all = text::texts(keys@);
    let mut j: usize = 0;
    assert(front + hatches(here, state.screen.views@, all.take(0)) =~= front);
    while j < keys.len()
        invariant
            j <= keys@.len(),
            here == rows::sky(*state),
            all == text::texts(keys@),
            calls::outlines_seen(outlines@) == front + hatches(here, state.screen.views@, all.take(j as int)),
        decreases keys@.len() - j,
    {
        let key: &String = &keys[j];
        let ghost rest = hatches(here, state.screen.views@, all.take(j as int));
        assert(all[j as int] == key@);
        assert(all.take(j + 1).drop_last() =~= all.take(j as int));
        if !rows::drawn_already(&state.outlined, key) {
            if let Known::Have(found) = product(state, key) {
                add_rings(&mut outlines, &found.footprint, OutlineStyle::OutlinePending);
                let ghost more = rings_as(proto::outlines_of(found.footprint@), OutlineStyle::OutlinePending);
                assert((front + rest) + more =~= front + (rest + more));
            }
        }
        j += 1;
    }
    assert(all.take(all.len() as int) =~= all);
    outlines
}

/// The set that the globe is told.
pub open spec fn outlines_call(state: State) -> calls::CallView {
    calls::CallView::Outlines { outlines: lines_drawn(state) }
}

/// Tells the globe the whole set: there is no other way to tell it of outlines.
pub fn send(state: &mut State)
    ensures
        *final(state) == (State { calls: final(state).calls, ..*old(state) }),
        final(state).said() == old(state).said().push(outlines_call(*old(state))),
        outlines_call(*final(state)) == outlines_call(*old(state)),
{
    let outlines: Vec<Outline> = drawn(state);
    let call: Call = Call::Outlines { outlines };
    proof {
        calls::said_push(state.calls@, call);
    }
    state.calls.push(call);
}

/// The highlight once what is picked may have left the globe: it goes where
/// neither an outline nor a layer of it is left.
pub open spec fn still_picked(
    highlight: Option<Highlight>,
    outlined: Seq<Outlined>,
    layers: Seq<overlay::OverlayState>,
) -> Option<Highlight> {
    let picked = state::picked_of(highlight);
    if picked.len() > 0 && !rows::is_drawn(outlined, picked) && !overlay::has_layer(layers, picked) {
        state::unpicked(highlight)
    } else {
        highlight
    }
}

/// Takes the pick back when the snapshot is no longer on the globe in any way. One
/// rule for all ways in which it may have left.
pub fn forget_gone(state: &mut State)
    ensures
        *final(state) == (State {
            highlight: still_picked(old(state).highlight, old(state).outlined@, old(state).overlays@),
            ..*old(state)
        }),
{
    let (some, outlined, laid): (bool, bool, bool) = {
        let picked: &str = state.picked_key();
        (
            !picked.is_empty(),
            rows::drawn_already(&state.outlined, picked),
            overlay::find_layer(&state.overlays, picked) < state.overlays.len(),
        )
    };
    proof {
        overlay::layer_place_is_first(state.overlays@, state::picked_of(state.highlight));
    }
    if some && !outlined && !laid {
        state.deselect();
    }
}

/// The outlines to be drawn: of the snapshots whose geometry is known.
pub open spec fn to_draw(views: Seq<Tab>, located: Map<Seq<char>, Located>, keys: Seq<Seq<char>>) -> Seq<
    globe::OutlinedView,
>
    decreases keys.len(),
{
    if keys.len() == 0 {
        Seq::empty()
    } else {
        let rest = to_draw(views, located, keys.drop_last());
        match known_product(views, located, keys.last()) {
            Some(product) => if product.footprint@.len() > 0 {
                rest.push(
                    globe::OutlinedView {
                        key: keys.last(),
                        label: product.name@,
                        folder: product.folder,
                        rings: proto::outlines_of(product.footprint@),
                    },
                )
            } else {
                rest
            },
            None => rest,
        }
    }
}

/// The keys of which the catalogue has to be asked.
pub open spec fn unasked(views: Seq<Tab>, located: Map<Seq<char>, Located>, keys: Seq<Seq<char>>) -> Seq<Seq<char>>
    decreases keys.len(),
{
    if keys.len() == 0 {
        Seq::empty()
    } else {
        let rest = unasked(views, located, keys.drop_last());
        if to_ask(views, located, keys.last()) { rest.push(keys.last()) } else { rest }
    }
}

/// The answers with what searches have found taken down: a search changes, and an
/// outline outlives it.
pub open spec fn taken_down(
    views: Seq<Tab>,
    located: Map<Seq<char>, Located>,
    keys: Seq<Seq<char>>,
) -> Map<Seq<char>, globe::LocatedView>
    decreases keys.len(),
{
    if keys.len() == 0 {
        globe::located_seen(located)
    } else {
        let rest = taken_down(views, located, keys.drop_last());
        match known_product(views, located, keys.last()) {
            Some(product) => if located.contains_key(keys.last()) {
                rest
            } else {
                rest.insert(keys.last(), globe::LocatedView::Found(product@))
            },
            None => rest,
        }
    }
}

/// Questions to the catalogue, and what is known of their answers.
pub ghost struct Asks {
    pub asked: u64,
    pub located: Map<Seq<char>, globe::LocatedView>,
    pub locates: Map<Seq<char>, globe::LocateView>,
    pub said: Seq<calls::CallView>,
}

impl Asks {
    /// The catalogue is asked of these keys. Each is marked as asked, so that no
    /// second question follows.
    pub open spec fn asking(self, keys: Seq<Seq<char>>) -> Asks
        decreases keys.len(),
    {
        if keys.len() == 0 {
            self
        } else {
            let rest = self.asking(keys.drop_last());
            let mark = number::written(rest.asked as nat);
            Asks {
                asked: state::one_more(rest.asked),
                located: rest.located.insert(keys.last(), globe::LocatedView::Asking),
                locates: rest.locates.insert(mark, globe::LocateView::Outline(keys.last())),
                said: rest.said.push(calls::CallView::Locate { identifier: keys.last(), correlation: mark }),
            }
        }
    }
}

pub open spec fn asks(state: State) -> Asks {
    Asks {
        asked: state.asked,
        located: globe::located_seen(state.located@),
        locates: globe::locates_seen(state.locates@),
        said: state.said(),
    }
}

/// The outlines were put together anew and the globe was told.
pub open spec fn redrawn(before: State, after: State) -> bool {
    let keys = names::in_order(before.outlines@);
    let views = before.screen.views@;
    let known = Asks { located: taken_down(views, before.located@, keys), ..asks(before) };
    let done = known.asking(unasked(views, before.located@, keys));
    &&& after == (State {
        outlined: after.outlined,
        located: after.located,
        locates: after.locates,
        asked: after.asked,
        highlight: still_picked(before.highlight, after.outlined@, before.overlays@),
        calls: after.calls,
        ..before
    })
    &&& globe::outlined_seen(after.outlined@) == to_draw(views, before.located@, keys)
    &&& asks(after) == (Asks { said: done.said.push(outlines_call(after)), ..done })
}

fn ask_of(state: &mut State, keys: Vec<String>)
    ensures
        *final(state) == (State {
            located: final(state).located,
            locates: final(state).locates,
            asked: final(state).asked,
            calls: final(state).calls,
            ..*old(state)
        }),
        asks(*final(state)) == asks(*old(state)).asking(text::texts(keys@)),
{
    let ghost all = text::texts(keys@);
    let ghost start = asks(*state);
    let mut i: usize = 0;
    while i < keys.len()
        invariant
            i <= keys@.len(),
            all == text::texts(keys@),
            start == asks(*old(state)),
            *state == (State {
                located: state.located,
                locates: state.locates,
                asked: state.asked,
                calls: state.calls,
                ..*old(state)
            }),
            asks(*state) == start.asking(all.take(i as int)),
        decreases keys@.len() - i,
    {
        let key: &String = &keys[i];
        let ghost rest = asks(*state);
        assert(all[i as int] == key@);
        assert(all.take(i + 1).drop_last() =~= all.take(i as int));
        state.located.insert(key.clone(), Located::Asking);
        let correlation: String = state.mark();
        state.locates.insert(correlation.clone(), Locate::Outline(key.clone()));
        let ghost mark = correlation@;
        let call: Call = Call::Locate { identifier: key.clone(), correlation };
        proof {
            calls::said_push(state.calls@, call);
        }
        state.calls.push(call);
        proof {
            assert(globe::located_seen(state.located@) =~= rest.located.insert(key@, globe::LocatedView::Asking));
            assert(globe::locates_seen(state.locates@) =~= rest.locates.insert(mark, globe::LocateView::Outline(key@)));
        }
        i += 1;
    }
    assert(all.take(all.len() as int) =~= all);
}

/// Puts the outlines together anew out of what is asked for, and tells the globe.
/// It is called whenever what is asked for changes, or where the geometry comes
/// from.
pub fn refresh(state: &mut State)
    ensures
        redrawn(*old(state), *final(state)),
        names::lists(names::in_order(old(state).outlines@), old(state).outlines@),
{
    let ghost before = *state;
    let ghost views = state.screen.views@;
    let ghost known = state.located@;
    let keys: Vec<String> = names::sorted_names(&state.outlines);
    let ghost all = text::texts(keys@);
    let mut wanted: Vec<Outlined> = Vec::new();
    let mut ask: Vec<String> = Vec::new();
    let mut cache: Vec<(String, DataProduct)> = Vec::new();
    let ghost answers = globe::located_seen(known);
    let mut i: usize = 0;
    assert(globe::outlined_seen(wanted@) =~= Seq::empty());
    assert(text::texts(ask@) =~= Seq::empty());
    assert(cached(answers, cache@) =~= answers);
    while i < keys.len()
        invariant
            i <= keys@.len(),
            all == text::texts(keys@),
            *state == before,
            views == state.screen.views@,
            known == state.located@,
            answers == globe::located_seen(known),
            globe::outlined_seen(wanted@) == to_draw(views, known, all.take(i as int)),
            text::texts(ask@) == unasked(views, known, all.take(i as int)),
            cached(answers, cache@) == taken_down(views, known, all.take(i as int)),
        decreases keys@.len() - i,
    {
        let key: &String = &keys[i];
        assert(all[i as int] == key@);
        assert(all.take(i + 1).drop_last() =~= all.take(i as int));
        match product(state, key) {
            Known::Have(found) => {
                if !state.located.contains_key(key) {
                    let ghost earlier = cache@;
                    cache.push((key.clone(), found.clone()));
                    assert(cache@.drop_last() =~= earlier);
                }
                if found.footprint.len() > 0 {
                    let ghost earlier = wanted@;
                    let rings: Vec<Ring> = proto::copy_rings(&found.footprint);
                    wanted.push(
                        Outlined { key: key.clone(), label: found.name.clone(), folder: found.folder, rings },
                    );
                    assert(globe::outlined_seen(wanted@) =~= globe::outlined_seen(earlier).push(wanted@.last()@));
                }
            },
            Known::Ask => {
                let ghost earlier = ask@;
                ask.push(key.clone());
                assert(text::texts(ask@) =~= text::texts(earlier).push(key@));
            },
            Known::Nothing => {},
        }
        i += 1;
    }
    assert(all.take(all.len() as int) =~= all);
    let mut j: usize = 0;
    assert(cache@.take(0) =~= Seq::empty());
    while j < cache.len()
        invariant
            j <= cache@.len(),
            *state == (State { located: state.located, ..before }),
            globe::located_seen(state.located@) == cached(answers, cache@.take(j as int)),
        decreases cache@.len() - j,
    {
        let ghost earlier = globe::located_seen(state.located@);
        assert(cache@.take(j + 1).drop_last() =~= cache@.take(j as int));
        state.located.insert(cache[j].0.clone(), Located::Found(cache[j].1.clone()));
        assert(globe::located_seen(state.located@) =~= earlier.insert(
            cache@[j as int].0@,
            globe::LocatedView::Found(cache@[j as int].1@),
        ));
        j += 1;
    }
    assert(cache@.take(cache@.len() as int) =~= cache@);
    ask_of(state, ask);
    state.outlined = wanted;
    forget_gone(state);
    send(state);
}

/// The answers with these products taken down.
spec fn cached(answers: Map<Seq<char>, globe::LocatedView>, list: Seq<(String, DataProduct)>) -> Map<
    Seq<char>,
    globe::LocatedView,
>
    decreases list.len(),
{
    if list.len() == 0 {
        answers
    } else {
        cached(answers, list.drop_last()).insert(list.last().0@, globe::LocatedView::Found(list.last().1@))
    }
}

/// The answer of the catalogue is forgotten if it could not be asked.
pub open spec fn retried(state: State, after: State, key: Seq<char>) -> bool {
    &&& after == (State { located: after.located, ..state })
    &&& after.located@ == if state.located@.contains_key(key) && state.located@[key] is Failed {
        state.located@.remove(key)
    } else {
        state.located@
    }
}

fn failed(state: &State, key: &str) -> (yes: bool)
    ensures
        yes == (state.located@.contains_key(key@) && state.located@[key@] is Failed),
{
    match state.located.get(key) {
        Some(Located::Failed) => true,
        _ => false,
    }
}

/// To ask anew is to ask again: a question that broke off does not outlive it. An
/// answer that there is no such product does.
fn retry(state: &mut State, key: &str)
    ensures
        retried(*old(state), *final(state), key@),
{
    if failed(state, key) {
        state.located.remove(key);
    }
}

/// The state once an outline was asked for, or is no longer: one whose question
/// broke off is asked again and not taken away.
pub open spec fn switched(before: State, middle: State, key: Seq<char>) -> bool {
    &&& middle == (State { outlines: middle.outlines, located: middle.located, ..before })
    &&& if before.outlines@.contains(key) {
        if before.located@.contains_key(key) && before.located@[key] is Failed {
            middle.outlines@ == before.outlines@ && middle.located@ == before.located@.remove(key)
        } else {
            middle.outlines@ == before.outlines@.remove(key) && middle.located@ == before.located@
        }
    } else {
        &&& middle.outlines@ == before.outlines@.insert(key)
        &&& retried(before, State { outlines: before.outlines, ..middle }, key)
    }
}

/// Outlines a snapshot on the globe, or takes its outline away. The key is always
/// that of a snapshot: the catalogue is asked for the geometry by it.
pub fn toggle_outline(state: &mut State, key: String)
    ensures
        exists|middle: State| switched(*old(state), middle, key@) && #[trigger] redrawn(middle, *final(state)),
{
    let ghost before = *state;
    let ghost name = key@;
    if state.outlines.contains(&key) && failed(state, &key) {
        state.located.remove(&key);
        assert(switched(before, *state, name));
        refresh(state);
        return;
    }
    if !state.outlines.remove(&key) {
        assert(state.outlines@ =~= before.outlines@);
        retry(state, &key);
        state.outlines.insert(key);
    }
    assert(switched(before, *state, name));
    refresh(state);
}

/// Takes one outline away. The choice in lists is not touched.
pub fn drop_one(state: &mut State, key: &str)
    ensures
        if old(state).outlines@.contains(key@) {
            exists|middle: State| #[trigger]
                redrawn(middle, *final(state)) && middle == (State { outlines: middle.outlines, ..*old(state) })
                    && middle.outlines@ == old(state).outlines@.remove(key@)
        } else {
            final(state).outlines@ == old(state).outlines@ && *final(state) == (State {
                outlines: final(state).outlines,
                ..*old(state)
            })
        },
{
    let ghost before = *state;
    if !state.outlines.remove(key) {
        assert(state.outlines@ =~= before.outlines@);
        return;
    }
    let ghost middle = *state;
    refresh(state);
    assert(redrawn(middle, *state));
}

/// The state once something was picked on the globe, or nothing is. A miss takes
/// back the pick and nothing else: it was not the one that led to a row.
pub open spec fn picked_now(before: State, after: State, key: Option<Seq<char>>) -> bool {
    let name = match key {
        Some(key) => key,
        None => Seq::empty(),
    };
    if state::picked_of(before.highlight) == name {
        after == before
    } else {
        &&& after == (State { highlight: after.highlight, calls: after.calls, ..before })
        &&& match key {
            Some(key) => after.highlight matches Some(highlight) && {
                &&& highlight.key@ == key
                &&& highlight.view is None
                &&& highlight.on_globe
            },
            None => after.highlight == state::unpicked(before.highlight),
        }
        &&& after.said() == before.said().push(outlines_call(after))
    }
}

/// Picks an outline, or takes the pick back. The one place where a person changes
/// it, and so the highlight of a walked row goes out here.
fn select(state: &mut State, key: Option<String>)
    ensures
        picked_now(
            *old(state),
            *final(state),
            match key {
                Some(key) => Some(key@),
                None => None,
            },
        ),
{
    let same: bool = {
        let picked: &str = state.picked_key();
        match &key {
            Some(key) => text::same(picked, key),
            None => picked.is_empty(),
        }
    };
    proof {
        if state::picked_of(state.highlight).len() == 0 {
            assert(state::picked_of(state.highlight) =~= Seq::empty());
        }
    }
    if same {
        return;
    }
    match key {
        None => {
            state.deselect();
        },
        Some(key) => {
            state.highlight = Some(Highlight { key, view: None, on_globe: true });
        },
    }
    send(state);
}

/// The first outline under this key.
pub open spec fn outline_of(outlined: Seq<Outlined>, key: Seq<char>) -> Option<Outlined>
    decreases outlined.len(),
{
    if outlined.len() == 0 {
        None
    } else if outlined[0].key@ == key {
        Some(outlined[0])
    } else {
        outline_of(outlined.skip(1), key)
    }
}

/// Where to look for a snapshot: at its outline, or else at the place of its layer. An
/// outline of no rings says nothing.
pub open spec fn place_of(state: State, key: Seq<char>) -> Seq<Seq<proto::GeoPoint>> {
    let drawn = match outline_of(state.outlined@, key) {
        Some(outlined) => proto::outlines_of(outlined.rings@),
        None => Seq::empty(),
    };
    if proto::has_points(drawn) {
        drawn
    } else {
        match overlay::layer_of(state.overlays@, key) {
            Some(layer) => proto::outlines_of(layer.footprint@),
            None => Seq::empty(),
        }
    }
}

fn find_outline<'a>(outlined: &'a Vec<Outlined>, key: &str) -> (found: Option<&'a Outlined>)
    ensures
        match found {
            Some(one) => outline_of(outlined@, key@) == Some(*one),
            None => outline_of(outlined@, key@) is None,
        },
{
    let ghost all = outlined@;
    let mut i: usize = 0;
    assert(all.skip(0) =~= all);
    while i < outlined.len()
        invariant
            i <= all.len(),
            all == outlined@,
            outline_of(all.skip(i as int), key@) == outline_of(all, key@),
        decreases all.len() - i,
    {
        assert(all.skip(i as int)[0] == all[i as int]);
        if text::same(&outlined[i].key, key) {
            return Some(&outlined[i]);
        }
        assert(all.skip(i as int).skip(1) =~= all.skip(i + 1));
        i += 1;
    }
    None
}

/// The globe was turned to a snapshot, the snapshot was picked, and the globe came up.
/// Where nothing is known of its place the globe is not turned.
pub open spec fn looked_at(before: State, after: State, key: Seq<char>) -> bool {
    exists|aimed: State, picked: State| {
        &&& aimed == (State { calls: aimed.calls, ..before })
        &&& aimed.said() == if proto::has_points(place_of(before, key)) {
            before.said().push(calls::CallView::FocusOn { footprint: place_of(before, key) })
        } else {
            before.said()
        }
        &&& #[trigger] picked_now(aimed, picked, Some(key))
        &&& #[trigger] nav::globe_turned_to(picked, after)
    }
}

/// Turns the globe to a snapshot and picks it: one way for an outline and for a layer.
/// The place is asked of what is at hand, and not of the catalogue.
pub fn focus(state: &mut State, key: &str)
    requires
        old(state).screen.whole(),
        old(state).screen.next < u64::MAX,
    ensures
        looked_at(*old(state), *final(state), key@),
        final(state).screen.whole(),
{
    let ghost before = *state;
    let mut footprint: Vec<Ring> = Vec::new();
    assert(proto::outlines_of(footprint@) =~= Seq::empty());
    if let Some(one) = find_outline(&state.outlined, key) {
        footprint = proto::copy_rings(&one.rings);
    }
    if !proto::any_points(&footprint) {
        proof {
            overlay::layer_place_is_first(state.overlays@, key@);
        }
        let at: usize = overlay::find_layer(&state.overlays, key);
        footprint = if at < state.overlays.len() { proto::copy_rings(&state.overlays[at].footprint) } else { Vec::new() };
        assert(at >= state.overlays@.len() ==> proto::outlines_of(footprint@) =~= Seq::empty());
    }
    assert(proto::outlines_of(footprint@) == place_of(before, key@));
    if proto::any_points(&footprint) {
        let call: Call = Call::FocusOn { footprint };
        proof {
            calls::said_push(state.calls@, call);
        }
        state.calls.push(call);
    }
    let ghost aimed = *state;
    select(state, Some(key.to_owned()));
    let ghost picked = *state;
    nav::on_new_globe(state);
    assert(picked_now(aimed, picked, Some(key@)));
    assert(nav::globe_turned_to(picked, *state));
}

/// Takes all outlines off the globe. The choice in lists is not touched.
pub fn clear(state: &mut State)
    ensures
        final(state).outlines@ == Set::<Seq<char>>::empty(),
        final(state).outlined@.len() == 0,
        *final(state) == (State {
            outlines: final(state).outlines,
            outlined: final(state).outlined,
            highlight: state::unpicked(old(state).highlight),
            calls: final(state).calls,
            ..*old(state)
        }),
        final(state).said() == if old(state).outlines@ == Set::<Seq<char>>::empty() && old(state).outlined@.len() == 0
            && !(old(state).highlight matches Some(highlight) && highlight.on_globe) {
            old(state).said()
        } else {
            old(state).said().push(outlines_call(*final(state)))
        },
{
    let unmarked: bool = !state.outlines.is_empty();
    state.outlines.clear();
    let unpicked: bool = state.deselect();
    let outlined: bool = state.outlined.len() > 0;
    state.outlined.clear();
    if unmarked || unpicked || outlined {
        send(state);
    }
}

/// Takes the pick back and leaves the outlines.
pub fn deselect(state: &mut State)
    ensures
        *final(state) == (State {
            highlight: state::unpicked(old(state).highlight),
            calls: final(state).calls,
            ..*old(state)
        }),
        final(state).said() == if old(state).highlight matches Some(highlight) && highlight.on_globe {
            old(state).said().push(outlines_call(*final(state)))
        } else {
            old(state).said()
        },
{
    if !state.deselect() {
        return;
    }
    send(state);
}

/// The first of the smallest among the outlines that cover a place; `None` stands
/// for one that does not. How large each is, is told by a number that orders them.
pub open spec fn smallest(hits: Seq<Option<u64>>) -> int
    decreases hits.len(),
{
    if hits.len() == 0 {
        -1
    } else {
        let best = smallest(hits.drop_last());
        match hits.last() {
            Some(extent) => if best < 0 || extent < hits[best]->0 { hits.len() - 1 } else { best },
            None => best,
        }
    }
}

/// The key of the outline that was hit.
pub open spec fn hit_key(outlined: Seq<Outlined>, hits: Seq<Option<u64>>) -> Option<Seq<char>> {
    let at = smallest(hits);
    if 0 <= at && at < outlined.len() { Some(outlined[at].key@) } else { None }
}

/// Picks the snapshot that covers a place. Of several, the smallest: one shot is
/// given out as several products with nearly the same outline, and a strip of a
/// radar covers a whole tile. `hits` says of every outline whether it covers the
/// place, and how large it is; nothing is hit beside the Earth.
pub fn pick(state: &mut State, hits: Vec<Option<u64>>)
    requires
        hits@.len() <= old(state).outlined@.len(),
    ensures
        picked_now(*old(state), *final(state), hit_key(old(state).outlined@, hits@)),
{
    let mut best: Option<(usize, u64)> = None;
    let mut i: usize = 0;
    let ghost all = hits@;
    while i < hits.len()
        invariant
            i <= all.len(),
            all == hits@,
            match best {
                Some((at, extent)) => at < i && smallest(all.take(i as int)) == at && all[at as int] == Some(extent),
                None => smallest(all.take(i as int)) == -1,
            },
        decreases all.len() - i,
    {
        assert(all.take(i + 1).drop_last() =~= all.take(i as int));
        if let Some(extent) = hits[i] {
            let better: bool = match best {
                Some((_, least)) => extent < least,
                None => true,
            };
            if better {
                best = Some((i, extent));
            }
        }
        i += 1;
    }
    assert(all.take(all.len() as int) =~= all);
    let key: Option<String> = match best {
        Some((at, _)) => Some(state.outlined[at].key.clone()),
        None => None,
    };
    select(state, key);
}

/// What the catalogue said of a key.
pub open spec fn answer_of(response: LocateResponse) -> globe::LocatedView {
    match response.product {
        Some(product) => globe::LocatedView::Found(product@),
        None => if response.answered { globe::LocatedView::Missing } else { globe::LocatedView::Failed },
    }
}

/// The state once an answer was taken down: a product lives to the end, and so does
/// that there is none; that it could not be asked is said and lives until it is
/// asked again.
pub open spec fn answered(before: State, middle: State, key: Seq<char>, response: LocateResponse) -> bool {
    &&& middle == (State { located: middle.located, notice: middle.notice, ..before })
    &&& globe::located_seen(middle.located@) == globe::located_seen(before.located@).insert(key, answer_of(response))
    &&& if answer_of(response) is Failed {
        library::notices(middle, "Контур не спросился: "@ + response.error@)
    } else {
        middle.notice == before.notice
    }
}

/// A product has come by its key, or has not.
pub fn located(state: &mut State, key: String, response: LocateResponse)
    ensures
        exists|middle: State| answered(*old(state), middle, key@, response) && #[trigger] redrawn(middle, *final(state)),
{
    let ghost before = *state;
    let ghost name = key@;
    let ghost said = answer_of(response);
    let answer: Located = match response.product {
        Some(product) => Located::Found(product),
        None => if response.answered {
            Located::Missing
        } else {
            state.notice = Some(text::concat("Контур не спросился: ", &response.error));
            Located::Failed
        },
    };
    state.located.insert(key, answer);
    assert(globe::located_seen(state.located@) =~= globe::located_seen(before.located@).insert(name, said));
    let ghost middle = *state;
    assert(answered(before, middle, name, response));
    refresh(state);
}

// -- Laws --

/// What is picked is on the globe, once what is gone was forgotten; and to forget it
/// again changes nothing.
pub proof fn what_is_picked_is_on_the_globe(
    highlight: Option<Highlight>,
    outlined: Seq<Outlined>,
    layers: Seq<overlay::OverlayState>,
)
    ensures
        ({
            let after = still_picked(highlight, outlined, layers);
            let picked = state::picked_of(after);
            &&& picked.len() == 0 || rows::is_drawn(outlined, picked) || overlay::has_layer(layers, picked)
            &&& still_picked(after, outlined, layers) == after
        }),
{
}

/// All that is shown is chosen by the box in the header, and what is not shown stays as
/// it was.
pub proof fn the_box_takes_in_what_is_shown(
    selected: Map<Seq<char>, listing::ChosenView>,
    rows: Seq<row::RowView>,
    key: Seq<char>,
)
    ensures
        (exists|i: int| 0 <= i < rows.len() && (#[trigger] rows[i]).choice_key() == key) ==> taken_in(
            selected,
            rows,
        ).contains_key(key) && !let_go(selected, rows).contains_key(key),
        (forall|i: int| 0 <= i < rows.len() ==> (#[trigger] rows[i]).choice_key() != key) ==> {
            &&& taken_in(selected, rows).contains_key(key) == selected.contains_key(key)
            &&& let_go(selected, rows).contains_key(key) == selected.contains_key(key)
            &&& selected.contains_key(key) ==> taken_in(selected, rows)[key] == selected[key] && let_go(
                selected,
                rows,
            )[key] == selected[key]
        },
    decreases rows.len(),
{
    if rows.len() > 0 {
        let front = rows.drop_last();
        the_box_takes_in_what_is_shown(selected, front, key);
        if rows.last().choice_key() != key {
            if exists|i: int| 0 <= i < rows.len() && (#[trigger] rows[i]).choice_key() == key {
                let i = choose|i: int| 0 <= i < rows.len() && (#[trigger] rows[i]).choice_key() == key;
                assert(front[i].choice_key() == key);
            }
            if forall|i: int| 0 <= i < rows.len() ==> (#[trigger] rows[i]).choice_key() != key {
                assert forall|i: int| 0 <= i < front.len() implies (#[trigger] front[i]).choice_key() != key by {
                    assert(front[i] == rows[i]);
                }
            }
        } else {
            assert(rows[rows.len() - 1].choice_key() == key);
        }
    }
}

/// The box in the header does what it says, to the rows that it speaks of: pressed while
/// it is empty it says then that all is chosen, and pressed while it is full, that not all
/// is. Over rows of which none can be chosen it stays empty.
pub proof fn the_box_does_what_it_says(rows: Seq<row::RowView>, before: ListingState, after: ListingState, on: bool)
    requires
        ({
            let was = choice_seen(before.selected@);
            let shown = arrange::choosable_rows(rows);
            choice_seen(after.selected@) == if on { taken_in(was, shown) } else { let_go(was, shown) }
        }),
    ensures
        list_screen::all_chosen(rows, after) == (on && arrange::choosable_rows(rows).len() > 0),
        arrange::choosable_rows(rows).len() == 0 ==> choice_seen(after.selected@) == choice_seen(before.selected@),
{
    let shown = arrange::choosable_rows(rows);
    let was = choice_seen(before.selected@);
    assert forall|j: int| 0 <= j < shown.len() implies after.selected@.contains_key((#[trigger] shown[j]).choice_key())
        == on by {
        let key = shown[j].choice_key();
        the_box_takes_in_what_is_shown(was, shown, key);
        assert(choice_seen(after.selected@).contains_key(key) == after.selected@.contains_key(key));
    }
    if shown.len() > 0 {
        assert(after.selected@.contains_key(shown[0].choice_key()) == on);
    }
}

/// No answer is lost when the catalogue is asked, and what it is asked of is known to
/// be.
proof fn asking_loses_nothing(asks: Asks, keys: Seq<Seq<char>>, key: Seq<char>)
    ensures
        asks.located.contains_key(key) || keys.contains(key) ==> asks.asking(keys).located.contains_key(key),
        asks.asking(keys).located.contains_key(key) && asks.asking(keys).located[key] is Failed ==> {
            &&& asks.located.contains_key(key)
            &&& asks.located[key] is Failed
        },
    decreases keys.len(),
{
    if keys.len() > 0 {
        let front = keys.drop_last();
        asking_loses_nothing(asks, front, key);
        if keys.contains(key) {
            let i = choose|i: int| 0 <= i < keys.len() && keys[i] == key;
            if i < front.len() {
                assert(front[i] == key);
            }
        }
    }
}

proof fn taking_down_loses_nothing(
    views: Seq<Tab>,
    located: Map<Seq<char>, Located>,
    keys: Seq<Seq<char>>,
    key: Seq<char>,
)
    ensures
        located.contains_key(key) ==> taken_down(views, located, keys).contains_key(key),
        taken_down(views, located, keys).contains_key(key) && taken_down(views, located, keys)[key] is Failed ==> {
            &&& located.contains_key(key)
            &&& located[key] is Failed
        },
    decreases keys.len(),
{
    if keys.len() > 0 {
        taking_down_loses_nothing(views, located, keys.drop_last(), key);
    }
}

proof fn what_is_to_be_asked_is(
    views: Seq<Tab>,
    located: Map<Seq<char>, Located>,
    keys: Seq<Seq<char>>,
    key: Seq<char>,
)
    requires
        keys.contains(key),
        to_ask(views, located, key),
    ensures
        unasked(views, located, keys).contains(key),
    decreases keys.len(),
{
    let front = keys.drop_last();
    let rest = unasked(views, located, front);
    let i = choose|i: int| 0 <= i < keys.len() && keys[i] == key;
    if i < front.len() {
        assert(front[i] == key);
        what_is_to_be_asked_is(views, located, front, key);
        let k = choose|k: int| 0 <= k < rest.len() && rest[k] == key;
        assert(unasked(views, located, keys)[k] == key);
    } else {
        assert(unasked(views, located, keys)[rest.len() as int] == key);
    }
}

proof fn nothing_to_ask(views: Seq<Tab>, located: Map<Seq<char>, Located>, keys: Seq<Seq<char>>)
    requires
        forall|i: int| 0 <= i < keys.len() ==> !to_ask(views, located, #[trigger] keys[i]),
    ensures
        unasked(views, located, keys) == Seq::<Seq<char>>::empty(),
    decreases keys.len(),
{
    if keys.len() > 0 {
        let front = keys.drop_last();
        assert forall|i: int| 0 <= i < front.len() implies !to_ask(views, located, #[trigger] front[i]) by {
            assert(front[i] == keys[i]);
        }
        nothing_to_ask(views, located, front);
        assert(!to_ask(views, located, keys[keys.len() - 1]));
    }
}

/// The catalogue is asked of a snapshot once: outlines put together anew ask nothing
/// that was asked before, and only the globe is told.
pub proof fn nothing_is_asked_twice(before: State, middle: State, after: State)
    requires
        redrawn(before, middle),
        redrawn(middle, after),
    ensures
        after.said() == middle.said().push(outlines_call(after)),
{
    let keys = names::in_order(before.outlines@);
    let views = before.screen.views@;
    let known = Asks { located: taken_down(views, before.located@, keys), ..asks(before) };
    let asked = unasked(views, before.located@, keys);
    let done = known.asking(asked);
    assert(globe::located_seen(middle.located@) == done.located);
    assert forall|i: int| 0 <= i < keys.len() implies !to_ask(views, middle.located@, #[trigger] keys[i]) by {
        let key = keys[i];
        taking_down_loses_nothing(views, before.located@, keys, key);
        asking_loses_nothing(known, asked, key);
        if to_ask(views, before.located@, key) {
            assert(keys.contains(key));
            what_is_to_be_asked_is(views, before.located@, keys, key);
        }
        if found_in(views, key) is None {
            assert(done.located.contains_key(key));
            assert(globe::located_seen(middle.located@).contains_key(key));
        }
    }
    nothing_to_ask(views, middle.located@, keys);
    assert(asks(after).said == after.said());
    assert(asks(middle).said == middle.said());
}

/// Asking changes only what is known of the keys that are asked.
proof fn asking_changes_the_asked(asks: Asks, keys: Seq<Seq<char>>, key: Seq<char>)
    ensures
        keys.contains(key) ==> asks.asking(keys).located.contains_key(key) && asks.asking(keys).located[key] is Asking,
        !keys.contains(key) ==> {
            &&& asks.asking(keys).located.contains_key(key) == asks.located.contains_key(key)
            &&& asks.located.contains_key(key) ==> asks.asking(keys).located[key] == asks.located[key]
        },
    decreases keys.len(),
{
    if keys.len() > 0 {
        let front = keys.drop_last();
        asking_changes_the_asked(asks, front, key);
        if front.contains(key) {
            let i = choose|i: int| 0 <= i < front.len() && front[i] == key;
            assert(keys[i] == key);
        }
        if keys.contains(key) {
            let i = choose|i: int| 0 <= i < keys.len() && keys[i] == key;
            if i < front.len() {
                assert(front[i] == key);
            }
        } else {
            assert(keys[keys.len() - 1] != key);
        }
    }
}

/// Taking down adds what searches have found, and changes nothing else.
proof fn taking_down_adds_the_found(
    views: Seq<Tab>,
    located: Map<Seq<char>, Located>,
    keys: Seq<Seq<char>>,
    key: Seq<char>,
)
    ensures
        located.contains_key(key) ==> {
            &&& taken_down(views, located, keys).contains_key(key)
            &&& taken_down(views, located, keys)[key] == located[key]@
        },
        !located.contains_key(key) ==> {
            &&& taken_down(views, located, keys).contains_key(key) == (keys.contains(key) && known_product(
                views,
                located,
                key,
            ) is Some)
            &&& taken_down(views, located, keys).contains_key(key) ==> taken_down(views, located, keys)[key]
                == globe::LocatedView::Found(known_product(views, located, key)->0@)
        },
    decreases keys.len(),
{
    if keys.len() > 0 {
        let front = keys.drop_last();
        taking_down_adds_the_found(views, located, front, key);
        if keys.contains(key) {
            let i = choose|i: int| 0 <= i < keys.len() && keys[i] == key;
            if i < front.len() {
                assert(front[i] == key);
            }
        }
        if front.contains(key) {
            let i = choose|i: int| 0 <= i < front.len() && front[i] == key;
            assert(keys[i] == key);
        }
        assert(keys[keys.len() - 1] == keys.last());
    }
}

/// Only what has to be asked is asked.
proof fn what_is_asked_has_to_be(
    views: Seq<Tab>,
    located: Map<Seq<char>, Located>,
    keys: Seq<Seq<char>>,
    key: Seq<char>,
)
    requires
        unasked(views, located, keys).contains(key),
    ensures
        keys.contains(key),
        to_ask(views, located, key),
    decreases keys.len(),
{
    let all = unasked(views, located, keys);
    let front = keys.drop_last();
    let rest = unasked(views, located, front);
    let k = choose|k: int| 0 <= k < all.len() && all[k] == key;
    if k < rest.len() {
        assert(rest[k] == key);
        what_is_asked_has_to_be(views, located, front, key);
        let i = choose|i: int| 0 <= i < front.len() && front[i] == key;
        assert(keys[i] == key);
    } else {
        assert(keys[keys.len() - 1] == key);
    }
}

/// What is known of a snapshot says one thing, two ways to know it.
spec fn known_alike(views: Seq<Tab>, one: Map<Seq<char>, Located>, other: Map<Seq<char>, Located>, key: Seq<char>) -> bool {
    match known_product(views, one, key) {
        Some(product) => known_product(views, other, key) matches Some(same) && same@ == product@,
        None => known_product(views, other, key) is None,
    }
}

proof fn known_alike_is_drawn_alike(
    views: Seq<Tab>,
    one: Map<Seq<char>, Located>,
    other: Map<Seq<char>, Located>,
    keys: Seq<Seq<char>>,
)
    requires
        forall|i: int| 0 <= i < keys.len() ==> #[trigger] known_alike(views, one, other, keys[i]),
    ensures
        to_draw(views, one, keys) == to_draw(views, other, keys),
    decreases keys.len(),
{
    if keys.len() > 0 {
        let front = keys.drop_last();
        assert forall|i: int| 0 <= i < front.len() implies #[trigger] known_alike(views, one, other, front[i]) by {
            assert(known_alike(views, one, other, keys[i]));
        }
        known_alike_is_drawn_alike(views, one, other, front);
        assert(known_alike(views, one, other, keys[keys.len() - 1]));
        if let Some(product) = known_product(views, one, keys.last()) {
            let same = known_product(views, other, keys.last())->0;
            assert(proto::outlines_of(product.footprint@) == product@.footprint);
            assert(proto::outlines_of(same.footprint@) == same@.footprint);
            assert(product.footprint@.len() == product@.footprint.len());
            assert(same.footprint@.len() == same@.footprint.len());
            assert(product@.name == same@.name && product@.folder == same@.folder);
        }
    }
}

/// What one refresh makes of what is known of a key: an answer stays; what a search has
/// found and is to be outlined is taken down; what is to be outlined and is not known is
/// being asked; of all other keys nothing is known still.
pub proof fn a_refresh_takes_down_what_it_learns(before: State, after: State, key: Seq<char>)
    requires
        redrawn(before, after),
    ensures
        ({
            let keys = names::in_order(before.outlines@);
            let seen = globe::located_seen(after.located@);
            let known = known_product(before.screen.views@, before.located@, key);
            &&& before.located@.contains_key(key) ==> seen.contains_key(key) && seen[key] == before.located@[key]@
            &&& !before.located@.contains_key(key) && keys.contains(key) ==> {
                &&& seen.contains_key(key)
                &&& seen[key] == match known {
                    Some(product) => globe::LocatedView::Found(product@),
                    None => globe::LocatedView::Asking,
                }
            }
            &&& !before.located@.contains_key(key) && !keys.contains(key) ==> !seen.contains_key(key)
        }),
{
    let keys = names::in_order(before.outlines@);
    let views = before.screen.views@;
    let known = Asks { located: taken_down(views, before.located@, keys), ..asks(before) };
    let asked = unasked(views, before.located@, keys);
    assert(globe::located_seen(after.located@) == known.asking(asked).located);
    taking_down_adds_the_found(views, before.located@, keys, key);
    asking_changes_the_asked(known, asked, key);
    if asked.contains(key) {
        what_is_asked_has_to_be(views, before.located@, keys, key);
    } else if keys.contains(key) && to_ask(views, before.located@, key) {
        what_is_to_be_asked_is(views, before.located@, keys, key);
    }
}

/// Outlines put together anew out of the same are the same: a second refresh draws what
/// the first drew, learns nothing and asks nothing, and leaves the pick where it was.
pub proof fn a_second_refresh_changes_nothing(before: State, middle: State, after: State)
    requires
        redrawn(before, middle),
        redrawn(middle, after),
    ensures
        globe::outlined_seen(after.outlined@) == globe::outlined_seen(middle.outlined@),
        after.outlines == middle.outlines,
        middle.outlines == before.outlines,
        globe::located_seen(after.located@) == globe::located_seen(middle.located@),
        globe::locates_seen(after.locates@) == globe::locates_seen(middle.locates@),
        after.asked == middle.asked,
        after.highlight == middle.highlight,
        after.said() == middle.said().push(outlines_call(after)),
{
    let keys = names::in_order(before.outlines@);
    let views = before.screen.views@;
    assert forall|i: int| 0 <= i < keys.len() implies known_alike(views, before.located@, middle.located@, #[trigger] keys[i])
        && !to_ask(views, middle.located@, keys[i]) by {
        let key = keys[i];
        let seen = globe::located_seen(middle.located@);
        assert(keys.contains(key));
        a_refresh_takes_down_what_it_learns(before, middle, key);
        assert(seen.contains_key(key) && middle.located@.contains_key(key));
        assert(seen[key] == middle.located@[key]@);
    }
    known_alike_is_drawn_alike(views, before.located@, middle.located@, keys);
    nothing_to_ask(views, middle.located@, keys);
    nothing_to_take_down(views, middle.located@, keys, before, middle);
    let drawn = globe::outlined_seen(middle.outlined@);
    assert(drawn == globe::outlined_seen(after.outlined@));
    let picked = state::picked_of(middle.highlight);
    drawn_alike(middle.outlined@, after.outlined@, picked);
    what_is_picked_is_on_the_globe(before.highlight, middle.outlined@, before.overlays@);
    let known = Asks { located: taken_down(views, middle.located@, keys), ..asks(middle) };
    assert(known.asking(Seq::empty()) == known);
}

proof fn nothing_to_take_down(
    views: Seq<Tab>,
    located: Map<Seq<char>, Located>,
    keys: Seq<Seq<char>>,
    before: State,
    middle: State,
)
    requires
        located == middle.located@,
        forall|i: int| 0 <= i < keys.len() ==> names::in_order(before.outlines@).contains(#[trigger] keys[i]),
        redrawn(before, middle),
    ensures
        taken_down(views, located, keys) == globe::located_seen(located),
    decreases keys.len(),
{
    if keys.len() > 0 {
        let front = keys.drop_last();
        assert forall|i: int| 0 <= i < front.len() implies names::in_order(before.outlines@).contains(#[trigger] front[i]) by {
            assert(front[i] == keys[i]);
        }
        nothing_to_take_down(views, located, front, before, middle);
        let key = keys[keys.len() - 1];
        a_refresh_takes_down_what_it_learns(before, middle, key);
        assert(globe::located_seen(located).contains_key(key));
    }
}

proof fn drawn_alike(one: Seq<Outlined>, other: Seq<Outlined>, key: Seq<char>)
    requires
        globe::outlined_seen(one) == globe::outlined_seen(other),
    ensures
        rows::is_drawn(one, key) == rows::is_drawn(other, key),
{
    let seen = globe::outlined_seen(one);
    assert(one.len() == seen.len() && other.len() == seen.len());
    if rows::is_drawn(one, key) {
        let i = choose|i: int| 0 <= i < one.len() && (#[trigger] one[i]).key@ == key;
        assert(seen[i] == other[i]@);
        assert(other[i].key@ == key);
    }
    if rows::is_drawn(other, key) {
        let i = choose|i: int| 0 <= i < other.len() && (#[trigger] other[i]).key@ == key;
        assert(seen[i] == one[i]@);
        assert(one[i].key@ == key);
    }
}

/// The geometry of a snapshot is known, and there is some.
pub open spec fn has_geometry(views: Seq<Tab>, located: Map<Seq<char>, Located>, key: Seq<char>) -> bool {
    known_product(views, located, key) matches Some(product) && product.footprint@.len() > 0
}

/// What is drawn are the snapshots that are to be outlined and whose geometry is known,
/// each once and in the order of their keys.
pub proof fn what_is_drawn_is_what_is_known(
    views: Seq<Tab>,
    located: Map<Seq<char>, Located>,
    keys: Seq<Seq<char>>,
    key: Seq<char>,
)
    requires
        names::ascending(keys),
    ensures
        names::ascending(keys_drawn(views, located, keys)),
        keys_drawn(views, located, keys).contains(key) == (keys.contains(key) && has_geometry(
            views,
            located,
            key,
        )),
    decreases keys.len(),
{
    let all = keys_drawn(views, located, keys);
    if keys.len() > 0 {
        let front = keys.drop_last();
        let last = keys.last();
        let rest = keys_drawn(views, located, front);
        assert forall|i: int, j: int| 0 <= i < j < front.len() implies text::before(
            #[trigger] front[i],
            #[trigger] front[j],
        ) by {
            assert(text::before(keys[i], keys[j]));
        }
        what_is_drawn_is_what_is_known(views, located, front, key);
        let more = has_geometry(views, located, last);
        assert(all =~= if more { rest.push(last) } else { rest });
        assert forall|i: int| 0 <= i < rest.len() implies text::before(#[trigger] rest[i], last) by {
            what_is_drawn_is_what_is_known(views, located, front, rest[i]);
            assert(rest.contains(rest[i]));
            let k = choose|k: int| 0 <= k < front.len() && front[k] == rest[i];
            assert(text::before(keys[k], keys[keys.len() - 1]));
        }
        assert forall|i: int, j: int| 0 <= i < j < all.len() implies text::before(#[trigger] all[i], #[trigger] all[j]) by {
            assert(all[i] == rest[i]);
            if j < rest.len() {
                assert(all[j] == rest[j]);
            }
        }
        if rest.contains(key) {
            let i = choose|i: int| 0 <= i < rest.len() && rest[i] == key;
            assert(all[i] == key);
        }
        if all.contains(key) && !rest.contains(key) {
            let i = choose|i: int| 0 <= i < all.len() && all[i] == key;
            if i < rest.len() {
                assert(rest[i] == key);
            }
            assert(key == last);
        }
        if front.contains(key) {
            let i = choose|i: int| 0 <= i < front.len() && front[i] == key;
            assert(keys[i] == key);
        }
        if keys.contains(key) && !front.contains(key) {
            let i = choose|i: int| 0 <= i < keys.len() && keys[i] == key;
            if i < front.len() {
                assert(front[i] == key);
            }
            assert(key == last);
            if more {
                assert(all[rest.len() as int] == key);
            }
        }
        assert(keys[keys.len() - 1] == last);
    }
}

/// The keys of the outlines to be drawn.
pub open spec fn keys_drawn(views: Seq<Tab>, located: Map<Seq<char>, Located>, keys: Seq<Seq<char>>) -> Seq<Seq<char>> {
    to_draw(views, located, keys).map_values(|one: globe::OutlinedView| one.key)
}

/// The catalogue is asked of each snapshot that is to be outlined and of which nothing is
/// known, once, and of nothing else.
pub proof fn each_unknown_is_asked_once(
    views: Seq<Tab>,
    located: Map<Seq<char>, Located>,
    keys: Seq<Seq<char>>,
    key: Seq<char>,
)
    requires
        names::ascending(keys),
    ensures
        names::ascending(unasked(views, located, keys)),
        unasked(views, located, keys).contains(key) == (keys.contains(key) && to_ask(views, located, key)),
    decreases keys.len(),
{
    let all = unasked(views, located, keys);
    if all.contains(key) {
        what_is_asked_has_to_be(views, located, keys, key);
    } else if keys.contains(key) && to_ask(views, located, key) {
        what_is_to_be_asked_is(views, located, keys, key);
    }
    if keys.len() > 0 {
        let front = keys.drop_last();
        let rest = unasked(views, located, front);
        assert forall|i: int, j: int| 0 <= i < j < front.len() implies text::before(
            #[trigger] front[i],
            #[trigger] front[j],
        ) by {
            assert(text::before(keys[i], keys[j]));
        }
        each_unknown_is_asked_once(views, located, front, key);
        assert forall|i: int, j: int| 0 <= i < j < all.len() implies text::before(#[trigger] all[i], #[trigger] all[j]) by {
            assert(all[i] == rest[i]);
            if j < rest.len() {
                assert(all[j] == rest[j]);
            } else {
                assert(rest.contains(rest[i]));
                what_is_asked_has_to_be(views, located, front, rest[i]);
                let k = choose|k: int| 0 <= k < front.len() && front[k] == rest[i];
                assert(text::before(keys[k], keys[keys.len() - 1]));
            }
        }
    }
}

/// A snapshot outlined and outlined again is as it was, unless the question after its
/// geometry had broken off: that one is asked again instead.
pub proof fn an_outline_is_switched_back(
    before: State,
    first: State,
    middle: State,
    second: State,
    key: Seq<char>,
)
    requires
        switched(before, first, key),
        redrawn(first, middle),
        switched(middle, second, key),
        !(before.outlines@.contains(key) && before.located@.contains_key(key) && before.located@[key] is Failed),
    ensures
        second.outlines@ == before.outlines@,
{
    assert(middle.outlines == first.outlines);
    if before.outlines@.contains(key) {
        assert(second.outlines@ =~= before.outlines@);
    } else {
        let keys = names::in_order(first.outlines@);
        let views = first.screen.views@;
        let known = Asks { located: taken_down(views, first.located@, keys), ..asks(first) };
        let asked = unasked(views, first.located@, keys);
        taking_down_loses_nothing(views, first.located@, keys, key);
        asking_loses_nothing(known, asked, key);
        let seen = globe::located_seen(middle.located@);
        assert(seen == known.asking(asked).located);
        if middle.located@.contains_key(key) && middle.located@[key] is Failed {
            assert(seen.contains_key(key) && seen[key] is Failed);
            assert(first.located@.contains_key(key) && first.located@[key] is Failed);
        }
        assert(second.outlines@ =~= before.outlines@);
    }
}

/// A product is found by its key where one of the products has it, and it is the first that
/// has it.
pub proof fn a_product_is_found_by_its_key(products: Seq<DataProduct>, key: Seq<char>)
    ensures
        (product_in(products, key) is Some) == exists|i: int|
            0 <= i < products.len() && (#[trigger] products[i]).identifier@ == key,
        product_in(products, key) matches Some(product) ==> product.identifier@ == key && products.contains(product),
    decreases products.len(),
{
    if products.len() > 0 {
        let rest = products.skip(1);
        a_product_is_found_by_its_key(rest, key);
        if products[0].identifier@ != key {
            if product_in(rest, key) is Some {
                let i = choose|i: int| 0 <= i < rest.len() && (#[trigger] rest[i]).identifier@ == key;
                assert(products[i + 1] == rest[i]);
                let k = choose|k: int| 0 <= k < rest.len() && rest[k] == product_in(rest, key)->0;
                assert(products[k + 1] == rest[k]);
            }
            if exists|i: int| 0 <= i < products.len() && (#[trigger] products[i]).identifier@ == key {
                let i = choose|i: int| 0 <= i < products.len() && (#[trigger] products[i]).identifier@ == key;
                assert(rest[i - 1] == products[i]);
            }
        }
    }
}

/// An outline that is drawn is drawn ring by ring behind those before it, and stands out
/// from them where its snapshot is the one that is picked.
pub proof fn the_picked_outline_stands_out(outlined: Seq<globe::OutlinedView>, one: globe::OutlinedView, picked: Seq<char>)
    ensures
        ({
            let was = asked_lines(outlined, picked);
            let now = asked_lines(outlined.push(one), picked);
            &&& asked_lines(Seq::empty(), picked).len() == 0
            &&& now.len() == was.len() + one.rings.len()
            &&& now.take(was.len() as int) == was
            &&& forall|j: int|
                0 <= j < one.rings.len() ==> {
                    &&& (#[trigger] now[was.len() + j]).points == one.rings[j]
                    &&& now[was.len() + j].style is OutlineSelected <==> one.key == picked
                    &&& now[was.len() + j].style is OutlinePlain <==> one.key != picked
                }
        }),
{
    let was = asked_lines(outlined, picked);
    assert(outlined.push(one).drop_last() =~= outlined);
    assert(asked_lines(outlined.push(one), picked).take(was.len() as int) =~= was);
}

/// A snapshot on its way to the globe is hatched where it will lie, as far as that is known
/// and no outline of it is drawn already.
pub proof fn what_is_on_its_way_is_hatched(here: rows::Sky, views: Seq<Tab>, keys: Seq<Seq<char>>, key: Seq<char>)
    ensures
        ({
            let was = hatches(here, views, keys);
            let now = hatches(here, views, keys.push(key));
            &&& hatches(here, views, Seq::empty()).len() == 0
            &&& (exists|i: int| 0 <= i < here.outlined.len() && (#[trigger] here.outlined[i]).key@ == key) ==> now == was
            &&& known_product(views, here.located, key) is None ==> now == was
            &&& (forall|i: int| 0 <= i < here.outlined.len() ==> (#[trigger] here.outlined[i]).key@ != key) ==> (
            known_product(views, here.located, key) matches Some(product) ==> {
                &&& now.len() == was.len() + product.footprint@.len()
                &&& now.take(was.len() as int) == was
                &&& forall|j: int|
                    0 <= j < product.footprint@.len() ==> (#[trigger] now[was.len() + j]).points
                        == product.footprint@[j].points@ && now[was.len() + j].style is OutlinePending
            })
        }),
{
    let was = hatches(here, views, keys);
    assert(keys.push(key).drop_last() =~= keys);
    if known_product(views, here.located, key) is Some && !rows::is_drawn(here.outlined, key) {
        assert(hatches(here, views, keys.push(key)).take(was.len() as int) =~= was);
    }
}

/// A snapshot is on its way while it is asked for or put together, and while there is
/// nothing of it to see though it is being worked on.
pub proof fn what_is_on_its_way(here: rows::Sky, keys: Seq<Seq<char>>, key: Seq<char>)
    ensures
        coming(here, Seq::empty()).len() == 0,
        here.globe(key) is Asked || here.globe(key) is Assembling ==> coming(here, keys.push(key)) == coming(
            here,
            keys,
        ).push(key),
        here.globe(key) is Off ==> coming(here, keys.push(key)) == coming(here, keys),
        here.globe(key) matches row::OnGlobe::Laid { hidden, progress } ==> {
            &&& progress.working && progress.blank ==> coming(here, keys.push(key)) == coming(here, keys).push(key)
            &&& !progress.working || !progress.blank ==> coming(here, keys.push(key)) == coming(here, keys)
        },
{
    assert(keys.push(key).drop_last() =~= keys);
}

/// Each layer is meant to lie on the globe, and so is each snapshot that is to be shown.
pub proof fn what_is_meant_for_the_globe(here: rows::Sky, keys: Seq<Seq<char>>, key: Seq<char>, i: int)
    ensures
        0 <= i < here.layers.len() ==> meant(here)[i] == here.layers[i].identifier@,
        meant(here).len() >= here.layers.len(),
        without_layers(here.layers, Seq::empty()).len() == 0,
        (exists|k: int| 0 <= k < here.layers.len() && (#[trigger] here.layers[k]).identifier@ == key) ==> without_layers(
            here.layers,
            keys.push(key),
        ) == without_layers(here.layers, keys),
        (forall|k: int| 0 <= k < here.layers.len() ==> (#[trigger] here.layers[k]).identifier@ != key) ==> without_layers(
            here.layers,
            keys.push(key),
        ) == without_layers(here.layers, keys).push(key),
{
    assert(keys.push(key).drop_last() =~= keys);
    overlay::layer_place_is_first(here.layers, key);
}

/// The globe is drawn the outlines that were asked for, and the hatches over them.
pub proof fn the_globe_is_drawn_both(state: State)
    ensures
        ({
            let asked = asked_lines(globe::outlined_seen(state.outlined@), state::picked_of(state.highlight));
            let here = rows::sky(state);
            let over = hatches(here, state.screen.views@, coming(here, meant(here)));
            &&& lines_drawn(state).len() == asked.len() + over.len()
            &&& lines_drawn(state).take(asked.len() as int) == asked
            &&& lines_drawn(state).skip(asked.len() as int) == over
            &&& outlines_call(state) matches calls::CallView::Outlines { outlines } && outlines == lines_drawn(state)
        }),
{
    let asked = asked_lines(globe::outlined_seen(state.outlined@), state::picked_of(state.highlight));
    let here = rows::sky(state);
    let over = hatches(here, state.screen.views@, coming(here, meant(here)));
    assert((asked + over).take(asked.len() as int) =~= asked);
    assert((asked + over).skip(asked.len() as int) =~= over);
}

/// Of the outlines under a press the smallest is hit, and the first of those that are
/// equally small; a press beside all of them hits none.
pub proof fn the_smallest_is_hit(hits: Seq<Option<u64>>)
    ensures
        -1 <= smallest(hits) < hits.len(),
        (smallest(hits) == -1) == (forall|i: int| 0 <= i < hits.len() ==> (#[trigger] hits[i]) is None),
        smallest(hits) >= 0 ==> hits[smallest(hits)] is Some,
        forall|i: int|
            0 <= i < hits.len() && (#[trigger] hits[i]) is Some ==> smallest(hits) >= 0 && hits[smallest(hits)]->0
                <= hits[i]->0 && (i < smallest(hits) ==> hits[smallest(hits)]->0 < hits[i]->0),
    decreases hits.len(),
{
    if hits.len() > 0 {
        let front = hits.drop_last();
        the_smallest_is_hit(front);
        assert forall|i: int| 0 <= i < hits.len() && (#[trigger] hits[i]) is Some implies smallest(hits) >= 0
            && hits[smallest(hits)]->0 <= hits[i]->0 && (i < smallest(hits) ==> hits[smallest(hits)]->0 < hits[i]->0) by {
            if i < front.len() {
                assert(front[i] == hits[i]);
            }
        }
        if forall|i: int| 0 <= i < hits.len() ==> (#[trigger] hits[i]) is None {
            assert forall|i: int| 0 <= i < front.len() implies (#[trigger] front[i]) is None by {
                assert(hits[i] is None);
            }
            assert(hits[hits.len() - 1] is None);
        }
    }
}

/// What is hit is picked by its key.
pub proof fn what_is_hit_is_picked(outlined: Seq<Outlined>, hits: Seq<Option<u64>>)
    requires
        hits.len() <= outlined.len(),
    ensures
        (forall|i: int| 0 <= i < hits.len() ==> (#[trigger] hits[i]) is None) ==> hit_key(outlined, hits) is None,
        (exists|i: int| 0 <= i < hits.len() && (#[trigger] hits[i]) is Some) ==> (hit_key(outlined, hits) matches Some(key)
            && exists|k: int|
            0 <= k < hits.len() && #[trigger] outlined[k].key@ == key && hits[k] is Some && forall|j: int|
                0 <= j < hits.len() && (#[trigger] hits[j]) is Some ==> hits[k]->0 <= hits[j]->0),
{
    the_smallest_is_hit(hits);
    if exists|i: int| 0 <= i < hits.len() && (#[trigger] hits[i]) is Some {
        let i = choose|i: int| 0 <= i < hits.len() && (#[trigger] hits[i]) is Some;
        let k = smallest(hits);
        assert(hits[i] is Some);
        assert(outlined[k].key@ == hit_key(outlined, hits)->0);
    }
}

/// A press picks what it hit: the key is picked from then on, alone, and no list is walked
/// to it; a press beside everything leaves nothing picked.
pub proof fn a_pick_is_the_one_picked(before: State, after: State, key: Option<Seq<char>>)
    requires
        picked_now(before, after, key),
    ensures
        key matches Some(key) ==> state::picked_of(after.highlight) == key,
        key is None ==> state::picked_of(after.highlight).len() == 0,
        after.outlines == before.outlines,
        after.overlays == before.overlays,
        after.screen == before.screen,
        state::picked_of(after.highlight) != state::picked_of(before.highlight) ==> after.said().len()
            == before.said().len() + 1 && after.said().last() is Outlines,
{
}

/// The camera is led to where a snapshot is outlined, and else to where its layer lies; a
/// snapshot that is nowhere moves nothing.
pub proof fn the_camera_is_led_to_the_snapshot(state: State, key: Seq<char>, at: int)
    ensures
        0 <= at < state.outlined@.len() && state.outlined@[at].key@ == key && (forall|j: int|
            0 <= j < at ==> (#[trigger] state.outlined@[j]).key@ != key) && proto::has_points(
            proto::outlines_of(state.outlined@[at].rings@),
        ) ==> place_of(state, key) == proto::outlines_of(state.outlined@[at].rings@),
        (forall|j: int| 0 <= j < state.outlined@.len() ==> (#[trigger] state.outlined@[j]).key@ != key) ==> {
            &&& 0 <= at < state.overlays@.len() && state.overlays@[at].identifier@ == key && (forall|j: int|
                0 <= j < at ==> (#[trigger] state.overlays@[j]).identifier@ != key) ==> place_of(state, key)
                == proto::outlines_of(state.overlays@[at].footprint@)
            &&& (forall|j: int| 0 <= j < state.overlays@.len() ==> (#[trigger] state.overlays@[j]).identifier@ != key)
                ==> place_of(state, key).len() == 0
        },
{
    the_first_outline_is_found(state.outlined@, key);
    overlay::layer_place_is_first(state.overlays@, key);
    if 0 <= at < state.outlined@.len() && state.outlined@[at].key@ == key && (forall|j: int|
        0 <= j < at ==> (#[trigger] state.outlined@[j]).key@ != key) {
        let found = choose|k: int|
            0 <= k < state.outlined@.len() && #[trigger] state.outlined@[k].key@ == key && outline_of(
                state.outlined@,
                key,
            ) == Some(state.outlined@[k]) && forall|j: int| 0 <= j < k ==> (#[trigger] state.outlined@[j]).key@ != key;
        assert(found == at);
    }
    if 0 <= at < state.overlays@.len() && state.overlays@[at].identifier@ == key && (forall|j: int|
        0 <= j < at ==> (#[trigger] state.overlays@[j]).identifier@ != key) {
        overlay::layer_place_is(state.overlays@, key, at);
    }
}

/// The outline of a key is the first that has it.
proof fn the_first_outline_is_found(outlined: Seq<Outlined>, key: Seq<char>)
    ensures
        (forall|j: int| 0 <= j < outlined.len() ==> (#[trigger] outlined[j]).key@ != key) ==> outline_of(outlined, key)
            is None,
        (exists|j: int| 0 <= j < outlined.len() && (#[trigger] outlined[j]).key@ == key) ==> exists|k: int|
            0 <= k < outlined.len() && #[trigger] outlined[k].key@ == key && outline_of(outlined, key) == Some(outlined[k])
                && forall|j: int| 0 <= j < k ==> (#[trigger] outlined[j]).key@ != key,
    decreases outlined.len(),
{
    if outlined.len() > 0 {
        let rest = outlined.skip(1);
        the_first_outline_is_found(rest, key);
        if outlined[0].key@ == key {
            assert(outlined[0].key@ == key);
        } else {
            assert forall|j: int| 0 <= j < rest.len() implies (#[trigger] rest[j]).key@ == outlined[j + 1].key@ by {}
            if exists|j: int| 0 <= j < outlined.len() && (#[trigger] outlined[j]).key@ == key {
                let j = choose|j: int| 0 <= j < outlined.len() && (#[trigger] outlined[j]).key@ == key;
                assert(rest[j - 1].key@ == key);
                let k = choose|k: int|
                    0 <= k < rest.len() && #[trigger] rest[k].key@ == key && outline_of(rest, key) == Some(rest[k])
                        && forall|j: int| 0 <= j < k ==> (#[trigger] rest[j]).key@ != key;
                assert(outlined[k + 1].key@ == key);
                assert forall|j: int| 0 <= j < k + 1 implies (#[trigger] outlined[j]).key@ != key by {
                    if j > 0 {
                        assert(rest[j - 1].key@ != key);
                    }
                }
            }
        }
    }
}

/// Only a camera that has somewhere to go is moved, there and nowhere else, and the
/// snapshot is picked.
pub proof fn a_look_picks_the_snapshot(before: State, after: State, key: Seq<char>)
    requires
        looked_at(before, after, key),
    ensures
        state::picked_of(after.highlight) == key,
        proto::has_points(place_of(before, key)) ==> after.said().len() > before.said().len()
            && after.said()[before.said().len() as int] == (calls::CallView::FocusOn { footprint: place_of(before, key) }),
{
    let (aimed, picked) = choose|aimed: State, picked: State| {
        &&& aimed == (State { calls: aimed.calls, ..before })
        &&& aimed.said() == if proto::has_points(place_of(before, key)) {
            before.said().push(calls::CallView::FocusOn { footprint: place_of(before, key) })
        } else {
            before.said()
        }
        &&& #[trigger] picked_now(aimed, picked, Some(key))
        &&& #[trigger] nav::globe_turned_to(picked, after)
    };
    a_pick_is_the_one_picked(aimed, picked, Some(key));
}

/// What is chosen is told by the row: a snapshot as a whole, and a file by its own key, its
/// snapshot and the name of its record.
pub proof fn a_choice_is_told_by_its_row(row: row::RowView)
    ensures
        row.kind is Product ==> behind(row) is Snapshot,
        !(row.kind is Product) && row.product.len() == 0 ==> behind(row) is File,
        behind(row) matches listing::ChosenView::File { identifier, product, name } ==> identifier == row::bare_key(
            row.identifier,
        ) && product == row.product && name == row.name,
        behind(row) is Snapshot <==> row.is_snapshot(),
{
}

/// A key is chosen as the first row that has it.
pub proof fn a_key_is_chosen_by_its_row(rows: Seq<row::RowView>, key: Seq<char>, at: int)
    requires
        0 <= at <= rows.len(),
        forall|j: int| 0 <= j < at ==> (#[trigger] rows[j]).choice_key() != key,
        at < rows.len() ==> rows[at].choice_key() == key,
    ensures
        at < rows.len() ==> behind_key(rows, key) == behind(rows[at]),
        at == rows.len() ==> behind_key(rows, key) is Snapshot,
    decreases rows.len(),
{
    if rows.len() > 0 && at > 0 {
        assert(rows[0].choice_key() != key);
        assert forall|j: int| 0 <= j < at - 1 implies (#[trigger] rows.skip(1)[j]).choice_key() != key by {
            assert(rows.skip(1)[j] == rows[j + 1]);
        }
        a_key_is_chosen_by_its_row(rows.skip(1), key, at - 1);
    }
}

/// A row that is taken in is chosen as what it is.
pub proof fn what_is_taken_in_is_what_it_is(selected: Map<Seq<char>, listing::ChosenView>, rows: Seq<row::RowView>, row: row::RowView)
    ensures
        taken_in(selected, rows.push(row))[row.choice_key()] == behind(row),
        taken_in(selected, rows.push(row)).dom() == taken_in(selected, rows).dom().insert(row.choice_key()),
        let_go(selected, rows.push(row)).dom() == let_go(selected, rows).dom().remove(row.choice_key()),
{
    assert(rows.push(row).drop_last() =~= rows);
}

/// A product is known by the search that found it, whichever tab it is in, and else by the
/// catalogue's answer; where neither knows it and nothing was answered, it is to be asked.
pub proof fn a_product_is_known_by_search_or_answer(
    views: Seq<Tab>,
    located: Map<Seq<char>, Located>,
    key: Seq<char>,
)
    ensures
        (exists|i: int, j: int| #[trigger] finds(views, i, j, key)) ==> {
            &&& known_product(views, located, key) matches Some(product) && product.identifier@ == key
            &&& !to_ask(views, located, key)
        },
        (forall|i: int, j: int| !(#[trigger] finds(views, i, j, key))) ==> {
            &&& to_ask(views, located, key) <==> !located.contains_key(key)
            &&& !located.contains_key(key) ==> known_product(views, located, key) is None
            &&& located.contains_key(key) ==> match located[key] {
                Located::Found(product) => known_product(views, located, key) == Some(product),
                _ => known_product(views, located, key) is None,
            }
        },
{
    the_search_finds(views, key);
}

/// The tab at `i` is a search whose answer at `j` has this key.
pub open spec fn finds(views: Seq<Tab>, i: int, j: int, key: Seq<char>) -> bool {
    0 <= i < views.len() && (views[i].kind matches ViewKind::Search(search) && 0 <= j < search.results@.len()
        && search.results@[j].identifier@ == key)
}

/// What a search found is found among the tabs.
proof fn the_search_finds(views: Seq<Tab>, key: Seq<char>)
    ensures
        (found_in(views, key) is Some) == (exists|i: int, j: int| #[trigger] finds(views, i, j, key)),
        found_in(views, key) matches Some(product) ==> product.identifier@ == key,
    decreases views.len(),
{
    if views.len() > 0 {
        let rest = views.skip(1);
        the_search_finds(rest, key);
        if let ViewKind::Search(search) = views[0].kind {
            a_product_is_found_by_its_key(search.results@, key);
            if product_in(search.results@, key) is Some {
                let j = choose|j: int| 0 <= j < search.results@.len() && (#[trigger] search.results@[j]).identifier@ == key;
                assert(finds(views, 0, j, key));
            }
        }
        if found_in(rest, key) is Some {
            let (i, j) = choose|i: int, j: int| #[trigger] finds(rest, i, j, key);
            assert(rest[i] == views[i + 1]);
            assert(finds(views, i + 1, j, key));
        }
        if exists|i: int, j: int| #[trigger] finds(views, i, j, key) {
            let (i, j) = choose|i: int, j: int| #[trigger] finds(views, i, j, key);
            if i > 0 {
                assert(rest[i - 1] == views[i]);
                assert(finds(rest, i - 1, j, key));
            } else if let ViewKind::Search(search) = views[0].kind {
                assert(search.results@[j].identifier@ == key);
                assert(product_in(search.results@, key) is Some);
            }
        }
    } else {
        assert forall|i: int, j: int| !(#[trigger] finds(views, i, j, key)) by {}
    }
}

/// Each unknown is asked for by its own key under a mark of its own, waits for the answer,
/// and those before it are asked as they were.
pub proof fn an_unknown_is_asked_for_by_its_key(asks: Asks, keys: Seq<Seq<char>>, key: Seq<char>)
    ensures
        ({
            let was = asks.asking(keys);
            let now = asks.asking(keys.push(key));
            let mark = number::written(was.asked as nat);
            &&& asks.asking(Seq::empty()) == asks
            &&& now.said.len() == was.said.len() + 1
            &&& now.said.drop_last() == was.said
            &&& now.said.last() == (calls::CallView::Locate { identifier: key, correlation: mark })
            &&& now.located.contains_key(key) && now.located[key] is Asking
            &&& now.locates.contains_key(mark) && now.locates[mark] == globe::LocateView::Outline(key)
            &&& was.asked < u64::MAX ==> now.asked == was.asked + 1
        }),
{
    assert(keys.push(key).drop_last() =~= keys);
    assert(asks.asking(keys.push(key)).said.drop_last() =~= asks.asking(keys).said);
}

/// What the catalogue answers is remembered as it is: a product, that there is none, or that
/// it could not be asked; only the last is told, with the reason.
pub proof fn an_answer_is_remembered(before: State, middle: State, key: Seq<char>, response: LocateResponse)
    requires
        answered(before, middle, key, response),
    ensures
        middle.located@.contains_key(key),
        response.product matches Some(product) ==> (middle.located@[key] matches Located::Found(found) && found@
            == product@),
        response.product is None && response.answered ==> middle.located@[key] is Missing,
        response.product is None && !response.answered ==> middle.located@[key] is Failed && (
        middle.notice matches Some(words) && words@ == "Контур не спросился: "@ + response.error@),
        response.product is Some || response.answered ==> middle.notice == before.notice,
        forall|other: Seq<char>|
            other != key ==> #[trigger] middle.located@.contains_key(other) == before.located@.contains_key(other),
{
    let seen = globe::located_seen(middle.located@);
    assert(seen.contains_key(key) && seen[key] == answer_of(response));
    assert(middle.located@[key]@ == seen[key]);
    assert forall|other: Seq<char>| other != key implies #[trigger] middle.located@.contains_key(other)
        == before.located@.contains_key(other) by {
        assert(seen.contains_key(other) == globe::located_seen(before.located@).contains_key(other));
    }
}

/// The button of an outline asks for it where it is not asked for, asks again where asking
/// failed, and else takes it away; it touches no other.
pub proof fn the_outline_button_turns_one(before: State, middle: State, key: Seq<char>)
    requires
        switched(before, middle, key),
    ensures
        !before.outlines@.contains(key) ==> middle.outlines@.contains(key),
        before.outlines@.contains(key) && !(before.located@.contains_key(key) && before.located@[key] is Failed)
            ==> !middle.outlines@.contains(key),
        before.outlines@.contains(key) && before.located@.contains_key(key) && before.located@[key] is Failed
            ==> middle.outlines@.contains(key),
        !(middle.located@.contains_key(key) && middle.located@[key] is Failed),
        forall|other: Seq<char>|
            other != key ==> #[trigger] middle.outlines@.contains(other) == before.outlines@.contains(other),
        middle.calls == before.calls,
{
}

/// An outline that is drawn carries the name of its snapshot and its rings.
pub proof fn what_is_drawn_is_its_product(views: Seq<Tab>, located: Map<Seq<char>, Located>, keys: Seq<Seq<char>>, key: Seq<char>)
    ensures
        to_draw(views, located, Seq::empty()).len() == 0,
        known_product(views, located, key) matches Some(product) ==> {
            &&& product.footprint@.len() == 0 ==> to_draw(views, located, keys.push(key)) == to_draw(views, located, keys)
            &&& product.footprint@.len() > 0 ==> {
                let now = to_draw(views, located, keys.push(key));
                &&& now.len() == to_draw(views, located, keys).len() + 1
                &&& now.drop_last() == to_draw(views, located, keys)
                &&& now.last().key == key
                &&& now.last().label == product.name@
                &&& now.last().folder == product.folder
                &&& now.last().rings == proto::outlines_of(product.footprint@)
            }
        },
        known_product(views, located, key) is None ==> to_draw(views, located, keys.push(key)) == to_draw(
            views,
            located,
            keys,
        ),
{
    assert(keys.push(key).drop_last() =~= keys);
    if has_geometry(views, located, key) {
        assert(to_draw(views, located, keys.push(key)).drop_last() =~= to_draw(views, located, keys));
    }
}

/// What is picked stays picked while it is drawn or lies on the globe; what is on the globe
/// no longer is let go of, and no more than that.
pub proof fn what_is_there_stays_picked(
    highlight: Option<Highlight>,
    outlined: Seq<Outlined>,
    layers: Seq<overlay::OverlayState>,
    view: ViewId,
)
    ensures
        (exists|i: int| 0 <= i < outlined.len() && (#[trigger] outlined[i]).key@ == state::picked_of(highlight))
            ==> still_picked(highlight, outlined, layers) == highlight,
        (exists|i: int| 0 <= i < layers.len() && (#[trigger] layers[i]).identifier@ == state::picked_of(highlight))
            ==> still_picked(highlight, outlined, layers) == highlight,
        (forall|i: int| 0 <= i < outlined.len() ==> (#[trigger] outlined[i]).key@ != state::picked_of(highlight)) && (
        forall|i: int| 0 <= i < layers.len() ==> (#[trigger] layers[i]).identifier@ != state::picked_of(highlight))
            ==> state::picked_of(still_picked(highlight, outlined, layers)).len() == 0,
        state::target_of(still_picked(highlight, outlined, layers), view) == state::target_of(highlight, view),
{
    overlay::a_layer_goes_by_its_key(layers, state::picked_of(highlight));
}

} // verus!
