//! The search of the catalogue: what is asked, and what was found.
//!
//! What is outlined on the globe is not what was found but what was asked to be
//! outlined. The two are tied by one rule: a product that is no longer found takes
//! its choice and its layer with it.

use vstd::prelude::*;
use crate::calls::{self, Call};
use crate::handlers::browse::told_kind;
use crate::handlers::outline;
use crate::handlers::overlay;
use crate::keyed::Names;
use crate::names;
use crate::proto::{DataProduct, SearchResponse};
use crate::state::browse;
use crate::state::ids::ViewId;
use crate::state::listing::{Chosen, ListingState};
use crate::state::request::Reply;
use crate::state::screen::{self, Screen, ViewKind};
use crate::state::search::{self, Cloud, Mission, Period, SearchState};
use crate::state::{self, State};
use crate::text;

verus! {

broadcast use vstd::string::group_string_axioms;

/// Only what one search asks or has found has changed; nothing happens to another
/// tab.
pub open spec fn only_search(before: State, after: State, view: ViewId, how: spec_fn(SearchState) -> SearchState) -> bool {
    match screen::kind_in(before.screen.views@, view) {
        Some(ViewKind::Search(was)) => {
            &&& after == (State { screen: Screen { views: after.screen.views, ..before.screen }, ..before })
            &&& after.screen.views@ == screen::with_kind(before.screen.views@, view, ViewKind::Search(how(was)))
        },
        _ => after.screen.views@ == before.screen.views@ && after == (State {
            screen: Screen { views: after.screen.views, ..before.screen },
            ..before
        }),
    }
}

/// A search with other words in its field.
pub open spec fn with_query(query: String) -> spec_fn(SearchState) -> SearchState {
    |search: SearchState| SearchState { query, ..search }
}

/// What is typed into the search field. Nothing is asked yet: to search on every
/// letter would be a dozen requests for one word.
pub fn on_query(state: &mut State, view: ViewId, query: String)
    ensures
        only_search(*old(state), *final(state), view, with_query(query)),
        old(state).screen.whole() ==> final(state).screen.whole(),
{
    if let Some(search) = state.screen.search_mut(view) {
        search.query = query;
    }
}

/// A search with another first day.
pub open spec fn with_from(value: String) -> spec_fn(SearchState) -> SearchState {
    |search: SearchState| SearchState { from: value, ..search }
}

/// An edge of a period of one's own. Nothing is asked yet.
pub fn on_from(state: &mut State, view: ViewId, value: String)
    ensures
        only_search(*old(state), *final(state), view, with_from(value)),
        old(state).screen.whole() ==> final(state).screen.whole(),
{
    if let Some(search) = state.screen.search_mut(view) {
        search.from = value;
    }
}

/// A search with another last day.
pub open spec fn with_to(value: String) -> spec_fn(SearchState) -> SearchState {
    |search: SearchState| SearchState { to: value, ..search }
}

pub fn on_to(state: &mut State, view: ViewId, value: String)
    ensures
        only_search(*old(state), *final(state), view, with_to(value)),
        old(state).screen.whole() ==> final(state).screen.whole(),
{
    if let Some(search) = state.screen.search_mut(view) {
        search.to = value;
    }
}

/// What is asked of the catalogue.
pub open spec fn question(search: SearchState, now: i64, mark: Seq<char>) -> calls::CallView {
    let (from, to) = search::search_window(search.period, search.from@, search.to@, now as int);
    calls::CallView::Search {
        mission: search.mission.collection_spec(),
        name: search.query@,
        from: from as i64,
        to: to as i64,
        max_cloud: search.cloud.max_spec(),
        correlation: mark,
    }
}

/// The catalogue was asked for a search; nothing happens to another tab.
pub open spec fn asked(before: State, after: State, view: ViewId, now: i64) -> bool {
    let mark = before.next_mark();
    match screen::kind_in(before.screen.views@, view) {
        Some(ViewKind::Search(was)) => {
            &&& after == (State {
                screen: Screen { views: after.screen.views, ..before.screen },
                asked: state::one_more(before.asked),
                searches: after.searches,
                calls: after.calls,
                ..before
            })
            &&& screen::kind_in(after.screen.views@, view) matches Some(ViewKind::Search(now_search)) && {
                &&& now_search == (SearchState { error: None, request: now_search.request, ..was })
                &&& now_search.request.waiting() == Some(mark)
                &&& after.screen.views@ == screen::with_kind(before.screen.views@, view, ViewKind::Search(now_search))
            }
            &&& after.searches@ == before.searches@.insert(mark, view)
            &&& after.said() == before.said().push(question(was, now, mark))
        },
        _ => after == before,
    }
}

/// A search was run: its list is narrowed anew, for all that was found changes, and
/// the catalogue is asked.
pub open spec fn ran(before: State, after: State, view: ViewId, now: i64) -> bool {
    exists|calm: State| #[trigger] state::narrowed_anew(before, calm, view) && asked(calm, after, view, now)
}

/// Asks the catalogue.
pub fn run(state: &mut State, view: ViewId, now: i64)
    ensures
        ran(*old(state), *final(state), view, now),
        old(state).screen.whole() ==> final(state).screen.whole(),
{
    let ghost before = *state;
    state.refine(view);
    let ghost calm = *state;
    assert(state::narrowed_anew(before, calm, view));
    let ghost mark = state.next_mark();
    proof {
        told_kind(calm.screen.views@, view);
    }
    let call: Call = match state.screen.get(view) {
        Some(ViewKind::Search(search)) => {
            let (from, to): (i64, i64) = search.window(now);
            Call::Search {
                mission: search.mission.collection().to_owned(),
                name: search.query.clone(),
                from,
                to,
                max_cloud: search.cloud.max(),
                correlation: crate::number::decimal(state.asked as u128),
            }
        },
        _ => {
            return;
        },
    };
    let correlation: String = state.mark();
    if let Some(search) = state.screen.search_mut(view) {
        search.error = None;
        search.request.begin(correlation.clone());
    }
    proof {
        if calm.screen.whole() {
            screen::showing_other_things_keeps_whole(calm.screen, state.screen);
        }
    }
    state.searches.insert(correlation, view);
    proof {
        calls::said_push(state.calls@, call);
    }
    state.calls.push(call);
}

/// A press that narrows the search and runs it.
pub open spec fn chose(before: State, after: State, view: ViewId, now: i64, how: spec_fn(SearchState) -> SearchState) -> bool {
    match screen::kind_in(before.screen.views@, view) {
        Some(ViewKind::Search(_)) => exists|told: State, calm: State| {
            &&& only_search(before, told, view, how)
            &&& #[trigger] state::narrowed_anew(told, calm, view)
            &&& ran(calm, after, view, now)
        },
        _ => after == before,
    }
}

fn is_search(state: &State, view: ViewId) -> (yes: bool)
    ensures
        yes == (screen::kind_in(state.screen.views@, view) matches Some(ViewKind::Search(_))),
{
    match state.screen.get(view) {
        Some(ViewKind::Search(_)) => true,
        _ => false,
    }
}

fn narrow_and_run(state: &mut State, view: ViewId, now: i64)
    ensures
        exists|calm: State| #[trigger] state::narrowed_anew(*old(state), calm, view) && ran(calm, *final(state), view, now),
        old(state).screen.whole() ==> final(state).screen.whole(),
{
    let ghost before = *state;
    state.refine(view);
    let ghost calm = *state;
    assert(state::narrowed_anew(before, calm, view));
    run(state, view, now);
}

/// A search of another mission. A radar is searched without a limit of clouds.
pub open spec fn with_mission(mission: Mission) -> spec_fn(SearchState) -> SearchState {
    |search: SearchState|
        SearchState {
            mission,
            cloud: if mission != Mission::Sentinel1 { search.cloud } else { Cloud::Any },
            ..search
        }
}

/// Whose snapshots are searched. Clouds mean nothing to a radar, and its chip is not
/// there: a limit left over from another mission would leave nothing to be found.
pub fn on_mission(state: &mut State, view: ViewId, mission: Mission, now: i64)
    ensures
        chose(
            *old(state),
            *final(state),
            view,
            now,
            with_mission(mission),
        ),
        old(state).screen.whole() ==> final(state).screen.whole(),
{
    if !is_search(state, view) {
        return;
    }
    let ghost before = *state;
    proof {
        told_kind(before.screen.views@, view);
    }
    if let Some(search) = state.screen.search_mut(view) {
        search.mission = mission;
        if !mission.clouded() {
            search.cloud = Cloud::default();
        }
    }
    proof {
        if before.screen.whole() {
            screen::showing_other_things_keeps_whole(before.screen, state.screen);
        }
    }
    let ghost told = *state;
    narrow_and_run(state, view, now);
    assert(only_search(before, told, view, with_mission(mission)));
}

/// A search of another period.
pub open spec fn with_period(period: Period) -> spec_fn(SearchState) -> SearchState {
    |search: SearchState| SearchState { period, ..search }
}

pub fn on_period(state: &mut State, view: ViewId, period: Period, now: i64)
    ensures
        chose(*old(state), *final(state), view, now, with_period(period)),
        old(state).screen.whole() ==> final(state).screen.whole(),
{
    if !is_search(state, view) {
        return;
    }
    let ghost before = *state;
    proof {
        told_kind(before.screen.views@, view);
    }
    if let Some(search) = state.screen.search_mut(view) {
        search.period = period;
    }
    proof {
        if before.screen.whole() {
            screen::showing_other_things_keeps_whole(before.screen, state.screen);
        }
    }
    let ghost told = *state;
    narrow_and_run(state, view, now);
    assert(only_search(before, told, view, with_period(period)));
}

/// A search under another limit of clouds.
pub open spec fn with_cloud(cloud: Cloud) -> spec_fn(SearchState) -> SearchState {
    |search: SearchState| SearchState { cloud, ..search }
}

pub fn on_cloud(state: &mut State, view: ViewId, cloud: Cloud, now: i64)
    ensures
        chose(*old(state), *final(state), view, now, with_cloud(cloud)),
        old(state).screen.whole() ==> final(state).screen.whole(),
{
    if !is_search(state, view) {
        return;
    }
    let ghost before = *state;
    proof {
        told_kind(before.screen.views@, view);
    }
    if let Some(search) = state.screen.search_mut(view) {
        search.cloud = cloud;
    }
    proof {
        if before.screen.whole() {
            screen::showing_other_things_keeps_whole(before.screen, state.screen);
        }
    }
    let ghost told = *state;
    narrow_and_run(state, view, now);
    assert(only_search(before, told, view, with_cloud(cloud)));
}

// -- What was found --

/// The keys of products.
pub open spec fn keys_of(products: Seq<DataProduct>) -> Set<Seq<char>> {
    Set::new(|key: Seq<char>| outline::product_in(products, key) is Some)
}

/// A search with an answer in place of its question: what was found, or why nothing
/// was. What was open belonged to what was found before.
pub open spec fn answered(was: SearchState, now: SearchState, response: SearchResponse) -> bool {
    &&& now == (SearchState {
        results: now.results,
        error: if response.error@.len() > 0 { Some(response.error) } else { None },
        request: now.request,
        children: now.children,
        listing: ListingState { expanded: now.listing.expanded, ..was.listing },
        ..was
    })
    &&& if response.error@.len() > 0 { now.results@.len() == 0 } else { now.results == response.products }
    &&& now.request.waiting() is None
    &&& now.children.branches() == Map::<Seq<char>, browse::Branch>::empty()
    &&& now.children.count() == 0
    &&& now.listing.expanded@ == Set::<Seq<char>>::empty()
}

/// The choice of a list without what was not found.
pub open spec fn choice_kept(before: State, after: State, view: ViewId, alive: Set<Seq<char>>) -> bool {
    &&& outline::only_choice(before, after, view)
    &&& screen::listing_in(before.screen.views@, view) is Some ==> crate::handlers::library::chosen_in(
        after.screen.views@,
        view,
    ) == crate::handlers::library::chosen_in(before.screen.views@, view).restrict(alive)
}

/// What outlived another search: a product that is no longer found takes its choice
/// and its layer with it. Only where there is an answer: a failure is no empty
/// answer, and what a person laid on the globe does not go by it.
pub open spec fn outlived(before: State, after: State, view: ViewId) -> bool {
    match screen::kind_in(before.screen.views@, view) {
        Some(ViewKind::Search(search)) => if search.error is Some {
            after == before
        } else {
            exists|kept: State, laid: State| {
                &&& #[trigger] choice_kept(before, kept, view, keys_of(search.results@))
                &&& #[trigger] overlay::narrowed(kept, laid, view, keys_of(search.results@))
                &&& outline::redrawn(laid, after)
            }
        },
        _ => after == before,
    }
}

/// One search has become another, and nothing else has changed.
pub open spec fn became(before: State, after: State, view: ViewId, now: SearchState) -> bool {
    &&& after == (State { screen: Screen { views: after.screen.views, ..before.screen }, ..before })
    &&& after.screen.views@ == screen::with_kind(before.screen.views@, view, ViewKind::Search(now))
}

/// An answer has come to a search. One that the search no longer waits for is passed
/// over.
pub open spec fn came(before: State, after: State, view: ViewId, correlation: Seq<char>, response: SearchResponse) -> bool {
    match screen::kind_in(before.screen.views@, view) {
        Some(ViewKind::Search(was)) => if was.request.waiting() == Some(correlation) {
            exists|now: SearchState, told: State| {
                &&& answered(was, now, response)
                &&& #[trigger] became(before, told, view, now)
                &&& outlived(told, after, view)
            }
        } else {
            after == before
        },
        _ => after == before,
    }
}

fn alive_keys(products: &Vec<DataProduct>) -> (alive: Names)
    ensures
        alive@ == keys_of(products@),
{
    let ghost all = products@;
    let mut alive: Names = Names::new();
    let mut i: usize = 0;
    assert(alive@ =~= keys_of(all.take(0)));
    while i < products.len()
        invariant
            i <= all.len(),
            all == products@,
            alive@ == keys_of(all.take(i as int)),
        decreases all.len() - i,
    {
        let ghost before = alive@;
        alive.insert(products[i].identifier.clone());
        proof {
            assert forall|key: Seq<char>| keys_of(all.take(i + 1)).contains(key) <==> before.insert(
                all[i as int].identifier@,
            ).contains(key) by {
                found_in_longer(all, key, i as int);
            }
            assert(alive@ =~= keys_of(all.take(i + 1)));
        }
        i += 1;
    }
    assert(all.take(all.len() as int) =~= all);
    alive
}

proof fn found_in_longer(products: Seq<DataProduct>, key: Seq<char>, cut: int)
    requires
        0 <= cut < products.len(),
    ensures
        outline::product_in(products.take(cut + 1), key) is Some <==> outline::product_in(products.take(cut), key) is Some
            || products[cut].identifier@ == key,
    decreases cut,
{
    let more = products.take(cut + 1);
    let less = products.take(cut);
    if cut == 0 {
        assert(more.skip(1) =~= Seq::empty());
        assert(outline::product_in(more.skip(1), key) is None);
        assert(outline::product_in(less, key) is None);
    } else if products[0].identifier@ == key {
        assert(more[0].identifier@ == key && less[0].identifier@ == key);
    } else {
        let rest = products.skip(1);
        assert(more.skip(1) =~= rest.take(cut));
        assert(less.skip(1) =~= rest.take(cut - 1));
        found_in_longer(rest, key, cut - 1);
        assert(rest[cut - 1] == products[cut]);
        assert(more[0] == products[0] && less[0] == products[0]);
    }
}

fn keep_choice(state: &mut State, view: ViewId, alive: &Names)
    ensures
        choice_kept(*old(state), *final(state), view, alive@),
        old(state).screen.whole() ==> final(state).screen.whole(),
{
    let ghost before = *state;
    let ghost views = state.screen.views@;
    if let Some(listing) = state.screen.listing_mut(view) {
        let ghost was = *listing;
        let ghost chosen = listing.selected@;
        let keys: Vec<String> = names::sorted_keys(&listing.selected);
        let ghost all = text::texts(keys@);
        let mut i: usize = 0;
        assert(weeded(chosen, all.take(0), alive@) =~= chosen);
        while i < keys.len()
            invariant
                i <= keys@.len(),
                all == text::texts(keys@),
                *listing == (ListingState { selected: listing.selected, ..was }),
                listing.selected@ == weeded(chosen, all.take(i as int), alive@),
            decreases keys@.len() - i,
        {
            assert(all[i as int] == keys@[i as int]@);
            proof {
                names::taken_more(all, i as int);
            }
            if !alive.contains(&keys[i]) {
                listing.selected.remove(&keys[i]);
                assert(weeded(chosen, all.take(i + 1), alive@) =~= weeded(chosen, all.take(i as int), alive@).remove(
                    all[i as int],
                ));
            } else {
                assert(weeded(chosen, all.take(i + 1), alive@) =~= weeded(chosen, all.take(i as int), alive@));
            }
            i += 1;
        }
        assert(all.take(all.len() as int) =~= all);
        assert(weeded(chosen, all, alive@) =~= chosen.restrict(alive@));
    }
    proof {
        if let Some(listing) = screen::listing_in(views, view) {
            assert forall|after: ListingState| #[trigger]
                screen::with_listing(views, view, after).len() == views.len() && screen::same_places(
                    views,
                    screen::with_listing(views, view, after),
                ) && screen::listing_in(screen::with_listing(views, view, after), view) == Some(after) by {
                screen::with_listing_is_told(views, view, after);
            }
        }
        if before.screen.whole() {
            screen::showing_other_things_keeps_whole(before.screen, state.screen);
        }
    }
}

/// The choice without those of these keys that are not alive.
spec fn weeded(chosen: Map<Seq<char>, Chosen>, keys: Seq<Seq<char>>, alive: Set<Seq<char>>) -> Map<Seq<char>, Chosen> {
    chosen.remove_keys(Set::new(|key: Seq<char>| keys.contains(key) && !alive.contains(key)))
}

fn survivors(state: &mut State, view: ViewId)
    ensures
        outlived(*old(state), *final(state), view),
        old(state).screen.whole() ==> final(state).screen.whole(),
{
    let ghost before = *state;
    let alive: Names = match state.screen.get(view) {
        Some(ViewKind::Search(search)) => {
            if search.error.is_some() {
                return;
            }
            alive_keys(&search.results)
        },
        _ => {
            return;
        },
    };
    keep_choice(state, view, &alive);
    let ghost kept = *state;
    overlay::keep_only(state, view, &alive);
    let ghost laid = *state;
    outline::refresh(state);
    assert(choice_kept(before, kept, view, alive@));
    assert(overlay::narrowed(kept, laid, view, alive@));
}

/// What was found has come. Whose it is, is told by its mark.
pub fn on_search_result(state: &mut State, correlation: &str, response: SearchResponse)
    ensures
        ({
            let asked = old(state).searches@;
            if asked.contains_key(correlation@) {
                exists|middle: State|
                    middle == (State { searches: middle.searches, ..*old(state) }) && middle.searches@ == asked.remove(
                        correlation@,
                    ) && #[trigger] came(middle, *final(state), asked[correlation@], correlation@, response)
            } else {
                *final(state) == (State { searches: final(state).searches, ..*old(state) }) && final(state).searches@
                    == asked
            }
        }),
        old(state).screen.whole() ==> final(state).screen.whole(),
{
    let ghost asked = state.searches@;
    let taken: Option<ViewId> = state.searches.remove(correlation);
    let Some(view) = taken else {
        assert(state.searches@ =~= asked);
        return;
    };
    let ghost middle = *state;
    let ghost views = state.screen.views@;
    proof {
        told_kind(views, view);
    }
    let current: bool = match state.screen.get(view) {
        Some(ViewKind::Search(search)) => search.request.status(correlation) == Reply::Current,
        _ => false,
    };
    if !current {
        assert(came(middle, *state, view, correlation@, response));
        return;
    }
    if let Some(search) = state.screen.search_mut(view) {
        search.request.settle(correlation);
        if !response.error.as_str().is_empty() {
            search.error = Some(response.error);
            search.results = Vec::new();
        } else {
            search.error = None;
            search.results = response.products;
        }
        search.children.clear();
        search.listing.expanded.clear();
    }
    let ghost told = *state;
    proof {
        if middle.screen.whole() {
            screen::showing_other_things_keeps_whole(middle.screen, state.screen);
        }
    }
    survivors(state, view);
    proof {
        if let Some(ViewKind::Search(now)) = screen::kind_in(told.screen.views@, view) {
            assert(became(middle, told, view, now));
        }
        assert(came(middle, *state, view, correlation@, response));
    }
}

/// A search was closed: its layers go with it, and the outlines are put together
/// anew.
pub fn on_source_closed(state: &mut State, id: ViewId)
    ensures
        exists|laid: State| #[trigger]
            overlay::narrowed(*old(state), laid, id, Set::empty()) && outline::redrawn(laid, *final(state)),
        final(state).screen == old(state).screen,
{
    let ghost before = *state;
    overlay::source_closed(state, id);
    let ghost laid = *state;
    outline::refresh(state);
    assert(overlay::narrowed(before, laid, id, Set::empty()));
}

/// Lays a snapshot that a search has found. Says no when the tab is no search, or
/// has not found it: it is then looked up by its key.
pub fn show(state: &mut State, view: ViewId, identifier: &str) -> (shown: bool)
    ensures
        match screen::kind_in(old(state).screen.views@, view) {
            Some(ViewKind::Search(search)) => match outline::product_in(search.results@, identifier@) {
                Some(product) => shown && overlay::laid(*old(state), *final(state), product@, Some(view)),
                None => !shown && *final(state) == *old(state),
            },
            _ => !shown && *final(state) == *old(state),
        },
{
    let product: DataProduct = match state.screen.get(view) {
        Some(ViewKind::Search(search)) => match outline::find_product(&search.results, identifier) {
            Some(product) => product.clone(),
            None => {
                return false;
            },
        },
        _ => {
            return false;
        },
    };
    overlay::show(state, &product, Some(view));
    true
}

// -- Laws --

/// What is chosen in a search is what the catalogue is asked for: its mission by the
/// collection, its words as they were typed, its period and its clouds.
pub proof fn what_is_chosen_is_asked_for(before: State, after: State, view: ViewId, now: i64, search: SearchState)
    requires
        asked(before, after, view, now),
        screen::kind_in(before.screen.views@, view) == Some(ViewKind::Search(search)),
    ensures
        after.said().len() == before.said().len() + 1,
        after.said().drop_last() == before.said(),
        after.said().last() matches calls::CallView::Search { mission, name, from, to, max_cloud, correlation } && {
            &&& name == search.query@
            &&& mission == match search.mission {
                Mission::All => Seq::<char>::empty(),
                Mission::Sentinel1 => "SENTINEL-1"@,
                Mission::Sentinel2 => "SENTINEL-2"@,
                Mission::Sentinel3 => "SENTINEL-3"@,
                Mission::Sentinel5p => "SENTINEL-5P"@,
            }
            &&& max_cloud == match search.cloud {
                Cloud::Any => None,
                Cloud::Tenth => Some(10u32),
                Cloud::Third => Some(30u32),
                Cloud::Half => Some(50u32),
            }
            &&& search.period == Period::Any ==> from == 0 && to == 0
            &&& search.period == Period::Week && now >= 7 * 86_400 ==> from + 7 * 86_400 == now && to == 0
            &&& search.period == Period::Month && now >= 30 * 86_400 ==> from + 30 * 86_400 == now && to == 0
            &&& after.searches@.contains_key(correlation) && after.searches@[correlation] == view
        },
{
    reveal_strlit("");
    assert(""@ =~= Seq::<char>::empty());
    assert(after.said().drop_last() =~= before.said());
}

/// Two searches that differ in their mission, their words or their clouds ask the catalogue
/// for different things.
pub proof fn different_searches_ask_differently(one: SearchState, other: SearchState, now: i64, mark: Seq<char>)
    requires
        one.mission != other.mission || one.query@ != other.query@ || one.cloud != other.cloud,
    ensures
        question(one, now, mark) != question(other, now, mark),
{
    search::a_mission_is_searched_in_its_collection(one.mission, other.mission);
}

proof fn narrowing_keeps_the_search(before: State, after: State, view: ViewId, search: SearchState)
    requires
        state::narrowed_anew(before, after, view),
        screen::kind_in(before.screen.views@, view) == Some(ViewKind::Search(search)),
    ensures
        screen::kind_in(after.screen.views@, view) == Some(
            ViewKind::Search(SearchState { listing: ListingState { page: 0, ..search.listing }, ..search }),
        ),
        after.said() == before.said(),
        after.open is None,
{
    told_kind(before.screen.views@, view);
}

/// A choice in a search is at once asked for as it was chosen, and of the rest of the
/// search as it stood; and the list begins anew from its first page.
proof fn a_choice_runs_the_search(
    before: State,
    after: State,
    view: ViewId,
    now: i64,
    how: spec_fn(SearchState) -> SearchState,
    was: SearchState,
) -> (search: SearchState)
    requires
        chose(before, after, view, now, how),
        screen::kind_in(before.screen.views@, view) == Some(ViewKind::Search(was)),
    ensures
        search == (SearchState { listing: ListingState { page: 0, ..how(was).listing }, ..how(was) }),
        after.said() == before.said().push(question(search, now, before.next_mark())),
{
    let (told, calm) = choose|told: State, calm: State| {
        &&& only_search(before, told, view, how)
        &&& #[trigger] state::narrowed_anew(told, calm, view)
        &&& ran(calm, after, view, now)
    };
    told_kind(before.screen.views@, view);
    narrowing_keeps_the_search(told, calm, view, how(was));
    let once = SearchState { listing: ListingState { page: 0, ..how(was).listing }, ..how(was) };
    let again = choose|again: State| #[trigger]
        state::narrowed_anew(calm, again, view) && asked(again, after, view, now);
    narrowing_keeps_the_search(calm, again, view, once);
    once
}

/// A mission that is chosen is the one that is searched, by its collection; and a radar is
/// searched without a limit of clouds, whatever limit was set for another mission.
pub proof fn a_chosen_mission_is_searched(before: State, after: State, view: ViewId, mission: Mission, now: i64, was: SearchState)
    requires
        chose(before, after, view, now, with_mission(mission)),
        screen::kind_in(before.screen.views@, view) == Some(ViewKind::Search(was)),
    ensures
        after.said().len() == before.said().len() + 1,
        after.said().last() matches calls::CallView::Search { mission: asked_of, name, max_cloud, .. } && {
            &&& asked_of == match mission {
                Mission::All => Seq::<char>::empty(),
                Mission::Sentinel1 => "SENTINEL-1"@,
                Mission::Sentinel2 => "SENTINEL-2"@,
                Mission::Sentinel3 => "SENTINEL-3"@,
                Mission::Sentinel5p => "SENTINEL-5P"@,
            }
            &&& name == was.query@
            &&& mission == Mission::Sentinel1 ==> max_cloud is None
            &&& mission != Mission::Sentinel1 ==> max_cloud == was.cloud.max_spec()
        },
{
    reveal_strlit("");
    assert(""@ =~= Seq::<char>::empty());
    let search = a_choice_runs_the_search(before, after, view, now, with_mission(mission), was);
}

/// A limit of clouds that is chosen is the one that is asked for, and the rest of the search
/// stays.
pub proof fn a_chosen_cloud_is_searched(before: State, after: State, view: ViewId, cloud: Cloud, now: i64, was: SearchState)
    requires
        chose(before, after, view, now, with_cloud(cloud)),
        screen::kind_in(before.screen.views@, view) == Some(ViewKind::Search(was)),
    ensures
        after.said().len() == before.said().len() + 1,
        after.said().last() matches calls::CallView::Search { mission, name, max_cloud, .. } && {
            &&& max_cloud == match cloud {
                Cloud::Any => None,
                Cloud::Tenth => Some(10u32),
                Cloud::Third => Some(30u32),
                Cloud::Half => Some(50u32),
            }
            &&& name == was.query@
            &&& (mission.len() == 0) == (was.mission == Mission::All)
        },
{
    let search = a_choice_runs_the_search(before, after, view, now, with_cloud(cloud), was);
    search::a_mission_is_searched_in_its_collection(was.mission, was.mission);
}

/// A period that is chosen is the one that is asked for, and the rest of the search stays.
pub proof fn a_chosen_period_is_searched(before: State, after: State, view: ViewId, period: Period, now: i64, was: SearchState)
    requires
        chose(before, after, view, now, with_period(period)),
        screen::kind_in(before.screen.views@, view) == Some(ViewKind::Search(was)),
        now >= 30 * 86_400,
    ensures
        after.said().len() == before.said().len() + 1,
        after.said().last() matches calls::CallView::Search { name, from, to, max_cloud, .. } && {
            &&& period == Period::Any ==> from == 0 && to == 0
            &&& period == Period::Week ==> from + 7 * 86_400 == now && to == 0
            &&& period == Period::Month ==> from + 30 * 86_400 == now && to == 0
            &&& name == was.query@
            &&& max_cloud == was.cloud.max_spec()
        },
{
    let search = a_choice_runs_the_search(before, after, view, now, with_period(period), was);
}

/// An answer takes the place of what was found before: all that was found where there is
/// no error, and nothing but the error where there is one; and nothing is waited for then.
pub proof fn an_answer_takes_the_place_of_the_last(was: SearchState, now: SearchState, response: SearchResponse)
    requires
        answered(was, now, response),
    ensures
        response.error@.len() == 0 ==> now.results@ == response.products@ && now.error is None,
        response.error@.len() > 0 ==> now.results@.len() == 0 && now.error == Some(response.error),
        now.request.waiting() is None,
        now.query == was.query && now.mission == was.mission && now.period == was.period && now.cloud == was.cloud,
        now.from == was.from && now.to == was.to,
        now.listing.selected == was.listing.selected,
{
}

/// A choice outlives another search exactly where its product is found again.
pub proof fn a_choice_goes_with_its_product(before: State, after: State, view: ViewId, products: Seq<DataProduct>, key: Seq<char>)
    requires
        choice_kept(before, after, view, keys_of(products)),
        screen::listing_in(before.screen.views@, view) is Some,
    ensures
        crate::handlers::library::chosen_in(after.screen.views@, view).contains_key(key) == (
        crate::handlers::library::chosen_in(before.screen.views@, view).contains_key(key) && exists|i: int|
            0 <= i < products.len() && (#[trigger] products[i]).identifier@ == key),
{
    outline::a_product_is_found_by_its_key(products, key);
}

/// What is typed stands in the field it was typed into, and asks for nothing; nothing else
/// of the search changes, and no other tab.
pub proof fn what_is_typed_stands_in_its_field(before: State, after: State, view: ViewId, typed: String, was: SearchState)
    requires
        screen::kind_in(before.screen.views@, view) == Some(ViewKind::Search(was)),
    ensures
        only_search(before, after, view, with_query(typed)) ==> after.said() == before.said() && (screen::kind_in(
            after.screen.views@,
            view,
        ) matches Some(ViewKind::Search(now)) && now.query == typed && now.from == was.from && now.to == was.to
            && now.mission == was.mission && now.period == was.period && now.cloud == was.cloud && now.results
            == was.results),
        only_search(before, after, view, with_from(typed)) ==> after.said() == before.said() && (screen::kind_in(
            after.screen.views@,
            view,
        ) matches Some(ViewKind::Search(now)) && now.from == typed && now.query == was.query && now.to == was.to
            && now.mission == was.mission && now.period == was.period && now.cloud == was.cloud && now.results
            == was.results),
        only_search(before, after, view, with_to(typed)) ==> after.said() == before.said() && (screen::kind_in(
            after.screen.views@,
            view,
        ) matches Some(ViewKind::Search(now)) && now.to == typed && now.query == was.query && now.from == was.from
            && now.mission == was.mission && now.period == was.period && now.cloud == was.cloud && now.results
            == was.results),
{
    screen::with_kind_keeps_places(before.screen.views@, view, ViewKind::Search(with_query(typed)(was)));
    screen::with_kind_keeps_places(before.screen.views@, view, ViewKind::Search(with_from(typed)(was)));
    screen::with_kind_keeps_places(before.screen.views@, view, ViewKind::Search(with_to(typed)(was)));
}

/// Only the answer that a search waits for is heard. What it found takes the place of what
/// was there; what was chosen or laid from it and is not found again goes, and after an
/// error all of that stays.
pub proof fn an_answer_is_heard_by_its_search(
    before: State,
    after: State,
    view: ViewId,
    correlation: Seq<char>,
    response: SearchResponse,
    was: SearchState,
)
    requires
        came(before, after, view, correlation, response),
        screen::kind_in(before.screen.views@, view) == Some(ViewKind::Search(was)),
    ensures
        was.request.waiting() != Some(correlation) ==> after == before,
        was.request.waiting() == Some(correlation) ==> (screen::kind_in(after.screen.views@, view) matches Some(
            ViewKind::Search(now),
        ) && now.request.waiting() is None && now.query == was.query && now.mission == was.mission && {
            &&& response.error@.len() == 0 ==> now.results@ == response.products@ && now.error is None
            &&& response.error@.len() > 0 ==> now.results@.len() == 0 && now.error == Some(response.error)
        }),
        was.request.waiting() == Some(correlation) && response.error@.len() > 0 ==> after.overlays == before.overlays
            && after.said() == before.said(),
        was.request.waiting() == Some(correlation) && response.error@.len() == 0 ==> forall|i: int|
            0 <= i < after.overlays@.len() ==> (#[trigger] after.overlays@[i]).source != Some(view) || keys_of(
                response.products@,
            ).contains(after.overlays@[i].identifier@),
{
    if was.request.waiting() == Some(correlation) {
        let (now, told) = choose|now: SearchState, told: State| {
            &&& answered(was, now, response)
            &&& #[trigger] became(before, told, view, now)
            &&& outlived(told, after, view)
        };
        screen::with_kind_keeps_places(before.screen.views@, view, ViewKind::Search(now));
        if response.error@.len() == 0 {
            let (kept, laid) = choose|kept: State, laid: State| {
                &&& #[trigger] choice_kept(told, kept, view, keys_of(now.results@))
                &&& #[trigger] overlay::narrowed(kept, laid, view, keys_of(now.results@))
                &&& outline::redrawn(laid, after)
            };
            let alive = keys_of(now.results@);
            assert(after.overlays == laid.overlays);
            assert(after.screen == kept.screen);
            if kept.overlays@.len() > 0 {
                overlay::a_layer_goes_with_what_was_found(kept.overlays@, view, alive, 0);
            }
            if let Some(listing) = screen::listing_in(kept.screen.views@, view) {
                screen::with_kind_keeps_places(
                    told.screen.views@,
                    view,
                    ViewKind::Search(now).with_listing(listing),
                );
                assert(kept.screen.views@ == screen::with_listing(told.screen.views@, view, listing));
            }
        }
    }
}

/// What was found is found by its key.
pub proof fn the_keys_of_what_was_found(products: Seq<DataProduct>, key: Seq<char>)
    ensures
        keys_of(products).contains(key) == exists|i: int| 0 <= i < products.len() && (#[trigger] products[i]).identifier@ == key,
{
    outline::a_product_is_found_by_its_key(products, key);
}

} // verus!
