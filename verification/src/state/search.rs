//! A search of the catalogue: what is asked for and what was found.

use vstd::prelude::*;
use crate::calendar;
use crate::proto::DataProduct;
use crate::state::browse::{Branch, Children};
use crate::state::listing::ListingState;
use crate::state::request::Latest;
use crate::text;

verus! {

broadcast use vstd::string::group_string_axioms;

/// Whose snapshots are searched.
#[derive(Clone, Copy, PartialEq, Eq, Structural, Debug)]
pub enum Mission {
    All,
    Sentinel1,
    Sentinel2,
    Sentinel3,
    Sentinel5p,
}

impl Mission {
    /// The key it travels by.
    pub open spec fn key_spec(self) -> Seq<char> {
        match self {
            Mission::All => "all"@,
            Mission::Sentinel1 => "sentinel-1"@,
            Mission::Sentinel2 => "sentinel-2"@,
            Mission::Sentinel3 => "sentinel-3"@,
            Mission::Sentinel5p => "sentinel-5p"@,
        }
    }

    /// What it is called on the screen.
    pub open spec fn label_spec(self) -> Seq<char> {
        match self {
            Mission::All => "все"@,
            Mission::Sentinel1 => "Sentinel-1"@,
            Mission::Sentinel2 => "Sentinel-2"@,
            Mission::Sentinel3 => "Sentinel-3"@,
            Mission::Sentinel5p => "Sentinel-5P"@,
        }
    }

    /// All of them, in the order in which they are offered.
    pub open spec fn all_spec() -> Seq<Mission> {
        seq![Mission::All, Mission::Sentinel1, Mission::Sentinel2, Mission::Sentinel3, Mission::Sentinel5p]
    }

    pub fn key(self) -> (key: &'static str)
        ensures
            key@ == self.key_spec(),
    {
        match self {
            Mission::All => "all",
            Mission::Sentinel1 => "sentinel-1",
            Mission::Sentinel2 => "sentinel-2",
            Mission::Sentinel3 => "sentinel-3",
            Mission::Sentinel5p => "sentinel-5p",
        }
    }

    pub fn label(self) -> (label: &'static str)
        ensures
            label@ == self.label_spec(),
    {
        match self {
            Mission::All => "все",
            Mission::Sentinel1 => "Sentinel-1",
            Mission::Sentinel2 => "Sentinel-2",
            Mission::Sentinel3 => "Sentinel-3",
            Mission::Sentinel5p => "Sentinel-5P",
        }
    }

    pub fn all() -> (all: Vec<Mission>)
        ensures
            all@ == Mission::all_spec(),
    {
        let mut all: Vec<Mission> = Vec::new();
        all.push(Mission::All);
        all.push(Mission::Sentinel1);
        all.push(Mission::Sentinel2);
        all.push(Mission::Sentinel3);
        all.push(Mission::Sentinel5p);
        assert(all@ =~= Mission::all_spec());
        all
    }

    /// The one that travels by this key.
    pub fn from_key(key: &str) -> (found: Option<Mission>)
        ensures
            match found {
                Some(one) => one.key_spec() == key@,
                None => forall|one: Mission| #[trigger] one.key_spec() != key@,
            },
    {
        if text::same(key, "all") {
            Some(Mission::All)
        } else if text::same(key, "sentinel-1") {
            Some(Mission::Sentinel1)
        } else if text::same(key, "sentinel-2") {
            Some(Mission::Sentinel2)
        } else if text::same(key, "sentinel-3") {
            Some(Mission::Sentinel3)
        } else if text::same(key, "sentinel-5p") {
            Some(Mission::Sentinel5p)
        } else {
            None
        }
    }

    /// No two travel by the same key.
    pub proof fn keys_differ(a: Mission, b: Mission)
        ensures
            a.key_spec() == b.key_spec() ==> a == b,
    {
        reveal_strlit("all");
        reveal_strlit("sentinel-1");
        reveal_strlit("sentinel-2");
        reveal_strlit("sentinel-3");
        reveal_strlit("sentinel-5p");
        assert("all"@.len() == 3);
        assert("sentinel-1"@.len() == 10);
        assert("sentinel-2"@.len() == 10);
        assert("sentinel-3"@.len() == 10);
        assert("sentinel-5p"@.len() == 11);
        assert("sentinel-1"@[9] != "sentinel-2"@[9]);
        assert("sentinel-1"@[9] != "sentinel-3"@[9]);
        assert("sentinel-2"@[9] != "sentinel-3"@[9]);
    }
}

impl Default for Mission {
    fn default() -> (one: Mission)
        ensures
            one == Mission::All,
    {
        Mission::All
    }
}

/// When the snapshots were taken.
#[derive(Clone, Copy, PartialEq, Eq, Structural, Debug)]
pub enum Period {
    Any,
    Week,
    Month,
    /// Between two typed dates.
    Custom,
}

impl Period {
    /// The key it travels by.
    pub open spec fn key_spec(self) -> Seq<char> {
        match self {
            Period::Any => "any"@,
            Period::Week => "week"@,
            Period::Month => "month"@,
            Period::Custom => "custom"@,
        }
    }

    /// What it is called on the screen.
    pub open spec fn label_spec(self) -> Seq<char> {
        match self {
            Period::Any => "любой"@,
            Period::Week => "неделя"@,
            Period::Month => "месяц"@,
            Period::Custom => "свой"@,
        }
    }

    /// All of them, in the order in which they are offered.
    pub open spec fn all_spec() -> Seq<Period> {
        seq![Period::Any, Period::Week, Period::Month, Period::Custom]
    }

    pub fn key(self) -> (key: &'static str)
        ensures
            key@ == self.key_spec(),
    {
        match self {
            Period::Any => "any",
            Period::Week => "week",
            Period::Month => "month",
            Period::Custom => "custom",
        }
    }

    pub fn label(self) -> (label: &'static str)
        ensures
            label@ == self.label_spec(),
    {
        match self {
            Period::Any => "любой",
            Period::Week => "неделя",
            Period::Month => "месяц",
            Period::Custom => "свой",
        }
    }

    pub fn all() -> (all: Vec<Period>)
        ensures
            all@ == Period::all_spec(),
    {
        let mut all: Vec<Period> = Vec::new();
        all.push(Period::Any);
        all.push(Period::Week);
        all.push(Period::Month);
        all.push(Period::Custom);
        assert(all@ =~= Period::all_spec());
        all
    }

    /// The one that travels by this key.
    pub fn from_key(key: &str) -> (found: Option<Period>)
        ensures
            match found {
                Some(one) => one.key_spec() == key@,
                None => forall|one: Period| #[trigger] one.key_spec() != key@,
            },
    {
        if text::same(key, "any") {
            Some(Period::Any)
        } else if text::same(key, "week") {
            Some(Period::Week)
        } else if text::same(key, "month") {
            Some(Period::Month)
        } else if text::same(key, "custom") {
            Some(Period::Custom)
        } else {
            None
        }
    }

    /// No two travel by the same key.
    pub proof fn keys_differ(a: Period, b: Period)
        ensures
            a.key_spec() == b.key_spec() ==> a == b,
    {
        reveal_strlit("any");
        reveal_strlit("week");
        reveal_strlit("month");
        reveal_strlit("custom");
        assert("any"@.len() == 3);
        assert("week"@.len() == 4);
        assert("month"@.len() == 5);
        assert("custom"@.len() == 6);
    }
}

impl Default for Period {
    fn default() -> (one: Period)
        ensures
            one == Period::Any,
    {
        Period::Any
    }
}

/// How cloudy the snapshots may be.
#[derive(Clone, Copy, PartialEq, Eq, Structural, Debug)]
pub enum Cloud {
    Any,
    Tenth,
    Third,
    Half,
}

impl Cloud {
    /// The key it travels by.
    pub open spec fn key_spec(self) -> Seq<char> {
        match self {
            Cloud::Any => "any"@,
            Cloud::Tenth => "10"@,
            Cloud::Third => "30"@,
            Cloud::Half => "50"@,
        }
    }

    /// What it is called on the screen.
    pub open spec fn label_spec(self) -> Seq<char> {
        match self {
            Cloud::Any => "любая"@,
            Cloud::Tenth => "до 10 %"@,
            Cloud::Third => "до 30 %"@,
            Cloud::Half => "до 50 %"@,
        }
    }

    /// All of them, in the order in which they are offered.
    pub open spec fn all_spec() -> Seq<Cloud> {
        seq![Cloud::Any, Cloud::Tenth, Cloud::Third, Cloud::Half]
    }

    pub fn key(self) -> (key: &'static str)
        ensures
            key@ == self.key_spec(),
    {
        match self {
            Cloud::Any => "any",
            Cloud::Tenth => "10",
            Cloud::Third => "30",
            Cloud::Half => "50",
        }
    }

    pub fn label(self) -> (label: &'static str)
        ensures
            label@ == self.label_spec(),
    {
        match self {
            Cloud::Any => "любая",
            Cloud::Tenth => "до 10 %",
            Cloud::Third => "до 30 %",
            Cloud::Half => "до 50 %",
        }
    }

    pub fn all() -> (all: Vec<Cloud>)
        ensures
            all@ == Cloud::all_spec(),
    {
        let mut all: Vec<Cloud> = Vec::new();
        all.push(Cloud::Any);
        all.push(Cloud::Tenth);
        all.push(Cloud::Third);
        all.push(Cloud::Half);
        assert(all@ =~= Cloud::all_spec());
        all
    }

    /// The one that travels by this key.
    pub fn from_key(key: &str) -> (found: Option<Cloud>)
        ensures
            match found {
                Some(one) => one.key_spec() == key@,
                None => forall|one: Cloud| #[trigger] one.key_spec() != key@,
            },
    {
        if text::same(key, "any") {
            Some(Cloud::Any)
        } else if text::same(key, "10") {
            Some(Cloud::Tenth)
        } else if text::same(key, "30") {
            Some(Cloud::Third)
        } else if text::same(key, "50") {
            Some(Cloud::Half)
        } else {
            None
        }
    }

    /// No two travel by the same key.
    pub proof fn keys_differ(a: Cloud, b: Cloud)
        ensures
            a.key_spec() == b.key_spec() ==> a == b,
    {
        reveal_strlit("any");
        reveal_strlit("10");
        reveal_strlit("30");
        reveal_strlit("50");
        assert("any"@.len() == 3);
        assert("10"@.len() == 2);
        assert("30"@.len() == 2);
        assert("50"@.len() == 2);
        assert("10"@[0] != "30"@[0]);
        assert("10"@[0] != "50"@[0]);
        assert("30"@[0] != "50"@[0]);
    }
}

impl Default for Cloud {
    fn default() -> (one: Cloud)
        ensures
            one == Cloud::Any,
    {
        Cloud::Any
    }
}

impl Mission {
    pub open spec fn collection_spec(self) -> Seq<char> {
        match self {
            Mission::All => ""@,
            Mission::Sentinel1 => "SENTINEL-1"@,
            Mission::Sentinel2 => "SENTINEL-2"@,
            Mission::Sentinel3 => "SENTINEL-3"@,
            Mission::Sentinel5p => "SENTINEL-5P"@,
        }
    }

    /// What the catalogue calls its collection; empty for all of them.
    pub fn collection(self) -> (name: &'static str)
        ensures
            name@ == self.collection_spec(),
    {
        match self {
            Mission::All => "",
            Mission::Sentinel1 => "SENTINEL-1",
            Mission::Sentinel2 => "SENTINEL-2",
            Mission::Sentinel3 => "SENTINEL-3",
            Mission::Sentinel5p => "SENTINEL-5P",
        }
    }

    /// Whether clouds matter: to a radar they do not.
    pub fn clouded(self) -> (yes: bool)
        ensures
            yes == (self != Mission::Sentinel1),
    {
        !matches!(self, Mission::Sentinel1)
    }
}

impl Cloud {
    pub open spec fn max_spec(self) -> Option<u32> {
        match self {
            Cloud::Any => None,
            Cloud::Tenth => Some(10),
            Cloud::Third => Some(30),
            Cloud::Half => Some(50),
        }
    }

    /// The largest cover in per cent; `None` without a limit.
    pub fn max(self) -> (limit: Option<u32>)
        ensures
            limit == self.max_spec(),
    {
        match self {
            Cloud::Any => None,
            Cloud::Tenth => Some(10),
            Cloud::Third => Some(30),
            Cloud::Half => Some(50),
        }
    }
}

/// A tab of the search.
pub struct SearchState {
    pub query: String,
    pub mission: Mission,
    pub period: Period,
    /// The edges of a period of one's own, as they are typed.
    pub from: String,
    pub to: String,
    pub cloud: Cloud,
    pub results: Vec<DataProduct>,
    pub error: Option<String>,
    pub listing: ListingState,
    /// The contents of the snapshots that are open.
    pub children: Children,
    pub request: Latest,
}

impl Default for SearchState {
    fn default() -> (search: SearchState)
        ensures
            search.query@ == Seq::<char>::empty(),
            search.mission == Mission::All,
            search.period == Period::Any,
            search.from@ == Seq::<char>::empty(),
            search.to@ == Seq::<char>::empty(),
            search.cloud == Cloud::Any,
            search.results@.len() == 0,
            search.children.branches() == Map::<Seq<char>, Branch>::empty(),
            search.listing.is_fresh(),
            search.error is None,
            search.request.waiting() is None,
    {
        SearchState {
            query: String::new(),
            mission: Mission::All,
            period: Period::Any,
            from: String::new(),
            to: String::new(),
            cloud: Cloud::Any,
            results: Vec::new(),
            error: None,
            listing: ListingState::default(),
            children: Children::new(),
            request: Latest::new(),
        }
    }
}

/// So many days before a moment; 0 when that is before the count begins.
pub open spec fn days_before(now: int, days: int) -> int {
    if now >= days * 86_400 { now - days * 86_400 } else { 0 }
}

/// A typed edge of a period; 0 while it is not a date.
pub open spec fn edge(typed: Seq<char>) -> int {
    match crate::components::format::read_date(typed) {
        Some(midnight) => midnight,
        None => 0,
    }
}

/// From when to when to search; 0 stands for an open edge.
pub open spec fn search_window(period: Period, from: Seq<char>, to: Seq<char>, now: int) -> (int, int) {
    match period {
        Period::Any => (0, 0),
        Period::Week => (days_before(now, 7), 0),
        Period::Month => (days_before(now, 30), 0),
        Period::Custom => (edge(from), edge(to)),
    }
}

fn days_back(now: i64, days: i64) -> (then: i64)
    requires
        0 <= days <= 366,
    ensures
        then == days_before(now as int, days as int),
{
    if now >= days * calendar::DAY {
        now - days * calendar::DAY
    } else {
        0
    }
}

impl SearchState {
    /// From when to when to search; 0 stands for an open edge.
    pub fn window(&self, now: i64) -> (edges: (i64, i64))
        ensures
            (edges.0 as int, edges.1 as int) == search_window(self.period, self.from@, self.to@, now as int),
    {
        match self.period {
            Period::Any => (0, 0),
            Period::Week => (days_back(now, 7), 0),
            Period::Month => (days_back(now, 30), 0),
            Period::Custom => (
                match crate::components::format::parse_date(&self.from) {
                    Some(midnight) => midnight,
                    None => 0,
                },
                match crate::components::format::parse_date(&self.to) {
                    Some(midnight) => midnight,
                    None => 0,
                },
            ),
        }
    }
}

// -- Laws --

/// Each mission is searched in its own collection, and all missions in none.
pub proof fn a_mission_is_searched_in_its_collection(one: Mission, other: Mission)
    ensures
        (one.collection_spec().len() == 0) == (one == Mission::All),
        one == Mission::Sentinel1 ==> one.collection_spec() == "SENTINEL-1"@,
        one == Mission::Sentinel2 ==> one.collection_spec() == "SENTINEL-2"@,
        one == Mission::Sentinel3 ==> one.collection_spec() == "SENTINEL-3"@,
        one == Mission::Sentinel5p ==> one.collection_spec() == "SENTINEL-5P"@,
        one != other ==> one.collection_spec() != other.collection_spec(),
{
    reveal_strlit("");
    reveal_strlit("SENTINEL-1");
    reveal_strlit("SENTINEL-2");
    reveal_strlit("SENTINEL-3");
    reveal_strlit("SENTINEL-5P");
    assert("SENTINEL-1"@[9] == '1' && "SENTINEL-2"@[9] == '2' && "SENTINEL-3"@[9] == '3' && "SENTINEL-5P"@[9] == '5');
}

/// A limit of clouds is what its label says, and without one there is no limit.
pub proof fn a_limit_of_clouds_is_a_share(one: Cloud)
    ensures
        (one.max_spec() is None) == (one == Cloud::Any),
        one == Cloud::Tenth ==> one.max_spec() == Some(10u32),
        one == Cloud::Third ==> one.max_spec() == Some(30u32),
        one == Cloud::Half ==> one.max_spec() == Some(50u32),
{
}

/// A week reaches seven days back from now and a month thirty, both open to the other side;
/// any time is open to both; and a period of one's own reaches from the one typed date to
/// the other, where an edge that is no date is open.
pub proof fn a_period_reaches_back_from_now(from: Seq<char>, to: Seq<char>, now: int)
    ensures
        search_window(Period::Any, from, to, now) == (0int, 0int),
        now >= 30 * 86_400 ==> search_window(Period::Week, from, to, now).0 + 7 * 86_400 == now,
        now >= 30 * 86_400 ==> search_window(Period::Month, from, to, now).0 + 30 * 86_400 == now,
        0 <= now < 7 * 86_400 ==> search_window(Period::Week, from, to, now).0 == 0,
        search_window(Period::Week, from, to, now).1 == 0,
        search_window(Period::Month, from, to, now).1 == 0,
        crate::components::format::read_date(from) matches Some(day) ==> search_window(Period::Custom, from, to, now).0
            == day,
        crate::components::format::read_date(from) is None ==> search_window(Period::Custom, from, to, now).0 == 0,
        crate::components::format::read_date(to) matches Some(day) ==> search_window(Period::Custom, from, to, now).1
            == day,
        crate::components::format::read_date(to) is None ==> search_window(Period::Custom, from, to, now).1 == 0,
{
}

/// What the missions, the periods and the limits of clouds are called, on the screen and in
/// writing.
pub proof fn what_they_are_called()
    ensures
        Mission::All.label_spec() == "все"@ && Mission::All.key_spec() == "all"@,
        Mission::Sentinel1.label_spec() == "Sentinel-1"@ && Mission::Sentinel1.key_spec() == "sentinel-1"@,
        Mission::Sentinel2.label_spec() == "Sentinel-2"@ && Mission::Sentinel2.key_spec() == "sentinel-2"@,
        Mission::Sentinel3.label_spec() == "Sentinel-3"@ && Mission::Sentinel3.key_spec() == "sentinel-3"@,
        Mission::Sentinel5p.label_spec() == "Sentinel-5P"@ && Mission::Sentinel5p.key_spec() == "sentinel-5p"@,
        Period::Any.label_spec() == "любой"@ && Period::Any.key_spec() == "any"@,
        Period::Week.label_spec() == "неделя"@ && Period::Week.key_spec() == "week"@,
        Period::Month.label_spec() == "месяц"@ && Period::Month.key_spec() == "month"@,
        Period::Custom.label_spec() == "свой"@ && Period::Custom.key_spec() == "custom"@,
        Cloud::Any.label_spec() == "любая"@ && Cloud::Any.key_spec() == "any"@,
        Cloud::Tenth.label_spec() == "до 10 %"@ && Cloud::Tenth.key_spec() == "10"@,
        Cloud::Third.label_spec() == "до 30 %"@ && Cloud::Third.key_spec() == "30"@,
        Cloud::Half.label_spec() == "до 50 %"@ && Cloud::Half.key_spec() == "50"@,
{
}

/// Every mission, every period and every limit of clouds is offered, once.
pub proof fn each_is_offered_once(mission: Mission, period: Period, cloud: Cloud)
    ensures
        Mission::all_spec().contains(mission) && Mission::all_spec().no_duplicates(),
        Period::all_spec().contains(period) && Period::all_spec().no_duplicates(),
        Cloud::all_spec().contains(cloud) && Cloud::all_spec().no_duplicates(),
{
    let missions = Mission::all_spec();
    assert(missions[0] is All && missions[1] is Sentinel1 && missions[2] is Sentinel2 && missions[3] is Sentinel3
        && missions[4] is Sentinel5p);
    let periods = Period::all_spec();
    assert(periods[0] is Any && periods[1] is Week && periods[2] is Month && periods[3] is Custom);
    let clouds = Cloud::all_spec();
    assert(clouds[0] is Any && clouds[1] is Tenth && clouds[2] is Third && clouds[3] is Half);
}

} // verus!
