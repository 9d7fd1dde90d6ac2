//! What lies on the globe, and what the tab that shows it remembers.

use vstd::prelude::*;
use crate::proto::{self, DataProduct, GeoPoint, Ring};
use crate::state::ids::ViewId;

verus! {

broadcast use vstd::string::group_string_axioms;

/// A snapshot that is outlined on the globe.
pub struct Outlined {
    pub key: String,
    pub label: String,
    pub folder: bool,
    pub rings: Vec<Ring>,
}

/// What an outlined snapshot says.
pub ghost struct OutlinedView {
    pub key: Seq<char>,
    pub label: Seq<char>,
    pub folder: bool,
    pub rings: Seq<Seq<GeoPoint>>,
}

impl View for Outlined {
    type V = OutlinedView;

    open spec fn view(&self) -> OutlinedView {
        OutlinedView {
            key: self.key@,
            label: self.label@,
            folder: self.folder,
            rings: proto::outlines_of(self.rings@),
        }
    }
}

/// What the catalogue answered of a key.
pub enum Located {
    Found(DataProduct),
    /// The question is on its way.
    Asking,
    /// The catalogue knows no such product; that does not change.
    Missing,
    /// It could not be asked; it can be asked again.
    Failed,
}

/// What the catalogue answered, in words.
pub ghost enum LocatedView {
    Found(proto::ProductView),
    Asking,
    Missing,
    Failed,
}

impl View for Located {
    type V = LocatedView;

    open spec fn view(&self) -> LocatedView {
        match *self {
            Located::Found(product) => LocatedView::Found(product@),
            Located::Asking => LocatedView::Asking,
            Located::Missing => LocatedView::Missing,
            Located::Failed => LocatedView::Failed,
        }
    }
}

/// What the catalogue answered of all keys.
pub open spec fn located_seen(located: Map<Seq<char>, Located>) -> Map<Seq<char>, LocatedView> {
    located.map_values(|answer: Located| answer@)
}

pub open spec fn outlined_seen(outlined: Seq<Outlined>) -> Seq<OutlinedView> {
    outlined.map_values(|one: Outlined| one@)
}

/// Who asked for a product by its key.
pub enum Locate {
    Outline(String),
    Overlay(String),
}

/// Who asked, in words.
pub ghost enum LocateView {
    Outline(Seq<char>),
    Overlay(Seq<char>),
}

impl View for Locate {
    type V = LocateView;

    open spec fn view(&self) -> LocateView {
        match *self {
            Locate::Outline(key) => LocateView::Outline(key@),
            Locate::Overlay(key) => LocateView::Overlay(key@),
        }
    }
}

/// Who asked for products, by the marks of the questions.
pub open spec fn locates_seen(locates: Map<Seq<char>, Locate>) -> Map<Seq<char>, LocateView> {
    locates.map_values(|locate: Locate| locate@)
}

/// The one row that is highlighted on the screen.
pub struct Highlight {
    pub key: String,
    /// The tab that was walked to it.
    pub view: Option<ViewId>,
    /// It is picked on the globe.
    pub on_globe: bool,
}

/// A place for somebody else's picture.
#[derive(Clone, Copy, PartialEq, Eq, Structural, Debug)]
pub struct Surface {
    pub id: u64,
    pub width: u32,
    pub height: u32,
}

/// A place of the pointer, by the bits of its two numbers.
#[derive(Clone, Copy, PartialEq, Eq, Structural, Debug)]
pub struct Spot {
    pub x: u32,
    pub y: u32,
}

/// A gesture over the globe: where the pointer was, and how far it has gone, by
/// the bits of a number that is never negative.
#[derive(Clone, Copy, PartialEq, Eq, Structural, Debug)]
pub struct Drag {
    pub last: Spot,
    pub travelled: u32,
}

/// The tab of the globe.
pub struct GlobeState {
    pub surface: Option<Surface>,
    pub dragging: Option<Drag>,
}

impl Default for GlobeState {
    fn default() -> (globe: GlobeState)
        ensures
            globe == (GlobeState { surface: None, dragging: None }),
    {
        GlobeState { surface: None, dragging: None }
    }
}

} // verus!
