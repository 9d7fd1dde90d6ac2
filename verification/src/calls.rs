//! What is asked of other modules. A handler puts its requests behind those that
//! already wait; whoever runs the handlers sends them off in order.

use vstd::prelude::*;
use crate::proto::{self, GeoPoint, Ring};
use crate::state::globe::{Spot, Surface};
use crate::state::ids::ViewId;
use crate::state::overlay::{Handle, OverlayRaster, OverlayRole, UtmFrame};

verus! {

broadcast use vstd::string::group_string_axioms;

/// How an outline is drawn.
#[derive(Clone, Copy, PartialEq, Eq, Structural, Debug)]
pub enum OutlineStyle {
    OutlinePlain,
    OutlineSelected,
    /// The place of a snapshot that is on its way.
    OutlinePending,
}

/// One closed line on the globe.
pub struct Outline {
    pub points: Vec<GeoPoint>,
    pub style: OutlineStyle,
}

/// What an outline says.
pub ghost struct OutlineView {
    pub points: Seq<GeoPoint>,
    pub style: OutlineStyle,
}

impl View for Outline {
    type V = OutlineView;

    open spec fn view(&self) -> OutlineView {
        OutlineView { points: self.points@, style: self.style }
    }
}

pub open spec fn outlines_seen(outlines: Seq<Outline>) -> Seq<OutlineView> {
    outlines.map_values(|outline: Outline| outline@)
}

/// A layer as the globe is told of it. The footprint stands in for a frame and is
/// left out where there is one.
pub struct Overlay {
    pub key: String,
    pub label: String,
    pub utm: Option<UtmFrame>,
    pub footprint: Vec<Ring>,
    pub rasters: Vec<OverlayRaster>,
    /// The bits of the share.
    pub opacity: u32,
    pub hidden: bool,
}

/// What the globe is told of a layer.
pub ghost struct OverlayView {
    pub key: Seq<char>,
    pub label: Seq<char>,
    pub utm: Option<UtmFrame>,
    pub footprint: Seq<Seq<GeoPoint>>,
    pub rasters: Seq<OverlayRaster>,
    pub opacity: u32,
    pub hidden: bool,
}

impl View for Overlay {
    type V = OverlayView;

    open spec fn view(&self) -> OverlayView {
        OverlayView {
            key: self.key@,
            label: self.label@,
            utm: self.utm,
            footprint: proto::outlines_of(self.footprint@),
            rasters: self.rasters@,
            opacity: self.opacity,
            hidden: self.hidden,
        }
    }
}

pub open spec fn overlays_seen(overlays: Seq<Overlay>) -> Seq<OverlayView> {
    overlays.map_values(|overlay: Overlay| overlay@)
}

/// A raster to hand over, with its coordinates where they are apart.
#[derive(Clone, Copy, PartialEq, Eq, Structural, Debug)]
pub struct Pair {
    pub role: OverlayRole,
    pub raster: Handle,
    pub coordinates: Option<Handle>,
}

/// A request to another module.
#[allow(inconsistent_fields)]
pub enum Call {
    /// List a folder, or everything under it.
    ListPath { path: String, token: String, recursive: bool, correlation: String },
    /// Search the catalogue; 0 stands for an open edge of time.
    Search { mission: String, name: String, from: i64, to: i64, max_cloud: Option<u32>, correlation: String },
    /// Find a product by its key.
    Locate { identifier: String, correlation: String },
    /// Name the rasters of a product.
    Imagery { identifier: String, correlation: String },
    /// Open a file of the provider.
    OpenRemote { identifier: String, correlation: String },
    /// Open a file of the library.
    OpenLocal { name: String, correlation: String },
    /// Download a file for a snapshot.
    Download { identifier: String, product: String },
    /// Pause the download of a record.
    Pause { name: String },
    /// Throw a record away.
    Delete { name: String },
    /// Show a record in the file manager.
    Reveal { name: String },
    /// How many files a snapshot has.
    Snapshot { product: String, files: u32 },
    /// Report the state of the library.
    ListLibrary,
    /// All layers, bottom to top.
    Overlays { overlays: Vec<Overlay> },
    /// All outlines.
    Outlines { outlines: Vec<Outline> },
    /// Turn the globe to a footprint.
    FocusOn { footprint: Vec<Ring> },
    /// Turn the globe as the pointer went, in shares of a height.
    Orbit { from: Spot, to: Spot, height: u32 },
    /// Come nearer to the globe, by the bits of the scrolling.
    GlobeZoom { delta: u32 },
    /// What place a point of the picture is, in shares of its sides.
    Probe { at: Spot, width: u32, height: u32, correlation: String },
    /// Make a place of this size for the globe.
    PlaceGlobe { view: ViewId, width: u32, height: u32 },
    /// Take the place of the globe away.
    RevokeGlobe { surface: Option<Surface> },
    /// Make a place of this size for a canvas.
    PlacePreview { view: ViewId, width: u32, height: u32 },
    /// Show an open file in a tab.
    Show { view: ViewId, resource: Handle, label: String },
    /// A tab of the canvas is gone.
    CloseView { view: ViewId },
    /// Drag the picture of a canvas.
    Pan { view: ViewId, from: Spot, to: Spot },
    /// Scale a canvas around a point, by the bits of the scrolling.
    ZoomAt { view: ViewId, at: Spot, scroll: u32 },
    /// Scale a canvas of this size around its middle, one step.
    ZoomStep { view: ViewId, width: u32, height: u32, closer: bool },
    /// Fit the picture into its canvas.
    Fit { view: ViewId },
    /// Let an open file go.
    Release { handle: Handle },
    /// Hand the files of a layer over to the globe.
    HandOff { key: String, pairs: Vec<Pair> },
    /// Hand an open file over to the canvas for a tab.
    GiveToCanvas { view: ViewId, handle: Handle },
    /// Read the remembered layout.
    ReadLayout { path: String, correlation: String },
    /// Write the layout.
    WriteLayout { path: String, body: Vec<u8>, correlation: String },
}

/// What a request says.
#[allow(inconsistent_fields)]
pub ghost enum CallView {
    ListPath { path: Seq<char>, token: Seq<char>, recursive: bool, correlation: Seq<char> },
    Search { mission: Seq<char>, name: Seq<char>, from: i64, to: i64, max_cloud: Option<u32>, correlation: Seq<char> },
    Locate { identifier: Seq<char>, correlation: Seq<char> },
    Imagery { identifier: Seq<char>, correlation: Seq<char> },
    OpenRemote { identifier: Seq<char>, correlation: Seq<char> },
    OpenLocal { name: Seq<char>, correlation: Seq<char> },
    Download { identifier: Seq<char>, product: Seq<char> },
    Pause { name: Seq<char> },
    Delete { name: Seq<char> },
    Reveal { name: Seq<char> },
    Snapshot { product: Seq<char>, files: u32 },
    ListLibrary,
    Overlays { overlays: Seq<OverlayView> },
    Outlines { outlines: Seq<OutlineView> },
    FocusOn { footprint: Seq<Seq<GeoPoint>> },
    Orbit { from: Spot, to: Spot, height: u32 },
    GlobeZoom { delta: u32 },
    Probe { at: Spot, width: u32, height: u32, correlation: Seq<char> },
    PlaceGlobe { view: ViewId, width: u32, height: u32 },
    RevokeGlobe { surface: Option<Surface> },
    PlacePreview { view: ViewId, width: u32, height: u32 },
    Show { view: ViewId, resource: Handle, label: Seq<char> },
    CloseView { view: ViewId },
    Pan { view: ViewId, from: Spot, to: Spot },
    ZoomAt { view: ViewId, at: Spot, scroll: u32 },
    ZoomStep { view: ViewId, width: u32, height: u32, closer: bool },
    Fit { view: ViewId },
    Release { handle: Handle },
    HandOff { key: Seq<char>, pairs: Seq<Pair> },
    GiveToCanvas { view: ViewId, handle: Handle },
    ReadLayout { path: Seq<char>, correlation: Seq<char> },
    WriteLayout { path: Seq<char>, body: Seq<u8>, correlation: Seq<char> },
}

impl View for Call {
    type V = CallView;

    open spec fn view(&self) -> CallView {
        match *self {
            Call::ListPath { path, token, recursive, correlation } => CallView::ListPath { path: path@, token: token@, recursive, correlation: correlation@ },
            Call::Search { mission, name, from, to, max_cloud, correlation } => CallView::Search { mission: mission@, name: name@, from, to, max_cloud, correlation: correlation@ },
            Call::Locate { identifier, correlation } => CallView::Locate { identifier: identifier@, correlation: correlation@ },
            Call::Imagery { identifier, correlation } => CallView::Imagery { identifier: identifier@, correlation: correlation@ },
            Call::OpenRemote { identifier, correlation } => CallView::OpenRemote { identifier: identifier@, correlation: correlation@ },
            Call::OpenLocal { name, correlation } => CallView::OpenLocal { name: name@, correlation: correlation@ },
            Call::Download { identifier, product } => CallView::Download { identifier: identifier@, product: product@ },
            Call::Pause { name } => CallView::Pause { name: name@ },
            Call::Delete { name } => CallView::Delete { name: name@ },
            Call::Reveal { name } => CallView::Reveal { name: name@ },
            Call::Snapshot { product, files } => CallView::Snapshot { product: product@, files },
            Call::ListLibrary => CallView::ListLibrary,
            Call::Overlays { overlays } => CallView::Overlays { overlays: overlays_seen(overlays@) },
            Call::Outlines { outlines } => CallView::Outlines { outlines: outlines_seen(outlines@) },
            Call::FocusOn { footprint } => CallView::FocusOn { footprint: proto::outlines_of(footprint@) },
            Call::Orbit { from, to, height } => CallView::Orbit { from, to, height },
            Call::GlobeZoom { delta } => CallView::GlobeZoom { delta },
            Call::Probe { at, width, height, correlation } => CallView::Probe { at, width, height, correlation: correlation@ },
            Call::PlaceGlobe { view, width, height } => CallView::PlaceGlobe { view, width, height },
            Call::RevokeGlobe { surface } => CallView::RevokeGlobe { surface },
            Call::PlacePreview { view, width, height } => CallView::PlacePreview { view, width, height },
            Call::Show { view, resource, label } => CallView::Show { view, resource, label: label@ },
            Call::CloseView { view } => CallView::CloseView { view },
            Call::Pan { view, from, to } => CallView::Pan { view, from, to },
            Call::ZoomAt { view, at, scroll } => CallView::ZoomAt { view, at, scroll },
            Call::ZoomStep { view, width, height, closer } => CallView::ZoomStep { view, width, height, closer },
            Call::Fit { view } => CallView::Fit { view },
            Call::Release { handle } => CallView::Release { handle },
            Call::HandOff { key, pairs } => CallView::HandOff { key: key@, pairs: pairs@ },
            Call::GiveToCanvas { view, handle } => CallView::GiveToCanvas { view, handle },
            Call::ReadLayout { path, correlation } => CallView::ReadLayout { path: path@, correlation: correlation@ },
            Call::WriteLayout { path, body, correlation } => CallView::WriteLayout { path: path@, body: body@, correlation: correlation@ },
        }
    }
}

/// What the waiting requests say, in order.
pub open spec fn said(calls: Seq<Call>) -> Seq<CallView> {
    calls.map_values(|call: Call| call@)
}

/// One more request says one thing more.
pub broadcast proof fn said_push(calls: Seq<Call>, call: Call)
    ensures
        #[trigger] said(calls.push(call)) == said(calls).push(call@),
{
    assert(said(calls.push(call)) =~= said(calls).push(call@));
}

/// What is said of a layer is what its call carries, place by place and in the order of the
/// set.
pub proof fn a_call_says_what_it_carries(overlays: Vec<Overlay>, outlines: Vec<Outline>, i: int)
    ensures
        (Call::Overlays { overlays })@ matches CallView::Overlays { overlays: seen } && {
            &&& seen.len() == overlays@.len()
            &&& 0 <= i < overlays@.len() ==> {
                &&& seen[i].key == overlays@[i].key@
                &&& seen[i].label == overlays@[i].label@
                &&& seen[i].utm == overlays@[i].utm
                &&& seen[i].rasters == overlays@[i].rasters@
                &&& seen[i].opacity == overlays@[i].opacity
                &&& seen[i].hidden == overlays@[i].hidden
                &&& seen[i].footprint == proto::outlines_of(overlays@[i].footprint@)
            }
        },
        (Call::Outlines { outlines })@ matches CallView::Outlines { outlines: seen } && {
            &&& seen.len() == outlines@.len()
            &&& 0 <= i < outlines@.len() ==> seen[i].points == outlines@[i].points@ && seen[i].style == outlines@[i].style
        },
{
}

/// The requests are said one by one, in their order.
pub proof fn requests_are_said_in_their_order(calls: Seq<Call>, i: int)
    requires
        0 <= i < calls.len(),
    ensures
        said(calls).len() == calls.len(),
        said(calls)[i] == calls[i]@,
{
}

} // verus!
