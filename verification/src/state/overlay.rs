//! Snapshots laid over the globe, and how far each has come.

use vstd::prelude::*;
use crate::number;
use crate::proto::{self, Ring};
use crate::state::ids::ViewId;
use crate::text;

verus! {

broadcast use vstd::string::group_string_axioms;

/// How the work on a layer goes, as the globe tells it.
#[derive(Clone, Copy, PartialEq, Eq, Structural, Debug)]
pub struct Progress {
    /// Tiles at hand, and tiles wanted.
    pub ready: u32,
    pub total: u32,
    /// The share that is done, by the bits of its float.
    pub share: u32,
    pub working: bool,
    pub step: u32,
    pub steps: u32,
    /// There is nothing to draw yet.
    pub blank: bool,
}

/// What a progress strip can say.
#[derive(Clone, Copy, PartialEq, Eq, Structural, Debug)]
pub enum Pace {
    /// No work goes on.
    Idle,
    /// Work goes on, but there is no share to show.
    Unknown,
    /// This much is done, by the bits of the share.
    Share(u32),
}

/// «3 из 7».
pub open spec fn out_of(part: nat, whole: nat) -> Seq<char> {
    number::written(part) + " из "@ + number::written(whole)
}

fn out_of_text(part: u32, whole: u32) -> (said: String)
    ensures
        said@ == out_of(part as nat, whole as nat),
{
    let mut said: String = number::decimal(part as u128);
    said.append(" из ");
    said.append(&number::decimal(whole as u128));
    said
}

impl Progress {
    pub open spec fn pace_spec(self) -> Pace {
        if !self.working {
            Pace::Idle
        } else if self.blank {
            Pace::Unknown
        } else {
            Pace::Share(self.share)
        }
    }

    /// The steps of the work and the tiles of the step, as far as they are
    /// known; nothing when the work is over.
    pub open spec fn parts_spec(self) -> Seq<Seq<char>> {
        if !self.working {
            Seq::empty()
        } else {
            (if self.steps > 0 { seq!["шаг "@ + out_of(self.step as nat, self.steps as nat)] } else { Seq::empty() }) + (
            if self.total > 0 {
                seq!["тайлы "@ + out_of(self.ready as nat, self.total as nat)]
            } else {
                Seq::empty()
            })
        }
    }

    /// What the strip under a row shows.
    pub fn pace(self) -> (pace: Pace)
        ensures
            pace == self.pace_spec(),
    {
        if !self.working {
            Pace::Idle
        } else if self.blank {
            Pace::Unknown
        } else {
            Pace::Share(self.share)
        }
    }

    /// The same in words, the larger parts first.
    pub fn parts(self) -> (parts: Vec<String>)
        ensures
            text::texts(parts@) == self.parts_spec(),
    {
        let mut parts: Vec<String> = Vec::new();
        if self.working {
            if self.steps > 0 {
                let said: String = text::concat("шаг ", &out_of_text(self.step, self.steps));
                parts.push(said);
            }
            if self.total > 0 {
                let said: String = text::concat("тайлы ", &out_of_text(self.ready, self.total));
                parts.push(said);
            }
        }
        assert(text::texts(parts@) =~= self.parts_spec());
        parts
    }
}

impl Default for Progress {
    fn default() -> (progress: Progress)
        ensures
            progress == (Progress { ready: 0, total: 0, share: 0, working: false, step: 0, steps: 0, blank: false }),
    {
        Progress { ready: 0, total: 0, share: 0, working: false, step: 0, steps: 0, blank: false }
    }
}

/// How detailed a raster of a layer is.
#[derive(Clone, Copy, PartialEq, Eq, Structural, Debug)]
pub enum OverlayRole {
    OverlayPreview,
    OverlayDetailed,
}

/// What a file of a layer is: the raster itself, or its coordinates.
#[derive(Clone, Copy, PartialEq, Eq, Structural, Debug)]
pub enum Part {
    Raster,
    Geolocation,
}

/// An open file.
#[derive(Clone, Copy, PartialEq, Eq, Structural, Debug)]
pub struct Handle {
    pub id: u64,
    pub size: u64,
}

/// A rectangle of a zone of the transverse grid; its edges by the bits of their
/// numbers.
#[derive(Clone, Copy, PartialEq, Eq, Structural, Debug)]
pub struct UtmFrame {
    pub zone: u32,
    pub south: bool,
    pub x0: u64,
    pub y0: u64,
    pub x1: u64,
    pub y1: u64,
}

/// A raster that the globe has, with its coordinates where they are apart.
#[derive(Clone, Copy, PartialEq, Eq, Structural, Debug)]
pub struct OverlayRaster {
    pub resource: Handle,
    pub role: OverlayRole,
    pub geolocation: Option<Handle>,
}

/// A file that was opened for a layer.
#[derive(Clone, Copy, PartialEq, Eq, Structural, Debug)]
pub struct Collected {
    pub role: OverlayRole,
    pub part: Part,
    pub handle: Handle,
}

/// The files of a layer while they are being opened.
pub struct Assembly {
    pub utm: Option<UtmFrame>,
    /// The questions that have no answer yet.
    pub opens: Vec<String>,
    pub collected: Vec<Collected>,
}

/// What a question to open a file was asked for.
pub struct Opening {
    /// The layer; empty once it was given up.
    pub key: String,
    pub role: OverlayRole,
    pub part: Part,
}

/// What a question to open a file was asked for, in words.
pub ghost struct OpeningView {
    pub key: Seq<char>,
    pub role: OverlayRole,
    pub part: Part,
}

impl View for Opening {
    type V = OpeningView;

    open spec fn view(&self) -> OpeningView {
        OpeningView { key: self.key@, role: self.role, part: self.part }
    }
}

/// What the questions to open files were asked for.
pub open spec fn opens_seen(opens: Map<Seq<char>, Opening>) -> Map<Seq<char>, OpeningView> {
    opens.map_values(|opening: Opening| opening@)
}

/// A layer: a snapshot laid over the globe, or on its way there.
pub struct OverlayState {
    pub identifier: String,
    pub label: String,
    pub folder: bool,
    /// The search in whose results it was found; `None` when it was found by its
    /// key.
    pub source: Option<ViewId>,
    pub footprint: Vec<Ring>,
    /// How opaque it is, by the bits of the share.
    pub opacity: u32,
    pub hidden: bool,
    pub utm: Option<UtmFrame>,
    pub rasters: Vec<OverlayRaster>,
    /// The question for its rasters, while it has no answer.
    pub imagery: Option<String>,
    pub assembly: Option<Assembly>,
    pub progress: Progress,
    /// What is wrong with it, though it is shown; empty when nothing is.
    pub trouble: String,
}

/// The bits of a whole share.
pub const OPAQUE: u32 = 0x3f80_0000;

impl OverlayState {
    /// A layer of which nothing is known but its snapshot.
    pub fn new(
        identifier: String,
        label: String,
        folder: bool,
        source: Option<ViewId>,
        footprint: Vec<Ring>,
    ) -> (overlay: OverlayState)
        ensures
            overlay == (OverlayState {
                identifier,
                label,
                folder,
                source,
                footprint,
                opacity: OPAQUE,
                hidden: false,
                utm: None,
                rasters: overlay.rasters,
                imagery: None,
                assembly: None,
                progress: overlay.progress,
                trouble: overlay.trouble,
            }),
            overlay.rasters@.len() == 0,
            overlay.progress == (Progress {
                ready: 0,
                total: 0,
                share: 0,
                working: false,
                step: 0,
                steps: 0,
                blank: false,
            }),
            overlay.trouble@ == Seq::<char>::empty(),
    {
        OverlayState {
            identifier,
            label,
            folder,
            source,
            footprint,
            opacity: OPAQUE,
            hidden: false,
            utm: None,
            rasters: Vec::new(),
            imagery: None,
            assembly: None,
            progress: Progress::default(),
            trouble: String::new(),
        }
    }

    /// The globe has its rasters.
    pub fn on_globe(&self) -> (yes: bool)
        ensures
            yes == (self.rasters@.len() > 0),
    {
        self.rasters.len() > 0
    }

    /// There is anything to lay it by.
    pub open spec fn placed(self) -> bool {
        proto::has_points(proto::outlines_of(self.footprint@))
    }
}

/// Where the first layer of this snapshot stands; the number of layers when
/// there is none.
pub open spec fn layer_place(layers: Seq<OverlayState>, key: Seq<char>) -> int
    decreases layers.len(),
{
    if layers.len() == 0 {
        0
    } else if layers[0].identifier@ == key {
        0
    } else {
        1 + layer_place(layers.skip(1), key)
    }
}

/// The first layer of a snapshot is where none before it is of that snapshot.
pub proof fn layer_place_is_first(layers: Seq<OverlayState>, key: Seq<char>)
    ensures
        0 <= layer_place(layers, key) <= layers.len(),
        forall|j: int| 0 <= j < layer_place(layers, key) ==> (#[trigger] layers[j]).identifier@ != key,
        layer_place(layers, key) < layers.len() ==> layers[layer_place(layers, key)].identifier@ == key,
    decreases layers.len(),
{
    if layers.len() > 0 && layers[0].identifier@ != key {
        layer_place_is_first(layers.skip(1), key);
        assert forall|j: int| 0 <= j < layer_place(layers, key) implies (#[trigger] layers[j]).identifier@ != key by {
            if j > 0 {
                assert(layers.skip(1)[j - 1] == layers[j]);
            }
        }
    }
}

/// Where nothing before is of that snapshot, the first layer of it stands.
pub proof fn layer_place_is(layers: Seq<OverlayState>, key: Seq<char>, at: int)
    requires
        0 <= at <= layers.len(),
        forall|j: int| 0 <= j < at ==> (#[trigger] layers[j]).identifier@ != key,
        at < layers.len() ==> layers[at].identifier@ == key,
    ensures
        layer_place(layers, key) == at,
    decreases layers.len(),
{
    if layers.len() > 0 && layers[0].identifier@ != key {
        assert forall|j: int| 0 <= j < at - 1 implies (#[trigger] layers.skip(1)[j]).identifier@ != key by {
            assert(layers.skip(1)[j] == layers[j + 1]);
        }
        layer_place_is(layers.skip(1), key, at - 1);
    }
}

/// The first layer of this snapshot.
pub open spec fn layer_of(layers: Seq<OverlayState>, key: Seq<char>) -> Option<OverlayState> {
    let at = layer_place(layers, key);
    if 0 <= at < layers.len() { Some(layers[at]) } else { None }
}

/// There is a layer of this snapshot.
pub open spec fn has_layer(layers: Seq<OverlayState>, key: Seq<char>) -> bool {
    layer_of(layers, key) is Some
}

/// Where the layer of a snapshot stands; the number of layers when there is
/// none.
pub fn find_layer(layers: &Vec<OverlayState>, key: &str) -> (at: usize)
    ensures
        at == layer_place(layers@, key@),
        at <= layers@.len(),
{
    let mut at: usize = 0;
    while at < layers.len()
        invariant
            at <= layers@.len(),
            forall|j: int| 0 <= j < at ==> (#[trigger] layers@[j]).identifier@ != key@,
        ensures
            at <= layers@.len(),
            forall|j: int| 0 <= j < at ==> (#[trigger] layers@[j]).identifier@ != key@,
            at < layers@.len() ==> layers@[at as int].identifier@ == key@,
        decreases layers@.len() - at,
    {
        if text::same(&layers[at].identifier, key) {
            break;
        }
        at += 1;
    }
    proof {
        layer_place_is(layers@, key@, at as int);
    }
    at
}

/// The work on a layer shows its share once there is something to see; a layer that is not
/// worked on is idle. What is said counts the steps and the tiles, each only where there
/// are any.
pub proof fn the_work_is_told_as_it_goes(progress: Progress)
    ensures
        progress.pace_spec() is Idle <==> !progress.working,
        progress.pace_spec() is Unknown <==> progress.working && progress.blank,
        progress.working && !progress.blank ==> progress.pace_spec() == Pace::Share(progress.share),
        !progress.working ==> progress.parts_spec().len() == 0,
        progress.working && progress.steps > 0 && progress.total > 0 ==> progress.parts_spec() == seq![
            "шаг "@ + number::written(progress.step as nat) + " из "@ + number::written(progress.steps as nat),
            "тайлы "@ + number::written(progress.ready as nat) + " из "@ + number::written(progress.total as nat),
        ],
        progress.working && progress.steps > 0 && progress.total == 0 ==> progress.parts_spec() == seq![
            "шаг "@ + number::written(progress.step as nat) + " из "@ + number::written(progress.steps as nat),
        ],
        progress.working && progress.steps == 0 && progress.total > 0 ==> progress.parts_spec() == seq![
            "тайлы "@ + number::written(progress.ready as nat) + " из "@ + number::written(progress.total as nat),
        ],
        progress.working && progress.steps == 0 && progress.total == 0 ==> progress.parts_spec().len() == 0,
{
    let step = "шаг "@ + number::written(progress.step as nat) + " из "@ + number::written(progress.steps as nat);
    let tiles = "тайлы "@ + number::written(progress.ready as nat) + " из "@ + number::written(progress.total as nat);
    assert("шаг "@ + out_of(progress.step as nat, progress.steps as nat) =~= step);
    assert("тайлы "@ + out_of(progress.ready as nat, progress.total as nat) =~= tiles);
    if progress.working {
        if progress.steps > 0 && progress.total > 0 {
            assert(progress.parts_spec() =~= seq![step, tiles]);
        } else if progress.steps > 0 {
            assert(progress.parts_spec() =~= seq![step]);
        } else if progress.total > 0 {
            assert(progress.parts_spec() =~= seq![tiles]);
        }
    }
}

/// A layer goes by its key: there is one where one has it, and it is the first that does.
pub proof fn a_layer_goes_by_its_key(layers: Seq<OverlayState>, key: Seq<char>)
    ensures
        has_layer(layers, key) <==> exists|i: int| 0 <= i < layers.len() && (#[trigger] layers[i]).identifier@ == key,
        layer_of(layers, key) matches Some(layer) ==> layer.identifier@ == key && layers.contains(layer),
{
    layer_place_is_first(layers, key);
    if has_layer(layers, key) {
        assert(layers[layer_place(layers, key)].identifier@ == key);
    }
}

/// A layer has a place where its footprint has a point.
pub proof fn a_layer_has_a_place_where_it_has_a_point(layer: OverlayState)
    ensures
        layer.placed() <==> exists|i: int|
            0 <= i < layer.footprint@.len() && (#[trigger] layer.footprint@[i]).points@.len() > 0,
{
    let outlines = proto::outlines_of(layer.footprint@);
    if layer.placed() {
        let i = choose|i: int| 0 <= i < outlines.len() && (#[trigger] outlines[i]).len() > 0;
        assert(layer.footprint@[i].points@.len() > 0);
    }
    if exists|i: int| 0 <= i < layer.footprint@.len() && (#[trigger] layer.footprint@[i]).points@.len() > 0 {
        let i = choose|i: int| 0 <= i < layer.footprint@.len() && (#[trigger] layer.footprint@[i]).points@.len() > 0;
        assert(outlines[i].len() > 0);
    }
}

} // verus!
