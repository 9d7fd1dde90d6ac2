//! What other modules say: records of the library, answers of the provider and
//! of the globe. Plain values throughout; a coordinate or a share is carried by
//! the bits of its floating-point number and never computed with here.

use vstd::prelude::*;
use crate::state::overlay::{Progress, UtmFrame};

verus! {

broadcast use vstd::string::group_string_axioms;

// -- The library --

/// How far a record of the library has come.
#[derive(Clone, Copy, PartialEq, Eq, Structural, Debug)]
pub enum LibraryStatus {
    LibDownloading,
    LibPaused,
    LibComplete,
}

/// A record of the library: one file, on disk or on its way there.
pub struct LibraryEntry {
    /// What the library calls it.
    pub name: String,
    /// The provider's key; empty when it has none.
    pub identifier: String,
    /// The snapshot it belongs to; empty when it stands alone.
    pub product: String,
    pub done: u64,
    /// The whole size; 0 when it is unknown.
    pub total: u64,
    pub status: LibraryStatus,
    /// Seconds from the start of 1970.
    pub modified: i64,
    /// How many files its snapshot has; 0 until the snapshot was walked.
    pub siblings: u32,
    /// Why the last attempt broke off; empty when it did not.
    pub trouble: String,
}

/// The whole state of the library, or why it could not be had.
pub struct LibraryStateMsg {
    pub entries: Vec<LibraryEntry>,
    pub error: String,
}

// -- The provider --

/// A point on the Earth: degrees, each by the bits of its double.
#[derive(Clone, Copy, PartialEq, Eq, Structural, Debug)]
pub struct GeoPoint {
    pub lat: u64,
    pub lon: u64,
}

/// One closed line of a footprint.
pub struct Ring {
    pub points: Vec<GeoPoint>,
}

/// The points of every ring.
pub open spec fn outlines_of(rings: Seq<Ring>) -> Seq<Seq<GeoPoint>> {
    rings.map_values(|ring: Ring| ring.points@)
}

/// A copy of the points of a line.
pub fn copy_points(points: &Vec<GeoPoint>) -> (copy: Vec<GeoPoint>)
    ensures
        copy@ == points@,
{
    let mut copy: Vec<GeoPoint> = Vec::new();
    let mut i: usize = 0;
    while i < points.len()
        invariant
            i <= points.len(),
            copy@ == points@.take(i as int),
        decreases points.len() - i,
    {
        copy.push(points[i]);
        assert(points@.take(i + 1) =~= points@.take(i as int).push(points@[i as int]));
        i += 1;
    }
    assert(points@.take(points@.len() as int) =~= points@);
    copy
}

/// A copy of a footprint.
pub fn copy_rings(rings: &Vec<Ring>) -> (copy: Vec<Ring>)
    ensures
        outlines_of(copy@) == outlines_of(rings@),
{
    let mut copy: Vec<Ring> = Vec::new();
    let mut i: usize = 0;
    while i < rings.len()
        invariant
            i <= rings.len(),
            outlines_of(copy@) == outlines_of(rings@).take(i as int),
        decreases rings.len() - i,
    {
        let ghost before = copy@;
        let points: Vec<GeoPoint> = copy_points(&rings[i].points);
        copy.push(Ring { points });
        assert(outlines_of(copy@) =~= outlines_of(before).push(rings@[i as int].points@));
        assert(outlines_of(rings@).take(i + 1) =~= outlines_of(rings@).take(i as int).push(rings@[i as int].points@));
        i += 1;
    }
    assert(outlines_of(rings@).take(rings@.len() as int) =~= outlines_of(rings@));
    copy
}

/// Some ring has a point.
pub open spec fn has_points(outlines: Seq<Seq<GeoPoint>>) -> bool {
    exists|i: int| 0 <= i < outlines.len() && (#[trigger] outlines[i]).len() > 0
}

/// Whether there is anything to lay a snapshot by.
pub fn any_points(rings: &Vec<Ring>) -> (yes: bool)
    ensures
        yes == has_points(outlines_of(rings@)),
{
    let ghost all = outlines_of(rings@);
    let mut i: usize = 0;
    while i < rings.len()
        invariant
            i <= rings.len(),
            all == outlines_of(rings@),
            forall|j: int| 0 <= j < i ==> (#[trigger] all[j]).len() == 0,
        decreases rings.len() - i,
    {
        assert(all[i as int] == rings@[i as int].points@);
        if rings[i].points.len() > 0 {
            return true;
        }
        i += 1;
    }
    false
}

/// One of the products a snapshot is offered as.
pub struct ProductPart {
    pub identifier: String,
    pub name: String,
    pub size: u64,
    /// Stored as a folder rather than a single object.
    pub folder: bool,
    pub product_type: String,
    /// Why it cannot be shown on the globe; empty when it can.
    pub unviewable: String,
    /// The part the snapshot is shown by.
    pub shown: bool,
}

/// A snapshot as the catalogue knows it.
pub struct DataProduct {
    pub identifier: String,
    pub name: String,
    pub size: u64,
    /// When it was taken, in seconds from the start of 1970.
    pub acquired: i64,
    pub folder: bool,
    pub product_type: String,
    pub unviewable: String,
    pub footprint: Vec<Ring>,
    pub parts: Vec<ProductPart>,
}

/// What a part says.
pub ghost struct PartView {
    pub identifier: Seq<char>,
    pub name: Seq<char>,
    pub size: u64,
    pub folder: bool,
    pub product_type: Seq<char>,
    pub unviewable: Seq<char>,
    pub shown: bool,
}

/// What a product says.
pub ghost struct ProductView {
    pub identifier: Seq<char>,
    pub name: Seq<char>,
    pub size: u64,
    pub acquired: i64,
    pub folder: bool,
    pub product_type: Seq<char>,
    pub unviewable: Seq<char>,
    pub footprint: Seq<Seq<GeoPoint>>,
    pub parts: Seq<PartView>,
}

impl View for ProductPart {
    type V = PartView;

    open spec fn view(&self) -> PartView {
        PartView {
            identifier: self.identifier@,
            name: self.name@,
            size: self.size,
            folder: self.folder,
            product_type: self.product_type@,
            unviewable: self.unviewable@,
            shown: self.shown,
        }
    }
}

pub open spec fn parts_of(parts: Seq<ProductPart>) -> Seq<PartView> {
    parts.map_values(|part: ProductPart| part@)
}

impl View for DataProduct {
    type V = ProductView;

    open spec fn view(&self) -> ProductView {
        ProductView {
            identifier: self.identifier@,
            name: self.name@,
            size: self.size,
            acquired: self.acquired,
            folder: self.folder,
            product_type: self.product_type@,
            unviewable: self.unviewable@,
            footprint: outlines_of(self.footprint@),
            parts: parts_of(self.parts@),
        }
    }
}

pub open spec fn products_of(products: Seq<DataProduct>) -> Seq<ProductView> {
    products.map_values(|product: DataProduct| product@)
}

impl Clone for ProductPart {
    fn clone(&self) -> (copy: ProductPart)
        ensures
            copy@ == self@,
    {
        ProductPart {
            identifier: self.identifier.clone(),
            name: self.name.clone(),
            size: self.size,
            folder: self.folder,
            product_type: self.product_type.clone(),
            unviewable: self.unviewable.clone(),
            shown: self.shown,
        }
    }
}

impl Clone for DataProduct {
    fn clone(&self) -> (copy: DataProduct)
        ensures
            copy@ == self@,
    {
        let mut parts: Vec<ProductPart> = Vec::new();
        let mut i: usize = 0;
        while i < self.parts.len()
            invariant
                i <= self.parts.len(),
                parts_of(parts@) == parts_of(self.parts@).take(i as int),
            decreases self.parts.len() - i,
        {
            let ghost before = parts@;
            let part: ProductPart = self.parts[i].clone();
            parts.push(part);
            assert(parts_of(parts@) =~= parts_of(before).push(self.parts@[i as int]@));
            assert(parts_of(self.parts@).take(i + 1) =~= parts_of(self.parts@).take(i as int).push(self.parts@[i as int]@));
            i += 1;
        }
        assert(parts_of(self.parts@).take(self.parts@.len() as int) =~= parts_of(self.parts@));
        DataProduct {
            identifier: self.identifier.clone(),
            name: self.name.clone(),
            size: self.size,
            acquired: self.acquired,
            folder: self.folder,
            product_type: self.product_type.clone(),
            unviewable: self.unviewable.clone(),
            footprint: copy_rings(&self.footprint),
            parts,
        }
    }
}

impl Default for DataProduct {
    fn default() -> (product: DataProduct)
        ensures
            product@ == (ProductView {
                identifier: Seq::empty(),
                name: Seq::empty(),
                size: 0,
                acquired: 0,
                folder: false,
                product_type: Seq::empty(),
                unviewable: Seq::empty(),
                footprint: Seq::empty(),
                parts: Seq::empty(),
            }),
    {
        let product: DataProduct = DataProduct {
            identifier: String::new(),
            name: String::new(),
            size: 0,
            acquired: 0,
            folder: false,
            product_type: String::new(),
            unviewable: String::new(),
            footprint: Vec::new(),
            parts: Vec::new(),
        };
        assert(product@.footprint =~= Seq::empty());
        assert(product@.parts =~= Seq::empty());
        product
    }
}

/// A line of a listing.
pub struct ListEntry {
    /// The provider's key; a folder's ends in a slash.
    pub key: String,
    pub size: u64,
    pub modified: i64,
    /// The snapshot the record belongs to, or is.
    pub product: String,
    pub unviewable: String,
}

/// A page of a listing, and the token of the next one.
pub struct ListPathResponse {
    pub entries: Vec<ListEntry>,
    pub next_token: String,
    pub error: String,
}

/// A product found by its key; or the catalogue knows none, or did not answer.
pub struct LocateResponse {
    pub product: Option<DataProduct>,
    pub answered: bool,
    pub error: String,
}

/// How detailed a raster of a product is.
#[derive(Clone, Copy, PartialEq, Eq, Structural, Debug)]
pub enum ImageryRole {
    ImageryPreview,
    ImageryDetailed,
}

/// A raster of a product, and the file of its coordinates where they are apart.
pub struct ImageryRaster {
    pub role: ImageryRole,
    pub identifier: String,
    /// Empty when the coordinates are in the raster, or there are none.
    pub geolocation: String,
}

/// The rasters of a product, or why there are none.
pub struct ImageryResponse {
    pub rasters: Vec<ImageryRaster>,
    pub utm: Option<UtmFrame>,
    /// Why there is nothing to show; empty when the provider did not say.
    pub reason: String,
    pub error: String,
}

// -- The globe --

/// How the work on one layer goes.
pub struct LayerProgress {
    pub key: String,
    pub progress: Progress,
    /// What is wrong with it, though it is shown.
    pub trouble: String,
    /// Why it cannot be laid; empty when it can.
    pub error: String,
}

/// How the work on layers goes.
pub struct OverlaysProgress {
    pub overlays: Vec<LayerProgress>,
}

pub struct SearchResponse {
    pub products: Vec<DataProduct>,
    pub error: String,
}

} // verus!
