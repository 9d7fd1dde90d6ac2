//! A tab that shows one snapshot.

use vstd::prelude::*;
use crate::state::globe::{Spot, Surface};
use crate::state::request::Latest;

verus! {

/// What the canvas says of its view.
pub struct ViewState {
    /// The tab, as it is written.
    pub view: String,
    /// The canvas has no place for its picture.
    pub needs_place: bool,
}

pub struct PreviewState {
    /// What the snapshot is called.
    pub label: String,
    /// The library's record, when the snapshot is downloaded.
    pub entry: Option<String>,
    pub error: Option<String>,
    pub surface: Option<Surface>,
    pub dragging: Option<Spot>,
    pub view_state: Option<ViewState>,
    /// The canvas complained of its place, and was given another.
    pub replaced: bool,
    pub request: Latest,
}

impl PreviewState {
    pub fn new(label: String, entry: Option<String>) -> (preview: PreviewState)
        ensures
            preview == (PreviewState {
                label,
                entry,
                error: None,
                surface: None,
                dragging: None,
                view_state: None,
                replaced: false,
                request: preview.request,
            }),
            preview.request.waiting() is None,
    {
        PreviewState {
            label,
            entry,
            error: None,
            surface: None,
            dragging: None,
            view_state: None,
            replaced: false,
            request: Latest::new(),
        }
    }
}

} // verus!
