//! What a press does: the messages that buttons, menus and fields send, in words.

use vstd::prelude::*;
use crate::message::{Msg, ViewMsg};
use crate::state::ids::ViewId;
use crate::state::listing::{Filter, Grouping, Sorting};

verus! {

/// What a press does.
pub ghost enum Deed {
    Download { identifier: Seq<char>, product: Seq<char> },
    Delete(Seq<char>),
    DeleteSnapshot(Seq<char>),
    DownloadSnapshot(Seq<char>),
    PauseSnapshot(Seq<char>),
    Reveal(Seq<char>),
    OutlineToggle(Seq<char>),
    OutlineFocus(Seq<char>),
    OverlayVariable(Seq<char>, Seq<char>),
    OpenMenu(ViewId, Option<Seq<char>>),
    Filter(ViewId, Filter),
    Group(ViewId, Grouping),
    Sort(ViewId, Sorting),
    Page(ViewId, usize),
    Expand(ViewId, Seq<char>),
    Check(ViewId, Seq<char>),
    CheckShown(ViewId, bool),
    CheckClear(ViewId),
    Enter(ViewId, Seq<char>),
    Up(ViewId),
    InCatalog(ViewId, Seq<char>),
    Preview(ViewId, Seq<char>),
    PreviewRemote(ViewId, Seq<char>),
    PreviewProduct(ViewId, Seq<char>),
    PreviewVariable(ViewId, Seq<char>),
    GlobeToggle(ViewId, Seq<char>),
    Query(ViewId, Seq<char>),
    SearchQuery(ViewId, Seq<char>),
    SearchFrom(ViewId, Seq<char>),
    SearchTo(ViewId, Seq<char>),
    RunSearch(ViewId),
    /// Something that no list, no menu and no field sends.
    Other,
}

/// What a message does inside a tab.
pub open spec fn deed_in(view: ViewId, message: ViewMsg) -> Deed {
    match message {
        ViewMsg::OpenMenu(menu) => Deed::OpenMenu(
            view,
            match menu {
                Some(menu) => Some(menu.key_spec()),
                None => None,
            },
        ),
        ViewMsg::Filter(filter) => Deed::Filter(view, filter),
        ViewMsg::Group(grouping) => Deed::Group(view, grouping),
        ViewMsg::Sort(sorting) => Deed::Sort(view, sorting),
        ViewMsg::Page(page) => Deed::Page(view, page),
        ViewMsg::Expand(key) => Deed::Expand(view, key@),
        ViewMsg::Check(key) => Deed::Check(view, key@),
        ViewMsg::CheckShown(on) => Deed::CheckShown(view, on),
        ViewMsg::CheckClear => Deed::CheckClear(view),
        ViewMsg::Enter(key) => Deed::Enter(view, key@),
        ViewMsg::Up => Deed::Up(view),
        ViewMsg::InCatalog(key) => Deed::InCatalog(view, key@),
        ViewMsg::Preview(name) => Deed::Preview(view, name@),
        ViewMsg::PreviewRemote(key) => Deed::PreviewRemote(view, key@),
        ViewMsg::PreviewProduct(key) => Deed::PreviewProduct(view, key@),
        ViewMsg::PreviewVariable(path) => Deed::PreviewVariable(view, path@),
        ViewMsg::GlobeToggle(key) => Deed::GlobeToggle(view, key@),
        ViewMsg::Query(typed) => Deed::Query(view, typed@),
        ViewMsg::SearchQuery(typed) => Deed::SearchQuery(view, typed@),
        ViewMsg::SearchFrom(typed) => Deed::SearchFrom(view, typed@),
        ViewMsg::SearchTo(typed) => Deed::SearchTo(view, typed@),
        ViewMsg::RunSearch => Deed::RunSearch(view),
        _ => Deed::Other,
    }
}

/// What a message does.
pub open spec fn deed(message: Msg) -> Deed {
    match message {
        Msg::Download(identifier, product) => Deed::Download { identifier: identifier@, product: product@ },
        Msg::Delete(name) => Deed::Delete(name@),
        Msg::DeleteSnapshot(product) => Deed::DeleteSnapshot(product@),
        Msg::DownloadSnapshot(key) => Deed::DownloadSnapshot(key@),
        Msg::PauseSnapshot(product) => Deed::PauseSnapshot(product@),
        Msg::Reveal(name) => Deed::Reveal(name@),
        Msg::OutlineToggle(key) => Deed::OutlineToggle(key@),
        Msg::OutlineFocus(key) => Deed::OutlineFocus(key@),
        Msg::OverlayVariable(key, path) => Deed::OverlayVariable(key@, path@),
        Msg::In(view, message) => deed_in(view, message),
        _ => Deed::Other,
    }
}

/// What a press does, where there is one.
pub open spec fn deed_of(message: Option<Msg>) -> Option<Deed> {
    match message {
        Some(message) => Some(deed(message)),
        None => None,
    }
}

/// A message does what it is called, to what it carries.
pub proof fn a_message_does_what_it_is_called(one: String, two: String)
    ensures
        deed(Msg::Download(one, two)) == (Deed::Download { identifier: one@, product: two@ }),
        deed(Msg::Delete(one)) == Deed::Delete(one@),
        deed(Msg::DeleteSnapshot(one)) == Deed::DeleteSnapshot(one@),
        deed(Msg::DownloadSnapshot(one)) == Deed::DownloadSnapshot(one@),
        deed(Msg::PauseSnapshot(one)) == Deed::PauseSnapshot(one@),
        deed(Msg::Reveal(one)) == Deed::Reveal(one@),
        deed(Msg::OutlineToggle(one)) == Deed::OutlineToggle(one@),
        deed(Msg::OutlineFocus(one)) == Deed::OutlineFocus(one@),
{
}

/// A message of a tab does what it is called, in that tab.
pub proof fn a_message_of_a_tab_does_what_it_is_called(view: ViewId, key: String, filter: Filter, grouping: Grouping, sorting: Sorting, page: usize, on: bool)
    ensures
        deed(Msg::In(view, ViewMsg::OpenMenu(None))) == Deed::OpenMenu(view, None),
        deed(Msg::In(view, ViewMsg::Filter(filter))) == Deed::Filter(view, filter),
        deed(Msg::In(view, ViewMsg::Group(grouping))) == Deed::Group(view, grouping),
        deed(Msg::In(view, ViewMsg::Sort(sorting))) == Deed::Sort(view, sorting),
        deed(Msg::In(view, ViewMsg::Page(page))) == Deed::Page(view, page),
        deed(Msg::In(view, ViewMsg::Expand(key))) == Deed::Expand(view, key@),
        deed(Msg::In(view, ViewMsg::Check(key))) == Deed::Check(view, key@),
        deed(Msg::In(view, ViewMsg::CheckShown(on))) == Deed::CheckShown(view, on),
        deed(Msg::In(view, ViewMsg::CheckClear)) == Deed::CheckClear(view),
        deed(Msg::In(view, ViewMsg::Enter(key))) == Deed::Enter(view, key@),
        deed(Msg::In(view, ViewMsg::Up)) == Deed::Up(view),
        deed(Msg::In(view, ViewMsg::InCatalog(key))) == Deed::InCatalog(view, key@),
        deed(Msg::In(view, ViewMsg::Preview(key))) == Deed::Preview(view, key@),
        deed(Msg::In(view, ViewMsg::PreviewRemote(key))) == Deed::PreviewRemote(view, key@),
        deed(Msg::In(view, ViewMsg::PreviewProduct(key))) == Deed::PreviewProduct(view, key@),
        deed(Msg::In(view, ViewMsg::GlobeToggle(key))) == Deed::GlobeToggle(view, key@),
        deed(Msg::In(view, ViewMsg::Query(key))) == Deed::Query(view, key@),
        deed(Msg::In(view, ViewMsg::SearchQuery(key))) == Deed::SearchQuery(view, key@),
        deed(Msg::In(view, ViewMsg::SearchFrom(key))) == Deed::SearchFrom(view, key@),
        deed(Msg::In(view, ViewMsg::SearchTo(key))) == Deed::SearchTo(view, key@),
        deed(Msg::In(view, ViewMsg::RunSearch)) == Deed::RunSearch(view),
{
}

} // verus!
