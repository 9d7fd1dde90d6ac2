//! A panel that drops down: a list of actions or of values. One for all menus; they
//! differ in their items alone.

use vstd::prelude::*;
use crate::components::deed;
use crate::message::Msg;

verus! {

broadcast use vstd::string::group_string_axioms;

/// A sign of the icon font.
#[derive(Clone, Copy, PartialEq, Eq, Structural, Debug)]
pub enum Glyph {
    Tick,
    Enter,
    Pause,
    Play,
    Download,
    Eye,
    Outline,
    Globe,
    Focus,
    Satellite,
    Folder,
    Image,
    File,
    More,
    Caret,
    CaretRight,
}

/// An item of a menu.
pub struct Item {
    pub label: String,
    /// What a press sends; nothing for a note, which is not pressed.
    pub message: Option<Msg>,
    /// The sign before it.
    pub mark: Option<Glyph>,
    /// How many records are under this value.
    pub count: Option<usize>,
    pub selected: bool,
    pub danger: bool,
}

/// What an item says.
pub ghost struct ItemView {
    pub label: Seq<char>,
    pub deed: Option<deed::Deed>,
    pub mark: Option<Glyph>,
    pub count: Option<usize>,
    pub selected: bool,
    pub danger: bool,
}

impl View for Item {
    type V = ItemView;

    open spec fn view(&self) -> ItemView {
        ItemView {
            label: self.label@,
            deed: deed::deed_of(self.message),
            mark: self.mark,
            count: self.count,
            selected: self.selected,
            danger: self.danger,
        }
    }
}

/// What a list of items says.
pub open spec fn items_seen(items: Seq<Item>) -> Seq<ItemView> {
    items.map_values(|item: Item| item@)
}

/// An item that does something and says no more.
pub open spec fn plain_item(label: Seq<char>, deed: deed::Deed) -> ItemView {
    ItemView { label, deed: Some(deed), mark: None, count: None, selected: false, danger: false }
}

/// One more item says one thing more.
pub broadcast proof fn items_seen_push(items: Seq<Item>, item: Item)
    ensures
        #[trigger] items_seen(items.push(item)) == items_seen(items).push(item@),
{
    assert(items_seen(items.push(item)) =~= items_seen(items).push(item@));
}

impl Item {
    pub fn new(label: String, message: Msg) -> (item: Item)
        ensures
            item == (Item { label, message: Some(message), mark: None, count: None, selected: false, danger: false }),
            item@ == plain_item(label@, deed::deed(message)),
    {
        Item { label, message: Some(message), mark: None, count: None, selected: false, danger: false }
    }

    /// A note in the panel: neither an action nor a value.
    pub fn note(label: String) -> (item: Item)
        ensures
            item == (Item { label, message: None, mark: None, count: None, selected: false, danger: false }),
    {
        Item { label, message: None, mark: None, count: None, selected: false, danger: false }
    }

    /// The value that is chosen has a tick.
    pub fn selected(self, selected: bool) -> (item: Item)
        ensures
            item == (Item { selected, mark: if selected { Some(Glyph::Tick) } else { self.mark }, ..self }),
    {
        Item { selected, mark: if selected { Some(Glyph::Tick) } else { self.mark }, ..self }
    }

    pub fn count(self, count: usize) -> (item: Item)
        ensures
            item == (Item { count: Some(count), ..self }),
    {
        Item { count: Some(count), ..self }
    }

    /// What the item is called.
    pub fn named(&self) -> (label: &str)
        ensures
            label@ == self.label@,
    {
        self.label.as_str()
    }

    /// Whether the item is the chosen value.
    pub fn marked(&self) -> (yes: bool)
        ensures
            yes == self.selected,
    {
        self.selected
    }

    pub fn glyph(self, glyph: Glyph) -> (item: Item)
        ensures
            item == (Item { mark: Some(glyph), ..self }),
    {
        Item { mark: Some(glyph), ..self }
    }

    /// An action that cannot be taken back.
    pub fn danger(self) -> (item: Item)
        ensures
            item == (Item { danger: true, ..self }),
    {
        Item { danger: true, ..self }
    }
}

// -- The panel --

/// How wide a panel is while the labels have room in it, in twentieths of a point. One
/// width for all menus: panels of many widths read as different menus.
pub const WIDTH: u128 = 4280;
/// What an item takes beside its label: the place of the mark, the gaps and the edges, in
/// twentieths of a point.
pub const ITEM_OVERHEAD: u128 = 1040;
/// The size of a label, in tenths of a point.
pub const BODY: u32 = 130;

/// A panel: its items and how wide it is.
pub struct Panel {
    pub items: Vec<Item>,
    /// In twentieths of a point.
    pub width: u128,
}

/// The room that the widest item needs, and no less than a panel has.
pub open spec fn widest(items: Seq<ItemView>) -> int
    decreases items.len(),
{
    if items.len() == 0 {
        WIDTH as int
    } else {
        let before = widest(items.drop_last());
        let here = items.last().label.len() * BODY + ITEM_OVERHEAD;
        if here > before { here } else { before }
    }
}

/// A panel of these items. It widens for its longest label: an item that is cut off does
/// not say what it does.
pub fn panel(items: Vec<Item>) -> (panel: Panel)
    ensures
        panel.items@ == items@,
        panel.width == widest(items_seen(items@)),
{
    let ghost all = items_seen(items@);
    let mut width: u128 = WIDTH;
    let mut i: usize = 0;
    while i < items.len()
        invariant
            i <= items@.len(),
            all == items_seen(items@),
            width == widest(all.take(i as int)),
        decreases items@.len() - i,
    {
        assert(all.take(i + 1).drop_last() =~= all.take(i as int));
        let here: u128 = crate::components::format::text_width(&items[i].label, BODY) + ITEM_OVERHEAD;
        if here > width {
            width = here;
        }
        i += 1;
    }
    assert(all.take(all.len() as int) =~= all);
    Panel { items, width }
}

/// No label of a panel is cut off.
pub proof fn every_label_has_room(items: Seq<ItemView>, at: int)
    requires
        0 <= at < items.len(),
    ensures
        items[at].label.len() * BODY + ITEM_OVERHEAD <= widest(items),
    decreases items.len(),
{
    if at < items.len() - 1 {
        every_label_has_room(items.drop_last(), at);
    }
}

/// A panel is as wide as its widest label needs, and no narrower than panels are.
pub proof fn a_panel_is_as_wide_as_it_needs(items: Seq<ItemView>)
    ensures
        widest(items) >= 4280,
        widest(items) > 4280 ==> exists|i: int|
            0 <= i < items.len() && widest(items) == (#[trigger] items[i]).label.len() * 130 + 1040,
    decreases items.len(),
{
    if items.len() > 0 {
        let front = items.drop_last();
        a_panel_is_as_wide_as_it_needs(front);
        if widest(items) > 4280 {
            if widest(items) == widest(front) {
                let i = choose|i: int|
                    0 <= i < front.len() && widest(front) == (#[trigger] front[i]).label.len() * 130 + 1040;
                assert(items[i] == front[i]);
            } else {
                assert(items[items.len() - 1].label.len() * 130 + 1040 == widest(items));
            }
        }
    }
}

/// An item is nothing but its label and what it does, until it is told to be more.
pub proof fn an_item_is_its_label_and_its_deed(label: Seq<char>, what: deed::Deed)
    ensures
        ({
            let item = plain_item(label, what);
            &&& item.label == label
            &&& item.deed == Some(what)
            &&& item.mark is None && item.count is None
            &&& !item.selected && !item.danger
        }),
{
}

} // verus!
