//! Directions: sides of a pane, axes of a division, ways to move a layer.

use vstd::prelude::*;
use crate::text;

verus! {

broadcast use vstd::string::group_string_axioms;

/// A side of a pane.
#[derive(Clone, Copy, PartialEq, Eq, Structural, Debug)]
pub enum Side {
    Left,
    Right,
    Above,
    Below,
}

impl Side {
    /// The key it travels by.
    pub open spec fn key_spec(self) -> Seq<char> {
        match self {
            Side::Left => "left"@,
            Side::Right => "right"@,
            Side::Above => "above"@,
            Side::Below => "below"@,
        }
    }

    /// What it is called on the screen.
    pub open spec fn label_spec(self) -> Seq<char> {
        match self {
            Side::Left => "Слева"@,
            Side::Right => "Справа"@,
            Side::Above => "Сверху"@,
            Side::Below => "Снизу"@,
        }
    }

    /// All of them, in the order in which they are offered.
    pub open spec fn all_spec() -> Seq<Side> {
        seq![Side::Left, Side::Right, Side::Above, Side::Below]
    }

    pub fn key(self) -> (key: &'static str)
        ensures
            key@ == self.key_spec(),
    {
        match self {
            Side::Left => "left",
            Side::Right => "right",
            Side::Above => "above",
            Side::Below => "below",
        }
    }

    pub fn label(self) -> (label: &'static str)
        ensures
            label@ == self.label_spec(),
    {
        match self {
            Side::Left => "Слева",
            Side::Right => "Справа",
            Side::Above => "Сверху",
            Side::Below => "Снизу",
        }
    }

    pub fn all() -> (all: Vec<Side>)
        ensures
            all@ == Side::all_spec(),
    {
        let mut all: Vec<Side> = Vec::new();
        all.push(Side::Left);
        all.push(Side::Right);
        all.push(Side::Above);
        all.push(Side::Below);
        assert(all@ =~= Side::all_spec());
        all
    }

    /// The one that travels by this key.
    pub fn from_key(key: &str) -> (found: Option<Side>)
        ensures
            match found {
                Some(one) => one.key_spec() == key@,
                None => forall|one: Side| #[trigger] one.key_spec() != key@,
            },
    {
        if text::same(key, "left") {
            Some(Side::Left)
        } else if text::same(key, "right") {
            Some(Side::Right)
        } else if text::same(key, "above") {
            Some(Side::Above)
        } else if text::same(key, "below") {
            Some(Side::Below)
        } else {
            None
        }
    }

    /// No two travel by the same key.
    pub proof fn keys_differ(a: Side, b: Side)
        ensures
            a.key_spec() == b.key_spec() ==> a == b,
    {
        reveal_strlit("left");
        reveal_strlit("right");
        reveal_strlit("above");
        reveal_strlit("below");
        assert("left"@.len() == 4);
        assert("right"@.len() == 5);
        assert("above"@.len() == 5);
        assert("below"@.len() == 5);
        assert("right"@[0] != "above"@[0]);
        assert("right"@[0] != "below"@[0]);
        assert("above"@[0] != "below"@[0]);
    }
}

/// The axis along which two parts of the screen lie.
#[derive(Clone, Copy, PartialEq, Eq, Structural, Debug)]
pub enum Axis {
    /// Side by side.
    Horizontal,
    /// One above the other.
    Vertical,
}

impl Axis {
    /// The key it travels by.
    pub open spec fn key_spec(self) -> Seq<char> {
        match self {
            Axis::Horizontal => "horizontal"@,
            Axis::Vertical => "vertical"@,
        }
    }

    /// All of them, in the order in which they are offered.
    pub open spec fn all_spec() -> Seq<Axis> {
        seq![Axis::Horizontal, Axis::Vertical]
    }

    pub fn key(self) -> (key: &'static str)
        ensures
            key@ == self.key_spec(),
    {
        match self {
            Axis::Horizontal => "horizontal",
            Axis::Vertical => "vertical",
        }
    }

    pub fn all() -> (all: Vec<Axis>)
        ensures
            all@ == Axis::all_spec(),
    {
        let mut all: Vec<Axis> = Vec::new();
        all.push(Axis::Horizontal);
        all.push(Axis::Vertical);
        assert(all@ =~= Axis::all_spec());
        all
    }

    /// The one that travels by this key.
    pub fn from_key(key: &str) -> (found: Option<Axis>)
        ensures
            match found {
                Some(one) => one.key_spec() == key@,
                None => forall|one: Axis| #[trigger] one.key_spec() != key@,
            },
    {
        if text::same(key, "horizontal") {
            Some(Axis::Horizontal)
        } else if text::same(key, "vertical") {
            Some(Axis::Vertical)
        } else {
            None
        }
    }

    /// No two travel by the same key.
    pub proof fn keys_differ(a: Axis, b: Axis)
        ensures
            a.key_spec() == b.key_spec() ==> a == b,
    {
        reveal_strlit("horizontal");
        reveal_strlit("vertical");
        assert("horizontal"@.len() == 10);
        assert("vertical"@.len() == 8);
    }
}

/// Which way a layer moves in the set: up is over the others.
#[derive(Clone, Copy, PartialEq, Eq, Structural, Debug)]
pub enum Shift {
    Up,
    Down,
}

impl Shift {
    /// The key it travels by.
    pub open spec fn key_spec(self) -> Seq<char> {
        match self {
            Shift::Up => "up"@,
            Shift::Down => "down"@,
        }
    }

    /// All of them, in the order in which they are offered.
    pub open spec fn all_spec() -> Seq<Shift> {
        seq![Shift::Up, Shift::Down]
    }

    pub fn key(self) -> (key: &'static str)
        ensures
            key@ == self.key_spec(),
    {
        match self {
            Shift::Up => "up",
            Shift::Down => "down",
        }
    }

    pub fn all() -> (all: Vec<Shift>)
        ensures
            all@ == Shift::all_spec(),
    {
        let mut all: Vec<Shift> = Vec::new();
        all.push(Shift::Up);
        all.push(Shift::Down);
        assert(all@ =~= Shift::all_spec());
        all
    }

    /// The one that travels by this key.
    pub fn from_key(key: &str) -> (found: Option<Shift>)
        ensures
            match found {
                Some(one) => one.key_spec() == key@,
                None => forall|one: Shift| #[trigger] one.key_spec() != key@,
            },
    {
        if text::same(key, "up") {
            Some(Shift::Up)
        } else if text::same(key, "down") {
            Some(Shift::Down)
        } else {
            None
        }
    }

    /// No two travel by the same key.
    pub proof fn keys_differ(a: Shift, b: Shift)
        ensures
            a.key_spec() == b.key_spec() ==> a == b,
    {
        reveal_strlit("up");
        reveal_strlit("down");
        assert("up"@.len() == 2);
        assert("down"@.len() == 4);
    }
}

impl Axis {
    pub open spec fn tail_spec(self) -> Side {
        match self {
            Axis::Horizontal => Side::Right,
            Axis::Vertical => Side::Below,
        }
    }

    /// The side on which the second part lies.
    pub fn tail(self) -> (side: Side)
        ensures
            side == self.tail_spec(),
    {
        match self {
            Axis::Horizontal => Side::Right,
            Axis::Vertical => Side::Below,
        }
    }
}

impl Side {
    pub open spec fn axis_spec(self) -> Axis {
        match self {
            Side::Left | Side::Right => Axis::Horizontal,
            Side::Above | Side::Below => Axis::Vertical,
        }
    }

    /// A part on this side comes after the other.
    pub open spec fn is_tail_spec(self) -> bool {
        self == Side::Right || self == Side::Below
    }

    pub fn axis(self) -> (axis: Axis)
        ensures
            axis == self.axis_spec(),
    {
        match self {
            Side::Left | Side::Right => Axis::Horizontal,
            Side::Above | Side::Below => Axis::Vertical,
        }
    }

    pub fn is_tail(self) -> (yes: bool)
        ensures
            yes == self.is_tail_spec(),
    {
        matches!(self, Side::Right | Side::Below)
    }
}

/// Left and right lie side by side, above and below one over the other; to the right and
/// below is what comes second.
pub proof fn a_side_lies_along_its_axis(side: Side, axis: Axis)
    ensures
        side is Left || side is Right <==> side.axis_spec() is Horizontal,
        side is Above || side is Below <==> side.axis_spec() is Vertical,
        side.is_tail_spec() <==> side is Right || side is Below,
        axis.tail_spec().axis_spec() == axis,
        axis.tail_spec().is_tail_spec(),
{
}

/// What the sides, the axes and the shifts are called in writing, and the sides on the
/// screen.
pub proof fn what_they_are_called()
    ensures
        Side::Left.label_spec() == "Слева"@ && Side::Left.key_spec() == "left"@,
        Side::Right.label_spec() == "Справа"@ && Side::Right.key_spec() == "right"@,
        Side::Above.label_spec() == "Сверху"@ && Side::Above.key_spec() == "above"@,
        Side::Below.label_spec() == "Снизу"@ && Side::Below.key_spec() == "below"@,
        Axis::Horizontal.key_spec() == "horizontal"@,
        Axis::Vertical.key_spec() == "vertical"@,
        Shift::Up.key_spec() == "up"@,
        Shift::Down.key_spec() == "down"@,
{
}

/// Every side, every axis and every shift is offered, once.
pub proof fn each_is_offered_once(side: Side, axis: Axis, shift: Shift)
    ensures
        Side::all_spec().contains(side) && Side::all_spec().no_duplicates(),
        Axis::all_spec().contains(axis) && Axis::all_spec().no_duplicates(),
        Shift::all_spec().contains(shift) && Shift::all_spec().no_duplicates(),
{
    let sides = Side::all_spec();
    assert(sides[0] is Left && sides[1] is Right && sides[2] is Above && sides[3] is Below);
    let axes = Axis::all_spec();
    assert(axes[0] is Horizontal && axes[1] is Vertical);
    let shifts = Shift::all_spec();
    assert(shifts[0] is Up && shifts[1] is Down);
}

} // verus!
