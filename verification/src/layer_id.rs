//! Layer categories and layer identifiers.

use crate::id::{short_hex, Id};
use vstd::prelude::*;
use vstd::string::*;

verus! {

/// The category of a layer. Categories are painted in the order
/// `Background < Middle < Foreground < Tooltip < Debug`: a later one is
/// painted on top.
#[derive(Clone, Copy, Debug, Hash, PartialEq, Eq, PartialOrd, Ord, Structural)]
pub enum Order {
    /// Painted behind all floating windows.
    Background,
    /// Normal movable windows, reordered by click.
    Middle,
    /// Popups and menus, always painted on top of windows.
    Foreground,
    /// Things floating on top of everything else, like tooltips.
    Tooltip,
    /// The debug layer, always painted last.
    Debug,
}

/// The number of layer categories.
pub const ORDER_COUNT: usize = 5;

impl Order {
    /// The category that is painted on top of all others.
    pub const TOP: Self = Self::Debug;

    /// The position of the category in paint order, counted from zero.
    pub open spec fn rank(self) -> nat {
        match self {
            Order::Background => 0,
            Order::Middle => 1,
            Order::Foreground => 2,
            Order::Tooltip => 3,
            Order::Debug => 4,
        }
    }

    /// The category at position `rank` in paint order.
    pub open spec fn of_rank(rank: nat) -> Order {
        if rank == 0 {
            Order::Background
        } else if rank == 1 {
            Order::Middle
        } else if rank == 2 {
            Order::Foreground
        } else if rank == 3 {
            Order::Tooltip
        } else {
            Order::Debug
        }
    }

    /// The short name of the category.
    pub open spec fn short_name(self) -> Seq<char> {
        match self {
            Order::Background => "backg"@,
            Order::Middle => "middl"@,
            Order::Foreground => "foreg"@,
            Order::Tooltip => "toolt"@,
            Order::Debug => "debug"@,
        }
    }

    /// The position of the category in paint order, for use as an index.
    pub fn index(self) -> (i: usize)
        ensures
            i == self.rank(),
            i < ORDER_COUNT,
    {
        match self {
            Order::Background => 0,
            Order::Middle => 1,
            Order::Foreground => 2,
            Order::Tooltip => 3,
            Order::Debug => 4,
        }
    }

    /// The category at position `i` in paint order.
    pub fn from_index(i: usize) -> (order: Order)
        requires
            i < ORDER_COUNT,
        ensures
            order == Order::of_rank(i as nat),
            order.rank() == i,
    {
        if i == 0 {
            Order::Background
        } else if i == 1 {
            Order::Middle
        } else if i == 2 {
            Order::Foreground
        } else if i == 3 {
            Order::Tooltip
        } else {
            Order::Debug
        }
    }

    /// Whether layers of this category take part in interaction. All do.
    pub fn allow_interaction(&self) -> (allowed: bool)
        ensures
            allowed,
    {
        match self {
            Order::Background
            | Order::Middle
            | Order::Foreground
            | Order::Tooltip
            | Order::Debug => true,
        }
    }

    /// A short readable summary: five letters.
    pub fn short_debug_format(&self) -> (name: &'static str)
        ensures
            name@ == self.short_name(),
    {
        match self {
            Order::Background => "backg",
            Order::Middle => "middl",
            Order::Foreground => "foreg",
            Order::Tooltip => "toolt",
            Order::Debug => "debug",
        }
    }
}

/// The identifier of a paint layer: its category and an id.
///
/// Two layers are the same iff both fields are equal.
#[derive(Clone, Copy, Debug, Hash, PartialEq, Eq, Structural)]
pub struct LayerId {
    pub order: Order,
    pub id: Id,
}

impl LayerId {
    /// The layer with the given category and id.
    pub fn new(order: Order, id: Id) -> (layer: LayerId)
        ensures
            layer == (LayerId { order, id }),
    {
        LayerId { order, id }
    }

    /// The debug overlay: the layer of category [`Order::Debug`] whose id is
    /// the id of the name "debug".
    pub fn debug() -> (layer: LayerId)
        ensures
            layer.order == Order::Debug,
    {
        LayerId { order: Order::Debug, id: Id::new("debug") }
    }

    /// The backdrop that fills the window: the layer of category
    /// [`Order::Background`] whose id is the id of the name "background".
    pub fn background() -> (layer: LayerId)
        ensures
            layer.order == Order::Background,
    {
        LayerId { order: Order::Background, id: Id::new("background") }
    }

    /// Whether the layer takes part in interaction. All do.
    pub fn allow_interaction(&self) -> (allowed: bool)
        ensures
            allowed,
    {
        self.order.allow_interaction()
    }

    /// What [`LayerId::short_debug_format`] returns: the short name of the
    /// category, a space, and the short form of the id.
    pub open spec fn short_form(self) -> Seq<char> {
        self.order.short_name() + seq![' '] + short_hex(self.id@)
    }

    /// A short readable summary.
    pub fn short_debug_format(&self) -> (text: String)
        ensures
            text@ == self.short_form(),
    {
        let mut text = String::from_str(self.order.short_debug_format());
        proof {
            reveal_strlit(" ");
        }
        text.append(" ");
        let id_text = self.id.short_debug_format();
        text.append(id_text.as_str());
        text
    }
}

} // verus!
