//! Text styles that are inherited down the tree: a node may set the font,
//! the size and the color of the text below it, and a text node takes each
//! of the three from the nearest node above it that sets it.

use vstd::prelude::*;
use crate::tracking_scope::{NodeId, TypeTag};
use crate::store::{Store, StoreView};

verus! {

/// The font that text has where no node sets one.
pub const DEFAULT_FONT: u64 = 0;

/// The size that text has where no node sets one: the bits of 12.0.
pub const DEFAULT_FONT_SIZE: u32 = 0x4140_0000;

/// The color that text has where no node sets one: opaque white.
pub const DEFAULT_COLOR: u32 = 0xFFFF_FFFF;

/// The properties of text that can be inherited. The font is named by the
/// identifier of its asset, the size is held as the bits of its number, the
/// color as its packed channels.
#[derive(Clone, Copy, Debug, PartialEq, Eq, Structural)]
pub struct InheritableFontStyles {
    /// The font asset.
    pub font: Option<u64>,
    /// Inherited size of the font.
    pub font_size: Option<u32>,
    /// Inherited text color.
    pub color: Option<u32>,
}

/// The style of a text node, with nothing left open.
#[derive(Clone, Copy, Debug, PartialEq, Eq, Structural)]
pub struct TextStyle {
    pub font: u64,
    pub font_size: u32,
    pub color: u32,
}

/// `first` where it is set, else `second`.
pub open spec fn or_else<A>(first: Option<A>, second: Option<A>) -> Option<A> {
    if first is Some {
        first
    } else {
        second
    }
}

impl InheritableFontStyles {
    /// True if all text style properties are set.
    pub open spec fn spec_is_final(&self) -> bool {
        self.font is Some && self.font_size is Some && self.color is Some
    }

    /// These styles, with what they leave open taken from `other`.
    pub open spec fn merged(self, other: InheritableFontStyles) -> InheritableFontStyles {
        InheritableFontStyles {
            font: or_else(self.font, other.font),
            font_size: or_else(self.font_size, other.font_size),
            color: or_else(self.color, other.color),
        }
    }

    /// The style of text with these properties, with the defaults for
    /// what they leave open.
    pub open spec fn resolved(self) -> TextStyle {
        TextStyle {
            font: if self.font is Some {
                self.font->Some_0
            } else {
                DEFAULT_FONT
            },
            font_size: if self.font_size is Some {
                self.font_size->Some_0
            } else {
                DEFAULT_FONT_SIZE
            },
            color: if self.color is Some {
                self.color->Some_0
            } else {
                DEFAULT_COLOR
            },
        }
    }

    /// True if all text style properties are set.
    #[verifier::when_used_as_spec(spec_is_final)]
    pub fn is_final(&self) -> (all: bool)
        ensures
            all == self.spec_is_final(),
    {
        self.font.is_some() && self.font_size.is_some() && self.color.is_some()
    }

    /// Merge the properties from another `InheritableFontStyles` into this
    /// one: what is set here stays, what is open is taken from `other`.
    pub fn merge(&mut self, other: &InheritableFontStyles)
        ensures
            *final(self) == old(self).merged(*other),
    {
        if other.font.is_some() && self.font.is_none() {
            self.font = other.font;
        }
        if other.font_size.is_some() && self.font_size.is_none() {
            self.font_size = other.font_size;
        }
        if other.color.is_some() && self.color.is_none() {
            self.color = other.color;
        }
    }
}

impl Default for InheritableFontStyles {
    fn default() -> (styles: Self)
        ensures
            styles == (InheritableFontStyles { font: None, font_size: None, color: None }),
    {
        InheritableFontStyles { font: None, font_size: None, color: None }
    }
}

/// The styles that node `id` sets itself, in its slot of kind `kind`.
pub open spec fn own_styles(world: StoreView<InheritableFontStyles>, id: NodeId, kind: TypeTag) -> InheritableFontStyles {
    if world.has_slot(id, kind) {
        world.value(id, kind)
    } else {
        InheritableFontStyles { font: None, font_size: None, color: None }
    }
}

/// The styles that hold at node `id`: each property as the nearest node from
/// `id` upwards sets it.
pub open spec fn inherited_styles(world: StoreView<InheritableFontStyles>, id: NodeId, kind: TypeTag) -> InheritableFontStyles
    decreases id,
{
    if world.parent(id) is Some && world.parent(id)->Some_0 < id {
        own_styles(world, id, kind).merged(inherited_styles(world, world.parent(id)->Some_0, kind))
    } else {
        own_styles(world, id, kind)
    }
}

/// The style of the text node `entity`: each property from the nearest node
/// from `entity` upwards that sets it in its slot of kind `kind`, and the
/// default where none does.
pub fn compute_inherited_style(world: &Store<InheritableFontStyles>, entity: NodeId, kind: TypeTag) -> (style:
    TextStyle)
    ensures
        style == inherited_styles(world@, entity, kind).resolved(),
{
    let mut styles = InheritableFontStyles::default();
    let mut ancestor = entity;
    loop
        invariant
            styles.merged(inherited_styles(world@, ancestor, kind)) == inherited_styles(world@, entity, kind),
        ensures
            styles.merged(inherited_styles(world@, ancestor, kind)) == inherited_styles(world@, entity, kind),
            styles.spec_is_final() || styles == styles.merged(inherited_styles(world@, ancestor, kind)),
        decreases ancestor,
    {
        if styles.is_final() {
            break;
        }
        match world.get(ancestor, kind) {
            Ok(inherited) => {
                styles.merge(inherited);
                if styles.is_final() {
                    break;
                }
            },
            Err(_) => {},
        }
        match world.parent(ancestor) {
            Some(parent) => {
                if parent < ancestor {
                    ancestor = parent;
                } else {
                    break;
                }
            },
            None => {
                break;
            },
        }
    }
    TextStyle {
        font: match styles.font {
            Some(font) => font,
            None => DEFAULT_FONT,
        },
        font_size: match styles.font_size {
            Some(size) => size,
            None => DEFAULT_FONT_SIZE,
        },
        color: match styles.color {
            Some(color) => color,
            None => DEFAULT_COLOR,
        },
    }
}

} // verus!
