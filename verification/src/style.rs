//! The z-index rule of the style builder: index 0 is the default and is
//! stored as no index at all.

use vstd::prelude::*;

verus! {

/// The stacking order of a node among its siblings.
#[derive(Clone, Copy, Debug, PartialEq, Eq, Structural)]
pub struct ZIndex(pub i32);

/// What can be given where a z-index is asked for.
pub trait ZIndexParam {
    /// The z-index that the value stands for.
    spec fn val(&self) -> ZIndex;

    /// The z-index that the value stands for.
    fn to_val(self) -> (z: ZIndex)
        ensures
            z == self.val(),
    ;
}

impl ZIndexParam for ZIndex {
    open spec fn val(&self) -> ZIndex {
        *self
    }

    fn to_val(self) -> (z: ZIndex) {
        self
    }
}

impl ZIndexParam for i32 {
    open spec fn val(&self) -> ZIndex {
        ZIndex(*self)
    }

    fn to_val(self) -> (z: ZIndex) {
        ZIndex(self)
    }
}

/// The z-index that a node carries after `index` has been set on it: none
/// for index 0.
pub open spec fn stored_z_index(index: ZIndex) -> Option<ZIndex> {
    if index.0 == 0 {
        None
    } else {
        Some(index)
    }
}

#[allow(missing_docs)]
pub trait StyleBuilderZIndex: Sized {
    /// The z-index that the styled node carries, if any.
    spec fn z(&self) -> Option<ZIndex>;

    /// Sets the z-index of the styled node. Index 0 takes the z-index off
    /// the node.
    fn z_index<I: ZIndexParam>(&mut self, index: I) -> (styled: &mut Self)
        ensures
            styled.z() == stored_z_index(index.val()),
            *final(self) == *final(styled),
    ;
}

/// The style of one node, as far as this library sets it.
#[derive(Clone, Copy, Debug, PartialEq, Eq, Structural)]
pub struct StyleBuilder {
    pub z_index: Option<ZIndex>,
}

impl StyleBuilder {
    /// A style with nothing set.
    pub fn new() -> (style: Self)
        ensures
            style.z_index is None,
    {
        StyleBuilder { z_index: None }
    }
}

impl StyleBuilderZIndex for StyleBuilder {
    open spec fn z(&self) -> Option<ZIndex> {
        self.z_index
    }

    fn z_index<I: ZIndexParam>(&mut self, index: I) -> (styled: &mut Self) {
        let val = index.to_val();
        if val.0 == 0 {
            self.z_index = None;
        } else {
            self.z_index = Some(val);
        }
        self
    }
}

/// What a queued style does to the z-index of its node when it is applied.
#[derive(Clone, Copy, Debug, PartialEq, Eq, Structural)]
pub enum ZIndexEdit {
    /// Takes the z-index off the node.
    Remove,
    /// Gives the node this z-index.
    Insert(ZIndex),
}

/// The style edits that wait to be applied to one node.
pub struct StyleCommands {
    pub edits: Vec<ZIndexEdit>,
}

impl StyleCommands {
    /// No edits.
    pub fn new() -> (commands: Self)
        ensures
            commands.edits@.len() == 0,
    {
        StyleCommands { edits: Vec::new() }
    }

    /// The z-index that a node carries after `edits` have been applied to
    /// it in their order, if it carried `start` before.
    pub open spec fn outcome(edits: Seq<ZIndexEdit>, start: Option<ZIndex>) -> Option<ZIndex> {
        if edits.len() == 0 {
            start
        } else {
            match edits.last() {
                ZIndexEdit::Remove => None,
                ZIndexEdit::Insert(z) => Some(z),
            }
        }
    }

    /// Applies the edits to `style`, in their order.
    pub fn apply(&self, style: &mut StyleBuilder)
        ensures
            final(style).z_index == Self::outcome(self.edits@, old(style).z_index),
    {
        let mut i: usize = 0;
        while i < self.edits.len()
            invariant
                i <= self.edits@.len(),
                style.z_index == Self::outcome(self.edits@.subrange(0, i as int), old(style).z_index),
            decreases self.edits@.len() - i,
        {
            match self.edits[i] {
                ZIndexEdit::Remove => {
                    style.z_index = None;
                },
                ZIndexEdit::Insert(z) => {
                    style.z_index = Some(z);
                },
            }
            i += 1;
            assert(self.edits@.subrange(0, i as int).last() == self.edits@[i - 1]);
        }
        assert(self.edits@.subrange(0, i as int) =~= self.edits@);
    }
}

impl StyleBuilderZIndex for StyleCommands {
    open spec fn z(&self) -> Option<ZIndex> {
        Self::outcome(self.edits@, None)
    }

    fn z_index<I: ZIndexParam>(&mut self, index: I) -> (styled: &mut Self)
        ensures
            styled.edits@ == old(self).edits@.push(
                match stored_z_index(index.val()) {
                    Some(z) => ZIndexEdit::Insert(z),
                    None => ZIndexEdit::Remove,
                },
            ),
    {
        let val = index.to_val();
        if val.0 == 0 {
            self.edits.push(ZIndexEdit::Remove);
        } else {
            self.edits.push(ZIndexEdit::Insert(val));
        }
        self
    }
}

} // verus!
