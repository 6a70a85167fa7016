//! What a view shows for itself in the store: no node, one node, or the
//! spans of several child views in their order.

use vstd::prelude::*;
use crate::tracking_scope::NodeId;

verus! {

/// The nodes that a view has produced.
pub enum NodeSpan {
    /// The view shows nothing.
    Empty,
    /// The view shows one node.
    Node(NodeId),
    /// The view shows what its children show, one after the other.
    Fragment(Vec<NodeSpan>),
}

/// The nodes of `spans[from..]`, flattened and in order.
pub open spec fn flat_from(spans: Seq<NodeSpan>, from: int) -> Seq<NodeId>
    decreases spans, spans.len() - from,
{
    if 0 <= from < spans.len() {
        spans[from].flat() + flat_from(spans, from + 1)
    } else {
        Seq::empty()
    }
}

impl NodeSpan {
    /// The nodes of the span, flattened and in order.
    pub open spec fn flat(self) -> Seq<NodeId>
        decreases self,
    {
        match self {
            NodeSpan::Empty => Seq::empty(),
            NodeSpan::Node(id) => seq![id],
            NodeSpan::Fragment(spans) => flat_from(spans@, 0),
        }
    }

    /// How many nodes the span holds, nested fragments included.
    pub fn count(&self) -> (n: usize)
        requires
            self.flat().len() <= usize::MAX,
        ensures
            n == self.flat().len(),
        decreases self,
    {
        match self {
            NodeSpan::Empty => 0,
            NodeSpan::Node(_) => 1,
            NodeSpan::Fragment(spans) => {
                let mut n: usize = 0;
                let mut i: usize = spans.len();
                while i > 0
                    invariant
                        i <= spans.len(),
                        n == flat_from(spans@, i as int).len(),
                        flat_from(spans@, 0).len() <= usize::MAX,
                        *self == NodeSpan::Fragment(*spans),
                    decreases i,
                {
                    i -= 1;
                    proof {
                        lemma_flat_from_suffix(spans@, 0, i as int);
                        assert(decreases_to!(*self => self->Fragment_0));
                        assert(decreases_to!(self->Fragment_0 => (self->Fragment_0)@));
                        assert(decreases_to!((self->Fragment_0)@ => (self->Fragment_0)@[i as int]));
                    }
                    n = n + spans[i].count();
                }
                n
            },
        }
    }

    /// Appends the nodes of the span to `out`, flattened and in order.
    pub fn flatten(&self, out: &mut Vec<NodeId>)
        ensures
            final(out)@ == old(out)@ + self.flat(),
        decreases self,
    {
        match self {
            NodeSpan::Empty => {},
            NodeSpan::Node(id) => {
                out.push(*id);
            },
            NodeSpan::Fragment(spans) => {
                let mut i: usize = 0;
                let ghost start = out@;
                while i < spans.len()
                    invariant
                        i <= spans.len(),
                        out@ + flat_from(spans@, i as int) == start + flat_from(spans@, 0),
                        *self == NodeSpan::Fragment(*spans),
                    decreases spans.len() - i,
                {
                    let ghost before = out@;
                    assert(decreases_to!(*self => self->Fragment_0));
                    assert(decreases_to!(self->Fragment_0 => (self->Fragment_0)@));
                    assert(decreases_to!((self->Fragment_0)@ => (self->Fragment_0)@[i as int]));
                    spans[i].flatten(out);
                    assert(out@ + flat_from(spans@, i + 1) =~= before + flat_from(spans@, i as int));
                    i += 1;
                }
                assert(out@ + flat_from(spans@, i as int) =~= out@);
            },
        }
    }
}

/// The nodes from position `from` on hold those from a later position `mid`
/// on as their tail.
pub proof fn lemma_flat_from_suffix(spans: Seq<NodeSpan>, from: int, mid: int)
    requires
        0 <= from <= mid <= spans.len(),
    ensures
        flat_from(spans, mid).len() <= flat_from(spans, from).len(),
        mid < spans.len() ==> flat_from(spans, mid).len() == spans[mid].flat().len() + flat_from(
            spans,
            mid + 1,
        ).len(),
        mid < spans.len() ==> spans[mid].flat().len() <= flat_from(spans, from).len(),
    decreases mid - from,
{
    if from < mid {
        lemma_flat_from_suffix(spans, from + 1, mid);
    }
}

} // verus!
