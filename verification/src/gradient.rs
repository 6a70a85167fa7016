//! A sequence of color stops, evenly spaced.

use vstd::prelude::*;

verus! {

/// The most stops that a gradient can hold.
pub const MAX_STOPS: usize = 8;

/// Struct representing a sequence of color stops, evenly spaced. Up to 8
/// stops are supported.
pub struct ColorGradient<C> {
    colors: Vec<C>,
}

impl<C: Copy> ColorGradient<C> {
    /// The color stops, in order.
    pub closed spec fn stops(&self) -> Seq<C> {
        self.colors@
    }

    /// The invariant of the gradient.
    pub open spec fn wf(&self) -> bool {
        self.stops().len() <= MAX_STOPS
    }

    /// Construct a new color gradient from an array of colors.
    pub fn new(colors: &[C]) -> (gradient: Self)
        requires
            colors@.len() <= MAX_STOPS,
        ensures
            gradient.wf(),
            gradient.stops() == colors@,
    {
        let mut stops: Vec<C> = Vec::new();
        let mut i: usize = 0;
        while i < colors.len()
            invariant
                i <= colors@.len(),
                stops@ == colors@.subrange(0, i as int),
            decreases colors@.len() - i,
        {
            stops.push(colors[i]);
            assert(stops@ =~= colors@.subrange(0, i + 1));
            i += 1;
        }
        assert(colors@.subrange(0, i as int) =~= colors@);
        ColorGradient { colors: stops }
    }

    /// A gradient of one stop.
    pub fn single(color: C) -> (gradient: Self)
        ensures
            gradient.wf(),
            gradient.stops() == seq![color],
    {
        let mut stops: Vec<C> = Vec::new();
        stops.push(color);
        ColorGradient { colors: stops }
    }

    /// Return the first color in the gradient, if any.
    pub fn first(&self) -> (color: Option<C>)
        ensures
            color == if self.stops().len() > 0 {
                Some(self.stops()[0])
            } else {
                None
            },
    {
        if self.colors.len() > 0 {
            Some(self.colors[0])
        } else {
            None
        }
    }

    /// Return the last color in the gradient, if any.
    pub fn last(&self) -> (color: Option<C>)
        ensures
            color == if self.stops().len() > 0 {
                Some(self.stops()[self.stops().len() - 1])
            } else {
                None
            },
    {
        if self.colors.len() > 0 {
            Some(self.colors[self.colors.len() - 1])
        } else {
            None
        }
    }

    /// Return the number of color stops in the gradient.
    pub fn len(&self) -> (n: usize)
        ensures
            n == self.stops().len(),
    {
        self.colors.len()
    }

    /// Check if the gradient is empty.
    pub fn is_empty(&self) -> (empty: bool)
        ensures
            empty == (self.stops().len() == 0),
    {
        self.colors.len() == 0
    }
}

} // verus!
