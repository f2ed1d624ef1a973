//! The query language's value domain: a single scalar-or-range, and merged
//! collections of them. A `Range` with `end == None` is a degenerate range,
//! a single scalar value; with `end == Some(e)` it is the inclusive range
//! `start..=e`, and well-formed parses guarantee `start < e`.

use vstd::prelude::*;

verus! {

/// One query element: a scalar (`end == None`) or an inclusive range.
#[derive(Debug, Clone, Copy, PartialEq, Eq, Hash)]
pub struct Range<T> {
    pub start: T,
    pub end: Option<T>,
}

impl<T> Range<T> {
    /// The lower bound (or the scalar value itself).
    pub fn get_start(&self) -> (r: &T)
        ensures
            r == &self.start,
    {
        &self.start
    }

    /// The upper bound, when this is a proper range.
    pub fn get_end(&self) -> (r: &Option<T>)
        ensures
            r == &self.end,
    {
        &self.end
    }
}

impl<T: View> View for Range<T> {
    type V = Range<T::V>;

    open spec fn view(&self) -> Range<T::V> {
        Range {
            start: self.start@,
            end: match self.end {
                Option::Some(e) => Option::Some(e@),
                Option::None => Option::None,
            },
        }
    }
}

/// A deduplicated collection of ranges and scalars. Its abstract value is a
/// set: the order and multiplicity of `contents` carry no meaning, and
/// equality is set equality.
#[derive(Debug, Clone)]
pub struct RangeSet<T> {
    pub contents: Vec<Range<T>>,
}

impl<T> RangeSet<T> {
    /// The collected ranges, in an arbitrary order.
    pub fn get_contents(&self) -> (r: &Vec<Range<T>>)
        ensures
            r == &self.contents,
    {
        &self.contents
    }
}

impl<T: View> View for RangeSet<T> {
    type V = Set<Range<T::V>>;

    open spec fn view(&self) -> Set<Range<T::V>> {
        self.contents@.map_values(|r: Range<T>| r@).to_set()
    }
}

/// A parsed query value: one range or scalar, or a set of them.
#[derive(Debug, Clone)]
pub enum RangeOrSet<T> {
    Range(Range<T>),
    Ranges(RangeSet<T>),
}

/// Abstract value of a [`RangeOrSet`].
#[verifier::reject_recursive_types(V)]
pub enum RangeOrSetV<V> {
    RangeV(Range<V>),
    SetV(Set<Range<V>>),
}

impl<T: View> View for RangeOrSet<T> {
    type V = RangeOrSetV<T::V>;

    open spec fn view(&self) -> RangeOrSetV<T::V> {
        match self {
            RangeOrSet::Range(r) => RangeOrSetV::RangeV(r@),
            RangeOrSet::Ranges(s) => RangeOrSetV::SetV(s@),
        }
    }
}

} // verus!
