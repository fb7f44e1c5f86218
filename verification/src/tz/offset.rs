//! What the resolver answers with.
use vstd::prelude::*;

verus! {

/// An offset from UTC with what a zone says of it.
#[derive(Clone, Copy, Debug, PartialEq, Eq)]
pub struct OffsetInfo<'a> {
    /// Seconds ahead of UTC.
    pub offset: i64,
    /// Whether this is daylight saving time.
    pub is_dst: bool,
    /// The zone's abbreviation for this offset.
    pub abbreviation: &'a str,
}

/// An `OffsetInfo` as contracts speak of it.
pub struct OffsetView {
    pub offset: int,
    pub is_dst: bool,
    pub abbreviation: Seq<char>,
}

impl<'a> View for OffsetInfo<'a> {
    type V = OffsetView;

    open spec fn view(&self) -> OffsetView {
        OffsetView {
            offset: self.offset as int,
            is_dst: self.is_dst,
            abbreviation: self.abbreviation@,
        }
    }
}

/// The offsets that a wall-clock time may stand for.
#[derive(Clone, Copy, Debug, PartialEq, Eq)]
pub enum AmbiguousOffset<'a> {
    /// The wall-clock time occurs once, under this offset.
    Unambiguous { offset: OffsetInfo<'a> },
    /// The wall-clock time never occurs: no offset applies.
    Gap,
    /// The wall-clock time occurs twice: first under the offset before the
    /// transition, then under the offset after it.
    Fold { before: OffsetInfo<'a>, after: OffsetInfo<'a> },
}

/// An `AmbiguousOffset` as contracts speak of it.
pub enum AmbiguousView {
    Unambiguous { offset: OffsetView },
    Gap,
    Fold { before: OffsetView, after: OffsetView },
}

impl<'a> View for AmbiguousOffset<'a> {
    type V = AmbiguousView;

    open spec fn view(&self) -> AmbiguousView {
        match *self {
            AmbiguousOffset::Unambiguous { offset } => AmbiguousView::Unambiguous {
                offset: offset@,
            },
            AmbiguousOffset::Gap => AmbiguousView::Gap,
            AmbiguousOffset::Fold { before, after } => AmbiguousView::Fold {
                before: before@,
                after: after@,
            },
        }
    }
}

impl<'a> AmbiguousOffset<'a> {
    /// How many offsets the wall-clock time may stand for: none in a gap,
    /// two in a fold, one elsewhere.
    pub fn count(&self) -> (n: usize)
        ensures
            n == match self@ {
                AmbiguousView::Unambiguous { .. } => 1usize,
                AmbiguousView::Gap => 0usize,
                AmbiguousView::Fold { .. } => 2usize,
            },
    {
        match self {
            AmbiguousOffset::Unambiguous { .. } => 1,
            AmbiguousOffset::Gap => 0,
            AmbiguousOffset::Fold { .. } => 2,
        }
    }
}

} // verus!
