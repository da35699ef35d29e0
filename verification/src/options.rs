//! The options of a stroke.

use vstd::prelude::*;
use crate::math::Scalar;

verus! {

/// The shape at the two ends of an open sub-path.
#[derive(Clone, Copy, Debug, PartialEq, Eq, Structural, Hash)]
pub enum LineCap {
    /// The stroke ends at the end of the path.
    Butt,
    /// The stroke goes half its width beyond the end of the path.
    Square,
    /// A half disc closes the stroke.
    Round,
}

/// The shape at the corners of a path.
#[derive(Clone, Copy, Debug, PartialEq, Eq, Structural, Hash)]
pub enum LineJoin {
    /// A sharp corner.
    Miter,
    /// A sharp corner, cut off where it would go beyond the miter limit.
    MiterClip,
    /// A round corner.
    Round,
    /// A flat corner.
    Bevel,
}

/// The options of a stroke tessellation.
#[derive(Clone, Copy, Debug, PartialEq)]
pub struct StrokeOptions<S> {
    /// The cap at the start of each open sub-path.
    pub start_cap: LineCap,
    /// The cap at the end of each open sub-path.
    pub end_cap: LineCap,
    pub line_join: LineJoin,
    pub line_width: S,
    /// The greatest length of a miter, in line widths.
    pub miter_limit: S,
    /// The greatest distance allowed between a curve and what stands for
    /// it.
    pub tolerance: S,
    /// Whether the positions of the vertices are moved off the path by
    /// half the line width. Where they are not, every vertex stands on the
    /// path and its normal says where it would go.
    pub apply_line_width: bool,
}

impl<S: Scalar> StrokeOptions<S> {
    /// Butt caps, miter joins, a line width of 1, a miter limit of 4 and a
    /// tolerance of 1/10.
    pub fn default() -> (o: Self)
        ensures
            o.start_cap is Butt,
            o.end_cap is Butt,
            o.line_join is Miter,
            o.apply_line_width,
            o.line_width == S::ratio_of(1, 1),
            o.miter_limit == S::ratio_of(4, 1),
            o.tolerance == S::ratio_of(1, 10),
    {
        StrokeOptions {
            start_cap: LineCap::Butt,
            end_cap: LineCap::Butt,
            line_join: LineJoin::Miter,
            line_width: S::ratio(1, 1),
            miter_limit: S::ratio(4, 1),
            tolerance: S::ratio(1, 10),
            apply_line_width: true,
        }
    }

    /// The default options with the given tolerance.
    pub fn tolerance(tolerance: S) -> (o: Self)
        ensures
            o.start_cap is Butt,
            o.end_cap is Butt,
            o.line_join is Miter,
            o.apply_line_width,
            o.line_width == S::ratio_of(1, 1),
            o.miter_limit == S::ratio_of(4, 1),
            o.tolerance == tolerance,
    {
        let o = Self::default();
        StrokeOptions { tolerance, ..o }
    }

    pub fn with_tolerance(self, tolerance: S) -> (o: Self)
        ensures
            o == (StrokeOptions { tolerance, ..self }),
    {
        StrokeOptions { tolerance, ..self }
    }

    /// Sets the cap of both ends.
    pub fn with_line_cap(self, cap: LineCap) -> (o: Self)
        ensures
            o == (StrokeOptions { start_cap: cap, end_cap: cap, ..self }),
    {
        StrokeOptions { start_cap: cap, end_cap: cap, ..self }
    }

    pub fn with_start_cap(self, cap: LineCap) -> (o: Self)
        ensures
            o == (StrokeOptions { start_cap: cap, ..self }),
    {
        StrokeOptions { start_cap: cap, ..self }
    }

    pub fn with_end_cap(self, cap: LineCap) -> (o: Self)
        ensures
            o == (StrokeOptions { end_cap: cap, ..self }),
    {
        StrokeOptions { end_cap: cap, ..self }
    }

    pub fn with_line_join(self, join: LineJoin) -> (o: Self)
        ensures
            o == (StrokeOptions { line_join: join, ..self }),
    {
        StrokeOptions { line_join: join, ..self }
    }

    pub fn with_line_width(self, width: S) -> (o: Self)
        ensures
            o == (StrokeOptions { line_width: width, ..self }),
    {
        StrokeOptions { line_width: width, ..self }
    }

    pub fn with_miter_limit(self, limit: S) -> (o: Self)
        ensures
            o == (StrokeOptions { miter_limit: limit, ..self }),
    {
        StrokeOptions { miter_limit: limit, ..self }
    }

    pub fn dont_apply_line_width(self) -> (o: Self)
        ensures
            o == (StrokeOptions { apply_line_width: false, ..self }),
    {
        StrokeOptions { apply_line_width: false, ..self }
    }
}

} // verus!
