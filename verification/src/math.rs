//! Numbers, points and vectors.
//!
//! The library computes with numbers of a type that its user chooses, through
//! the operations of `Scalar`. Of the comparisons and of the basic
//! operations one thing is taken for granted: that what they return depends
//! on their operands alone. Each has a name for its result, by which the
//! contracts say which number, point or decision they speak of. Nothing is
//! assumed of the values, and nothing at all of `sin`, `cos` and `log2`,
//! whose results may differ from one call to the next.

use vstd::prelude::*;

verus! {

/// The arithmetic that the library computes with.
pub trait Scalar: Copy {
    /// What `ratio` returns.
    spec fn ratio_of(num: i32, den: i32) -> Self;

    /// What `plus` returns.
    spec fn sum(self, rhs: Self) -> Self;

    /// What `minus` returns.
    spec fn difference(self, rhs: Self) -> Self;

    /// What `times` returns.
    spec fn product(self, rhs: Self) -> Self;

    /// What `over` returns.
    spec fn quotient(self, rhs: Self) -> Self;

    /// What `negated` returns.
    spec fn opposite(self) -> Self;

    /// What `abs` returns.
    spec fn magnitude(self) -> Self;

    /// What `sqrt` returns.
    spec fn root(self) -> Self;

    /// What `less` returns.
    spec fn is_less(self, rhs: Self) -> bool;

    /// What `less_eq` returns.
    spec fn is_less_eq(self, rhs: Self) -> bool;

    /// What `same` returns.
    spec fn is_same(self, rhs: Self) -> bool;

    /// What `pi` returns.
    spec fn circle_ratio() -> Self;

    /// What `min` returns.
    spec fn lesser(self, rhs: Self) -> Self;

    /// What `ceil` returns.
    spec fn ceiling(self) -> Self;

    /// What `fast_atan2` returns.
    spec fn angle(self, x: Self) -> Self;

    /// What `to_u32` returns.
    spec fn whole(self) -> u32;

    /// What `from_u32` returns.
    spec fn of_whole(n: u32) -> Self;

    /// The number `num / den`.
    fn ratio(num: i32, den: i32) -> (r: Self)
        ensures
            r == Self::ratio_of(num, den),
    ;

    /// The ratio of a circle's circumference to its diameter.
    fn pi() -> (r: Self)
        ensures
            r == Self::circle_ratio(),
    ;

    fn plus(self, rhs: Self) -> (r: Self)
        ensures
            r == self.sum(rhs),
    ;

    fn minus(self, rhs: Self) -> (r: Self)
        ensures
            r == self.difference(rhs),
    ;

    fn times(self, rhs: Self) -> (r: Self)
        ensures
            r == self.product(rhs),
    ;

    fn over(self, rhs: Self) -> (r: Self)
        ensures
            r == self.quotient(rhs),
    ;

    fn negated(self) -> (r: Self)
        ensures
            r == self.opposite(),
    ;

    fn abs(self) -> (r: Self)
        ensures
            r == self.magnitude(),
    ;

    fn sqrt(self) -> (r: Self)
        ensures
            r == self.root(),
    ;

    /// The least whole number that is not below `self`.
    fn ceil(self) -> (r: Self)
        ensures
            r == self.ceiling(),
    ;

    /// The logarithm to base 2.
    fn log2(self) -> Self;

    fn sin(self) -> Self;

    fn cos(self) -> Self;

    /// An approximation of the angle of the vector `(x, y)`, where `self`
    /// is `y`.
    fn fast_atan2(self, x: Self) -> (r: Self)
        ensures
            r == self.angle(x),
    ;

    /// The whole part of `self`, brought into the range of `u32`.
    fn to_u32(self) -> (r: u32)
        ensures
            r == self.whole(),
    ;

    fn from_u32(n: u32) -> (r: Self)
        ensures
            r == Self::of_whole(n),
    ;

    /// The lesser of `self` and `rhs`.
    fn min(self, rhs: Self) -> (r: Self)
        ensures
            r == self.lesser(rhs),
    ;

    /// `self < rhs`.
    fn less(self, rhs: Self) -> (r: bool)
        ensures
            r == self.is_less(rhs),
    ;

    /// `self <= rhs`.
    fn less_eq(self, rhs: Self) -> (r: bool)
        ensures
            r == self.is_less_eq(rhs),
    ;

    /// `self == rhs`.
    fn same(self, rhs: Self) -> (r: bool)
        ensures
            r == self.is_same(rhs),
    ;
}

/// A position in the plane.
#[derive(Clone, Copy, Debug, PartialEq)]
pub struct Point<S> {
    pub x: S,
    pub y: S,
}

/// A displacement in the plane.
#[derive(Clone, Copy, Debug, PartialEq)]
pub struct Vector<S> {
    pub x: S,
    pub y: S,
}

pub fn point<S: Scalar>(x: S, y: S) -> (p: Point<S>)
    ensures
        p == (Point { x, y }),
{
    Point { x, y }
}

pub fn vector<S: Scalar>(x: S, y: S) -> (v: Vector<S>)
    ensures
        v == (Vector { x, y }),
{
    Vector { x, y }
}

/// The points of a flattened curve, each with its parameter on the curve,
/// as contracts speak of them.
pub type FlatCurve<S> = Seq<(Point<S>, S)>;

/// Flattening of curves: the points of a line of segments that stays within
/// `tolerance` of the curve. The start of the curve is not among them, its
/// end is the last of them.
pub trait Flatten: Scalar {
    /// What `flatten_quadratic` returns.
    spec fn quadratic_points(
        from: Point<Self>,
        ctrl: Point<Self>,
        to: Point<Self>,
        tolerance: Self,
    ) -> FlatCurve<Self>;

    /// What `flatten_cubic` returns.
    spec fn cubic_points(
        from: Point<Self>,
        ctrl1: Point<Self>,
        ctrl2: Point<Self>,
        to: Point<Self>,
        tolerance: Self,
    ) -> FlatCurve<Self>;

    /// The points that stand for the quadratic curve from `from` to `to`,
    /// each with its parameter on the curve.
    fn flatten_quadratic(
        from: Point<Self>,
        ctrl: Point<Self>,
        to: Point<Self>,
        tolerance: Self,
    ) -> (r: Vec<(Point<Self>, Self)>)
        ensures
            r@ == Self::quadratic_points(from, ctrl, to, tolerance),
    ;

    /// The points that stand for the cubic curve from `from` to `to`, each
    /// with its parameter on the curve.
    fn flatten_cubic(
        from: Point<Self>,
        ctrl1: Point<Self>,
        ctrl2: Point<Self>,
        to: Point<Self>,
        tolerance: Self,
    ) -> (r: Vec<(Point<Self>, Self)>)
        ensures
            r@ == Self::cubic_points(from, ctrl1, ctrl2, to, tolerance),
    ;

    /// The points that stand for the arc of an ellipse around `center` that
    /// starts at `from` and sweeps `sweep_angle`. They are found by sines
    /// and cosines, and have no name.
    fn flatten_arc(
        from: Point<Self>,
        center: Point<Self>,
        radii: Vector<Self>,
        sweep_angle: Self,
        x_rotation: Self,
        tolerance: Self,
    ) -> Vec<Point<Self>>;
}

/// The vector from `b` to `a`.
pub open spec fn point_minus<S: Scalar>(a: Point<S>, b: Point<S>) -> Vector<S> {
    Vector { x: a.x.difference(b.x), y: a.y.difference(b.y) }
}

/// The point at `v` from `p`.
pub open spec fn point_moved<S: Scalar>(p: Point<S>, v: Vector<S>) -> Point<S> {
    Point { x: p.x.sum(v.x), y: p.y.sum(v.y) }
}

/// The arithmetic finds both coordinates of `a` and `b` the same.
pub open spec fn points_same<S: Scalar>(a: Point<S>, b: Point<S>) -> bool {
    a.x.is_same(b.x) && a.y.is_same(b.y)
}

pub open spec fn vec_plus<S: Scalar>(a: Vector<S>, b: Vector<S>) -> Vector<S> {
    Vector { x: a.x.sum(b.x), y: a.y.sum(b.y) }
}

pub open spec fn vec_scaled<S: Scalar>(v: Vector<S>, factor: S) -> Vector<S> {
    Vector { x: v.x.product(factor), y: v.y.product(factor) }
}

pub open spec fn vec_divided<S: Scalar>(v: Vector<S>, divisor: S) -> Vector<S> {
    Vector { x: v.x.quotient(divisor), y: v.y.quotient(divisor) }
}

pub open spec fn vec_negated<S: Scalar>(v: Vector<S>) -> Vector<S> {
    Vector { x: v.x.opposite(), y: v.y.opposite() }
}

pub open spec fn vec_dot<S: Scalar>(a: Vector<S>, b: Vector<S>) -> S {
    a.x.product(b.x).sum(a.y.product(b.y))
}

pub open spec fn vec_cross<S: Scalar>(a: Vector<S>, b: Vector<S>) -> S {
    a.x.product(b.y).difference(a.y.product(b.x))
}

pub open spec fn vec_square_length<S: Scalar>(v: Vector<S>) -> S {
    v.x.product(v.x).sum(v.y.product(v.y))
}

pub open spec fn vec_length<S: Scalar>(v: Vector<S>) -> S {
    vec_square_length(v).root()
}

/// `v`, divided by its length.
pub open spec fn vec_normalized<S: Scalar>(v: Vector<S>) -> Vector<S> {
    vec_divided(v, vec_length(v))
}

/// `v`, turned a quarter to the left.
pub open spec fn vec_tangent<S: Scalar>(v: Vector<S>) -> Vector<S> {
    Vector { x: v.y.opposite(), y: v.x }
}

/// The point between `a` and `b` at parameter `t`.
pub open spec fn point_lerp<S: Scalar>(a: Point<S>, b: Point<S>, t: S) -> Point<S> {
    let one_t = S::ratio_of(1, 1).difference(t);
    Point {
        x: a.x.product(one_t).sum(b.x.product(t)),
        y: a.y.product(one_t).sum(b.y.product(t)),
    }
}

/// The x of the two ends of a segment, the one that the arithmetic finds
/// less first.
pub open spec fn range_x<S: Scalar>(from: Point<S>, to: Point<S>) -> (S, S) {
    if to.x.is_less(from.x) {
        (to.x, from.x)
    } else {
        (from.x, to.x)
    }
}

/// The point that the segment from `a_from` to `a_to` shares with the
/// segment from `b_from` to `b_to`, where the arithmetic finds that they
/// cross: none where their ranges of x lie apart, where they share an
/// end, or where they are parallel; else the point of the first at the
/// parameter at which the second cuts it, if that parameter and the one on
/// the second both lie between 0 and 1.
pub open spec fn segment_crossing<S: Scalar>(
    a_from: Point<S>,
    a_to: Point<S>,
    b_from: Point<S>,
    b_to: Point<S>,
) -> Option<Point<S>> {
    let zero = S::ratio_of(0, 1);
    let a = range_x(a_from, a_to);
    let b = range_x(b_from, b_to);
    let v1 = point_minus(a_to, a_from);
    let v2 = point_minus(b_to, b_from);
    let c = vec_cross(v1, v2);
    let sign = if c.is_less(zero) {
        S::ratio_of(-1i32, 1)
    } else {
        S::ratio_of(1, 1)
    };
    let v3 = point_minus(b_from, a_from);
    let t = vec_cross(v3, v2).product(sign);
    let u = vec_cross(v3, v1).product(sign);
    if b.1.is_less(a.0) || a.1.is_less(b.0) {
        None
    } else if points_same(a_to, b_to) || points_same(a_from, b_from) || points_same(a_from, b_to)
        || points_same(a_to, b_from) {
        None
    } else if c.is_same(zero) {
        None
    } else if t.is_less(zero) || c.magnitude().is_less(t) || u.is_less(zero)
        || c.magnitude().is_less(u) {
        None
    } else {
        Some(point_lerp(a_from, a_to, t.quotient(c.magnitude())))
    }
}

/// The angle from `v1` to `v2`, between 0 and a full turn.
pub open spec fn angle_between<S: Scalar>(v1: Vector<S>, v2: Vector<S>) -> S {
    let angle = v2.y.angle(v2.x).difference(v1.y.angle(v1.x));
    if angle.is_less(S::ratio_of(0, 1)) {
        angle.sum(S::ratio_of(2, 1).product(S::circle_ratio()))
    } else {
        angle
    }
}

/// The angle by which a path turns from the tangent `prev_tangent` to the
/// tangent `next_tangent`, between minus a half turn and a half turn.
pub open spec fn join_angle<S: Scalar>(prev_tangent: Vector<S>, next_tangent: Vector<S>) -> S {
    let angle = prev_tangent.y.angle(prev_tangent.x).difference(
        next_tangent.y.angle(next_tangent.x),
    );
    let two_pi = S::ratio_of(2, 1).product(S::circle_ratio());
    if S::circle_ratio().is_less(angle) {
        angle.difference(two_pi)
    } else if angle.is_less(S::circle_ratio().opposite()) {
        angle.sum(two_pi)
    } else {
        angle
    }
}

/// The length of the segments that stand for a circle of the given radius
/// within `tolerance`.
pub open spec fn flattening_step<S: Scalar>(radius: S, tolerance: S) -> S {
    let tolerance = tolerance.lesser(radius);
    let two = S::ratio_of(2, 1);
    two.product(
        two.product(tolerance).product(radius).difference(tolerance.product(tolerance)).root(),
    )
}

/// The greatest angle that one segment of an arc of the given radius may
/// span within `tolerance`.
pub open spec fn max_segment_angle<S: Scalar>(radius: S, tolerance: S) -> S {
    let t = radius.difference(tolerance);
    radius.product(radius).difference(t.product(t)).product(S::ratio_of(4, 1)).root().quotient(
        radius,
    )
}

/// The normal of a join between an edge along `v1` and an edge along `v2`.
pub open spec fn join_normal<S: Scalar>(v1: Vector<S>, v2: Vector<S>) -> Vector<S> {
    let epsilon = S::ratio_of(1, 10000);
    let n1 = vec_tangent(v1);
    let v12 = vec_plus(v1, v2);
    let n = vec_tangent(vec_normalized(v12));
    let inv_len = vec_dot(n, n1);
    if vec_square_length(v12).is_less(epsilon) {
        n1
    } else if inv_len.magnitude().is_less(epsilon) {
        n1
    } else {
        vec_divided(n, inv_len)
    }
}

impl<S: Scalar> Point<S> {
    /// The vector from `other` to `self`.
    pub(crate) fn minus(self, other: Point<S>) -> (v: Vector<S>)
        ensures
            v == point_minus(self, other),
    {
        Vector { x: self.x.minus(other.x), y: self.y.minus(other.y) }
    }

    /// The point at `v` from `self`.
    pub(crate) fn moved(self, v: Vector<S>) -> (p: Point<S>)
        ensures
            p == point_moved(self, v),
    {
        Point { x: self.x.plus(v.x), y: self.y.plus(v.y) }
    }

    pub(crate) fn same(self, other: Point<S>) -> (r: bool)
        ensures
            r == points_same(self, other),
    {
        self.x.same(other.x) && self.y.same(other.y)
    }

    /// The vector from the origin to `self`.
    pub(crate) fn to_vector(self) -> (v: Vector<S>)
        ensures
            v == (Vector { x: self.x, y: self.y }),
    {
        Vector { x: self.x, y: self.y }
    }

    /// The point between `self` and `other` at parameter `t`.
    pub(crate) fn lerp(self, other: Point<S>, t: S) -> (p: Point<S>)
        ensures
            p == point_lerp(self, other, t),
    {
        let one_t = S::ratio(1, 1).minus(t);
        Point {
            x: self.x.times(one_t).plus(other.x.times(t)),
            y: self.y.times(one_t).plus(other.y.times(t)),
        }
    }
}

impl<S: Scalar> Vector<S> {
    pub(crate) fn plus(self, other: Vector<S>) -> (v: Vector<S>)
        ensures
            v == vec_plus(self, other),
    {
        Vector { x: self.x.plus(other.x), y: self.y.plus(other.y) }
    }

    pub(crate) fn scaled(self, factor: S) -> (v: Vector<S>)
        ensures
            v == vec_scaled(self, factor),
    {
        Vector { x: self.x.times(factor), y: self.y.times(factor) }
    }

    pub(crate) fn divided(self, divisor: S) -> (v: Vector<S>)
        ensures
            v == vec_divided(self, divisor),
    {
        Vector { x: self.x.over(divisor), y: self.y.over(divisor) }
    }

    pub(crate) fn negated(self) -> (v: Vector<S>)
        ensures
            v == vec_negated(self),
    {
        Vector { x: self.x.negated(), y: self.y.negated() }
    }

    pub(crate) fn dot(self, other: Vector<S>) -> (r: S)
        ensures
            r == vec_dot(self, other),
    {
        self.x.times(other.x).plus(self.y.times(other.y))
    }

    pub(crate) fn cross(self, other: Vector<S>) -> (r: S)
        ensures
            r == vec_cross(self, other),
    {
        self.x.times(other.y).minus(self.y.times(other.x))
    }

    pub(crate) fn square_length(self) -> (r: S)
        ensures
            r == vec_square_length(self),
    {
        self.x.times(self.x).plus(self.y.times(self.y))
    }

    pub(crate) fn length(self) -> (r: S)
        ensures
            r == vec_length(self),
    {
        self.square_length().sqrt()
    }

    pub(crate) fn normalized(self) -> (v: Vector<S>)
        ensures
            v == vec_normalized(self),
    {
        self.divided(self.length())
    }

    /// The point at `self` from the origin.
    pub(crate) fn to_point(self) -> (p: Point<S>)
        ensures
            p == (Point { x: self.x, y: self.y }),
    {
        Point { x: self.x, y: self.y }
    }

    /// `self`, turned a quarter to the left.
    pub(crate) fn tangent(self) -> (v: Vector<S>)
        ensures
            v == vec_tangent(self),
    {
        Vector { x: self.y.negated(), y: self.x }
    }
}

/// The unit vector a quarter to the left of `v`.
pub(crate) fn normalized_tangent<S: Scalar>(v: Vector<S>) -> (r: Vector<S>)
    ensures
        r == vec_normalized(vec_tangent(v)),
{
    v.tangent().normalized()
}

/// The angle from `v1` to `v2`, between 0 and a full turn.
pub(crate) fn directed_angle<S: Scalar>(v1: Vector<S>, v2: Vector<S>) -> (r: S)
    ensures
        r == angle_between(v1, v2),
{
    let angle = v2.y.fast_atan2(v2.x).minus(v1.y.fast_atan2(v1.x));
    if angle.less(S::ratio(0, 1)) {
        angle.plus(S::ratio(2, 1).times(S::pi()))
    } else {
        angle
    }
}

/// The normal of a join between an edge along `v1` and an edge along `v2`,
/// both of unit length: it points along the bisector to the left, and is
/// as long as the miter of a stroke of width 2.
pub(crate) fn compute_normal<S: Scalar>(v1: Vector<S>, v2: Vector<S>) -> (r: Vector<S>)
    ensures
        r == join_normal(v1, v2),
{
    let epsilon = S::ratio(1, 10000);
    let n1 = v1.tangent();
    let v12 = v1.plus(v2);
    if v12.square_length().less(epsilon) {
        return n1;
    }
    let n = v12.normalized().tangent();
    let inv_len = n.dot(n1);
    if inv_len.abs().less(epsilon) {
        return n1;
    }
    n.divided(inv_len)
}

/// The length of the segments that stand for a circle of the given radius
/// within `tolerance`.
pub(crate) fn circle_flattening_step<S: Scalar>(radius: S, tolerance: S) -> (r: S)
    ensures
        r == flattening_step(radius, tolerance),
{
    let tolerance = tolerance.min(radius);
    let two = S::ratio(2, 1);
    two.times(two.times(tolerance).times(radius).minus(tolerance.times(tolerance)).sqrt())
}

/// The greatest angle that one segment of an arc of the given radius may
/// span within `tolerance`.
pub(crate) fn compute_max_radius_segment_angle<S: Scalar>(radius: S, tolerance: S) -> (r: S)
    ensures
        r == max_segment_angle(radius, tolerance),
{
    let t = radius.minus(tolerance);
    radius.times(radius).minus(t.times(t)).times(S::ratio(4, 1)).sqrt().over(radius)
}

/// The angle between two tangents, between minus a half turn and a half
/// turn.
pub(crate) fn get_join_angle<S: Scalar>(prev_tangent: Vector<S>, next_tangent: Vector<S>) -> (r: S)
    ensures
        r == join_angle(prev_tangent, next_tangent),
{
    let join_angle = prev_tangent.y.fast_atan2(prev_tangent.x).minus(
        next_tangent.y.fast_atan2(next_tangent.x),
    );
    let two_pi = S::ratio(2, 1).times(S::pi());
    if S::pi().less(join_angle) {
        join_angle.minus(two_pi)
    } else if join_angle.less(S::pi().negated()) {
        join_angle.plus(two_pi)
    } else {
        join_angle
    }
}

/// A line segment.
pub(crate) struct LineSegment<S> {
    pub(crate) from: Point<S>,
    pub(crate) to: Point<S>,
}

impl<S: Scalar> LineSegment<S> {
    /// The x of the two ends, the one that the arithmetic finds less
    /// first.
    fn bounding_range_x(&self) -> (r: (S, S))
        ensures
            r == range_x(self.from, self.to),
    {
        if self.to.x.less(self.from.x) {
            (self.to.x, self.from.x)
        } else {
            (self.from.x, self.to.x)
        }
    }

    /// The point that the two segments share, if they cross.
    pub(crate) fn intersection(&self, other: &LineSegment<S>) -> (r: Option<Point<S>>)
        ensures
            r == segment_crossing(self.from, self.to, other.from, other.to),
    {
        let zero = S::ratio(0, 1);
        let (min1, max1) = self.bounding_range_x();
        let (min2, max2) = other.bounding_range_x();
        if max2.less(min1) || max1.less(min2) {
            return None;
        }
        if self.to.same(other.to) || self.from.same(other.from) || self.from.same(other.to)
            || self.to.same(other.from) {
            return None;
        }
        let v1 = self.to.minus(self.from);
        let v2 = other.to.minus(other.from);
        let v1_cross_v2 = v1.cross(v2);
        if v1_cross_v2.same(zero) {
            return None;
        }
        let sign = if v1_cross_v2.less(zero) {
            S::ratio(-1, 1)
        } else {
            S::ratio(1, 1)
        };
        let abs_v1_cross_v2 = v1_cross_v2.abs();
        let v3 = other.from.minus(self.from);
        let t = v3.cross(v2).times(sign);
        let u = v3.cross(v1).times(sign);
        if t.less(zero) || abs_v1_cross_v2.less(t) || u.less(zero) || abs_v1_cross_v2.less(u) {
            return None;
        }
        Some(self.from.lerp(self.to, t.over(abs_v1_cross_v2)))
    }
}

} // verus!
