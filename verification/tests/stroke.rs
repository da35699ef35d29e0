use path_stroke::builder::PathCommandsBuilder;
use path_stroke::events::PathEvent;
use path_stroke::generic::GenericPath;
use path_stroke::geometry_builder::{
    Count, GeometryBuilder, GeometryBuilderError, Order, Side, StrokeAttributes,
    StrokeGeometryBuilder, TessellationError, VertexId, VertexSource,
};
use path_stroke::ids::{CtrlPointId, EndpointId};
use path_stroke::math::{FlatCurve, Flatten, Point, Scalar, Vector};
use path_stroke::options::{LineCap, LineJoin, StrokeOptions};
use path_stroke::record::Calls;
use path_stroke::position::AttributeStore;
use path_stroke::stroke::StrokeBuilder;
use path_stroke::tessellator::StrokeTessellator;

#[derive(Clone, Copy, Debug, PartialEq, PartialOrd)]
struct F(f32);

impl Scalar for F {
    fn ratio_of(num: i32, den: i32) -> Self {
        Self::ratio(num, den)
    }
    fn sum(self, rhs: Self) -> Self {
        self.plus(rhs)
    }
    fn difference(self, rhs: Self) -> Self {
        self.minus(rhs)
    }
    fn product(self, rhs: Self) -> Self {
        self.times(rhs)
    }
    fn quotient(self, rhs: Self) -> Self {
        self.over(rhs)
    }
    fn opposite(self) -> Self {
        self.negated()
    }
    fn magnitude(self) -> Self {
        self.abs()
    }
    fn root(self) -> Self {
        self.sqrt()
    }
    fn is_less(self, rhs: Self) -> bool {
        self.less(rhs)
    }
    fn is_less_eq(self, rhs: Self) -> bool {
        self.less_eq(rhs)
    }
    fn is_same(self, rhs: Self) -> bool {
        self.same(rhs)
    }
    fn circle_ratio() -> Self {
        Self::pi()
    }
    fn lesser(self, rhs: Self) -> Self {
        self.min(rhs)
    }
    fn ceiling(self) -> Self {
        self.ceil()
    }
    fn angle(self, x: Self) -> Self {
        self.fast_atan2(x)
    }
    fn whole(self) -> u32 {
        self.to_u32()
    }
    fn of_whole(n: u32) -> Self {
        Self::from_u32(n)
    }
    fn ratio(num: i32, den: i32) -> Self {
        F(num as f32 / den as f32)
    }
    fn pi() -> Self {
        F(std::f32::consts::PI)
    }
    fn plus(self, rhs: Self) -> Self {
        F(self.0 + rhs.0)
    }
    fn minus(self, rhs: Self) -> Self {
        F(self.0 - rhs.0)
    }
    fn times(self, rhs: Self) -> Self {
        F(self.0 * rhs.0)
    }
    fn over(self, rhs: Self) -> Self {
        F(self.0 / rhs.0)
    }
    fn negated(self) -> Self {
        F(-self.0)
    }
    fn abs(self) -> Self {
        F(self.0.abs())
    }
    fn sqrt(self) -> Self {
        F(self.0.sqrt())
    }
    fn ceil(self) -> Self {
        F(self.0.ceil())
    }
    fn log2(self) -> Self {
        F(self.0.log2())
    }
    fn sin(self) -> Self {
        F(self.0.sin())
    }
    fn cos(self) -> Self {
        F(self.0.cos())
    }
    fn fast_atan2(self, x: Self) -> Self {
        let y = self.0;
        let x = x.0;
        let x_abs = x.abs();
        let y_abs = y.abs();
        let a = x_abs.min(y_abs) / x_abs.max(y_abs);
        let s = a * a;
        let mut result = ((-0.046_496_474_9 * s + 0.159_314_22) * s - 0.327_622_764) * s * a + a;
        if y_abs > x_abs {
            result = std::f32::consts::FRAC_PI_2 - result;
        }
        if x < 0.0 {
            result = std::f32::consts::PI - result;
        }
        if y < 0.0 {
            result = -result;
        }
        F(result)
    }
    fn to_u32(self) -> u32 {
        self.0 as u32
    }
    fn from_u32(n: u32) -> Self {
        F(n as f32)
    }
    fn min(self, rhs: Self) -> Self {
        F(self.0.min(rhs.0))
    }
    fn less(self, rhs: Self) -> bool {
        self.0 < rhs.0
    }
    fn less_eq(self, rhs: Self) -> bool {
        self.0 <= rhs.0
    }
    fn same(self, rhs: Self) -> bool {
        self.0 == rhs.0
    }
}

fn sample_quadratic(from: Point<F>, ctrl: Point<F>, to: Point<F>, t: f32) -> Point<F> {
    let t2 = t * t;
    let one_t = 1.0 - t;
    let one_t2 = one_t * one_t;
    Point {
        x: F(from.x.0 * one_t2 + ctrl.x.0 * 2.0 * one_t * t + to.x.0 * t2),
        y: F(from.y.0 * one_t2 + ctrl.y.0 * 2.0 * one_t * t + to.y.0 * t2),
    }
}

fn sample_cubic(from: Point<F>, c1: Point<F>, c2: Point<F>, to: Point<F>, t: f32) -> Point<F> {
    let t2 = t * t;
    let t3 = t2 * t;
    let one_t = 1.0 - t;
    let one_t2 = one_t * one_t;
    let one_t3 = one_t2 * one_t;
    Point {
        x: F(from.x.0 * one_t3 + c1.x.0 * 3.0 * one_t2 * t + c2.x.0 * 3.0 * one_t * t2 + to.x.0 * t3),
        y: F(from.y.0 * one_t3 + c1.y.0 * 3.0 * one_t2 * t + c2.y.0 * 3.0 * one_t * t2 + to.y.0 * t3),
    }
}

fn segments_for(control_span: f32, tolerance: f32) -> u32 {
    let n = (control_span / (8.0 * tolerance)).sqrt().ceil();
    if n < 1.0 {
        1
    } else {
        n as u32
    }
}

impl Flatten for F {
    fn quadratic_points(_: Point<F>, _: Point<F>, _: Point<F>, _: F) -> FlatCurve<F> {
        unreachable!()
    }
    fn cubic_points(_: Point<F>, _: Point<F>, _: Point<F>, _: Point<F>, _: F) -> FlatCurve<F> {
        unreachable!()
    }
    fn flatten_quadratic(from: Point<F>, ctrl: Point<F>, to: Point<F>, tolerance: F) -> Vec<(Point<F>, F)> {
        let dx = from.x.0 - 2.0 * ctrl.x.0 + to.x.0;
        let dy = from.y.0 - 2.0 * ctrl.y.0 + to.y.0;
        let n = segments_for(2.0 * (dx * dx + dy * dy).sqrt(), tolerance.0);
        let mut points = Vec::new();
        for i in 1..n {
            let t = i as f32 / n as f32;
            points.push((sample_quadratic(from, ctrl, to, t), F(t)));
        }
        points.push((to, F(1.0)));
        points
    }

    fn flatten_cubic(from: Point<F>, ctrl1: Point<F>, ctrl2: Point<F>, to: Point<F>, tolerance: F) -> Vec<(Point<F>, F)> {
        let ax = (from.x.0 - 2.0 * ctrl1.x.0 + ctrl2.x.0).abs().max((ctrl1.x.0 - 2.0 * ctrl2.x.0 + to.x.0).abs());
        let ay = (from.y.0 - 2.0 * ctrl1.y.0 + ctrl2.y.0).abs().max((ctrl1.y.0 - 2.0 * ctrl2.y.0 + to.y.0).abs());
        let n = segments_for(6.0 * (ax * ax + ay * ay).sqrt(), tolerance.0);
        let mut points = Vec::new();
        for i in 1..n {
            let t = i as f32 / n as f32;
            points.push((sample_cubic(from, ctrl1, ctrl2, to, t), F(t)));
        }
        points.push((to, F(1.0)));
        points
    }

    fn flatten_arc(from: Point<F>, center: Point<F>, radii: Vector<F>, sweep_angle: F, x_rotation: F, tolerance: F) -> Vec<Point<F>> {
        let start = (from.y.0 - center.y.0).atan2(from.x.0 - center.x.0) - x_rotation.0;
        let radius = radii.x.0.abs().max(radii.y.0.abs());
        let step = 2.0 * (1.0 - tolerance.0.min(radius) / radius).acos();
        let n = ((sweep_angle.0.abs() / step).ceil() as u32).max(1);
        let (sin_r, cos_r) = x_rotation.0.sin_cos();
        let mut points = Vec::new();
        for i in 1..=n {
            let angle = start + sweep_angle.0 * (i as f32 / n as f32);
            let x = radii.x.0 * angle.cos();
            let y = radii.y.0 * angle.sin();
            points.push(Point {
                x: F(center.x.0 + x * cos_r - y * sin_r),
                y: F(center.y.0 + x * sin_r + y * cos_r),
            });
        }
        points
    }
}

fn point(x: f32, y: f32) -> Point<F> {
    Point { x: F(x), y: F(y) }
}

type Path = GenericPath<Point<F>, Point<F>>;

fn events_of(path: &Path) -> Vec<PathEvent<Point<F>, Point<F>>> {
    let mut events = Vec::new();
    let mut iter = path.events().points();
    while let Some(event) = iter.next() {
        events.push(event);
    }
    events
}

/// A sink that keeps positions and indices, and checks what it is given.
struct TestBuilder {
    vertices: Vec<Point<F>>,
    indices: Vec<u16>,
}

impl GeometryBuilder<F> for TestBuilder {
    fn received(&self) -> Calls<F> {
        unreachable!()
    }
    fn begin_geometry(&mut self) {
        self.vertices.clear();
        self.indices.clear();
    }
    fn end_geometry(&mut self) -> Count {
        Count { vertices: self.vertices.len() as u32, indices: self.indices.len() as u32 }
    }
    fn add_triangle(&mut self, a: VertexId, b: VertexId, c: VertexId) {
        assert!(a != b);
        assert!(a != c);
        assert!(b != c);
        let pa = self.vertices[a.0 as usize];
        let pb = self.vertices[b.0 as usize];
        let pc = self.vertices[c.0 as usize];
        let threshold = -0.035;
        let ux = pa.x.0 - pb.x.0;
        let uy = pa.y.0 - pb.y.0;
        let vx = pc.x.0 - pb.x.0;
        let vy = pc.y.0 - pb.y.0;
        assert!(ux * vy - uy * vx >= threshold);
        self.indices.push(a.0 as u16);
        self.indices.push(b.0 as u16);
        self.indices.push(c.0 as u16);
    }
    fn abort_geometry(&mut self) {
        panic!();
    }
}

impl StrokeGeometryBuilder<F> for TestBuilder {
    fn add_stroke_vertex(&mut self, position: Point<F>, attributes: StrokeAttributes<F>) -> Result<VertexId, GeometryBuilderError> {
        assert!(!position.x.0.is_nan());
        assert!(!position.y.0.is_nan());
        assert!(!attributes.normal.x.0.is_nan());
        assert!(!attributes.normal.y.0.is_nan());
        assert!(attributes.normal.x.0 * attributes.normal.x.0 + attributes.normal.y.0 * attributes.normal.y.0 != 0.0);
        assert!(!attributes.advancement.0.is_nan());
        if self.vertices.len() >= u16::MAX as usize {
            return Err(GeometryBuilderError::TooManyVertices);
        }
        self.vertices.push(position);
        Ok(VertexId(self.vertices.len() as u32 - 1))
    }
}

fn triangles_of(path: &Path, options: &StrokeOptions<F>) -> u32 {
    let mut tess = StrokeTessellator::new();
    let mut sink = TestBuilder { vertices: Vec::new(), indices: Vec::new() };
    let count = tess.tessellate_path(&events_of(path), options, &mut sink).unwrap();
    count.indices / 3
}

fn test_path(path: &Path, options: &StrokeOptions<F>, expected_triangle_count: Option<u32>) {
    let triangles = triangles_of(path, options);
    if let Some(expected) = expected_triangle_count {
        assert_eq!(expected, triangles, "Unexpected number of triangles");
    }
}

#[test]
fn test_square() {
    let mut builder = Path::builder();

    builder.move_to(point(-1.0, 1.0));
    builder.line_to(point(1.0, 1.0));
    builder.line_to(point(1.0, -1.0));
    builder.line_to(point(-1.0, -1.0));
    builder.close();

    let path1 = builder.build();

    let mut builder = Path::builder();

    builder.move_to(point(-1.0, -1.0));
    builder.line_to(point(1.0, -1.0));
    builder.line_to(point(1.0, 1.0));
    builder.line_to(point(-1.0, 1.0));
    builder.close();

    let path2 = builder.build();

    test_path(&path1, &StrokeOptions::default().with_line_join(LineJoin::Miter), Some(8));
    test_path(&path2, &StrokeOptions::default().with_line_join(LineJoin::Miter), Some(8));

    test_path(&path1, &StrokeOptions::default().with_line_join(LineJoin::Bevel), Some(12));
    test_path(&path2, &StrokeOptions::default().with_line_join(LineJoin::Bevel), Some(12));

    test_path(
        &path1,
        &StrokeOptions::default().with_line_join(LineJoin::MiterClip).with_miter_limit(F(1.0)),
        Some(12),
    );
    test_path(
        &path2,
        &StrokeOptions::default().with_line_join(LineJoin::MiterClip).with_miter_limit(F(1.0)),
        Some(12),
    );

    test_path(&path1, &StrokeOptions::tolerance(F(0.001)).with_line_join(LineJoin::Round), None);
    test_path(&path2, &StrokeOptions::tolerance(F(0.001)).with_line_join(LineJoin::Round), None);
}

#[test]
fn test_empty_path() {
    let path = Path::builder().build();
    test_path(&path, &StrokeOptions::default(), Some(0));
}

#[test]
fn test_empty_caps() {
    let mut builder = Path::builder();

    builder.move_to(point(1.0, 0.0));
    builder.move_to(point(2.0, 0.0));
    builder.move_to(point(3.0, 0.0));

    let path = builder.build();

    test_path(&path, &StrokeOptions::default().with_line_cap(LineCap::Butt), Some(0));
    test_path(&path, &StrokeOptions::default().with_line_cap(LineCap::Square), Some(6));
    test_path(&path, &StrokeOptions::default().with_line_cap(LineCap::Round), None);
}

/// A sink that gives out a limited number of vertex ids.
struct Limited {
    max_vertices: u32,
    aborted: bool,
    ended: bool,
}

impl GeometryBuilder<F> for Limited {
    fn received(&self) -> Calls<F> {
        unreachable!()
    }
    fn begin_geometry(&mut self) {}
    fn add_triangle(&mut self, _a: VertexId, _b: VertexId, _c: VertexId) {}
    fn end_geometry(&mut self) -> Count {
        self.ended = true;
        Count { vertices: 0, indices: 0 }
    }
    fn abort_geometry(&mut self) {
        self.aborted = true;
    }
}

impl StrokeGeometryBuilder<F> for Limited {
    fn add_stroke_vertex(&mut self, _position: Point<F>, _: StrokeAttributes<F>) -> Result<VertexId, GeometryBuilderError> {
        if self.max_vertices == 0 {
            return Err(GeometryBuilderError::TooManyVertices);
        }
        self.max_vertices -= 1;
        Ok(VertexId(self.max_vertices))
    }
}

/// A path of many lines and curves, which takes far more than a hundred
/// vertices.
fn long_path() -> Path {
    let mut builder = Path::builder();
    for ring in 0..4 {
        let r = 10.0 + ring as f32 * 5.0;
        builder.move_to(point(r, 0.0));
        for i in 1..24 {
            let a = i as f32 * std::f32::consts::PI / 12.0;
            let radius = if i % 2 == 0 { r } else { r * 0.8 };
            builder.line_to(point(radius * a.cos(), radius * a.sin()));
        }
        builder.close();
        builder.move_to(point(-r, -r));
        builder.cubic_bezier_to(point(-r, r), point(r, r), point(r, -r));
        builder.quadratic_bezier_to(point(0.0, -2.0 * r), point(-r * 0.5, -r));
    }
    builder.build()
}

#[test]
fn test_too_many_vertices() {
    let path = long_path();
    let events = events_of(&path);

    let mut tess = StrokeTessellator::new();
    let options = StrokeOptions::tolerance(F(0.05));

    assert_eq!(
        tess.tessellate_path(&events, &options, &mut Limited { max_vertices: 0, aborted: false, ended: false }),
        Err(TessellationError::TooManyVertices),
    );
    assert_eq!(
        tess.tessellate_path(&events, &options, &mut Limited { max_vertices: 10, aborted: false, ended: false }),
        Err(TessellationError::TooManyVertices),
    );

    assert_eq!(
        tess.tessellate_path(&events, &options, &mut Limited { max_vertices: 100, aborted: false, ended: false }),
        Err(TessellationError::TooManyVertices),
    );
}

struct CheckVertexSources {
    next_vertex: u32,
}

impl GeometryBuilder<F> for CheckVertexSources {
    fn received(&self) -> Calls<F> {
        unreachable!()
    }
    fn begin_geometry(&mut self) {}
    fn end_geometry(&mut self) -> Count {
        Count { vertices: self.next_vertex, indices: 0 }
    }
    fn abort_geometry(&mut self) {}
    fn add_triangle(&mut self, _: VertexId, _: VertexId, _: VertexId) {}
}

fn eq(a: Point<F>, b: Point<F>) -> bool {
    (a.x.0 - b.x.0).abs() < 0.00001 && (a.y.0 - b.y.0).abs() < 0.00001
}

impl StrokeGeometryBuilder<F> for CheckVertexSources {
    fn add_stroke_vertex(&mut self, v: Point<F>, attr: StrokeAttributes<F>) -> Result<VertexId, GeometryBuilderError> {
        let src = attr.source();
        if eq(v, point(0.0, 0.0)) {
            assert_eq!(src, VertexSource::Endpoint { id: EndpointId(0) })
        } else if eq(v, point(1.0, 1.0)) {
            assert_eq!(src, VertexSource::Endpoint { id: EndpointId(1) })
        } else if eq(v, point(0.0, 2.0)) {
            assert_eq!(src, VertexSource::Endpoint { id: EndpointId(2) })
        } else {
            match src {
                VertexSource::Edge { from, to, .. } => {
                    assert_eq!(from, EndpointId(1));
                    assert_eq!(to, EndpointId(2));
                }
                _ => panic!(),
            }
        }

        let id = self.next_vertex;
        self.next_vertex += 1;

        Ok(VertexId(id))
    }
}

#[test]
fn stroke_vertex_source_01() {
    let endpoints: &[Point<F>] = &[point(0.0, 0.0), point(1.0, 1.0), point(0.0, 2.0)];

    let ctrl_points: &[Point<F>] = &[point(1.0, 2.0)];

    let mut cmds = PathCommandsBuilder::new();
    cmds.move_to(EndpointId(0));
    cmds.line_to(EndpointId(1));
    cmds.quadratic_bezier_to(CtrlPointId(0), EndpointId(2));
    cmds.close();

    let cmds = cmds.build();

    let mut tess = StrokeTessellator::new();
    tess.tessellate_path_with_ids(
        &mut cmds.id_events(),
        &(endpoints, ctrl_points),
        None::<&()>,
        &StrokeOptions::default().dont_apply_line_width(),
        &mut CheckVertexSources { next_vertex: 0 },
    )
    .unwrap();
}

/// A sink that records what it is given.
struct Recorder {
    positions: Vec<(f32, f32)>,
    attributes: Vec<StrokeAttributes<F>>,
    triangles: Vec<(u32, u32, u32)>,
    begun: u32,
    ended: u32,
    aborted: u32,
}

impl Recorder {
    fn new() -> Self {
        Recorder { positions: Vec::new(), attributes: Vec::new(), triangles: Vec::new(), begun: 0, ended: 0, aborted: 0 }
    }
}

impl GeometryBuilder<F> for Recorder {
    fn received(&self) -> Calls<F> {
        unreachable!()
    }
    fn begin_geometry(&mut self) {
        self.begun += 1;
    }
    fn end_geometry(&mut self) -> Count {
        self.ended += 1;
        Count { vertices: self.positions.len() as u32, indices: 3 * self.triangles.len() as u32 }
    }
    fn add_triangle(&mut self, a: VertexId, b: VertexId, c: VertexId) {
        self.triangles.push((a.0, b.0, c.0));
    }
    fn abort_geometry(&mut self) {
        self.aborted += 1;
    }
}

impl StrokeGeometryBuilder<F> for Recorder {
    fn add_stroke_vertex(&mut self, position: Point<F>, attributes: StrokeAttributes<F>) -> Result<VertexId, GeometryBuilderError> {
        self.positions.push((position.x.0, position.y.0));
        self.attributes.push(attributes);
        Ok(VertexId(self.positions.len() as u32 - 1))
    }
}

fn single_points() -> Path {
    let mut builder = Path::builder();
    builder.move_to(point(1.0, 0.0));
    builder.move_to(point(2.0, 0.0));
    builder.move_to(point(3.0, 0.0));
    builder.build()
}

fn open_line() -> Path {
    let mut builder = Path::builder();
    builder.move_to(point(0.0, 0.0));
    builder.line_to(point(10.0, 0.0));
    builder.build()
}

fn unit_square() -> Path {
    let mut builder = Path::builder();
    builder.move_to(point(-1.0, 1.0));
    builder.line_to(point(1.0, 1.0));
    builder.line_to(point(1.0, -1.0));
    builder.line_to(point(-1.0, -1.0));
    builder.close();
    builder.build()
}

#[test]
fn empty_path_gives_nothing_whatever_the_options() {
    let path = Path::builder().build();
    let all_options = [
        StrokeOptions::default(),
        StrokeOptions::default().with_line_cap(LineCap::Square),
        StrokeOptions::default().with_line_cap(LineCap::Round).with_line_join(LineJoin::Round),
        StrokeOptions::tolerance(F(0.001)).with_line_width(F(25.0)).with_line_join(LineJoin::Bevel),
        StrokeOptions::default().with_line_join(LineJoin::MiterClip).dont_apply_line_width(),
    ];
    for options in all_options.iter() {
        let mut sink = Recorder::new();
        let mut tess = StrokeTessellator::new();
        let count = tess.tessellate_path(&events_of(&path), options, &mut sink).unwrap();
        assert_eq!(count, Count { vertices: 0, indices: 0 });
        assert_eq!(sink.positions.len(), 0);
        assert_eq!(sink.triangles.len(), 0);
        assert_eq!((sink.begun, sink.ended, sink.aborted), (1, 1, 0));
    }
}

#[test]
fn empty_path_by_ids_gives_nothing() {
    let cmds = PathCommandsBuilder::new().build();
    let endpoints: &[Point<F>] = &[];
    let ctrl_points: &[Point<F>] = &[];
    let mut sink = Recorder::new();
    let mut tess = StrokeTessellator::new();
    let count = tess
        .tessellate_path_with_ids(
            &mut cmds.id_events(),
            &(endpoints, ctrl_points),
            None::<&()>,
            &StrokeOptions::default().with_line_cap(LineCap::Round),
            &mut sink,
        )
        .unwrap();
    assert_eq!(count, Count { vertices: 0, indices: 0 });
    assert_eq!((sink.begun, sink.ended, sink.aborted), (1, 1, 0));
}

#[test]
fn square_caps_of_single_points() {
    let mut sink = Recorder::new();
    let mut tess = StrokeTessellator::new();
    let options = StrokeOptions::default().with_line_cap(LineCap::Square);
    let count = tess.tessellate_path(&events_of(&single_points()), &options, &mut sink).unwrap();
    assert_eq!(count, Count { vertices: 12, indices: 18 });
    assert_eq!(sink.triangles, vec![(0, 1, 2), (0, 2, 3), (4, 5, 6), (4, 6, 7), (8, 9, 10), (8, 10, 11)]);
    // Each corner is half a line width off the point, along each axis.
    assert_eq!(&sink.positions[0..4], &[(1.5, 0.5), (1.5, -0.5), (0.5, -0.5), (0.5, 0.5)]);
    assert_eq!(&sink.positions[8..12], &[(3.5, 0.5), (3.5, -0.5), (2.5, -0.5), (2.5, 0.5)]);
}

#[test]
fn round_caps_of_single_points() {
    // With a radius of 1 and a tolerance of 0.1 a quarter of a circle takes
    // two segments, which is two levels of bisection: each fan has three
    // triangles, each cap seven, each point two caps.
    let options = StrokeOptions::default().with_line_cap(LineCap::Round);
    assert_eq!(triangles_of(&single_points(), &options), 42);
    // A tighter tolerance takes more.
    let fine = StrokeOptions::tolerance(F(0.001)).with_line_cap(LineCap::Round);
    assert!(triangles_of(&single_points(), &fine) > 42);
    // A line of next to no width has no round cap.
    let thin = StrokeOptions::default().with_line_cap(LineCap::Round).with_line_width(F(0.00001));
    assert_eq!(triangles_of(&single_points(), &thin), 0);
}

#[test]
fn caps_of_an_open_line() {
    let line = open_line();
    assert_eq!(triangles_of(&line, &StrokeOptions::default().with_line_cap(LineCap::Butt)), 2);
    assert_eq!(triangles_of(&line, &StrokeOptions::default().with_line_cap(LineCap::Square)), 2);
    assert_eq!(triangles_of(&line, &StrokeOptions::default().with_line_cap(LineCap::Round)), 16);
    assert_eq!(triangles_of(&line, &StrokeOptions::default().with_start_cap(LineCap::Round)), 9);
    assert_eq!(triangles_of(&line, &StrokeOptions::default().with_end_cap(LineCap::Round)), 9);
}

#[test]
fn vertices_of_an_open_line() {
    let mut sink = Recorder::new();
    let mut tess = StrokeTessellator::new();
    let count = tess.tessellate_path(&events_of(&open_line()), &StrokeOptions::default(), &mut sink).unwrap();
    assert_eq!(count, Count { vertices: 4, indices: 6 });
    // The join at the end of the line: the back on the right, the front on the left.
    assert_eq!(sink.positions, vec![(10.0, -0.5), (10.0, 0.5), (0.0, 0.5), (0.0, -0.5)]);
    let sides: Vec<Side> = sink.attributes.iter().map(|a| a.side()).collect();
    assert_eq!(sides, vec![Side::Right, Side::Left, Side::Left, Side::Right]);
    let advancements: Vec<f32> = sink.attributes.iter().map(|a| a.advancement().0).collect();
    assert_eq!(advancements, vec![10.0, 10.0, 0.0, 0.0]);
    assert_eq!(sink.attributes[1].normal(), Vector { x: F(0.0), y: F(1.0) });
    assert_eq!(sink.triangles, vec![(3, 2, 0), (2, 1, 0)]);
}

#[test]
fn square_cap_goes_beyond_the_ends() {
    let mut sink = Recorder::new();
    let mut tess = StrokeTessellator::new();
    let options = StrokeOptions::default().with_line_cap(LineCap::Square);
    tess.tessellate_path(&events_of(&open_line()), &options, &mut sink).unwrap();
    assert_eq!(sink.positions, vec![(10.5, -0.5), (10.5, 0.5), (-0.5, 0.5), (-0.5, -0.5)]);

    let mut sink = Recorder::new();
    let wide = StrokeOptions::default().with_line_cap(LineCap::Square).with_line_width(F(4.0));
    tess.tessellate_path(&events_of(&open_line()), &wide, &mut sink).unwrap();
    assert_eq!(sink.positions, vec![(12.0, -2.0), (12.0, 2.0), (-2.0, 2.0), (-2.0, -2.0)]);
}

#[test]
fn positions_stay_on_the_path_without_line_width() {
    let mut sink = Recorder::new();
    let mut tess = StrokeTessellator::new();
    let options = StrokeOptions::default().with_line_join(LineJoin::Bevel).dont_apply_line_width();
    tess.tessellate_path(&events_of(&unit_square()), &options, &mut sink).unwrap();
    assert_eq!(sink.triangles.len(), 12);
    for position in sink.positions.iter() {
        assert!(position.0.abs() == 1.0 && position.1.abs() == 1.0);
    }
}

#[test]
fn round_joins_of_a_square() {
    // A quarter turn at a radius of 0.5 and a tolerance of 0.001 takes 13
    // segments; the square has four joins and four edges of two triangles.
    let options = StrokeOptions::tolerance(F(0.001)).with_line_join(LineJoin::Round);
    assert_eq!(triangles_of(&unit_square(), &options), 4 * 13 + 4 * 2);
}

#[test]
fn miter_falls_back_to_bevel_beyond_the_limit() {
    let mut builder = Path::builder();
    builder.move_to(point(0.0, 0.0));
    builder.line_to(point(100.0, 0.0));
    builder.line_to(point(0.0, 10.0));
    let path = builder.build();
    // The corner is sharp: a miter is about twenty times the half width.
    let long = StrokeOptions::default().with_miter_limit(F(25.0));
    let short = StrokeOptions::default().with_miter_limit(F(4.0));
    let clipped = StrokeOptions::default().with_miter_limit(F(4.0)).with_line_join(LineJoin::MiterClip);
    let unclipped = StrokeOptions::default().with_miter_limit(F(25.0)).with_line_join(LineJoin::MiterClip);
    assert_eq!(triangles_of(&path, &long), 4);
    assert_eq!(triangles_of(&path, &short), 5);
    assert_eq!(triangles_of(&path, &clipped), 5);
    assert_eq!(triangles_of(&path, &unclipped), 4);
}

#[test]
fn nearly_straight_joins_are_miters() {
    let mut builder = Path::builder();
    builder.move_to(point(0.0, 0.0));
    builder.line_to(point(10.0, 0.0));
    builder.line_to(point(20.0, 1.0));
    let path = builder.build();
    for join in [LineJoin::Miter, LineJoin::MiterClip, LineJoin::Bevel, LineJoin::Round].iter() {
        assert_eq!(triangles_of(&path, &StrokeOptions::default().with_line_join(*join)), 4);
    }
}

#[test]
fn short_edges_split_the_back_of_a_join() {
    // The second edge is shorter than half the line width: the join at its
    // start has two vertices at the back and two at the front, and two
    // triangles between them.
    let mut builder = Path::builder();
    builder.move_to(point(0.0, 0.0));
    builder.line_to(point(10.0, 0.0));
    builder.line_to(point(10.0, 1.0));
    let path = builder.build();
    let wide = StrokeOptions::default().with_line_width(F(8.0));
    let narrow = StrokeOptions::default().with_line_width(F(1.0));
    let mut sink = Recorder::new();
    let mut tess = StrokeTessellator::new();
    let count = tess.tessellate_path(&events_of(&path), &narrow, &mut sink).unwrap();
    assert_eq!(count, Count { vertices: 6, indices: 12 });
    let mut sink = Recorder::new();
    let count = tess.tessellate_path(&events_of(&path), &wide, &mut sink).unwrap();
    assert_eq!(count, Count { vertices: 8, indices: 18 });
}

#[test]
fn triangles_wind_one_way_and_vertices_are_well_formed() {
    // The sink of `test_path` checks every vertex and every triangle.
    let mut builder = Path::builder();
    builder.move_to(point(0.0, 0.0));
    builder.line_to(point(5.0, 0.0));
    builder.line_to(point(5.0, 5.0));
    builder.line_to(point(10.0, 3.0));
    builder.quadratic_bezier_to(point(12.0, 8.0), point(15.0, 3.0));
    builder.cubic_bezier_to(point(17.0, 0.0), point(19.0, 6.0), point(22.0, 3.0));
    builder.move_to(point(0.0, 10.0));
    builder.line_to(point(4.0, 14.0));
    builder.line_to(point(8.0, 10.0));
    builder.close();
    let path = builder.build();
    for join in [LineJoin::Miter, LineJoin::MiterClip, LineJoin::Bevel, LineJoin::Round].iter() {
        for cap in [LineCap::Butt, LineCap::Square, LineCap::Round].iter() {
            let options = StrokeOptions::tolerance(F(0.01)).with_line_join(*join).with_line_cap(*cap);
            test_path(&path, &options, None);
        }
    }
}

#[test]
fn a_failure_aborts_and_a_success_ends() {
    let events = events_of(&long_path());
    let options = StrokeOptions::tolerance(F(0.05));
    let mut tess = StrokeTessellator::new();

    let mut sink = Limited { max_vertices: 5, aborted: false, ended: false };
    assert_eq!(tess.tessellate_path(&events, &options, &mut sink), Err(TessellationError::TooManyVertices));
    assert!(sink.aborted);
    assert!(!sink.ended);

    let mut sink = Limited { max_vertices: 100_000, aborted: false, ended: false };
    assert_eq!(tess.tessellate_path(&events, &options, &mut sink), Ok(Count { vertices: 0, indices: 0 }));
    assert!(!sink.aborted);
    assert!(sink.ended);
}

/// A sink that refuses every vertex after the first few, each time for
/// another reason.
struct Refusing {
    taken: u32,
    refused: u32,
}

impl GeometryBuilder<F> for Refusing {
    fn received(&self) -> Calls<F> {
        unreachable!()
    }
    fn begin_geometry(&mut self) {}
    fn end_geometry(&mut self) -> Count {
        Count { vertices: self.taken, indices: 0 }
    }
    fn add_triangle(&mut self, _: VertexId, _: VertexId, _: VertexId) {}
    fn abort_geometry(&mut self) {}
}

impl StrokeGeometryBuilder<F> for Refusing {
    fn add_stroke_vertex(&mut self, _: Point<F>, _: StrokeAttributes<F>) -> Result<VertexId, GeometryBuilderError> {
        if self.taken < 3 {
            self.taken += 1;
            return Ok(VertexId(self.taken));
        }
        self.refused += 1;
        if self.refused % 2 == 1 {
            Err(GeometryBuilderError::InvalidVertex)
        } else {
            Err(GeometryBuilderError::TooManyVertices)
        }
    }
}

#[test]
fn the_first_failure_is_the_one_reported() {
    let mut tess = StrokeTessellator::new();
    let options = StrokeOptions::default().with_line_cap(LineCap::Square);
    let mut sink = Refusing { taken: 0, refused: 0 };
    assert_eq!(
        tess.tessellate_path(&events_of(&single_points()), &options, &mut sink),
        Err(TessellationError::InvalidVertex)
    );
    // The pass went on to the end of the event in which the sink refused.
    assert_eq!(sink.taken, 3);
    assert_eq!(sink.refused, 1);

    let mut sink = Refusing { taken: 0, refused: 0 };
    assert_eq!(
        tess.tessellate_path(&events_of(&unit_square()), &StrokeOptions::default(), &mut sink),
        Err(TessellationError::InvalidVertex)
    );
    assert!(sink.refused >= 1);
}

#[test]
fn failures_of_the_sink_become_failures_of_the_tessellation() {
    assert_eq!(
        TessellationError::from_builder_error(GeometryBuilderError::InvalidVertex),
        TessellationError::InvalidVertex
    );
    assert_eq!(
        TessellationError::from_builder_error(GeometryBuilderError::TooManyVertices),
        TessellationError::TooManyVertices
    );
}

#[test]
fn an_open_path_by_ids_is_finished_once() {
    let endpoints: &[Point<F>] = &[point(0.0, 0.0), point(10.0, 0.0), point(0.0, 5.0), point(10.0, 5.0)];
    let ctrl_points: &[Point<F>] = &[];

    let mut cmds = PathCommandsBuilder::new();
    cmds.move_to(EndpointId(0));
    cmds.line_to(EndpointId(1));
    cmds.move_to(EndpointId(2));
    cmds.line_to(EndpointId(3));
    let cmds = cmds.build();

    let mut sink = Recorder::new();
    let mut tess = StrokeTessellator::new();
    let count = tess
        .tessellate_path_with_ids(
            &mut cmds.id_events(),
            &(endpoints, ctrl_points),
            None::<&()>,
            &StrokeOptions::default(),
            &mut sink,
        )
        .unwrap();
    assert_eq!(count, Count { vertices: 8, indices: 12 });
    let sources: Vec<VertexSource<F>> = sink.attributes.iter().map(|a| a.source()).collect();
    assert_eq!(
        sources,
        vec![
            VertexSource::Endpoint { id: EndpointId(1) },
            VertexSource::Endpoint { id: EndpointId(1) },
            VertexSource::Endpoint { id: EndpointId(0) },
            VertexSource::Endpoint { id: EndpointId(0) },
            VertexSource::Endpoint { id: EndpointId(3) },
            VertexSource::Endpoint { id: EndpointId(3) },
            VertexSource::Endpoint { id: EndpointId(2) },
            VertexSource::Endpoint { id: EndpointId(2) },
        ]
    );
}

#[test]
fn vertices_within_a_curve_come_from_its_edge() {
    let endpoints: &[Point<F>] = &[point(0.0, 0.0), point(10.0, 0.0)];
    let ctrl_points: &[Point<F>] = &[point(5.0, 10.0)];

    let mut cmds = PathCommandsBuilder::new();
    cmds.move_to(EndpointId(0));
    cmds.quadratic_bezier_to(CtrlPointId(0), EndpointId(1));
    let cmds = cmds.build();

    let mut sink = Recorder::new();
    let mut tess = StrokeTessellator::new();
    tess.tessellate_path_with_ids(
        &mut cmds.id_events(),
        &(endpoints, ctrl_points),
        None::<&()>,
        &StrokeOptions::tolerance(F(0.01)).dont_apply_line_width(),
        &mut sink,
    )
    .unwrap();
    let mut within = 0;
    for (position, attributes) in sink.positions.iter().zip(sink.attributes.iter()) {
        match attributes.source() {
            VertexSource::Endpoint { id } => {
                let at = endpoints[id.0 as usize];
                assert_eq!(*position, (at.x.0, at.y.0));
            }
            VertexSource::Edge { from, to, t } => {
                assert_eq!((from, to), (EndpointId(0), EndpointId(1)));
                assert!(0.0 < t.0 && t.0 < 1.0);
                let on_curve = sample_quadratic(endpoints[0], ctrl_points[0], endpoints[1], t.0);
                assert_eq!(*position, (on_curve.x.0, on_curve.y.0));
                within += 1;
            }
        }
    }
    assert!(within > 0);
}

#[test]
fn a_stroke_built_by_hand() {
    let mut sink = Recorder::new();
    let mut stroke = StrokeBuilder::new(&StrokeOptions::default(), &sink);
    assert_eq!(stroke.failure(), None);
    stroke.move_to(&mut sink, point(0.0, 0.0));
    assert_eq!(stroke.current_position(), point(0.0, 0.0));
    stroke.line_to(&mut sink, point(4.0, 0.0));
    // The first point after the start is only remembered.
    assert_eq!(sink.positions.len(), 0);
    stroke.line_to(&mut sink, point(4.0, 0.0));
    assert_eq!(sink.positions.len(), 0);
    stroke.line_to(&mut sink, point(4.0, 4.0));
    // The join at the first corner: one vertex at the back, one at the front.
    assert_eq!(sink.positions.len(), 2);
    assert_eq!(sink.triangles.len(), 0);
    stroke.line_to(&mut sink, point(0.0, 4.0));
    assert_eq!(sink.positions.len(), 4);
    assert_eq!(sink.triangles.len(), 2);
    stroke.close(&mut sink);
    assert_eq!(stroke.current_position(), point(0.0, 0.0));
    assert_eq!(sink.triangles.len(), 8);
    assert_eq!(stroke.build(&mut sink), Ok(()));
    assert_eq!(sink.triangles.len(), 8);
    // The sink is not told to begin or to end by the stroke itself.
    assert_eq!((sink.begun, sink.ended, sink.aborted), (0, 0, 0));
}

#[test]
fn options_can_change_between_sub_paths() {
    let mut sink = Recorder::new();
    let mut stroke = StrokeBuilder::new(&StrokeOptions::default().with_line_cap(LineCap::Butt), &sink);
    stroke.move_to(&mut sink, point(0.0, 0.0));
    stroke.set_options(&StrokeOptions::default().with_line_cap(LineCap::Square));
    stroke.move_to(&mut sink, point(5.0, 0.0));
    assert_eq!(sink.triangles.len(), 2);
    stroke.build_and_reset();
    assert_eq!(stroke.current_position(), point(0.0, 0.0));
    assert_eq!(stroke.build(&mut sink), Ok(()));
    // The point that was forgotten has no cap.
    assert_eq!(sink.triangles.len(), 2);
}

#[test]
fn an_end_finishes_an_open_sub_path() {
    let mut sink = Recorder::new();
    let mut stroke = StrokeBuilder::new(&StrokeOptions::default(), &sink);
    stroke.path_event(&mut sink, PathEvent::Begin { at: point(0.0, 0.0) });
    stroke.path_event(&mut sink, PathEvent::Line { from: point(0.0, 0.0), to: point(3.0, 0.0) });
    assert_eq!(sink.triangles.len(), 0);
    stroke.path_event(&mut sink, PathEvent::End { last: point(3.0, 0.0), first: point(0.0, 0.0), close: false });
    assert_eq!(sink.triangles.len(), 2);
    stroke.end(&mut sink);
    assert_eq!(stroke.build(&mut sink), Ok(()));
    assert_eq!(sink.triangles.len(), 2);
}

#[test]
fn curves_and_arcs_by_hand() {
    let options = StrokeOptions::tolerance(F(0.01));
    let mut sink = TestBuilder { vertices: Vec::new(), indices: Vec::new() };
    let mut stroke = StrokeBuilder::new(&options, &sink);
    stroke.move_to(&mut sink, point(0.0, 0.0));
    stroke.quadratic_bezier_to(&mut sink, point(5.0, 5.0), point(10.0, 0.0));
    stroke.cubic_bezier_to(&mut sink, point(12.0, -4.0), point(16.0, 4.0), point(20.0, 0.0));
    stroke.arc(&mut sink, point(25.0, 0.0), Vector { x: F(5.0), y: F(5.0) }, F(3.0), F(0.0));
    assert_eq!(stroke.build(&mut sink), Ok(()));
    assert!(sink.indices.len() / 3 > 20);

    let mut refusing = Refusing { taken: 3, refused: 0 };
    let mut stroke = StrokeBuilder::new(&options, &refusing);
    stroke.move_to(&mut refusing, point(0.0, 0.0));
    stroke.quadratic_bezier_to(&mut refusing, point(5.0, 5.0), point(10.0, 0.0));
    assert_eq!(stroke.failure(), Some(TessellationError::InvalidVertex));
    assert_eq!(stroke.build(&mut refusing), Err(TessellationError::InvalidVertex));
}

#[test]
fn default_options() {
    let options: StrokeOptions<F> = StrokeOptions::default();
    assert_eq!(options.start_cap, LineCap::Butt);
    assert_eq!(options.end_cap, LineCap::Butt);
    assert_eq!(options.line_join, LineJoin::Miter);
    assert_eq!(options.line_width, F(1.0));
    assert_eq!(options.miter_limit, F(4.0));
    assert_eq!(options.tolerance, F(0.1));
    assert!(options.apply_line_width);
    let changed = options
        .with_tolerance(F(0.5))
        .with_start_cap(LineCap::Round)
        .with_end_cap(LineCap::Square)
        .with_line_width(F(3.0));
    assert_eq!(changed.tolerance, F(0.5));
    assert_eq!(changed.start_cap, LineCap::Round);
    assert_eq!(changed.end_cap, LineCap::Square);
    assert_eq!(changed.line_width, F(3.0));
    assert_eq!(StrokeOptions::tolerance(F(0.25)).tolerance, F(0.25));
}

#[test]
fn sides_and_orders() {
    assert_eq!(Side::Left.opposite(), Side::Right);
    assert_eq!(Side::Right.opposite(), Side::Left);
    assert!(Side::Left.is_left() && !Side::Left.is_right());
    assert!(Side::Right.is_right() && !Side::Right.is_left());
    assert!(Order::Before.is_before() && !Order::Before.is_after());
    assert!(Order::After.is_after() && !Order::After.is_before());
}

#[test]
fn vertices_of_a_path_by_position_come_from_no_endpoint() {
    let mut sink = Recorder::new();
    let mut tess = StrokeTessellator::new();
    let options = StrokeOptions::default().with_line_cap(LineCap::Square).with_line_join(LineJoin::Bevel);
    tess.tessellate_path(&events_of(&unit_square()), &options, &mut sink).unwrap();
    tess.tessellate_path(&events_of(&single_points()), &options, &mut sink).unwrap();
    assert!(sink.attributes.len() > 12);
    for attributes in sink.attributes.iter() {
        assert_eq!(attributes.source(), VertexSource::Endpoint { id: EndpointId::invalid() });
    }
}

#[test]
fn vertices_of_a_path_by_ids_come_from_its_endpoints() {
    let endpoints: &[Point<F>] = &[point(0.0, 0.0), point(4.0, 0.0), point(4.0, 4.0), point(9.0, 9.0)];
    let ctrl_points: &[Point<F>] = &[point(8.0, 4.0), point(8.0, 0.0)];

    let mut cmds = PathCommandsBuilder::new();
    cmds.move_to(EndpointId(0));
    cmds.line_to(EndpointId(1));
    cmds.cubic_bezier_to(CtrlPointId(0), CtrlPointId(1), EndpointId(2));
    cmds.close();
    cmds.move_to(EndpointId(3));
    let cmds = cmds.build();

    let mut sink = Recorder::new();
    let mut tess = StrokeTessellator::new();
    tess.tessellate_path_with_ids(
        &mut cmds.id_events(),
        &(endpoints, ctrl_points),
        None::<&()>,
        &StrokeOptions::tolerance(F(0.01)).with_line_cap(LineCap::Square),
        &mut sink,
    )
    .unwrap();
    let mut seen = [false; 4];
    for attributes in sink.attributes.iter() {
        match attributes.source() {
            VertexSource::Endpoint { id } => {
                assert!(id.0 < 4);
                seen[id.0 as usize] = true;
            }
            VertexSource::Edge { from, to, t } => {
                assert_eq!((from, to), (EndpointId(1), EndpointId(2)));
                assert!(0.0 < t.0 && t.0 < 1.0);
            }
        }
    }
    assert_eq!(seen, [true, true, true, true]);
}

/// A sink that gives out ids of its own choosing and checks that every
/// triangle is made of ids that it has given out.
struct Scattered {
    given_out: Vec<u32>,
    triangles: u32,
}

impl GeometryBuilder<F> for Scattered {
    fn received(&self) -> Calls<F> {
        unreachable!()
    }
    fn begin_geometry(&mut self) {}
    fn end_geometry(&mut self) -> Count {
        Count { vertices: self.given_out.len() as u32, indices: 3 * self.triangles }
    }
    fn add_triangle(&mut self, a: VertexId, b: VertexId, c: VertexId) {
        assert!(self.given_out.contains(&a.0));
        assert!(self.given_out.contains(&b.0));
        assert!(self.given_out.contains(&c.0));
        self.triangles += 1;
    }
    fn abort_geometry(&mut self) {}
}

impl StrokeGeometryBuilder<F> for Scattered {
    fn add_stroke_vertex(&mut self, _: Point<F>, _: StrokeAttributes<F>) -> Result<VertexId, GeometryBuilderError> {
        let id = 1000 + 7 * self.given_out.len() as u32 % 5000;
        self.given_out.push(id);
        Ok(VertexId(id))
    }
}

#[test]
fn triangles_are_made_of_vertices_handed_over_before() {
    let mut tess = StrokeTessellator::new();
    for join in [LineJoin::Miter, LineJoin::MiterClip, LineJoin::Bevel, LineJoin::Round].iter() {
        for cap in [LineCap::Butt, LineCap::Square, LineCap::Round].iter() {
            let options = StrokeOptions::tolerance(F(0.05)).with_line_join(*join).with_line_cap(*cap);
            let mut sink = Scattered { given_out: Vec::new(), triangles: 0 };
            let count = tess.tessellate_path(&events_of(&long_path()), &options, &mut sink).unwrap();
            assert!(count.indices > 0);
            let mut sink = Scattered { given_out: Vec::new(), triangles: 0 };
            let count = tess.tessellate_path(&events_of(&single_points()), &options, &mut sink).unwrap();
            assert_eq!(count.indices == 0, *cap == LineCap::Butt);
        }
    }
}

#[test]
fn the_unit_store_has_no_attributes() {
    assert_eq!(<() as AttributeStore<F>>::num_attributes(&()), 0);
    assert_eq!(<() as AttributeStore<F>>::interpolated_attributes(&(), EndpointId(3)).len(), 0);
}

/// A sink that refuses every vertex and remembers how it was left.
struct Closed {
    vertices: u32,
    triangles: u32,
    begun: u32,
    ended: u32,
    aborted: u32,
}

impl GeometryBuilder<F> for Closed {
    fn received(&self) -> Calls<F> {
        unreachable!()
    }
    fn begin_geometry(&mut self) {
        self.begun += 1;
    }
    fn end_geometry(&mut self) -> Count {
        self.ended += 1;
        Count { vertices: 0, indices: 0 }
    }
    fn add_triangle(&mut self, _: VertexId, _: VertexId, _: VertexId) {
        self.triangles += 1;
    }
    fn abort_geometry(&mut self) {
        self.aborted += 1;
    }
}

impl StrokeGeometryBuilder<F> for Closed {
    fn add_stroke_vertex(&mut self, _: Point<F>, _: StrokeAttributes<F>) -> Result<VertexId, GeometryBuilderError> {
        self.vertices += 1;
        Err(GeometryBuilderError::TooManyVertices)
    }
}

#[test]
fn a_sink_that_refuses_every_vertex_is_told_to_abort() {
    let endpoints: &[Point<F>] = &[point(0.0, 0.0), point(1.0, 1.0), point(0.0, 2.0)];
    let ctrl_points: &[Point<F>] = &[point(1.0, 2.0)];

    let mut cmds = PathCommandsBuilder::new();
    cmds.move_to(EndpointId(0));
    cmds.line_to(EndpointId(1));
    cmds.quadratic_bezier_to(CtrlPointId(0), EndpointId(2));
    cmds.close();
    let cmds = cmds.build();

    let mut sink = Closed { vertices: 0, triangles: 0, begun: 0, ended: 0, aborted: 0 };
    let mut tess = StrokeTessellator::new();
    let result = tess.tessellate_path_with_ids(
        &mut cmds.id_events(),
        &(endpoints, ctrl_points),
        None::<&()>,
        &StrokeOptions::default(),
        &mut sink,
    );
    assert_eq!(result, Err(TessellationError::TooManyVertices));
    assert_eq!((sink.begun, sink.ended, sink.aborted), (1, 0, 1));
    // The pass goes on to the end of the curve that brought the first
    // join, with two joins of two vertices each, and stops there: the
    // close is not taken in.
    assert_eq!(sink.vertices, 4);
}

#[test]
fn a_repeated_point_is_passed_over() {
    let mut sink = Recorder::new();
    let mut stroke = StrokeBuilder::new(&StrokeOptions::default(), &sink);
    stroke.move_to(&mut sink, point(0.0, 0.0));
    stroke.line_to(&mut sink, point(0.0, 0.0));
    stroke.line_to(&mut sink, point(3.0, 0.0));
    stroke.line_to(&mut sink, point(3.0, 0.0));
    stroke.line_to(&mut sink, point(3.0, 4.0));
    stroke.line_to(&mut sink, point(3.0, 4.0));
    assert_eq!(sink.positions.len(), 2);
    assert_eq!(stroke.current_position(), point(3.0, 4.0));
    assert_eq!(stroke.build(&mut sink), Ok(()));
    assert_eq!(sink.triangles.len(), 4);
    for position in sink.positions.iter() {
        assert!(!position.0.is_nan() && !position.1.is_nan());
    }
}

#[test]
fn a_tessellator_by_default() {
    let mut tess: StrokeTessellator<F> = Default::default();
    let mut sink = Recorder::new();
    let count = tess.tessellate_path(&events_of(&open_line()), &StrokeOptions::default(), &mut sink).unwrap();
    assert_eq!(count, Count { vertices: 4, indices: 6 });
}

#[test]
fn a_split_back_join_has_a_normal_on_every_vertex() {
    let cases: Vec<(f32, Vec<(f32, f32)>)> = vec![
        (8.0, vec![(0.0, 0.0), (10.0, 0.0), (10.0, 1.0)]),
        (8.0, vec![(0.0, 0.0), (10.0, 0.0), (10.0, -1.0)]),
        (8.0, vec![(0.0, 0.0), (1.0, 0.0), (1.0, 10.0)]),
        (4.0, vec![(0.0, 0.0), (10.0, 0.0), (11.0, 1.0), (20.0, 1.0)]),
    ];
    for (width, points) in cases.iter() {
        for join in [LineJoin::Miter, LineJoin::Bevel, LineJoin::Round, LineJoin::MiterClip].iter() {
            let mut builder = Path::builder();
            builder.move_to(point(points[0].0, points[0].1));
            for p in &points[1..] {
                builder.line_to(point(p.0, p.1));
            }
            let path = builder.build();
            let mut sink = Recorder::new();
            let mut tess = StrokeTessellator::new();
            let options = StrokeOptions::default().with_line_width(F(*width)).with_line_join(*join);
            let count = tess.tessellate_path(&events_of(&path), &options, &mut sink).unwrap();
            // The back of the first join is split: it has a vertex more
            // than the two of a join whose back is whole.
            assert!(count.vertices >= 8);
            for (position, attributes) in sink.positions.iter().zip(sink.attributes.iter()) {
                let normal = attributes.normal();
                assert!(position.0.is_finite() && position.1.is_finite());
                assert!(normal.x.0.is_finite() && normal.y.0.is_finite());
                assert!(normal.x.0 * normal.x.0 + normal.y.0 * normal.y.0 != 0.0);
            }
        }
    }
}

#[test]
fn the_vertices_of_a_split_back_stand_beside_their_edges() {
    // A wide line turns left into a short edge. On the back, the left, the
    // edge that arrives ends at its own normal, and so does the short edge
    // start at its own.
    let mut builder = Path::builder();
    builder.move_to(point(0.0, 0.0));
    builder.line_to(point(10.0, 0.0));
    builder.line_to(point(10.0, 1.0));
    let path = builder.build();
    let mut sink = Recorder::new();
    let mut tess = StrokeTessellator::new();
    let options = StrokeOptions::default().with_line_width(F(8.0));
    tess.tessellate_path(&events_of(&path), &options, &mut sink).unwrap();
    assert_eq!(sink.positions[0], (6.0, 0.0));
    assert_eq!(sink.positions[1], (10.0, 4.0));
    assert_eq!(sink.attributes[0].side(), Side::Left);
    assert_eq!(sink.attributes[1].side(), Side::Left);
}

#[test]
fn the_length_grows_by_each_edge_that_a_join_ends() {
    let mut sink = Recorder::new();
    let mut stroke = StrokeBuilder::new(&StrokeOptions::default(), &sink);
    stroke.move_to(&mut sink, point(0.0, 0.0));
    stroke.line_to(&mut sink, point(3.0, 4.0));
    assert_eq!(stroke.length, F(0.0));
    stroke.line_to(&mut sink, point(3.0, 10.0));
    // The join at (3, 4) ends an edge of length 5.
    assert_eq!(stroke.length, F(5.0));
    assert_eq!(sink.attributes[0].advancement(), F(5.0));
    assert_eq!(sink.attributes[1].advancement(), F(5.0));
    stroke.end(&mut sink);
    // The join at the end of the sub-path ends an edge of length 6.
    assert_eq!(stroke.length, F(11.0));
}

/// The stroke after the first corner of a square of side 10 that turns
/// left, with the given join.
fn after_a_left_turn(join: LineJoin, sink: &mut Recorder) -> StrokeBuilder<F> {
    let options = StrokeOptions::default().with_line_width(F(2.0)).with_line_join(join);
    let mut stroke = StrokeBuilder::new(&options, sink);
    stroke.move_to(sink, point(0.0, 0.0));
    stroke.line_to(sink, point(10.0, 0.0));
    stroke.line_to(sink, point(10.0, 10.0));
    stroke
}

#[test]
fn a_miter_leaves_the_normal_of_the_join_behind() {
    let mut sink = Recorder::new();
    let stroke = after_a_left_turn(LineJoin::Miter, &mut sink);
    assert_eq!(stroke.prev_normal, Vector { x: F(-1.0), y: F(1.0) });
    let mut sink = Recorder::new();
    let options = StrokeOptions::default().with_line_join(LineJoin::MiterClip).with_miter_limit(F(1.0));
    let mut stroke = StrokeBuilder::new(&options, &sink);
    stroke.move_to(&mut sink, point(0.0, 0.0));
    stroke.line_to(&mut sink, point(10.0, 0.0));
    stroke.line_to(&mut sink, point(10.0, 10.0));
    assert_eq!(sink.positions.len(), 3);
    assert_eq!(stroke.prev_normal, Vector { x: F(-1.0), y: F(1.0) });
}

#[test]
fn a_bevel_leaves_the_normal_of_the_edge_that_leaves_behind() {
    let mut sink = Recorder::new();
    let stroke = after_a_left_turn(LineJoin::Bevel, &mut sink);
    assert_eq!(stroke.prev_normal, Vector { x: F(-1.0), y: F(0.0) });
}

#[test]
fn a_round_join_leaves_the_normal_of_its_last_vertex_behind() {
    let mut sink = Recorder::new();
    let stroke = after_a_left_turn(LineJoin::Round, &mut sink);
    let last = sink.attributes[sink.attributes.len() - 1].normal();
    // The front is the right, so the normal is turned back to the left.
    assert_eq!(sink.attributes[sink.attributes.len() - 1].side(), Side::Right);
    assert_eq!(stroke.prev_normal, Vector { x: F(-last.x.0), y: F(-last.y.0) });
}

#[test]
fn the_vertices_of_a_round_join_stand_off_the_join_by_their_normals() {
    let mut sink = Recorder::new();
    let _ = after_a_left_turn(LineJoin::Round, &mut sink);
    // One vertex on the back, a first one on the front, and one for each
    // segment.
    assert!(sink.positions.len() > 3);
    for (position, attributes) in sink.positions.iter().zip(sink.attributes.iter()) {
        let normal = attributes.normal();
        assert_eq!(attributes.advancement(), F(10.0));
        assert_eq!(position.0, 10.0 + normal.x.0 * 2.0 / 2.0);
        assert_eq!(position.1, 0.0 + normal.y.0 * 2.0 / 2.0);
    }
}

#[test]
fn the_fans_of_a_round_cap_stand_off_its_centre_by_their_normals() {
    let mut builder = Path::builder();
    builder.move_to(point(1.0, 2.0));
    builder.line_to(point(7.0, 2.0));
    let path = builder.build();
    let mut sink = Recorder::new();
    let mut tess = StrokeTessellator::new();
    let options = StrokeOptions::default().with_line_width(F(3.0)).with_line_cap(LineCap::Round);
    tess.tessellate_path(&events_of(&path), &options, &mut sink).unwrap();
    // The end comes first: two vertices of its join, the tip of its cap,
    // and the fans. All of them belong to the end of the path.
    let mut fans = 0;
    for i in 3..sink.positions.len() {
        let normal = sink.attributes[i].normal();
        if sink.attributes[i].advancement() != F(6.0) {
            break;
        }
        assert_eq!(sink.positions[i].0, 7.0 + normal.x.0 * (3.0 * 0.5));
        assert_eq!(sink.positions[i].1, 2.0 + normal.y.0 * (3.0 * 0.5));
        fans += 1;
    }
    assert!(fans >= 2);
    let plain = StrokeOptions::default()
        .with_line_width(F(3.0))
        .with_line_cap(LineCap::Round)
        .dont_apply_line_width();
    let mut sink = Recorder::new();
    tess.tessellate_path(&events_of(&path), &plain, &mut sink).unwrap();
    for i in 3..sink.positions.len() {
        if sink.attributes[i].advancement() != F(6.0) {
            break;
        }
        assert_eq!(sink.positions[i], (7.0, 2.0));
    }
}
