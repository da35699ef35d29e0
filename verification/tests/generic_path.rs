use path_stroke::events::{IdEvent, PathEvent};
use path_stroke::generic::{GenericPath, GenericPathBuilder};
use path_stroke::ids::{CtrlPointId, EndpointId, PathEventId};
use path_stroke::math::Point;
use path_stroke::position::{Position, PositionStore};

type P = Point<i32>;

fn p(x: i32, y: i32) -> P {
    Point { x, y }
}

fn two_sub_paths() -> GenericPath<P, P> {
    let mut builder = GenericPath::builder();
    assert_eq!(builder.move_to(p(0, 0)), PathEventId(0));
    assert_eq!(builder.line_to(p(10, 0)), PathEventId(2));
    assert_eq!(builder.quadratic_bezier_to(p(15, 5), p(10, 10)), PathEventId(4));
    assert_eq!(builder.close(), PathEventId(7));
    assert_eq!(builder.move_to(p(20, 20)), PathEventId(9));
    assert_eq!(builder.cubic_bezier_to(p(21, 21), p(22, 22), p(23, 23)), PathEventId(11));
    builder.build()
}

#[test]
fn builder_gives_dense_ids() {
    let path = two_sub_paths();
    assert_eq!(path.endpoints(), &[p(0, 0), p(10, 0), p(10, 10), p(20, 20), p(23, 23)][..]);
    assert_eq!(path.ctrl_points(), &[p(15, 5), p(21, 21), p(22, 22)][..]);
    assert_eq!(*path.endpoint(EndpointId(2)), p(10, 10));
    assert_eq!(*path.ctrl_point(CtrlPointId(1)), p(21, 21));

    let mut ids = path.id_events();
    assert_eq!(ids.next(), Some(IdEvent::Begin { at: EndpointId(0) }));
    assert_eq!(ids.next(), Some(IdEvent::Line { from: EndpointId(0), to: EndpointId(1), edge: PathEventId(2) }));
    assert_eq!(
        ids.next(),
        Some(IdEvent::Quadratic { from: EndpointId(1), ctrl: CtrlPointId(0), to: EndpointId(2), edge: PathEventId(4) })
    );
    assert_eq!(
        ids.next(),
        Some(IdEvent::End { last: EndpointId(2), first: EndpointId(0), close: true, edge: PathEventId(7) })
    );
    assert_eq!(ids.next(), Some(IdEvent::Begin { at: EndpointId(3) }));
    assert_eq!(
        ids.next(),
        Some(IdEvent::Cubic {
            from: EndpointId(3),
            ctrl1: CtrlPointId(1),
            ctrl2: CtrlPointId(2),
            to: EndpointId(4),
            edge: PathEventId(11),
        })
    );
    assert_eq!(
        ids.next(),
        Some(IdEvent::End { last: EndpointId(4), first: EndpointId(3), close: false, edge: PathEventId(15) })
    );
    assert_eq!(ids.next(), None);
}

#[test]
fn events_and_points_walk_in_step_with_ids() {
    let path = two_sub_paths();
    let mut ids = path.id_events();
    let mut events = path.events();
    let mut points = path.as_slice().events().points();
    let mut id = Some(PathEventId(0));
    while let Some(id_event) = ids.next() {
        let at = id.unwrap();
        let event = events.next().unwrap();
        let point_event = points.next().unwrap();
        assert_eq!(path.id_event(at), id_event);
        assert_eq!(path.event(at), event);
        match event {
            PathEvent::Begin { at } => assert_eq!(point_event, PathEvent::Begin { at: *at }),
            PathEvent::Line { from, to } => assert_eq!(point_event, PathEvent::Line { from: *from, to: *to }),
            PathEvent::Quadratic { from, ctrl, to } => {
                assert_eq!(point_event, PathEvent::Quadratic { from: *from, ctrl: *ctrl, to: *to })
            }
            PathEvent::Cubic { from, ctrl1, ctrl2, to } => {
                assert_eq!(point_event, PathEvent::Cubic { from: *from, ctrl1: *ctrl1, ctrl2: *ctrl2, to: *to })
            }
            PathEvent::End { last, first, close } => {
                assert_eq!(point_event, PathEvent::End { last: *last, first: *first, close })
            }
        }
        id = path.next_event_id_in_path(at);
    }
    assert_eq!(id, None);
    assert_eq!(events.next(), None);
    assert_eq!(points.next(), None);
}

#[test]
fn event_resolves_the_ids_of_an_end() {
    let path = two_sub_paths();
    assert_eq!(
        path.event(PathEventId(7)),
        PathEvent::End { last: &p(10, 10), first: &p(0, 0), close: true }
    );
    assert_eq!(path.next_event_id_in_sub_path(PathEventId(7)), PathEventId(0));
    assert_eq!(path.next_event_id_in_sub_path(PathEventId(15)), PathEventId(9));
    assert_eq!(path.next_event_id_in_path(PathEventId(7)), Some(PathEventId(9)));
}

#[test]
fn a_path_is_a_store_of_positions() {
    let path = two_sub_paths();
    assert_eq!(path.endpoint_position(EndpointId(4)), p(23, 23));
    assert_eq!(path.ctrl_point_position(CtrlPointId(0)), p(15, 5));
    let slice = path.as_slice();
    assert_eq!(slice.endpoint_position(EndpointId(1)), p(10, 0));
    assert_eq!(slice.ctrl_point_position(CtrlPointId(2)), p(22, 22));
    assert_eq!(p(3, 4).position(), p(3, 4));

    let endpoints = [p(1, 1), p(2, 2)];
    let ctrl_points = [p(9, 9)];
    let store = (&endpoints[..], &ctrl_points[..]);
    assert_eq!(store.endpoint_position(EndpointId(1)), p(2, 2));
    assert_eq!(store.ctrl_point_position(CtrlPointId(0)), p(9, 9));
}

#[test]
fn empty_generic_path() {
    let path: GenericPath<P, P> = GenericPathBuilder::with_capacity(4, 2, 4).build();
    assert_eq!(path.endpoints().len(), 0);
    assert_eq!(path.ctrl_points().len(), 0);
    assert_eq!(path.events().next(), None);
    assert_eq!(path.id_events().next(), None);
}

#[test]
fn closing_twice_adds_no_point_and_no_cell() {
    let mut once: GenericPathBuilder<P, P> = GenericPathBuilder::new();
    once.move_to(p(0, 0));
    once.line_to(p(1, 0));
    once.line_to(p(1, 1));
    let id = once.close();

    let mut twice: GenericPathBuilder<P, P> = GenericPathBuilder::new();
    twice.move_to(p(0, 0));
    twice.line_to(p(1, 0));
    twice.line_to(p(1, 1));
    assert_eq!(twice.close(), id);
    twice.close();

    let once = once.build();
    let twice = twice.build();
    assert_eq!(once.endpoints(), twice.endpoints());
    let mut a = once.id_events();
    let mut b = twice.id_events();
    loop {
        let (x, y) = (a.next(), b.next());
        assert_eq!(x, y);
        if x.is_none() {
            break;
        }
    }
}

#[test]
fn added_points_get_the_next_id() {
    let mut builder: GenericPathBuilder<P, P> = GenericPathBuilder::new();
    assert_eq!(builder.add_endpoint(p(0, 0)), EndpointId(0));
    assert_eq!(builder.add_ctrl_point(p(1, 1)), CtrlPointId(0));
    assert_eq!(builder.add_endpoint(p(2, 2)), EndpointId(1));
    assert_eq!(builder.move_to(p(3, 3)), PathEventId(0));
    let path = builder.build();
    assert_eq!(path.id_event(PathEventId(0)), IdEvent::Begin { at: EndpointId(2) });
    assert_eq!(path.event(PathEventId(0)), PathEvent::Begin { at: &p(3, 3) });
}

#[test]
fn ids_of_a_built_path_are_valid() {
    assert!(two_sub_paths().has_valid_ids());
    // An edge with no sub-path open begins at the value of the last cell,
    // here the offset 6 that the Close carries, which names no endpoint.
    let mut builder: GenericPathBuilder<P, P> = GenericPathBuilder::new();
    builder.move_to(p(0, 0));
    builder.line_to(p(1, 0));
    builder.move_to(p(5, 5));
    builder.line_to(p(6, 5));
    builder.close();
    builder.line_to(p(7, 7));
    assert!(!builder.build().has_valid_ids());
}

#[test]
fn returned_ids_decode_in_the_built_path() {
    let mut builder: GenericPathBuilder<P, P> = GenericPathBuilder::new();
    builder.move_to(p(0, 0));
    let id = builder.quadratic_bezier_to(p(1, 1), p(2, 0));
    let path = builder.build();
    assert_eq!(
        path.id_event(id),
        IdEvent::Quadratic { from: EndpointId(0), ctrl: CtrlPointId(0), to: EndpointId(1), edge: id }
    );
    assert_eq!(path.ctrl_points()[0], p(1, 1));
    assert_eq!(path.endpoints()[1], p(2, 0));
}

#[test]
fn walks_and_views_can_be_copied() {
    let path = two_sub_paths();
    let slice = path.as_slice();
    let copy = slice;
    let mut events = slice.events();
    let first = events.next();
    let mut again = events.clone();
    assert_eq!(events.next(), again.next());
    assert_eq!(copy.events().next(), first);
    let mut points = path.events().points();
    let mut other = points.clone();
    assert_eq!(points.next(), other.next());
}
