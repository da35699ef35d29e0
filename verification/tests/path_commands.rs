use path_stroke::builder::PathCommandsBuilder;
use path_stroke::commands::PathCommands;
use path_stroke::events::{IdEvent, PathEvent};
use path_stroke::ids::{CtrlPointId, EndpointId, PathEventId};

fn three_sub_paths() -> PathCommands {
    let mut builder = PathCommands::builder();
    builder.move_to(EndpointId(0));
    builder.line_to(EndpointId(1));
    builder.quadratic_bezier_to(CtrlPointId(2), EndpointId(3));
    builder.cubic_bezier_to(CtrlPointId(4), CtrlPointId(5), EndpointId(6));

    builder.move_to(EndpointId(10));
    builder.line_to(EndpointId(11));
    builder.quadratic_bezier_to(CtrlPointId(12), EndpointId(13));
    builder.cubic_bezier_to(CtrlPointId(14), CtrlPointId(15), EndpointId(16));
    builder.close();

    builder.move_to(EndpointId(20));
    builder.line_to(EndpointId(21));
    builder.quadratic_bezier_to(CtrlPointId(22), EndpointId(23));
    builder.cubic_bezier_to(CtrlPointId(24), CtrlPointId(25), EndpointId(26));

    builder.build()
}

#[test]
fn simple_path() {
    let path = three_sub_paths();
    let mut iter = path.id_events();
    assert_eq!(iter.next(), Some(IdEvent::Begin { at: EndpointId(0) }));
    assert_eq!(iter.next(), Some(IdEvent::Line { from: EndpointId(0), to: EndpointId(1), edge: PathEventId(2) }));
    assert_eq!(iter.next(), Some(IdEvent::Quadratic { from: EndpointId(1), ctrl: CtrlPointId(2), to: EndpointId(3), edge: PathEventId(4) }));
    assert_eq!(iter.next(), Some(IdEvent::Cubic { from: EndpointId(3), ctrl1: CtrlPointId(4), ctrl2: CtrlPointId(5), to: EndpointId(6), edge: PathEventId(7) }));
    assert_eq!(iter.next(), Some(IdEvent::End { last: EndpointId(6), first: EndpointId(0), close: false, edge: PathEventId(11) }));

    assert_eq!(iter.next(), Some(IdEvent::Begin { at: EndpointId(10) }));
    assert_eq!(iter.next(), Some(IdEvent::Line { from: EndpointId(10), to: EndpointId(11), edge: PathEventId(15) }));
    assert_eq!(iter.next(), Some(IdEvent::Quadratic { from: EndpointId(11), ctrl: CtrlPointId(12), to: EndpointId(13), edge: PathEventId(17) }));
    assert_eq!(iter.next(), Some(IdEvent::Cubic { from: EndpointId(13), ctrl1: CtrlPointId(14), ctrl2: CtrlPointId(15), to: EndpointId(16), edge: PathEventId(20) }));
    assert_eq!(iter.next(), Some(IdEvent::End { last: EndpointId(16), first: EndpointId(10), close: true, edge: PathEventId(24) }));

    assert_eq!(iter.next(), Some(IdEvent::Begin { at: EndpointId(20) }));
    assert_eq!(iter.next(), Some(IdEvent::Line { from: EndpointId(20), to: EndpointId(21), edge: PathEventId(28) }));
    assert_eq!(iter.next(), Some(IdEvent::Quadratic { from: EndpointId(21), ctrl: CtrlPointId(22), to: EndpointId(23), edge: PathEventId(30) }));
    assert_eq!(iter.next(), Some(IdEvent::Cubic { from: EndpointId(23), ctrl1: CtrlPointId(24), ctrl2: CtrlPointId(25), to: EndpointId(26), edge: PathEventId(33) }));
    assert_eq!(iter.next(), Some(IdEvent::End { last: EndpointId(26), first: EndpointId(20), close: false, edge: PathEventId(37) }));

    assert_eq!(iter.next(), None);
}

#[test]
fn next_event() {
    let path = three_sub_paths();

    let mut id = PathEventId(0);
    let first = id;
    assert_eq!(path.event(id), IdEvent::Begin { at: EndpointId(0) });
    id = path.next_event_id_in_path(id).unwrap();
    assert_eq!(path.event(id), IdEvent::Line { from: EndpointId(0), to: EndpointId(1), edge: id });
    id = path.next_event_id_in_path(id).unwrap();
    assert_eq!(path.event(id), IdEvent::Quadratic { from: EndpointId(1), ctrl: CtrlPointId(2), to: EndpointId(3), edge: id });
    id = path.next_event_id_in_path(id).unwrap();
    assert_eq!(path.event(id), IdEvent::Cubic { from: EndpointId(3), ctrl1: CtrlPointId(4), ctrl2: CtrlPointId(5), to: EndpointId(6), edge: id });
    id = path.next_event_id_in_path(id).unwrap();
    assert_eq!(path.event(id), IdEvent::End { last: EndpointId(6), first: EndpointId(0), close: false, edge: id });

    assert_eq!(path.next_event_id_in_sub_path(id), first);

    id = path.next_event_id_in_path(id).unwrap();
    let first = id;
    assert_eq!(path.event(id), IdEvent::Begin { at: EndpointId(10) });
    id = path.next_event_id_in_path(id).unwrap();
    assert_eq!(path.event(id), IdEvent::Line { from: EndpointId(10), to: EndpointId(11), edge: id });
    id = path.next_event_id_in_path(id).unwrap();
    assert_eq!(path.event(id), IdEvent::Quadratic { from: EndpointId(11), ctrl: CtrlPointId(12), to: EndpointId(13), edge: id });
    id = path.next_event_id_in_path(id).unwrap();
    assert_eq!(path.event(id), IdEvent::Cubic { from: EndpointId(13), ctrl1: CtrlPointId(14), ctrl2: CtrlPointId(15), to: EndpointId(16), edge: id });
    id = path.next_event_id_in_path(id).unwrap();
    assert_eq!(path.event(id), IdEvent::End { last: EndpointId(16), first: EndpointId(10), close: true, edge: id });

    assert_eq!(path.next_event_id_in_sub_path(id), first);

    id = path.next_event_id_in_path(id).unwrap();
    let first = id;
    assert_eq!(path.event(id), IdEvent::Begin { at: EndpointId(20) });
    id = path.next_event_id_in_path(id).unwrap();
    assert_eq!(path.event(id), IdEvent::Line { from: EndpointId(20), to: EndpointId(21), edge: id });
    id = path.next_event_id_in_path(id).unwrap();
    assert_eq!(path.event(id), IdEvent::Quadratic { from: EndpointId(21), ctrl: CtrlPointId(22), to: EndpointId(23), edge: id });
    id = path.next_event_id_in_path(id).unwrap();
    assert_eq!(path.event(id), IdEvent::Cubic { from: EndpointId(23), ctrl1: CtrlPointId(24), ctrl2: CtrlPointId(25), to: EndpointId(26), edge: id });
    id = path.next_event_id_in_path(id).unwrap();
    assert_eq!(path.event(id), IdEvent::End { last: EndpointId(26), first: EndpointId(20), close: false, edge: id });

    assert_eq!(path.next_event_id_in_path(id), None);
    assert_eq!(path.next_event_id_in_sub_path(id), first);
}

fn cells_of(path: &PathCommands) -> Vec<IdEvent> {
    let mut events = Vec::new();
    let mut iter = path.id_events();
    while let Some(event) = iter.next() {
        events.push(event);
    }
    events
}

#[test]
fn empty_path_has_no_event() {
    let path = PathCommands::builder().build();
    assert_eq!(path.id_events().next(), None);
    assert_eq!(cells_of(&path), vec![]);
}

#[test]
fn event_ids_are_tag_offsets() {
    let mut builder = PathCommands::builder();
    assert_eq!(builder.move_to(EndpointId(0)), PathEventId(0));
    assert_eq!(builder.line_to(EndpointId(1)), PathEventId(2));
    assert_eq!(builder.quadratic_bezier_to(CtrlPointId(0), EndpointId(2)), PathEventId(4));
    assert_eq!(builder.cubic_bezier_to(CtrlPointId(1), CtrlPointId(2), EndpointId(3)), PathEventId(7));
    assert_eq!(builder.close(), PathEventId(11));
    assert_eq!(builder.move_to(EndpointId(4)), PathEventId(13));
}

#[test]
fn random_access_agrees_with_iteration() {
    let path = three_sub_paths();
    let mut iter = path.id_events();
    let mut id = Some(PathEventId(0));
    let mut seen = 0;
    while let Some(event) = iter.next() {
        let at = id.unwrap();
        assert_eq!(path.event(at), event);
        assert_eq!(path.as_slice().event(at), event);
        match event {
            IdEvent::Begin { .. } => {}
            IdEvent::Line { edge, .. }
            | IdEvent::Quadratic { edge, .. }
            | IdEvent::Cubic { edge, .. }
            | IdEvent::End { edge, .. } => assert_eq!(edge, at),
        }
        id = path.next_event_id_in_path(at);
        assert_eq!(path.as_slice().next_event_id_in_path(at), id);
        seen += 1;
    }
    assert_eq!(id, None);
    assert_eq!(seen, 15);
}

#[test]
fn sub_path_loops_back_to_its_begin() {
    let path = three_sub_paths();
    // The End of the first sub-path, the Close of the second, the End of the third.
    assert_eq!(path.next_event_id_in_sub_path(PathEventId(11)), PathEventId(0));
    assert_eq!(path.next_event_id_in_sub_path(PathEventId(24)), PathEventId(13));
    assert_eq!(path.next_event_id_in_sub_path(PathEventId(37)), PathEventId(26));
    assert_eq!(path.as_slice().next_event_id_in_sub_path(PathEventId(24)), PathEventId(13));
    assert_eq!(path.event(PathEventId(13)), IdEvent::Begin { at: EndpointId(10) });

    // Within a sub-path the next event is the one behind.
    assert_eq!(path.next_event_id_in_sub_path(PathEventId(13)), PathEventId(15));
    assert_eq!(path.next_event_id_in_sub_path(PathEventId(15)), PathEventId(17));
    assert_eq!(path.next_event_id_in_sub_path(PathEventId(17)), PathEventId(20));
    assert_eq!(path.next_event_id_in_sub_path(PathEventId(20)), PathEventId(24));

    // Walking around the closed sub-path comes back to where it started.
    let mut id = PathEventId(13);
    for _ in 0..5 {
        id = path.next_event_id_in_sub_path(id);
    }
    assert_eq!(id, PathEventId(13));
}

#[test]
fn build_ends_a_path_that_stops_after_an_edge() {
    let mut builder = PathCommands::builder();
    builder.move_to(EndpointId(5));
    builder.line_to(EndpointId(6));
    builder.move_to(EndpointId(7));
    builder.quadratic_bezier_to(CtrlPointId(0), EndpointId(8));
    let path = builder.build();

    let events = cells_of(&path);
    assert_eq!(
        events,
        vec![
            IdEvent::Begin { at: EndpointId(5) },
            IdEvent::Line { from: EndpointId(5), to: EndpointId(6), edge: PathEventId(2) },
            IdEvent::End { last: EndpointId(6), first: EndpointId(5), close: false, edge: PathEventId(4) },
            IdEvent::Begin { at: EndpointId(7) },
            IdEvent::Quadratic { from: EndpointId(7), ctrl: CtrlPointId(0), to: EndpointId(8), edge: PathEventId(8) },
            IdEvent::End { last: EndpointId(8), first: EndpointId(7), close: false, edge: PathEventId(11) },
        ]
    );
    assert_eq!(path.next_event_id_in_sub_path(PathEventId(11)), PathEventId(6));
    assert_eq!(path.event(PathEventId(6)), IdEvent::Begin { at: EndpointId(7) });
    assert_eq!(path.next_event_id_in_path(PathEventId(11)), None);
}

#[test]
fn closing_twice_is_closing_once() {
    let mut once = PathCommands::builder();
    once.move_to(EndpointId(0));
    once.line_to(EndpointId(1));
    let first = once.close();

    let mut twice = PathCommands::builder();
    twice.move_to(EndpointId(0));
    twice.line_to(EndpointId(1));
    assert_eq!(twice.close(), first);
    // Nothing is open: the id is the place where the next cell would go.
    assert_eq!(twice.close(), PathEventId(6));
    assert_eq!(twice.close(), PathEventId(6));

    assert_eq!(cells_of(&once.build()), cells_of(&twice.build()));
}

#[test]
fn close_on_a_fresh_builder_writes_nothing() {
    let mut builder = PathCommands::builder();
    assert_eq!(builder.close(), PathEventId(0));
    assert_eq!(cells_of(&builder.build()), vec![]);
}

#[test]
fn close_after_a_lone_begin() {
    let mut builder = PathCommandsBuilder::with_capacity(4);
    builder.move_to(EndpointId(3));
    assert_eq!(builder.close(), PathEventId(2));
    let path = builder.build();
    assert_eq!(
        cells_of(&path),
        vec![
            IdEvent::Begin { at: EndpointId(3) },
            IdEvent::End { last: EndpointId(3), first: EndpointId(3), close: true, edge: PathEventId(2) },
        ]
    );
    assert_eq!(path.next_event_id_in_sub_path(PathEventId(2)), PathEventId(0));
}

#[test]
fn begins_without_edges_follow_each_other() {
    let mut builder = PathCommands::builder();
    builder.move_to(EndpointId(1));
    builder.move_to(EndpointId(2));
    builder.move_to(EndpointId(3));
    let path = builder.build();
    assert_eq!(
        cells_of(&path),
        vec![
            IdEvent::Begin { at: EndpointId(1) },
            IdEvent::Begin { at: EndpointId(2) },
            IdEvent::Begin { at: EndpointId(3) },
        ]
    );
    assert_eq!(path.next_event_id_in_path(PathEventId(0)), Some(PathEventId(2)));
    assert_eq!(path.next_event_id_in_path(PathEventId(4)), None);
}

#[test]
fn an_edge_on_a_fresh_builder_begins_at_endpoint_zero() {
    let mut builder = PathCommands::builder();
    assert_eq!(builder.line_to(EndpointId(9)), PathEventId(2));
    let path = builder.build();
    assert_eq!(
        cells_of(&path),
        vec![
            IdEvent::Begin { at: EndpointId(0) },
            IdEvent::Line { from: EndpointId(0), to: EndpointId(9), edge: PathEventId(2) },
            IdEvent::End { last: EndpointId(9), first: EndpointId(0), close: false, edge: PathEventId(4) },
        ]
    );
}

#[test]
fn an_edge_after_a_close_begins_at_the_value_of_the_last_cell() {
    let mut builder = PathCommands::builder();
    builder.move_to(EndpointId(40));
    builder.line_to(EndpointId(41));
    builder.move_to(EndpointId(42));
    builder.line_to(EndpointId(43));
    // The Close carries the offset 6 of its Begin in the last cell.
    assert_eq!(builder.close(), PathEventId(10));
    assert_eq!(builder.cubic_bezier_to(CtrlPointId(0), CtrlPointId(1), EndpointId(44)), PathEventId(14));
    let path = builder.build();
    assert_eq!(path.event(PathEventId(12)), IdEvent::Begin { at: EndpointId(6) });
    assert_eq!(
        path.event(PathEventId(14)),
        IdEvent::Cubic {
            from: EndpointId(6),
            ctrl1: CtrlPointId(0),
            ctrl2: CtrlPointId(1),
            to: EndpointId(44),
            edge: PathEventId(14),
        }
    );
    assert_eq!(
        path.event(PathEventId(18)),
        IdEvent::End { last: EndpointId(44), first: EndpointId(6), close: false, edge: PathEventId(18) }
    );
}

#[test]
fn end_if_needed_ends_only_after_an_edge() {
    let mut builder = PathCommands::builder();
    builder.end_if_needed();
    builder.move_to(EndpointId(0));
    builder.end_if_needed();
    builder.line_to(EndpointId(1));
    builder.end_if_needed();
    builder.end_if_needed();
    assert_eq!(
        cells_of(&builder.build()),
        vec![
            IdEvent::Begin { at: EndpointId(0) },
            IdEvent::Line { from: EndpointId(0), to: EndpointId(1), edge: PathEventId(2) },
            IdEvent::End { last: EndpointId(1), first: EndpointId(0), close: false, edge: PathEventId(4) },
        ]
    );
}

#[test]
fn events_resolve_ids_to_references() {
    let endpoints = ["a", "b", "c"];
    let ctrl_points = [1.5f32, 2.5];
    let mut builder = PathCommands::builder();
    builder.move_to(EndpointId(0));
    builder.quadratic_bezier_to(CtrlPointId(1), EndpointId(2));
    builder.line_to(EndpointId(1));
    builder.close();
    let path = builder.build();

    let mut events = path.events(&endpoints[..], &ctrl_points[..]);
    assert_eq!(events.next(), Some(PathEvent::Begin { at: &"a" }));
    assert_eq!(events.next(), Some(PathEvent::Quadratic { from: &"a", ctrl: &2.5, to: &"c" }));
    assert_eq!(events.next(), Some(PathEvent::Line { from: &"c", to: &"b" }));
    assert_eq!(events.next(), Some(PathEvent::End { last: &"b", first: &"a", close: true }));
    assert_eq!(events.next(), None);
    assert_eq!(events.next(), None);

    let slice = path.path_slice(&endpoints[..], &ctrl_points[..]);
    let mut events = slice.events();
    assert_eq!(events.next(), Some(PathEvent::Begin { at: &"a" }));
    let mut ids = slice.id_events();
    assert_eq!(ids.next(), Some(IdEvent::Begin { at: EndpointId(0) }));
}

#[test]
fn ids_within_counts() {
    let path = three_sub_paths();
    // The greatest endpoint id is 26, the greatest control point id 25.
    assert!(path.ids_within(27, 26));
    assert!(path.as_slice().ids_within(27, 26));
    assert!(!path.ids_within(26, 26));
    assert!(!path.ids_within(27, 25));
    assert!(PathCommands::builder().build().ids_within(0, 0));
}
