use path_stroke::events::IdEvent;
use path_stroke::ids::{CtrlPointId, EndpointId, PathEventId};

#[test]
fn endpoint_id_round_trip() {
    assert_eq!(EndpointId::from_usize(7).to_usize(), 7);
    assert_eq!(CtrlPointId::from_usize(9).to_usize(), 9);
    assert_eq!(PathEventId(3).to_usize(), 3);
}

#[test]
fn invalid_ids_are_the_greatest() {
    assert_eq!(EndpointId::invalid(), EndpointId(u32::MAX));
    assert_eq!(CtrlPointId::invalid(), CtrlPointId(u32::MAX));
    assert_eq!(PathEventId::invalid(), PathEventId(u32::MAX));
}

#[test]
fn events_compare_by_their_fields() {
    assert_eq!(
        IdEvent::Line { edge: PathEventId(2), from: EndpointId(0), to: EndpointId(1) },
        IdEvent::Line { edge: PathEventId(2), from: EndpointId(0), to: EndpointId(1) }
    );
    assert_ne!(
        IdEvent::Line { edge: PathEventId(2), from: EndpointId(0), to: EndpointId(1) },
        IdEvent::Line { edge: PathEventId(4), from: EndpointId(0), to: EndpointId(1) }
    );
}
