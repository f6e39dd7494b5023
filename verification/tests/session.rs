use jam_sesh_server::session::SUBPROTOCOL;
use jam_sesh_server::{
    on_wire_event, speaks_subprotocol, ClientId, ReaderAction, RoomId, RoomStateUpdate,
    RoomStateUpdateFromClient, WireEvent,
};

fn departure(client_id: i32) -> RoomStateUpdateFromClient {
    RoomStateUpdateFromClient { client_id, update: RoomStateUpdate::Disconnect }
}

#[test]
fn update_is_forwarded_under_the_session_id() {
    let update = RoomStateUpdate::SamplerSeq {
        beat_ix: 3,
        active_cell_ixs: vec![0, 1],
        clicked_cell_ix: 1,
    };
    assert_eq!(
        on_wire_event(ClientId(7), WireEvent::Update(update.clone())),
        ReaderAction::Forward(RoomStateUpdateFromClient { client_id: 7, update })
    );
}

#[test]
fn client_sent_disconnect_is_forwarded_and_reading_goes_on() {
    assert_eq!(
        on_wire_event(ClientId(2), WireEvent::Update(RoomStateUpdate::Disconnect)),
        ReaderAction::Forward(departure(2))
    );
}

#[test]
fn malformed_message_is_skipped() {
    assert_eq!(on_wire_event(ClientId(1), WireEvent::Malformed), ReaderAction::Skip);
}

#[test]
fn unexpected_message_is_skipped() {
    assert_eq!(on_wire_event(ClientId(1), WireEvent::Unexpected), ReaderAction::Skip);
}

#[test]
fn close_makes_a_disconnect_and_stops() {
    assert_eq!(
        on_wire_event(ClientId(4), WireEvent::Closed),
        ReaderAction::ForwardAndStop(departure(4))
    );
}

#[test]
fn transport_failure_makes_a_disconnect_and_stops() {
    assert_eq!(
        on_wire_event(ClientId(0), WireEvent::Failed),
        ReaderAction::ForwardAndStop(departure(0))
    );
}

#[test]
fn subprotocol_has_to_be_offered() {
    assert_eq!(SUBPROTOCOL, "giogadi");
    assert!(speaks_subprotocol(&vec!["giogadi".to_string()]));
    assert!(speaks_subprotocol(&vec!["chat".to_string(), "giogadi".to_string()]));
    assert!(!speaks_subprotocol(&vec![]));
    assert!(!speaks_subprotocol(&vec!["chat".to_string(), "Giogadi".to_string()]));
    assert!(!speaks_subprotocol(&vec!["giogadi ".to_string()]));
}

#[test]
fn ids_compare_by_number() {
    assert_eq!(ClientId(3), ClientId(3));
    assert_ne!(ClientId(3), ClientId(4));
    assert_eq!(RoomId(0), RoomId(0));
    assert_ne!(RoomId(0), RoomId(1));
    let id = ClientId(5);
    let copy = id;
    assert_eq!(id.0, copy.0);
}
