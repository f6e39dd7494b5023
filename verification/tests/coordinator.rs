use jam_sesh_server::{
    ClientId, ClientInfo, Coordinator, Delivery, Departure, Disposition, Outbound, RoomState,
    RoomStateUpdate, RoomStateUpdateFromClient, StepOutcome, Violation,
};

fn from(client_id: i32, update: RoomStateUpdate) -> RoomStateUpdateFromClient {
    RoomStateUpdateFromClient { client_id, update }
}

fn connect(client_id: i32, name: &str) -> RoomStateUpdateFromClient {
    from(client_id, RoomStateUpdate::Connect { username: name.to_string() })
}

fn disconnect(client_id: i32) -> RoomStateUpdateFromClient {
    from(client_id, RoomStateUpdate::Disconnect)
}

fn synth_seq(
    client_id: i32,
    synth_ix: i32,
    beat_ix: i32,
    cells: Vec<i32>,
) -> RoomStateUpdateFromClient {
    from(
        client_id,
        RoomStateUpdate::SynthSeq { synth_ix, beat_ix, active_cell_ixs: cells, clicked_cell_ix: 1 },
    )
}

fn diff(to: i32, msg: &RoomStateUpdateFromClient) -> Delivery {
    Delivery { to: ClientId(to), message: Outbound::Diff(msg.clone()) }
}

fn snapshot(to: i32, state: &RoomState) -> Delivery {
    Delivery { to: ClientId(to), message: Outbound::Snapshot(state.clone()) }
}

fn dropped(disposition: Disposition) -> StepOutcome {
    StepOutcome { disposition, deliveries: vec![], departed: None }
}

fn inbox(outcomes: &[StepOutcome], id: i32) -> Vec<&Outbound> {
    let mut messages = vec![];
    for outcome in outcomes {
        for delivery in &outcome.deliveries {
            if delivery.to == ClientId(id) {
                messages.push(&delivery.message);
            }
        }
    }
    messages
}

/// A coordinator with `n` accepted sessions, ids 0 to n - 1, none synced.
fn room_of(n: i32) -> Coordinator {
    let mut room = Coordinator::new();
    for id in 0..n {
        assert_eq!(room.accept(), Some(ClientId(id)));
    }
    room
}

#[test]
fn new_room_is_empty() {
    let room = Coordinator::new();
    assert_eq!(*room.document(), RoomState::new());
    assert_eq!(room.session(ClientId(0)), None);
}

#[test]
fn ids_count_up_from_zero() {
    let mut room = Coordinator::new();
    assert_eq!(room.accept(), Some(ClientId(0)));
    assert_eq!(room.accept(), Some(ClientId(1)));
    assert_eq!(room.accept(), Some(ClientId(2)));
    assert_eq!(
        room.session(ClientId(1)),
        Some(ClientInfo { id: ClientId(1), received_username: false, sent_state_sync: false })
    );
    assert_eq!(room.session(ClientId(3)), None);
    assert_eq!(*room.document(), RoomState::new());
}

#[test]
fn ids_are_not_reused_after_disconnect() {
    let mut room = room_of(2);
    assert_eq!(
        room.step(&disconnect(1)).departed,
        Some(Departure { id: ClientId(1), named: false })
    );
    assert_eq!(
        room.step(&disconnect(0)).departed,
        Some(Departure { id: ClientId(0), named: false })
    );
    assert_eq!(room.accept(), Some(ClientId(2)));
    assert_eq!(room.session(ClientId(0)), None);
    assert_eq!(room.session(ClientId(1)), None);
}

#[test]
fn edit_before_connect_is_dropped() {
    let mut room = room_of(1);
    let out = room.step(&synth_seq(0, 0, 0, vec![5, 6]));
    assert_eq!(out, dropped(Disposition::NotSynced));
    assert_eq!(*room.document(), RoomState::new());
    assert_eq!(
        room.session(ClientId(0)),
        Some(ClientInfo { id: ClientId(0), received_username: false, sent_state_sync: false })
    );
}

#[test]
fn edit_before_connect_reaches_no_synced_peer() {
    let mut room = room_of(2);
    room.step(&connect(0, "alice"));
    let before = room.document().clone();
    let sampler = from(
        1,
        RoomStateUpdate::SamplerSeq { beat_ix: 0, active_cell_ixs: vec![1, 1], clicked_cell_ix: 0 },
    );
    assert_eq!(room.step(&sampler), dropped(Disposition::NotSynced));
    let param = from(1, RoomStateUpdate::SynthParam { synth_ix: 0, param_ix: 0, value: 7 });
    assert_eq!(room.step(&param), dropped(Disposition::NotSynced));
    assert_eq!(*room.document(), before);
}

#[test]
fn snapshot_comes_before_own_connect() {
    let mut room = room_of(1);
    let msg = connect(0, "alice");
    let out = room.step(&msg);
    let mut expected = RoomState::new();
    expected.connected_clients.push((0, "alice".to_string()));
    assert_eq!(*room.document(), expected);
    assert_eq!(
        out,
        StepOutcome {
            disposition: Disposition::Applied,
            deliveries: vec![snapshot(0, &expected), diff(0, &msg)],
            departed: None,
        }
    );
    assert_eq!(
        room.session(ClientId(0)),
        Some(ClientInfo { id: ClientId(0), received_username: true, sent_state_sync: true })
    );
}

#[test]
fn snapshot_shows_the_joiner_last_in_the_roster() {
    let mut room = room_of(2);
    room.step(&connect(0, "alice"));
    let edit = synth_seq(0, 1, 7, vec![9]);
    room.step(&edit);
    let msg = connect(1, "bob");
    let out = room.step(&msg);
    let mut expected = RoomState::new();
    expected.synth_sequences[1][7] = vec![9];
    expected.connected_clients = vec![(0, "alice".to_string()), (1, "bob".to_string())];
    assert_eq!(
        out.deliveries,
        vec![snapshot(1, &expected), diff(0, &msg), diff(1, &msg)]
    );
}

#[test]
fn roster_after_connects_and_a_disconnect() {
    let mut room = room_of(3);
    room.step(&connect(0, "A"));
    room.step(&connect(1, "B"));
    room.step(&connect(2, "C"));
    let out = room.step(&disconnect(1));
    assert_eq!(
        room.document().connected_clients,
        vec![(0, "A".to_string()), (2, "C".to_string())]
    );
    assert_eq!(out.departed, Some(Departure { id: ClientId(1), named: true }));
    assert_eq!(out.disposition, Disposition::Applied);
    assert_eq!(out.deliveries, vec![diff(0, &disconnect(1)), diff(2, &disconnect(1))]);
    assert_eq!(room.session(ClientId(1)), None);
}

#[test]
fn roster_is_in_connect_order_not_accept_order() {
    let mut room = room_of(3);
    room.step(&connect(2, "C"));
    room.step(&connect(0, "A"));
    room.step(&connect(1, "B"));
    assert_eq!(
        room.document().connected_clients,
        vec![(2, "C".to_string()), (0, "A".to_string()), (1, "B".to_string())]
    );
    room.step(&disconnect(2));
    assert_eq!(
        room.document().connected_clients,
        vec![(0, "A".to_string()), (1, "B".to_string())]
    );
}

#[test]
fn voice_width_mismatch_is_not_broadcast() {
    let mut room = room_of(2);
    room.step(&connect(0, "alice"));
    room.step(&connect(1, "bob"));
    let before = room.document().clone();
    let out = room.step(&synth_seq(0, 0, 0, vec![1, 2, 3]));
    assert_eq!(out, dropped(Disposition::Rejected(Violation::VoiceWidthMismatch)));
    assert_eq!(*room.document(), before);
    let out = room.step(&synth_seq(0, 1, 0, vec![]));
    assert_eq!(out, dropped(Disposition::Rejected(Violation::VoiceWidthMismatch)));
    assert_eq!(*room.document(), before);
}

#[test]
fn every_rule_of_the_document_is_enforced() {
    let mut room = room_of(1);
    room.step(&connect(0, "alice"));
    let before = room.document().clone();
    assert_eq!(
        room.step(&synth_seq(0, 2, 0, vec![1, 2])),
        dropped(Disposition::Rejected(Violation::UnknownSynth))
    );
    assert_eq!(
        room.step(&synth_seq(0, 0, 16, vec![1, 2])),
        dropped(Disposition::Rejected(Violation::UnknownBeat))
    );
    assert_eq!(
        room.step(&synth_seq(0, 0, -1, vec![1, 2])),
        dropped(Disposition::Rejected(Violation::UnknownBeat))
    );
    let param = from(0, RoomStateUpdate::SynthParam { synth_ix: 0, param_ix: 2, value: 7 });
    assert_eq!(room.step(&param), dropped(Disposition::Rejected(Violation::UnknownParam)));
    assert_eq!(*room.document(), before);
    assert!(room.session(ClientId(0)).is_some());
}

#[test]
fn unsynced_peer_receives_nothing_until_its_snapshot() {
    let mut room = room_of(2);
    let mut outcomes = vec![];
    outcomes.push(room.step(&connect(0, "alice")));
    let first_edit = synth_seq(0, 0, 2, vec![4, 5]);
    outcomes.push(room.step(&first_edit));
    assert_eq!(outcomes[1].deliveries, vec![diff(0, &first_edit)]);
    assert!(inbox(&outcomes, 1).is_empty());

    let join = connect(1, "bob");
    outcomes.push(room.step(&join));
    let mut expected = RoomState::new();
    expected.synth_sequences[0][2] = vec![4, 5];
    expected.connected_clients = vec![(0, "alice".to_string()), (1, "bob".to_string())];
    assert_eq!(
        inbox(&outcomes, 1),
        vec![&Outbound::Snapshot(expected), &Outbound::Diff(join.clone())]
    );

    let second_edit = synth_seq(0, 1, 3, vec![8]);
    outcomes.push(room.step(&second_edit));
    assert_eq!(outcomes[3].deliveries, vec![diff(0, &second_edit), diff(1, &second_edit)]);
    let own_edit = synth_seq(1, 1, 4, vec![2]);
    outcomes.push(room.step(&own_edit));
    assert_eq!(outcomes[4].deliveries, vec![diff(0, &own_edit), diff(1, &own_edit)]);
    assert_eq!(inbox(&outcomes, 1).len(), 4);
}

#[test]
fn replayed_edit_leaves_the_same_document() {
    let mut room = room_of(1);
    room.step(&connect(0, "alice"));
    let edit = synth_seq(0, 0, 5, vec![3, 4]);
    let first = room.step(&edit);
    let once = room.document().clone();
    let second = room.step(&edit);
    assert_eq!(*room.document(), once);
    assert_eq!(first, second);
    assert_eq!(once.synth_sequences[0][5], vec![3, 4]);
}

#[test]
fn update_of_an_unknown_session_is_dropped() {
    let mut room = room_of(1);
    room.step(&connect(0, "alice"));
    let before = room.document().clone();
    assert_eq!(room.step(&connect(5, "ghost")), dropped(Disposition::UnknownSession));
    assert_eq!(room.step(&disconnect(5)), dropped(Disposition::UnknownSession));
    assert_eq!(room.step(&synth_seq(-1, 0, 0, vec![1, 2])), dropped(Disposition::UnknownSession));
    assert_eq!(*room.document(), before);
}

#[test]
fn update_after_own_disconnect_is_dropped() {
    let mut room = room_of(2);
    room.step(&connect(0, "alice"));
    room.step(&connect(1, "bob"));
    room.step(&disconnect(0));
    let before = room.document().clone();
    assert_eq!(room.step(&synth_seq(0, 0, 0, vec![1, 2])), dropped(Disposition::UnknownSession));
    assert_eq!(room.step(&disconnect(0)), dropped(Disposition::UnknownSession));
    assert_eq!(*room.document(), before);
    assert_eq!(before.connected_clients, vec![(1, "bob".to_string())]);
}

#[test]
fn disconnect_before_connect_removes_the_session_only() {
    let mut room = room_of(2);
    room.step(&connect(0, "alice"));
    let before = room.document().clone();
    let out = room.step(&disconnect(1));
    assert_eq!(
        out,
        StepOutcome {
            disposition: Disposition::Applied,
            deliveries: vec![diff(0, &disconnect(1))],
            departed: Some(Departure { id: ClientId(1), named: false }),
        }
    );
    assert_eq!(*room.document(), before);
    assert_eq!(room.session(ClientId(1)), None);
    assert!(room.session(ClientId(0)).is_some());
}

#[test]
fn leaver_is_not_sent_its_own_disconnect() {
    let mut room = room_of(1);
    room.step(&connect(0, "alice"));
    let out = room.step(&disconnect(0));
    assert_eq!(
        out,
        StepOutcome {
            disposition: Disposition::Applied,
            deliveries: vec![],
            departed: Some(Departure { id: ClientId(0), named: true }),
        }
    );
    assert!(room.document().connected_clients.is_empty());
}

#[test]
fn broadcast_goes_in_registry_order() {
    let mut room = room_of(4);
    room.step(&connect(3, "d"));
    room.step(&connect(1, "b"));
    room.step(&connect(0, "a"));
    let edit = synth_seq(1, 0, 0, vec![0, 1]);
    let out = room.step(&edit);
    assert_eq!(out.deliveries, vec![diff(0, &edit), diff(1, &edit), diff(3, &edit)]);
    room.step(&disconnect(0));
    let out = room.step(&edit);
    assert_eq!(out.deliveries, vec![diff(1, &edit), diff(3, &edit)]);
}

#[test]
fn diff_carries_the_update_as_sent() {
    let mut room = room_of(1);
    room.step(&connect(0, "alice"));
    let edit = from(
        0,
        RoomStateUpdate::SynthSeq {
            synth_ix: 0,
            beat_ix: 9,
            active_cell_ixs: vec![13, -1],
            clicked_cell_ix: 13,
        },
    );
    let out = room.step(&edit);
    assert_eq!(out.deliveries, vec![diff(0, &edit)]);
    assert_eq!(room.document().synth_sequences[0][9], vec![13, -1]);
    let param = from(
        0,
        RoomStateUpdate::SynthParam { synth_ix: 1, param_ix: 1, value: 0.25f64.to_bits() },
    );
    let out = room.step(&param);
    assert_eq!(out.deliveries, vec![diff(0, &param)]);
    assert_eq!(f64::from_bits(room.document().synth_params[1][1]), 0.25);
}

#[test]
fn second_connect_of_a_synced_session_adds_a_second_entry() {
    let mut room = room_of(1);
    room.step(&connect(0, "alice"));
    let again = connect(0, "alicia");
    let out = room.step(&again);
    let mut expected = RoomState::new();
    expected.connected_clients = vec![(0, "alice".to_string()), (0, "alicia".to_string())];
    assert_eq!(out.deliveries, vec![snapshot(0, &expected), diff(0, &again)]);
    assert_eq!(*room.document(), expected);
}

/// The copy of the document that the client of session `id` keeps: a
/// snapshot replaces it, the echo of the client's own Connect is passed over,
/// any other update is carried out on it.
fn receive(id: i32, held: &mut RoomState, message: &Outbound) {
    match message {
        Outbound::Snapshot(state) => *held = state.clone(),
        Outbound::Diff(msg) => {
            let own_connect =
                msg.client_id == id && matches!(msg.update, RoomStateUpdate::Connect { .. });
            if !own_connect {
                assert_eq!(held.apply(msg), Ok(()));
            }
        }
    }
}

#[test]
fn every_synced_client_holds_the_document() {
    let mut room = room_of(4);
    let mut copies: Vec<RoomState> = (0..4).map(|_| RoomState::new()).collect();
    let script = vec![
        synth_seq(0, 0, 0, vec![1, 2]),
        connect(0, "alice"),
        synth_seq(0, 0, 0, vec![1, 2]),
        synth_seq(1, 0, 1, vec![3, 4]),
        connect(2, "carol"),
        synth_seq(2, 1, 5, vec![6]),
        synth_seq(2, 1, 5, vec![6, 7]),
        from(
            0,
            RoomStateUpdate::SamplerSeq {
                beat_ix: 2,
                active_cell_ixs: vec![0, 1],
                clicked_cell_ix: 0,
            },
        ),
        connect(1, "bob"),
        from(
            1,
            RoomStateUpdate::SynthParam { synth_ix: 0, param_ix: 1, value: 0.5f64.to_bits() },
        ),
        disconnect(0),
        synth_seq(0, 0, 3, vec![9, 9]),
        synth_seq(1, 0, 3, vec![8, 8]),
        disconnect(3),
        connect(2, "caroline"),
        synth_seq(2, 9, 0, vec![1, 1]),
        disconnect(7),
        synth_seq(1, 1, 15, vec![0]),
    ];
    for msg in &script {
        let out = room.step(msg);
        for delivery in &out.deliveries {
            let id = delivery.to.0;
            receive(id, &mut copies[id as usize], &delivery.message);
        }
        for id in 0..4 {
            if let Some(info) = room.session(ClientId(id)) {
                if info.sent_state_sync {
                    assert_eq!(copies[id as usize], *room.document());
                }
            }
        }
    }
    assert!(room.session(ClientId(0)).is_none());
    assert!(room.session(ClientId(3)).is_none());
    assert_eq!(copies[1], *room.document());
    assert_eq!(copies[2], *room.document());
    assert_eq!(room.document().synth_sequences[0][3], vec![8, 8]);
    assert_eq!(room.document().synth_sequences[1][15], vec![0]);
    assert_eq!(
        room.document().connected_clients,
        vec![(2, "carol".to_string()), (1, "bob".to_string()), (2, "caroline".to_string())]
    );
}

#[test]
fn synced_clients_are_sent_the_same_updates() {
    let mut room = room_of(3);
    room.step(&connect(0, "alice"));
    room.step(&connect(1, "bob"));
    let script = vec![
        synth_seq(0, 0, 0, vec![1, 2]),
        synth_seq(2, 0, 0, vec![5, 5]),
        synth_seq(1, 0, 0, vec![1]),
        connect(2, "carol"),
        synth_seq(2, 1, 1, vec![4]),
        disconnect(2),
        synth_seq(1, 0, 9, vec![7, 7]),
    ];
    let mut outcomes = vec![];
    for msg in &script {
        outcomes.push(room.step(msg));
    }
    let expected = vec![
        Outbound::Diff(script[0].clone()),
        Outbound::Diff(script[3].clone()),
        Outbound::Diff(script[4].clone()),
        Outbound::Diff(script[5].clone()),
        Outbound::Diff(script[6].clone()),
    ];
    assert_eq!(inbox(&outcomes, 0), expected.iter().collect::<Vec<_>>());
    assert_eq!(inbox(&outcomes, 1), expected.iter().collect::<Vec<_>>());
}
