use jam_sesh_server::registry::find_session;
use jam_sesh_server::{ClientId, ClientInfo, RoomStateUpdate};

fn info(id: i32, synced: bool) -> ClientInfo {
    ClientInfo { id: ClientId(id), received_username: synced, sent_state_sync: synced }
}

#[test]
fn fresh_session_has_both_flags_down() {
    assert_eq!(
        ClientInfo::fresh(ClientId(12)),
        ClientInfo { id: ClientId(12), received_username: false, sent_state_sync: false }
    );
}

#[test]
fn session_is_found_by_id() {
    let sessions = vec![info(0, true), info(3, false), info(7, true)];
    assert_eq!(find_session(&sessions, 0), Some(0));
    assert_eq!(find_session(&sessions, 3), Some(1));
    assert_eq!(find_session(&sessions, 7), Some(2));
    assert_eq!(find_session(&sessions, 1), None);
    assert_eq!(find_session(&sessions, -1), None);
    assert_eq!(find_session(&vec![], 0), None);
}

#[test]
fn the_first_session_with_an_id_is_found() {
    let sessions = vec![info(5, false), info(2, true), info(5, true)];
    assert_eq!(find_session(&sessions, 5), Some(0));
}

#[test]
fn connect_and_disconnect_are_session_control() {
    assert!(RoomStateUpdate::Connect { username: String::new() }.is_session_control());
    assert!(RoomStateUpdate::Disconnect.is_session_control());
    let synth = RoomStateUpdate::SynthSeq {
        synth_ix: 0,
        beat_ix: 0,
        active_cell_ixs: vec![],
        clicked_cell_ix: 0,
    };
    assert!(!synth.is_session_control());
    let sampler =
        RoomStateUpdate::SamplerSeq { beat_ix: 0, active_cell_ixs: vec![], clicked_cell_ix: 0 };
    assert!(!sampler.is_session_control());
    let param = RoomStateUpdate::SynthParam { synth_ix: 0, param_ix: 0, value: 0 };
    assert!(!param.is_session_control());
}
