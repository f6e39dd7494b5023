use jam_sesh_server::document::{
    NO_NOTE, NUM_BEATS, NUM_SAMPLER_VOICES, NUM_SYNTHS, NUM_SYNTH_PARAMS, NUM_SYNTH_VOICES_0,
    NUM_SYNTH_VOICES_1, OPENING_NOTE, PARAM_0_DEFAULT, PARAM_1_DEFAULT,
};
use jam_sesh_server::{RoomState, RoomStateUpdate, RoomStateUpdateFromClient, SynthParam, Violation};

fn from(client_id: i32, update: RoomStateUpdate) -> RoomStateUpdateFromClient {
    RoomStateUpdateFromClient { client_id, update }
}

fn synth_seq(synth_ix: i32, beat_ix: i32, cells: Vec<i32>) -> RoomStateUpdate {
    RoomStateUpdate::SynthSeq { synth_ix, beat_ix, active_cell_ixs: cells, clicked_cell_ix: 0 }
}

fn sampler_seq(beat_ix: i32, cells: Vec<i32>) -> RoomStateUpdate {
    RoomStateUpdate::SamplerSeq { beat_ix, active_cell_ixs: cells, clicked_cell_ix: 0 }
}

fn connect(name: &str) -> RoomStateUpdate {
    RoomStateUpdate::Connect { username: name.to_string() }
}

#[test]
fn new_document_has_the_declared_shape() {
    let state = RoomState::new();
    assert_eq!(state.num_synth_note_rows, 14);
    assert_eq!(state.num_sampler_note_rows, 2);
    assert_eq!(state.synth_sequences.len(), NUM_SYNTHS);
    assert_eq!(state.synth_sequences.len(), 2);
    assert_eq!(state.synth_sequences[0].len(), NUM_BEATS);
    assert_eq!(state.synth_sequences[1].len(), 16);
    for beat in 0..16 {
        assert_eq!(state.synth_sequences[0][beat].len(), NUM_SYNTH_VOICES_0);
        assert_eq!(state.synth_sequences[1][beat].len(), NUM_SYNTH_VOICES_1);
        assert_eq!(state.sampler_sequence[beat].len(), NUM_SAMPLER_VOICES);
    }
    assert_eq!(state.sampler_sequence.len(), 16);
    assert_eq!(state.synth_params.len(), 2);
    assert_eq!(state.synth_params[0].len(), NUM_SYNTH_PARAMS);
    assert_eq!(state.synth_params[1].len(), 2);
    assert!(state.connected_clients.is_empty());
}

#[test]
fn new_document_plays_one_note_on_every_fourth_beat() {
    let state = RoomState::new();
    assert_eq!(OPENING_NOTE, 60);
    assert_eq!(NO_NOTE, -1);
    for beat in 0..16 {
        let expected = if beat == 0 || beat == 4 || beat == 8 || beat == 12 {
            vec![60, -1]
        } else {
            vec![-1, -1]
        };
        assert_eq!(state.synth_sequences[0][beat], expected);
        assert_eq!(state.synth_sequences[1][beat], vec![-1]);
        assert_eq!(state.sampler_sequence[beat], vec![-1, -1]);
    }
}

#[test]
fn new_document_has_default_parameters() {
    let state = RoomState::new();
    for synth in 0..2 {
        assert_eq!(f64::from_bits(state.synth_params[synth][0]), 6000.0);
        assert_eq!(f64::from_bits(state.synth_params[synth][1]), 0.005);
    }
    assert_eq!(PARAM_0_DEFAULT, 6000.0f64.to_bits());
    assert_eq!(PARAM_1_DEFAULT, 0.005f64.to_bits());
}

#[test]
fn synth_param_defaults_by_index() {
    assert_eq!(SynthParam::at(0), Some(SynthParam { default_value: 6000.0f64.to_bits() }));
    assert_eq!(SynthParam::at(1), Some(SynthParam { default_value: 0.005f64.to_bits() }));
    assert_eq!(SynthParam::at(2), None);
    assert_eq!(SynthParam::at(usize::MAX), None);
}

#[test]
fn synth_edit_overwrites_one_beat() {
    let mut state = RoomState::new();
    let r = state.apply(&from(0, synth_seq(0, 4, vec![7, 9])));
    assert_eq!(r, Ok(()));
    let mut expected = RoomState::new();
    expected.synth_sequences[0][4] = vec![7, 9];
    assert_eq!(state, expected);
    let r = state.apply(&from(0, synth_seq(1, 15, vec![3])));
    assert_eq!(r, Ok(()));
    expected.synth_sequences[1][15] = vec![3];
    assert_eq!(state, expected);
}

#[test]
fn sampler_edit_overwrites_one_beat() {
    let mut state = RoomState::new();
    let r = state.apply(&from(3, sampler_seq(15, vec![1, 0])));
    assert_eq!(r, Ok(()));
    let mut expected = RoomState::new();
    expected.sampler_sequence[15] = vec![1, 0];
    assert_eq!(state, expected);
}

#[test]
fn param_edit_overwrites_one_value() {
    let mut state = RoomState::new();
    let value = 440.5f64.to_bits();
    let r = state.apply(
        &from(3, RoomStateUpdate::SynthParam { synth_ix: 1, param_ix: 0, value }),
    );
    assert_eq!(r, Ok(()));
    let mut expected = RoomState::new();
    expected.synth_params[1][0] = value;
    assert_eq!(state, expected);
    assert_eq!(f64::from_bits(state.synth_params[1][0]), 440.5);
    assert_eq!(f64::from_bits(state.synth_params[0][0]), 6000.0);
}

#[test]
fn voice_width_mismatch_leaves_document_unchanged() {
    let mut state = RoomState::new();
    for cells in [vec![], vec![1], vec![1, 2, 3]] {
        let r = state.apply(&from(0, synth_seq(0, 0, cells)));
        assert_eq!(r, Err(Violation::VoiceWidthMismatch));
        assert_eq!(state, RoomState::new());
    }
    let r = state.apply(&from(0, synth_seq(1, 0, vec![1, 2])));
    assert_eq!(r, Err(Violation::VoiceWidthMismatch));
    let r = state.apply(&from(0, sampler_seq(0, vec![1])));
    assert_eq!(r, Err(Violation::VoiceWidthMismatch));
    assert_eq!(state, RoomState::new());
}

#[test]
fn out_of_range_indices_are_rejected() {
    let mut state = RoomState::new();
    assert_eq!(state.apply(&from(0, synth_seq(2, 0, vec![1, 2]))), Err(Violation::UnknownSynth));
    assert_eq!(state.apply(&from(0, synth_seq(-1, 0, vec![1, 2]))), Err(Violation::UnknownSynth));
    assert_eq!(
        state.apply(&from(0, synth_seq(i32::MIN, 0, vec![1, 2]))),
        Err(Violation::UnknownSynth)
    );
    assert_eq!(state.apply(&from(0, synth_seq(0, 16, vec![1, 2]))), Err(Violation::UnknownBeat));
    assert_eq!(state.apply(&from(0, synth_seq(0, -1, vec![1, 2]))), Err(Violation::UnknownBeat));
    assert_eq!(state.apply(&from(0, sampler_seq(16, vec![1, 2]))), Err(Violation::UnknownBeat));
    assert_eq!(state.apply(&from(0, sampler_seq(-3, vec![1, 2]))), Err(Violation::UnknownBeat));
    assert_eq!(
        state.apply(&from(0, sampler_seq(i32::MAX, vec![1, 2]))),
        Err(Violation::UnknownBeat)
    );
    let param = |synth_ix, param_ix| RoomStateUpdate::SynthParam { synth_ix, param_ix, value: 1 };
    assert_eq!(state.apply(&from(0, param(2, 0))), Err(Violation::UnknownSynth));
    assert_eq!(state.apply(&from(0, param(-1, 0))), Err(Violation::UnknownSynth));
    assert_eq!(state.apply(&from(0, param(0, 2))), Err(Violation::UnknownParam));
    assert_eq!(state.apply(&from(0, param(0, -1))), Err(Violation::UnknownParam));
    assert_eq!(state, RoomState::new());
}

#[test]
fn the_first_broken_rule_is_named() {
    let state = RoomState::new();
    assert_eq!(state.violation(&synth_seq(5, 99, vec![])), Some(Violation::UnknownSynth));
    assert_eq!(state.violation(&synth_seq(0, 99, vec![])), Some(Violation::UnknownBeat));
    assert_eq!(state.violation(&synth_seq(0, 3, vec![])), Some(Violation::VoiceWidthMismatch));
    assert_eq!(state.violation(&synth_seq(0, 3, vec![5, 5])), None);
    assert_eq!(state.violation(&connect("x")), None);
    assert_eq!(state.violation(&RoomStateUpdate::Disconnect), None);
}

#[test]
fn the_width_to_match_is_the_width_the_beat_holds() {
    let mut state = RoomState::new();
    state.synth_sequences[1][2] = vec![0, 0, 0];
    assert_eq!(state.apply(&from(0, synth_seq(1, 2, vec![4, 5, 6]))), Ok(()));
    assert_eq!(state.synth_sequences[1][2], vec![4, 5, 6]);
    assert_eq!(state.apply(&from(0, synth_seq(1, 2, vec![4]))), Err(Violation::VoiceWidthMismatch));
    assert_eq!(state.synth_sequences[1][2], vec![4, 5, 6]);
}

#[test]
fn replaying_an_edit_changes_nothing() {
    let mut once = RoomState::new();
    let edit = from(0, synth_seq(0, 3, vec![11, 12]));
    assert_eq!(once.apply(&edit), Ok(()));
    let mut twice = once.clone();
    assert_eq!(twice.apply(&edit), Ok(()));
    assert_eq!(once, twice);
    assert_eq!(twice.synth_sequences[0][3], vec![11, 12]);
}

#[test]
fn connect_appends_to_the_roster() {
    let mut state = RoomState::new();
    assert_eq!(state.apply(&from(4, connect("dora"))), Ok(()));
    assert_eq!(state.apply(&from(2, connect("bert"))), Ok(()));
    assert_eq!(
        state.connected_clients,
        vec![(4, "dora".to_string()), (2, "bert".to_string())]
    );
    assert_eq!(state.roster_position(2), Some(1));
    assert_eq!(state.roster_position(4), Some(0));
    assert_eq!(state.roster_position(3), None);
}

#[test]
fn disconnect_keeps_the_order_of_the_others() {
    let mut state = RoomState::new();
    for (id, name) in [(0, "a"), (1, "b"), (2, "c"), (3, "d")] {
        assert_eq!(state.apply(&from(id, connect(name))), Ok(()));
    }
    assert_eq!(state.apply(&from(0, RoomStateUpdate::Disconnect)), Ok(()));
    assert_eq!(
        state.connected_clients,
        vec![(1, "b".to_string()), (2, "c".to_string()), (3, "d".to_string())]
    );
    assert_eq!(state.apply(&from(2, RoomStateUpdate::Disconnect)), Ok(()));
    assert_eq!(state.connected_clients, vec![(1, "b".to_string()), (3, "d".to_string())]);
}

#[test]
fn disconnect_of_an_unlisted_client_changes_nothing() {
    let mut state = RoomState::new();
    assert_eq!(state.apply(&from(0, connect("a"))), Ok(()));
    let before = state.clone();
    assert_eq!(state.apply(&from(9, RoomStateUpdate::Disconnect)), Ok(()));
    assert_eq!(state, before);
}

#[test]
fn disconnect_takes_out_the_first_entry_only() {
    let mut state = RoomState::new();
    assert_eq!(state.apply(&from(0, connect("old"))), Ok(()));
    assert_eq!(state.apply(&from(1, connect("b"))), Ok(()));
    assert_eq!(state.apply(&from(0, connect("new"))), Ok(()));
    assert_eq!(state.apply(&from(0, RoomStateUpdate::Disconnect)), Ok(()));
    assert_eq!(state.connected_clients, vec![(1, "b".to_string()), (0, "new".to_string())]);
}

#[test]
fn clone_is_deep_and_equal() {
    let mut state = RoomState::new();
    assert_eq!(state.apply(&from(0, connect("a"))), Ok(()));
    assert_eq!(state.apply(&from(0, synth_seq(0, 1, vec![2, 3]))), Ok(()));
    let copy = state.clone();
    assert_eq!(copy, state);
    assert_eq!(state.apply(&from(0, synth_seq(0, 1, vec![8, 9]))), Ok(()));
    assert_eq!(copy.synth_sequences[0][1], vec![2, 3]);
    assert_ne!(copy, state);
    let update = synth_seq(1, 2, vec![5]);
    assert_eq!(update.clone(), update);
    let msg = from(7, connect("zed"));
    assert_eq!(msg.clone(), msg);
}
