//! The shared document: note grids, synth parameters and the roster.

use vstd::prelude::*;
use crate::roster::{
    lemma_roster_position_is, lemma_roster_position_none, roster_position, roster_without,
    RosterEntry,
};
use crate::update::{RoomStateUpdate, RoomStateUpdateFromClient, UpdateFromClientView, UpdateView};

verus! {

/// Number of synths in a fresh document.
pub const NUM_SYNTHS: usize = 2;

/// Number of beats of every grid.
pub const NUM_BEATS: usize = 16;

/// Voices per beat of the first synth.
pub const NUM_SYNTH_VOICES_0: usize = 2;

/// Voices per beat of the second synth.
pub const NUM_SYNTH_VOICES_1: usize = 1;

/// Voices per beat of the sampler.
pub const NUM_SAMPLER_VOICES: usize = 2;

/// Note rows that a client shows for a synth.
pub const NUM_SYNTH_NOTE_ROWS: i32 = 14;

/// Note rows that a client shows for the sampler.
pub const NUM_SAMPLER_NOTE_ROWS: i32 = 2;

/// Parameters per synth.
pub const NUM_SYNTH_PARAMS: usize = 2;

/// The cell value that stands for "no note".
pub const NO_NOTE: i32 = -1;

/// The note that a fresh document plays on every fourth beat of the first synth.
pub const OPENING_NOTE: i32 = 60;

/// Bit pattern of 6000.0, the value that the first parameter starts with.
pub const PARAM_0_DEFAULT: u64 = 0x40b7_7000_0000_0000;

/// Bit pattern of 0.005, the value that the second parameter starts with.
pub const PARAM_1_DEFAULT: u64 = 0x3f74_7ae1_47ae_147b;

/// What is known of one synth parameter before anybody has touched it.
///
/// The value is the bit pattern of an IEEE 754 binary64 number.
#[derive(Debug, Clone, Copy, PartialEq, Eq, Structural)]
pub struct SynthParam {
    pub default_value: u64,
}

impl SynthParam {
    /// The parameter at `param_ix`, or nothing where a synth has no such
    /// parameter.
    pub open spec fn spec_at(param_ix: int) -> Option<SynthParam> {
        if param_ix == 0 {
            Some(SynthParam { default_value: PARAM_0_DEFAULT })
        } else if param_ix == 1 {
            Some(SynthParam { default_value: PARAM_1_DEFAULT })
        } else {
            None
        }
    }

    /// The parameter at `param_ix`, or nothing where a synth has no such
    /// parameter.
    pub fn at(param_ix: usize) -> (r: Option<SynthParam>)
        ensures
            r == SynthParam::spec_at(param_ix as int),
            r is Some <==> param_ix < NUM_SYNTH_PARAMS,
    {
        if param_ix == 0 {
            Some(SynthParam { default_value: PARAM_0_DEFAULT })
        } else if param_ix == 1 {
            Some(SynthParam { default_value: PARAM_1_DEFAULT })
        } else {
            None
        }
    }
}

/// Why an edit was turned down. The document is untouched in each case.
#[derive(Debug, Clone, Copy, PartialEq, Eq, Structural)]
pub enum Violation {
    /// The edit names a synth that the document does not have.
    UnknownSynth,
    /// The edit names a beat that the addressed grid does not have.
    UnknownBeat,
    /// The edit brings another number of voices than the addressed beat has.
    VoiceWidthMismatch,
    /// The edit names a parameter that the addressed synth does not have.
    UnknownParam,
}

/// The document that all clients of a room share.
///
/// `synth_sequences[s][b]` holds the voices of beat `b` of synth `s`,
/// `sampler_sequence[b]` those of the sampler. A voice is a note row, or
/// [`NO_NOTE`]. `synth_params[s][p]` is the bit pattern of parameter `p` of
/// synth `s`. `connected_clients` lists the clients that have declared a
/// name, in the order in which they did.
#[derive(Debug, PartialEq, Eq)]
pub struct RoomState {
    pub num_synth_note_rows: i32,
    pub num_sampler_note_rows: i32,
    pub synth_sequences: Vec<Vec<Vec<i32>>>,
    pub synth_params: Vec<Vec<u64>>,
    pub sampler_sequence: Vec<Vec<i32>>,
    pub connected_clients: Vec<(i32, String)>,
}

/// A [`RoomState`] as a mathematical value.
pub struct RoomStateView {
    pub num_synth_note_rows: i32,
    pub num_sampler_note_rows: i32,
    pub synth_sequences: Seq<Seq<Seq<i32>>>,
    pub synth_params: Seq<Seq<u64>>,
    pub sampler_sequence: Seq<Seq<i32>>,
    pub connected_clients: Seq<RosterEntry>,
}

impl View for RoomState {
    type V = RoomStateView;

    open spec fn view(&self) -> RoomStateView {
        RoomStateView {
            num_synth_note_rows: self.num_synth_note_rows,
            num_sampler_note_rows: self.num_sampler_note_rows,
            synth_sequences: self.synth_sequences.deep_view(),
            synth_params: self.synth_params.deep_view(),
            sampler_sequence: self.sampler_sequence.deep_view(),
            connected_clients: self.connected_clients.deep_view(),
        }
    }
}

impl RoomStateView {
    /// The document that a room starts with: silence, but for one note on
    /// every fourth beat of the first synth; every parameter at its default;
    /// nobody connected.
    pub open spec fn initial() -> RoomStateView {
        RoomStateView {
            num_synth_note_rows: NUM_SYNTH_NOTE_ROWS,
            num_sampler_note_rows: NUM_SAMPLER_NOTE_ROWS,
            synth_sequences: seq![
                Seq::new(
                    NUM_BEATS as nat,
                    |b: int|
                        if b % 4 == 0 {
                            seq![OPENING_NOTE, NO_NOTE]
                        } else {
                            seq![NO_NOTE, NO_NOTE]
                        },
                ),
                Seq::new(NUM_BEATS as nat, |b: int| seq![NO_NOTE]),
            ],
            synth_params: seq![
                seq![PARAM_0_DEFAULT, PARAM_1_DEFAULT],
                seq![PARAM_0_DEFAULT, PARAM_1_DEFAULT],
            ],
            sampler_sequence: Seq::new(NUM_BEATS as nat, |b: int| seq![NO_NOTE, NO_NOTE]),
            connected_clients: Seq::empty(),
        }
    }

    /// The shape that every document of a room has: each grid has
    /// [`NUM_BEATS`] beats, all beats of one synth have the same number of
    /// voices, the sampler has [`NUM_SAMPLER_VOICES`] on each beat, and each
    /// synth has [`NUM_SYNTH_PARAMS`] parameters.
    pub open spec fn wf(self) -> bool {
        &&& self.synth_params.len() == self.synth_sequences.len()
        &&& forall|s: int|
            0 <= s < self.synth_sequences.len() ==> (#[trigger] self.synth_sequences[s]).len()
                == NUM_BEATS
        &&& forall|s: int, b: int|
            0 <= s < self.synth_sequences.len() && 0 <= b < self.synth_sequences[s].len() ==> (
            #[trigger] self.synth_sequences[s][b]).len() == self.synth_sequences[s][0].len()
        &&& forall|s: int|
            0 <= s < self.synth_params.len() ==> (#[trigger] self.synth_params[s]).len()
                == NUM_SYNTH_PARAMS
        &&& self.sampler_sequence.len() == NUM_BEATS
        &&& forall|b: int|
            0 <= b < self.sampler_sequence.len() ==> (#[trigger] self.sampler_sequence[b]).len()
                == NUM_SAMPLER_VOICES
    }

    /// Whether two documents have grids and parameter lists of the same
    /// lengths throughout.
    pub open spec fn same_shape(self, other: RoomStateView) -> bool {
        &&& self.synth_sequences.len() == other.synth_sequences.len()
        &&& forall|s: int|
            0 <= s < self.synth_sequences.len() ==> (#[trigger] self.synth_sequences[s]).len()
                == other.synth_sequences[s].len()
        &&& forall|s: int, b: int|
            0 <= s < self.synth_sequences.len() && 0 <= b < self.synth_sequences[s].len() ==> (
            #[trigger] self.synth_sequences[s][b]).len() == other.synth_sequences[s][b].len()
        &&& self.synth_params.len() == other.synth_params.len()
        &&& forall|s: int|
            0 <= s < self.synth_params.len() ==> (#[trigger] self.synth_params[s]).len()
                == other.synth_params[s].len()
        &&& self.sampler_sequence.len() == other.sampler_sequence.len()
        &&& forall|b: int|
            0 <= b < self.sampler_sequence.len() ==> (#[trigger] self.sampler_sequence[b]).len()
                == other.sampler_sequence[b].len()
    }

    /// The rule that `update` breaks against this document, if any. The
    /// number of voices that an edit must bring is the number that the
    /// addressed beat holds.
    pub open spec fn violation(self, update: UpdateView) -> Option<Violation> {
        match update {
            UpdateView::Connect { .. } => None,
            UpdateView::Disconnect => None,
            UpdateView::SynthSeq { synth_ix, beat_ix, active_cell_ixs, .. } => {
                if !(0 <= synth_ix < self.synth_sequences.len()) {
                    Some(Violation::UnknownSynth)
                } else if !(0 <= beat_ix < self.synth_sequences[synth_ix as int].len()) {
                    Some(Violation::UnknownBeat)
                } else if active_cell_ixs.len()
                    != self.synth_sequences[synth_ix as int][beat_ix as int].len() {
                    Some(Violation::VoiceWidthMismatch)
                } else {
                    None
                }
            },
            UpdateView::SamplerSeq { beat_ix, active_cell_ixs, .. } => {
                if !(0 <= beat_ix < self.sampler_sequence.len()) {
                    Some(Violation::UnknownBeat)
                } else if active_cell_ixs.len() != self.sampler_sequence[beat_ix as int].len() {
                    Some(Violation::VoiceWidthMismatch)
                } else {
                    None
                }
            },
            UpdateView::SynthParam { synth_ix, param_ix, .. } => {
                if !(0 <= synth_ix < self.synth_params.len()) {
                    Some(Violation::UnknownSynth)
                } else if !(0 <= param_ix < self.synth_params[synth_ix as int].len()) {
                    Some(Violation::UnknownParam)
                } else {
                    None
                }
            },
        }
    }

    /// The document after `msg`. An update that breaks a rule leaves it as
    /// it is. Connect adds the sender at the end of the roster, Disconnect
    /// takes the sender's first entry out of it, an edit overwrites what it
    /// addresses.
    pub open spec fn apply(self, msg: UpdateFromClientView) -> RoomStateView {
        if self.violation(msg.update) is Some {
            self
        } else {
            match msg.update {
                UpdateView::Connect { username } => RoomStateView {
                    connected_clients: self.connected_clients.push((msg.client_id, username)),
                    ..self
                },
                UpdateView::Disconnect => RoomStateView {
                    connected_clients: roster_without(self.connected_clients, msg.client_id),
                    ..self
                },
                UpdateView::SynthSeq { synth_ix, beat_ix, active_cell_ixs, .. } => RoomStateView {
                    synth_sequences: self.synth_sequences.update(
                        synth_ix as int,
                        self.synth_sequences[synth_ix as int].update(
                            beat_ix as int,
                            active_cell_ixs,
                        ),
                    ),
                    ..self
                },
                UpdateView::SamplerSeq { beat_ix, active_cell_ixs, .. } => RoomStateView {
                    sampler_sequence: self.sampler_sequence.update(beat_ix as int, active_cell_ixs),
                    ..self
                },
                UpdateView::SynthParam { synth_ix, param_ix, value } => RoomStateView {
                    synth_params: self.synth_params.update(
                        synth_ix as int,
                        self.synth_params[synth_ix as int].update(param_ix as int, value),
                    ),
                    ..self
                },
            }
        }
    }
}

/// A grid of `beats` beats with `voices` voices each, every voice `value`.
fn filled_grid(beats: usize, voices: usize, value: i32) -> (grid: Vec<Vec<i32>>)
    ensures
        grid.deep_view() == Seq::new(
            beats as nat,
            |b: int| Seq::new(voices as nat, |v: int| value),
        ),
        grid@.len() == beats,
        forall|b: int|
            0 <= b < beats ==> (#[trigger] grid@[b])@ == Seq::new(voices as nat, |v: int| value),
{
    let mut grid: Vec<Vec<i32>> = Vec::new();
    let mut b: usize = 0;
    while b < beats
        invariant
            b <= beats,
            grid@.len() == b,
            forall|i: int|
                0 <= i < b ==> (#[trigger] grid@[i])@ == Seq::new(voices as nat, |v: int| value),
        decreases beats - b,
    {
        let mut row: Vec<i32> = Vec::new();
        let mut v: usize = 0;
        while v < voices
            invariant
                v <= voices,
                row@.len() == v,
                forall|i: int| 0 <= i < v ==> #[trigger] row@[i] == value,
            decreases voices - v,
        {
            row.push(value);
            v = v + 1;
        }
        assert(row@ =~= Seq::new(voices as nat, |v: int| value));
        grid.push(row);
        b = b + 1;
    }
    assert(grid.deep_view() =~~= Seq::new(
        beats as nat,
        |b: int| Seq::new(voices as nat, |v: int| value),
    ));
    grid
}

/// An independent copy of a grid.
fn copy_grid(grid: &Vec<Vec<i32>>) -> (copy: Vec<Vec<i32>>)
    ensures
        copy.deep_view() == grid.deep_view(),
{
    let mut copy: Vec<Vec<i32>> = Vec::new();
    let mut b: usize = 0;
    while b < grid.len()
        invariant
            b <= grid@.len(),
            copy@.len() == b,
            forall|i: int| 0 <= i < b ==> (#[trigger] copy@[i])@ == grid@[i]@,
        decreases grid@.len() - b,
    {
        let row = grid[b].clone();
        assert(row@ =~= grid@[b as int]@);
        copy.push(row);
        b = b + 1;
    }
    assert(copy.deep_view() =~~= grid.deep_view());
    copy
}

impl RoomState {
    /// The document that a room starts with.
    pub fn new() -> (state: RoomState)
        ensures
            state@ == RoomStateView::initial(),
            state@.wf(),
    {
        let mut synth_sequence0 = filled_grid(NUM_BEATS, NUM_SYNTH_VOICES_0, NO_NOTE);
        let synth_sequence1 = filled_grid(NUM_BEATS, NUM_SYNTH_VOICES_1, NO_NOTE);
        synth_sequence0[0][0] = OPENING_NOTE;
        synth_sequence0[4][0] = OPENING_NOTE;
        synth_sequence0[8][0] = OPENING_NOTE;
        synth_sequence0[12][0] = OPENING_NOTE;
        proof {
            let first = RoomStateView::initial().synth_sequences[0];
            assert forall|b: int| 0 <= b < NUM_BEATS implies (#[trigger] synth_sequence0@[b])@
                == first[b] by {
                assert(synth_sequence0@[b]@ =~= first[b]);
            }
            assert(synth_sequence0.deep_view() =~~= first);
        }
        let mut synth_sequences: Vec<Vec<Vec<i32>>> = Vec::new();
        synth_sequences.push(synth_sequence0);
        synth_sequences.push(synth_sequence1);
        let mut synth_params: Vec<Vec<u64>> = Vec::new();
        let mut synth_ix: usize = 0;
        while synth_ix < NUM_SYNTHS
            invariant
                synth_ix <= NUM_SYNTHS,
                synth_params@.len() == synth_ix,
                forall|s: int|
                    0 <= s < synth_ix ==> (#[trigger] synth_params@[s])@ == seq![
                        PARAM_0_DEFAULT,
                        PARAM_1_DEFAULT,
                    ],
            decreases NUM_SYNTHS - synth_ix,
        {
            let mut params: Vec<u64> = Vec::new();
            let mut param_ix: usize = 0;
            while param_ix < NUM_SYNTH_PARAMS
                invariant
                    param_ix <= NUM_SYNTH_PARAMS,
                    params@.len() == param_ix,
                    forall|p: int|
                        0 <= p < param_ix ==> SynthParam::spec_at(p) == Some(
                            SynthParam { default_value: #[trigger] params@[p] },
                        ),
                decreases NUM_SYNTH_PARAMS - param_ix,
            {
                match SynthParam::at(param_ix) {
                    Some(param) => params.push(param.default_value),
                    None => {},
                }
                param_ix = param_ix + 1;
            }
            assert(params@ =~= seq![PARAM_0_DEFAULT, PARAM_1_DEFAULT]);
            synth_params.push(params);
            synth_ix = synth_ix + 1;
        }
        let state = RoomState {
            num_synth_note_rows: NUM_SYNTH_NOTE_ROWS,
            num_sampler_note_rows: NUM_SAMPLER_NOTE_ROWS,
            synth_sequences,
            synth_params,
            sampler_sequence: filled_grid(NUM_BEATS, NUM_SAMPLER_VOICES, NO_NOTE),
            connected_clients: Vec::new(),
        };
        proof {
            let init = RoomStateView::initial();
            assert(state@.synth_sequences =~~= init.synth_sequences);
            assert(state@.synth_params =~~= init.synth_params);
            assert(state@.sampler_sequence =~~= init.sampler_sequence);
            assert(state@.connected_clients =~= init.connected_clients);
        }
        state
    }

    /// The rule that `update` breaks against this document, if any.
    pub fn violation(&self, update: &RoomStateUpdate) -> (r: Option<Violation>)
        ensures
            r == self@.violation(update@),
    {
        match update {
            RoomStateUpdate::Connect { .. } => None,
            RoomStateUpdate::Disconnect => None,
            RoomStateUpdate::SynthSeq { synth_ix, beat_ix, active_cell_ixs, .. } => {
                if *synth_ix < 0 || *synth_ix as usize >= self.synth_sequences.len() {
                    return Some(Violation::UnknownSynth);
                }
                let grid = &self.synth_sequences[*synth_ix as usize];
                if *beat_ix < 0 || *beat_ix as usize >= grid.len() {
                    return Some(Violation::UnknownBeat);
                }
                if grid[*beat_ix as usize].len() != active_cell_ixs.len() {
                    return Some(Violation::VoiceWidthMismatch);
                }
                None
            },
            RoomStateUpdate::SamplerSeq { beat_ix, active_cell_ixs, .. } => {
                if *beat_ix < 0 || *beat_ix as usize >= self.sampler_sequence.len() {
                    return Some(Violation::UnknownBeat);
                }
                if self.sampler_sequence[*beat_ix as usize].len() != active_cell_ixs.len() {
                    return Some(Violation::VoiceWidthMismatch);
                }
                None
            },
            RoomStateUpdate::SynthParam { synth_ix, param_ix, .. } => {
                if *synth_ix < 0 || *synth_ix as usize >= self.synth_params.len() {
                    return Some(Violation::UnknownSynth);
                }
                let params = &self.synth_params[*synth_ix as usize];
                if *param_ix < 0 || *param_ix as usize >= params.len() {
                    return Some(Violation::UnknownParam);
                }
                None
            },
        }
    }

    /// The place of the first roster entry of client `id`.
    pub fn roster_position(&self, id: i32) -> (r: Option<usize>)
        ensures
            match r {
                Some(i) => roster_position(self@.connected_clients, id) == Some(i as int),
                None => roster_position(self@.connected_clients, id) is None,
            },
    {
        let mut i: usize = 0;
        while i < self.connected_clients.len()
            invariant
                i <= self.connected_clients@.len(),
                forall|j: int| 0 <= j < i ==> (#[trigger] self@.connected_clients[j]).0 != id,
            decreases self.connected_clients@.len() - i,
        {
            if self.connected_clients[i].0 == id {
                proof {
                    lemma_roster_position_is(self@.connected_clients, id, i as int);
                }
                return Some(i);
            }
            i = i + 1;
        }
        proof {
            lemma_roster_position_none(self@.connected_clients, id);
        }
        None
    }

    /// Carries out `msg`, or turns it down and leaves the document as it is.
    ///
    /// Connect adds the sender at the end of the roster. Disconnect takes the
    /// sender's first entry out of the roster and keeps the order of the
    /// others; a sender without an entry changes nothing. An edit overwrites
    /// the voices of the addressed beat, or the addressed parameter, and is
    /// turned down where it names what the document does not have or brings
    /// another number of voices than the beat holds.
    pub fn apply(&mut self, msg: &RoomStateUpdateFromClient) -> (r: Result<(), Violation>)
        ensures
            match r {
                Ok(()) => old(self)@.violation(msg@.update) is None,
                Err(v) => old(self)@.violation(msg@.update) == Some(v),
            },
            final(self)@ == old(self)@.apply(msg@),
            r is Err ==> final(self)@ == old(self)@,
            final(self)@.same_shape(old(self)@),
    {
        match self.violation(&msg.update) {
            Some(v) => {
                return Err(v);
            },
            None => {},
        }
        match &msg.update {
            RoomStateUpdate::Connect { username } => {
                self.connected_clients.push((msg.client_id, username.clone()));
                assert(self@.connected_clients =~= old(self)@.connected_clients.push(
                    (msg.client_id, username@),
                ));
            },
            RoomStateUpdate::Disconnect => {
                match self.roster_position(msg.client_id) {
                    Some(client_ix) => {
                        self.connected_clients.remove(client_ix);
                        assert(self@.connected_clients =~= old(self)@.connected_clients.remove(
                            client_ix as int,
                        ));
                    },
                    None => {},
                }
            },
            RoomStateUpdate::SynthSeq { synth_ix, beat_ix, active_cell_ixs, .. } => {
                let voices = active_cell_ixs.clone();
                assert(voices@ =~= active_cell_ixs@);
                self.synth_sequences[*synth_ix as usize][*beat_ix as usize] = voices;
                assert(self@.synth_sequences =~~= old(self)@.apply(msg@).synth_sequences);
            },
            RoomStateUpdate::SamplerSeq { beat_ix, active_cell_ixs, .. } => {
                let voices = active_cell_ixs.clone();
                assert(voices@ =~= active_cell_ixs@);
                self.sampler_sequence[*beat_ix as usize] = voices;
                assert(self@.sampler_sequence =~~= old(self)@.apply(msg@).sampler_sequence);
            },
            RoomStateUpdate::SynthParam { synth_ix, param_ix, value } => {
                self.synth_params[*synth_ix as usize][*param_ix as usize] = *value;
                assert(self@.synth_params =~~= old(self)@.apply(msg@).synth_params);
            },
        }
        Ok(())
    }
}

impl Clone for RoomState {
    /// An independent copy of the whole document.
    fn clone(&self) -> (copy: RoomState)
        ensures
            copy@ == self@,
    {
        let mut synth_sequences: Vec<Vec<Vec<i32>>> = Vec::new();
        let mut s: usize = 0;
        while s < self.synth_sequences.len()
            invariant
                s <= self.synth_sequences@.len(),
                synth_sequences@.len() == s,
                forall|i: int|
                    0 <= i < s ==> (#[trigger] synth_sequences@[i]).deep_view()
                        == self.synth_sequences@[i].deep_view(),
            decreases self.synth_sequences@.len() - s,
        {
            synth_sequences.push(copy_grid(&self.synth_sequences[s]));
            s = s + 1;
        }
        let mut synth_params: Vec<Vec<u64>> = Vec::new();
        let mut s: usize = 0;
        while s < self.synth_params.len()
            invariant
                s <= self.synth_params@.len(),
                synth_params@.len() == s,
                forall|i: int|
                    0 <= i < s ==> (#[trigger] synth_params@[i])@ == self.synth_params@[i]@,
            decreases self.synth_params@.len() - s,
        {
            let params = self.synth_params[s].clone();
            assert(params@ =~= self.synth_params@[s as int]@);
            synth_params.push(params);
            s = s + 1;
        }
        let mut connected_clients: Vec<(i32, String)> = Vec::new();
        let mut c: usize = 0;
        while c < self.connected_clients.len()
            invariant
                c <= self.connected_clients@.len(),
                connected_clients@.len() == c,
                forall|i: int|
                    0 <= i < c ==> (#[trigger] connected_clients@[i]).deep_view()
                        == self.connected_clients@[i].deep_view(),
            decreases self.connected_clients@.len() - c,
        {
            let entry = &self.connected_clients[c];
            connected_clients.push((entry.0, entry.1.clone()));
            c = c + 1;
        }
        let copy = RoomState {
            num_synth_note_rows: self.num_synth_note_rows,
            num_sampler_note_rows: self.num_sampler_note_rows,
            synth_sequences,
            synth_params,
            sampler_sequence: copy_grid(&self.sampler_sequence),
            connected_clients,
        };
        proof {
            assert(copy@.synth_sequences =~~= self@.synth_sequences);
            assert(copy@.synth_params =~~= self@.synth_params);
            assert(copy@.connected_clients =~~= self@.connected_clients);
        }
        copy
    }
}

} // verus!
