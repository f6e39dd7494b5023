//! The messages by which a client changes the shared document.

use vstd::prelude::*;

verus! {

/// One change that a client asks for.
///
/// A parameter value is carried as the bit pattern of an IEEE 754 binary64
/// number: the document only ever stores and hands back such a value.
#[derive(Debug, PartialEq, Eq)]
pub enum RoomStateUpdate {
    /// The client declares the name it goes by.
    Connect { username: String },
    /// The client leaves, by its own will or because its connection broke.
    Disconnect,
    /// Replaces every voice of one beat of one synth.
    SynthSeq { synth_ix: i32, beat_ix: i32, active_cell_ixs: Vec<i32>, clicked_cell_ix: i32 },
    /// Replaces every voice of one beat of the sampler.
    SamplerSeq { beat_ix: i32, active_cell_ixs: Vec<i32>, clicked_cell_ix: i32 },
    /// Replaces one parameter of one synth.
    SynthParam { synth_ix: i32, param_ix: i32, value: u64 },
}

/// What a [`RoomStateUpdate`] says, as a mathematical value.
pub enum UpdateView {
    Connect { username: Seq<char> },
    Disconnect,
    SynthSeq { synth_ix: i32, beat_ix: i32, active_cell_ixs: Seq<i32>, clicked_cell_ix: i32 },
    SamplerSeq { beat_ix: i32, active_cell_ixs: Seq<i32>, clicked_cell_ix: i32 },
    SynthParam { synth_ix: i32, param_ix: i32, value: u64 },
}

impl UpdateView {
    /// Connect and Disconnect open and close a session; the other kinds are
    /// edits of the document.
    pub open spec fn is_session_control(self) -> bool {
        self is Connect || self is Disconnect
    }
}

impl View for RoomStateUpdate {
    type V = UpdateView;

    open spec fn view(&self) -> UpdateView {
        match *self {
            RoomStateUpdate::Connect { username } => UpdateView::Connect { username: username@ },
            RoomStateUpdate::Disconnect => UpdateView::Disconnect,
            RoomStateUpdate::SynthSeq { synth_ix, beat_ix, active_cell_ixs, clicked_cell_ix } => {
                UpdateView::SynthSeq {
                    synth_ix,
                    beat_ix,
                    active_cell_ixs: active_cell_ixs@,
                    clicked_cell_ix,
                }
            },
            RoomStateUpdate::SamplerSeq { beat_ix, active_cell_ixs, clicked_cell_ix } => {
                UpdateView::SamplerSeq {
                    beat_ix,
                    active_cell_ixs: active_cell_ixs@,
                    clicked_cell_ix,
                }
            },
            RoomStateUpdate::SynthParam { synth_ix, param_ix, value } => {
                UpdateView::SynthParam { synth_ix, param_ix, value }
            },
        }
    }
}

impl RoomStateUpdate {
    /// Whether this update opens or closes a session rather than editing the
    /// document.
    pub fn is_session_control(&self) -> (r: bool)
        ensures
            r == self@.is_session_control(),
    {
        match self {
            RoomStateUpdate::Connect { .. } => true,
            RoomStateUpdate::Disconnect => true,
            _ => false,
        }
    }
}

impl Clone for RoomStateUpdate {
    /// An independent copy that says the same.
    fn clone(&self) -> (r: RoomStateUpdate)
        ensures
            r@ == self@,
    {
        match self {
            RoomStateUpdate::Connect { username } => RoomStateUpdate::Connect {
                username: username.clone(),
            },
            RoomStateUpdate::Disconnect => RoomStateUpdate::Disconnect,
            RoomStateUpdate::SynthSeq { synth_ix, beat_ix, active_cell_ixs, clicked_cell_ix } => {
                let cells = active_cell_ixs.clone();
                assert(cells@ =~= active_cell_ixs@);
                RoomStateUpdate::SynthSeq {
                    synth_ix: *synth_ix,
                    beat_ix: *beat_ix,
                    active_cell_ixs: cells,
                    clicked_cell_ix: *clicked_cell_ix,
                }
            },
            RoomStateUpdate::SamplerSeq { beat_ix, active_cell_ixs, clicked_cell_ix } => {
                let cells = active_cell_ixs.clone();
                assert(cells@ =~= active_cell_ixs@);
                RoomStateUpdate::SamplerSeq {
                    beat_ix: *beat_ix,
                    active_cell_ixs: cells,
                    clicked_cell_ix: *clicked_cell_ix,
                }
            },
            RoomStateUpdate::SynthParam { synth_ix, param_ix, value } => {
                RoomStateUpdate::SynthParam {
                    synth_ix: *synth_ix,
                    param_ix: *param_ix,
                    value: *value,
                }
            },
        }
    }
}

/// An update together with the session that sent it.
#[derive(Debug, PartialEq, Eq)]
pub struct RoomStateUpdateFromClient {
    pub client_id: i32,
    pub update: RoomStateUpdate,
}

/// What a [`RoomStateUpdateFromClient`] says, as a mathematical value.
pub struct UpdateFromClientView {
    pub client_id: i32,
    pub update: UpdateView,
}

impl View for RoomStateUpdateFromClient {
    type V = UpdateFromClientView;

    open spec fn view(&self) -> UpdateFromClientView {
        UpdateFromClientView { client_id: self.client_id, update: self.update@ }
    }
}

impl Clone for RoomStateUpdateFromClient {
    /// An independent copy that says the same.
    fn clone(&self) -> (r: RoomStateUpdateFromClient)
        ensures
            r@ == self@,
    {
        RoomStateUpdateFromClient { client_id: self.client_id, update: self.update.clone() }
    }
}

} // verus!
