//! Messages exchanged with the synchronizer that drives an experiment run.

use vstd::prelude::*;

use crate::msg::Replica;

verus! {

/// The phase a synchronizer message reports or commands.
#[derive(Clone, Copy, Debug, PartialEq, Eq, Structural)]
pub enum SyncState {
    ALIVE,
    START,
    STARTED,
    COMPLETED,
    STOP,
    STOPPED,
}

/// A control message between a node and the synchronizer: the sender's
/// replica id, the phase, and an optional string payload (used to report a
/// delivered result).
#[derive(Clone, Debug, PartialEq, Eq)]
pub struct SyncMsg {
    pub sender: Replica,
    pub state: SyncState,
    pub value: String,
}

/// Mathematical model of a [`SyncMsg`].
pub ghost struct SyncMsgView {
    pub sender: Replica,
    pub state: SyncState,
    pub value: Seq<char>,
}

impl View for SyncMsg {
    type V = SyncMsgView;

    open spec fn view(&self) -> SyncMsgView {
        SyncMsgView { sender: self.sender, state: self.state, value: self.value@ }
    }
}

} // verus!
