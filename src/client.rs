use vstd::prelude::*;

use crate::protocol::{Point, RemoteState, ServerMessage};

verus! {

/// Bit pattern of the `f32` value 100.0, where a player starts on both axes.
pub const START_COORDINATE: u32 = 0x42C8_0000;

/// Whether a state belongs to some peer other than `id`.
pub open spec fn not_of(id: usize) -> spec_fn(RemoteState) -> bool {
    |s: RemoteState| s.id != id
}

/// What a client knows of the shared world: its own state and the states
/// that the relay last sent of everyone.
pub struct Game {
    pub quit: bool,
    pub player_state: RemoteState,
    pub remote_states: Vec<RemoteState>,
}

impl Game {
    /// A client that has no id yet (0), at the start position, facing up.
    pub fn new() -> (r: Game)
        ensures
            !r.quit,
            r.player_state == (RemoteState {
                id: 0,
                position: Point { x: START_COORDINATE, y: START_COORDINATE },
                rotation: 0,
            }),
            r.remote_states@ == Seq::<RemoteState>::empty(),
    {
        Game {
            quit: false,
            player_state: RemoteState::new(0, START_COORDINATE, START_COORDINATE, 0),
            remote_states: Vec::new(),
        }
    }

    /// Applies a message from the relay: `Welcome` sets the player's id,
    /// `GoodBye` drops the departed peer's states, `Update` replaces them all.
    pub fn handle_message(&mut self, msg: ServerMessage)
        ensures
            final(self).quit == old(self).quit,
            match msg {
                ServerMessage::Welcome(id) => {
                    &&& final(self).player_state == (RemoteState { id, ..old(self).player_state })
                    &&& final(self).remote_states@ == old(self).remote_states@
                },
                ServerMessage::GoodBye(id) => {
                    &&& final(self).player_state == old(self).player_state
                    &&& final(self).remote_states@ == old(self).remote_states@.filter(not_of(id))
                },
                ServerMessage::Update(v) => {
                    &&& final(self).player_state == old(self).player_state
                    &&& final(self).remote_states@ == v@
                },
            },
    {
        match msg {
            ServerMessage::Welcome(id) => {
                self.player_state.id = id;
            },
            ServerMessage::GoodBye(id) => {
                let ghost all = self.remote_states@;
                let mut kept: Vec<RemoteState> = Vec::new();
                let mut i: usize = 0;
                while i < self.remote_states.len()
                    invariant
                        i <= all.len(),
                        self.remote_states@ == all,
                        kept@ == all.subrange(0, i as int).filter(not_of(id)),
                    decreases all.len() - i,
                {
                    let s = self.remote_states[i];
                    proof {
                        let next = all.subrange(0, i + 1);
                        assert(next.drop_last() =~= all.subrange(0, i as int));
                        assert(next.last() == s);
                        reveal(Seq::filter);
                    }
                    if s.id != id {
                        kept.push(s);
                    }
                    i = i + 1;
                }
                assert(all.subrange(0, i as int) =~= all);
                self.remote_states = kept;
            },
            ServerMessage::Update(v) => {
                self.remote_states = v;
            },
        }
    }
}

} // verus!
