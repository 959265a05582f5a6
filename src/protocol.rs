use vstd::prelude::*;

verus! {

/// A 2D point whose coordinates are the bit patterns of two `f32` values.
#[derive(Clone, Copy, Debug, PartialEq, Eq, Structural)]
pub struct Point {
    pub x: u32,
    pub y: u32,
}

/// The pose that a peer reports of itself.
#[derive(Clone, Copy, Debug, PartialEq, Eq, Structural)]
pub struct State {
    pub pos: Point,
    /// Bit pattern of the rotation, an `f32` in radians.
    pub r: u32,
}

/// The last pose reported by the peer `id`.
#[derive(Clone, Copy, Debug, PartialEq, Eq, Structural)]
pub struct RemoteState {
    pub id: usize,
    pub position: Point,
    /// Bit pattern of the rotation, an `f32` in radians.
    pub rotation: u32,
}

impl RemoteState {
    /// A state for peer `id` at `(x, y)` with the given rotation (all bit patterns).
    pub fn new(id: usize, x: u32, y: u32, rotation: u32) -> (r: RemoteState)
        ensures
            r == (RemoteState { id, position: Point { x, y }, rotation }),
    {
        RemoteState { id, position: Point { x, y }, rotation }
    }

    /// Sets the peer identifier.
    pub fn id(&mut self, id: usize)
        ensures
            *final(self) == (RemoteState { id, ..*old(self) }),
    {
        self.id = id;
    }

    /// Sets the rotation.
    pub fn rotation(&mut self, rotation: u32)
        ensures
            *final(self) == (RemoteState { rotation, ..*old(self) }),
    {
        self.rotation = rotation;
    }
}

/// A message from the relay to a peer.
#[derive(Clone, Debug, PartialEq, Eq)]
pub enum ServerMessage {
    /// The identifier assigned to the receiving peer.
    Welcome(usize),
    /// The peer with this identifier has left.
    GoodBye(usize),
    /// The states of all peers that have reported one, in ascending id order.
    Update(Vec<RemoteState>),
}

/// A message from a peer to the relay.
#[derive(Clone, Copy, Debug, PartialEq, Eq, Structural)]
pub enum ClientMessage {
    /// The sender's own pose.
    State(State),
}

} // verus!
