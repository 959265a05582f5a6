use vstd::prelude::*;

use crate::protocol::{ClientMessage, RemoteState, ServerMessage};
use crate::registry::{has_key, keys_ascending, keys_of, registered, unregistered, PeerRegistry};
use crate::store::{ids_ascending, removed, upserted, WorldStateStore};

verus! {

/// One message and the peers it is to be sent to, one independent send each.
#[derive(Debug)]
pub struct Delivery {
    pub to: Vec<usize>,
    pub msg: ServerMessage,
}

/// The state that `state` reports for peer `id`.
pub open spec fn reported(id: usize, msg: ClientMessage) -> RemoteState {
    match msg {
        ClientMessage::State(s) => RemoteState { id, position: s.pos, rotation: s.r },
    }
}

/// The relay: the peer id allocator, the registry of connected peers and the
/// world state store, kept in lock-step.
pub struct Relay<S> {
    next_id: usize,
    users: PeerRegistry<S>,
    states: WorldStateStore,
}

/// `post` is `pre` after a peer joined under `id`.
pub open spec fn joined<S>(pre: Relay<S>, post: Relay<S>, id: usize) -> bool {
    &&& id == pre.next_id()
    &&& post.next_id() == id + 1
    &&& !has_key(pre.peers(), id)
    &&& has_key(post.peers(), id)
}

/// `post` is `pre` after one inbound payload of peer `id`; `None` stands for
/// one that could not be decoded.
pub open spec fn received<S>(
    pre: Relay<S>,
    post: Relay<S>,
    id: usize,
    payload: Option<ClientMessage>,
) -> bool {
    &&& post.next_id() == pre.next_id()
    &&& post.peers() == pre.peers()
    &&& match payload {
        Some(m) => if has_key(pre.peers(), id) {
            upserted(pre.world(), post.world(), reported(id, m))
        } else {
            post.world() == pre.world()
        },
        None => post.world() == pre.world(),
    }
}

/// `post` is `pre` after peer `id` left, and `d` announces it to those that remain.
pub open spec fn departed<S>(pre: Relay<S>, post: Relay<S>, id: usize, d: Delivery) -> bool {
    &&& post.next_id() == pre.next_id()
    &&& unregistered(pre.peers(), post.peers(), id)
    &&& removed(pre.world(), post.world(), id)
    &&& d.to@ == keys_of(post.peers())
    &&& d.msg == ServerMessage::GoodBye(id)
}

impl<S> Relay<S> {
    /// The id that the next joined peer gets.
    pub closed spec fn next_id(&self) -> usize {
        self.next_id
    }

    /// The connected peers and their sinks, in ascending id order.
    pub closed spec fn peers(&self) -> Seq<(usize, S)> {
        self.users@
    }

    /// The last reported state of each peer, in ascending id order.
    pub closed spec fn world(&self) -> Seq<RemoteState> {
        self.states@
    }

    /// Ids are unique and below the next id; only connected peers have a state.
    pub open spec fn wf(&self) -> bool {
        &&& keys_ascending(self.peers())
        &&& ids_ascending(self.world())
        &&& self.next_id() >= 1
        &&& forall|i: int| 0 <= i < self.peers().len() ==> #[trigger] self.peers()[i].0 < self.next_id()
        &&& forall|e: RemoteState| #[trigger] self.world().contains(e) ==> has_key(self.peers(), e.id)
    }

    /// A relay with no peers, whose first peer gets id 1.
    pub fn new() -> (r: Relay<S>)
        ensures
            r.wf(),
            r.next_id() == 1,
            r.peers() == Seq::<(usize, S)>::empty(),
            r.world() == Seq::<RemoteState>::empty(),
    {
        Relay { next_id: 1, users: PeerRegistry::new(), states: WorldStateStore::new() }
    }

    /// Whether peer `id` is connected.
    pub fn is_connected(&self, id: usize) -> (r: bool)
        requires
            self.wf(),
        ensures
            r == has_key(self.peers(), id),
    {
        self.users.contains(id)
    }

    /// The sink of peer `id`, if it is connected.
    pub fn sink(&self, id: usize) -> (r: Option<&S>)
        requires
            self.wf(),
        ensures
            r is Some <==> has_key(self.peers(), id),
            r matches Some(s) ==> self.peers().contains((id, *s)),
    {
        self.users.sink(id)
    }

    /// A point-in-time copy of the world state, in ascending id order.
    pub fn snapshot(&self) -> (r: Vec<RemoteState>)
        ensures
            r@ == self.world(),
    {
        self.states.snapshot()
    }

    /// Addresses `msg` to every connected peer.
    pub fn broadcast(&self, msg: ServerMessage) -> (r: Delivery)
        ensures
            r.to@ == keys_of(self.peers()),
            r.msg == msg,
    {
        Delivery { to: self.users.ids(), msg }
    }

    /// The periodic broadcast: the whole world state, to every connected peer.
    pub fn tick(&self) -> (r: Delivery)
        ensures
            r.to@ == keys_of(self.peers()),
            r.msg matches ServerMessage::Update(v) && v@ == self.world(),
    {
        self.broadcast(ServerMessage::Update(self.snapshot()))
    }

    /// Admits a peer: assigns it the next id, registers its sink and addresses
    /// `Welcome` to it alone. Fails only once every id has been used.
    pub fn connect(&mut self, sink: S) -> (r: Option<(usize, Delivery)>)
        requires
            old(self).wf(),
        ensures
            final(self).wf(),
            r is None <==> old(self).next_id() == usize::MAX,
            r is None ==> *final(self) == *old(self),
            r matches Some((id, d)) ==> {
                &&& joined(*old(self), *final(self), id)
                &&& registered(old(self).peers(), final(self).peers(), id, sink)
                &&& final(self).world() == old(self).world()
                &&& d.to@ == seq![id]
                &&& d.msg == ServerMessage::Welcome(id)
            },
    {
        if self.next_id == usize::MAX {
            return None;
        }
        let id = self.next_id;
        let ghost pre = self.peers();
        let ghost pre_w = self.world();
        proof {
            if has_key(pre, id) {
                let i = choose|i: int| 0 <= i < pre.len() && #[trigger] pre[i].0 == id;
            }
        }
        self.users.register(id, sink);
        self.next_id = id + 1;
        let ghost post = self.peers();
        assert(post.contains((id, sink)));
        proof {
            let j = choose|j: int| 0 <= j < post.len() && post[j] == (id, sink);
            assert(post[j].0 == id);
        }
        assert forall|i: int| 0 <= i < post.len() implies #[trigger] post[i].0 < self.next_id by {
            let e = post[i];
            assert(post.contains(e));
            if e.0 != id {
                assert(pre.contains(e));
                let j = choose|j: int| 0 <= j < pre.len() && pre[j] == e;
                assert(pre[j].0 < id);
            }
        }
        assert forall|e: RemoteState| #[trigger] self.world().contains(e) implies has_key(
            post,
            e.id,
        ) by {
            assert(pre_w.contains(e));
            assert(has_key(pre, e.id));
            let i = choose|i: int| 0 <= i < pre.len() && #[trigger] pre[i].0 == e.id;
            assert(pre.contains(pre[i]));
            assert(post.contains(pre[i]));
            let j = choose|j: int| 0 <= j < post.len() && post[j] == pre[i];
            assert(post[j].0 == e.id);
        }
        let mut to: Vec<usize> = Vec::new();
        to.push(id);
        assert(to@ =~= seq![id]);
        Some((id, Delivery { to, msg: ServerMessage::Welcome(id) }))
    }

    /// Applies a decoded message from peer `id`: its state replaces the peer's
    /// earlier one. A message from a peer that is not connected is ignored.
    pub fn user_message(&mut self, id: usize, msg: ClientMessage)
        requires
            old(self).wf(),
        ensures
            final(self).wf(),
            final(self).next_id() == old(self).next_id(),
            final(self).peers() == old(self).peers(),
            has_key(old(self).peers(), id) ==> upserted(
                old(self).world(),
                final(self).world(),
                reported(id, msg),
            ),
            !has_key(old(self).peers(), id) ==> final(self).world() == old(self).world(),
    {
        let ghost pre_p = self.peers();
        if self.users.contains(id) {
            let state = match msg {
                ClientMessage::State(s) => RemoteState { id, position: s.pos, rotation: s.r },
            };
            let ghost pre = self.world();
            self.states.upsert(state);
            assert forall|e: RemoteState| #[trigger] self.world().contains(e) implies has_key(
                self.peers(),
                e.id,
            ) by {
                if e.id != id {
                    assert(pre.contains(e));
                }
            }
        }
        assert(self.peers() == pre_p);
    }

    /// One inbound payload of peer `id`'s session: a decoded message is applied,
    /// and one that could not be decoded (`None`) is dropped with no effect.
    pub fn receive(&mut self, id: usize, payload: Option<ClientMessage>)
        requires
            old(self).wf(),
        ensures
            final(self).wf(),
            received(*old(self), *final(self), id, payload),
            payload is None ==> *final(self) == *old(self),
    {
        match payload {
            Some(m) => self.user_message(id, m),
            None => {},
        }
    }

    /// Ends peer `id`'s session, after its stream closed or failed, or a send
    /// to it failed: removes it from the registry and the store together, hands
    /// back its sink and addresses `GoodBye` to every peer that remains. Nothing
    /// happens, and nothing is sent, if `id` is not connected.
    pub fn disconnect(&mut self, id: usize) -> (r: Option<(S, Delivery)>)
        requires
            old(self).wf(),
        ensures
            final(self).wf(),
            final(self).next_id() == old(self).next_id(),
            unregistered(old(self).peers(), final(self).peers(), id),
            removed(old(self).world(), final(self).world(), id),
            !has_key(final(self).peers(), id),
            r is Some <==> has_key(old(self).peers(), id),
            r is None ==> *final(self) == *old(self),
            r matches Some((s, d)) ==> {
                &&& old(self).peers().contains((id, s))
                &&& departed(*old(self), *final(self), id, d)
            },
    {
        let ghost pre_users = self.peers();
        let ghost pre_states = self.world();
        if !self.users.contains(id) {
            assert forall|e: RemoteState| #[trigger] pre_states.contains(e) implies e.id != id by {
                assert(has_key(pre_users, e.id));
            }
            assert(removed(pre_states, pre_states, id));
            assert(unregistered(pre_users, pre_users, id));
            return None;
        }
        match self.users.unregister(id) {
            None => None,
            Some(sink) => {
                self.states.remove(id);
                let ghost post = self.peers();
                assert forall|i: int| 0 <= i < post.len() implies #[trigger] post[i].0
                    < self.next_id by {
                    assert(post.contains(post[i]));
                    assert(pre_users.contains(post[i]));
                    let j = choose|j: int| 0 <= j < pre_users.len() && pre_users[j] == post[i];
                    assert(pre_users[j].0 < self.next_id);
                }
                assert forall|e: RemoteState| #[trigger] self.world().contains(e) implies has_key(
                    post,
                    e.id,
                ) by {
                    assert(pre_states.contains(e) && e.id != id);
                    assert(has_key(pre_users, e.id));
                    let i = choose|i: int| 0 <= i < pre_users.len() && #[trigger] pre_users[i].0
                        == e.id;
                    assert(pre_users.contains(pre_users[i]));
                    assert(post.contains(pre_users[i]));
                    let j = choose|j: int| 0 <= j < post.len() && post[j] == pre_users[i];
                    assert(post[j].0 == e.id);
                }
                assert forall|i: int| 0 <= i < post.len() implies #[trigger] post[i].0 != id by {
                    assert(post.contains(post[i]));
                }
                let d = self.broadcast(ServerMessage::GoodBye(id));
                Some((sink, d))
            },
        }
    }
}

} // verus!
