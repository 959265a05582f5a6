use vstd::prelude::*;

use crate::protocol::RemoteState;

verus! {

/// The entries of `s` have strictly ascending ids, so no id occurs twice.
pub open spec fn ids_ascending(s: Seq<RemoteState>) -> bool {
    forall|i: int, j: int| 0 <= i < j < s.len() ==> s[i].id < s[j].id
}

/// `post` is `pre` with the entry of `s.id` set to `s`, inserted if absent.
pub open spec fn upserted(pre: Seq<RemoteState>, post: Seq<RemoteState>, s: RemoteState) -> bool {
    &&& post.contains(s)
    &&& forall|e: RemoteState| #[trigger] post.contains(e) && e.id == s.id ==> e == s
    &&& forall|e: RemoteState|
        #![trigger post.contains(e)]
        #![trigger pre.contains(e)]
        e.id != s.id ==> (post.contains(e) <==> pre.contains(e))
}

/// `post` is `pre` without the entry of `id`, if there was one.
pub open spec fn removed(pre: Seq<RemoteState>, post: Seq<RemoteState>, id: usize) -> bool {
    forall|e: RemoteState|
        #![trigger post.contains(e)]
        #![trigger pre.contains(e)]
        post.contains(e) <==> (pre.contains(e) && e.id != id)
}

/// The last reported state of each peer, kept in ascending id order.
pub struct WorldStateStore {
    entries: Vec<RemoteState>,
}

impl View for WorldStateStore {
    type V = Seq<RemoteState>;

    closed spec fn view(&self) -> Seq<RemoteState> {
        self.entries@
    }
}

impl WorldStateStore {
    /// Every id occurs at most once, in ascending order.
    pub open spec fn wf(&self) -> bool {
        ids_ascending(self@)
    }

    /// An empty store.
    pub fn new() -> (r: WorldStateStore)
        ensures
            r.wf(),
            r@ == Seq::<RemoteState>::empty(),
    {
        WorldStateStore { entries: Vec::new() }
    }

    /// The first index whose entry has an id not below `id`.
    fn position(&self, id: usize) -> (i: usize)
        requires
            self.wf(),
        ensures
            i <= self@.len(),
            forall|j: int| 0 <= j < i ==> #[trigger] self@[j].id < id,
            i < self@.len() ==> self@[i as int].id >= id,
    {
        let mut i: usize = 0;
        while i < self.entries.len()
            invariant
                i <= self.entries@.len(),
                forall|j: int| 0 <= j < i ==> #[trigger] self.entries@[j].id < id,
            decreases self.entries@.len() - i,
        {
            if self.entries[i].id >= id {
                return i;
            }
            i = i + 1;
        }
        i
    }

    /// Records `state` as the state of peer `state.id`, replacing any earlier one
    /// wholesale.
    pub fn upsert(&mut self, state: RemoteState)
        requires
            old(self).wf(),
        ensures
            final(self).wf(),
            upserted(old(self)@, final(self)@, state),
    {
        let i = self.position(state.id);
        let ghost pre = self.entries@;
        if i < self.entries.len() && self.entries[i].id == state.id {
            self.entries.set(i, state);
            let ghost post = self.entries@;
            assert(post[i as int] == state);
            assert forall|e: RemoteState| #[trigger] post.contains(e) && e.id == state.id implies e
                == state by {
                let j = choose|j: int| 0 <= j < post.len() && post[j] == e;
                if j < i {
                    assert(pre[j].id < pre[i as int].id);
                } else if j > i {
                    assert(pre[i as int].id < pre[j].id);
                }
            }
            assert forall|e: RemoteState| e.id != state.id implies (#[trigger] post.contains(e)
                <==> pre.contains(e)) by {
                if post.contains(e) {
                    let j = choose|j: int| 0 <= j < post.len() && post[j] == e;
                    assert(pre[j] == e);
                }
                if pre.contains(e) {
                    let j = choose|j: int| 0 <= j < pre.len() && pre[j] == e;
                    assert(post[j] == e);
                }
            }
        } else {
            self.entries.insert(i, state);
            let ghost post = self.entries@;
            assert(post[i as int] == state);
            assert forall|a: int, b: int| 0 <= a < b < post.len() implies post[a].id
                < post[b].id by {
                if b < i {
                } else if b == i {
                    assert(post[a] == pre[a]);
                } else if a < i {
                    assert(post[b] == pre[b - 1]);
                } else if a == i {
                    assert(post[b] == pre[b - 1]);
                    assert(pre[i as int].id >= state.id);
                    if b - 1 > i {
                        assert(pre[i as int].id < pre[b - 1].id);
                    }
                } else {
                    assert(post[a] == pre[a - 1]);
                    assert(post[b] == pre[b - 1]);
                }
            }
            assert forall|e: RemoteState| #[trigger] post.contains(e) && e.id == state.id implies e
                == state by {
                let j = choose|j: int| 0 <= j < post.len() && post[j] == e;
                if j < i {
                    assert(post[j] == pre[j]);
                } else if j > i {
                    assert(post[j] == pre[j - 1]);
                    assert(pre[i as int].id >= state.id);
                    if j - 1 > i {
                        assert(pre[i as int].id < pre[j - 1].id);
                    }
                }
            }
            assert forall|e: RemoteState| e.id != state.id implies (#[trigger] post.contains(e)
                <==> pre.contains(e)) by {
                if post.contains(e) {
                    let j = choose|j: int| 0 <= j < post.len() && post[j] == e;
                    if j < i {
                        assert(pre[j] == e);
                    } else {
                        assert(pre[j - 1] == e);
                    }
                }
                if pre.contains(e) {
                    let j = choose|j: int| 0 <= j < pre.len() && pre[j] == e;
                    if j < i {
                        assert(post[j] == e);
                    } else {
                        assert(post[j + 1] == e);
                    }
                }
            }
        }
    }

    /// Forgets the state of peer `id`, if any.
    pub fn remove(&mut self, id: usize)
        requires
            old(self).wf(),
        ensures
            final(self).wf(),
            removed(old(self)@, final(self)@, id),
    {
        let i = self.position(id);
        let ghost pre = self.entries@;
        if i < self.entries.len() && self.entries[i].id == id {
            self.entries.remove(i);
            let ghost post = self.entries@;
            assert forall|a: int, b: int| 0 <= a < b < post.len() implies post[a].id
                < post[b].id by {
                if b < i {
                } else if a < i {
                    assert(post[b] == pre[b + 1]);
                } else {
                    assert(post[a] == pre[a + 1]);
                    assert(post[b] == pre[b + 1]);
                }
            }
            assert forall|e: RemoteState| #[trigger] post.contains(e) <==> (pre.contains(e) && e.id
                != id) by {
                if post.contains(e) {
                    let j = choose|j: int| 0 <= j < post.len() && post[j] == e;
                    if j < i {
                        assert(pre[j] == e);
                    } else {
                        assert(pre[j + 1] == e);
                        assert(pre[i as int].id < pre[j + 1].id);
                    }
                }
                if pre.contains(e) && e.id != id {
                    let j = choose|j: int| 0 <= j < pre.len() && pre[j] == e;
                    if j < i {
                        assert(post[j] == e);
                    } else {
                        assert(j != i);
                        assert(post[j - 1] == e);
                    }
                }
            }
        } else {
            assert forall|e: RemoteState| #[trigger] pre.contains(e) implies e.id != id by {
                let j = choose|j: int| 0 <= j < pre.len() && pre[j] == e;
                if j > i {
                    assert(pre[i as int].id < pre[j].id);
                }
            }
        }
    }

    /// A point-in-time copy of all states, in ascending id order.
    pub fn snapshot(&self) -> (r: Vec<RemoteState>)
        ensures
            r@ == self@,
    {
        let mut r: Vec<RemoteState> = Vec::new();
        let mut i: usize = 0;
        while i < self.entries.len()
            invariant
                i <= self.entries@.len(),
                r@ == self.entries@.subrange(0, i as int),
            decreases self.entries@.len() - i,
        {
            r.push(self.entries[i]);
            i = i + 1;
            assert(r@ =~= self.entries@.subrange(0, i as int));
        }
        assert(r@ =~= self.entries@);
        r
    }
}

} // verus!
