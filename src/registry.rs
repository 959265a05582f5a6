use vstd::prelude::*;

verus! {

/// The keys of `s` are strictly ascending, so no key occurs twice.
pub open spec fn keys_ascending<S>(s: Seq<(usize, S)>) -> bool {
    forall|i: int, j: int| 0 <= i < j < s.len() ==> s[i].0 < s[j].0
}

/// The keys of `s`, in order.
pub open spec fn keys_of<S>(s: Seq<(usize, S)>) -> Seq<usize> {
    s.map_values(|e: (usize, S)| e.0)
}

/// Some entry of `s` has key `id`.
pub open spec fn has_key<S>(s: Seq<(usize, S)>, id: usize) -> bool {
    exists|i: int| 0 <= i < s.len() && #[trigger] s[i].0 == id
}

/// `post` is `pre` with the sink of `id` set to `sink`, added if absent.
pub open spec fn registered<S>(pre: Seq<(usize, S)>, post: Seq<(usize, S)>, id: usize, sink: S) -> bool {
    &&& post.contains((id, sink))
    &&& forall|e: (usize, S)| #[trigger] post.contains(e) && e.0 == id ==> e == (id, sink)
    &&& forall|e: (usize, S)|
        #![trigger post.contains(e)]
        #![trigger pre.contains(e)]
        e.0 != id ==> (post.contains(e) <==> pre.contains(e))
}

/// `post` is `pre` without the entry of `id`, if there was one.
pub open spec fn unregistered<S>(pre: Seq<(usize, S)>, post: Seq<(usize, S)>, id: usize) -> bool {
    forall|e: (usize, S)|
        #![trigger post.contains(e)]
        #![trigger pre.contains(e)]
        post.contains(e) <==> (pre.contains(e) && e.0 != id)
}

/// The outbound sink of each connected peer, kept in ascending id order.
pub struct PeerRegistry<S> {
    entries: Vec<(usize, S)>,
}

impl<S> View for PeerRegistry<S> {
    type V = Seq<(usize, S)>;

    closed spec fn view(&self) -> Seq<(usize, S)> {
        self.entries@
    }
}

impl<S> PeerRegistry<S> {
    /// Every id occurs at most once, in ascending order.
    pub open spec fn wf(&self) -> bool {
        keys_ascending(self@)
    }

    /// An empty registry.
    pub fn new() -> (r: PeerRegistry<S>)
        ensures
            r.wf(),
            r@ == Seq::<(usize, S)>::empty(),
    {
        PeerRegistry { entries: Vec::new() }
    }

    /// The first index whose entry has an id not below `id`.
    fn position(&self, id: usize) -> (i: usize)
        requires
            self.wf(),
        ensures
            i <= self@.len(),
            forall|j: int| 0 <= j < i ==> #[trigger] self@[j].0 < id,
            i < self@.len() ==> self@[i as int].0 >= id,
    {
        let mut i: usize = 0;
        while i < self.entries.len()
            invariant
                i <= self.entries@.len(),
                forall|j: int| 0 <= j < i ==> #[trigger] self.entries@[j].0 < id,
            decreases self.entries@.len() - i,
        {
            if self.entries[i].0 >= id {
                return i;
            }
            i = i + 1;
        }
        i
    }

    /// Whether peer `id` is registered.
    pub fn contains(&self, id: usize) -> (r: bool)
        requires
            self.wf(),
        ensures
            r == has_key(self@, id),
    {
        let i = self.position(id);
        if i < self.entries.len() && self.entries[i].0 == id {
            true
        } else {
            assert forall|j: int| 0 <= j < self@.len() implies #[trigger] self@[j].0 != id by {
                if j > i {
                    assert(self@[i as int].0 < self@[j].0);
                }
            }
            false
        }
    }

    /// The sink of peer `id`, if it is registered.
    pub fn sink(&self, id: usize) -> (r: Option<&S>)
        requires
            self.wf(),
        ensures
            r is Some <==> has_key(self@, id),
            r matches Some(s) ==> self@.contains((id, *s)),
    {
        let i = self.position(id);
        if i < self.entries.len() && self.entries[i].0 == id {
            assert(self@[i as int] == (id, self@[i as int].1));
            Some(&self.entries[i].1)
        } else {
            assert forall|j: int| 0 <= j < self@.len() implies #[trigger] self@[j].0 != id by {
                if j > i {
                    assert(self@[i as int].0 < self@[j].0);
                }
            }
            None
        }
    }

    /// The registered ids, in ascending order.
    pub fn ids(&self) -> (r: Vec<usize>)
        ensures
            r@ == keys_of(self@),
    {
        let mut r: Vec<usize> = Vec::new();
        let mut i: usize = 0;
        while i < self.entries.len()
            invariant
                i <= self.entries@.len(),
                r@ == keys_of(self.entries@.subrange(0, i as int)),
            decreases self.entries@.len() - i,
        {
            r.push(self.entries[i].0);
            i = i + 1;
            assert(r@ =~= keys_of(self.entries@.subrange(0, i as int)));
        }
        assert(self.entries@.subrange(0, i as int) =~= self.entries@);
        r
    }

    /// Makes `sink` the sink of peer `id`, replacing any earlier one.
    pub fn register(&mut self, id: usize, sink: S)
        requires
            old(self).wf(),
        ensures
            final(self).wf(),
            registered(old(self)@, final(self)@, id, sink),
    {
        let i = self.position(id);
        let ghost pre = self.entries@;
        let ghost item = (id, sink);
        if i < self.entries.len() && self.entries[i].0 == id {
            self.entries.set(i, (id, sink));
            let ghost post = self.entries@;
            assert(post[i as int] == item);
            assert forall|e: (usize, S)| #[trigger] post.contains(e) && e.0 == id implies e
                == item by {
                let j = choose|j: int| 0 <= j < post.len() && post[j] == e;
                if j < i {
                    assert(pre[j].0 < pre[i as int].0);
                } else if j > i {
                    assert(pre[i as int].0 < pre[j].0);
                }
            }
            assert forall|e: (usize, S)| e.0 != id implies (#[trigger] post.contains(e)
                <==> pre.contains(e)) by {
                if post.contains(e) {
                    let j = choose|j: int| 0 <= j < post.len() && post[j] == e;
                    assert(pre[j] == e);
                }
                if pre.contains(e) {
                    let j = choose|j: int| 0 <= j < pre.len() && pre[j] == e;
                    assert(post[j] == e);
                }
            }
        } else {
            self.entries.insert(i, (id, sink));
            let ghost post = self.entries@;
            assert(post[i as int] == item);
            assert forall|a: int, b: int| 0 <= a < b < post.len() implies post[a].0
                < post[b].0 by {
                if b < i {
                } else if b == i {
                    assert(post[a] == pre[a]);
                } else if a < i {
                    assert(post[b] == pre[b - 1]);
                } else if a == i {
                    assert(post[b] == pre[b - 1]);
                    assert(pre[i as int].0 >= id);
                    if b - 1 > i {
                        assert(pre[i as int].0 < pre[b - 1].0);
                    }
                } else {
                    assert(post[a] == pre[a - 1]);
                    assert(post[b] == pre[b - 1]);
                }
            }
            assert forall|e: (usize, S)| #[trigger] post.contains(e) && e.0 == id implies e
                == item by {
                let j = choose|j: int| 0 <= j < post.len() && post[j] == e;
                if j < i {
                    assert(post[j] == pre[j]);
                } else if j > i {
                    assert(post[j] == pre[j - 1]);
                    assert(pre[i as int].0 >= id);
                    if j - 1 > i {
                        assert(pre[i as int].0 < pre[j - 1].0);
                    }
                }
            }
            assert forall|e: (usize, S)| e.0 != id implies (#[trigger] post.contains(e)
                <==> pre.contains(e)) by {
                if post.contains(e) {
                    let j = choose|j: int| 0 <= j < post.len() && post[j] == e;
                    if j < i {
                        assert(pre[j] == e);
                    } else {
                        assert(pre[j - 1] == e);
                    }
                }
                if pre.contains(e) {
                    let j = choose|j: int| 0 <= j < pre.len() && pre[j] == e;
                    if j < i {
                        assert(post[j] == e);
                    } else {
                        assert(post[j + 1] == e);
                    }
                }
            }
        }
    }

    /// Removes peer `id` and hands back its sink, if it was registered.
    pub fn unregister(&mut self, id: usize) -> (r: Option<S>)
        requires
            old(self).wf(),
        ensures
            final(self).wf(),
            unregistered(old(self)@, final(self)@, id),
            r is Some <==> has_key(old(self)@, id),
            r is None ==> final(self)@ == old(self)@,
            r matches Some(s) ==> old(self)@.contains((id, s)),
    {
        let i = self.position(id);
        let ghost pre = self.entries@;
        if i < self.entries.len() && self.entries[i].0 == id {
            let (_, sink) = self.entries.remove(i);
            let ghost post = self.entries@;
            assert(pre[i as int] == (id, sink));
            assert forall|a: int, b: int| 0 <= a < b < post.len() implies post[a].0
                < post[b].0 by {
                if b < i {
                } else if a < i {
                    assert(post[b] == pre[b + 1]);
                } else {
                    assert(post[a] == pre[a + 1]);
                    assert(post[b] == pre[b + 1]);
                }
            }
            assert forall|e: (usize, S)| #[trigger] post.contains(e) <==> (pre.contains(e) && e.0
                != id) by {
                if post.contains(e) {
                    let j = choose|j: int| 0 <= j < post.len() && post[j] == e;
                    if j < i {
                        assert(pre[j] == e);
                    } else {
                        assert(pre[j + 1] == e);
                        assert(pre[i as int].0 < pre[j + 1].0);
                    }
                }
                if pre.contains(e) && e.0 != id {
                    let j = choose|j: int| 0 <= j < pre.len() && pre[j] == e;
                    if j < i {
                        assert(post[j] == e);
                    } else {
                        assert(j != i);
                        assert(post[j - 1] == e);
                    }
                }
            }
            Some(sink)
        } else {
            assert forall|j: int| 0 <= j < pre.len() implies #[trigger] pre[j].0 != id by {
                if j > i {
                    assert(pre[i as int].0 < pre[j].0);
                }
            }
            assert forall|e: (usize, S)| #[trigger] pre.contains(e) implies e.0 != id by {
                let j = choose|j: int| 0 <= j < pre.len() && pre[j] == e;
            }
            None
        }
    }
}

} // verus!
