use vstd::prelude::*;

use crate::protocol::{ClientMessage, RemoteState};
use crate::registry::{has_key, keys_of};
use crate::relay::{departed, joined, received, reported, Delivery, Relay};
use crate::store::{ids_ascending, upserted};

verus! {

/// Over any run of admissions, each taken from a state no earlier than the
/// end of the one before, the assigned ids are strictly increasing, hence
/// pairwise distinct; and none was held by a connected peer when assigned.
pub proof fn admission_ids_strictly_increase<S>(
    pre: Seq<Relay<S>>,
    post: Seq<Relay<S>>,
    ids: Seq<usize>,
)
    requires
        pre.len() == ids.len(),
        post.len() == ids.len(),
        forall|i: int| 0 <= i < ids.len() ==> joined(#[trigger] pre[i], post[i], ids[i]),
        forall|i: int| 0 <= i < ids.len() - 1 ==> #[trigger] post[i].next_id() <= pre[i + 1].next_id(),
    ensures
        forall|i: int, j: int| 0 <= i < j < ids.len() ==> ids[i] < ids[j],
        forall|i: int| 0 <= i < ids.len() ==> !has_key(#[trigger] pre[i].peers(), ids[i]),
    decreases ids.len(),
{
    if ids.len() > 1 {
        let n = ids.len() - 1;
        admission_ids_strictly_increase(pre.drop_last(), post.drop_last(), ids.drop_last());
        assert(joined(pre[n - 1], post[n - 1], ids[n - 1]));
        assert(joined(pre[n], post[n], ids[n]));
        assert(post[n - 1].next_id() <= pre[n].next_id());
        assert forall|i: int, j: int| 0 <= i < j < ids.len() implies ids[i] < ids[j] by {
            if j < n {
                assert(ids.drop_last()[i] < ids.drop_last()[j]);
            } else if i < n - 1 {
                assert(ids.drop_last()[i] < ids.drop_last()[n - 1]);
            }
        }
        assert forall|i: int| 0 <= i < ids.len() implies !has_key(#[trigger] pre[i].peers(), ids[i]) by {
            assert(joined(pre[i], post[i], ids[i]));
        }
    } else {
        assert forall|i: int| 0 <= i < ids.len() implies !has_key(#[trigger] pre[i].peers(), ids[i]) by {
            assert(joined(pre[i], post[i], ids[i]));
        }
    }
}

/// After peer `id` leaves, it is in neither the registry nor the world state,
/// every other peer stays connected, and the `GoodBye` goes to each peer still
/// connected exactly once, and to no other.
pub proof fn departure_is_complete<S>(pre: Relay<S>, post: Relay<S>, id: usize, d: Delivery)
    requires
        pre.wf(),
        post.wf(),
        departed(pre, post, id, d),
    ensures
        !has_key(post.peers(), id),
        forall|e: RemoteState| #[trigger] post.world().contains(e) ==> e.id != id,
        forall|k: usize| has_key(post.peers(), k) <==> (has_key(pre.peers(), k) && k != id),
        forall|k: usize| #[trigger] d.to@.contains(k) <==> has_key(post.peers(), k),
        d.to@.no_duplicates(),
        !d.to@.contains(id),
{
    let p = pre.peers();
    let q = post.peers();
    assert forall|k: usize| has_key(q, k) implies has_key(p, k) && k != id by {
        let i = choose|i: int| 0 <= i < q.len() && #[trigger] q[i].0 == k;
        assert(q.contains(q[i]));
        let j = choose|j: int| 0 <= j < p.len() && p[j] == q[i];
        assert(p[j].0 == k);
    }
    assert forall|k: usize| has_key(p, k) && k != id implies has_key(q, k) by {
        let i = choose|i: int| 0 <= i < p.len() && #[trigger] p[i].0 == k;
        assert(p.contains(p[i]));
        assert(q.contains(p[i]));
        let j = choose|j: int| 0 <= j < q.len() && q[j] == p[i];
        assert(q[j].0 == k);
    }
    assert forall|k: usize| #[trigger] d.to@.contains(k) <==> has_key(q, k) by {
        if d.to@.contains(k) {
            let i = choose|i: int| 0 <= i < d.to@.len() && d.to@[i] == k;
            assert(keys_of(q)[i] == q[i].0);
        }
        if has_key(q, k) {
            let i = choose|i: int| 0 <= i < q.len() && #[trigger] q[i].0 == k;
            assert(d.to@[i] == k);
        }
    }
    assert forall|i: int, j: int| 0 <= i < d.to@.len() && 0 <= j < d.to@.len() && i != j implies d.to@[i]
        != d.to@[j] by {
        assert(d.to@[i] == q[i].0);
        assert(d.to@[j] == q[j].0);
    }
}

/// Recording `s` leaves exactly one entry for `s.id` in the world state, and
/// it is `s`, whatever was there before.
pub proof fn upsert_leaves_one_entry(pre: Seq<RemoteState>, post: Seq<RemoteState>, s: RemoteState)
    requires
        ids_ascending(post),
        upserted(pre, post, s),
    ensures
        exists|k: int|
            0 <= k < post.len() && post[k] == s && forall|j: int|
                0 <= j < post.len() && #[trigger] post[j].id == s.id ==> j == k,
{
    let k = choose|k: int| 0 <= k < post.len() && post[k] == s;
    assert forall|j: int| 0 <= j < post.len() && #[trigger] post[j].id == s.id implies j == k by {
        if j < k {
            assert(post[j].id < post[k].id);
        } else if j > k {
            assert(post[k].id < post[j].id);
        }
    }
}

/// A payload of peer `a` that could not be decoded changes nothing, so a
/// report that connected peer `b` sends after it is recorded, as the one entry
/// for `b`.
pub proof fn malformed_payload_is_harmless<S>(
    r0: Relay<S>,
    r1: Relay<S>,
    r2: Relay<S>,
    a: usize,
    b: usize,
    m: ClientMessage,
)
    requires
        r2.wf(),
        received(r0, r1, a, None),
        received(r1, r2, b, Some(m)),
        has_key(r0.peers(), b),
    ensures
        r1.world() == r0.world(),
        r2.world().contains(reported(b, m)),
        exists|k: int|
            0 <= k < r2.world().len() && r2.world()[k] == reported(b, m) && forall|j: int|
                0 <= j < r2.world().len() && #[trigger] r2.world()[j].id == b ==> j == k,
{
    upsert_leaves_one_entry(r1.world(), r2.world(), reported(b, m));
}

} // verus!
