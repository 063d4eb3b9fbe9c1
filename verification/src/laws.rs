//! Laws of the store, stated over the transition and listing predicates that
//! the operations' contracts establish. Adds and deletes appear atomic to
//! every caller, so any execution with concurrent callers serializes into a
//! chain of these steps.
use vstd::prelude::*;

use crate::store::{add_step, delete_step, TodoServiceImpl, TodoWithId};

verus! {

/// The counter after `n` successful adds stands `n` above where it started.
proof fn lemma_chain_counter(
    states: Seq<TodoServiceImpl>,
    ids: Seq<u64>,
    todos: Seq<Seq<char>>,
    owners: Seq<Seq<char>>,
    n: int,
)
    requires
        states.len() == ids.len() + 1,
        todos.len() == ids.len(),
        owners.len() == ids.len(),
        forall|m: int|
            0 <= m < ids.len() ==> add_step(
                #[trigger] states[m],
                states[m + 1],
                todos[m],
                owners[m],
                ids[m],
            ),
        0 <= n <= ids.len(),
    ensures
        states[n].next_id_spec() == states[0].next_id_spec() + n,
    decreases n,
{
    if n > 0 {
        lemma_chain_counter(states, ids, todos, owners, n - 1);
        assert(add_step(states[n - 1], states[n], todos[n - 1], owners[n - 1], ids[n - 1]));
    }
}

/// Monotonic allocation: along any chain of successful adds, the identifiers
/// are issued in strictly increasing order.
pub proof fn lemma_add_ids_strictly_increase(
    states: Seq<TodoServiceImpl>,
    ids: Seq<u64>,
    todos: Seq<Seq<char>>,
    owners: Seq<Seq<char>>,
)
    requires
        states.len() == ids.len() + 1,
        todos.len() == ids.len(),
        owners.len() == ids.len(),
        forall|m: int|
            0 <= m < ids.len() ==> add_step(
                #[trigger] states[m],
                states[m + 1],
                todos[m],
                owners[m],
                ids[m],
            ),
    ensures
        forall|m: int, n: int| 0 <= m < n < ids.len() ==> ids[m] < ids[n],
{
    assert forall|m: int, n: int| 0 <= m < n < ids.len() implies ids[m] < ids[n] by {
        lemma_chain_counter(states, ids, todos, owners, m);
        lemma_chain_counter(states, ids, todos, owners, n);
        assert(add_step(states[m], states[m + 1], todos[m], owners[m], ids[m]));
        assert(add_step(states[n], states[n + 1], todos[n], owners[n], ids[n]));
    }
}

/// Uniqueness: the identifiers returned along any chain of successful adds are
/// pairwise distinct.
pub proof fn lemma_add_ids_unique(
    states: Seq<TodoServiceImpl>,
    ids: Seq<u64>,
    todos: Seq<Seq<char>>,
    owners: Seq<Seq<char>>,
)
    requires
        states.len() == ids.len() + 1,
        todos.len() == ids.len(),
        owners.len() == ids.len(),
        forall|m: int|
            0 <= m < ids.len() ==> add_step(
                #[trigger] states[m],
                states[m + 1],
                todos[m],
                owners[m],
                ids[m],
            ),
    ensures
        forall|m: int, n: int| 0 <= m < ids.len() && 0 <= n < ids.len() && m != n ==> ids[m]
            != ids[n],
{
    lemma_add_ids_strictly_increase(states, ids, todos, owners);
}

/// Read-your-write: once an add for `owner` returns identifier `id`, a listing
/// for `owner` holds exactly one entry under `id`, and it carries the payload
/// that was added.
pub proof fn lemma_read_your_write(
    pre: TodoServiceImpl,
    post: TodoServiceImpl,
    todo: Seq<char>,
    owner: Seq<char>,
    id: u64,
    out: Seq<TodoWithId>,
)
    requires
        !pre.contents().contains_key(id),
        add_step(pre, post, todo, owner, id),
        post.lists(owner, out),
    ensures
        exists|k: int| 0 <= k < out.len() && (#[trigger] out[k]).id == id,
        forall|k: int|
            0 <= k < out.len() && (#[trigger] out[k]).id == id ==> out[k].todo@ == todo,
        forall|k1: int, k2: int|
            0 <= k1 < out.len() && 0 <= k2 < out.len() && out[k1].id == id && out[k2].id == id
                ==> k1 == k2,
{
    assert(post.contents().contains_key(id));
    assert(post.contents()[id].owner == owner);
}

/// Owner isolation: a listing for `owner` never carries an entry whose stored
/// owner differs from `owner`.
pub proof fn lemma_owner_isolation(
    s: TodoServiceImpl,
    owner: Seq<char>,
    out: Seq<TodoWithId>,
    k: int,
)
    requires
        s.lists(owner, out),
        0 <= k < out.len(),
    ensures
        s.contents().contains_key(out[k].id),
        s.contents()[out[k].id].owner == owner,
{
}

/// Idempotent delete: deleting the same identifier twice leaves the store
/// exactly as one delete does.
pub proof fn lemma_delete_idempotent(
    s0: TodoServiceImpl,
    s1: TodoServiceImpl,
    s2: TodoServiceImpl,
    id: u64,
)
    requires
        delete_step(s0, s1, id),
        delete_step(s1, s2, id),
    ensures
        s2.contents() == s1.contents(),
        s2.next_id_spec() == s1.next_id_spec(),
{
    assert(s0.contents().remove(id).remove(id) =~= s0.contents().remove(id));
}

/// After a delete of `id`, no listing for any owner carries `id` again.
pub proof fn lemma_deleted_not_listed(
    pre: TodoServiceImpl,
    post: TodoServiceImpl,
    id: u64,
    owner: Seq<char>,
    out: Seq<TodoWithId>,
)
    requires
        delete_step(pre, post, id),
        post.lists(owner, out),
    ensures
        forall|k: int| 0 <= k < out.len() ==> (#[trigger] out[k]).id != id,
{
    assert forall|k: int| 0 <= k < out.len() implies (#[trigger] out[k]).id != id by {
        assert(!post.contents().contains_key(id));
    }
}

} // verus!
