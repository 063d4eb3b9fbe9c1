//! The to-do store: identifier allocation and CRUD over an in-memory record
//! set. The store is an owned aggregate; a caller that needs shared access
//! wraps it in a synchronization primitive of its choice.
use vstd::prelude::*;

verus! {

/// The payload of a to-do item. The store treats it as an immutable value;
/// its schema is owned by the interface layer around the store.
pub struct Todo {
    pub text: String,
}

impl View for Todo {
    type V = Seq<char>;

    open spec fn view(&self) -> Seq<char> {
        self.text@
    }
}

impl Clone for Todo {
    fn clone(&self) -> (res: Self)
        ensures
            res == *self,
    {
        Todo { text: self.text.clone() }
    }
}

/// A to-do payload together with the identifier it is stored under, as
/// returned by a listing.
pub struct TodoWithId {
    pub id: u64,
    pub todo: Todo,
}

/// The errors a store operation can report. An absent payload on add is
/// rejected before any mutation; an internal fault stands for a
/// synchronization primitive left unusable by an aborting holder, which the
/// layer wrapping the store reports through the same taxonomy.
#[derive(Debug, PartialEq, Eq, Structural)]
pub enum StoreError {
    InvalidArgument,
    InternalError,
}

/// The mathematical value of one stored record: its payload and its owner.
pub struct Record {
    pub todo: Seq<char>,
    pub owner: Seq<char>,
}

struct StoredRecord {
    id: u64,
    owner: String,
    todo: Todo,
}

/// The to-do store: a mapping from identifier to record plus a next-identifier
/// counter. Identifiers are never reused: the counter is strictly greater
/// than every identifier ever issued.
pub struct TodoServiceImpl {
    records: Vec<StoredRecord>,
    next_id: u64,
}

spec fn record_model(r: StoredRecord) -> Record {
    Record { todo: r.todo@, owner: r.owner@ }
}

spec fn map_of(rs: Seq<StoredRecord>) -> Map<u64, Record>
    decreases rs.len(),
{
    if rs.len() == 0 {
        Map::empty()
    } else {
        map_of(rs.drop_last()).insert(rs.last().id, record_model(rs.last()))
    }
}

spec fn ids_unique(rs: Seq<StoredRecord>) -> bool {
    forall|i: int, j: int| 0 <= i < j < rs.len() ==> rs[i].id != rs[j].id
}

/// An identifier is a key of the mapping exactly when some record carries it.
proof fn lemma_map_of_dom(rs: Seq<StoredRecord>)
    ensures
        forall|id: u64| #[trigger]
            map_of(rs).contains_key(id) <==> exists|i: int| 0 <= i < rs.len() && rs[i].id == id,
    decreases rs.len(),
{
    if rs.len() > 0 {
        lemma_map_of_dom(rs.drop_last());
        assert forall|id: u64| #[trigger] map_of(rs).contains_key(id) implies exists|i: int|
            0 <= i < rs.len() && rs[i].id == id by {
            if id == rs.last().id {
                assert(rs[rs.len() - 1].id == id);
            } else {
                assert(map_of(rs.drop_last()).contains_key(id));
                let i = choose|i: int|
                    0 <= i < rs.drop_last().len() && rs.drop_last()[i].id == id;
                assert(rs[i].id == id);
            }
        }
        assert forall|id: u64| (exists|i: int| 0 <= i < rs.len() && rs[i].id == id) implies #[trigger]
            map_of(rs).contains_key(id) by {
            let i = choose|i: int| 0 <= i < rs.len() && rs[i].id == id;
            if i < rs.len() - 1 {
                assert(rs.drop_last()[i].id == id);
                assert(map_of(rs.drop_last()).contains_key(id));
            } else {
                assert(id == rs.last().id);
            }
        }
    }
}

/// With pairwise distinct identifiers, the mapping carries each record's
/// payload and owner under that record's identifier.
proof fn lemma_map_of_index(rs: Seq<StoredRecord>, i: int)
    requires
        ids_unique(rs),
        0 <= i < rs.len(),
    ensures
        map_of(rs).contains_key(rs[i].id),
        map_of(rs)[rs[i].id] == record_model(rs[i]),
    decreases rs.len(),
{
    if i < rs.len() - 1 {
        assert(rs.drop_last()[i] == rs[i]);
        lemma_map_of_index(rs.drop_last(), i);
        assert(rs[rs.len() - 1].id != rs[i].id);
    }
}

/// Removing one record removes exactly its key from the mapping.
proof fn lemma_map_of_remove(rs: Seq<StoredRecord>, i: int)
    requires
        ids_unique(rs),
        0 <= i < rs.len(),
    ensures
        map_of(rs.remove(i)) == map_of(rs).remove(rs[i].id),
    decreases rs.len(),
{
    let id = rs[i].id;
    rs.remove_ensures(i);
    if i == rs.len() - 1 {
        assert(rs.remove(i) =~= rs.drop_last());
        lemma_map_of_dom(rs.drop_last());
        assert(!map_of(rs.drop_last()).contains_key(id)) by {
            if map_of(rs.drop_last()).contains_key(id) {
                let j = choose|j: int|
                    0 <= j < rs.drop_last().len() && rs.drop_last()[j].id == id;
                assert(rs[j].id == id);
            }
        }
        assert(map_of(rs.drop_last()).insert(id, record_model(rs[i])).remove(id) =~= map_of(
            rs.drop_last(),
        ));
    } else {
        let shorter = rs.drop_last();
        assert(shorter[i] == rs[i]);
        lemma_map_of_remove(shorter, i);
        assert(rs.remove(i).drop_last() =~= shorter.remove(i));
        assert(rs.remove(i).last() == rs.last());
        assert(rs.last().id != id);
        assert(map_of(shorter).remove(id).insert(rs.last().id, record_model(rs.last())) =~= map_of(
            shorter,
        ).insert(rs.last().id, record_model(rs.last())).remove(id));
    }
}

/// A successful add: the returned identifier is the counter's prior value, the
/// counter advances by one, and the record joins the mapping under that
/// identifier.
pub open spec fn add_step(
    pre: TodoServiceImpl,
    post: TodoServiceImpl,
    todo: Seq<char>,
    owner: Seq<char>,
    id: u64,
) -> bool {
    &&& id == pre.next_id_spec()
    &&& post.next_id_spec() == pre.next_id_spec() + 1
    &&& post.contents() == pre.contents().insert(id, Record { todo, owner })
}

/// A delete: the identifier's record, if any, leaves the mapping; the counter
/// does not move.
pub open spec fn delete_step(pre: TodoServiceImpl, post: TodoServiceImpl, id: u64) -> bool {
    &&& post.contents() == pre.contents().remove(id)
    &&& post.next_id_spec() == pre.next_id_spec()
}

impl TodoServiceImpl {
    /// The mapping from identifier to record that the store currently holds.
    pub closed spec fn contents(self) -> Map<u64, Record> {
        map_of(self.records@)
    }

    /// The identifier the next successful add will return.
    pub closed spec fn next_id_spec(self) -> u64 {
        self.next_id
    }

    /// Well-formedness: identifiers are pairwise distinct and every stored
    /// identifier is below the counter, so the counter value is fresh.
    pub closed spec fn wf(self) -> bool {
        &&& ids_unique(self.records@)
        &&& forall|i: int|
            0 <= i < self.records@.len() ==> (#[trigger] self.records@[i]).id < self.next_id
    }

    /// Creates an empty store with the counter at zero.
    pub fn new() -> (s: Self)
        ensures
            s.wf(),
            s.contents() == Map::<u64, Record>::empty(),
            s.next_id_spec() == 0,
    {
        TodoServiceImpl { records: Vec::new(), next_id: 0 }
    }

    /// Whether another identifier can still be issued. Exhaustion of the
    /// 64-bit counter is the one machine limit on adding.
    pub fn can_allocate(&self) -> (b: bool)
        ensures
            b == (self.next_id_spec() < u64::MAX),
    {
        self.next_id < u64::MAX
    }

    /// Adds a to-do for `user_id`. A present payload is stored under a fresh
    /// identifier, which is returned; an absent payload is rejected before any
    /// mutation, and no identifier is consumed.
    pub fn add_todo(&mut self, todo: Option<Todo>, user_id: String) -> (r: Result<
        u64,
        StoreError,
    >)
        requires
            old(self).wf(),
            old(self).next_id_spec() < u64::MAX,
        ensures
            final(self).wf(),
            match todo {
                Some(t) => {
                    &&& r == Ok::<u64, StoreError>(old(self).next_id_spec())
                    &&& !old(self).contents().contains_key(old(self).next_id_spec())
                    &&& add_step(*old(self), *final(self), t@, user_id@, old(self).next_id_spec())
                },
                None => {
                    &&& r == Err::<u64, StoreError>(StoreError::InvalidArgument)
                    &&& *final(self) == *old(self)
                },
            },
    {
        match todo {
            Some(t) => {
                let id = self.next_id;
                proof {
                    lemma_map_of_dom(self.records@);
                }
                let rec = StoredRecord { id, owner: user_id, todo: t };
                self.records.push(rec);
                self.next_id = id + 1;
                proof {
                    assert(self.records@.drop_last() =~= old(self).records@);
                    assert forall|i: int, j: int|
                        0 <= i < j < self.records@.len() implies self.records@[i].id
                        != self.records@[j].id by {
                        if j < self.records@.len() - 1 {
                            assert(old(self).records@[i].id != old(self).records@[j].id);
                        } else {
                            assert(old(self).records@[i].id < id);
                        }
                    }
                }
                Ok(id)
            },
            None => Err(StoreError::InvalidArgument),
        }
    }

    /// What a listing for `owner` returns: entries that stand in one-to-one
    /// correspondence, in some order, with the stored records owned by
    /// `owner`, each carrying its identifier and payload.
    pub open spec fn lists(self, owner: Seq<char>, out: Seq<TodoWithId>) -> bool {
        &&& forall|k: int|
            0 <= k < out.len() ==> {
                &&& self.contents().contains_key((#[trigger] out[k]).id)
                &&& self.contents()[out[k].id].owner == owner
                &&& self.contents()[out[k].id].todo == out[k].todo@
            }
        &&& forall|id: u64|
            (#[trigger] self.contents().contains_key(id) && self.contents()[id].owner == owner)
                ==> exists|k: int| 0 <= k < out.len() && (#[trigger] out[k]).id == id
        &&& forall|k1: int, k2: int| 0 <= k1 < k2 < out.len() ==> out[k1].id != out[k2].id
    }

    /// Lists the to-dos owned by `user_id`: exactly the stored records whose
    /// owner equals it, in unspecified order. An unknown owner yields an empty
    /// list, not an error.
    pub fn get_todos(&self, user_id: &String) -> (out: Vec<TodoWithId>)
        requires
            self.wf(),
        ensures
            self.lists(user_id@, out@),
    {
        let mut out: Vec<TodoWithId> = Vec::new();
        let mut idx: usize = 0;
        while idx < self.records.len()
            invariant
                self.wf(),
                idx <= self.records@.len(),
                forall|k: int| #![trigger out@[k]]
                    0 <= k < out@.len() ==> exists|i: int|
                        {
                            &&& 0 <= i < idx
                            &&& out@[k].id == (#[trigger] self.records@[i]).id
                            &&& self.records@[i].owner@ == user_id@
                            &&& out@[k].todo@ == self.records@[i].todo@
                        },
                forall|i: int|
                    (0 <= i < idx && (#[trigger] self.records@[i]).owner@ == user_id@)
                        ==> exists|k: int| 0 <= k < out@.len() && (#[trigger] out@[k]).id
                        == self.records@[i].id,
                forall|k1: int, k2: int| 0 <= k1 < k2 < out@.len() ==> out@[k1].id != out@[k2].id,
            decreases self.records@.len() - idx,
        {
            let rec = &self.records[idx];
            if rec.owner == *user_id {
                proof {
                    assert forall|k: int| 0 <= k < out@.len() implies out@[k].id
                        != self.records@[idx as int].id by {
                        let i = choose|i: int|
                            {
                                &&& 0 <= i < idx
                                &&& out@[k].id == (#[trigger] self.records@[i]).id
                                &&& self.records@[i].owner@ == user_id@
                                &&& out@[k].todo@ == self.records@[i].todo@
                            };
                        assert(self.records@[i].id != self.records@[idx as int].id);
                    }
                }
                let ghost prev = out@;
                out.push(TodoWithId { id: rec.id, todo: rec.todo.clone() });
                proof {
                    let pushed: int = out@.len() - 1;
                    assert forall|k: int| #![trigger out@[k]] 0 <= k < out@.len() implies exists|
                        i: int,
                    |
                        {
                            &&& 0 <= i < idx + 1
                            &&& out@[k].id == (#[trigger] self.records@[i]).id
                            &&& self.records@[i].owner@ == user_id@
                            &&& out@[k].todo@ == self.records@[i].todo@
                        } by {
                        if k < pushed {
                            let i = choose|i: int|
                                {
                                    &&& 0 <= i < idx
                                    &&& prev[k].id == (#[trigger] self.records@[i]).id
                                    &&& self.records@[i].owner@ == user_id@
                                    &&& prev[k].todo@ == self.records@[i].todo@
                                };
                            assert(out@[k] == prev[k]);
                            assert(out@[k].id == self.records@[i].id);
                        } else {
                            assert(out@[k].id == self.records@[idx as int].id);
                        }
                    }
                    assert forall|i: int|
                        (0 <= i < idx + 1 && (#[trigger] self.records@[i]).owner@
                            == user_id@) implies exists|k: int|
                        0 <= k < out@.len() && (#[trigger] out@[k]).id == self.records@[i].id by {
                        if i < idx {
                            let k = choose|k: int|
                                0 <= k < prev.len() && (#[trigger] prev[k]).id
                                    == self.records@[i].id;
                            assert(out@[k].id == self.records@[i].id);
                        } else {
                            assert(out@[pushed].id == self.records@[i].id);
                        }
                    }
                }
            }
            idx += 1;
        }
        proof {
            lemma_map_of_dom(self.records@);
            assert forall|k: int| 0 <= k < out@.len() implies {
                &&& self.contents().contains_key((out@[k]).id)
                &&& self.contents()[out@[k].id].owner == user_id@
                &&& self.contents()[out@[k].id].todo == out@[k].todo@
            } by {
                let i = choose|i: int|
                    {
                        &&& 0 <= i < idx
                        &&& out@[k].id == (#[trigger] self.records@[i]).id
                        &&& self.records@[i].owner@ == user_id@
                        &&& out@[k].todo@ == self.records@[i].todo@
                    };
                lemma_map_of_index(self.records@, i);
            }
            assert forall|id: u64|
                self.contents().contains_key(id) && self.contents()[id].owner
                    == user_id@ implies exists|k: int|
                0 <= k < out@.len() && (#[trigger] out@[k]).id == id by {
                let i = choose|i: int| 0 <= i < self.records@.len() && self.records@[i].id == id;
                lemma_map_of_index(self.records@, i);
                assert(self.records@[i].owner@ == user_id@);
            }
        }
        out
    }

    /// Deletes the record stored under `todo_id`, if any. Deleting an unknown
    /// identifier is a silent no-op, so delete is idempotent; the counter is
    /// untouched either way.
    pub fn delete_todo(&mut self, todo_id: u64)
        requires
            old(self).wf(),
        ensures
            final(self).wf(),
            delete_step(*old(self), *final(self), todo_id),
    {
        let mut idx: usize = 0;
        while idx < self.records.len()
            invariant
                *self == *old(self),
                self.wf(),
                idx <= self.records@.len(),
                forall|i: int| 0 <= i < idx ==> (#[trigger] self.records@[i]).id != todo_id,
            decreases self.records@.len() - idx,
        {
            if self.records[idx].id == todo_id {
                proof {
                    lemma_map_of_remove(self.records@, idx as int);
                    self.records@.remove_ensures(idx as int);
                }
                let ghost before = self.records@;
                self.records.remove(idx);
                proof {
                    assert forall|i: int, j: int|
                        0 <= i < j < self.records@.len() implies self.records@[i].id
                        != self.records@[j].id by {
                        let i0: int = if i < idx { i } else { i + 1 };
                        let j0: int = if j < idx { j } else { j + 1 };
                        assert(self.records@[i] == before[i0]);
                        assert(self.records@[j] == before[j0]);
                    }
                    assert forall|i: int| 0 <= i < self.records@.len() implies (
                    #[trigger] self.records@[i]).id < self.next_id by {
                        let i0: int = if i < idx { i } else { i + 1 };
                        assert(self.records@[i] == before[i0]);
                    }
                }
                return;
            }
            idx += 1;
        }
        proof {
            lemma_map_of_dom(self.records@);
            assert(!self.contents().contains_key(todo_id));
            assert(self.contents().remove(todo_id) =~= self.contents());
        }
    }
}

} // verus!
