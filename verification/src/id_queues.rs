//! Queues of waiting items, one for each id: what arrives is put at the end
//! of the queue of its id, and what is taken is the oldest of its id.

use std::collections::HashMap;
use std::collections::VecDeque;
use vstd::prelude::*;
use vstd::std_specs::hash::group_hash_axioms;

verus! {

broadcast use group_hash_axioms;

/// The items of `items` with the id `id`, in their order.
pub open spec fn with_id<A>(items: Seq<A>, id_of: spec_fn(A) -> i32, id: i32) -> Seq<A>
    decreases items.len(),
{
    if items.len() == 0 {
        Seq::empty()
    } else if id_of(items[0]) == id {
        seq![items[0]] + with_id(items.skip(1), id_of, id)
    } else {
        with_id(items.skip(1), id_of, id)
    }
}

/// The place of the first of `items` with the id `id`.
pub open spec fn first_with_id<A>(items: Seq<A>, id_of: spec_fn(A) -> i32, id: i32) -> Option<int> {
    items.map_values(id_of).index_of_first(id)
}

/// The first item with an id is the oldest of that id; without it the
/// others of that id are left, and the items of every other id are as
/// before.
pub proof fn lemma_with_id_remove<A>(items: Seq<A>, id_of: spec_fn(A) -> i32, j: int)
    requires
        0 <= j < items.len(),
        forall|m: int| 0 <= m < j ==> id_of(#[trigger] items[m]) != id_of(items[j]),
    ensures
        with_id(items, id_of, id_of(items[j])).len() > 0,
        with_id(items, id_of, id_of(items[j]))[0] == items[j],
        with_id(items.remove(j), id_of, id_of(items[j])) == with_id(
            items,
            id_of,
            id_of(items[j]),
        ).drop_first(),
        forall|other: i32|
            other != id_of(items[j]) ==> #[trigger] with_id(items.remove(j), id_of, other)
                == with_id(items, id_of, other),
    decreases j,
{
    let id = id_of(items[j]);
    let rest = items.skip(1);
    if j == 0 {
        assert(items.remove(0) =~= rest);
        assert((seq![items[0]] + with_id(rest, id_of, id)).drop_first() =~= with_id(
            rest,
            id_of,
            id,
        ));
    } else {
        assert(id_of(items[0]) != id);
        assert(rest[j - 1] == items[j]);
        assert forall|m: int| 0 <= m < j - 1 implies id_of(#[trigger] rest[m]) != id_of(
            rest[j - 1],
        ) by {
            assert(rest[m] == items[m + 1]);
        }
        lemma_with_id_remove(rest, id_of, j - 1);
        let shorter = items.remove(j);
        assert(shorter[0] == items[0]);
        assert(shorter.skip(1) =~= rest.remove(j - 1));
        assert forall|other: i32| other != id implies #[trigger] with_id(shorter, id_of, other)
            == with_id(items, id_of, other) by {
            assert(with_id(rest.remove(j - 1), id_of, other) == with_id(rest, id_of, other));
        }
    }
}

/// An item that arrives is the youngest of its id, and the items of every
/// other id are as before.
pub proof fn lemma_with_id_push<A>(items: Seq<A>, id_of: spec_fn(A) -> i32, item: A)
    ensures
        with_id(items.push(item), id_of, id_of(item)) == with_id(items, id_of, id_of(item)).push(
            item,
        ),
        forall|other: i32|
            other != id_of(item) ==> #[trigger] with_id(items.push(item), id_of, other)
                == with_id(items, id_of, other),
    decreases items.len(),
{
    let longer = items.push(item);
    let id = id_of(item);
    if items.len() == 0 {
        assert(longer.skip(1) =~= Seq::<A>::empty());
        assert(longer[0] == item);
        assert(with_id(longer.skip(1), id_of, id) =~= Seq::<A>::empty());
        assert(with_id(longer, id_of, id) =~= with_id(items, id_of, id).push(item));
        assert forall|other: i32| other != id implies #[trigger] with_id(longer, id_of, other)
            == with_id(items, id_of, other) by {
            assert(with_id(longer.skip(1), id_of, other) =~= Seq::<A>::empty());
        }
    } else {
        let rest = items.skip(1);
        lemma_with_id_push(rest, id_of, item);
        assert(longer[0] == items[0]);
        assert(longer.skip(1) =~= rest.push(item));
        assert(with_id(longer, id_of, id) =~= with_id(items, id_of, id).push(item));
        assert forall|other: i32| other != id implies #[trigger] with_id(longer, id_of, other)
            == with_id(items, id_of, other) by {
            assert(with_id(rest.push(item), id_of, other) == with_id(rest, id_of, other));
        }
    }
}

/// There are items with an id exactly where there is a first one.
pub proof fn lemma_with_id_first<A>(items: Seq<A>, id_of: spec_fn(A) -> i32, id: i32)
    ensures
        match first_with_id(items, id_of, id) {
            Some(j) => {
                &&& 0 <= j < items.len()
                &&& id_of(items[j]) == id
                &&& forall|m: int| 0 <= m < j ==> id_of(#[trigger] items[m]) != id
                &&& with_id(items, id_of, id).len() > 0
            },
            None => {
                &&& forall|m: int| 0 <= m < items.len() ==> id_of(#[trigger] items[m]) != id
                &&& with_id(items, id_of, id).len() == 0
            },
        },
{
    let ids = items.map_values(id_of);
    ids.index_of_first_ensures(id);
    match ids.index_of_first(id) {
        Some(j) => {
            assert(ids[j] == id_of(items[j]));
            assert forall|m: int| 0 <= m < j implies id_of(#[trigger] items[m]) != id by {
                assert(ids[m] == id_of(items[m]));
            }
            lemma_with_id_remove(items, id_of, j);
        },
        None => {
            assert forall|m: int| 0 <= m < items.len() implies id_of(#[trigger] items[m])
                != id by {
                assert(ids[m] == id_of(items[m]));
            }
            lemma_with_id_none(items, id_of, id);
        },
    }
}

/// Where no item has an id, none is among those with that id.
pub proof fn lemma_with_id_none<A>(items: Seq<A>, id_of: spec_fn(A) -> i32, id: i32)
    requires
        forall|m: int| 0 <= m < items.len() ==> id_of(#[trigger] items[m]) != id,
    ensures
        with_id(items, id_of, id).len() == 0,
    decreases items.len(),
{
    if items.len() != 0 {
        let rest = items.skip(1);
        assert(id_of(items[0]) != id);
        assert forall|m: int| 0 <= m < rest.len() implies id_of(#[trigger] rest[m]) != id by {
            assert(rest[m] == items[m + 1]);
        }
        lemma_with_id_none(rest, id_of, id);
    }
}

/// Waiting items in queues, one queue for each id.
pub struct IdQueues<A> {
    queues: HashMap<i32, VecDeque<A>>,
}

impl<A> IdQueues<A> {
    /// The items that wait with the id `id`, the oldest first.
    pub closed spec fn queued(&self, id: i32) -> Seq<A> {
        if self.queues@.contains_key(id) {
            self.queues@[id]@
        } else {
            Seq::empty()
        }
    }

    /// The queues hold `items`: for each id those of `items` with that id,
    /// in their order.
    pub open spec fn holds(&self, items: Seq<A>, id_of: spec_fn(A) -> i32) -> bool {
        forall|id: i32| #[trigger] self.queued(id) == with_id(items, id_of, id)
    }

    /// Queues in which nothing waits.
    pub fn new() -> (queues: IdQueues<A>)
        ensures
            forall|id: i32| #[trigger] queues.queued(id) == Seq::<A>::empty(),
    {
        IdQueues { queues: HashMap::new() }
    }

    /// Takes the oldest item that waits with the id `id`, if one does.
    pub fn take_oldest(&mut self, id: i32) -> (taken: Option<A>)
        ensures
            match taken {
                Some(item) => {
                    &&& old(self).queued(id).len() > 0
                    &&& item == old(self).queued(id)[0]
                    &&& final(self).queued(id) == old(self).queued(id).drop_first()
                },
                None => {
                    &&& old(self).queued(id).len() == 0
                    &&& final(self).queued(id) == old(self).queued(id)
                },
            },
            forall|other: i32|
                other != id ==> #[trigger] final(self).queued(other) == old(self).queued(other),
    {
        let mut queue = match self.queues.remove(&id) {
            Some(queue) => queue,
            None => {
                return None;
            },
        };
        let ghost before = queue@;
        let taken = queue.pop_front();
        if queue.len() > 0 {
            self.queues.insert(id, queue);
        }
        proof {
            assert(before.subrange(1, before.len() as int) =~= before.drop_first());
            assert forall|other: i32| other != id implies #[trigger] self.queued(other) == old(
                self,
            ).queued(other) by {
                assert(self.queues@.contains_key(other) == old(self).queues@.contains_key(other));
            }
            if taken is Some {
                assert(self.queued(id) =~= before.drop_first());
            } else {
                assert(self.queued(id) =~= before);
            }
        }
        taken
    }

    /// Puts `item` behind the items that wait with the id `id`.
    pub fn put(&mut self, id: i32, item: A)
        ensures
            final(self).queued(id) == old(self).queued(id).push(item),
            forall|other: i32|
                other != id ==> #[trigger] final(self).queued(other) == old(self).queued(other),
    {
        let mut queue = match self.queues.remove(&id) {
            Some(queue) => queue,
            None => VecDeque::new(),
        };
        queue.push_back(item);
        self.queues.insert(id, queue);
        proof {
            assert forall|other: i32| other != id implies #[trigger] self.queued(other) == old(
                self,
            ).queued(other) by {
                assert(self.queues@.contains_key(other) == old(self).queues@.contains_key(other));
            }
        }
    }
}

} // verus!
