//! The vector stores: entries in insertion order, found again by id through
//! a hash index that points at the latest entry stored under each id.

use std::collections::HashMap;
use vstd::prelude::*;

use crate::ranking::{is_top_k, keys_of, rank_scores};

verus! {

broadcast use vstd::std_specs::hash::group_hash_axioms;

/// The item stored last under `id` in `entries`, if any.
pub open spec fn latest<T>(entries: Seq<(u128, T)>, id: u128) -> Option<T>
    decreases entries.len(),
{
    if entries.len() == 0 {
        None
    } else if entries.last().0 == id {
        Some(entries.last().1)
    } else {
        latest(entries.drop_last(), id)
    }
}

/// A store of vectors (of any item type) with ids, kept in insertion order.
#[derive(Clone)]
pub struct VectorDb<T> {
    ids: Vec<u128>,
    vectors: Vec<T>,
    dimension: usize,
    index: HashMap<u128, usize>,
}

/// The perception store: every observed state.
pub type PerceptionDB<T> = VectorDb<T>;

/// The prediction store: every prediction or action.
pub type PredictionDB<T> = VectorDb<T>;

impl<T> View for VectorDb<T> {
    type V = Seq<(u128, T)>;

    /// The entries, `(id, item)`, in insertion order.
    closed spec fn view(&self) -> Seq<(u128, T)> {
        Seq::new(self.ids@.len(), |i: int| (self.ids@[i], self.vectors@[i]))
    }
}

/// The entry at `i` carries `id`, and no later entry does: it is the latest.
pub proof fn lemma_latest_at<T>(entries: Seq<(u128, T)>, id: u128, i: int)
    requires
        0 <= i < entries.len(),
        entries[i].0 == id,
        forall|j: int| i < j < entries.len() ==> (#[trigger] entries[j]).0 != id,
    ensures
        latest(entries, id) == Some(entries[i].1),
    decreases entries.len(),
{
    if i < entries.len() - 1 {
        let shorter = entries.drop_last();
        assert(entries.last() == entries[entries.len() - 1]);
        assert forall|j: int| i < j < shorter.len() implies (#[trigger] shorter[j]).0 != id by {
            assert(shorter[j] == entries[j]);
        }
        lemma_latest_at(shorter, id, i);
    }
}

/// No entry carries `id`: nothing is stored under it.
pub proof fn lemma_latest_absent<T>(entries: Seq<(u128, T)>, id: u128)
    requires
        forall|j: int| 0 <= j < entries.len() ==> (#[trigger] entries[j]).0 != id,
    ensures
        latest(entries, id) is None,
    decreases entries.len(),
{
    if entries.len() > 0 {
        let shorter = entries.drop_last();
        assert(entries.last() == entries[entries.len() - 1]);
        assert forall|j: int| 0 <= j < shorter.len() implies (#[trigger] shorter[j]).0 != id by {
            assert(shorter[j] == entries[j]);
        }
        lemma_latest_absent(shorter, id);
    }
}

impl<T> VectorDb<T> {
    /// The store's invariant: ids and items line up, and the index maps
    /// exactly the stored ids, each to the position of its latest entry.
    pub closed spec fn wf(&self) -> bool {
        &&& self.ids@.len() == self.vectors@.len()
        &&& forall|id: u128|
            #[trigger] self.index@.contains_key(id) ==> {
                let i = self.index@[id] as int;
                &&& 0 <= i < self.ids@.len()
                &&& self.ids@[i] == id
                &&& forall|j: int| i < j < self.ids@.len() ==> #[trigger] self.ids@[j] != id
            }
        &&& forall|j: int| 0 <= j < self.ids@.len() ==> self.index@.contains_key(#[trigger] self.ids@[j])
    }

    /// The dimension the store was made for.
    pub closed spec fn dim(&self) -> usize {
        self.dimension
    }

    /// An empty store for vectors of dimension `dim`.
    pub fn new(dim: usize) -> (db: Self)
        ensures
            db.wf(),
            db@ == Seq::<(u128, T)>::empty(),
            db.dim() == dim,
    {
        let db = VectorDb { ids: Vec::new(), vectors: Vec::new(), dimension: dim, index: HashMap::new() };
        assert(db@ =~= Seq::<(u128, T)>::empty());
        db
    }

    /// Appends `item` under `id`; from now on `id` finds this item.
    pub fn insert(&mut self, id: u128, item: T)
        requires
            old(self).wf(),
        ensures
            final(self).wf(),
            final(self)@ == old(self)@.push((id, item)),
            final(self).dim() == old(self).dim(),
    {
        let ghost old_ids = self.ids@;
        let ghost old_index = self.index@;
        let idx = self.ids.len();
        self.index.insert(id, idx);
        self.ids.push(id);
        self.vectors.push(item);
        proof {
            assert forall|other: u128| #[trigger] self.index@.contains_key(other) implies {
                let i = self.index@[other] as int;
                &&& 0 <= i < self.ids@.len()
                &&& self.ids@[i] == other
                &&& forall|j: int| i < j < self.ids@.len() ==> #[trigger] self.ids@[j] != other
            } by {
                if other != id {
                    assert(old_index.contains_key(other));
                    let i = old_index[other] as int;
                    assert(self.ids@[i] == old_ids[i]);
                    assert forall|j: int| i < j < self.ids@.len() implies #[trigger] self.ids@[j]
                        != other by {
                        if j < old_ids.len() {
                            assert(self.ids@[j] == old_ids[j]);
                        }
                    }
                }
            }
            assert forall|j: int| 0 <= j < self.ids@.len() implies self.index@.contains_key(
                #[trigger] self.ids@[j],
            ) by {
                if j < old_ids.len() {
                    assert(self.ids@[j] == old_ids[j]);
                    assert(old_index.contains_key(old_ids[j]));
                }
            }
            assert(self@ =~= old(self)@.push((id, item)));
        }
    }

    /// The item stored last under `id`, if any.
    pub fn get(&self, id: u128) -> (r: Option<&T>)
        requires
            self.wf(),
        ensures
            match r {
                Some(v) => latest(self@, id) == Some(*v),
                None => latest(self@, id) is None,
            },
    {
        match self.index.get(&id) {
            Some(i) => {
                let i = *i;
                proof {
                    assert forall|j: int| i < j < self@.len() implies (#[trigger] self@[j]).0
                        != id by {
                        assert(self@[j].0 == self.ids@[j]);
                    }
                    lemma_latest_at(self@, id, i as int);
                }
                Some(&self.vectors[i])
            },
            None => {
                proof {
                    assert forall|j: int| 0 <= j < self@.len() implies (#[trigger] self@[j]).0
                        != id by {
                        assert(self@[j].0 == self.ids@[j]);
                        assert(self.index@.contains_key(self.ids@[j]));
                    }
                    lemma_latest_absent(self@, id);
                }
                None
            },
        }
    }

    /// The number of stored entries.
    pub fn len(&self) -> (n: usize)
        requires
            self.wf(),
        ensures
            n == self@.len(),
    {
        self.ids.len()
    }

    /// Whether nothing is stored.
    pub fn is_empty(&self) -> (b: bool)
        requires
            self.wf(),
        ensures
            b == (self@.len() == 0),
    {
        self.ids.len() == 0
    }

    /// The dimension the store was made for.
    pub fn dimension(&self) -> (d: usize)
        ensures
            d == self.dim(),
    {
        self.dimension
    }

    /// The stored items in insertion order.
    pub fn vectors(&self) -> (v: &Vec<T>)
        requires
            self.wf(),
        ensures
            v@.len() == self@.len(),
            forall|i: int| 0 <= i < v@.len() ==> #[trigger] v@[i] == self@[i].1,
    {
        &self.vectors
    }

    /// The stored ids in insertion order.
    pub fn ids(&self) -> (v: &Vec<u128>)
        requires
            self.wf(),
        ensures
            v@.len() == self@.len(),
            forall|i: int| 0 <= i < v@.len() ==> #[trigger] v@[i] == self@[i].0,
    {
        &self.ids
    }

    /// The `k` entries with the highest scores, best first; equal scores
    /// keep insertion order. `score_bits[i]` is the bit pattern of the score
    /// of entry `i`.
    pub fn nearest(&self, score_bits: &Vec<u64>, k: usize) -> (r: Vec<&T>)
        requires
            self.wf(),
            score_bits@.len() == self@.len(),
        ensures
            exists|order: Seq<usize>|
                {
                    &&& is_top_k(keys_of(score_bits@), k as nat, order)
                    &&& r@.len() == order.len()
                    &&& forall|i: int|
                        0 <= i < order.len() ==> *r@[i] == #[trigger] self@[order[i] as int].1
                },
    {
        let order = rank_scores(score_bits, k);
        let mut r: Vec<&T> = Vec::new();
        let mut i: usize = 0;
        while i < order.len()
            invariant
                self.wf(),
                score_bits@.len() == self@.len(),
                is_top_k(keys_of(score_bits@), k as nat, order@),
                i <= order@.len(),
                r@.len() == i,
                forall|j: int| 0 <= j < i ==> *r@[j] == #[trigger] self@[order@[j] as int].1,
            decreases order.len() - i,
        {
            let p = order[i];
            assert(order@[i as int] < keys_of(score_bits@).len());
            r.push(&self.vectors[p]);
            i = i + 1;
        }
        r
    }
}

/// Reading back what was just written: after inserting `item` under `id`,
/// `id` finds `item`.
pub proof fn lemma_insert_then_get<T>(entries: Seq<(u128, T)>, id: u128, item: T)
    ensures
        latest(entries.push((id, item)), id) == Some(item),
{
    assert(entries.push((id, item)).drop_last() =~= entries);
}

/// Inserting under one id leaves every other id's item unchanged.
pub proof fn lemma_insert_other<T>(entries: Seq<(u128, T)>, id: u128, item: T, other: u128)
    requires
        other != id,
    ensures
        latest(entries.push((id, item)), other) == latest(entries, other),
{
    assert(entries.push((id, item)).drop_last() =~= entries);
}

/// What `latest` finds: nothing exactly when no entry carries `id`;
/// otherwise the item of an entry carrying `id` after which no entry
/// carries `id`.
pub proof fn law_latest<T>(entries: Seq<(u128, T)>, id: u128)
    ensures
        latest(entries, id) is None <==> forall|j: int| 0 <= j < entries.len() ==> (#[trigger] entries[j]).0 != id,
        latest(entries, id) matches Some(v) ==> exists|i: int|
            0 <= i < entries.len() && #[trigger] entries[i] == (id, v) && forall|j: int|
                i < j < entries.len() ==> (#[trigger] entries[j]).0 != id,
    decreases entries.len(),
{
    if entries.len() > 0 {
        let shorter = entries.drop_last();
        let last = entries.len() - 1;
        assert(entries.last() == entries[last]);
        law_latest(shorter, id);
        if entries[last].0 == id {
            assert(entries[last] == (id, entries[last].1));
        } else {
            assert forall|j: int| 0 <= j < shorter.len() implies #[trigger] shorter[j] == entries[j] by {}
            if latest(shorter, id) is None {
                assert forall|j: int| 0 <= j < entries.len() implies (#[trigger] entries[j]).0 != id by {
                    if j < last {
                        assert(shorter[j] == entries[j]);
                    }
                }
            } else {
                let v = latest(shorter, id)->0;
                let i = choose|i: int|
                    0 <= i < shorter.len() && #[trigger] shorter[i] == (id, v) && forall|j: int|
                        i < j < shorter.len() ==> (#[trigger] shorter[j]).0 != id;
                assert(entries[i] == (id, v));
                assert forall|j: int| i < j < entries.len() implies (#[trigger] entries[j]).0 != id by {
                    if j < last {
                        assert(shorter[j] == entries[j]);
                    }
                }
                assert(shorter[i].0 == id);
            }
        }
    }
}

} // verus!
