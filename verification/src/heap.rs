//! A queue of route steps that gives out the cheapest one first.

use vstd::multiset::Multiset;
use vstd::prelude::*;

verus! {

/// A cell to go on from: the estimated cost of a whole route through it, what
/// the way to it costs, and its key.
#[derive(Clone, Copy, Debug, PartialEq, Eq, Structural)]
pub struct Entry {
    pub estimate: u32,
    pub cost: u32,
    pub node: u64,
}

impl Entry {
    /// Order by estimate, then by cost, then by key.
    pub open spec fn before(self, other: Entry) -> bool {
        self.estimate < other.estimate || (self.estimate == other.estimate && (self.cost
            < other.cost || (self.cost == other.cost && self.node < other.node)))
    }

    fn is_before(&self, other: &Entry) -> (result: bool)
        ensures
            result == self.before(*other),
    {
        self.estimate < other.estimate || (self.estimate == other.estimate && (self.cost
            < other.cost || (self.cost == other.cost && self.node < other.node)))
    }
}

/// An entry of the queue that no other one comes before.
pub open spec fn is_first(queue: Multiset<Entry>, entry: Entry) -> bool {
    queue.count(entry) > 0 && forall|other: Entry|
        queue.count(other) > 0 ==> !(#[trigger] other.before(entry))
}

/// A binary heap: no entry comes before its parent.
pub struct Queue {
    items: Vec<Entry>,
}

spec fn parent(i: int) -> int {
    (i - 1) / 2
}

/// No entry comes before its parent, with at most one exception.
spec fn ordered_but(items: Seq<Entry>, hole: int) -> bool {
    forall|i: int|
        0 < i < items.len() && i != hole ==> !(#[trigger] items[i]).before(items[parent(i)])
}

/// No child of an entry comes before the entry's parent.
spec fn bridged(items: Seq<Entry>, hole: int) -> bool {
    hole > 0 ==> forall|i: int|
        0 < i < items.len() && parent(i) == hole ==> !(#[trigger] items[i]).before(
            items[parent(hole)],
        )
}

proof fn lemma_update(items: Seq<Entry>, i: int, entry: Entry)
    requires
        0 <= i < items.len(),
    ensures
        items.update(i, entry).to_multiset() == items.to_multiset().remove(items[i]).insert(entry),
        items.to_multiset().count(items[i]) > 0,
{
    broadcast use vstd::seq_lib::group_to_multiset_ensures;

    let changed = items.update(i, entry);
    assert(changed.remove(i) =~= items.remove(i));
    assert(changed.remove(i).to_multiset() == changed.to_multiset().remove(entry));
    assert(items.remove(i).to_multiset() == items.to_multiset().remove(items[i]));
    assert(changed[i] == entry);
    assert(changed.contains(entry));
    assert(items.contains(items[i]));
    assert(changed.to_multiset().count(entry) > 0);
    assert(changed.to_multiset() =~= changed.to_multiset().remove(entry).insert(entry));
}

proof fn lemma_swap(items: Seq<Entry>, i: int, j: int)
    requires
        0 <= i < items.len(),
        0 <= j < items.len(),
        i != j,
    ensures
        items.update(i, items[j]).update(j, items[i]).to_multiset() == items.to_multiset(),
{
    let first = items.update(i, items[j]);
    lemma_update(items, i, items[j]);
    lemma_update(first, j, items[i]);
    let all = items.to_multiset();
    lemma_update(items, j, items[j]);
    assert(first.update(j, items[i]).to_multiset() =~= all);
}

proof fn lemma_root(items: Seq<Entry>, i: int)
    requires
        ordered_but(items, -1),
        0 <= i < items.len(),
    ensures
        !items[i].before(items[0]),
    decreases i,
{
    if i > 0 {
        lemma_root(items, parent(i));
        assert(!items[i].before(items[parent(i)]));
    }
}

impl View for Queue {
    type V = Multiset<Entry>;

    closed spec fn view(&self) -> Multiset<Entry> {
        self.items@.to_multiset()
    }
}

impl Queue {
    pub closed spec fn well_formed(&self) -> bool {
        ordered_but(self.items@, -1)
    }

    pub fn new() -> (queue: Queue)
        ensures
            queue.well_formed(),
            queue@ == Multiset::<Entry>::empty(),
    {
        broadcast use vstd::seq_lib::group_to_multiset_ensures;

        let queue = Queue { items: Vec::new() };
        assert(queue.items@.to_multiset().len() == 0);
        assert(queue@ =~= Multiset::<Entry>::empty());
        queue
    }

    fn swap(&mut self, i: usize, j: usize)
        requires
            i < old(self).items@.len(),
            j < old(self).items@.len(),
            i != j,
        ensures
            final(self).items@ == old(self).items@.update(i as int, old(self).items@[j as int]).update(
                j as int,
                old(self).items@[i as int],
            ),
            final(self)@ == old(self)@,
    {
        let first = self.items[i];
        let second = self.items[j];
        self.items[i] = second;
        self.items[j] = first;
        proof {
            lemma_swap(old(self).items@, i as int, j as int);
        }
    }

    pub fn push(&mut self, entry: Entry)
        requires
            old(self).well_formed(),
        ensures
            final(self).well_formed(),
            final(self)@ == old(self)@.insert(entry),
    {
        broadcast use vstd::seq_lib::group_to_multiset_ensures;

        self.items.push(entry);
        let mut i: usize = self.items.len() - 1;
        assert(self@ == old(self)@.insert(entry));
        while i > 0 && self.items[i].is_before(&self.items[(i - 1) / 2])
            invariant
                i < self.items@.len(),
                ordered_but(self.items@, i as int),
                bridged(self.items@, i as int),
                self@ == old(self)@.insert(entry),
            decreases i,
        {
            let above: usize = (i - 1) / 2;
            let ghost before = self.items@;
            self.swap(i, above);
            proof {
                let now = self.items@;
                assert(now[above as int] == before[i as int] && now[i as int]
                    == before[above as int]);
                assert forall|k: int| 0 < k < now.len() && k != above implies !(
                #[trigger] now[k]).before(now[parent(k)]) by {
                    if k == i {
                    } else if parent(k) == i {
                        assert(!before[k].before(before[parent(i as int)]));
                    } else if parent(k) == above {
                        assert(!before[k].before(before[above as int]));
                    } else {
                        assert(!before[k].before(before[parent(k)]));
                    }
                }
                if above > 0 {
                    assert forall|k: int|
                        0 < k < now.len() && parent(k) == above implies !(#[trigger] now[k]).before(
                        now[parent(above as int)],
                    ) by {
                        assert(!before[above as int].before(before[parent(above as int)]));
                        if k != i {
                            assert(!before[k].before(before[above as int]));
                        }
                    }
                }
            }
            i = above;
        }
        proof {
            assert forall|k: int| 0 < k < self.items@.len() implies !(
            #[trigger] self.items@[k]).before(self.items@[parent(k)]) by {
                if k == i {
                    assert(!self.items@[i as int].before(self.items@[(i as int - 1) / 2]));
                }
            }
        }
    }

    /// Takes out the first entry.
    pub fn pop(&mut self) -> (entry: Option<Entry>)
        requires
            old(self).well_formed(),
        ensures
            final(self).well_formed(),
            match entry {
                Some(entry) => is_first(old(self)@, entry) && final(self)@ == old(self)@.remove(
                    entry,
                ),
                None => old(self)@ == Multiset::<Entry>::empty() && final(self)@ == old(self)@,
            },
    {
        broadcast use vstd::seq_lib::group_to_multiset_ensures;

        if self.items.len() == 0 {
            assert(self.items@.to_multiset().len() == 0);
            assert(self@ =~= Multiset::<Entry>::empty());
            return None;
        }
        let first = self.items[0];
        proof {
            let items = self.items@;
            assert forall|other: Entry| items.to_multiset().count(other) > 0 implies !(
            #[trigger] other.before(first)) by {
                assert(items.contains(other));
                let k = choose|k: int| 0 <= k < items.len() && items[k] == other;
                lemma_root(items, k);
            }
            assert(items.contains(items[0]));
        }
        let last = match self.items.pop() {
            Some(last) => last,
            None => vstd::pervasive::unreached(),
        };
        proof {
            let items = old(self).items@;
            assert(self.items@ =~= items.remove(items.len() - 1));
        }
        if self.items.len() == 0 {
            return Some(first);
        }
        let ghost shorter = self.items@;
        self.items[0] = last;
        proof {
            lemma_update(shorter, 0, last);
            assert(shorter[0] == first);
            assert(self@ =~= old(self)@.remove(first));
        }
        self.sift_down();
        Some(first)
    }

    fn sift_down(&mut self)
        requires
            old(self).items@.len() > 0,
            forall|i: int|
                0 < i < old(self).items@.len() && parent(i) != 0 ==> !(
                #[trigger] old(self).items@[i]).before(old(self).items@[parent(i)]),
        ensures
            final(self).well_formed(),
            final(self)@ == old(self)@,
    {
        let mut i: usize = 0;
        loop
            invariant
                i < self.items@.len(),
                self@ == old(self)@,
                forall|k: int|
                    0 < k < self.items@.len() && parent(k) != i ==> !(
                    #[trigger] self.items@[k]).before(self.items@[parent(k)]),
                i > 0 ==> forall|k: int|
                    0 < k < self.items@.len() && parent(k) == i ==> !(
                    #[trigger] self.items@[k]).before(self.items@[parent(i as int)]),
            ensures
                self.well_formed(),
            decreases self.items@.len() - i,
        {
            let count: usize = self.items.len();
            if i >= (count - 1) / 2 + 1 || 2 * i + 1 >= count {
                proof {
                    assert forall|k: int| 0 < k < self.items@.len() implies !(
                    #[trigger] self.items@[k]).before(self.items@[parent(k)]) by {}
                }
                break;
            }
            let left: usize = 2 * i + 1;
            let mut child: usize = left;
            if left + 1 < count && self.items[left + 1].is_before(&self.items[left]) {
                child = left + 1;
            }
            if !self.items[child].is_before(&self.items[i]) {
                proof {
                    assert forall|k: int| 0 < k < self.items@.len() implies !(
                    #[trigger] self.items@[k]).before(self.items@[parent(k)]) by {
                        if parent(k) == i {
                            assert(k == left || k == left + 1);
                        }
                    }
                }
                break;
            }
            let ghost before = self.items@;
            self.swap(i, child);
            proof {
                let now = self.items@;
                assert(now[i as int] == before[child as int] && now[child as int]
                    == before[i as int]);
                assert(parent(child as int) == i);
                assert forall|k: int| 0 < k < now.len() && parent(k) != child implies !(
                #[trigger] now[k]).before(now[parent(k)]) by {
                    if parent(k) == i {
                        assert(k == left || k == left + 1);
                    } else if k == i {
                        assert(!before[child as int].before(before[parent(i as int)]));
                    } else {
                        assert(!before[k].before(before[parent(k)]));
                    }
                }
                assert forall|k: int| 0 < k < now.len() && parent(k) == child implies !(
                #[trigger] now[k]).before(now[parent(child as int)]) by {
                    assert(!before[k].before(before[parent(k)]));
                }
            }
            i = child;
        }
    }
}

} // verus!
