//! Sets of indices, in ascending order.

use vstd::prelude::*;

verus! {

/// Each index is greater than the one before it.
pub open spec fn ascending(indices: Seq<usize>) -> bool {
    forall|i: int, j: int| 0 <= i < j < indices.len() ==> indices[i] < indices[j]
}

/// The indices of an ascending sequence and one more, in ascending order.
pub open spec fn with_index(indices: Seq<usize>, ix: usize) -> Seq<usize>
    decreases indices.len(),
{
    if indices.len() == 0 {
        seq![ix]
    } else if indices.last() < ix {
        indices.push(ix)
    } else if indices.last() == ix {
        indices
    } else {
        with_index(indices.drop_last(), ix).push(indices.last())
    }
}

/// The indices of a sequence but for one.
pub open spec fn without_index(indices: Seq<usize>, ix: usize) -> Seq<usize>
    decreases indices.len(),
{
    if indices.len() == 0 {
        seq![]
    } else if indices.last() == ix {
        without_index(indices.drop_last(), ix)
    } else {
        without_index(indices.drop_last(), ix).push(indices.last())
    }
}

/// An index more keeps the order, and adds that index alone.
pub proof fn lemma_with_index(indices: Seq<usize>, ix: usize)
    requires
        ascending(indices),
    ensures
        ascending(with_index(indices, ix)),
        forall|x: usize| #[trigger]
            with_index(indices, ix).contains(x) <==> indices.contains(x) || x == ix,
    decreases indices.len(),
{
    let more = with_index(indices, ix);
    if indices.len() == 0 {
        assert(more[0] == ix);
    } else if indices.last() < ix {
        assert forall|x: usize| #[trigger] more.contains(x) <==> indices.contains(x) || x == ix by {
            if indices.contains(x) {
                let i = choose|i: int| 0 <= i < indices.len() && indices[i] == x;
                assert(more[i] == x);
            }
            assert(more[indices.len() as int] == ix);
        }
    } else if indices.last() == ix {
        assert(indices[indices.len() - 1] == ix);
    } else {
        let before = indices.drop_last();
        let last = indices.last();
        lemma_with_index(before, ix);
        let middle = with_index(before, ix);
        assert forall|i: int| 0 <= i < middle.len() implies #[trigger] middle[i] < last by {
            assert(middle.contains(middle[i]));
            if before.contains(middle[i]) {
                let k = choose|k: int| 0 <= k < before.len() && before[k] == middle[i];
                assert(indices[k] < indices[indices.len() - 1]);
            }
        }
        assert forall|x: usize| #[trigger] more.contains(x) <==> indices.contains(x) || x == ix by {
            assert(more[middle.len() as int] == last);
            assert(indices[indices.len() - 1] == last);
            if middle.contains(x) {
                let i = choose|i: int| 0 <= i < middle.len() && middle[i] == x;
                assert(more[i] == x);
                if before.contains(x) {
                    let k = choose|k: int| 0 <= k < before.len() && before[k] == x;
                    assert(indices[k] == x);
                }
            }
            if more.contains(x) && x != last {
                let i = choose|i: int| 0 <= i < more.len() && more[i] == x;
                assert(middle[i] == x);
            }
            if indices.contains(x) && x != last {
                let k = choose|k: int| 0 <= k < indices.len() && indices[k] == x;
                assert(before[k] == x);
                assert(middle.contains(x));
            }
        }
    }
}

/// An index less keeps the order, and takes that index alone.
pub proof fn lemma_without_index(indices: Seq<usize>, ix: usize)
    requires
        ascending(indices),
    ensures
        ascending(without_index(indices, ix)),
        forall|x: usize| #[trigger]
            without_index(indices, ix).contains(x) <==> indices.contains(x) && x != ix,
    decreases indices.len(),
{
    let less = without_index(indices, ix);
    if indices.len() > 0 {
        let before = indices.drop_last();
        let last = indices.last();
        lemma_without_index(before, ix);
        let middle = without_index(before, ix);
        assert(indices[indices.len() - 1] == last);
        assert forall|i: int| 0 <= i < middle.len() implies #[trigger] middle[i] < last by {
            assert(middle.contains(middle[i]));
            let k = choose|k: int| 0 <= k < before.len() && before[k] == middle[i];
            assert(indices[k] < indices[indices.len() - 1]);
        }
        assert forall|x: usize| #[trigger] less.contains(x) <==> indices.contains(x) && x != ix by {
            if indices.contains(x) && x != last {
                let k = choose|k: int| 0 <= k < indices.len() && indices[k] == x;
                assert(before[k] == x);
            }
            if before.contains(x) {
                let k = choose|k: int| 0 <= k < before.len() && before[k] == x;
                assert(indices[k] == x);
            }
            if middle.contains(x) {
                let i = choose|i: int| 0 <= i < middle.len() && middle[i] == x;
                assert(less[i] == x);
            }
            if last != ix {
                assert(less[middle.len() as int] == last);
                if less.contains(x) && x != last {
                    let i = choose|i: int| 0 <= i < less.len() && less[i] == x;
                    assert(middle[i] == x);
                }
            }
        }
    }
}

/// Where an index that is not there goes.
proof fn lemma_insert_at(indices: Seq<usize>, ix: usize, at: int)
    requires
        0 <= at <= indices.len(),
        at > 0 ==> indices[at - 1] < ix,
        forall|k: int| at <= k < indices.len() ==> indices[k] > ix,
    ensures
        with_index(indices, ix) == indices.insert(at, ix),
    decreases indices.len(),
{
    if at == indices.len() {
        assert(indices.insert(at, ix) =~= indices.push(ix));
        if indices.len() == 0 {
            assert(indices.push(ix) =~= seq![ix]);
        }
    } else {
        let before = indices.drop_last();
        lemma_insert_at(before, ix, at);
        assert(indices.insert(at, ix) =~= before.insert(at, ix).push(indices.last()));
    }
}

proof fn lemma_with_present(indices: Seq<usize>, ix: usize, at: int)
    requires
        0 <= at < indices.len(),
        indices[at] == ix,
        forall|k: int| at < k < indices.len() ==> indices[k] > ix,
    ensures
        with_index(indices, ix) == indices,
    decreases indices.len(),
{
    if at < indices.len() - 1 {
        lemma_with_present(indices.drop_last(), ix, at);
        assert(indices.drop_last().push(indices.last()) =~= indices);
    }
}

proof fn lemma_without_absent(indices: Seq<usize>, ix: usize)
    requires
        !indices.contains(ix),
    ensures
        without_index(indices, ix) == indices,
    decreases indices.len(),
{
    if indices.len() > 0 {
        assert(indices[indices.len() - 1] != ix);
        let before = indices.drop_last();
        assert forall|k: int| 0 <= k < before.len() implies #[trigger] before[k] != ix by {
            assert(indices[k] != ix);
        }
        lemma_without_absent(before, ix);
        assert(before.push(indices.last()) =~= indices);
    }
}

proof fn lemma_remove_at(indices: Seq<usize>, ix: usize, at: int)
    requires
        ascending(indices),
        0 <= at < indices.len(),
        indices[at] == ix,
    ensures
        without_index(indices, ix) == indices.remove(at),
    decreases indices.len(),
{
    let before = indices.drop_last();
    if at == indices.len() - 1 {
        assert forall|k: int| 0 <= k < before.len() implies #[trigger] before[k] != ix by {
            assert(indices[k] < indices[at]);
        }
        lemma_without_absent(before, ix);
        assert(indices.remove(at) =~= before);
    } else {
        assert(indices[at] < indices[indices.len() - 1]);
        lemma_remove_at(before, ix, at);
        assert(indices.remove(at) =~= before.remove(at).push(indices.last()));
    }
}

/// A set of indices.
pub struct IndexSet {
    items: Vec<usize>,
}

impl View for IndexSet {
    type V = Seq<usize>;

    closed spec fn view(&self) -> Seq<usize> {
        self.items@
    }
}

impl IndexSet {
    #[verifier::type_invariant]
    spec fn in_order(self) -> bool {
        ascending(self.items@)
    }

    pub fn new() -> (set: IndexSet)
        ensures
            set@ == Seq::<usize>::empty(),
    {
        IndexSet { items: Vec::new() }
    }

    pub fn contains(&self, ix: usize) -> (yes: bool)
        ensures
            yes == self@.contains(ix),
    {
        let mut i: usize = 0;
        while i < self.items.len()
            invariant
                i <= self.items.len(),
                forall|k: int| 0 <= k < i ==> self.items@[k] != ix,
            decreases self.items.len() - i,
        {
            if self.items[i] == ix {
                assert(self.items@[i as int] == ix);
                return true;
            }
            i += 1;
        }
        false
    }

    pub fn insert(&mut self, ix: usize)
        ensures
            final(self)@ == with_index(old(self)@, ix),
            final(self)@.contains(ix),
    {
        proof {
            use_type_invariant(&*self);
            lemma_with_index(self.items@, ix);
        }
        let ghost before = self.items@;
        let mut items: Vec<usize> = Vec::new();
        std::mem::swap(&mut items, &mut self.items);
        let mut at: usize = items.len();
        while at > 0 && items[at - 1] > ix
            invariant
                at <= items.len(),
                items@ == before,
                forall|k: int| at <= k < items.len() ==> items@[k] > ix,
            decreases at,
        {
            at -= 1;
        }
        if at > 0 && items[at - 1] == ix {
            proof {
                lemma_with_present(before, ix, at - 1);
            }
        } else {
            proof {
                lemma_insert_at(before, ix, at as int);
            }
            items.insert(at, ix);
        }
        self.items = items;
    }

    pub fn remove(&mut self, ix: usize)
        ensures
            final(self)@ == without_index(old(self)@, ix),
    {
        proof {
            use_type_invariant(&*self);
            lemma_without_index(self.items@, ix);
        }
        let ghost before = self.items@;
        let mut items: Vec<usize> = Vec::new();
        std::mem::swap(&mut items, &mut self.items);
        let mut i: usize = 0;
        while i < items.len() && items[i] != ix
            invariant
                i <= items.len(),
                items@ == before,
                forall|k: int| 0 <= k < i ==> items@[k] != ix,
            decreases items.len() - i,
        {
            i += 1;
        }
        if i < items.len() {
            proof {
                lemma_remove_at(before, ix, i as int);
            }
            items.remove(i);
        } else {
            proof {
                lemma_without_absent(before, ix);
            }
        }
        self.items = items;
    }

    /// The indices in ascending order.
    pub fn indices(&self) -> (indices: &Vec<usize>)
        ensures
            indices@ == self@,
            ascending(indices@),
    {
        proof {
            use_type_invariant(self);
        }
        &self.items
    }
}

} // verus!
