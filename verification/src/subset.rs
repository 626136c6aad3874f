//! The honest part of a sampled batch: the batch minus the corrupted slots.

use vstd::prelude::*;

verus! {

/// The honest part of a batch: the slots of `batch`, in order, that do not
/// stand in `corrupted`.
pub open spec fn honest_of(batch: Seq<usize>, corrupted: Seq<usize>) -> Seq<usize>
    decreases batch.len(),
{
    if batch.len() == 0 {
        Seq::empty()
    } else {
        let rest = honest_of(batch.drop_last(), corrupted);
        if corrupted.contains(batch.last()) {
            rest
        } else {
            rest.push(batch.last())
        }
    }
}

/// A slot stands in the honest part exactly when it stands in the batch and
/// not among the corrupted.
pub proof fn lemma_honest_of_membership(batch: Seq<usize>, corrupted: Seq<usize>)
    ensures
        forall|x: usize|
            #[trigger] honest_of(batch, corrupted).contains(x) <==> batch.contains(x)
                && !corrupted.contains(x),
    decreases batch.len(),
{
    if batch.len() > 0 {
        let prefix = batch.drop_last();
        let l = batch.last();
        let rest = honest_of(prefix, corrupted);
        lemma_honest_of_membership(prefix, corrupted);
        assert forall|x: usize|
            #[trigger] honest_of(batch, corrupted).contains(x) implies batch.contains(x)
            && !corrupted.contains(x) by {
            if corrupted.contains(l) {
                assert(rest.contains(x));
            } else {
                let i = choose|i: int|
                    0 <= i < rest.push(l).len() && rest.push(l)[i] == x;
                if i < rest.len() {
                    assert(rest[i] == x);
                    assert(rest.contains(x));
                } else {
                    assert(x == l);
                }
            }
            let j = choose|j: int| 0 <= j < prefix.len() && prefix[j] == x;
            if prefix.contains(x) {
                assert(batch[j] == x);
            } else {
                assert(batch[batch.len() - 1] == x);
            }
        }
        assert forall|x: usize| batch.contains(x) && !corrupted.contains(x)
            implies #[trigger] honest_of(batch, corrupted).contains(x) by {
            let i = choose|i: int| 0 <= i < batch.len() && batch[i] == x;
            if i < batch.len() - 1 {
                assert(prefix[i] == x);
                assert(prefix.contains(x));
                assert(rest.contains(x));
                if !corrupted.contains(l) {
                    let j = choose|j: int| 0 <= j < rest.len() && rest[j] == x;
                    assert(rest.push(l)[j] == x);
                }
            } else {
                assert(x == l);
                assert(rest.push(l)[rest.len() as int] == x);
            }
        }
    }
}

/// A batch without repeated slots has an honest part without repeated slots.
pub proof fn lemma_honest_of_no_duplicates(batch: Seq<usize>, corrupted: Seq<usize>)
    requires
        batch.no_duplicates(),
    ensures
        honest_of(batch, corrupted).no_duplicates(),
    decreases batch.len(),
{
    if batch.len() > 0 {
        let prefix = batch.drop_last();
        let l = batch.last();
        let rest = honest_of(prefix, corrupted);
        assert(prefix.no_duplicates());
        lemma_honest_of_no_duplicates(prefix, corrupted);
        if !corrupted.contains(l) {
            lemma_honest_of_membership(prefix, corrupted);
            assert(!prefix.contains(l)) by {
                if prefix.contains(l) {
                    let i = choose|i: int| 0 <= i < prefix.len() && prefix[i] == l;
                    assert(batch[i] == batch[batch.len() - 1]);
                }
            }
            assert(!rest.contains(l));
            assert forall|i: int, j: int|
                0 <= i < rest.push(l).len() && 0 <= j < rest.push(l).len() && i != j
                implies rest.push(l)[i] != rest.push(l)[j] by {
                if i < rest.len() && j < rest.len() {
                } else if i < rest.len() {
                    assert(rest[i] == rest.push(l)[i]);
                    if rest.push(l)[i] == l {
                        assert(rest.contains(l));
                    }
                } else {
                    assert(rest[j] == rest.push(l)[j]);
                    if rest.push(l)[j] == l {
                        assert(rest.contains(l));
                    }
                }
            }
        }
    }
}

/// The honest part is never longer than the batch.
pub proof fn lemma_honest_of_len(batch: Seq<usize>, corrupted: Seq<usize>)
    ensures
        honest_of(batch, corrupted).len() <= batch.len(),
    decreases batch.len(),
{
    if batch.len() > 0 {
        lemma_honest_of_len(batch.drop_last(), corrupted);
    }
}

/// Every slot of the honest part lies below `n` when every slot of the batch does.
pub proof fn lemma_honest_of_bounds(batch: Seq<usize>, corrupted: Seq<usize>, n: usize)
    requires
        forall|i: int| 0 <= i < batch.len() ==> #[trigger] batch[i] < n,
    ensures
        forall|j: int|
            0 <= j < honest_of(batch, corrupted).len()
                ==> #[trigger] honest_of(batch, corrupted)[j] < n,
{
    lemma_honest_of_membership(batch, corrupted);
    let honest = honest_of(batch, corrupted);
    assert forall|j: int| 0 <= j < honest.len() implies #[trigger] honest[j] < n by {
        assert(honest.contains(honest[j]));
        assert(batch.contains(honest[j]));
        let i = choose|i: int| 0 <= i < batch.len() && batch[i] == honest[j];
        assert(batch[i] < n);
    }
}

/// Whether `x` stands in `v`.
pub fn contains_idx(v: &Vec<usize>, x: usize) -> (r: bool)
    ensures
        r == v@.contains(x),
{
    let mut i: usize = 0;
    while i < v.len()
        invariant
            0 <= i <= v@.len(),
            forall|j: int| 0 <= j < i ==> #[trigger] v@[j] != x,
        decreases v@.len() - i,
    {
        if v[i] == x {
            return true;
        }
        i += 1;
    }
    assert(!v@.contains(x)) by {
        if v@.contains(x) {
            let j = choose|j: int| 0 <= j < v@.len() && v@[j] == x;
            assert(v@[j] != x);
        }
    }
    false
}

/// The slots of `batch`, in order, that do not stand in `corrupted`.
pub fn honest_subset(batch: &Vec<usize>, corrupted: &Vec<usize>) -> (r: Vec<usize>)
    ensures
        r@ == honest_of(batch@, corrupted@),
{
    let mut r: Vec<usize> = Vec::new();
    let mut i: usize = 0;
    while i < batch.len()
        invariant
            0 <= i <= batch@.len(),
            r@ == honest_of(batch@.take(i as int), corrupted@),
        decreases batch@.len() - i,
    {
        let ghost prev = batch@.take(i as int);
        let ghost cur = batch@.take(i + 1 as int);
        proof {
            assert(cur.drop_last() =~= prev);
            assert(cur.last() == batch@[i as int]);
        }
        if !contains_idx(corrupted, batch[i]) {
            r.push(batch[i]);
        }
        i += 1;
    }
    proof {
        assert(batch@.take(batch@.len() as int) =~= batch@);
    }
    r
}

} // verus!
