//! Putting lines in the order of a key, highest first, lines of equal key
//! in the order in which they came.

use vstd::prelude::*;

verus! {

/// The place at which a line with the given key enters an order: behind
/// the last line whose key is at least as high.
pub open spec fn entry_point(order: Seq<usize>, keys: Seq<i64>, key: i64) -> int
    decreases order.len(),
{
    if order.len() == 0 {
        0
    } else if keys[order.last() as int] >= key {
        order.len() as int
    } else {
        entry_point(order.drop_last(), keys, key)
    }
}

/// The order of the lines with the given keys: the indices of the keys,
/// those of higher keys first, those of equal keys as they came.
pub open spec fn descending(keys: Seq<i64>) -> Seq<usize>
    decreases keys.len(),
{
    if keys.len() == 0 {
        Seq::empty()
    } else {
        let rest = descending(keys.drop_last());
        rest.insert(entry_point(rest, keys, keys.last()), (keys.len() - 1) as usize)
    }
}

/// Whether an order names only lines below `count`, and none twice.
pub open spec fn names_each_once(order: Seq<usize>, count: int) -> bool {
    &&& forall|k: int| 0 <= k < order.len() ==> (#[trigger] order[k]) < count
    &&& forall|i: int, j: int| 0 <= i < j < order.len() ==> order[i] != order[j]
}

/// Whether the keys fall along an order, and lines of equal key come in
/// the order of their indices.
pub open spec fn falls(order: Seq<usize>, keys: Seq<i64>) -> bool {
    forall|i: int, j: int|
        0 <= i < j < order.len() ==> keys[(#[trigger] order[i]) as int] > keys[(
        #[trigger] order[j]) as int] || (keys[order[i] as int] == keys[order[j] as int] && order[i]
            < order[j])
}

/// The entry point lies within the order; every line before it has a key
/// at least as high, every line from it on a lower one.
pub proof fn lemma_entry_point(order: Seq<usize>, keys: Seq<i64>, key: i64)
    requires
        falls(order, keys),
    ensures
        0 <= entry_point(order, keys, key) <= order.len(),
        forall|k: int|
            0 <= k < entry_point(order, keys, key) ==> keys[(#[trigger] order[k]) as int] >= key,
        forall|k: int|
            entry_point(order, keys, key) <= k < order.len() ==> keys[(#[trigger] order[k]) as int]
                < key,
    decreases order.len(),
{
    if order.len() > 0 {
        let rest = order.drop_last();
        assert forall|i: int, j: int| 0 <= i < j < rest.len() implies keys[(
        #[trigger] rest[i]) as int] > keys[(#[trigger] rest[j]) as int] || (keys[rest[i] as int]
            == keys[rest[j] as int] && rest[i] < rest[j]) by {
            assert(rest[i] == order[i] && rest[j] == order[j]);
        }
        if keys[order.last() as int] >= key {
            assert forall|k: int| 0 <= k < order.len() implies keys[(
            #[trigger] order[k]) as int] >= key by {
                if k < order.len() - 1 {
                    assert(order[order.len() - 1] == order.last());
                }
            }
        } else {
            lemma_entry_point(rest, keys, key);
            let p = entry_point(rest, keys, key);
            assert forall|k: int| 0 <= k < p implies keys[(#[trigger] order[k]) as int] >= key by {
                assert(order[k] == rest[k]);
            }
            assert forall|k: int| p <= k < order.len() implies keys[(
            #[trigger] order[k]) as int] < key by {
                if k < rest.len() {
                    assert(order[k] == rest[k]);
                }
            }
        }
    }
}

/// The order of a list of keys names every line exactly once, and the
/// keys fall along it.
pub proof fn law_descending(keys: Seq<i64>)
    requires
        keys.len() <= usize::MAX,
    ensures
        descending(keys).len() == keys.len(),
        names_each_once(descending(keys), keys.len() as int),
        falls(descending(keys), keys),
    decreases keys.len(),
{
    if keys.len() > 0 {
        let shorter = keys.drop_last();
        law_descending(shorter);
        let rest = descending(shorter);
        assert forall|i: int, j: int| 0 <= i < j < rest.len() implies keys[(
        #[trigger] rest[i]) as int] > keys[(#[trigger] rest[j]) as int] || (keys[rest[i] as int]
            == keys[rest[j] as int] && rest[i] < rest[j]) by {
            assert(shorter[rest[i] as int] == keys[rest[i] as int]);
            assert(shorter[rest[j] as int] == keys[rest[j] as int]);
        }
        lemma_entry_point(rest, keys, keys.last());
        let p = entry_point(rest, keys, keys.last());
        let last = (keys.len() - 1) as usize;
        let order = rest.insert(p, last);
        assert forall|k: int| 0 <= k < order.len() implies (#[trigger] order[k]) < keys.len() by {
            if k < p {
                assert(order[k] == rest[k]);
            } else if k > p {
                assert(order[k] == rest[k - 1]);
            }
        }
        assert forall|i: int, j: int| 0 <= i < j < order.len() implies order[i] != order[j]
            && (keys[(#[trigger] order[i]) as int] > keys[(#[trigger] order[j]) as int] || (
        keys[order[i] as int] == keys[order[j] as int] && order[i] < order[j])) by {
            if j < p {
                assert(order[i] == rest[i] && order[j] == rest[j]);
            } else if j == p {
                assert(order[i] == rest[i]);
            } else if i < p {
                assert(order[i] == rest[i] && order[j] == rest[j - 1]);
            } else if i == p {
                assert(order[j] == rest[j - 1]);
            } else {
                assert(order[i] == rest[i - 1] && order[j] == rest[j - 1]);
            }
        }
    }
}

/// The order of a list of keys names every line: none is lost.
pub proof fn law_descending_complete(keys: Seq<i64>, line: int)
    requires
        keys.len() <= usize::MAX,
        0 <= line < keys.len(),
    ensures
        descending(keys).contains(line as usize),
    decreases keys.len(),
{
    let shorter = keys.drop_last();
    law_descending(shorter);
    let rest = descending(shorter);
    assert forall|i: int, j: int| 0 <= i < j < rest.len() implies keys[(
    #[trigger] rest[i]) as int] > keys[(#[trigger] rest[j]) as int] || (keys[rest[i] as int]
        == keys[rest[j] as int] && rest[i] < rest[j]) by {
        assert(shorter[rest[i] as int] == keys[rest[i] as int]);
        assert(shorter[rest[j] as int] == keys[rest[j] as int]);
    }
    lemma_entry_point(rest, keys, keys.last());
    let p = entry_point(rest, keys, keys.last());
    let order = rest.insert(p, (keys.len() - 1) as usize);
    if line == keys.len() - 1 {
        assert(order[p] == line as usize);
    } else {
        law_descending_complete(shorter, line);
        let at = choose|at: int| 0 <= at < rest.len() && rest[at] == line as usize;
        if at < p {
            assert(order[at] == rest[at]);
        } else {
            assert(order[at + 1] == rest[at]);
        }
    }
}

/// Orders the lines with the given keys, highest key first, lines of
/// equal key as they came. Returns the indices of the lines in that order.
pub fn sort_descending(keys: &Vec<i64>) -> (order: Vec<usize>)
    ensures
        order@ == descending(keys@),
        order@.len() == keys@.len(),
        names_each_once(order@, keys@.len() as int),
        falls(order@, keys@),
{
    let mut order: Vec<usize> = Vec::new();
    let mut i: usize = 0;
    while i < keys.len()
        invariant
            i <= keys@.len(),
            order@ == descending(keys@.take(i as int)),
            order@.len() == i,
            forall|k: int| 0 <= k < order@.len() ==> (#[trigger] order@[k]) < i,
        decreases keys@.len() - i,
    {
        let key = keys[i];
        let ghost prefix = keys@.take(i + 1);
        proof {
            assert(prefix.drop_last() == keys@.take(i as int));
            assert(prefix.last() == key);
            law_descending(keys@.take(i as int));
            law_descending(prefix);
        }
        let mut at: usize = order.len();
        assert(order@.take(at as int) == order@);
        while at > 0 && keys[order[at - 1]] < key
            invariant
                at <= order@.len(),
                i < keys@.len(),
                prefix == keys@.take(i + 1),
                forall|k: int| 0 <= k < order@.len() ==> (#[trigger] order@[k]) < i,
                entry_point(order@, prefix, key) == entry_point(order@.take(at as int), prefix, key),
            decreases at,
        {
            proof {
                assert(order@.take(at as int).drop_last() == order@.take(at - 1));
                assert(order@.take(at as int).last() == order@[at - 1]);
                assert(prefix[order@[at - 1] as int] == keys@[order@[at - 1] as int]);
            }
            at = at - 1;
        }
        proof {
            if at > 0 {
                assert(order@.take(at as int).last() == order@[at - 1]);
                assert(prefix[order@[at - 1] as int] == keys@[order@[at - 1] as int]);
            }
        }
        order.insert(at, i);
        i = i + 1;
    }
    proof {
        assert(keys@.take(i as int) == keys@);
        law_descending(keys@);
    }
    order
}

} // verus!
