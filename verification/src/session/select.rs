//! Ordered, filtered and limited selections.

use vstd::prelude::*;

verus! {

/// The items that satisfy a predicate, in order.
pub open spec fn kept<T>(items: Seq<T>, p: spec_fn(T) -> bool) -> Seq<T>
    decreases items.len(),
{
    if items.len() == 0 {
        Seq::empty()
    } else if p(items.last()) {
        kept(items.drop_last(), p).push(items.last())
    } else {
        kept(items.drop_last(), p)
    }
}

/// At most the first `limit` items.
pub open spec fn limited<T>(items: Seq<T>, limit: Option<usize>) -> Seq<T> {
    match limit {
        Some(n) => if n < items.len() {
            items.take(n as int)
        } else {
            items
        },
        None => items,
    }
}

/// What is kept of a part from the front is a front part of what is kept.
pub proof fn lemma_kept_prefix<T>(items: Seq<T>, p: spec_fn(T) -> bool, i: int)
    requires
        0 <= i <= items.len(),
    ensures
        kept(items.take(i), p).len() <= kept(items, p).len(),
        kept(items, p).take(kept(items.take(i), p).len() as int) == kept(items.take(i), p),
    decreases items.len(),
{
    if i == items.len() {
        assert(items.take(i) =~= items);
        assert(kept(items, p).take(kept(items, p).len() as int) =~= kept(items, p));
    } else {
        let shorter = items.drop_last();
        lemma_kept_prefix(shorter, p, i);
        assert(shorter.take(i) =~= items.take(i));
        let n = kept(items.take(i), p).len() as int;
        assert(kept(items, p).take(n) =~= kept(shorter, p).take(n));
    }
}

/// What is kept satisfies the predicate and stands among the items.
pub proof fn lemma_kept<T>(items: Seq<T>, p: spec_fn(T) -> bool, k: int)
    requires
        0 <= k < kept(items, p).len(),
    ensures
        p(kept(items, p)[k]),
        exists|i: int| 0 <= i < items.len() && #[trigger] items[i] == kept(items, p)[k],
    decreases items.len(),
{
    let shorter = items.drop_last();
    if k < kept(shorter, p).len() {
        lemma_kept(shorter, p, k);
        let i = choose|i: int|
            0 <= i < shorter.len() && #[trigger] shorter[i] == kept(shorter, p)[k];
        assert(items[i] == kept(items, p)[k]);
    } else {
        assert(items[items.len() - 1] == kept(items, p)[k]);
    }
}

/// A test of items.
pub trait Chooser<T>: Sized {
    spec fn chooses(&self, item: T) -> bool;

    fn test(&self, item: &T) -> (r: bool)
        ensures
            r == self.chooses(*item),
    ;
}

/// The predicate of a chooser.
pub open spec fn choice<T, C: Chooser<T>>(chooser: C) -> spec_fn(T) -> bool {
    |item: T| chooser.chooses(item)
}

/// The chosen items, at most `limit` of them.
pub fn chosen<T: Clone, C: Chooser<T>>(items: &Vec<T>, chooser: &C, limit: Option<usize>) -> (r:
    Vec<T>)
    requires
        forall|a: T, b: T| #[trigger] cloned(a, b) ==> a == b,
        limit != Some(0usize),
    ensures
        r@ == limited(kept(items@, choice(*chooser)), limit),
{
    let ghost p = choice(*chooser);
    let mut out: Vec<T> = Vec::new();
    let mut i: usize = 0;
    proof {
        assert(items@.take(0) =~= Seq::<T>::empty());
    }
    while i < items.len()
        invariant
            i <= items@.len(),
            forall|a: T, b: T| #[trigger] cloned(a, b) ==> a == b,
            p == choice(*chooser),
            out@ == kept(items@.take(i as int), p),
            limit matches Some(n) ==> out@.len() < n,
        decreases items@.len() - i,
    {
        proof {
            assert(items@.take(i as int + 1).drop_last() =~= items@.take(i as int));
        }
        if chooser.test(&items[i]) {
            let copy: T = items[i].clone();
            proof {
                assert(cloned(items@[i as int], copy));
            }
            out.push(copy);
            if let Some(n) = limit {
                if out.len() == n {
                    proof {
                        lemma_kept_prefix(items@, p, i as int + 1);
                        if kept(items@, p).len() == n {
                            assert(kept(items@, p).take(n as int) =~= kept(items@, p));
                        }
                    }
                    return out;
                }
            }
        }
        i = i + 1;
    }
    proof {
        assert(items@.take(items@.len() as int) =~= items@);
    }
    out
}

/// The items in reverse.
pub fn reversed<T: Clone>(items: &Vec<T>) -> (r: Vec<T>)
    requires
        forall|a: T, b: T| #[trigger] cloned(a, b) ==> a == b,
    ensures
        r@ == items@.reverse(),
{
    let mut out: Vec<T> = Vec::new();
    let mut i: usize = items.len();
    while i > 0
        invariant
            i <= items@.len(),
            forall|a: T, b: T| #[trigger] cloned(a, b) ==> a == b,
            out@.len() == items@.len() - i,
            forall|k: int|
                0 <= k < out@.len() ==> #[trigger] out@[k] == items@[items@.len() - 1 - k],
        decreases i,
    {
        i = i - 1;
        let copy: T = items[i].clone();
        proof {
            assert(cloned(items@[i as int], copy));
        }
        out.push(copy);
    }
    proof {
        assert(out@ =~= items@.reverse());
    }
    out
}

/// The first `n` items, or all if there are fewer.
pub fn first_items<T: Clone>(items: &Vec<T>, limit: Option<usize>) -> (r: Vec<T>)
    requires
        forall|a: T, b: T| #[trigger] cloned(a, b) ==> a == b,
    ensures
        r@ == limited(items@, limit),
{
    let end: usize = match limit {
        Some(n) => if n < items.len() {
            n
        } else {
            items.len()
        },
        None => items.len(),
    };
    let mut out: Vec<T> = Vec::new();
    let mut i: usize = 0;
    while i < end
        invariant
            i <= end <= items@.len(),
            forall|a: T, b: T| #[trigger] cloned(a, b) ==> a == b,
            out@ == items@.take(i as int),
        decreases end - i,
    {
        let copy: T = items[i].clone();
        proof {
            assert(cloned(items@[i as int], copy));
            assert(items@.take(i as int + 1) =~= items@.take(i as int).push(items@[i as int]));
        }
        out.push(copy);
        i = i + 1;
    }
    proof {
        assert(items@.take(items@.len() as int) =~= items@);
    }
    out
}

} // verus!
