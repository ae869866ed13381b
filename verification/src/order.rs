//! Stable sorting of items by an unsigned key.

use vstd::prelude::*;

verus! {

/// Items that are ordered by a number.
pub trait Keyed: Sized {
    spec fn spec_key(&self) -> u64;

    fn key(&self) -> (r: u64)
        ensures
            r == self.spec_key(),
    ;
}

/// The items with `x` put in front of the first item whose key is not smaller.
pub open spec fn insert_in_order<T: Keyed>(s: Seq<T>, x: T) -> Seq<T>
    decreases s.len(),
{
    if s.len() == 0 || x.spec_key() <= s[0].spec_key() {
        seq![x] + s
    } else {
        seq![s[0]] + insert_in_order(s.drop_first(), x)
    }
}

/// The items in ascending order of their keys; items with equal keys keep
/// their order.
pub open spec fn in_order<T: Keyed>(s: Seq<T>) -> Seq<T>
    decreases s.len(),
{
    if s.len() == 0 {
        Seq::empty()
    } else {
        insert_in_order(in_order(s.drop_first()), s[0])
    }
}

/// Whether keys never decrease.
pub open spec fn ascending<T: Keyed>(s: Seq<T>) -> bool {
    forall|i: int, j: int| 0 <= i <= j < s.len() ==> (#[trigger] s[i]).spec_key() <= (#[trigger] s[j]).spec_key()
}

proof fn lemma_insert_in_order<T: Keyed>(s: Seq<T>, x: T)
    requires
        ascending(s),
    ensures
        ascending(insert_in_order(s, x)),
        insert_in_order(s, x).len() == s.len() + 1,
        insert_in_order(s, x).to_multiset() == s.to_multiset().insert(x),
        insert_in_order(s, x)[0] == x || (s.len() > 0 && insert_in_order(s, x)[0] == s[0]),
    decreases s.len(),
{
    broadcast use vstd::seq_lib::group_to_multiset_ensures;

    let r = insert_in_order(s, x);
    if s.len() == 0 || x.spec_key() <= s[0].spec_key() {
        assert(r =~= s.insert(0, x));
        assert(seq![x].to_multiset() =~= vstd::multiset::Multiset::empty().insert(x)) by {
            assert(seq![x] =~= Seq::<T>::empty().push(x));
        }
        vstd::seq_lib::lemma_multiset_commutative(seq![x], s);
        assert(r.to_multiset() =~= s.to_multiset().insert(x));
        assert forall|i: int, j: int| 0 <= i <= j < r.len() implies (#[trigger] r[i]).spec_key() <= (
        #[trigger] r[j]).spec_key() by {
            if i == 0 && j > 0 {
                assert(s[0].spec_key() <= s[j - 1].spec_key());
            } else if i > 0 {
                assert(s[i - 1].spec_key() <= s[j - 1].spec_key());
            }
        }
    } else {
        let rest = s.drop_first();
        lemma_insert_in_order(rest, x);
        let tail = insert_in_order(rest, x);
        assert(r =~= seq![s[0]] + tail);
        vstd::seq_lib::lemma_multiset_commutative(seq![s[0]], tail);
        vstd::seq_lib::lemma_multiset_commutative(seq![s[0]], rest);
        assert(seq![s[0]] + rest =~= s);
        assert(r.to_multiset() =~= s.to_multiset().insert(x));
        assert forall|i: int, j: int| 0 <= i <= j < r.len() implies (#[trigger] r[i]).spec_key() <= (
        #[trigger] r[j]).spec_key() by {
            if i == 0 && j > 0 {
                assert(tail[0].spec_key() <= tail[j - 1].spec_key());
                if rest.len() > 0 {
                    assert(s[0].spec_key() <= s[1].spec_key());
                }
            } else if i > 0 {
                assert(tail[i - 1].spec_key() <= tail[j - 1].spec_key());
            }
        }
    }
}

/// Sorting puts the keys in ascending order and keeps every item.
pub proof fn law_sorting_orders_the_same_items<T: Keyed>(s: Seq<T>)
    ensures
        ascending(in_order(s)),
        in_order(s).len() == s.len(),
        in_order(s).to_multiset() == s.to_multiset(),
    decreases s.len(),
{
    broadcast use vstd::seq_lib::group_to_multiset_ensures;

    if s.len() > 0 {
        law_sorting_orders_the_same_items(s.drop_first());
        lemma_insert_in_order(in_order(s.drop_first()), s[0]);
        vstd::seq_lib::lemma_multiset_commutative(seq![s[0]], s.drop_first());
        assert(seq![s[0]] + s.drop_first() =~= s);
        assert(in_order(s).to_multiset() =~= s.to_multiset());
    } else {
        assert(in_order(s) =~= s);
    }
}

/// The items of a list that have the given key, in order.
pub open spec fn with_key<T: Keyed>(s: Seq<T>, key: u64) -> Seq<T>
    decreases s.len(),
{
    if s.len() == 0 {
        Seq::empty()
    } else if s[0].spec_key() == key {
        seq![s[0]] + with_key(s.drop_first(), key)
    } else {
        with_key(s.drop_first(), key)
    }
}

proof fn lemma_insert_with_key<T: Keyed>(s: Seq<T>, x: T, key: u64)
    requires
        ascending(s),
    ensures
        with_key(insert_in_order(s, x), key) == (if x.spec_key() == key {
            seq![x] + with_key(s, key)
        } else {
            with_key(s, key)
        }),
    decreases s.len(),
{
    let r = insert_in_order(s, x);
    if s.len() == 0 || x.spec_key() <= s[0].spec_key() {
        assert(r.drop_first() =~= s);
        assert(r[0] == x);
    } else {
        let rest = s.drop_first();
        lemma_insert_with_key(rest, x, key);
        assert(r.drop_first() =~= insert_in_order(rest, x));
        assert(r[0] == s[0]);
        assert(x.spec_key() > s[0].spec_key());
        if x.spec_key() == key {
            assert(s[0].spec_key() != key);
        }
    }
}

/// Sorting is stable: items with equal keys keep their order.
pub proof fn law_sorting_is_stable<T: Keyed>(s: Seq<T>, key: u64)
    ensures
        with_key(in_order(s), key) == with_key(s, key),
    decreases s.len(),
{
    if s.len() > 0 {
        law_sorting_orders_the_same_items(s.drop_first());
        law_sorting_is_stable(s.drop_first(), key);
        lemma_insert_with_key(in_order(s.drop_first()), s[0], key);
    }
}

/// Whether keys always increase.
pub open spec fn strictly_ascending<T: Keyed>(s: Seq<T>) -> bool {
    forall|i: int, j: int|
        0 <= i < j < s.len() ==> (#[trigger] s[i]).spec_key() < (#[trigger] s[j]).spec_key()
}

/// Whether no key occurs twice.
pub open spec fn distinct_keys<T: Keyed>(s: Seq<T>) -> bool {
    forall|i: int, j: int|
        0 <= i < j < s.len() ==> (#[trigger] s[i]).spec_key() != (#[trigger] s[j]).spec_key()
}

/// Whether two lists hold the same items.
pub open spec fn same_items<T>(a: Seq<T>, b: Seq<T>) -> bool {
    forall|x: T| #[trigger] a.contains(x) <==> b.contains(x)
}

proof fn lemma_insert_strictly<T: Keyed>(s: Seq<T>, x: T)
    requires
        strictly_ascending(s),
        forall|i: int| 0 <= i < s.len() ==> (#[trigger] s[i]).spec_key() != x.spec_key(),
    ensures
        strictly_ascending(insert_in_order(s, x)),
        forall|y: T| #[trigger] insert_in_order(s, x).contains(y) <==> y == x || s.contains(y),
    decreases s.len(),
{
    let r = insert_in_order(s, x);
    if s.len() == 0 || x.spec_key() <= s[0].spec_key() {
        assert forall|i: int, j: int| 0 <= i < j < r.len() implies (#[trigger] r[i]).spec_key() < (
        #[trigger] r[j]).spec_key() by {
            if i == 0 {
                assert(s[0].spec_key() != x.spec_key());
                assert(r[j] == s[j - 1]);
                if j > 1 {
                    assert(s[0].spec_key() < s[j - 1].spec_key());
                }
            } else {
                assert(s[i - 1].spec_key() < s[j - 1].spec_key());
            }
        }
        assert forall|y: T| #[trigger] r.contains(y) <==> y == x || s.contains(y) by {
            if y == x {
                assert(r[0] == x);
            }
            if s.contains(y) {
                let k = s.index_of(y);
                assert(r[k + 1] == y);
            }
            if r.contains(y) {
                let k = r.index_of(y);
                if k > 0 {
                    assert(s[k - 1] == y);
                }
            }
        }
    } else {
        let rest = s.drop_first();
        let tail = insert_in_order(rest, x);
        assert forall|i: int, j: int| 0 <= i < j < rest.len() implies (
        #[trigger] rest[i]).spec_key() < (#[trigger] rest[j]).spec_key() by {
            assert(s[i + 1].spec_key() < s[j + 1].spec_key());
        }
        assert forall|i: int| 0 <= i < rest.len() implies (#[trigger] rest[i]).spec_key()
            != x.spec_key() by {
            assert(s[i + 1].spec_key() != x.spec_key());
        }
        lemma_insert_strictly(rest, x);
        assert forall|i: int, j: int| 0 <= i < j < r.len() implies (#[trigger] r[i]).spec_key() < (
        #[trigger] r[j]).spec_key() by {
            if i == 0 {
                assert(tail.contains(tail[j - 1]));
                if tail[j - 1] != x {
                    assert(rest.contains(tail[j - 1]));
                    let k = rest.index_of(tail[j - 1]);
                    assert(s[0].spec_key() < s[k + 1].spec_key());
                }
            } else {
                assert(tail[i - 1].spec_key() < tail[j - 1].spec_key());
            }
        }
        assert forall|y: T| #[trigger] r.contains(y) <==> y == x || s.contains(y) by {
            if y == s[0] {
                assert(r[0] == y);
                assert(s.contains(y));
            }
            if s.contains(y) && y != s[0] {
                let k = s.index_of(y);
                assert(rest[k - 1] == y);
                assert(rest.contains(y));
            }
            if tail.contains(y) {
                let k = tail.index_of(y);
                assert(r[k + 1] == y);
            }
            if rest.contains(y) {
                let k = rest.index_of(y);
                assert(s[k + 1] == y);
            }
            if r.contains(y) {
                let k = r.index_of(y);
                if k > 0 {
                    assert(tail[k - 1] == y);
                    assert(tail.contains(y));
                }
            }
        }
    }
}

proof fn lemma_sorted_strictly<T: Keyed>(s: Seq<T>)
    requires
        distinct_keys(s),
    ensures
        strictly_ascending(in_order(s)),
        same_items(in_order(s), s),
    decreases s.len(),
{
    if s.len() > 0 {
        let rest = s.drop_first();
        let sorted = in_order(rest);
        assert forall|i: int, j: int| 0 <= i < j < rest.len() implies (
        #[trigger] rest[i]).spec_key() != (#[trigger] rest[j]).spec_key() by {
            assert(s[i + 1].spec_key() != s[j + 1].spec_key());
        }
        lemma_sorted_strictly(rest);
        assert forall|i: int| 0 <= i < sorted.len() implies (#[trigger] sorted[i]).spec_key()
            != s[0].spec_key() by {
            assert(sorted.contains(sorted[i]));
            assert(rest.contains(sorted[i]));
            let k = rest.index_of(sorted[i]);
            assert(s[0].spec_key() != s[k + 1].spec_key());
        }
        lemma_insert_strictly(sorted, s[0]);
        assert forall|y: T| #[trigger] in_order(s).contains(y) <==> s.contains(y) by {
            assert(sorted.contains(y) <==> rest.contains(y));
            if rest.contains(y) {
                let k = rest.index_of(y);
                assert(s[k + 1] == y);
            }
            if s.contains(y) && y != s[0] {
                let k = s.index_of(y);
                assert(rest[k - 1] == y);
            }
            assert(s.contains(s[0]));
        }
    }
}

/// Lists of the same items whose keys increase are equal.
proof fn lemma_one_order<T: Keyed>(a: Seq<T>, b: Seq<T>)
    requires
        strictly_ascending(a),
        strictly_ascending(b),
        same_items(a, b),
    ensures
        a == b,
    decreases a.len(),
{
    if a.len() == 0 {
        if b.len() > 0 {
            assert(b.contains(b[0]));
            assert(a.contains(b[0]));
        }
        assert(a =~= b);
    } else {
        assert(a.contains(a[0]));
        assert(b.contains(a[0]));
        let j = b.index_of(a[0]);
        assert(b.contains(b[0]));
        assert(a.contains(b[0]));
        let i = a.index_of(b[0]);
        if j > 0 {
            assert(b[0].spec_key() < b[j].spec_key());
            if i > 0 {
                assert(a[0].spec_key() < a[i].spec_key());
            }
        }
        assert(a[0] == b[0]);
        let ra = a.drop_first();
        let rb = b.drop_first();
        lemma_without_first(a);
        lemma_without_first(b);
        assert forall|x: T| #[trigger] ra.contains(x) <==> rb.contains(x) by {
            assert(a.contains(x) <==> b.contains(x));
            assert(rb.contains(x) <==> b.contains(x) && x != b[0]);
        }
        lemma_one_order(ra, rb);
        assert(a =~= seq![a[0]] + ra);
        assert(b =~= seq![b[0]] + rb);
    }
}

proof fn lemma_without_first<T: Keyed>(s: Seq<T>)
    requires
        s.len() > 0,
        strictly_ascending(s),
    ensures
        strictly_ascending(s.drop_first()),
        forall|x: T| #[trigger] s.drop_first().contains(x) <==> s.contains(x) && x != s[0],
{
    let rest = s.drop_first();
    assert forall|i: int, j: int| 0 <= i < j < rest.len() implies (#[trigger] rest[i]).spec_key() < (
    #[trigger] rest[j]).spec_key() by {
        assert(s[i + 1].spec_key() < s[j + 1].spec_key());
    }
    assert forall|x: T| #[trigger] rest.contains(x) <==> s.contains(x) && x != s[0] by {
        if rest.contains(x) {
            let k = rest.index_of(x);
            assert(s[k + 1] == x);
            assert(s[0].spec_key() < s[k + 1].spec_key());
        }
        if s.contains(x) && x != s[0] {
            let k = s.index_of(x);
            assert(rest[k - 1] == x);
        }
    }
}

/// How items with distinct keys were ordered does not matter: lists of the same
/// items sort alike.
pub proof fn law_sorting_forgets_the_order<T: Keyed>(a: Seq<T>, b: Seq<T>)
    requires
        distinct_keys(a),
        distinct_keys(b),
        same_items(a, b),
    ensures
        in_order(a) == in_order(b),
{
    lemma_sorted_strictly(a);
    lemma_sorted_strictly(b);
    assert forall|x: T| #[trigger] in_order(a).contains(x) <==> in_order(b).contains(x) by {
        assert(a.contains(x) <==> b.contains(x));
        assert(in_order(b).contains(x) <==> b.contains(x));
    }
    lemma_one_order(in_order(a), in_order(b));
}

/// Whether items with equal keys are equal.
pub open spec fn keys_tell_apart<T: Keyed>(s: Seq<T>) -> bool {
    forall|i: int, j: int|
        0 <= i < s.len() && 0 <= j < s.len() && (#[trigger] s[i]).spec_key() == (
        #[trigger] s[j]).spec_key() ==> s[i] == s[j]
}

proof fn lemma_one_ascending<T: Keyed>(a: Seq<T>, b: Seq<T>)
    requires
        ascending(a),
        ascending(b),
        a.to_multiset() == b.to_multiset(),
        keys_tell_apart(a),
    ensures
        a == b,
    decreases a.len(),
{
    broadcast use vstd::seq_lib::group_to_multiset_ensures;

    assert(a.len() == a.to_multiset().len() && b.len() == b.to_multiset().len());
    if a.len() == 0 {
        assert(a =~= b);
    } else {
        assert(a.contains(a[0]) && b.contains(b[0]));
        assert(a.to_multiset().count(a[0]) > 0 && b.to_multiset().count(b[0]) > 0);
        assert(b.contains(a[0]) && a.contains(b[0]));
        let j = b.index_of(a[0]);
        let i = a.index_of(b[0]);
        assert(b[0].spec_key() <= b[j].spec_key());
        assert(a[0].spec_key() <= a[i].spec_key());
        assert(a[0] == a[i]);
        let ra = a.drop_first();
        let rb = b.drop_first();
        assert(ra =~= a.remove(0) && rb =~= b.remove(0));
        assert(ra.to_multiset() =~= rb.to_multiset());
        assert forall|x: int, y: int| 0 <= x <= y < ra.len() implies (#[trigger] ra[x]).spec_key()
            <= (#[trigger] ra[y]).spec_key() by {
            assert(a[x + 1].spec_key() <= a[y + 1].spec_key());
        }
        assert forall|x: int, y: int| 0 <= x <= y < rb.len() implies (#[trigger] rb[x]).spec_key()
            <= (#[trigger] rb[y]).spec_key() by {
            assert(b[x + 1].spec_key() <= b[y + 1].spec_key());
        }
        assert forall|x: int, y: int|
            0 <= x < ra.len() && 0 <= y < ra.len() && (#[trigger] ra[x]).spec_key() == (
            #[trigger] ra[y]).spec_key() implies ra[x] == ra[y] by {
            assert(a[x + 1] == a[y + 1]);
        }
        lemma_one_ascending(ra, rb);
        assert(a =~= seq![a[0]] + ra);
        assert(b =~= seq![b[0]] + rb);
    }
}

/// How items were ordered does not matter where their keys tell them apart: the
/// same items, as often as before, sort alike.
pub proof fn law_sorting_undoes_permutations<T: Keyed>(a: Seq<T>, b: Seq<T>)
    requires
        a.to_multiset() == b.to_multiset(),
        keys_tell_apart(a),
    ensures
        in_order(a) == in_order(b),
{
    broadcast use vstd::seq_lib::group_to_multiset_ensures;

    law_sorting_orders_the_same_items(a);
    law_sorting_orders_the_same_items(b);
    let s = in_order(a);
    assert forall|i: int, j: int|
        0 <= i < s.len() && 0 <= j < s.len() && (#[trigger] s[i]).spec_key() == (
        #[trigger] s[j]).spec_key() implies s[i] == s[j] by {
        assert(s.contains(s[i]) && s.contains(s[j]));
        assert(s.to_multiset().count(s[i]) > 0 && s.to_multiset().count(s[j]) > 0);
        assert(a.contains(s[i]) && a.contains(s[j]));
        let x = a.index_of(s[i]);
        let y = a.index_of(s[j]);
        assert(a[x].spec_key() == a[y].spec_key());
    }
    lemma_one_ascending(s, in_order(b));
}

fn place<T: Keyed>(items: &mut Vec<T>, x: T)
    ensures
        final(items)@ == insert_in_order(old(items)@, x),
{
    let mut i: usize = 0;
    let ghost s = items@;
    proof {
        assert(s.skip(0) =~= s);
        assert(s.take(0) + insert_in_order(s, x) =~= insert_in_order(s, x));
    }
    while i < items.len()
        invariant_except_break
            i <= s.len(),
            items@ == s,
            s.take(i as int) + insert_in_order(s.skip(i as int), x) == insert_in_order(s, x),
        ensures
            i <= s.len(),
            items@ == s,
            s.take(i as int) + (seq![x] + s.skip(i as int)) == insert_in_order(s, x),
        decreases s.len() - i,
    {
        if x.key() <= items[i].key() {
            break;
        }
        proof {
            let rest = s.skip(i as int);
            assert(rest[0] == s[i as int]);
            assert(rest.drop_first() =~= s.skip(i as int + 1));
            assert(s.take(i as int) + (seq![rest[0]] + insert_in_order(rest.drop_first(), x))
                =~= s.take(i as int + 1) + insert_in_order(s.skip(i as int + 1), x));
        }
        i = i + 1;
    }
    proof {
        assert(s.insert(i as int, x) =~= s.take(i as int) + (seq![x] + s.skip(i as int)));
    }
    items.insert(i, x);
}

/// The items in ascending order of their keys; items with equal keys keep
/// their order.
pub fn sort_stable<T: Keyed>(items: Vec<T>) -> (r: Vec<T>)
    ensures
        r@ == in_order(items@),
{
    let mut rest: Vec<T> = items;
    let mut out: Vec<T> = Vec::new();
    let ghost all = items@;
    while rest.len() > 0
        invariant
            rest@.len() <= all.len(),
            rest@ == all.take(rest@.len() as int),
            out@ == in_order(all.skip(rest@.len() as int)),
        decreases rest@.len(),
    {
        let ghost n = rest@.len();
        match rest.pop() {
            Some(x) => {
                proof {
                    assert(all.skip(n - 1)[0] == x);
                    assert(all.skip(n - 1).drop_first() =~= all.skip(n as int));
                    assert(rest@ =~= all.take(n - 1));
                }
                place(&mut out, x);
            },
            None => {},
        }
    }
    proof {
        assert(all.skip(0) =~= all);
    }
    out
}

} // verus!
