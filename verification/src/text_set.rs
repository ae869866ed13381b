//! Sets of texts, kept in order.

use vstd::prelude::*;

use crate::text::{chars_of, texts};

verus! {

/// Whether a text stands before another in lexicographic order of its
/// characters' code points.
pub open spec fn text_before(a: Seq<char>, b: Seq<char>) -> bool
    decreases a.len(),
{
    if b.len() == 0 {
        false
    } else if a.len() == 0 {
        true
    } else if a[0] != b[0] {
        a[0] < b[0]
    } else {
        text_before(a.drop_first(), b.drop_first())
    }
}

/// No text stands before itself.
pub proof fn lemma_before_irreflexive(a: Seq<char>)
    ensures
        !text_before(a, a),
    decreases a.len(),
{
    if a.len() > 0 {
        lemma_before_irreflexive(a.drop_first());
    }
}

/// The order is transitive.
pub proof fn lemma_before_transitive(a: Seq<char>, b: Seq<char>, c: Seq<char>)
    requires
        text_before(a, b),
        text_before(b, c),
    ensures
        text_before(a, c),
    decreases a.len(),
{
    if a.len() > 0 && b.len() > 0 && c.len() > 0 && a[0] == b[0] && b[0] == c[0] {
        lemma_before_transitive(a.drop_first(), b.drop_first(), c.drop_first());
    }
}

/// Of two different texts one stands before the other.
pub proof fn lemma_before_total(a: Seq<char>, b: Seq<char>)
    ensures
        a == b || text_before(a, b) || text_before(b, a),
    decreases a.len(),
{
    if a.len() == 0 || b.len() == 0 {
        if a.len() == b.len() {
            assert(a =~= b);
        }
    } else if a[0] == b[0] {
        lemma_before_total(a.drop_first(), b.drop_first());
        if a.drop_first() == b.drop_first() {
            assert(a =~= seq![a[0]] + a.drop_first());
            assert(b =~= seq![b[0]] + b.drop_first());
        }
    }
}

/// Whether a text stands before another.
pub fn stands_before(a: &str, b: &str) -> (r: bool)
    ensures
        r == text_before(a@, b@),
{
    let x: Vec<char> = chars_of(a);
    let y: Vec<char> = chars_of(b);
    let mut i: usize = 0;
    proof {
        assert(x@.skip(0) =~= x@);
        assert(y@.skip(0) =~= y@);
    }
    while i < x.len() && i < y.len()
        invariant
            i <= x@.len(),
            i <= y@.len(),
            x@ == a@,
            y@ == b@,
            text_before(x@, y@) == text_before(x@.skip(i as int), y@.skip(i as int)),
        decreases x@.len() - i,
    {
        proof {
            assert(x@.skip(i as int)[0] == x@[i as int]);
            assert(y@.skip(i as int)[0] == y@[i as int]);
            assert(x@.skip(i as int).drop_first() =~= x@.skip(i as int + 1));
            assert(y@.skip(i as int).drop_first() =~= y@.skip(i as int + 1));
        }
        if x[i] != y[i] {
            return x[i] < y[i];
        }
        i = i + 1;
    }
    i < y.len()
}

/// Whether each text stands before those that follow it.
pub open spec fn in_text_order(s: Seq<Seq<char>>) -> bool {
    forall|i: int, j: int| 0 <= i < j < s.len() ==> text_before(#[trigger] s[i], #[trigger] s[j])
}

/// Whether a list holds exactly the texts of a set, in order.
pub open spec fn lists(s: Seq<Seq<char>>, set: Set<Seq<char>>) -> bool {
    in_text_order(s) && forall|t: Seq<char>| #[trigger] s.contains(t) == set.contains(t)
}

/// A set of texts.
pub struct TextSet {
    items: Vec<String>,
}

impl TextSet {
    #[verifier::type_invariant]
    spec fn ordered(self) -> bool {
        in_text_order(texts(self.items@))
    }

    /// The texts of the set.
    pub closed spec fn view(&self) -> Set<Seq<char>> {
        Set::new(|t: Seq<char>| texts(self.items@).contains(t))
    }

    /// The empty set.
    pub fn new() -> (r: Self)
        ensures
            r@ == Set::<Seq<char>>::empty(),
    {
        let items: Vec<String> = Vec::new();
        let r: TextSet = TextSet { items };
        proof {
            assert(r@ =~= Set::<Seq<char>>::empty());
        }
        r
    }

    /// Whether the set holds a text.
    pub fn contains(&self, text: &str) -> (r: bool)
        ensures
            r == self@.contains(text@),
    {
        let mut i: usize = 0;
        while i < self.items.len()
            invariant
                i <= self.items@.len(),
                forall|k: int| 0 <= k < i ==> (#[trigger] texts(self.items@)[k]) != text@,
            decreases self.items@.len() - i,
        {
            if crate::text::same_text(self.items[i].as_str(), text) {
                proof {
                    assert(texts(self.items@)[i as int] == text@);
                }
                return true;
            }
            i = i + 1;
        }
        false
    }

    /// Adds a text to the set.
    pub fn insert(&mut self, text: String)
        ensures
            final(self)@ == old(self)@.insert(text@),
    {
        proof {
            use_type_invariant(&*self);
        }
        let ghost before = texts(self.items@);
        let ghost whole = old(self)@;
        let mut out: Vec<String> = Vec::new();
        let mut placed: bool = false;
        let mut i: usize = 0;
        while i < self.items.len()
            invariant
                i <= self.items@.len(),
                before == texts(self.items@),
                in_text_order(before),
                in_text_order(texts(out@)),
                forall|t: Seq<char>|
                    #[trigger] texts(out@).contains(t) == (before.take(i as int).contains(t) || (
                    placed && t == text@)),
                forall|k: int, m: int|
                    #![trigger texts(out@)[k], before[m]]
                    0 <= k < out@.len() && i <= m < before.len() ==> text_before(
                        texts(out@)[k],
                        before[m],
                    ),
                !placed ==> forall|k: int|
                    0 <= k < out@.len() ==> text_before(#[trigger] texts(out@)[k], text@),
            decreases self.items@.len() - i,
        {
            let item: String = self.items[i].clone();
            proof {
                lemma_before_total(text@, item@);
                assert(before[i as int] == item@);
                assert(before.take(i as int + 1) =~= before.take(i as int).push(item@));
            }
            if !placed {
                if crate::text::same_text(item.as_str(), text.as_str()) {
                    placed = true;
                } else if stands_before(text.as_str(), item.as_str()) {
                    let ghost old_out = out@;
                    out.push(text.clone());
                    proof {
                        lemma_pushed(old_out, text);
                        assert forall|k: int, m: int|
                            #![trigger texts(out@)[k], before[m]]
                            0 <= k < out@.len() && i <= m < before.len() implies text_before(
                            texts(out@)[k],
                            before[m],
                        ) by {
                            if k == old_out.len() {
                                assert(texts(out@)[k] == text@);
                                if m > i {
                                    assert(text_before(before[i as int], before[m]));
                                    lemma_before_transitive(text@, item@, before[m]);
                                }
                            } else {
                                assert(texts(out@)[k] == texts(old_out)[k]);
                            }
                        }
                    }
                    placed = true;
                }
            }
            let ghost old_out = out@;
            out.push(item);
            proof {
                lemma_pushed(old_out, item);
                assert forall|k: int, m: int|
                    #![trigger texts(out@)[k], before[m]]
                    0 <= k < out@.len() && i + 1 <= m < before.len() implies text_before(
                    texts(out@)[k],
                    before[m],
                ) by {
                    if k == old_out.len() {
                        assert(texts(out@)[k] == before[i as int]);
                    } else {
                        assert(texts(out@)[k] == texts(old_out)[k]);
                    }
                }
                assert forall|t: Seq<char>| #[trigger] texts(out@).contains(t) == (before.take(
                    i as int + 1,
                ).contains(t) || (placed && t == text@)) by {
                    assert(texts(out@).contains(t) == (texts(old_out).contains(t) || t == item@));
                    lemma_push_contains(before.take(i as int), item@, t);
                }
                if !placed {
                    assert forall|k: int| 0 <= k < out@.len() implies text_before(
                        #[trigger] texts(out@)[k],
                        text@,
                    ) by {
                        if k == old_out.len() {
                            assert(texts(out@)[k] == item@);
                        } else {
                            assert(texts(out@)[k] == texts(old_out)[k]);
                        }
                    }
                }
            }
            i = i + 1;
        }
        if !placed {
            let ghost old_out = out@;
            out.push(text);
            proof {
                lemma_pushed(old_out, text);
            }
        }
        proof {
            assert(before.take(before.len() as int) =~= before);
        }
        self.items = out;
        proof {
            assert(self@ =~= whole.insert(text@));
        }
    }

    /// The texts of the set, in order.
    pub fn to_list(&self) -> (r: Vec<String>)
        ensures
            lists(texts(r@), self@),
    {
        proof {
            use_type_invariant(self);
        }
        let r: Vec<String> = self.items.clone();
        proof {
            assert(r@ =~= self.items@);
        }
        r
    }
}

proof fn lemma_push_contains(s: Seq<Seq<char>>, x: Seq<char>, t: Seq<char>)
    ensures
        s.push(x).contains(t) == (s.contains(t) || t == x),
{
    if s.contains(t) {
        let k = choose|k: int| 0 <= k < s.len() && s[k] == t;
        assert(s.push(x)[k] == t);
    }
    if t == x {
        assert(s.push(x)[s.len() as int] == t);
    }
    if s.push(x).contains(t) {
        let k = choose|k: int| 0 <= k < s.push(x).len() && s.push(x)[k] == t;
        if k < s.len() {
            assert(s[k] == t);
        }
    }
}

proof fn lemma_pushed(items: Seq<String>, item: String)
    ensures
        texts(items.push(item)) == texts(items).push(item@),
        forall|t: Seq<char>|
            #[trigger] texts(items.push(item)).contains(t) == (texts(items).contains(t) || t
                == item@),
        in_text_order(texts(items)) && (forall|k: int|
            0 <= k < items.len() ==> text_before(#[trigger] texts(items)[k], item@))
            ==> in_text_order(texts(items.push(item))),
{
    assert(texts(items.push(item)) =~= texts(items).push(item@));
    assert forall|t: Seq<char>| #[trigger] texts(items.push(item)).contains(t) == (texts(
        items,
    ).contains(t) || t == item@) by {
        lemma_push_contains(texts(items), item@, t);
    }
    if in_text_order(texts(items)) && (forall|k: int|
        0 <= k < items.len() ==> text_before(#[trigger] texts(items)[k], item@)) {
        let s = texts(items.push(item));
        assert forall|i: int, j: int| 0 <= i < j < s.len() implies text_before(
            #[trigger] s[i],
            #[trigger] s[j],
        ) by {
            assert(s[i] == texts(items)[i]);
            if j < items.len() {
                assert(s[j] == texts(items)[j]);
            }
        }
    }
}

/// A list of the texts of a set, in order, is the only one.
pub proof fn law_ordered_lists_are_unique(a: Seq<Seq<char>>, b: Seq<Seq<char>>, set: Set<Seq<char>>)
    requires
        lists(a, set),
        lists(b, set),
    ensures
        a == b,
    decreases a.len(),
{
    if a.len() == 0 {
        if b.len() > 0 {
            assert(b.contains(b[0]));
            assert(a.contains(b[0]));
        }
        assert(a =~= b);
    } else {
        assert(a.contains(a[0]));
        assert(b.contains(a[0]));
        let i = choose|i: int| 0 <= i < b.len() && b[i] == a[0];
        assert(b.contains(b[0]));
        assert(a.contains(b[0]));
        let j = choose|j: int| 0 <= j < a.len() && a[j] == b[0];
        if i > 0 {
            assert(text_before(b[0], b[i]));
            if j > 0 {
                assert(text_before(a[0], a[j]));
                lemma_before_transitive(a[0], b[0], a[0]);
            }
            lemma_before_irreflexive(a[0]);
        }
        assert(a[0] == b[0]);
        let rest = set.remove(a[0]);
        lemma_rest_lists(a, set);
        lemma_rest_lists(b, set);
        law_ordered_lists_are_unique(a.drop_first(), b.drop_first(), rest);
        assert(a =~= seq![a[0]] + a.drop_first());
        assert(b =~= seq![b[0]] + b.drop_first());
    }
}

proof fn lemma_rest_lists(a: Seq<Seq<char>>, set: Set<Seq<char>>)
    requires
        lists(a, set),
        a.len() > 0,
    ensures
        lists(a.drop_first(), set.remove(a[0])),
{
    let rest = a.drop_first();
    assert forall|i: int, j: int| 0 <= i < j < rest.len() implies text_before(
        #[trigger] rest[i],
        #[trigger] rest[j],
    ) by {
        assert(rest[i] == a[i + 1] && rest[j] == a[j + 1]);
    }
    assert forall|t: Seq<char>| #[trigger] rest.contains(t) == set.remove(a[0]).contains(t) by {
        if rest.contains(t) {
            let k = choose|k: int| 0 <= k < rest.len() && rest[k] == t;
            assert(a[k + 1] == t);
            assert(a.contains(t));
            assert(text_before(a[0], a[k + 1]));
            lemma_before_irreflexive(a[0]);
        }
        if set.remove(a[0]).contains(t) {
            assert(a.contains(t));
            let k = choose|k: int| 0 <= k < a.len() && a[k] == t;
            assert(rest[k - 1] == t);
        }
    }
}

} // verus!
