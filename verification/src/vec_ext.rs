use vstd::prelude::*;
use vstd::multiset::Multiset;

verus! {

/// The elements that `retain_filter` moves out of `s`, given the answer
/// `b[i]` that the filter gave on `s[i]`: the elements are visited from the
/// back, so those answered `true` come out last-to-first.
pub open spec fn picked<T>(s: Seq<T>, b: Seq<bool>) -> Seq<T>
    decreases s.len(),
{
    if s.len() == 0 {
        Seq::empty()
    } else {
        let rest = picked(s.drop_first(), b.drop_first());
        if b[0] {
            rest.push(s[0])
        } else {
            rest
        }
    }
}

/// The elements that `retain_filter` leaves in `s`, in the order that the
/// swap-removals leave them: removing a visited element moves the current
/// last element into its place.
pub open spec fn kept<T>(s: Seq<T>, b: Seq<bool>) -> Seq<T>
    decreases s.len(),
{
    if s.len() == 0 {
        Seq::empty()
    } else {
        let rest = kept(s.drop_first(), b.drop_first());
        if !b[0] {
            seq![s[0]] + rest
        } else if rest.len() == 0 {
            rest
        } else {
            seq![rest.last()] + rest.drop_last()
        }
    }
}

/// `b` records, for each element of `s`, an answer that `f` may give on it.
pub open spec fn answers_of<T, F: Fn(&T) -> bool>(f: F, s: Seq<T>, b: Seq<bool>) -> bool {
    &&& b.len() == s.len()
    &&& forall|i: int| 0 <= i < s.len() ==> f.ensures((&s[i],), #[trigger] b[i])
}

/// The answers that a predicate `p` gives on the elements of `s`.
pub open spec fn answers_by<T>(s: Seq<T>, p: spec_fn(T) -> bool) -> Seq<bool> {
    Seq::new(s.len(), |i: int| p(s[i]))
}

/// Extension of `Vec` that splits off the elements a filter accepts.
pub trait VecExt<T>: Sized {
    /// The elements of the collection, in order.
    spec fn elements(&self) -> Seq<T>;

    /// Moves the elements on which `f` answers `true` into the returned vector
    /// and keeps the others; `f` is asked once on each element, from the last
    /// to the first.
    fn retain_filter<F: Fn(&T) -> bool>(&mut self, f: F) -> (filtered: Vec<T>)
        requires
            forall|i: int|
                0 <= i < old(self).elements().len() ==> f.requires(
                    (&old(self).elements()[i],),
                ),
        ensures
            exists|b: Seq<bool>|
                {
                    &&& answers_of(f, old(self).elements(), b)
                    &&& filtered@ == picked(old(self).elements(), b)
                    &&& final(self).elements() == kept(old(self).elements(), b)
                },
    ;
}

impl<T> VecExt<T> for Vec<T> {
    open spec fn elements(&self) -> Seq<T> {
        self@
    }

    fn retain_filter<F: Fn(&T) -> bool>(&mut self, f: F) -> (filtered: Vec<T>) {
        let ghost s = self@;
        let ghost n = s.len() as int;
        let ghost mut b: Seq<bool> = Seq::empty();
        let mut filtered: Vec<T> = Vec::new();
        let mut i: usize = self.len();
        assert(old(self).elements() == s);
        assert forall|j: int| 0 <= j < n implies f.requires((&s[j],)) by {
            assert(old(self).elements()[j] == s[j]);
        }
        while i > 0
            invariant
                n == s.len(),
                0 <= i <= n,
                b.len() == n - i,
                self@ == s.subrange(0, i as int) + kept(s.subrange(i as int, n), b),
                filtered@ == picked(s.subrange(i as int, n), b),
                forall|j: int| 0 <= j < b.len() ==> f.ensures((&s[i + j],), #[trigger] b[j]),
                forall|j: int| 0 <= j < n ==> f.requires((&s[j],)),
            decreases i,
        {
            i = i - 1;
            assert(self@[i as int] == s[i as int]);
            let answer = f(&self[i]);
            let ghost s_next = s.subrange(i as int, n);
            let ghost b_next = seq![answer] + b;
            assert(s_next.drop_first() =~= s.subrange(i + 1, n));
            assert(b_next.drop_first() =~= b);
            if answer {
                let x = self.swap_remove(i);
                filtered.push(x);
                assert(self@ =~= s.subrange(0, i as int) + kept(s_next, b_next));
            } else {
                assert(self@ =~= s.subrange(0, i as int) + kept(s_next, b_next));
            }
            proof {
                assert forall|j: int| 0 <= j < b_next.len() implies f.ensures(
                    (&s[i + j],),
                    #[trigger] b_next[j],
                ) by {
                    if j > 0 {
                        assert(b_next[j] == b[j - 1]);
                    }
                }
                b = b_next;
            }
        }
        assert(s.subrange(0, n) =~= s);
        assert(answers_of(f, s, b));
        assert(self.elements() == kept(s, b));
        assert(filtered@ == picked(s, b));
        filtered
    }
}

/// Moving elements out with `retain_filter` loses and duplicates nothing: the
/// elements taken out and those kept are, together, the elements there were.
pub proof fn lemma_retain_filter_partitions<T>(s: Seq<T>, b: Seq<bool>)
    requires
        b.len() == s.len(),
    ensures
        picked(s, b).to_multiset().add(kept(s, b).to_multiset()) == s.to_multiset(),
        picked(s, b).len() + kept(s, b).len() == s.len(),
    decreases s.len(),
{
    broadcast use vstd::seq_lib::group_to_multiset_ensures;
    broadcast use vstd::multiset::group_multiset_axioms;

    if s.len() == 0 {
        assert(picked(s, b).to_multiset() =~= Multiset::empty());
        assert(kept(s, b).to_multiset() =~= Multiset::empty());
        assert(s.to_multiset() =~= Multiset::empty());
    } else {
        let t = s.drop_first();
        let c = b.drop_first();
        lemma_retain_filter_partitions(t, c);
        let rest = kept(t, c);
        assert(s =~= seq![s[0]] + t);
        vstd::seq_lib::lemma_multiset_commutative(seq![s[0]], t);
        assert(seq![s[0]] =~= Seq::<T>::empty().push(s[0]));
        if !b[0] {
            vstd::seq_lib::lemma_multiset_commutative(seq![s[0]], rest);
        } else if rest.len() > 0 {
            let l = rest.last();
            let d = rest.drop_last();
            assert(rest =~= d.push(l));
            assert(seq![l] =~= Seq::<T>::empty().push(l));
            vstd::seq_lib::lemma_multiset_commutative(seq![l], d);
        }
    }
}

/// Asked with a predicate, `retain_filter` takes out exactly the elements that
/// satisfy it, in reverse order, and keeps exactly the others.
pub proof fn lemma_retain_filter_by_predicate<T>(s: Seq<T>, p: spec_fn(T) -> bool)
    ensures
        picked(s, answers_by(s, p)) == s.filter(p).reverse(),
        kept(s, answers_by(s, p)).to_multiset() == s.filter(|x: T| !p(x)).to_multiset(),
        forall|i: int|
            0 <= i < kept(s, answers_by(s, p)).len() ==> !p(
                #[trigger] kept(s, answers_by(s, p))[i],
            ),
    decreases s.len(),
{
    broadcast use vstd::seq_lib::group_to_multiset_ensures;
    broadcast use vstd::multiset::group_multiset_axioms;

    let q = |x: T| !p(x);
    let b = answers_by(s, p);
    if s.len() == 0 {
        assert(s.filter(p) =~= Seq::<T>::empty());
        assert(s.filter(q) =~= Seq::<T>::empty());
        assert(picked(s, b) =~= s.filter(p).reverse());
    } else {
        let t = s.drop_first();
        assert(b.drop_first() =~= answers_by(t, p));
        lemma_retain_filter_by_predicate(t, p);
        assert(s =~= seq![s[0]] + t);
        t.lemma_filter_prepend(s[0], p);
        t.lemma_filter_prepend(s[0], q);
        let rest = kept(t, answers_by(t, p));
        assert(picked(s, b) =~= s.filter(p).reverse());
        if !p(s[0]) {
            vstd::seq_lib::lemma_multiset_commutative(seq![s[0]], rest);
            vstd::seq_lib::lemma_multiset_commutative(seq![s[0]], t.filter(q));
            assert(forall|i: int|
                0 <= i < kept(s, b).len() ==> #[trigger] kept(s, b)[i] == if i == 0 {
                    s[0]
                } else {
                    rest[i - 1]
                });
        } else if rest.len() > 0 {
            let l = rest.last();
            let d = rest.drop_last();
            assert(rest =~= d.push(l));
            assert(seq![l] =~= Seq::<T>::empty().push(l));
            vstd::seq_lib::lemma_multiset_commutative(seq![l], d);
            assert(s.filter(q) =~= t.filter(q));
            assert(forall|i: int|
                0 <= i < kept(s, b).len() ==> #[trigger] kept(s, b)[i] == if i == 0 {
                    rest[rest.len() - 1]
                } else {
                    rest[i - 1]
                });
        } else {
            assert(s.filter(q) =~= t.filter(q));
        }
    }
}

/// Splitting by a predicate loses and duplicates nothing: the elements that
/// satisfy it and those that do not are, together, the elements there were.
pub proof fn lemma_filter_complement<T>(s: Seq<T>, p: spec_fn(T) -> bool)
    ensures
        s.filter(p).to_multiset().add(s.filter(|x: T| !p(x)).to_multiset()) == s.to_multiset(),
    decreases s.len(),
{
    broadcast use vstd::seq_lib::group_to_multiset_ensures;
    broadcast use vstd::multiset::group_multiset_axioms;

    let q = |x: T| !p(x);
    reveal(Seq::filter);
    if s.len() == 0 {
        assert(s.filter(p) =~= Seq::<T>::empty());
        assert(s.filter(q) =~= Seq::<T>::empty());
        assert(s.to_multiset() =~= Multiset::empty());
    } else {
        let d = s.drop_last();
        lemma_filter_complement(d, p);
        assert(s =~= d.push(s.last()));
        assert(s.filter(p) == if p(s.last()) {
            d.filter(p).push(s.last())
        } else {
            d.filter(p)
        });
        assert(s.filter(q) == if q(s.last()) {
            d.filter(q).push(s.last())
        } else {
            d.filter(q)
        });
        assert(s.filter(p).to_multiset().add(s.filter(q).to_multiset()) =~= d.to_multiset().insert(
            s.last(),
        ));
    }
}

/// Splits `v` into the elements that `f` accepts and those it rejects, each in
/// their original order; `f` answers as the predicate `p` does.
pub(crate) fn partition_in_order<T, F: Fn(&T) -> bool>(
    v: Vec<T>,
    f: F,
    Ghost(p): Ghost<spec_fn(T) -> bool>,
) -> (parts: (Vec<T>, Vec<T>))
    requires
        forall|x: &T| f.requires((x,)),
        forall|x: &T, r: bool| f.ensures((x,), r) ==> r == p(*x),
    ensures
        parts.0@ == v@.filter(p),
        parts.1@ == v@.filter(|x: T| !p(x)),
{
    let ghost s = v@;
    let ghost n = s.len() as int;
    let ghost q = |x: T| !p(x);
    let mut v = v;
    let len0 = v.len();
    assert(n == len0);
    let mut reversed: Vec<T> = Vec::new();
    while v.len() > 0
        invariant
            n == s.len(),
            v@ == s.subrange(0, v@.len() as int),
            reversed@.len() == n - v@.len(),
            forall|i: int| 0 <= i < reversed@.len() ==> #[trigger] reversed@[i] == s[n - 1 - i],
            n <= usize::MAX,
        decreases v@.len(),
    {
        let x = v.pop().unwrap();
        reversed.push(x);
    }
    let mut yes: Vec<T> = Vec::new();
    let mut no: Vec<T> = Vec::new();
    let mut k: usize = 0;
    assert(s.subrange(0, 0).filter(p) =~= Seq::<T>::empty());
    assert(s.subrange(0, 0).filter(q) =~= Seq::<T>::empty());
    while reversed.len() > 0
        invariant
            n == s.len(),
            n <= usize::MAX,
            k + reversed@.len() == n,
            forall|i: int| 0 <= i < reversed@.len() ==> #[trigger] reversed@[i] == s[n - 1 - i],
            q == (|x: T| !p(x)),
            yes@ == s.subrange(0, k as int).filter(p),
            no@ == s.subrange(0, k as int).filter(q),
            forall|x: &T| f.requires((x,)),
            forall|x: &T, r: bool| f.ensures((x,), r) ==> r == p(*x),
        decreases reversed@.len(),
    {
        let ghost last = reversed@.len() - 1;
        assert(reversed@[last] == s[k as int]);
        let x = reversed.pop().unwrap();
        let ghost pre = s.subrange(0, k as int);
        assert(s.subrange(0, k + 1).drop_last() =~= pre);
        assert(s.subrange(0, k + 1).last() == x);
        reveal(Seq::filter);
        let accept = f(&x);
        assert(accept == p(x));
        assert(q(x) == !accept);
        assert(s.subrange(0, k + 1).filter(q) == if q(x) {
            pre.filter(q).push(x)
        } else {
            pre.filter(q)
        });
        if accept {
            yes.push(x);
        } else {
            no.push(x);
        }
        k = k + 1;
    }
    assert(s.subrange(0, n) =~= s);
    (yes, no)
}

} // verus!
