//! Sorting by a total preorder.

use vstd::multiset::*;
use vstd::prelude::*;
use vstd::seq_lib::*;

verus! {

/// A type whose values stand in a total preorder.
pub trait Ranked: Sized {
    /// Whether `self` may stand before `other`.
    spec fn le(self, other: Self) -> bool;

    /// Of two values one may stand before the other.
    proof fn le_total(x: Self, y: Self)
        ensures
            x.le(y) || y.le(x),
    ;

    /// The order is transitive.
    proof fn le_transitive(x: Self, y: Self, z: Self)
        requires
            x.le(y),
            y.le(z),
        ensures
            x.le(z),
    ;

    /// Whether `self` may stand before `other`.
    fn at_most(&self, other: &Self) -> (b: bool)
        ensures
            b == self.le(*other),
    ;
}

impl Ranked for usize {
    open spec fn le(self, other: Self) -> bool {
        self <= other
    }

    proof fn le_total(x: Self, y: Self) {
    }

    proof fn le_transitive(x: Self, y: Self, z: Self) {
    }

    fn at_most(&self, other: &Self) -> (b: bool) {
        *self <= *other
    }
}

/// Every value may stand before those that follow it.
pub open spec fn in_order<T: Ranked>(s: Seq<T>) -> bool {
    forall|i: int, j: int| 0 <= i < j < s.len() ==> (#[trigger] s[i]).le(#[trigger] s[j])
}

/// The values of `lo` may stand before those of `hi`.
spec fn below<T: Ranked>(lo: Seq<T>, hi: Seq<T>) -> bool {
    forall|i: int, j: int|
        0 <= i < lo.len() && 0 <= j < hi.len() ==> (#[trigger] lo[i]).le(#[trigger] hi[j])
}

/// The same sequence from back to front.
spec fn reversed<T>(s: Seq<T>) -> Seq<T> {
    Seq::new(s.len(), |i: int| s[s.len() - 1 - i])
}

proof fn lemma_pop_multiset<T>(s: Seq<T>)
    requires
        s.len() > 0,
    ensures
        s.to_multiset() =~= s.drop_last().to_multiset().insert(s.last()),
{
    broadcast use group_to_multiset_ensures;

    assert(s =~= s.drop_last().push(s.last()));
}

/// Moves the last value of `from` to the end of `to`.
fn move_last<T: Ranked>(from: &mut Vec<T>, to: &mut Vec<T>)
    requires
        old(from)@.len() > 0,
    ensures
        final(from)@ == old(from)@.drop_last(),
        final(to)@ == old(to)@.push(old(from)@.last()),
        final(from)@.to_multiset().add(final(to)@.to_multiset()) == old(
            from,
        )@.to_multiset().add(old(to)@.to_multiset()),
{
    proof {
        lemma_pop_multiset(from@);
    }
    let ghost before = from@;
    if let Some(x) = from.pop() {
        to.push(x);
    }
    assert(from@ =~= before.drop_last());
    proof {
        broadcast use group_to_multiset_ensures;

        assert(to@ =~= old(to)@.push(before.last()));
        assert(from@.to_multiset().add(to@.to_multiset()) =~= before.to_multiset().add(
            old(to)@.to_multiset(),
        ));
    }
}

/// Merges two sequences that are in order.
fn merge<T: Ranked>(left: Vec<T>, right: Vec<T>) -> (r: Vec<T>)
    requires
        in_order(left@),
        in_order(right@),
    ensures
        in_order(r@),
        r@.to_multiset() == left@.to_multiset().add(right@.to_multiset()),
{
    broadcast use group_to_multiset_ensures;

    let ghost all = left@.to_multiset().add(right@.to_multiset());
    let mut a = left;
    let mut b = right;
    let mut down: Vec<T> = Vec::new();
    assert(a@.to_multiset().add(b@.to_multiset()).add(down@.to_multiset()) =~= all);
    while a.len() > 0 || b.len() > 0
        invariant
            in_order(a@),
            in_order(b@),
            in_order(reversed(down@)),
            below(a@, down@),
            below(b@, down@),
            a@.to_multiset().add(b@.to_multiset()).add(down@.to_multiset()) == all,
        decreases a@.len() + b@.len(),
    {
        let take_right: bool = if a.len() == 0 {
            true
        } else if b.len() == 0 {
            false
        } else {
            a[a.len() - 1].at_most(&b[b.len() - 1])
        };
        let ghost a0 = a@;
        let ghost b0 = b@;
        let ghost d0 = down@;
        if take_right {
            move_last(&mut b, &mut down);
            proof {
                assert(a@.to_multiset().add(b@.to_multiset()).add(down@.to_multiset())
                    =~= a@.to_multiset().add(b@.to_multiset().add(down@.to_multiset())));
                assert(a@.to_multiset().add(b0.to_multiset()).add(d0.to_multiset())
                    =~= a@.to_multiset().add(b0.to_multiset().add(d0.to_multiset())));
                let x = b0.last();
                assert forall|i: int, j: int|
                    0 <= i < a@.len() && 0 <= j < down@.len() implies (#[trigger] a@[i]).le(
                    #[trigger] down@[j],
                ) by {
                    if j == d0.len() {
                        if i < a0.len() - 1 {
                            assert(a0[i].le(a0.last()));
                            T::le_transitive(a0[i], a0.last(), x);
                        }
                    } else {
                        assert(a0[i].le(d0[j]));
                    }
                }
                assert forall|i: int, j: int|
                    0 <= i < b@.len() && 0 <= j < down@.len() implies (#[trigger] b@[i]).le(
                    #[trigger] down@[j],
                ) by {
                    if j == d0.len() {
                        assert(b0[i].le(b0.last()));
                    } else {
                        assert(b0[i].le(d0[j]));
                    }
                }
                assert forall|i: int, j: int|
                    0 <= i < j < reversed(down@).len() implies (#[trigger] reversed(down@)[i]).le(
                    #[trigger] reversed(down@)[j],
                ) by {
                    if i == 0 {
                        assert(b0[b0.len() - 1].le(d0[d0.len() - j]));
                    } else {
                        assert(reversed(d0)[i - 1].le(reversed(d0)[j - 1]));
                    }
                }
            }
        } else {
            move_last(&mut a, &mut down);
            proof {
                assert(a@.to_multiset().add(b@.to_multiset()).add(down@.to_multiset())
                    =~= b@.to_multiset().add(a@.to_multiset().add(down@.to_multiset())));
                assert(a0.to_multiset().add(b@.to_multiset()).add(d0.to_multiset())
                    =~= b@.to_multiset().add(a0.to_multiset().add(d0.to_multiset())));
                let x = a0.last();
                if b0.len() > 0 {
                    T::le_total(x, b0.last());
                }
                assert forall|i: int, j: int|
                    0 <= i < b@.len() && 0 <= j < down@.len() implies (#[trigger] b@[i]).le(
                    #[trigger] down@[j],
                ) by {
                    if j == d0.len() {
                        if i < b0.len() - 1 {
                            assert(b0[i].le(b0.last()));
                            T::le_transitive(b0[i], b0.last(), x);
                        }
                    } else {
                        assert(b0[i].le(d0[j]));
                    }
                }
                assert forall|i: int, j: int|
                    0 <= i < a@.len() && 0 <= j < down@.len() implies (#[trigger] a@[i]).le(
                    #[trigger] down@[j],
                ) by {
                    if j == d0.len() {
                        assert(a0[i].le(a0.last()));
                    } else {
                        assert(a0[i].le(d0[j]));
                    }
                }
                assert forall|i: int, j: int|
                    0 <= i < j < reversed(down@).len() implies (#[trigger] reversed(down@)[i]).le(
                    #[trigger] reversed(down@)[j],
                ) by {
                    if i == 0 {
                        assert(a0[a0.len() - 1].le(d0[d0.len() - j]));
                    } else {
                        assert(reversed(d0)[i - 1].le(reversed(d0)[j - 1]));
                    }
                }
            }
        }
    }
    assert(down@.to_multiset() =~= all);
    let ghost target = reversed(down@);
    let ghost full = down@;
    let mut r: Vec<T> = Vec::new();
    assert(down@.to_multiset().add(r@.to_multiset()) =~= all);
    while down.len() > 0
        invariant
            down@.len() + r@.len() == full.len(),
            down@ == full.take(full.len() - r@.len()),
            r@ == reversed(full).take(r@.len() as int),
            down@.to_multiset().add(r@.to_multiset()) == all,
        decreases down@.len(),
    {
        let ghost r0 = r@;
        move_last(&mut down, &mut r);
        assert(down@ =~= full.take(full.len() - r@.len()));
        assert(r@ =~= reversed(full).take(r@.len() as int));
    }
    assert(r@ =~= target);
    assert(r@.to_multiset() =~= all);
    r
}

/// Sorts by the order of `Ranked`.
pub fn sort<T: Ranked>(v: Vec<T>) -> (r: Vec<T>)
    ensures
        in_order(r@),
        r@.to_multiset() == v@.to_multiset(),
        r@.len() == v@.len(),
    decreases v@.len(),
{
    let n: usize = v.len();
    if n <= 1 {
        return v;
    }
    let mut left = v;
    let right = left.split_off(n / 2);
    proof {
        broadcast use group_to_multiset_ensures;

        assert(left@ + right@ =~= v@);
        lemma_multiset_commutative(left@, right@);
    }
    let a = sort(left);
    let b = sort(right);
    let r = merge(a, b);
    proof {
        broadcast use group_to_multiset_ensures;

        assert(r@.len() == r@.to_multiset().len());
        assert(v@.len() == v@.to_multiset().len());
    }
    r
}

} // verus!
