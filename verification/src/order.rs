//! Stable sorting by an order that is given as a value.
use vstd::prelude::*;

verus! {

/// An order on values that can be tested.
pub trait Order<T> {
    /// Whether the first value must stand before the second.
    spec fn first(&self) -> spec_fn(T, T) -> bool;

    fn is_first(&self, a: &T, b: &T) -> (r: bool)
        ensures
            r == self.first()(*a, *b),
    ;
}

/// A strict weak order: no two values must both stand before each other, and where
/// neither of two neighbours must be exchanged, neither must their ends.
pub open spec fn is_order<T>(first: spec_fn(T, T) -> bool) -> bool {
    &&& forall|a: T, b: T| !(#[trigger] first(a, b) && first(b, a))
    &&& forall|a: T, b: T, c: T|
        !(#[trigger] first(b, a)) && !(#[trigger] first(c, b)) ==> !first(c, a)
}

/// Where a value goes among the first `n` values of a sorted sequence: behind
/// every value that it need not stand before.
pub open spec fn slot<T>(first: spec_fn(T, T) -> bool, s: Seq<T>, x: T, n: int) -> int
    decreases n,
{
    if n <= 0 {
        0
    } else if first(x, s[n - 1]) {
        slot(first, s, x, n - 1)
    } else {
        n
    }
}

/// The values in order; values of which neither must stand before the other keep
/// the places they had towards each other.
pub open spec fn sorted<T>(first: spec_fn(T, T) -> bool, s: Seq<T>) -> Seq<T>
    decreases s.len(),
{
    if s.len() == 0 {
        Seq::empty()
    } else {
        let front = sorted(first, s.drop_last());
        front.insert(slot(first, front, s.last(), front.len() as int), s.last())
    }
}

pub open spec fn is_sorted<T>(first: spec_fn(T, T) -> bool, s: Seq<T>) -> bool {
    forall|i: int, j: int| 0 <= i < j < s.len() ==> !first(#[trigger] s[j], #[trigger] s[i])
}

pub proof fn lemma_slot<T>(first: spec_fn(T, T) -> bool, s: Seq<T>, x: T, n: int)
    requires
        0 <= n <= s.len(),
    ensures
        0 <= slot(first, s, x, n) <= n,
        slot(first, s, x, n) > 0 ==> !first(x, s[slot(first, s, x, n) - 1]),
        forall|i: int| slot(first, s, x, n) <= i < n ==> first(x, #[trigger] s[i]),
    decreases n,
{
    if n > 0 && first(x, s[n - 1]) {
        lemma_slot(first, s, x, n - 1);
    }
}

/// Sorting keeps every value as often as it was there.
pub proof fn lemma_sorted_permutes<T>(first: spec_fn(T, T) -> bool, s: Seq<T>)
    ensures
        sorted(first, s).to_multiset() == s.to_multiset(),
        sorted(first, s).len() == s.len(),
    decreases s.len(),
{
    broadcast use vstd::seq_lib::group_to_multiset_ensures;

    if s.len() == 0 {
        assert(s =~= Seq::<T>::empty());
    } else {
        let front = sorted(first, s.drop_last());
        lemma_sorted_permutes(first, s.drop_last());
        lemma_slot(first, front, s.last(), front.len() as int);
        let at = slot(first, front, s.last(), front.len() as int);
        vstd::seq_lib::to_multiset_insert(front, at, s.last());
        assert(s =~= s.drop_last().push(s.last()));
        vstd::seq_lib::to_multiset_build(s.drop_last(), s.last());
    }
}

/// The outcome of sorting by an order is in order.
pub proof fn lemma_sorted_in_order<T>(first: spec_fn(T, T) -> bool, s: Seq<T>)
    requires
        is_order(first),
    ensures
        is_sorted(first, sorted(first, s)),
    decreases s.len(),
{
    if s.len() > 0 {
        let front = sorted(first, s.drop_last());
        let x = s.last();
        lemma_sorted_in_order(first, s.drop_last());
        lemma_slot(first, front, x, front.len() as int);
        let at = slot(first, front, x, front.len() as int);
        let out = front.insert(at, x);
        assert forall|i: int, j: int| 0 <= i < j < out.len() implies !first(
            #[trigger] out[j],
            #[trigger] out[i],
        ) by {
            if j == at {
                assert(out[i] == front[i]);
                assert(!first(x, front[at - 1]));
                if i < at - 1 {
                    assert(!first(front[at - 1], front[i]));
                }
            } else if i == at {
                assert(out[j] == front[j - 1]);
                assert(first(x, front[j - 1]));
            } else {
                let a = if i < at { i } else { i - 1 };
                let b = if j < at { j } else { j - 1 };
                assert(out[i] == front[a]);
                assert(out[j] == front[b]);
            }
        }
    }
}

/// Sorting and an order-preserving map can be exchanged.
pub proof fn lemma_sorted_map<A, B>(
    first: spec_fn(A, A) -> bool,
    image: spec_fn(B, B) -> bool,
    f: spec_fn(A) -> B,
    s: Seq<A>,
)
    requires
        forall|a: A, b: A| #[trigger] first(a, b) == image(f(a), f(b)),
    ensures
        sorted(first, s).map_values(f) == sorted(image, s.map_values(f)),
    decreases s.len(),
{
    if s.len() == 0 {
        assert(sorted(first, s).map_values(f) =~= sorted(image, s.map_values(f)));
    } else {
        let front = sorted(first, s.drop_last());
        let x = s.last();
        lemma_sorted_map(first, image, f, s.drop_last());
        assert(s.map_values(f).drop_last() =~= s.drop_last().map_values(f));
        assert(s.map_values(f).last() == f(x));
        lemma_slot_map(first, image, f, front, x, front.len() as int);
        lemma_slot(first, front, x, front.len() as int);
        let at = slot(first, front, x, front.len() as int);
        assert(front.insert(at, x).map_values(f) =~= front.map_values(f).insert(at, f(x)));
    }
}

proof fn lemma_slot_map<A, B>(
    first: spec_fn(A, A) -> bool,
    image: spec_fn(B, B) -> bool,
    f: spec_fn(A) -> B,
    s: Seq<A>,
    x: A,
    n: int,
)
    requires
        forall|a: A, b: A| #[trigger] first(a, b) == image(f(a), f(b)),
        0 <= n <= s.len(),
    ensures
        slot(first, s, x, n) == slot(image, s.map_values(f), f(x), n),
    decreases n,
{
    if n > 0 {
        assert(first(x, s[n - 1]) == image(f(x), f(s[n - 1])));
        assert(s.map_values(f)[n - 1] == f(s[n - 1]));
        lemma_slot_map(first, image, f, s, x, n - 1);
    }
}

/// Sorts the values, stably.
pub fn sort<T, O: Order<T>>(order: &O, values: Vec<T>) -> (r: Vec<T>)
    ensures
        r@ == sorted(order.first(), values@),
        r@.len() == values@.len(),
{
    let ghost all = values@;
    let ghost first = order.first();
    let mut rest = values;
    let mut out: Vec<T> = Vec::new();
    // The values go onto a stack from the back, so that each can be moved off in
    // its turn.
    let mut stack: Vec<T> = Vec::new();
    while rest.len() > 0
        invariant
            all == rest@ + stack@.reverse(),
        decreases rest@.len(),
    {
        let ghost before = rest@;
        let ghost held = stack@;
        match rest.pop() {
            Some(x) => {
                stack.push(x);
                proof {
                    assert(stack@.reverse() =~= seq![x] + held.reverse());
                    assert(before =~= rest@.push(x));
                    assert(rest@ + stack@.reverse() =~= before + held.reverse());
                }
            },
            None => {},
        }
    }
    assert(all =~= stack@.reverse());
    let ghost n = all.len() as int;
    assert(all.take(0) =~= Seq::<T>::empty());
    while stack.len() > 0
        invariant
            first == order.first(),
            n == all.len(),
            stack@.len() <= n,
            out@.len() + stack@.len() == n,
            all.skip(n - stack@.len()) == stack@.reverse(),
            out@ == sorted(first, all.take(n - stack@.len())),
        decreases stack@.len(),
    {
        let ghost before = stack@;
        let ghost k = n - stack@.len();
        match stack.pop() {
            Some(x) => {
                proof {
                    assert(before.reverse()[0] == x);
                    assert(all.skip(k)[0] == all[k]);
                    assert(x == all[k]);
                    assert(all.take(k + 1).drop_last() =~= all.take(k));
                    assert(all.take(k + 1).last() == x);
                    assert(before.reverse().skip(1) =~= stack@.reverse());
                    assert(all.skip(k).skip(1) =~= all.skip(k + 1));
                }
                let ghost front = out@;
                let mut at: usize = out.len();
                while at > 0 && order.is_first(&x, &out[at - 1])
                    invariant
                        first == order.first(),
                        at <= out@.len(),
                        out@ == front,
                        slot(first, front, x, front.len() as int) == slot(
                            first,
                            front,
                            x,
                            at as int,
                        ),
                    decreases at,
                {
                    at = at - 1;
                }
                out.insert(at, x);
            },
            None => {},
        }
    }
    assert(all.take(n) =~= all);
    out
}

}
