//! A lazy "filter-advance" iterator over a borrowed backing slice.
//!
//! The iterator walks a fixed backing sequence with a cursor and a boolean
//! predicate supplied at construction. Each call of [`Iter::advance`] scans
//! forward: whenever a visited element satisfies the predicate, the element
//! *following* it is produced (not the matching element itself). The final
//! element of the backing sequence is never tested by the predicate, since
//! the scan stops one short of the end; it can only be produced, once, as
//! the successor of the second-to-last element.

use vstd::prelude::*;

verus! {

/// What one call of `advance` yields, as a function of the backing sequence
/// `s`, the predicate `p`, and the cursor `i`: the produced value (`None`
/// when the sequence is exhausted) paired with the cursor after the call.
///
/// The cursor moves forward past every rejected element; at the first `j`
/// with `p(s[j])` it stops at `j + 1` and `s[j + 1]` is produced. When no
/// element from `i` up to (but excluding) the last one matches, nothing is
/// produced and the cursor comes to rest at `s.len() - 1` (or stays at `i`
/// if it was already that far).
pub open spec fn advance_spec<T>(s: Seq<T>, p: spec_fn(T) -> bool, i: int) -> (Option<T>, int)
    decreases s.len() - i,
{
    if i < s.len() - 1 {
        if p(s[i]) {
            (Some(s[i + 1]), i + 1)
        } else {
            advance_spec(s, p, i + 1)
        }
    } else {
        (None, i)
    }
}

/// Every value that a run of `advance` calls starting at cursor `i` will
/// produce, in order, until exhaustion.
pub open spec fn produced_from<T>(s: Seq<T>, p: spec_fn(T) -> bool, i: int) -> Seq<T>
    decreases s.len() - i,
{
    if i < s.len() - 1 {
        if p(s[i]) {
            seq![s[i + 1]] + produced_from(s, p, i + 1)
        } else {
            produced_from(s, p, i + 1)
        }
    } else {
        Seq::empty()
    }
}

/// A call that produces a value moves the cursor strictly forward, stays in
/// bounds, produces the element at the new cursor, and accounts for exactly
/// the head of the remaining production.
pub proof fn lemma_advance_produces_head<T>(s: Seq<T>, p: spec_fn(T) -> bool, i: int)
    requires
        0 <= i,
        advance_spec(s, p, i).0 is Some,
    ensures
        i < advance_spec(s, p, i).1 < s.len(),
        advance_spec(s, p, i).0 == Some(s[advance_spec(s, p, i).1]),
        produced_from(s, p, i) == seq![s[advance_spec(s, p, i).1]] + produced_from(
            s,
            p,
            advance_spec(s, p, i).1,
        ),
    decreases s.len() - i,
{
    if i < s.len() - 1 && !p(s[i]) {
        lemma_advance_produces_head(s, p, i + 1);
    }
}

/// A call that produces nothing leaves nothing to produce at all.
pub proof fn lemma_advance_none_produces_nothing<T>(s: Seq<T>, p: spec_fn(T) -> bool, i: int)
    requires
        0 <= i,
        advance_spec(s, p, i).0 is None,
    ensures
        produced_from(s, p, i) =~= Seq::<T>::empty(),
        advance_spec(s, p, i).1 >= i,
        advance_spec(s, p, i).1 >= s.len() - 1,
    decreases s.len() - i,
{
    if i < s.len() - 1 && !p(s[i]) {
        lemma_advance_none_produces_nothing(s, p, i + 1);
    }
}

/// A backing sequence of length 0 or 1 is exhausted from the start: the very
/// first call yields `None` and leaves the cursor where it was.
pub proof fn lemma_short_backing_exhausted<T>(s: Seq<T>, p: spec_fn(T) -> bool, i: int)
    requires
        0 <= i,
        s.len() <= 1,
    ensures
        advance_spec(s, p, i) == (Option::<T>::None, i),
        produced_from(s, p, i) == Seq::<T>::empty(),
{
}

/// From any cursor `i`, at most `len - 1 - i` values are ever produced; in
/// particular a whole run over a non-empty backing sequence produces at most
/// `len - 1` values.
pub proof fn lemma_production_bounded<T>(s: Seq<T>, p: spec_fn(T) -> bool, i: int)
    requires
        0 <= i,
    ensures
        i < s.len() - 1 ==> produced_from(s, p, i).len() <= s.len() - 1 - i,
        i >= s.len() - 1 ==> produced_from(s, p, i).len() == 0,
    decreases s.len() - i,
{
    if i < s.len() - 1 {
        lemma_production_bounded(s, p, i + 1);
    }
}

/// A predicate that rejects every element produces nothing: each call of
/// `advance` scans the whole remainder and yields `None`.
pub proof fn lemma_rejecting_predicate_produces_nothing<T>(
    s: Seq<T>,
    p: spec_fn(T) -> bool,
    i: int,
)
    requires
        0 <= i,
        forall|x: T| !#[trigger] p(x),
    ensures
        advance_spec(s, p, i).0 is None,
        produced_from(s, p, i) =~= Seq::<T>::empty(),
    decreases s.len() - i,
{
    if i < s.len() - 1 {
        lemma_rejecting_predicate_produces_nothing(s, p, i + 1);
    }
}

/// A predicate that accepts every element produces every successor in order:
/// from cursor `i` the production is exactly `s[i + 1 ..]`, so a whole run
/// over a backing sequence of length `n > 0` produces exactly `n - 1`
/// values, the `k`-th being `s[k + 1]`.
pub proof fn lemma_accepting_predicate_produces_successors<T>(
    s: Seq<T>,
    p: spec_fn(T) -> bool,
    i: int,
)
    requires
        0 <= i < s.len(),
        forall|x: T| #[trigger] p(x),
    ensures
        produced_from(s, p, i) =~= s.subrange(i + 1, s.len() as int),
        produced_from(s, p, i).len() == s.len() - 1 - i,
        forall|k: int|
            0 <= k < s.len() - 1 - i ==> #[trigger] produced_from(s, p, i)[k] == s[i + 1 + k],
    decreases s.len() - i,
{
    if i < s.len() - 1 {
        lemma_accepting_predicate_produces_successors(s, p, i + 1);
        assert(produced_from(s, p, i) =~= s.subrange(i + 1, s.len() as int));
    } else {
        assert(produced_from(s, p, i) =~= s.subrange(i + 1, s.len() as int));
    }
}

/// Exhaustion is permanent: once a call has yielded `None`, the cursor has
/// come to rest, and every later call yields `None` with the cursor unmoved.
pub proof fn lemma_exhaustion_permanent<T>(s: Seq<T>, p: spec_fn(T) -> bool, i: int)
    requires
        0 <= i,
        advance_spec(s, p, i).0 is None,
    ensures
        advance_spec(s, p, advance_spec(s, p, i).1) == (Option::<T>::None, advance_spec(s, p, i).1),
{
    lemma_advance_none_produces_nothing(s, p, i);
}

/// The filter-advance iterator: a borrowed backing slice, a cursor into it,
/// and the predicate that decides which successors are produced.
pub struct Iter<'a, T, F> {
    pub vec: &'a [T],
    pub index: usize,
    pub f: F,
}

impl<'a, T, F: Fn(T) -> bool> Iter<'a, T, F> {
    /// The mathematical predicate that `f` computes: the inputs on which a
    /// call of `f` may return `true`.
    pub open spec fn pred(self) -> spec_fn(T) -> bool {
        |x: T| call_ensures(self.f, (x,), true)
    }

    /// The stored closure is a genuine boolean function: it may be called on
    /// any element, and any value it returns agrees with `pred` (so it cannot
    /// answer both `true` and `false` on one input).
    pub open spec fn pred_reliable(self) -> bool {
        &&& forall|x: T| #[trigger] call_requires(self.f, (x,))
        &&& forall|x: T, b: bool| #[trigger] call_ensures(self.f, (x,), b) ==> b == self.pred()(x)
    }

    /// Well-formedness: the predicate is reliable and the cursor is in
    /// bounds — it never exceeds `len - 1`, and sits at `0` when the
    /// backing sequence is empty.
    pub open spec fn wf(self) -> bool {
        &&& self.pred_reliable()
        &&& (self.vec@.len() == 0 ==> self.index == 0)
        &&& (self.vec@.len() > 0 ==> (self.index as int) < self.vec@.len())
    }

    /// Builds an iterator over `vec` with its cursor at the start.
    ///
    /// The closure must be callable on every element and must answer as a
    /// function of its argument alone.
    pub fn new(vec: &'a [T], f: F) -> (it: Self)
        requires
            forall|x: T| #[trigger] call_requires(f, (x,)),
            forall|x: T, b: bool| #[trigger] call_ensures(f, (x,), b) ==> b == call_ensures(
                f,
                (x,),
                true,
            ),
        ensures
            it.vec@ == vec@,
            it.index == 0,
            it.f == f,
            it.wf(),
    {
        Self { vec, index: 0, f }
    }
}

impl<'a, T: Copy, F: Fn(T) -> bool> Iter<'a, T, F> {
    /// Produces the next value: scans forward from the cursor, and for the
    /// first visited element that satisfies the predicate returns the element
    /// following it; returns `None` once the scan has reached the last
    /// element. Result and new cursor are exactly `advance_spec`.
    pub fn advance(&mut self) -> (r: Option<T>)
        requires
            old(self).wf(),
        ensures
            final(self).wf(),
            final(self).vec == old(self).vec,
            final(self).f == old(self).f,
            old(self).index <= final(self).index,
            r == advance_spec(old(self).vec@, old(self).pred(), old(self).index as int).0,
            final(self).index as int == advance_spec(
                old(self).vec@,
                old(self).pred(),
                old(self).index as int,
            ).1,
            forall|k: int|
                old(self).index as int <= k < final(self).index as int ==> call_ensures(
                    old(self).f,
                    (#[trigger] old(self).vec@[k],),
                    old(self).pred()(old(self).vec@[k]),
                ),
    {
        let n: usize = self.vec.len();
        while self.index + 1 < n
            invariant
                self.wf(),
                old(self).index <= self.index,
                n == self.vec@.len(),
                self.vec == old(self).vec,
                self.f == old(self).f,
                advance_spec(self.vec@, self.pred(), self.index as int) == advance_spec(
                    old(self).vec@,
                    old(self).pred(),
                    old(self).index as int,
                ),
                forall|k: int|
                    old(self).index as int <= k < self.index as int ==> call_ensures(
                        old(self).f,
                        (#[trigger] old(self).vec@[k],),
                        old(self).pred()(old(self).vec@[k]),
                    ),
            decreases self.vec@.len() - self.index,
        {
            let prev = self.vec[self.index];
            self.index = self.index + 1;
            let matched: bool = (self.f)(prev);
            if matched {
                return Some(self.vec[self.index]);
            }
        }
        None
    }

    /// Drains the iterator: calls `advance` until it yields `None` and
    /// collects every produced value, in order. The result is exactly
    /// `produced_from` at the starting cursor, and the iterator is left
    /// permanently exhausted.
    pub fn collect_remaining(&mut self) -> (out: Vec<T>)
        requires
            old(self).wf(),
        ensures
            final(self).wf(),
            final(self).vec == old(self).vec,
            final(self).f == old(self).f,
            old(self).index <= final(self).index,
            final(self).index as int >= old(self).vec@.len() - 1,
            out@ == produced_from(old(self).vec@, old(self).pred(), old(self).index as int),
            advance_spec(old(self).vec@, old(self).pred(), final(self).index as int).0 is None,
            forall|k: int|
                old(self).index as int <= k < final(self).index as int ==> call_ensures(
                    old(self).f,
                    (#[trigger] old(self).vec@[k],),
                    old(self).pred()(old(self).vec@[k]),
                ),
    {
        let mut out: Vec<T> = Vec::new();
        proof {
            assert(out@ + produced_from(self.vec@, self.pred(), self.index as int)
                =~= produced_from(self.vec@, self.pred(), self.index as int));
        }
        loop
            invariant
                self.wf(),
                old(self).index <= self.index,
                self.vec == old(self).vec,
                self.f == old(self).f,
                produced_from(old(self).vec@, old(self).pred(), old(self).index as int) == out@
                    + produced_from(self.vec@, self.pred(), self.index as int),
                forall|k: int|
                    old(self).index as int <= k < self.index as int ==> call_ensures(
                        old(self).f,
                        (#[trigger] old(self).vec@[k],),
                        old(self).pred()(old(self).vec@[k]),
                    ),
            decreases self.vec@.len() - self.index,
        {
            let ghost i = self.index as int;
            match self.advance() {
                Some(v) => {
                    proof {
                        lemma_advance_produces_head(self.vec@, self.pred(), i);
                    }
                    out.push(v);
                },
                None => {
                    proof {
                        lemma_advance_none_produces_nothing(self.vec@, self.pred(), i);
                        assert(produced_from(old(self).vec@, old(self).pred(), old(self).index as int)
                            =~= out@);
                    }
                    return out;
                },
            }
        }
    }
}

} // verus!
