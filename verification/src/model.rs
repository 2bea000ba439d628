//! Values with a mathematical model: copying and comparing them exactly.
//!
//! The model of a value is its `deep_view`: texts are sequences of characters,
//! vectors are sequences of models, structures are the `..View` types.
use vstd::prelude::*;

verus! {

/// A value that can be copied and compared through its model.
pub trait Model: DeepView + Sized {
    /// A copy with the same model.
    fn duplicate(&self) -> (r: Self)
        ensures
            r.deep_view() == self.deep_view(),
    ;

    /// Whether the two models are equal.
    fn same(&self, other: &Self) -> (r: bool)
        ensures
            r == (self.deep_view() == other.deep_view()),
    ;
}

/// The models of the items of a sequence.
pub open spec fn views<T: DeepView>(s: Seq<T>) -> Seq<T::V> {
    Seq::new(s.len(), |i: int| s[i].deep_view())
}

pub broadcast proof fn views_push<T: DeepView>(s: Seq<T>, x: T)
    ensures
        #[trigger] views(s.push(x)) == views(s).push(x.deep_view()),
{
    assert(views(s.push(x)) =~= views(s).push(x.deep_view()));
}

pub broadcast proof fn views_vec<T: DeepView>(v: Vec<T>)
    ensures
        #[trigger] v.deep_view() == views(v@),
{
    assert(v.deep_view() =~= views(v@));
}

pub broadcast proof fn views_add<T: DeepView>(a: Seq<T>, b: Seq<T>)
    ensures
        #[trigger] views(a + b) == views(a) + views(b),
{
    assert(views(a + b) =~= views(a) + views(b));
}

pub broadcast proof fn views_take<T: DeepView>(s: Seq<T>, n: int)
    requires
        0 <= n <= s.len(),
    ensures
        #[trigger] views(s.take(n)) == views(s).take(n),
{
    assert(views(s.take(n)) =~= views(s).take(n));
}

pub broadcast proof fn views_remove<T: DeepView>(s: Seq<T>, n: int)
    requires
        0 <= n < s.len(),
    ensures
        #[trigger] views(s.remove(n)) == views(s).remove(n),
{
    assert(views(s.remove(n)) =~= views(s).remove(n));
}

pub broadcast proof fn views_empty<T: DeepView>()
    ensures
        #[trigger] views(Seq::<T>::empty()) == Seq::<T::V>::empty(),
{
    assert(views(Seq::<T>::empty()) =~= Seq::<T::V>::empty());
}

pub broadcast group group_views {
    views_push,
    views_vec,
    views_add,
    views_take,
    views_remove,
    views_empty,
}

/// Extending a prefix by the next item.
pub broadcast proof fn take_step<T>(s: Seq<T>, n: int)
    requires
        0 <= n < s.len(),
    ensures
        #[trigger] s.take(n + 1) == s.take(n).push(s[n]),
{
    assert(s.take(n + 1) =~= s.take(n).push(s[n]));
}

pub proof fn take_all<T>(s: Seq<T>)
    ensures
        s.take(s.len() as int) == s,
        s.take(0) == Seq::<T>::empty(),
{
    assert(s.take(s.len() as int) =~= s);
    assert(s.take(0) =~= Seq::<T>::empty());
}

/// `filter` on a sequence extended by one item.
pub proof fn filter_push<T>(s: Seq<T>, x: T, p: spec_fn(T) -> bool)
    ensures
        s.push(x).filter(p) == if p(x) { s.filter(p).push(x) } else { s.filter(p) },
{
    reveal(Seq::filter);
    assert(s.push(x).drop_last() =~= s);
}

pub proof fn filter_empty<T>(p: spec_fn(T) -> bool)
    ensures
        Seq::<T>::empty().filter(p) == Seq::<T>::empty(),
{
    reveal(Seq::filter);
}

/// Filtering twice is filtering once by both.
pub proof fn filter_twice<T>(s: Seq<T>, p: spec_fn(T) -> bool, q: spec_fn(T) -> bool, both: spec_fn(T) -> bool)
    requires
        forall|x: T| #[trigger] both(x) == (p(x) && q(x)),
    ensures
        s.filter(p).filter(q) == s.filter(both),
    decreases s.len(),
{
    if s.len() == 0 {
        assert(s =~= Seq::<T>::empty());
        filter_empty(p);
        filter_empty(q);
        filter_empty(both);
    } else {
        let earlier = s.drop_last();
        let x = s.last();
        assert(s =~= earlier.push(x));
        filter_twice(earlier, p, q, both);
        filter_push(earlier, x, p);
        filter_push(earlier, x, both);
        filter_push(earlier.filter(p), x, q);
        assert(both(x) == (p(x) && q(x)));
    }
}

impl Model for String {
    fn duplicate(&self) -> (r: Self) {
        self.clone()
    }

    fn same(&self, other: &Self) -> (r: bool) {
        *self == *other
    }
}

impl Model for u8 {
    fn duplicate(&self) -> (r: Self) {
        *self
    }

    fn same(&self, other: &Self) -> (r: bool) {
        *self == *other
    }
}

impl Model for u32 {
    fn duplicate(&self) -> (r: Self) {
        *self
    }

    fn same(&self, other: &Self) -> (r: bool) {
        *self == *other
    }
}

impl Model for u64 {
    fn duplicate(&self) -> (r: Self) {
        *self
    }

    fn same(&self, other: &Self) -> (r: bool) {
        *self == *other
    }
}

impl<T: Model> Model for Vec<T> {
    fn duplicate(&self) -> (r: Self) {
        broadcast use group_views;

        let mut out: Vec<T> = Vec::new();
        let mut i: usize = 0;
        while i < self.len()
            invariant
                i <= self.len(),
                views(out@) == views(self@).take(i as int),
            decreases self.len() - i,
        {
            out.push(self[i].duplicate());
            proof {
                take_step(views(self@), i as int);
            }
            i = i + 1;
        }
        proof {
            take_all(views(self@));
        }
        out
    }

    fn same(&self, other: &Self) -> (r: bool) {
        broadcast use group_views;

        if self.len() != other.len() {
            assert(views(self@).len() != views(other@).len());
            return false;
        }
        let mut i: usize = 0;
        while i < self.len()
            invariant
                i <= self.len(),
                self.len() == other.len(),
                forall|j: int| 0 <= j < i ==> views(self@)[j] == views(other@)[j],
            decreases self.len() - i,
        {
            if !self[i].same(&other[i]) {
                assert(views(self@)[i as int] != views(other@)[i as int]);
                return false;
            }
            i = i + 1;
        }
        assert(views(self@) =~= views(other@));
        true
    }
}

impl<T: Model> Model for Option<T> {
    fn duplicate(&self) -> (r: Self) {
        match self {
            Some(x) => Some(x.duplicate()),
            None => None,
        }
    }

    fn same(&self, other: &Self) -> (r: bool) {
        match (self, other) {
            (Some(a), Some(b)) => a.same(b),
            (None, None) => true,
            _ => false,
        }
    }
}

impl<A: Model, B: Model> Model for (A, B) {
    fn duplicate(&self) -> (r: Self) {
        (self.0.duplicate(), self.1.duplicate())
    }

    fn same(&self, other: &Self) -> (r: bool) {
        self.0.same(&other.0) && self.1.same(&other.1)
    }
}

/// An item that a filter keeps is in the sequence and passes it.
pub proof fn filter_keeps<T>(s: Seq<T>, p: spec_fn(T) -> bool, n: int)
    requires
        0 <= n < s.filter(p).len(),
    ensures
        p(s.filter(p)[n]),
        exists|k: int| 0 <= k < s.len() && #[trigger] s[k] == s.filter(p)[n],
    decreases s.len(),
{
    reveal(Seq::filter);
    if s.len() > 0 {
        let sub = s.drop_last().filter(p);
        if n < sub.len() {
            filter_keeps(s.drop_last(), p, n);
            let k = choose|k: int| 0 <= k < s.len() - 1 && #[trigger] s.drop_last()[k] == sub[n];
            assert(s[k] == s.filter(p)[n]);
        } else {
            assert(s[s.len() - 1] == s.filter(p)[n]);
        }
    }
}

/// Two items that a filter keeps are in the sequence in the same order.
pub proof fn filter_keeps_order<T>(s: Seq<T>, p: spec_fn(T) -> bool, m: int, n: int)
    requires
        0 <= m < n < s.filter(p).len(),
    ensures
        exists|a: int, b: int|
            0 <= a < b < s.len() && #[trigger] s[a] == s.filter(p)[m] && #[trigger] s[b] == s.filter(p)[n],
    decreases s.len(),
{
    reveal(Seq::filter);
    let earlier = s.drop_last();
    let sub = earlier.filter(p);
    if n < sub.len() {
        filter_keeps_order(earlier, p, m, n);
        let (a, b) = choose|a: int, b: int|
            0 <= a < b < earlier.len() && #[trigger] earlier[a] == sub[m] && #[trigger] earlier[b] == sub[n];
        assert(s[a] == s.filter(p)[m] && s[b] == s.filter(p)[n]);
    } else {
        filter_keeps(earlier, p, m);
        let a = choose|a: int| 0 <= a < earlier.len() && #[trigger] earlier[a] == sub[m];
        assert(s[a] == s.filter(p)[m] && s[s.len() - 1] == s.filter(p)[n]);
    }
}

} // verus!
