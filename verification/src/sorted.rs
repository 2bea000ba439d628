//! A map kept as a vector of entries in key order.
use crate::model;
use crate::model::Model;
use crate::text;
use vstd::prelude::*;

verus! {

/// Keys with a total order.
pub trait Ordered: Model {
    /// The order, strictly.
    spec fn before(a: Self::V, b: Self::V) -> bool;

    proof fn irreflexive(a: Self::V)
        ensures
            !Self::before(a, a),
    ;

    proof fn transitive(a: Self::V, b: Self::V, c: Self::V)
        requires
            Self::before(a, b),
            Self::before(b, c),
        ensures
            Self::before(a, c),
    ;

    proof fn total(a: Self::V, b: Self::V)
        ensures
            a == b || Self::before(a, b) || Self::before(b, a),
    ;

    /// Whether this key comes before the other.
    fn precedes(&self, other: &Self) -> (r: bool)
        ensures
            r == Self::before(self.deep_view(), other.deep_view()),
    ;
}

impl Ordered for String {
    open spec fn before(a: Seq<char>, b: Seq<char>) -> bool {
        text::text_before(a, b)
    }

    proof fn irreflexive(a: Seq<char>) {
        let b = vstd::utf8::encode_utf8(a);
        text::bytes_before_irreflexive(b);
        assert(<String as Ordered>::before(a, a) == text::text_before(a, a));
    }

    proof fn transitive(a: Seq<char>, b: Seq<char>, c: Seq<char>) {
        text::bytes_before_transitive(
            vstd::utf8::encode_utf8(a),
            vstd::utf8::encode_utf8(b),
            vstd::utf8::encode_utf8(c),
        );
    }

    proof fn total(a: Seq<char>, b: Seq<char>) {
        text::bytes_before_total(vstd::utf8::encode_utf8(a), vstd::utf8::encode_utf8(b));
        text::encoding_injective(a, b);
    }

    fn precedes(&self, other: &Self) -> (r: bool) {
        text::text_precedes(self.as_str(), other.as_str())
    }
}

/// The value that the last entry with key `k` holds.
pub open spec fn lookup<A, W>(s: Seq<(A, W)>, k: A) -> Option<W>
    decreases s.len(),
{
    if s.len() == 0 {
        None
    } else if s.last().0 == k {
        Some(s.last().1)
    } else {
        lookup(s.drop_last(), k)
    }
}

/// The entries without the key `k`.
pub open spec fn without<A, W>(s: Seq<(A, W)>, k: A) -> Seq<(A, W)> {
    s.filter(|e: (A, W)| e.0 != k)
}

/// The entries with `v` under the key `k`, in key order.
pub open spec fn with<K: Ordered, W>(s: Seq<(K::V, W)>, k: K::V, v: W) -> Seq<(K::V, W)> {
    s.filter(|e: (K::V, W)| K::before(e.0, k)) + seq![(k, v)] + s.filter(|e: (K::V, W)| K::before(k, e.0))
}

/// The keys increase strictly.
pub open spec fn increasing<K: Ordered, W>(s: Seq<(K::V, W)>) -> bool {
    forall|i: int, j: int| 0 <= i < j < s.len() ==> K::before(#[trigger] s[i].0, #[trigger] s[j].0)
}

/// Entries in key order.
#[derive(Clone, Debug, PartialEq, Eq)]
pub struct SortedMap<K, W> {
    entries: Vec<(K, W)>,
}

impl<K: Model, W: Model> DeepView for SortedMap<K, W> {
    type V = Seq<(K::V, W::V)>;

    closed spec fn deep_view(&self) -> Seq<(K::V, W::V)> {
        self.entries.deep_view()
    }
}

impl<K: Model, W: Model> Model for SortedMap<K, W> {
    fn duplicate(&self) -> (r: Self) {
        SortedMap { entries: self.entries.duplicate() }
    }

    fn same(&self, other: &Self) -> (r: bool) {
        self.entries.same(&other.entries)
    }
}

pub proof fn filter_prefix<T>(s: Seq<T>, n: int, p: spec_fn(T) -> bool)
    requires
        0 <= n <= s.len(),
        forall|i: int| 0 <= i < n ==> p(#[trigger] s[i]),
        forall|i: int| n <= i < s.len() ==> !p(#[trigger] s[i]),
    ensures
        s.filter(p) == s.take(n),
    decreases s.len(),
{
    reveal(Seq::filter);
    if s.len() > 0 {
        let d = s.drop_last();
        if n == s.len() {
            filter_prefix(d, n - 1, p);
            assert(d.take(n - 1).push(s.last()) =~= s.take(n));
        } else {
            filter_prefix(d, n, p);
            assert(d.take(n) =~= s.take(n));
        }
    } else {
        assert(s.take(n) =~= s);
    }
}

pub proof fn filter_suffix<T>(s: Seq<T>, n: int, p: spec_fn(T) -> bool)
    requires
        0 <= n <= s.len(),
        forall|i: int| 0 <= i < n ==> !p(#[trigger] s[i]),
        forall|i: int| n <= i < s.len() ==> p(#[trigger] s[i]),
    ensures
        s.filter(p) == s.skip(n),
    decreases s.len(),
{
    reveal(Seq::filter);
    if s.len() > 0 {
        let d = s.drop_last();
        if n == s.len() {
            filter_suffix(d, n - 1, p);
            assert(d.skip(n - 1) =~= s.skip(n));
        } else {
            filter_suffix(d, n, p);
            assert(d.skip(n).push(s.last()) =~= s.skip(n));
        }
    } else {
        assert(s.skip(n) =~= s);
    }
}

pub proof fn filter_all_but<T>(s: Seq<T>, n: int, p: spec_fn(T) -> bool)
    requires
        0 <= n < s.len(),
        forall|i: int| 0 <= i < s.len() && i != n ==> p(#[trigger] s[i]),
        !p(s[n]),
    ensures
        s.filter(p) == s.remove(n),
    decreases s.len(),
{
    reveal(Seq::filter);
    let d = s.drop_last();
    if n == s.len() - 1 {
        filter_prefix(d, n, p);
        assert(d.take(n) =~= s.remove(n));
    } else {
        filter_all_but(d, n, p);
        assert(d.remove(n).push(s.last()) =~= s.remove(n));
    }
}

/// A key that no entry has is not found.
pub proof fn lookup_absent<A, W>(s: Seq<(A, W)>, k: A)
    requires
        forall|i: int| 0 <= i < s.len() ==> (#[trigger] s[i]).0 != k,
    ensures
        lookup(s, k) is None,
    decreases s.len(),
{
    if s.len() > 0 {
        assert(s.last() == s[s.len() - 1]);
        assert forall|i: int| 0 <= i < s.drop_last().len() implies (#[trigger] s.drop_last()[i]).0 != k by {
            assert(s.drop_last()[i] == s[i]);
        }
        lookup_absent(s.drop_last(), k);
    }
}

/// An entry with a key that no other entry has is found.
pub proof fn lookup_at<A, W>(s: Seq<(A, W)>, n: int)
    requires
        0 <= n < s.len(),
        forall|i: int| n < i < s.len() ==> (#[trigger] s[i]).0 != s[n].0,
    ensures
        lookup(s, s[n].0) == Some(s[n].1),
    decreases s.len(),
{
    if n < s.len() - 1 {
        assert(s.last() == s[s.len() - 1]);
        let d = s.drop_last();
        assert forall|i: int| n < i < d.len() implies (#[trigger] d[i]).0 != d[n].0 by {
            assert(d[i] == s[i]);
        }
        lookup_at(d, n);
    }
}

/// What is found is an entry.
pub proof fn lookup_entry<A, W>(s: Seq<(A, W)>, k: A) -> (n: int)
    ensures
        lookup(s, k) is Some ==> 0 <= n < s.len() && s[n] == (k, lookup(s, k)->0),
    decreases s.len(),
{
    if s.len() == 0 {
        0
    } else if s.last().0 == k {
        s.len() - 1
    } else {
        lookup_entry(s.drop_last(), k)
    }
}

/// Different places hold different keys.
pub proof fn distinct_keys<K: Ordered, W>(s: Seq<(K::V, W)>, i: int, j: int)
    requires
        increasing::<K, W>(s),
        0 <= i < s.len(),
        0 <= j < s.len(),
        i != j,
    ensures
        s[i].0 != s[j].0,
{
    K::irreflexive(s[i].0);
    if i < j {
        assert(K::before(s[i].0, s[j].0));
    } else {
        assert(K::before(s[j].0, s[i].0));
    }
}

/// Where a key of sorted entries belongs: all before it are smaller, all from it on are not.
pub open spec fn place<K: Ordered, W>(s: Seq<(K::V, W)>, k: K::V, n: int) -> bool {
    &&& 0 <= n <= s.len()
    &&& forall|i: int| 0 <= i < n ==> K::before((#[trigger] s[i]).0, k)
    &&& forall|i: int| n <= i < s.len() ==> !K::before((#[trigger] s[i]).0, k)
}

/// `with` and `without` in terms of the place of the key.
pub proof fn at_place<K: Ordered, W>(s: Seq<(K::V, W)>, k: K::V, v: W, n: int)
    requires
        increasing::<K, W>(s),
        place::<K, W>(s, k, n),
    ensures
        n < s.len() && s[n].0 == k ==> {
            &&& with::<K, W>(s, k, v) == s.update(n, (k, v))
            &&& without(s, k) == s.remove(n)
            &&& lookup(s, k) == Some(s[n].1)
        },
        !(n < s.len() && s[n].0 == k) ==> {
            &&& with::<K, W>(s, k, v) == s.insert(n, (k, v))
            &&& without(s, k) == s
            &&& lookup(s, k) is None
        },
{
    let less = |e: (K::V, W)| K::before(e.0, k);
    let more = |e: (K::V, W)| K::before(k, e.0);
    let other = |e: (K::V, W)| e.0 != k;
    assert forall|i: int| 0 <= i < n implies less(#[trigger] s[i]) && !more(s[i]) && other(s[i]) by {
        K::irreflexive(k);
        if K::before(k, s[i].0) {
            K::transitive(k, s[i].0, k);
        }
    }
    assert forall|i: int| n <= i < s.len() implies !less(#[trigger] s[i]) by {
    }
    filter_prefix(s, n, less);
    if n < s.len() && s[n].0 == k {
        assert forall|i: int| n < i < s.len() implies more(#[trigger] s[i]) && other(s[i]) by {
            assert(K::before(s[n].0, s[i].0));
            K::irreflexive(k);
        }
        K::irreflexive(k);
        filter_suffix(s, n + 1, more);
        filter_all_but(s, n, other);
        lookup_at(s, n);
        assert(with::<K, W>(s, k, v) =~= s.update(n, (k, v)));
    } else {
        assert forall|i: int| n <= i < s.len() implies more(#[trigger] s[i]) && other(s[i]) by {
            K::total(s[n].0, k);
            assert(K::before(k, s[n].0));
            if i > n {
                assert(K::before(s[n].0, s[i].0));
                K::transitive(k, s[n].0, s[i].0);
            }
            K::irreflexive(k);
        }
        filter_suffix(s, n, more);
        filter_prefix(s, s.len() as int, other);
        assert(s.take(s.len() as int) =~= s);
        assert forall|i: int| 0 <= i < s.len() implies (#[trigger] s[i]).0 != k by {
            assert(other(s[i]));
        }
        lookup_absent(s, k);
        assert(with::<K, W>(s, k, v) =~= s.insert(n, (k, v)));
    }
}

/// The entries that pass a filter, without those of a key.
pub proof fn filter_without<A, W>(
    s: Seq<(A, W)>,
    p: spec_fn((A, W)) -> bool,
    k: A,
    both: spec_fn((A, W)) -> bool,
)
    requires
        forall|e: (A, W)| #[trigger] both(e) == (p(e) && e.0 != k),
    ensures
        without(s.filter(p), k) == s.filter(both),
{
    let q = |e: (A, W)| e.0 != k;
    assert forall|e: (A, W)| #[trigger] both(e) == (p(e) && q(e)) by {}
    model::filter_twice(s, p, q, both);
}

/// Taking out a key that is not there changes nothing.
pub proof fn without_absent<K: Ordered, W>(s: Seq<(K::V, W)>, k: K::V)
    requires
        increasing::<K, W>(s),
        lookup(s, k) is None,
    ensures
        without(s, k) == s,
{
    let n = place_exists::<K, W>(s, k);
    at_place::<K, W>(s, k, arbitrary(), n);
}

/// Every key has a place.
pub proof fn place_exists<K: Ordered, W>(s: Seq<(K::V, W)>, k: K::V) -> (n: int)
    requires
        increasing::<K, W>(s),
    ensures
        place::<K, W>(s, k, n),
    decreases s.len(),
{
    if s.len() == 0 {
        0
    } else {
        let d = s.drop_last();
        let last = s.len() - 1;
        if K::before(s[last].0, k) {
            assert forall|i: int| 0 <= i < s.len() implies K::before((#[trigger] s[i]).0, k) by {
                if i < last {
                    assert(K::before(s[i].0, s[last].0));
                    K::transitive(s[i].0, s[last].0, k);
                }
            }
            s.len() as int
        } else {
            assert(increasing::<K, W>(d)) by {
                assert forall|i: int, j: int| 0 <= i < j < d.len() implies K::before(
                    #[trigger] d[i].0,
                    #[trigger] d[j].0,
                ) by {
                    assert(K::before(s[i].0, s[j].0));
                }
            }
            let n = place_exists::<K, W>(d, k);
            assert forall|i: int| 0 <= i < n implies K::before((#[trigger] s[i]).0, k) by {
                assert(d[i] == s[i]);
            }
            assert forall|i: int| n <= i < s.len() implies !K::before((#[trigger] s[i]).0, k) by {
                if i < last {
                    assert(d[i] == s[i]);
                }
            }
            n
        }
    }
}

/// Updating a sorted map keeps it sorted.
pub proof fn with_increasing<K: Ordered, W>(s: Seq<(K::V, W)>, k: K::V, v: W)
    requires
        increasing::<K, W>(s),
    ensures
        increasing::<K, W>(with::<K, W>(s, k, v)),
        increasing::<K, W>(without(s, k)),
{
    let n = place_exists::<K, W>(s, k);
    at_place::<K, W>(s, k, v, n);
    let w = with::<K, W>(s, k, v);
    if n < s.len() && s[n].0 == k {
        assert forall|i: int, j: int| 0 <= i < j < w.len() implies K::before(
            #[trigger] w[i].0,
            #[trigger] w[j].0,
        ) by {
            assert(K::before(s[i].0, s[j].0));
        }
        let r = without(s, k);
        assert forall|i: int, j: int| 0 <= i < j < r.len() implies K::before(
            #[trigger] r[i].0,
            #[trigger] r[j].0,
        ) by {
            let a = if i < n { i } else { i + 1 };
            let b = if j < n { j } else { j + 1 };
            assert(r[i] == s[a] && r[j] == s[b]);
            assert(K::before(s[a].0, s[b].0));
        }
    } else {
        assert forall|i: int, j: int| 0 <= i < j < w.len() implies K::before(
            #[trigger] w[i].0,
            #[trigger] w[j].0,
        ) by {
            if i < n && j == n {
                assert(w[i] == s[i]);
            } else if i == n {
                assert(w[j] == s[j - 1]);
                K::total(s[n].0, k);
                assert(K::before(k, s[n].0));
                if j - 1 > n {
                    assert(K::before(s[n].0, s[j - 1].0));
                    K::transitive(k, s[n].0, s[j - 1].0);
                }
            } else {
                let a = if i < n { i } else { i - 1 };
                let b = if j < n { j } else { j - 1 };
                assert(w[i] == s[a] && w[j] == s[b]);
                assert(K::before(s[a].0, s[b].0));
            }
        }
    }
}

/// A read gives back what the last write left, for every key.
pub proof fn read_after_write<K: Ordered, W>(s: Seq<(K::V, W)>, k: K::V, v: W, other: K::V)
    requires
        increasing::<K, W>(s),
    ensures
        lookup(with::<K, W>(s, k, v), other) == if other == k { Some(v) } else { lookup(s, other) },
{
    with_increasing::<K, W>(s, k, v);
    let w = with::<K, W>(s, k, v);
    let n = place_exists::<K, W>(s, k);
    at_place::<K, W>(s, k, v, n);
    let found = n < s.len() && s[n].0 == k;
    assert(w[n] == (k, v));
    if other == k {
        lookup_is_entry::<K, W>(w, n);
    } else {
        let m = lookup_entry(s, other);
        if lookup(s, other) is Some {
            let a = if found || m < n { m } else { m + 1 };
            assert(w[a] == s[m]);
            lookup_is_entry::<K, W>(w, a);
        } else {
            assert forall|i: int| 0 <= i < w.len() implies (#[trigger] w[i]).0 != other by {
                if i != n {
                    let a = if found || i < n { i } else { i - 1 };
                    assert(w[i] == s[a]);
                    lookup_is_entry::<K, W>(s, a);
                }
            }
            lookup_absent(w, other);
        }
    }
}

/// A read after a removal, for every key.
pub proof fn read_after_removal<K: Ordered, W>(s: Seq<(K::V, W)>, k: K::V, other: K::V)
    requires
        increasing::<K, W>(s),
    ensures
        lookup(without(s, k), other) == if other == k { None } else { lookup(s, other) },
{
    let v = arbitrary();
    with_increasing::<K, W>(s, k, v);
    let r = without(s, k);
    let n = place_exists::<K, W>(s, k);
    at_place::<K, W>(s, k, v, n);
    let found = n < s.len() && s[n].0 == k;
    let m = lookup_entry(s, other);
    if other != k && lookup(s, other) is Some {
        let b = if found && m > n { m - 1 } else { m };
        assert(r[b] == s[m]);
        lookup_is_entry::<K, W>(r, b);
    } else {
        assert forall|i: int| 0 <= i < r.len() implies (#[trigger] r[i]).0 != other by {
            let a = if found && i >= n { i + 1 } else { i };
            assert(r[i] == s[a]);
            lookup_is_entry::<K, W>(s, a);
            if found {
                distinct_keys::<K, W>(s, a, n);
            }
        }
        lookup_absent(r, other);
    }
}

/// Every entry of a sorted map is found under its key.
pub proof fn lookup_is_entry<K: Ordered, W>(s: Seq<(K::V, W)>, n: int)
    requires
        increasing::<K, W>(s),
        0 <= n < s.len(),
    ensures
        lookup(s, s[n].0) == Some(s[n].1),
{
    assert forall|i: int| n < i < s.len() implies (#[trigger] s[i]).0 != s[n].0 by {
        distinct_keys::<K, W>(s, i, n);
    }
    lookup_at(s, n);
}

impl<K: Ordered, W: Model> SortedMap<K, W> {
    /// The entries are in key order.
    pub closed spec fn wf(&self) -> bool {
        increasing::<K, W::V>(self.deep_view())
    }

    pub proof fn wf_is_increasing(&self)
        ensures
            self.wf() == increasing::<K, W::V>(self.deep_view()),
    {
    }

    pub fn new() -> (r: Self)
        ensures
            r.wf(),
            r.deep_view() == Seq::<(K::V, W::V)>::empty(),
    {
        broadcast use model::group_views;

        let entries: Vec<(K, W)> = Vec::new();
        assert(entries.deep_view() =~= Seq::<(K::V, W::V)>::empty());
        SortedMap { entries }
    }

    pub fn len(&self) -> (n: usize)
        ensures
            n == self.deep_view().len(),
    {
        self.entries.len()
    }

    pub fn is_empty(&self) -> (r: bool)
        ensures
            r == (self.deep_view().len() == 0),
    {
        self.entries.len() == 0
    }

    /// The entry at place `i`, in key order.
    pub fn at(&self, i: usize) -> (e: &(K, W))
        requires
            i < self.deep_view().len(),
        ensures
            e.deep_view() == self.deep_view()[i as int],
    {
        &self.entries[i]
    }

    /// All entries, in key order.
    pub fn entries(&self) -> (r: &Vec<(K, W)>)
        ensures
            r.deep_view() == self.deep_view(),
    {
        &self.entries
    }

    fn find(&self, key: &K) -> (n: usize)
        requires
            self.wf(),
        ensures
            place::<K, W::V>(self.deep_view(), key.deep_view(), n as int),
    {
        let mut low: usize = 0;
        let mut high: usize = self.entries.len();
        while low < high
            invariant
                low <= high <= self.entries.len(),
                self.wf(),
                forall|i: int|
                    0 <= i < low ==> K::before((#[trigger] self.deep_view()[i]).0, key.deep_view()),
                forall|i: int|
                    high <= i < self.deep_view().len() ==> !K::before(
                        (#[trigger] self.deep_view()[i]).0,
                        key.deep_view(),
                    ),
            decreases high - low,
        {
            let middle: usize = low + (high - low) / 2;
            let ghost s = self.deep_view();
            if self.entries[middle].0.precedes(key) {
                assert forall|i: int| 0 <= i < middle + 1 implies K::before((#[trigger] s[i]).0, key.deep_view()) by {
                    if i < middle {
                        assert(K::before(s[i].0, s[middle as int].0));
                        K::transitive(s[i].0, s[middle as int].0, key.deep_view());
                    }
                }
                low = middle + 1;
            } else {
                assert forall|i: int| middle <= i < s.len() implies !K::before((#[trigger] s[i]).0, key.deep_view()) by {
                    if i > middle && K::before(s[i].0, key.deep_view()) {
                        assert(K::before(s[middle as int].0, s[i].0));
                        K::transitive(s[middle as int].0, s[i].0, key.deep_view());
                    }
                }
                high = middle;
            }
        }
        low
    }

    /// The value under a key.
    pub fn get(&self, key: &K) -> (r: Option<&W>)
        requires
            self.wf(),
        ensures
            r.deep_view() == lookup(self.deep_view(), key.deep_view()),
    {
        let n = self.find(key);
        proof {
            at_place::<K, W::V>(self.deep_view(), key.deep_view(), arbitrary(), n as int);
        }
        if n < self.entries.len() && self.entries[n].0.same(key) {
            Some(&self.entries[n].1)
        } else {
            None
        }
    }

    pub fn contains_key(&self, key: &K) -> (r: bool)
        requires
            self.wf(),
        ensures
            r == (lookup(self.deep_view(), key.deep_view()) is Some),
    {
        self.get(key).is_some()
    }

    /// Puts a value under a key, in place of the one that was there.
    pub fn insert(&mut self, key: K, value: W)
        requires
            old(self).wf(),
        ensures
            final(self).wf(),
            final(self).deep_view() == with::<K, W::V>(
                old(self).deep_view(),
                key.deep_view(),
                value.deep_view(),
            ),
    {
        let n = self.find(&key);
        let ghost s = self.deep_view();
        let ghost e = (key.deep_view(), value.deep_view());
        proof {
            at_place::<K, W::V>(s, e.0, e.1, n as int);
            with_increasing::<K, W::V>(s, e.0, e.1);
        }
        if n < self.entries.len() && self.entries[n].0.same(&key) {
            self.entries[n] = (key, value);
            assert(self.deep_view() =~= s.update(n as int, e));
        } else {
            self.entries.insert(n, (key, value));
            assert(self.deep_view() =~= s.insert(n as int, e));
        }
    }

    /// Takes the value under a key out.
    pub fn remove(&mut self, key: &K) -> (r: Option<W>)
        requires
            old(self).wf(),
        ensures
            final(self).wf(),
            final(self).deep_view() == without(old(self).deep_view(), key.deep_view()),
            r.deep_view() == lookup(old(self).deep_view(), key.deep_view()),
    {
        let n = self.find(key);
        let ghost s = self.deep_view();
        proof {
            at_place::<K, W::V>(s, key.deep_view(), arbitrary(), n as int);
            with_increasing::<K, W::V>(s, key.deep_view(), arbitrary());
        }
        if n < self.entries.len() && self.entries[n].0.same(key) {
            let (_, value) = self.entries.remove(n);
            assert(self.deep_view() =~= s.remove(n as int));
            Some(value)
        } else {
            None
        }
    }
}

/// Dropping entries keeps the rest in order.
pub proof fn filter_increasing<K: Ordered, W>(s: Seq<(K::V, W)>, p: spec_fn((K::V, W)) -> bool)
    requires
        increasing::<K, W>(s),
    ensures
        increasing::<K, W>(s.filter(p)),
        forall|i: int| 0 <= i < s.filter(p).len() ==> s.contains(#[trigger] s.filter(p)[i]),
    decreases s.len(),
{
    reveal(Seq::filter);
    if s.len() > 0 {
        let d = s.drop_last();
        assert(increasing::<K, W>(d)) by {
            assert forall|i: int, j: int| 0 <= i < j < d.len() implies K::before(
                #[trigger] d[i].0,
                #[trigger] d[j].0,
            ) by {
                assert(K::before(s[i].0, s[j].0));
            }
        }
        filter_increasing::<K, W>(d, p);
        let f = s.filter(p);
        let g = d.filter(p);
        assert forall|i: int| 0 <= i < f.len() implies s.contains(#[trigger] f[i]) by {
            if i < g.len() {
                assert(d.contains(g[i]));
                let k = choose|k: int| 0 <= k < d.len() && d[k] == g[i];
                assert(s[k] == f[i]);
            } else {
                assert(s[s.len() - 1] == f[i]);
            }
        }
        assert forall|i: int, j: int| 0 <= i < j < f.len() implies K::before(
            #[trigger] f[i].0,
            #[trigger] f[j].0,
        ) by {
            if j < g.len() {
                assert(K::before(g[i].0, g[j].0));
            } else {
                assert(d.contains(g[i]));
                let k = choose|k: int| 0 <= k < d.len() && d[k] == g[i];
                assert(K::before(s[k].0, s[s.len() - 1].0));
            }
        }
    }
}

impl<K: Ordered, W: Model> SortedMap<K, W> {
    /// The map of entries that are in key order.
    pub fn from_sorted(entries: Vec<(K, W)>) -> (r: Self)
        requires
            increasing::<K, W::V>(entries.deep_view()),
        ensures
            r.wf(),
            r.deep_view() == entries.deep_view(),
    {
        SortedMap { entries }
    }
}

} // verus!
