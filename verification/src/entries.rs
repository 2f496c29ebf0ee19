//! Maps and sets kept as vectors: a map is a list of entries with distinct keys in
//! the order of their first insertion, a set a list of distinct members.

use crate::copies::Copied;
use crate::text::same;
use vstd::prelude::*;

verus! {

/// Values that can be compared by what they stand for.
pub trait Alike: DeepView {
    fn alike(&self, other: &Self) -> (r: bool)
        ensures
            r == (self.deep_view() == other.deep_view()),
    ;
}

impl Alike for String {
    fn alike(&self, other: &Self) -> (r: bool) {
        *self == *other
    }
}

impl Alike for usize {
    fn alike(&self, other: &Self) -> (r: bool) {
        *self == *other
    }
}

impl Alike for u32 {
    fn alike(&self, other: &Self) -> (r: bool) {
        *self == *other
    }
}

// ----- Maps -----

/// Where the entry of `k` stands.
pub open spec fn place<K, V>(s: Seq<(K, V)>, k: K) -> Option<int>
    decreases s.len(),
{
    if s.len() == 0 {
        None
    } else if s.last().0 == k {
        Some(s.len() - 1)
    } else {
        place(s.drop_last(), k)
    }
}

pub open spec fn get<K, V>(s: Seq<(K, V)>, k: K) -> Option<V> {
    match place(s, k) {
        Some(i) => Some(s[i].1),
        None => None,
    }
}

/// `s` with `v` under `k`: in the place of the entry that `k` had, or at the end.
pub open spec fn put<K, V>(s: Seq<(K, V)>, k: K, v: V) -> Seq<(K, V)> {
    match place(s, k) {
        Some(i) => s.update(i, (k, v)),
        None => s.push((k, v)),
    }
}

/// `s` without the entry of `k`.
pub open spec fn erase<K, V>(s: Seq<(K, V)>, k: K) -> Seq<(K, V)> {
    match place(s, k) {
        Some(i) => s.remove(i),
        None => s,
    }
}

pub open spec fn distinct_keys<K, V>(s: Seq<(K, V)>) -> bool {
    forall|i: int, j: int| 0 <= i < j < s.len() ==> (#[trigger] s[i]).0 != (#[trigger] s[j]).0
}

pub proof fn lemma_place<K, V>(s: Seq<(K, V)>, k: K)
    ensures
        place(s, k) matches Some(i) ==> 0 <= i < s.len() && s[i].0 == k,
        place(s, k) is None ==> forall|i: int| 0 <= i < s.len() ==> (#[trigger] s[i]).0 != k,
    decreases s.len(),
{
    if s.len() > 0 && s.last().0 != k {
        lemma_place(s.drop_last(), k);
        assert forall|i: int| place(s, k) is None && 0 <= i < s.len() implies (#[trigger] s[i]).0
            != k by {
            if i < s.len() - 1 {
                assert(s.drop_last()[i].0 != k);
            }
        }
    }
}

/// Lists with the same keys have their entries in the same places.
pub proof fn lemma_same_keys<K, V, W>(s: Seq<(K, V)>, t: Seq<(K, W)>, k: K)
    requires
        s.len() == t.len(),
        forall|i: int| 0 <= i < s.len() ==> (#[trigger] s[i]).0 == t[i].0,
    ensures
        place(s, k) == place(t, k),
    decreases s.len(),
{
    if s.len() > 0 {
        assert(s[s.len() - 1].0 == t[s.len() - 1].0);
        assert forall|i: int| 0 <= i < s.drop_last().len() implies (#[trigger] s.drop_last()[i]).0
            == t.drop_last()[i].0 by {
            assert(s[i].0 == t[i].0);
        }
        lemma_same_keys(s.drop_last(), t.drop_last(), k);
    }
}

/// A map gives back under a key what was last put there, and putting leaves what
/// stands under every other key unchanged.
pub proof fn law_get_after_put<K, V>(s: Seq<(K, V)>, k: K, v: V, other: K)
    ensures
        get(put(s, k, v), k) == Some(v),
        other != k ==> get(put(s, k, v), other) == get(s, other),
        distinct_keys(s) ==> distinct_keys(put(s, k, v)),
{
    lemma_place(s, k);
    lemma_place(s, other);
    let t = put(s, k, v);
    match place(s, k) {
        None => {
            assert(t.drop_last() == s);
        },
        Some(i) => {
            lemma_same_keys(s, t, k);
            lemma_same_keys(s, t, other);
        },
    }
    assert forall|a: int, b: int| distinct_keys(s) && 0 <= a < b < t.len() implies (
    #[trigger] t[a]).0 != (#[trigger] t[b]).0 by {
        if b < s.len() {
            assert(s[a].0 != s[b].0);
            assert(t[a].0 == s[a].0 && t[b].0 == s[b].0);
        } else {
            assert(s[a].0 != k);
        }
    }
}

/// After an erasure the key is gone and every other entry stands as before.
pub proof fn law_get_after_erase<K, V>(s: Seq<(K, V)>, k: K, other: K)
    requires
        distinct_keys(s),
    ensures
        get(erase(s, k), k) is None,
        other != k ==> get(erase(s, k), other) == get(s, other),
        distinct_keys(erase(s, k)),
{
    let t = erase(s, k);
    lemma_place(s, k);
    lemma_place(s, other);
    lemma_place(t, k);
    lemma_place(t, other);
    if let Some(i) = place(s, k) {
        assert forall|a: int| 0 <= a < t.len() implies #[trigger] t[a] == s[if a < i { a } else { a + 1 }] by {}
        if let Some(j) = place(t, k) {
            let a = if j < i { j } else { j + 1 };
            assert(s[a].0 == k && a != i);
        }
        if other != k {
            if let Some(j) = place(s, other) {
                let b = if j < i { j } else { j - 1 };
                assert(t[b] == s[j]);
            }
            if let Some(j) = place(t, other) {
                let a = if j < i { j } else { j + 1 };
                assert(s[a].0 == other);
            }
        }
    }
}

/// The index of the entry of `k`.
pub fn map_place<K: Alike, V: DeepView>(v: &Vec<(K, V)>, k: &K) -> (r: Option<usize>)
    ensures
        crate::text::pos(r) == place(v.deep_view(), k.deep_view()),
        r matches Some(i) ==> i < v.len(),
{
    let ghost s = v.deep_view();
    let mut n: usize = v.len();
    assert(s.take(s.len() as int) == s);
    while n > 0
        invariant
            n <= v.len(),
            s == v.deep_view(),
            place(s, k.deep_view()) == place(s.take(n as int), k.deep_view()),
        decreases n,
    {
        assert(s.take(n as int).drop_last() == s.take(n - 1));
        assert(s.take(n as int).last() == v@[n - 1].deep_view());
        if v[n - 1].0.alike(k) {
            return Some(n - 1);
        }
        n = n - 1;
    }
    None
}

/// What stands under `k`.
pub fn map_get<'a, K: Alike, V: DeepView>(v: &'a Vec<(K, V)>, k: &K) -> (r: Option<&'a V>)
    ensures
        r.deep_view() == get(v.deep_view(), k.deep_view()),
{
    match map_place(v, k) {
        Some(i) => Some(&v[i].1),
        None => None,
    }
}

pub fn map_has<K: Alike, V: DeepView>(v: &Vec<(K, V)>, k: &K) -> (r: bool)
    ensures
        r == get(v.deep_view(), k.deep_view()) is Some,
{
    map_place(v, k).is_some()
}

/// Puts `value` under `k`.
pub fn map_put<K: Alike, V: DeepView>(v: &mut Vec<(K, V)>, k: K, value: V)
    ensures
        final(v).deep_view() == put(old(v).deep_view(), k.deep_view(), value.deep_view()),
{
    let ghost entry = (k, value).deep_view();
    match map_place(v, &k) {
        Some(i) => {
            v.set(i, (k, value));
            assert(v.deep_view() == old(v).deep_view().update(i as int, entry));
        },
        None => {
            v.push((k, value));
            assert(v.deep_view() == old(v).deep_view().push(entry));
        },
    }
}

/// Takes away the entry of `k`.
pub fn map_remove<K: Alike, V: DeepView>(v: &mut Vec<(K, V)>, k: &K)
    ensures
        final(v).deep_view() == erase(old(v).deep_view(), k.deep_view()),
{
    match map_place(v, k) {
        Some(i) => {
            let _gone = v.remove(i);
            assert(v.deep_view() == old(v).deep_view().remove(i as int));
        },
        None => {},
    }
}

// ----- Sets -----

/// `s` with the member `x`.
pub open spec fn with<T>(s: Seq<T>, x: T) -> Seq<T> {
    if s.contains(x) {
        s
    } else {
        s.push(x)
    }
}

/// `s` without the members equal to `x`.
pub open spec fn without<T>(s: Seq<T>, x: T) -> Seq<T>
    decreases s.len(),
{
    if s.len() == 0 {
        s
    } else if s.last() == x {
        without(s.drop_last(), x)
    } else {
        without(s.drop_last(), x).push(s.last())
    }
}

pub fn set_has<T: Alike>(v: &Vec<T>, x: &T) -> (r: bool)
    ensures
        r == v.deep_view().contains(x.deep_view()),
{
    let mut i: usize = 0;
    while i < v.len()
        invariant
            i <= v.len(),
            forall|k: int| 0 <= k < i ==> #[trigger] v.deep_view()[k] != x.deep_view(),
        decreases v.len() - i,
    {
        if v[i].alike(x) {
            assert(v.deep_view()[i as int] == x.deep_view());
            return true;
        }
        i = i + 1;
    }
    false
}

pub fn set_add<T: Alike>(v: &mut Vec<T>, x: T)
    ensures
        final(v).deep_view() == with(old(v).deep_view(), x.deep_view()),
{
    if !set_has(v, &x) {
        v.push(x);
        assert(v.deep_view() == old(v).deep_view().push(x.deep_view()));
    }
}

pub fn set_remove<T: Alike + Copied>(v: &mut Vec<T>, x: &T)
    ensures
        final(v).deep_view() == without(old(v).deep_view(), x.deep_view()),
{
    let ghost all = v.deep_view();
    let mut out: Vec<T> = Vec::new();
    let mut i: usize = 0;
    assert(out.deep_view() == Seq::<T::V>::empty());
    assert(all.take(0) == Seq::<T::V>::empty());
    while i < v.len()
        invariant
            i <= v.len(),
            all == v.deep_view(),
            out.deep_view() == without(all.take(i as int), x.deep_view()),
        decreases v.len() - i,
    {
        assert(all.take(i + 1).drop_last() == all.take(i as int));
        assert(all.take(i + 1).last() == v@[i as int].deep_view());
        if !v[i].alike(x) {
            let ghost done = out.deep_view();
            let kept = v[i].copied();
            out.push(kept);
            assert(out.deep_view() == done.push(kept.deep_view()));
        }
        i = i + 1;
    }
    assert(all.take(all.len() as int) == all);
    *v = out;
}

/// `s` with each member of `more` added in turn.
pub open spec fn with_all<T>(s: Seq<T>, more: Seq<T>) -> Seq<T>
    decreases more.len(),
{
    if more.len() == 0 {
        s
    } else {
        with(with_all(s, more.drop_last()), more.last())
    }
}

/// The members of a list, each once, in the order of their first occurrence.
pub open spec fn once<T>(s: Seq<T>) -> Seq<T> {
    with_all(Seq::empty(), s)
}

/// A set stays one when a member is added or taken away.
pub proof fn law_sets_hold_members_once<T>(s: Seq<T>, x: T)
    requires
        s.no_duplicates(),
    ensures
        with(s, x).no_duplicates(),
        with(s, x).contains(x),
        without(s, x).no_duplicates(),
        !without(s, x).contains(x),
        forall|y: T| #[trigger]
            without(s, x).contains(y) ==> s.contains(y),
    decreases s.len(),
{
    if s.contains(x) {
    } else {
        assert(s.push(x)[s.len() as int] == x);
    }
    if s.len() > 0 {
        let rest = s.drop_last();
        law_sets_hold_members_once(rest, x);
        let t = without(rest, x);
        assert forall|y: T| #[trigger] rest.contains(y) implies s.contains(y) by {
            let i = choose|i: int| 0 <= i < rest.len() && rest[i] == y;
            assert(s[i] == y);
        }
        assert(s.contains(s.last()));
        if s.last() != x {
            assert(!rest.contains(s.last()));
            assert(!t.contains(s.last()));
            let u = t.push(s.last());
            assert forall|y: T| #[trigger] u.contains(y) implies t.contains(y) || y == s.last() by {
                let i = choose|i: int| 0 <= i < u.len() && u[i] == y;
                if i < t.len() {
                    assert(t[i] == y);
                }
            }
        }
    }
}

/// What a set holds with one more member.
pub proof fn lemma_with_member<T>(s: Seq<T>, x: T, y: T)
    ensures
        with(s, x).contains(y) <==> s.contains(y) || y == x,
{
    if !s.contains(x) {
        assert(s.push(x)[s.len() as int] == x);
        if s.contains(y) {
            let i = choose|i: int| 0 <= i < s.len() && s[i] == y;
            assert(s.push(x)[i] == y);
        }
        if s.push(x).contains(y) {
            let i = choose|i: int| 0 <= i < s.push(x).len() && s.push(x)[i] == y;
            if i < s.len() {
                assert(s[i] == y);
            }
        }
    }
}

/// What a set holds with the members of a list.
pub proof fn lemma_with_all_members<T>(s: Seq<T>, more: Seq<T>, x: T)
    ensures
        with_all(s, more).contains(x) <==> s.contains(x) || more.contains(x),
    decreases more.len(),
{
    if more.len() > 0 {
        let rest = more.drop_last();
        lemma_with_all_members(s, rest, x);
        lemma_with_member(with_all(s, rest), more.last(), x);
        assert(more[more.len() - 1] == more.last());
        if rest.contains(x) {
            let i = choose|i: int| 0 <= i < rest.len() && rest[i] == x;
            assert(more[i] == x);
        }
        if more.contains(x) {
            let i = choose|i: int| 0 <= i < more.len() && more[i] == x;
            if i < rest.len() {
                assert(rest[i] == x);
            }
        }
    }
}

/// Adding many members to a set gives a set.
pub proof fn lemma_with_all_once<T>(s: Seq<T>, more: Seq<T>)
    requires
        s.no_duplicates(),
    ensures
        with_all(s, more).no_duplicates(),
    decreases more.len(),
{
    if more.len() > 0 {
        lemma_with_all_once(s, more.drop_last());
        law_sets_hold_members_once(with_all(s, more.drop_last()), more.last());
    }
}

/// Whether each key of a map of sets is there once, and each member of its sets.
pub open spec fn sets_once<K, T>(s: Seq<(K, Seq<T>)>) -> bool {
    &&& distinct_keys(s)
    &&& forall|i: int| 0 <= i < s.len() ==> (#[trigger] s[i]).1.no_duplicates()
}

/// A map of sets stays one when a set is put into it.
pub proof fn lemma_put_set_once<K, T>(s: Seq<(K, Seq<T>)>, k: K, v: Seq<T>)
    requires
        sets_once(s),
    ensures
        get(s, k) matches Some(t) ==> t.no_duplicates(),
        v.no_duplicates() ==> sets_once(put(s, k, v)),
{
    lemma_place(s, k);
    law_get_after_put(s, k, v, k);
    let t = put(s, k, v);
    if v.no_duplicates() {
        assert forall|i: int| 0 <= i < t.len() implies (#[trigger] t[i]).1.no_duplicates() by {
            if i < s.len() {
                assert(s[i].1.no_duplicates());
            }
        }
    }
}

/// Whether a list of texts holds `x`.
pub fn list_has(v: &Vec<String>, x: &str) -> (r: bool)
    ensures
        r == v.deep_view().contains(x@),
{
    let mut i: usize = 0;
    while i < v.len()
        invariant
            i <= v.len(),
            forall|k: int| 0 <= k < i ==> #[trigger] v.deep_view()[k] != x@,
        decreases v.len() - i,
    {
        if same(&v[i], x) {
            assert(v.deep_view()[i as int] == x@);
            return true;
        }
        i = i + 1;
    }
    false
}

} // verus!
