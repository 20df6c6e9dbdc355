//! Sequences of models: what a vector holds, seen through the views of its
//! elements, and the sequence that remains when some elements are dropped.

use vstd::prelude::*;

verus! {

/// The views of the elements of `s`, in order.
pub open spec fn views<T: View>(s: Seq<T>) -> Seq<T::V> {
    s.map_values(|x: T| x@)
}

pub broadcast proof fn lemma_views_push<T: View>(s: Seq<T>, x: T)
    ensures
        #[trigger] views(s.push(x)) == views(s).push(x@),
{
    assert(views(s.push(x)) =~= views(s).push(x@));
}

pub broadcast proof fn lemma_views_empty<T: View>(s: Seq<T>)
    requires
        s.len() == 0,
    ensures
        #[trigger] views(s) == Seq::<T::V>::empty(),
{
    assert(views(s) =~= Seq::<T::V>::empty());
}

pub broadcast proof fn lemma_views_take<T: View>(s: Seq<T>, n: int)
    requires
        0 <= n <= s.len(),
    ensures
        #[trigger] views(s.take(n)) == views(s).take(n),
{
    assert(views(s.take(n)) =~= views(s).take(n));
}

pub broadcast group group_views {
    lemma_views_push,
    lemma_views_empty,
    lemma_views_take,
    lemma_views_concat,
}

/// The view inside an optional value.
pub open spec fn view_of<T: View>(x: Option<T>) -> Option<T::V> {
    match x {
        Some(v) => Some(v@),
        None => None,
    }
}

/// What `f` makes of the elements of `s`, in order, without those it drops.
pub open spec fn collect_some<A, B>(s: Seq<A>, f: spec_fn(A) -> Option<B>) -> Seq<B>
    decreases s.len(),
{
    if s.len() == 0 {
        Seq::empty()
    } else {
        let rest = collect_some(s.drop_last(), f);
        match f(s.last()) {
            Some(b) => rest.push(b),
            None => rest,
        }
    }
}

/// One more element at the end adds what `f` makes of it.
pub proof fn lemma_collect_step<A, B>(s: Seq<A>, i: int, f: spec_fn(A) -> Option<B>)
    requires
        0 <= i < s.len(),
    ensures
        collect_some(s.take(i + 1), f) == (match f(s[i]) {
            Some(b) => collect_some(s.take(i), f).push(b),
            None => collect_some(s.take(i), f),
        }),
{
    assert(s.take(i + 1).drop_last() =~= s.take(i));
}

/// Every collected element comes from an element of `s`.
pub proof fn lemma_collect_origin<A, B>(s: Seq<A>, f: spec_fn(A) -> Option<B>, j: int)
    requires
        0 <= j < collect_some(s, f).len(),
    ensures
        exists|i: int| 0 <= i < s.len() && f(#[trigger] s[i]) == Some(collect_some(s, f)[j]),
    decreases s.len(),
{
    let rest = collect_some(s.drop_last(), f);
    if j < rest.len() {
        lemma_collect_origin(s.drop_last(), f, j);
        let i = choose|i: int|
            0 <= i < s.drop_last().len() && f(#[trigger] s.drop_last()[i]) == Some(rest[j]);
        assert(s[i] == s.drop_last()[i]);
    } else {
        assert(f(s[s.len() - 1]) == Some(collect_some(s, f)[j]));
    }
}

/// What `f` makes of an element is among what is collected.
pub proof fn lemma_collected<A, B>(s: Seq<A>, f: spec_fn(A) -> Option<B>, i: int)
    requires
        0 <= i < s.len(),
        f(s[i]) is Some,
    ensures
        exists|k: int| 0 <= k < collect_some(s, f).len() && Some(#[trigger] collect_some(s, f)[k]) == f(
            s[i],
        ),
    decreases s.len(),
{
    let rest = collect_some(s.drop_last(), f);
    if i < s.len() - 1 {
        assert(s.drop_last()[i] == s[i]);
        lemma_collected(s.drop_last(), f, i);
        let k = choose|k: int| 0 <= k < rest.len() && Some(#[trigger] rest[k]) == f(s[i]);
        assert(collect_some(s, f)[k] == rest[k]);
    } else {
        assert(collect_some(s, f)[rest.len() as int] == f(s[i])->0);
    }
}

/// Collecting keeps no more elements than there were.
pub proof fn lemma_collect_len<A, B>(s: Seq<A>, f: spec_fn(A) -> Option<B>)
    ensures
        collect_some(s, f).len() <= s.len(),
    decreases s.len(),
{
    if s.len() > 0 {
        lemma_collect_len(s.drop_last(), f);
    }
}

/// The first `n` elements of `s`, or all where there are fewer.
pub open spec fn at_most<A>(s: Seq<A>, n: int) -> Seq<A> {
    if s.len() > n {
        s.take(n)
    } else {
        s
    }
}

/// What `f` makes of the first element of `s` that it does not drop.
pub open spec fn find_some<A, B>(s: Seq<A>, f: spec_fn(A) -> Option<B>) -> Option<B>
    decreases s.len(),
{
    if s.len() == 0 {
        None
    } else {
        match f(s[0]) {
            Some(b) => Some(b),
            None => find_some(s.skip(1), f),
        }
    }
}

/// Looking on from the next element.
pub proof fn lemma_find_step<A, B>(s: Seq<A>, i: int, f: spec_fn(A) -> Option<B>)
    requires
        0 <= i < s.len(),
    ensures
        find_some(s.skip(i), f) == (match f(s[i]) {
            Some(b) => Some(b),
            None => find_some(s.skip(i + 1), f),
        }),
{
    assert(s.skip(i)[0] == s[i]);
    assert(s.skip(i).skip(1) =~= s.skip(i + 1));
}

/// Nothing is found where every element is dropped.
pub proof fn lemma_find_none<A, B>(s: Seq<A>, f: spec_fn(A) -> Option<B>)
    requires
        forall|i: int| 0 <= i < s.len() ==> f(#[trigger] s[i]) is None,
    ensures
        find_some(s, f) is None,
    decreases s.len(),
{
    if s.len() > 0 {
        assert(f(s[0]) is None);
        assert forall|i: int| 0 <= i < s.skip(1).len() implies f(#[trigger] s.skip(1)[i]) is None by {
            assert(s.skip(1)[i] == s[i + 1]);
        }
        lemma_find_none(s.skip(1), f);
    }
}

/// The concatenation of what `f` makes of each element.
pub open spec fn flatten_map<A, B>(s: Seq<A>, f: spec_fn(A) -> Seq<B>) -> Seq<B>
    decreases s.len(),
{
    if s.len() == 0 {
        Seq::empty()
    } else {
        flatten_map(s.drop_last(), f) + f(s.last())
    }
}

/// One more element at the end adds what `f` makes of it.
pub proof fn lemma_flatten_step<A, B>(s: Seq<A>, i: int, f: spec_fn(A) -> Seq<B>)
    requires
        0 <= i < s.len(),
    ensures
        flatten_map(s.take(i + 1), f) == flatten_map(s.take(i), f) + f(s[i]),
{
    assert(s.take(i + 1).drop_last() =~= s.take(i));
}

/// Elements side by side, as far as both lists go.
pub open spec fn paired<A, B>(a: Seq<A>, b: Seq<B>) -> Seq<(A, B)> {
    Seq::new(
        if a.len() < b.len() {
            a.len()
        } else {
            b.len()
        },
        |i: int| (a[i], b[i]),
    )
}

/// Appending two vectors appends their views.
pub broadcast proof fn lemma_views_concat<T: View>(a: Seq<T>, b: Seq<T>)
    ensures
        #[trigger] views(a + b) == views(a) + views(b),
{
    assert(views(a + b) =~= views(a) + views(b));
}

/// What stays of some items.
pub open spec fn if_stays<T>() -> spec_fn((T, bool)) -> Option<T> {
    |x: (T, bool)|
    if x.1 {
        Some(x.0)
    } else {
        None
    }
}

/// The items from `k` on that stay, the last one first.
spec fn kept_backwards<T>(all: Seq<T>, stays: Seq<bool>, k: int) -> Seq<T>
    decreases all.len() - k,
{
    if k >= all.len() {
        Seq::empty()
    } else {
        let rest = kept_backwards(all, stays, k + 1);
        if stays[k] {
            rest.push(all[k])
        } else {
            rest
        }
    }
}

proof fn lemma_kept<T>(all: Seq<T>, stays: Seq<bool>, k: int)
    requires
        all.len() == stays.len(),
        0 <= k <= all.len(),
    ensures
        collect_some(paired(all, stays).take(k), if_stays::<T>()) + kept_backwards(all, stays, k).reverse()
            == collect_some(paired(all, stays), if_stays::<T>()),
    decreases all.len() - k,
{
    let p = paired(all, stays);
    let f = if_stays::<T>();
    if k == all.len() {
        assert(p.take(k) =~= p);
        assert(kept_backwards(all, stays, k).reverse() =~= Seq::<T>::empty());
        assert(collect_some(p, f) + Seq::<T>::empty() =~= collect_some(p, f));
    } else {
        lemma_kept(all, stays, k + 1);
        lemma_collect_step(p, k, f);
        assert(p[k] == (all[k], stays[k]));
        let head = collect_some(p.take(k), f);
        let tail = kept_backwards(all, stays, k + 1);
        if stays[k] {
            assert(tail.push(all[k]).reverse() =~= seq![all[k]] + tail.reverse());
            assert(head.push(all[k]) + tail.reverse() =~= head + (seq![all[k]] + tail.reverse()));
        }
    }
}

/// The items that stay, in order.
pub fn keep<T>(items: Vec<T>, stays: &Vec<bool>) -> (r: Vec<T>)
    requires
        items@.len() == stays@.len(),
    ensures
        r@ == collect_some(paired(items@, stays@), if_stays::<T>()),
{
    let ghost all = items@;
    let mut rest = items;
    let mut backwards: Vec<T> = Vec::new();
    while rest.len() > 0
        invariant
            rest@.len() <= all.len(),
            all.len() == stays@.len(),
            rest@ == all.take(rest@.len() as int),
            backwards@ == kept_backwards(all, stays@, rest@.len() as int),
        decreases rest@.len(),
    {
        let ghost k = rest@.len() - 1;
        let at: usize = rest.len() - 1;
        assert(rest@.last() == all[k]);
        match rest.pop() {
            Some(f) => {
                if stays[at] {
                    backwards.push(f);
                }
            },
            None => {},
        }
        assert(rest@ =~= all.take(k));
    }
    proof {
        lemma_kept(all, stays@, 0);
        assert(paired(all, stays@).take(0) =~= Seq::<(T, bool)>::empty());
    }
    let ghost whole = backwards@;
    let mut r: Vec<T> = Vec::new();
    assert(r@ + whole.reverse() =~= whole.reverse());
    while backwards.len() > 0
        invariant
            r@ + backwards@.reverse() == whole.reverse(),
        decreases backwards@.len(),
    {
        let ghost before = backwards@;
        let ghost done = r@;
        match backwards.pop() {
            Some(f) => {
                r.push(f);
                assert(before.reverse() =~= seq![f] + backwards@.reverse());
                assert(done.push(f) + backwards@.reverse() =~= done + (seq![f] + backwards@.reverse()));
            },
            None => {},
        }
    }
    assert(r@ =~= whole.reverse());
    assert(Seq::<T>::empty() + whole.reverse() =~= whole.reverse());
    r
}

/// Something was collected exactly where `f` makes it of an element.
pub proof fn law_collected_is_made<A, B>(s: Seq<A>, f: spec_fn(A) -> Option<B>, b: B)
    ensures
        collect_some(s, f).contains(b) <==> exists|i: int|
        0 <= i < s.len() && f(#[trigger] s[i]) == Some(b),
{
    if collect_some(s, f).contains(b) {
        let j = choose|j: int| 0 <= j < collect_some(s, f).len() && collect_some(s, f)[j] == b;
        lemma_collect_origin(s, f, j);
    }
    if exists|i: int| 0 <= i < s.len() && f(#[trigger] s[i]) == Some(b) {
        let i = choose|i: int| 0 <= i < s.len() && f(#[trigger] s[i]) == Some(b);
        lemma_collected(s, f, i);
    }
}

/// What is collected of two lists is what is collected of each, one after the
/// other.
pub proof fn law_collecting_adds<A, B>(s: Seq<A>, t: Seq<A>, f: spec_fn(A) -> Option<B>)
    ensures
        collect_some(s + t, f) == collect_some(s, f) + collect_some(t, f),
    decreases t.len(),
{
    if t.len() == 0 {
        assert(s + t =~= s);
        assert(collect_some(s, f) + collect_some(t, f) =~= collect_some(s, f));
    } else {
        law_collecting_adds(s, t.drop_last(), f);
        assert((s + t).drop_last() =~= s + t.drop_last());
        assert((s + t).last() == t.last());
        assert(collect_some(s + t, f) =~= collect_some(s, f) + collect_some(t, f));
    }
}

/// The first element of which `f` makes something decides what is found.
pub proof fn law_first_is_found<A, B>(s: Seq<A>, f: spec_fn(A) -> Option<B>, i: int)
    requires
        0 <= i < s.len(),
        f(s[i]) is Some,
        forall|j: int| 0 <= j < i ==> f(#[trigger] s[j]) is None,
    ensures
        find_some(s, f) == f(s[i]),
    decreases s.len(),
{
    if i > 0 {
        assert(f(s[0]) is None);
        assert forall|j: int| 0 <= j < i - 1 implies f(#[trigger] s.skip(1)[j]) is None by {
            assert(s.skip(1)[j] == s[j + 1]);
        }
        assert(s.skip(1)[i - 1] == s[i]);
        law_first_is_found(s.skip(1), f, i - 1);
    }
}

/// What is found was made of an element, and nothing of those before it; where
/// nothing is found, nothing is made of any.
pub proof fn law_found_is_made<A, B>(s: Seq<A>, f: spec_fn(A) -> Option<B>)
    ensures
        match find_some(s, f) {
            Some(b) => exists|i: int|
            0 <= i < s.len() && f(#[trigger] s[i]) == Some(b) && forall|j: int|
            0 <= j < i ==> f(#[trigger] s[j]) is None,
            None => forall|i: int| 0 <= i < s.len() ==> f(#[trigger] s[i]) is None,
        },
    decreases s.len(),
{
    if s.len() > 0 {
        match f(s[0]) {
            Some(b) => {},
            None => {
                law_found_is_made(s.skip(1), f);
                match find_some(s, f) {
                    Some(b) => {
                        let i = choose|i: int|
                        0 <= i < s.skip(1).len() && f(#[trigger] s.skip(1)[i]) == Some(b) && forall|j: int|
                        0 <= j < i ==> f(#[trigger] s.skip(1)[j]) is None;
                        assert(s.skip(1)[i] == s[i + 1]);
                        assert forall|j: int| 0 <= j < i + 1 implies f(#[trigger] s[j]) is None by {
                            if j > 0 {
                                assert(s.skip(1)[j - 1] == s[j]);
                            }
                        }
                    },
                    None => {
                        assert forall|i: int| 0 <= i < s.len() implies f(#[trigger] s[i]) is None by {
                            if i > 0 {
                                assert(s.skip(1)[i - 1] == s[i]);
                            }
                        }
                    },
                }
            },
        }
    }
}

/// Something stands in a concatenation exactly where it stands in one of the
/// parts.
pub proof fn law_flattened_is_made<A, B>(s: Seq<A>, f: spec_fn(A) -> Seq<B>, b: B)
    ensures
        flatten_map(s, f).contains(b) <==> exists|i: int|
        0 <= i < s.len() && f(#[trigger] s[i]).contains(b),
    decreases s.len(),
{
    if s.len() > 0 {
        let head = flatten_map(s.drop_last(), f);
        let tail = f(s.last());
        law_flattened_is_made(s.drop_last(), f, b);
        if (head + tail).contains(b) {
            let k = choose|k: int| 0 <= k < (head + tail).len() && (head + tail)[k] == b;
            if k < head.len() {
                assert(head[k] == b);
                let i = choose|i: int|
                0 <= i < s.drop_last().len() && f(#[trigger] s.drop_last()[i]).contains(b);
                assert(s[i] == s.drop_last()[i]);
            } else {
                assert(tail[k - head.len()] == b);
                assert(f(s[s.len() - 1]).contains(b));
            }
        }
        if exists|i: int| 0 <= i < s.len() && f(#[trigger] s[i]).contains(b) {
            let i = choose|i: int| 0 <= i < s.len() && f(#[trigger] s[i]).contains(b);
            if i == s.len() - 1 {
                let k = choose|k: int| 0 <= k < tail.len() && tail[k] == b;
                assert((head + tail)[head.len() + k] == b);
            } else {
                assert(s.drop_last()[i] == s[i]);
                let k = choose|k: int| 0 <= k < head.len() && head[k] == b;
                assert((head + tail)[k] == b);
            }
        }
    }
}

/// Collecting keeps the order: of two things that were collected, the one that
/// comes first was made of an element that comes first.
pub proof fn law_collecting_keeps_order<A, B>(s: Seq<A>, f: spec_fn(A) -> Option<B>, a: int, b: int)
    requires
        0 <= a < b < collect_some(s, f).len(),
    ensures
        exists|i: int, j: int|
        #![trigger s[i], s[j]]
        0 <= i < j < s.len() && f(s[i]) == Some(collect_some(s, f)[a]) && f(s[j]) == Some(
            collect_some(s, f)[b],
        ),
    decreases s.len(),
{
    let head = collect_some(s.drop_last(), f);
    if b < head.len() {
        law_collecting_keeps_order(s.drop_last(), f, a, b);
        let (i, j) = choose|i: int, j: int|
        #![trigger s.drop_last()[i], s.drop_last()[j]]
        0 <= i < j < s.drop_last().len() && f(s.drop_last()[i]) == Some(head[a]) && f(
            s.drop_last()[j],
        ) == Some(head[b]);
        assert(s[i] == s.drop_last()[i] && s[j] == s.drop_last()[j]);
    } else {
        lemma_collect_origin(s.drop_last(), f, a);
        let i = choose|i: int|
        0 <= i < s.drop_last().len() && f(#[trigger] s.drop_last()[i]) == Some(head[a]);
        assert(s[i] == s.drop_last()[i]);
        assert(f(s[s.len() - 1]) == Some(collect_some(s, f)[b]));
    }
}

/// What is kept of a list is what is marked to stay.
pub proof fn law_marked_items_stay<T>(items: Seq<T>, stays: Seq<bool>, t: T)
    requires
        items.len() == stays.len(),
    ensures
        collect_some(paired(items, stays), if_stays()).contains(t) <==> exists|i: int|
        0 <= i < items.len() && #[trigger] items[i] == t && stays[i],
{
    let p = paired(items, stays);
    law_collected_is_made(p, if_stays::<T>(), t);
    if exists|i: int| 0 <= i < items.len() && #[trigger] items[i] == t && stays[i] {
        let i = choose|i: int| 0 <= i < items.len() && #[trigger] items[i] == t && stays[i];
        assert(p[i] == (items[i], stays[i]));
        assert(if_stays::<T>()(p[i]) == Some(t));
    }
    if exists|i: int| 0 <= i < p.len() && if_stays::<T>()(#[trigger] p[i]) == Some(t) {
        let i = choose|i: int| 0 <= i < p.len() && if_stays::<T>()(#[trigger] p[i]) == Some(t);
        assert(p[i] == (items[i], stays[i]));
    }
}

} // verus!
