//! Orders: positions ranked by a number, largest first, and texts in
//! alphabetical order; paths as the file system orders them.

use crate::paths;
use crate::seqs::views;
use crate::text;
use vstd::prelude::*;

verus! {

/// Whether position `a` comes before position `b`: the larger number first,
/// equal numbers in their given order.
pub open spec fn ranks_before(keys: Seq<u64>, a: usize, b: usize) -> bool {
    keys[a as int] > keys[b as int] || (keys[a as int] == keys[b as int] && a < b)
}

/// Whether `r` lists every position of `keys` once, ranked.
pub open spec fn is_ranking(keys: Seq<u64>, r: Seq<usize>) -> bool {
    &&& r.len() == keys.len()
    &&& forall|i: int| 0 <= i < r.len() ==> (#[trigger] r[i]) < keys.len()
    &&& forall|k: usize| k < keys.len() ==> #[trigger] r.contains(k)
    &&& forall|i: int, j: int|
        0 <= i < j < r.len() ==> ranks_before(keys, #[trigger] r[i], #[trigger] r[j])
}

/// The positions of `keys`, largest number first, equal ones in their order.
pub fn ranking(keys: &Vec<u64>) -> (r: Vec<usize>)
    ensures
        is_ranking(keys@, r@),
{
    let mut r: Vec<usize> = Vec::new();
    let mut k: usize = 0;
    while k < keys.len()
        invariant
            k <= keys@.len(),
            r@.len() == k,
            forall|i: int| 0 <= i < r@.len() ==> (#[trigger] r@[i]) < k,
            forall|j: usize| j < k ==> #[trigger] r@.contains(j),
            forall|i: int, j: int|
                0 <= i < j < r@.len() ==> ranks_before(keys@, #[trigger] r@[i], #[trigger] r@[j]),
        decreases keys@.len() - k,
    {
        let key: u64 = keys[k];
        let mut lo: usize = 0;
        let mut hi: usize = r.len();
        while lo < hi
            invariant
                lo <= hi <= r@.len(),
                k < keys@.len(),
                key == keys@[k as int],
                forall|i: int| 0 <= i < r@.len() ==> (#[trigger] r@[i]) < k,
                forall|i: int, j: int|
                    0 <= i < j < r@.len() ==> ranks_before(
                        keys@,
                        #[trigger] r@[i],
                        #[trigger] r@[j],
                    ),
                forall|i: int| 0 <= i < lo ==> keys@[#[trigger] r@[i] as int] >= key,
                forall|i: int| hi <= i < r@.len() ==> keys@[#[trigger] r@[i] as int] < key,
            decreases hi - lo,
        {
            let mid: usize = lo + (hi - lo) / 2;
            if keys[r[mid]] >= key {
                assert forall|i: int| 0 <= i < mid + 1 implies keys@[#[trigger] r@[i] as int]
                    >= key by {
                    if i < mid {
                        assert(ranks_before(keys@, r@[i], r@[mid as int]));
                    }
                }
                lo = mid + 1;
            } else {
                assert forall|i: int| mid <= i < r@.len() implies keys@[#[trigger] r@[i] as int]
                    < key by {
                    if i > mid {
                        assert(ranks_before(keys@, r@[mid as int], r@[i]));
                    }
                }
                hi = mid;
            }
        }
        let ghost before = r@;
        r.insert(lo, k);
        proof {
            assert(r@ == before.insert(lo as int, k));
            assert forall|j: usize| j < k + 1 implies #[trigger] r@.contains(j) by {
                if j < k {
                    assert(before.contains(j));
                    let i = choose|i: int| 0 <= i < before.len() && before[i] == j;
                    if i < lo {
                        assert(r@[i] == j);
                    } else {
                        assert(r@[i + 1] == j);
                    }
                } else {
                    assert(r@[lo as int] == j);
                }
            }
            assert forall|i: int, j: int| 0 <= i < j < r@.len() implies ranks_before(
                keys@,
                #[trigger] r@[i],
                #[trigger] r@[j],
            ) by {
                let a = if i < lo {
                    i
                } else {
                    i - 1
                };
                let b = if j < lo {
                    j
                } else {
                    j - 1
                };
                if i != lo {
                    assert(r@[i] == before[a]);
                }
                if j != lo {
                    assert(r@[j] == before[b]);
                }
            }
        }
        k += 1;
    }
    r
}

/// There is one ranking only.
pub proof fn law_ranking_unique(keys: Seq<u64>, a: Seq<usize>, b: Seq<usize>)
    requires
        is_ranking(keys, a),
        is_ranking(keys, b),
    ensures
        a == b,
{
    assert forall|i: int| 0 <= i < a.len() implies a[i] == b[i] by {
        lemma_same_at(keys, a, b, i);
    }
    assert(a =~= b);
}

proof fn lemma_same_at(keys: Seq<u64>, a: Seq<usize>, b: Seq<usize>, i: int)
    requires
        is_ranking(keys, a),
        is_ranking(keys, b),
        0 <= i < a.len(),
    ensures
        a[i] == b[i],
    decreases i,
{
    assert forall|k: int| 0 <= k < i implies a[k] == b[k] by {
        lemma_same_at(keys, a, b, k);
    }
    assert(b.contains(a[i]));
    assert(a.contains(b[i]));
    let p = choose|p: int| 0 <= p < b.len() && b[p] == a[i];
    let q = choose|q: int| 0 <= q < a.len() && a[q] == b[i];
    if p < i {
        assert(a[p] == b[p]);
        assert(ranks_before(keys, a[p], a[i]));
    } else if q < i {
        assert(a[q] == b[q]);
        assert(ranks_before(keys, b[q], b[i]));
    } else if p > i && q > i {
        assert(ranks_before(keys, b[i], b[p]));
        assert(ranks_before(keys, a[i], a[q]));
    }
}

// ---- alphabetical order ----

/// Whether `a` comes before `b` in the order of their characters.
pub open spec fn text_before(a: Seq<char>, b: Seq<char>) -> bool
    decreases a.len(),
{
    if a.len() == 0 {
        b.len() > 0
    } else if b.len() == 0 {
        false
    } else if a[0] != b[0] {
        a[0] < b[0]
    } else {
        text_before(a.skip(1), b.skip(1))
    }
}

/// Whether `a` comes before `b` in the order of their characters.
pub fn comes_before(a: &str, b: &str) -> (r: bool)
    ensures
        r == text_before(a@, b@),
{
    let x = text::chars_of(a);
    let y = text::chars_of(b);
    let mut i: usize = 0;
    assert(x@.skip(0) =~= x@);
    assert(y@.skip(0) =~= y@);
    while i < x.len() && i < y.len() && x[i] == y[i]
        invariant
            i <= x@.len(),
            i <= y@.len(),
            text_before(x@, y@) == text_before(x@.skip(i as int), y@.skip(i as int)),
        decreases x@.len() - i,
    {
        assert(x@.skip(i as int).skip(1) =~= x@.skip(i + 1));
        assert(y@.skip(i as int).skip(1) =~= y@.skip(i + 1));
        i += 1;
    }
    if i == x.len() {
        i < y.len()
    } else if i == y.len() {
        false
    } else {
        x[i] < y[i]
    }
}

/// No text comes before itself.
pub proof fn lemma_text_before_irreflexive(a: Seq<char>)
    ensures
        !text_before(a, a),
    decreases a.len(),
{
    if a.len() > 0 {
        lemma_text_before_irreflexive(a.skip(1));
    }
}

/// Of two different texts one comes before the other.
pub proof fn lemma_text_before_total(a: Seq<char>, b: Seq<char>)
    ensures
        text_before(a, b) || text_before(b, a) || a == b,
    decreases a.len(),
{
    if a.len() == 0 {
        if b.len() == 0 {
            assert(a =~= b);
        }
    } else if b.len() > 0 && a[0] == b[0] {
        lemma_text_before_total(a.skip(1), b.skip(1));
        if a.skip(1) == b.skip(1) {
            assert forall|i: int| 0 <= i < a.len() implies a[i] == b[i] by {
                if i > 0 {
                    assert(a[i] == a.skip(1)[i - 1]);
                    assert(b[i] == b.skip(1)[i - 1]);
                }
            }
            assert(a.len() == a.skip(1).len() + 1 && b.len() == b.skip(1).len() + 1);
            assert(a =~= b);
        }
    }
}

/// The alphabetical order carries over.
pub proof fn lemma_text_before_transitive(a: Seq<char>, b: Seq<char>, c: Seq<char>)
    requires
        text_before(a, b),
        text_before(b, c),
    ensures
        text_before(a, c),
    decreases a.len(),
{
    if a.len() > 0 && b.len() > 0 && c.len() > 0 && a[0] == b[0] && b[0] == c[0] {
        lemma_text_before_transitive(a.skip(1), b.skip(1), c.skip(1));
    }
}

/// Whether the texts stand in strictly ascending order.
pub open spec fn ascending(s: Seq<Seq<char>>) -> bool {
    forall|i: int, j: int| 0 <= i < j < s.len() ==> text_before(#[trigger] s[i], #[trigger] s[j])
}

/// Puts a text in its place among ascending ones, unless it is there already.
pub fn insert_sorted(list: &mut Vec<String>, item: String)
    requires
        ascending(views(old(list)@)),
    ensures
        ascending(views(final(list)@)),
        views(final(list)@).to_set() == views(old(list)@).to_set().insert(item@),
{
    let ghost before = views(list@);
    let mut i: usize = 0;
    while i < list.len() && comes_before(list[i].as_str(), item.as_str())
        invariant
            i <= list@.len(),
            before == views(list@),
            forall|j: int| 0 <= j < i ==> text_before(#[trigger] before[j], item@),
        decreases list@.len() - i,
    {
        assert(before[i as int] == list@[i as int]@);
        i += 1;
    }
    if i < list.len() && text::same(list[i].as_str(), item.as_str()) {
        assert(before[i as int] == item@);
        assert(before.to_set().insert(item@) =~= before.to_set());
        return;
    }
    proof {
        if i < list@.len() {
            assert(before[i as int] == list@[i as int]@);
            lemma_text_before_total(before[i as int], item@);
        }
    }
    let ghost text = item@;
    let ghost old_list = list@;
    list.insert(i, item);
    let ghost after = views(list@);
    proof {
        assert(after =~= before.insert(i as int, text)) by {
            assert forall|k: int| 0 <= k < after.len() implies after[k] == before.insert(
                i as int,
                text,
            )[k] by {
                assert(after[k] == list@[k]@);
                if k < i {
                    assert(list@[k] == old_list[k]);
                } else if k > i {
                    assert(list@[k] == old_list[k - 1]);
                }
            }
        }
        assert forall|a: int, b: int| 0 <= a < b < after.len() implies text_before(
            #[trigger] after[a],
            #[trigger] after[b],
        ) by {
            if a < i && b == i {
                assert(text_before(before[a], text));
            } else if a == i {
                if b - 1 > i {
                    assert(text_before(before[i as int], before[b - 1]));
                    lemma_text_before_transitive(text, before[i as int], before[b - 1]);
                }
            } else {
                let x = if a < i {
                    a
                } else {
                    a - 1
                };
                let y = if b < i {
                    b
                } else {
                    b - 1
                };
                assert(text_before(before[x], before[y]));
            }
        }
        assert(after.to_set() =~= before.to_set().insert(text)) by {
            assert forall|x: Seq<char>| after.to_set().contains(x) == before.to_set().insert(
                text,
            ).contains(x) by {
                if after.contains(x) {
                    let k = choose|k: int| 0 <= k < after.len() && after[k] == x;
                    if k < i {
                        assert(before[k] == x);
                    } else if k > i {
                        assert(before[k - 1] == x);
                    }
                }
                if before.contains(x) {
                    let k = choose|k: int| 0 <= k < before.len() && before[k] == x;
                    if k < i {
                        assert(after[k] == x);
                    } else {
                        assert(after[k + 1] == x);
                    }
                }
                assert(after[i as int] == text);
            }
        }
    }
}

/// Ascending texts are determined by the set that they make.
pub proof fn law_ascending_unique(a: Seq<Seq<char>>, b: Seq<Seq<char>>)
    requires
        ascending(a),
        ascending(b),
        a.to_set() == b.to_set(),
    ensures
        a == b,
    decreases a.len(),
{
    if a.len() == 0 {
        if b.len() > 0 {
            assert(b.to_set().contains(b[0]));
            assert(a.to_set().contains(b[0]));
        }
        assert(a =~= b);
    } else {
        assert(a.to_set().contains(a.last()));
        assert(b.contains(a.last()));
        let p = choose|p: int| 0 <= p < b.len() && b[p] == a.last();
        assert(b.to_set().contains(b.last()));
        assert(a.contains(b.last()));
        let q = choose|q: int| 0 <= q < a.len() && a[q] == b.last();
        if p < b.len() - 1 {
            assert(text_before(b[p], b[b.len() - 1]));
            if q < a.len() - 1 {
                assert(text_before(a[q], a[a.len() - 1]));
                lemma_text_before_transitive(b.last(), a.last(), b.last());
            }
            lemma_text_before_irreflexive(b.last());
        }
        assert(a.last() == b.last());
        let x = a.drop_last();
        let y = b.drop_last();
        assert forall|t: Seq<char>| x.to_set().contains(t) == y.to_set().contains(t) by {
            lemma_drop_last_set(a, t);
            lemma_drop_last_set(b, t);
        }
        assert(x.to_set() =~= y.to_set());
        law_ascending_unique(x, y);
        assert(a =~= x.push(a.last()));
        assert(b =~= y.push(b.last()));
    }
}

proof fn lemma_drop_last_set(a: Seq<Seq<char>>, t: Seq<char>)
    requires
        ascending(a),
        a.len() > 0,
    ensures
        a.drop_last().to_set().contains(t) == (a.to_set().contains(t) && t != a.last()),
{
    if a.drop_last().contains(t) {
        let k = choose|k: int| 0 <= k < a.drop_last().len() && a.drop_last()[k] == t;
        assert(a[k] == t);
        assert(text_before(a[k], a[a.len() - 1]));
        lemma_text_before_irreflexive(t);
    }
    if a.contains(t) && t != a.last() {
        let k = choose|k: int| 0 <= k < a.len() && a[k] == t;
        assert(a.drop_last()[k] == t);
    }
}

// ---- paths in the order of the file system ----

/// Where a component stands by its kind: the current directory, the parent, a
/// name.
pub open spec fn part_rank(p: Seq<char>) -> int {
    if p == "."@ {
        0
    } else if p == ".."@ {
        1
    } else {
        2
    }
}

/// Whether one component of a path comes before another.
pub open spec fn part_before(a: Seq<char>, b: Seq<char>) -> bool {
    part_rank(a) < part_rank(b) || (part_rank(a) == 2 && part_rank(b) == 2 && text_before(a, b))
}

/// Whether one list of components comes before another.
pub open spec fn parts_before(a: Seq<Seq<char>>, b: Seq<Seq<char>>) -> bool
    decreases a.len(),
{
    if b.len() == 0 {
        false
    } else if a.len() == 0 {
        true
    } else if a[0] == b[0] {
        parts_before(a.skip(1), b.skip(1))
    } else {
        part_before(a[0], b[0])
    }
}

/// Whether a path comes before another: absolute paths first, then component
/// by component.
pub open spec fn path_before(a: Seq<char>, b: Seq<char>) -> bool {
    if paths::absolute(a) == paths::absolute(b) {
        parts_before(paths::parts(a), paths::parts(b))
    } else {
        paths::absolute(a)
    }
}

/// Whether paths stand in their order.
pub open spec fn paths_in_order(s: Seq<Seq<char>>) -> bool {
    forall|i: int, j: int| 0 <= i < j < s.len() ==> !path_before(#[trigger] s[j], #[trigger] s[i])
}

proof fn lemma_part_before(a: Seq<char>, b: Seq<char>, c: Seq<char>)
    ensures
        !part_before(a, a),
        part_before(a, b) && part_before(b, c) ==> part_before(a, c),
{
    lemma_text_before_irreflexive(a);
    if part_before(a, b) && part_before(b, c) && part_rank(a) == 2 {
        lemma_text_before_transitive(a, b, c);
    }
}

proof fn lemma_parts_before(a: Seq<Seq<char>>, b: Seq<Seq<char>>, c: Seq<Seq<char>>)
    ensures
        !parts_before(a, a),
        parts_before(a, b) && parts_before(b, c) ==> parts_before(a, c),
    decreases a.len(),
{
    if a.len() > 0 {
        if b.len() > 0 && c.len() > 0 {
            lemma_part_before(a[0], b[0], c[0]);
            lemma_part_before(a[0], b[0], a[0]);
            lemma_part_before(b[0], c[0], b[0]);
        }
        lemma_parts_before(a.skip(1), b.skip(1), c.skip(1));
    }
}

pub proof fn lemma_path_before(a: Seq<char>, b: Seq<char>, c: Seq<char>)
    ensures
        !path_before(a, a),
        path_before(a, b) && path_before(b, c) ==> path_before(a, c),
{
    lemma_parts_before(paths::parts(a), paths::parts(b), paths::parts(c));
}

fn part_comes_first(a: &str, b: &str) -> (r: bool)
    ensures
        r == part_before(a@, b@),
{
    proof {
        reveal_strlit(".");
        reveal_strlit("..");
        assert("."@.len() == 1);
        assert(".."@.len() == 2);
    }
    if text::same(a, ".") {
        !text::same(b, ".")
    } else if text::same(b, ".") {
        false
    } else if text::same(a, "..") {
        !text::same(b, "..")
    } else if text::same(b, "..") {
        false
    } else {
        comes_before(a, b)
    }
}

/// Whether a path comes before another.
pub fn path_comes_first(a: &str, b: &str) -> (r: bool)
    ensures
        r == path_before(a@, b@),
{
    let rooted = paths::is_absolute(a);
    if rooted != paths::is_absolute(b) {
        return rooted;
    }
    let x = paths::components(a);
    let y = paths::components(b);
    let ghost p = views(x@);
    let ghost q = views(y@);
    assert(p.skip(0) =~= p);
    assert(q.skip(0) =~= q);
    let mut i: usize = 0;
    while i < x.len() && i < y.len()
        invariant
            i <= x@.len(),
            i <= y@.len(),
            p == views(x@),
            q == views(y@),
            path_before(a@, b@) == parts_before(p.skip(i as int), q.skip(i as int)),
        decreases x@.len() - i,
    {
        let ghost s = p.skip(i as int);
        let ghost t = q.skip(i as int);
        assert(s[0] == x@[i as int]@ && t[0] == y@[i as int]@);
        assert(s.skip(1) =~= p.skip(i + 1));
        assert(t.skip(1) =~= q.skip(i + 1));
        if !text::same(x[i].as_str(), y[i].as_str()) {
            return part_comes_first(x[i].as_str(), y[i].as_str());
        }
        i += 1;
    }
    i < y.len()
}

/// The paths in their order.
pub fn sort_paths(list: Vec<String>) -> (r: Vec<String>)
    ensures
        paths_in_order(views(r@)),
        views(r@).to_multiset() == views(list@).to_multiset(),
{
    let ghost all = views(list@);
    let mut out: Vec<String> = Vec::new();
    let mut i: usize = 0;
    assert(views(out@) =~= all.take(0));
    while i < list.len()
        invariant
            i <= list@.len(),
            all == views(list@),
            paths_in_order(views(out@)),
            views(out@).to_multiset() == all.take(i as int).to_multiset(),
        decreases list@.len() - i,
    {
        broadcast use vstd::seq_lib::group_to_multiset_ensures;

        assert(all[i as int] == list@[i as int]@);
        assert(all.take(i + 1) =~= all.take(i as int).push(all[i as int]));
        insert_path(&mut out, list[i].clone());
        i += 1;
    }
    assert(all.take(i as int) =~= all);
    out
}

/// Puts a path behind all that do not come after it.
fn insert_path(list: &mut Vec<String>, item: String)
    requires
        paths_in_order(views(old(list)@)),
    ensures
        paths_in_order(views(final(list)@)),
        views(final(list)@).to_multiset() == views(old(list)@).to_multiset().insert(item@),
{
    broadcast use vstd::seq_lib::group_to_multiset_ensures;

    let ghost before = views(list@);
    let mut i: usize = 0;
    while i < list.len() && !path_comes_first(item.as_str(), list[i].as_str())
        invariant
            i <= list@.len(),
            before == views(list@),
            forall|j: int| 0 <= j < i ==> !path_before(item@, #[trigger] before[j]),
        decreases list@.len() - i,
    {
        assert(before[i as int] == list@[i as int]@);
        i += 1;
    }
    assert(i < list@.len() ==> before[i as int] == list@[i as int]@);
    let ghost text = item@;
    let ghost old_list = list@;
    list.insert(i, item);
    let ghost after = views(list@);
    proof {
        assert(after =~= before.insert(i as int, text)) by {
            assert forall|k: int| 0 <= k < after.len() implies after[k] == before.insert(
                i as int,
                text,
            )[k] by {
                assert(after[k] == list@[k]@);
                if k < i {
                    assert(list@[k] == old_list[k]);
                } else if k > i {
                    assert(list@[k] == old_list[k - 1]);
                }
            }
        }
        assert forall|a: int, b: int| 0 <= a < b < after.len() implies !path_before(
            #[trigger] after[b],
            #[trigger] after[a],
        ) by {
            let x = if a < i {
                a
            } else {
                a - 1
            };
            let y = if b < i {
                b
            } else {
                b - 1
            };
            if a == i {
                lemma_path_before(before[y], text, before[i as int]);
                lemma_path_before(text, before[i as int], text);
                lemma_path_before(before[i as int], before[i as int], before[i as int]);
            } else if b != i {
                assert(!path_before(before[y], before[x]));
            }
        }
        vstd::seq_lib::to_multiset_insert(before, i as int, text);
    }
}

/// Paths without those that repeat the one before them.
pub open spec fn without_repeats(s: Seq<Seq<char>>) -> Seq<Seq<char>>
    decreases s.len(),
{
    if s.len() == 0 {
        Seq::empty()
    } else {
        let rest = without_repeats(s.drop_last());
        if rest.len() > 0 && paths::equal_paths(s.last(), rest.last()) {
            rest
        } else {
            rest.push(s.last())
        }
    }
}

/// Whether `r` lists the paths of `s` in order and each once.
pub open spec fn orders_once(s: Seq<Seq<char>>, r: Seq<Seq<char>>) -> bool {
    exists|p: Seq<Seq<char>>| #[trigger]
        paths_in_order(p) && p.to_multiset() == s.to_multiset() && r == without_repeats(p)
}

/// The paths in their order, each once.
pub fn sort_paths_once(list: Vec<String>) -> (r: Vec<String>)
    ensures
        orders_once(views(list@), views(r@)),
{
    let sorted = sort_paths(list);
    let ghost p = views(sorted@);
    let mut out: Vec<String> = Vec::new();
    let mut i: usize = 0;
    assert(views(out@) =~= without_repeats(p.take(0)));
    while i < sorted.len()
        invariant
            i <= sorted@.len(),
            p == views(sorted@),
            views(out@) == without_repeats(p.take(i as int)),
        decreases sorted@.len() - i,
    {
        assert(p.take(i + 1).drop_last() =~= p.take(i as int));
        assert(p[i as int] == sorted@[i as int]@);
        let n: usize = out.len();
        if n > 0 {
            assert(views(out@).last() == out@[n - 1]@);
        }
        if n == 0 || !paths::same_path(sorted[i].as_str(), out[n - 1].as_str()) {
            let ghost before = views(out@);
            out.push(sorted[i].clone());
            assert(views(out@) =~= before.push(p[i as int]));
        }
        i += 1;
    }
    assert(p.take(i as int) =~= p);
    assert(paths_in_order(p));
    out
}

/// Paths that are put in order once are the given paths in their order, without two
/// that are the same beside each other.
pub proof fn law_each_path_stands_once(s: Seq<Seq<char>>, r: Seq<Seq<char>>, x: Seq<char>)
    requires
        orders_once(s, r),
    ensures
        s.contains(x) ==> exists|j: int| 0 <= j < r.len() && paths::equal_paths(x, #[trigger] r[j]),
        r.contains(x) ==> s.contains(x),
        forall|j: int, k: int|
        #![trigger r[j], r[k]]
        0 <= j < r.len() && k == j + 1 && k < r.len() ==> !paths::equal_paths(r[k], r[j]),
        paths_in_order(r),
{
    let p = choose|p: Seq<Seq<char>>| #[trigger]
        paths_in_order(p) && p.to_multiset() == s.to_multiset() && r == without_repeats(p);
    lemma_once(p, x);
    lemma_apart(p);
    lemma_still_in_order(p);
    broadcast use vstd::seq_lib::group_to_multiset_ensures;
    assert(s.contains(x) <==> s.to_multiset().count(x) > 0);
    assert(p.contains(x) <==> p.to_multiset().count(x) > 0);
}

proof fn lemma_once(p: Seq<Seq<char>>, x: Seq<char>)
    ensures
        p.len() > 0 ==> without_repeats(p).len() > 0 && paths::equal_paths(p.last(), without_repeats(p).last()),
        p.contains(x) ==> exists|j: int|
        0 <= j < without_repeats(p).len() && paths::equal_paths(x, #[trigger] without_repeats(p)[j]),
        without_repeats(p).contains(x) ==> p.contains(x),
    decreases p.len(),
{
    if p.len() > 0 {
        let q = p.drop_last();
        let rest = without_repeats(q);
        let r = without_repeats(p);
        lemma_once(q, x);
        if p.contains(x) {
            let i = choose|i: int| 0 <= i < p.len() && p[i] == x;
            if i < q.len() {
                assert(q[i] == x);
                let j = choose|j: int| 0 <= j < rest.len() && paths::equal_paths(x, #[trigger] rest[j]);
                assert(r[j] == rest[j]);
            } else {
                assert(paths::equal_paths(x, r[r.len() - 1]));
            }
        }
        if r.contains(x) {
            let j = choose|j: int| 0 <= j < r.len() && r[j] == x;
            if j < rest.len() {
                assert(rest[j] == x);
                let k = choose|k: int| 0 <= k < q.len() && q[k] == x;
                assert(p[k] == x);
            } else {
                assert(p[p.len() - 1] == x);
            }
        }
    }
}

proof fn lemma_apart(p: Seq<Seq<char>>)
    ensures
        forall|j: int, k: int|
        #![trigger without_repeats(p)[j], without_repeats(p)[k]]
        0 <= j < without_repeats(p).len() && k == j + 1 && k < without_repeats(p).len()
            ==> !paths::equal_paths(without_repeats(p)[k], without_repeats(p)[j]),
    decreases p.len(),
{
    if p.len() > 0 {
        lemma_apart(p.drop_last());
        let rest = without_repeats(p.drop_last());
        let r = without_repeats(p);
        assert forall|j: int, k: int|
            #![trigger r[j], r[k]]
            0 <= j < r.len() && k == j + 1 && k < r.len() implies !paths::equal_paths(r[k], r[j]) by {
            assert(r[j] == rest[j]);
            if k < rest.len() {
                assert(r[k] == rest[k]);
            } else {
                assert(rest.last() == rest[j]);
            }
        }
    }
}

proof fn lemma_still_in_order(p: Seq<Seq<char>>)
    requires
        paths_in_order(p),
    ensures
        paths_in_order(without_repeats(p)),
    decreases p.len(),
{
    if p.len() > 0 {
        let q = p.drop_last();
        let rest = without_repeats(q);
        let r = without_repeats(p);
        assert forall|i: int, j: int| 0 <= i < j < q.len() implies !path_before(
            #[trigger] q[j],
            #[trigger] q[i],
        ) by {
            assert(q[i] == p[i] && q[j] == p[j]);
        }
        lemma_still_in_order(q);
        assert forall|i: int, j: int| 0 <= i < j < r.len() implies !path_before(
            #[trigger] r[j],
            #[trigger] r[i],
        ) by {
            assert(r[i] == rest[i]);
            if j < rest.len() {
                assert(r[j] == rest[j]);
            } else {
                lemma_once(q, rest[i]);
                assert(rest.contains(rest[i]));
                let k = choose|k: int| 0 <= k < q.len() && q[k] == rest[i];
                assert(p[k] == r[i]);
                assert(p[p.len() - 1] == r[j]);
            }
        }
    }
}

/// Texts are ordered by the first character that differs, and a text comes before
/// those that go on from it.
pub proof fn law_first_difference_orders(p: Seq<char>, a: char, b: char, x: Seq<char>, y: Seq<char>)
    ensures
        a < b ==> text_before(p + seq![a] + x, p + seq![b] + y) && !text_before(
            p + seq![b] + y,
            p + seq![a] + x,
        ),
        text_before(p, p + seq![a] + x),
        !text_before(p + seq![a] + x, p),
    decreases p.len(),
{
    let l = p + seq![a] + x;
    let r = p + seq![b] + y;
    if p.len() == 0 {
        assert(l[0] == a && r[0] == b);
    } else {
        assert(l[0] == p[0] && r[0] == p[0]);
        assert(l.skip(1) =~= p.skip(1) + seq![a] + x);
        assert(r.skip(1) =~= p.skip(1) + seq![b] + y);
        law_first_difference_orders(p.skip(1), a, b, x, y);
    }
}

/// Components are ordered by the first that differs, and a list of components comes
/// before those that go on from it. A component that stays comes before one that leads
/// up, and both come before names; names are ordered as texts.
pub proof fn law_first_component_orders(
    p: Seq<Seq<char>>,
    a: Seq<char>,
    b: Seq<char>,
    x: Seq<Seq<char>>,
    y: Seq<Seq<char>>,
)
    ensures
        part_before(a, b) ==> parts_before(p + seq![a] + x, p + seq![b] + y),
        parts_before(p, p + seq![a] + x),
        !parts_before(p + seq![a] + x, p),
        part_before("."@, ".."@),
        a != "."@ && a != ".."@ ==> part_before("."@, a) && part_before(".."@, a),
        a != "."@ && a != ".."@ && b != "."@ && b != ".."@ ==> (part_before(a, b) <==> text_before(a, b)),
    decreases p.len(),
{
    reveal_strlit(".");
    reveal_strlit("..");
    assert("."@.len() != ".."@.len());
    let l = p + seq![a] + x;
    let r = p + seq![b] + y;
    if p.len() == 0 {
        assert(l[0] == a && r[0] == b);
        lemma_part_before(a, b, a);
    } else {
        assert(l[0] == p[0] && r[0] == p[0]);
        assert(l.skip(1) =~= p.skip(1) + seq![a] + x);
        assert(r.skip(1) =~= p.skip(1) + seq![b] + y);
        law_first_component_orders(p.skip(1), a, b, x, y);
    }
}

/// Absolute paths come before the others; otherwise their components order them.
pub proof fn law_absolute_paths_come_first(a: Seq<char>, b: Seq<char>)
    ensures
        paths::absolute(a) && !paths::absolute(b) ==> path_before(a, b) && !path_before(b, a),
        paths::absolute(a) == paths::absolute(b) ==> (path_before(a, b) <==> parts_before(
            paths::parts(a),
            paths::parts(b),
        )),
{
}

} // verus!
