//! Paths as text, read the way Unix paths are read: separators repeat without
//! meaning, `.` stands for nothing except at the start of a relative path.

use crate::seqs::{collect_some, group_views, lemma_collect_step, view_of, views};
use crate::text;
use crate::text::{index_of_char, is_char, pieces};
use vstd::prelude::*;

verus! {

broadcast use group_views;

/// Whether a path starts at the root.
pub open spec fn absolute(s: Seq<char>) -> bool {
    s.len() > 0 && s[0] == '/'
}

/// A piece that names something: neither empty nor `.`.
pub open spec fn if_name() -> spec_fn(Seq<char>) -> Option<Seq<char>> {
    |p: Seq<char>|
        if p.len() == 0 || p == seq!['.'] {
            None
        } else {
            Some(p)
        }
}

/// The names that a path goes through.
pub open spec fn names(s: Seq<char>) -> Seq<Seq<char>> {
    collect_some(pieces(s, is_char('/')), if_name())
}

/// Whether the path begins with a `.` of its own.
pub open spec fn leading_dot(s: Seq<char>) -> bool {
    pieces(s, is_char('/'))[0] == seq!['.']
}

/// The components of a path below the root.
pub open spec fn parts(s: Seq<char>) -> Seq<Seq<char>> {
    if leading_dot(s) {
        seq![seq!['.']] + names(s)
    } else {
        names(s)
    }
}

/// Whether two texts write the same path.
pub open spec fn equal_paths(a: Seq<char>, b: Seq<char>) -> bool {
    absolute(a) == absolute(b) && parts(a) == parts(b)
}

/// Whether the components of `base` lead the components of `path`.
pub open spec fn under(path: Seq<char>, base: Seq<char>) -> bool {
    absolute(path) == absolute(base) && parts(base).is_prefix_of(parts(path))
}

/// The number of components, the root included.
pub open spec fn component_count(s: Seq<char>) -> nat {
    if absolute(s) {
        parts(s).len() + 1
    } else {
        parts(s).len()
    }
}

/// `rest` taken from `base`.
pub open spec fn below(base: Seq<char>, rest: Seq<char>) -> Seq<char> {
    if absolute(rest) {
        rest
    } else if base.len() == 0 || base.last() == '/' {
        base + rest
    } else {
        base.push('/') + rest
    }
}

/// The last component, where it is a name.
pub open spec fn last_name(s: Seq<char>) -> Option<Seq<char>> {
    let p = parts(s);
    if p.len() == 0 || p.last() == seq!['.'] || p.last() == seq!['.', '.'] {
        None
    } else {
        Some(p.last())
    }
}

/// The position of the last dot of a name; -1 where there is none.
pub open spec fn last_dot(s: Seq<char>) -> int
    decreases s.len(),
{
    if s.len() == 0 {
        -1
    } else if s.last() == '.' {
        s.len() - 1
    } else {
        last_dot(s.drop_last())
    }
}

/// What follows the last dot of the last name, where something precedes it.
pub open spec fn extension_of(s: Seq<char>) -> Option<Seq<char>> {
    match last_name(s) {
        Some(n) => if last_dot(n) > 0 {
            Some(n.skip(last_dot(n) + 1))
        } else {
            None
        },
        None => None,
    }
}

/// The last name without its extension.
pub open spec fn stem_of(s: Seq<char>) -> Option<Seq<char>> {
    match last_name(s) {
        Some(n) => if last_dot(n) > 0 {
            Some(n.take(last_dot(n)))
        } else {
            Some(n)
        },
        None => None,
    }
}

/// `Path::is_absolute`.
pub fn is_absolute(s: &str) -> (r: bool)
    ensures
        r == absolute(s@),
{
    let v = text::chars_of(s);
    v.len() > 0 && v[0] == '/'
}

fn is_dot(s: &str) -> (r: bool)
    ensures
        r == (s@ == seq!['.']),
{
    let v = text::chars_of(s);
    let r = v.len() == 1 && v[0] == '.';
    assert(r ==> s@ =~= seq!['.']);
    r
}

fn is_dots(s: &str) -> (r: bool)
    ensures
        r == (s@ == seq!['.', '.']),
{
    let v = text::chars_of(s);
    let r = v.len() == 2 && v[0] == '.' && v[1] == '.';
    assert(r ==> s@ =~= seq!['.', '.']);
    r
}

/// The components of a path below the root, one string each.
pub fn components(s: &str) -> (r: Vec<String>)
    ensures
        views(r@) == parts(s@),
{
    let p = text::split(s, '/');
    let ghost all = pieces(s@, is_char('/'));
    let mut out: Vec<String> = Vec::new();
    let mut i: usize = 0;
    let lead = is_dot(p[0].as_str());
    assert(p[0]@ == views(p@)[0]);
    if lead {
        let mut dot = String::new();
        dot.push('.');
        assert(dot@ =~= seq!['.']);
        out.push(dot);
    }
    let ghost start = views(out@);
    assert(start =~= if lead {
        seq![seq!['.']]
    } else {
        Seq::<Seq<char>>::empty()
    });
    assert(views(out@) =~= start + collect_some(all.take(0), if_name()));
    while i < p.len()
        invariant
            i <= p@.len(),
            views(p@) == all,
            views(out@) == start + collect_some(all.take(i as int), if_name()),
        decreases p@.len() - i,
    {
        proof {
            lemma_collect_step(all, i as int, if_name());
        }
        assert(p@[i as int]@ == all[i as int]);
        let ghost before = views(out@);
        let empty = p[i].as_str().is_empty();
        if !empty && !is_dot(p[i].as_str()) {
            out.push(p[i].clone());
            assert(views(out@) =~= start + collect_some(all.take(i + 1), if_name()));
        }
        i += 1;
    }
    assert(all.take(all.len() as int) =~= all);
    assert(views(out@) =~= parts(s@));
    out
}

/// Whether the first components of `b` are those of `a`.
fn leads(a: &Vec<String>, b: &Vec<String>) -> (r: bool)
    ensures
        r == views(a@).is_prefix_of(views(b@)),
{
    if a.len() > b.len() {
        return false;
    }
    let mut i: usize = 0;
    while i < a.len()
        invariant
            i <= a@.len() <= b@.len(),
            forall|j: int| 0 <= j < i ==> views(a@)[j] == views(b@)[j],
        decreases a@.len() - i,
    {
        if !text::same(a[i].as_str(), b[i].as_str()) {
            assert(views(a@)[i as int] != views(b@).subrange(0, a@.len() as int)[i as int]);
            return false;
        }
        i += 1;
    }
    assert(views(a@) =~= views(b@).subrange(0, a@.len() as int));
    true
}

/// `Path::starts_with`.
pub fn starts_with(path: &str, base: &str) -> (r: bool)
    ensures
        r == under(path@, base@),
{
    let a = components(base);
    let b = components(path);
    is_absolute(path) == is_absolute(base) && leads(&a, &b)
}

/// `Path` equality.
pub fn same_path(a: &str, b: &str) -> (r: bool)
    ensures
        r == equal_paths(a@, b@),
{
    let x = components(a);
    let y = components(b);
    let lead = x.len() == y.len() && leads(&x, &y);
    proof {
        if lead {
            assert(views(x@) =~= views(y@));
        } else if views(x@) == views(y@) {
            assert(x@.len() == views(x@).len() && y@.len() == views(y@).len());
            assert(views(y@) =~= views(y@).subrange(0, views(y@).len() as int));
        }
    }
    is_absolute(a) == is_absolute(b) && lead
}

/// Whether a path equals one of `list`.
pub fn among_paths(path: &str, list: &Vec<String>) -> (r: bool)
    ensures
        r == exists|i: int| 0 <= i < list@.len() && equal_paths(path@, #[trigger] list@[i]@),
{
    let mut i: usize = 0;
    while i < list.len()
        invariant
            i <= list@.len(),
            forall|j: int| 0 <= j < i ==> !equal_paths(path@, #[trigger] list@[j]@),
        decreases list@.len() - i,
    {
        if same_path(path, list[i].as_str()) {
            return true;
        }
        i += 1;
    }
    false
}

/// Whether a path has fewer than `n` components, the root included.
pub fn fewer_components(s: &str, n: usize) -> (r: bool)
    ensures
        r == (component_count(s@) < n),
{
    let c = components(s);
    if is_absolute(s) {
        n > 0 && c.len() < n - 1
    } else {
        c.len() < n
    }
}

/// `Path::join`.
pub fn join(base: &str, rest: &str) -> (r: String)
    ensures
        r@ == below(base@, rest@),
{
    if is_absolute(rest) {
        return rest.to_owned();
    }
    let v = text::chars_of(base);
    let mut r = base.to_owned();
    if v.len() > 0 && v[v.len() - 1] != '/' {
        r.push('/');
    }
    r.append(rest);
    r
}

/// `Path::file_name`.
pub fn file_name(s: &str) -> (r: Option<String>)
    ensures
        view_of(r) == last_name(s@),
{
    let c = components(s);
    if c.len() == 0 {
        return None;
    }
    let n = &c[c.len() - 1];
    assert(n@ == views(c@).last());
    if is_dot(n.as_str()) || is_dots(n.as_str()) {
        None
    } else {
        Some(n.clone())
    }
}

/// Where the last dot of a name stands.
fn find_last_dot(v: &Vec<char>) -> (r: Option<usize>)
    ensures
        match r {
            Some(i) => i < v@.len() && last_dot(v@) == i,
            None => last_dot(v@) == -1,
        },
{
    let mut i: usize = v.len();
    assert(v@.take(v@.len() as int) =~= v@);
    while i > 0
        invariant
            i <= v@.len(),
            last_dot(v@) == last_dot(v@.take(i as int)),
        decreases i,
    {
        assert(v@.take(i as int).drop_last() =~= v@.take(i - 1));
        if v[i - 1] == '.' {
            return Some(i - 1);
        }
        i -= 1;
    }
    None
}

/// The last name of a path; empty where it has none.
pub open spec fn name_of(s: Seq<char>) -> Seq<char> {
    text::or_empty(last_name(s))
}

pub fn name_or_empty(s: &str) -> (r: String)
    ensures
        r@ == name_of(s@),
{
    text::text_or_empty(file_name(s))
}

/// `Path::extension`.
pub fn extension(s: &str) -> (r: Option<String>)
    ensures
        view_of(r) == extension_of(s@),
{
    match file_name(s) {
        Some(n) => {
            let v = text::chars_of(n.as_str());
            match find_last_dot(&v) {
                Some(i) => {
                    if i > 0 {
                        assert(v@.subrange(i + 1, v@.len() as int) =~= v@.skip(i + 1));
                        let end: usize = v.len();
                        Some(text::text_of(&v, i + 1, end))
                    } else {
                        None
                    }
                },
                None => None,
            }
        },
        None => None,
    }
}

/// `Path::file_stem`.
pub fn file_stem(s: &str) -> (r: Option<String>)
    ensures
        view_of(r) == stem_of(s@),
{
    match file_name(s) {
        Some(n) => {
            let v = text::chars_of(n.as_str());
            match find_last_dot(&v) {
                Some(i) => {
                    if i > 0 {
                        assert(v@.subrange(0, i as int) =~= v@.take(i as int));
                        Some(text::text_of(&v, 0, i))
                    } else {
                        Some(n)
                    }
                },
                None => Some(n),
            }
        },
        None => None,
    }
}

/// `s` without the separators and the `.` components that lead it.
pub open spec fn without_lead(s: Seq<char>) -> Seq<char>
    decreases s.len(),
{
    if s.len() > 0 && (s[0] == '/' || (s[0] == '.' && (s.len() == 1 || s[1] == '/'))) {
        without_lead(s.skip(1))
    } else {
        s
    }
}

/// `s` without the separators and the `.` components that trail it.
pub open spec fn without_trail(s: Seq<char>) -> Seq<char>
    decreases s.len(),
{
    if s.len() > 0 && (s.last() == '/' || (s.last() == '.' && (s.len() == 1 || s[s.len() - 2]
        == '/'))) {
        without_trail(s.drop_last())
    } else {
        s
    }
}

/// What is left of the text of a path behind its first `n` names.
pub open spec fn after_names(s: Seq<char>, n: nat) -> Seq<char>
    decreases n,
{
    let t = without_lead(s);
    if n == 0 {
        t
    } else {
        after_names(t.skip(index_of_char(t, '/')), (n - 1) as nat)
    }
}

/// The text of `path` behind `base`.
pub open spec fn relative_to(path: Seq<char>, base: Seq<char>) -> Option<Seq<char>> {
    if under(path, base) {
        Some(without_trail(after_names(path, names(base).len())))
    } else {
        None
    }
}

fn skip_lead(v: &Vec<char>, from: usize) -> (r: usize)
    requires
        from <= v@.len(),
    ensures
        from <= r <= v@.len(),
        v@.skip(r as int) == without_lead(v@.skip(from as int)),
{
    let mut i: usize = from;
    while i < v.len() && (v[i] == '/' || (v[i] == '.' && (i == v.len() - 1 || v[i + 1] == '/')))
        invariant
            from <= i <= v@.len(),
            without_lead(v@.skip(from as int)) == without_lead(v@.skip(i as int)),
        decreases v@.len() - i,
    {
        assert(v@.skip(i as int).skip(1) =~= v@.skip(i + 1));
        assert(v@.skip(i as int)[0] == v@[i as int]);
        assert(i + 1 < v@.len() ==> v@.skip(i as int)[1] == v@[i + 1]);
        i += 1;
    }
    assert(i < v@.len() ==> v@.skip(i as int)[0] == v@[i as int]);
    assert(i + 1 < v@.len() ==> v@.skip(i as int)[1] == v@[i + 1]);
    i
}

fn skip_names(v: &Vec<char>, from: usize, n: usize) -> (r: usize)
    requires
        from <= v@.len(),
    ensures
        from <= r <= v@.len(),
        v@.skip(r as int) == after_names(v@.skip(from as int), n as nat),
    decreases n,
{
    let start = skip_lead(v, from);
    if n == 0 {
        return start;
    }
    let ghost t = v@.skip(start as int);
    let mut i: usize = start;
    while i < v.len() && v[i] != '/'
        invariant
            start <= i <= v@.len(),
            t == v@.skip(start as int),
            forall|j: int| 0 <= j < i - start ==> t[j] != '/',
        decreases v@.len() - i,
    {
        assert(t[i - start] == v@[i as int]);
        i += 1;
    }
    proof {
        assert(i < v@.len() ==> t[i - start] == v@[i as int]);
        text::lemma_index_of_char(t, '/', i - start);
        assert(t.skip(i - start) =~= v@.skip(i as int));
    }
    skip_names(v, i, n - 1)
}

/// `Path::strip_prefix`, as text.
#[verifier::spinoff_prover]
#[verifier::rlimit(60)]
pub fn strip_prefix(path: &str, base: &str) -> (r: Option<String>)
    ensures
        view_of(r) == relative_to(path@, base@),
{
    if !starts_with(path, base) {
        return None;
    }
    let c = components(base);
    let n: usize = if is_dot_led(base) {
        c.len() - 1
    } else {
        c.len()
    };
    assert(n == names(base@).len()) by {
        assert(parts(base@).len() == c@.len());
    }
    let v = text::chars_of(path);
    assert(v@.skip(0) =~= v@);
    let start = skip_names(&v, 0, n);
    let ghost t = v@.skip(start as int);
    let mut j: usize = v.len();
    assert(t.take(t.len() as int) =~= t);
    while j > start && (v[j - 1] == '/' || (v[j - 1] == '.' && (j - 1 == start || v[j - 2] == '/')))
        invariant
            start <= j <= v@.len(),
            t == v@.skip(start as int),
            without_trail(t) == without_trail(t.take(j - start)),
        decreases j,
    {
        let ghost u = t.take(j - start);
        assert(u.drop_last() =~= t.take(j - start - 1));
        assert(u.last() == v@[j - 1]);
        assert(j - 2 >= start ==> u[u.len() - 2] == v@[j - 2]);
        j -= 1;
    }
    proof {
        let u = t.take(j - start);
        assert(j > start ==> u.last() == v@[j - 1]);
        assert(j - 2 >= start ==> u[u.len() - 2] == v@[j - 2]);
        assert(v@.subrange(start as int, j as int) =~= u);
    }
    Some(text::text_of(&v, start, j))
}

fn is_dot_led(s: &str) -> (r: bool)
    ensures
        r == leading_dot(s@),
{
    let p = text::split(s, '/');
    assert(p[0]@ == views(p@)[0]);
    is_dot(p[0].as_str())
}

/// How much of a path stands before its last name: up to the last separator.
pub open spec fn dir_len(s: Seq<char>) -> nat
    decreases s.len(),
{
    if s.len() == 0 {
        0
    } else if s.last() == '/' {
        s.len()
    } else {
        dir_len(s.drop_last())
    }
}

/// The path without its last component; nothing for a root and the empty path.
pub open spec fn parent_of(s: Seq<char>) -> Option<Seq<char>> {
    if parts(s).len() == 0 {
        None
    } else if names(s).len() == 0 {
        Some(Seq::empty())
    } else {
        let t = without_trail(s);
        let dir = without_trail(t.take(dir_len(t) as int));
        if dir.len() > 0 {
            Some(dir)
        } else if absolute(s) {
            Some("/"@)
        } else if leading_dot(s) {
            Some("."@)
        } else {
            Some(Seq::empty())
        }
    }
}

fn trail_start(v: &Vec<char>, n: usize) -> (r: usize)
    requires
        n <= v@.len(),
    ensures
        r <= n,
        v@.take(r as int) == without_trail(v@.take(n as int)),
{
    let ghost t = v@.take(n as int);
    let mut j: usize = n;
    assert(t.take(n as int) =~= t);
    while j > 0 && (v[j - 1] == '/' || (v[j - 1] == '.' && (j == 1 || v[j - 2] == '/')))
        invariant
            j <= n <= v@.len(),
            t == v@.take(n as int),
            without_trail(t) == without_trail(t.take(j as int)),
        decreases j,
    {
        let ghost u = t.take(j as int);
        assert(u.drop_last() =~= t.take(j - 1));
        assert(u.last() == v@[j - 1]);
        assert(j >= 2 ==> u[u.len() - 2] == v@[j - 2]);
        j -= 1;
    }
    proof {
        let u = t.take(j as int);
        assert(j > 0 ==> u.last() == v@[j - 1]);
        assert(j >= 2 ==> u[u.len() - 2] == v@[j - 2]);
        assert(v@.take(j as int) =~= u);
    }
    j
}

/// `Path::parent`, as text.
pub fn parent(s: &str) -> (r: Option<String>)
    ensures
        view_of(r) == parent_of(s@),
{
    let c = components(s);
    if c.len() == 0 {
        assert(parts(s@).len() == c@.len());
        return None;
    }
    assert(parts(s@).len() == c@.len());
    let dotted = is_dot_led(s);
    if dotted && c.len() == 1 {
        let r = String::new();
        assert(r@ =~= Seq::<char>::empty());
        return Some(r);
    }
    let v = text::chars_of(s);
    let n: usize = v.len();
    assert(v@.take(n as int) =~= s@);
    let end = trail_start(&v, n);
    let ghost t = without_trail(s@);
    let mut k: usize = end;
    assert(t.take(end as int) =~= t);
    while k > 0 && v[k - 1] != '/'
        invariant
            k <= end <= v@.len(),
            t == v@.take(end as int),
            dir_len(t) == dir_len(t.take(k as int)),
        decreases k,
    {
        assert(t.take(k as int).drop_last() =~= t.take(k - 1));
        assert(t.take(k as int).last() == v@[k - 1]);
        k -= 1;
    }
    proof {
        assert(k > 0 ==> t.take(k as int).last() == v@[k - 1]);
        assert(t.take(k as int) =~= v@.take(k as int));
    }
    let d = trail_start(&v, k);
    if d > 0 {
        assert(v@.subrange(0, d as int) =~= v@.take(d as int));
        Some(text::text_of(&v, 0, d))
    } else if is_absolute(s) {
        Some("/".to_owned())
    } else if dotted {
        Some(".".to_owned())
    } else {
        let r = String::new();
        assert(r@ =~= Seq::<char>::empty());
        Some(r)
    }
}

proof fn lemma_without_trail(s: Seq<char>)
    ensures
        without_trail(s).len() <= s.len(),
        without_trail(s).len() > 0 ==> without_trail(s).last() != '/',
    decreases s.len(),
{
    if s.len() > 0 {
        lemma_without_trail(s.drop_last());
    }
}

proof fn lemma_dir_len(s: Seq<char>)
    ensures
        dir_len(s) <= s.len(),
        s.len() > 0 && s.last() != '/' ==> dir_len(s) < s.len(),
    decreases s.len(),
{
    if s.len() > 0 {
        lemma_dir_len(s.drop_last());
    }
}

/// What a path lies in is written shorter than the path: the way up ends.
pub proof fn law_parent_is_shorter(s: Seq<char>)
    ensures
        parent_of(s) matches Some(p) ==> p.len() < s.len(),
{
    reveal_with_fuel(pieces, 3);
    reveal_with_fuel(collect_some, 4);
    if s.len() == 0 {
        assert(s =~= Seq::<char>::empty());
        assert(pieces(s, is_char('/')) =~= seq![Seq::<char>::empty()]);
        let p = pieces(s, is_char('/'));
        assert(p.drop_last() =~= Seq::<Seq<char>>::empty());
        assert(names(s) =~= Seq::<Seq<char>>::empty());
        assert(p[0].len() == 0);
        assert(parts(s).len() == 0);
    } else if names(s).len() > 0 {
        let t = without_trail(s);
        lemma_without_trail(s);
        lemma_dir_len(t);
        lemma_without_trail(t.take(dir_len(t) as int));
        reveal_strlit("/");
        reveal_strlit(".");
        if s.len() == 1 && (s[0] == '/' || s[0] == '.') {
            let p = pieces(s, is_char('/'));
            let e = Seq::<char>::empty();
            assert(s.drop_last() =~= e);
            assert(pieces(e, is_char('/')) =~= seq![e]);
            if s[0] == '/' {
                assert(p =~= seq![e, e]);
                assert(p.drop_last() =~= seq![e]);
                assert(p.drop_last().drop_last() =~= Seq::<Seq<char>>::empty());
            } else {
                assert(p =~= seq![seq!['.']]) by {
                    assert(text::extend_last(seq![e], '.') =~= seq![e.push('.')]);
                    assert(e.push('.') =~= seq!['.']);
                }
                assert(p.drop_last() =~= Seq::<Seq<char>>::empty());
            }
            assert(names(s).len() == 0);
        }
        if leading_dot(s) && s.len() == 1 {
            let p = pieces(s, is_char('/'));
            let e = Seq::<char>::empty();
            assert(s.drop_last() =~= e);
            assert(pieces(e, is_char('/')) =~= seq![e]);
            if s[0] != '/' {
                assert(p =~= seq![e.push(s[0])]) by {
                    assert(text::extend_last(seq![e], s[0]) =~= seq![e.push(s[0])]);
                }
                assert(p[0][0] == '.');
            }
        }
    }
}

/// A path with all that it lies in, from the path itself up.
pub open spec fn ancestors(s: Seq<char>) -> Seq<Seq<char>>
    decreases s.len(),
{
    proof {
        law_parent_is_shorter(s);
    }
    match parent_of(s) {
        Some(p) => seq![s] + ancestors(p),
        None => seq![s],
    }
}

/// A path with all that it lies in, from the path itself up.
pub fn ancestor_paths(s: &str) -> (r: Vec<String>)
    ensures
        views(r@) == ancestors(s@),
{
    let mut current = s.to_owned();
    let mut r: Vec<String> = Vec::new();
    assert(views(r@) + ancestors(current@) =~= ancestors(s@));
    loop
        invariant
            views(r@) + ancestors(current@) == ancestors(s@),
        decreases current@.len(),
    {
        let ghost before = views(r@);
        proof {
            law_parent_is_shorter(current@);
        }
        r.push(current.clone());
        match parent(current.as_str()) {
            Some(p) => {
                assert(before + (seq![current@] + ancestors(p@)) =~= before.push(current@) + ancestors(p@));
                current = p;
            },
            None => {
                assert(before + seq![current@] =~= before.push(current@));
                return r;
            },
        }
    }
}

// ---- what the paths of the file system satisfy ----

/// A path lies under itself.
pub proof fn law_under_reflexive(a: Seq<char>)
    ensures
        under(a, a),
{
    assert(parts(a) =~= parts(a).subrange(0, parts(a).len() as int));
}

/// What lies under a path that lies under a third lies under the third.
pub proof fn law_under_transitive(a: Seq<char>, b: Seq<char>, c: Seq<char>)
    requires
        under(a, b),
        under(b, c),
    ensures
        under(a, c),
{
    assert(parts(c) =~= parts(a).subrange(0, parts(c).len() as int)) by {
        assert forall|i: int| 0 <= i < parts(c).len() implies parts(c)[i] == parts(a)[i] by {
            assert(parts(c)[i] == parts(b).subrange(0, parts(c).len() as int)[i]);
            assert(parts(b)[i] == parts(a).subrange(0, parts(b).len() as int)[i]);
        }
    }
}

proof fn lemma_plain_piece(name: Seq<char>)
    requires
        !name.contains('/'),
    ensures
        pieces(name, is_char('/')) == seq![name],
    decreases name.len(),
{
    if name.len() > 0 {
        let less = name.drop_last();
        assert forall|i: int| 0 <= i < less.len() implies less[i] != '/' by {
            assert(name[i] == less[i]);
            if name[i] == '/' {
                assert(name.contains('/'));
            }
        }
        assert(!less.contains('/'));
        lemma_plain_piece(less);
        assert(name[name.len() - 1] == name.last());
        assert(name.last() != '/');
        let one = seq![less];
        assert(one.last() == less);
        assert(name =~= less.push(name.last()));
        assert(!is_char('/')(name.last()));
        assert(pieces(name, is_char('/')) == text::extend_last(one, name.last()));
        assert(pieces(name, is_char('/')) =~= seq![name]);
    } else {
        assert(name =~= Seq::<char>::empty());
    }
}

proof fn lemma_names_add(a: Seq<char>, b: Seq<char>)
    ensures
        names(a.push('/') + b) == names(a) + names(b),
        leading_dot(a.push('/') + b) == leading_dot(a),
{
    text::law_pieces_add(a, '/', b, is_char('/'));
    text::lemma_pieces_nonempty(a, is_char('/'));
    crate::seqs::law_collecting_adds(pieces(a, is_char('/')), pieces(b, is_char('/')), if_name());
}

/// Something named below a directory has the components of the directory and its own
/// name as the last one: it lies below the directory, is one deeper and is no path
/// that the directory lies below.
pub proof fn law_names_below(base: Seq<char>, name: Seq<char>)
    requires
        base.len() > 0,
        name.len() > 0,
        !name.contains('/'),
        name != seq!['.'],
    ensures
        parts(below(base, name)) == parts(base).push(name),
        component_count(below(base, name)) == component_count(base) + 1,
        under(below(base, name), base),
        !under(base, below(base, name)),
        !equal_paths(base, below(base, name)),
        name != seq!['.', '.'] ==> last_name(below(base, name)) == Some(name),
{
    let whole = below(base, name);
    assert(name[0] != '/') by {
        if name[0] == '/' {
            assert(name.contains('/'));
        }
    }
    lemma_plain_piece(name);
    let one = pieces(name, is_char('/'));
    assert(one.drop_last() =~= Seq::<Seq<char>>::empty());
    reveal_with_fuel(collect_some, 2);
    assert(names(name) =~= seq![name]);
    if base.last() == '/' {
        let b = base.drop_last();
        assert(whole =~= b.push('/') + name);
        assert(base =~= b.push('/') + Seq::<char>::empty());
        lemma_names_add(b, name);
        lemma_names_add(b, Seq::empty());
        lemma_plain_piece(Seq::empty());
        let none = pieces(Seq::<char>::empty(), is_char('/'));
        assert(none.drop_last() =~= Seq::<Seq<char>>::empty());
        assert(names(Seq::<char>::empty()) =~= Seq::<Seq<char>>::empty());
        assert(names(base) =~= names(b));
    } else {
        lemma_names_add(base, name);
    }
    assert(whole[0] == base[0]);
    assert(parts(whole) =~= parts(base).push(name));
}

/// A path counts one component more where it begins at the root.
pub proof fn law_components_are_counted(s: Seq<char>)
    ensures
        component_count(s) == parts(s).len() + if s.len() > 0 && s[0] == '/' {
            1int
        } else {
            0
        },
{
}

/// Two paths are the same exactly where each lies below the other.
pub proof fn law_same_paths_lie_below_each_other(a: Seq<char>, b: Seq<char>)
    ensures
        equal_paths(a, b) <==> under(a, b) && under(b, a),
{
    if under(a, b) && under(b, a) {
        assert(parts(a) =~= parts(b));
    }
}

/// What lies below a path is at least as deep, and a path that begins at the root
/// lies below none that does not.
pub proof fn law_below_is_deeper(path: Seq<char>, base: Seq<char>)
    requires
        under(path, base),
    ensures
        component_count(path) >= component_count(base),
        (path.len() > 0 && path[0] == '/') == (base.len() > 0 && base[0] == '/'),
        forall|i: int| 0 <= i < parts(base).len() ==> #[trigger] parts(base)[i] == parts(path)[i],
{
}

/// A name is a stem and an extension with a dot between them, where it has an
/// extension; a name without one is all stem.
pub proof fn law_names_are_stem_and_extension(s: Seq<char>)
    ensures
        match (stem_of(s), extension_of(s)) {
            (Some(a), Some(b)) => a.len() > 0 && !b.contains('.') && last_name(s) == Some(
                a.push('.') + b,
            ),
            (Some(a), None) => last_name(s) == Some(a),
            (None, None) => last_name(s) is None,
            (None, Some(b)) => false,
        },
{
    if let Some(n) = last_name(s) {
        lemma_last_dot_is_last(n);
        if last_dot(n) > 0 {
            let d = last_dot(n);
            assert(n =~= n.take(d).push('.') + n.skip(d + 1));
            let ext = n.skip(d + 1);
            if ext.contains('.') {
                let j = choose|j: int| 0 <= j < ext.len() && ext[j] == '.';
                assert(n[d + 1 + j] == '.');
            }
        }
    }
}

proof fn lemma_last_dot_is_last(s: Seq<char>)
    ensures
        -1 <= last_dot(s) < s.len(),
        last_dot(s) >= 0 ==> s[last_dot(s)] == '.',
        forall|i: int| last_dot(s) < i < s.len() ==> s[i] != '.',
    decreases s.len(),
{
    if s.len() > 0 && s.last() != '.' {
        lemma_last_dot_is_last(s.drop_last());
        let d = last_dot(s);
        assert forall|i: int| d < i < s.len() implies s[i] != '.' by {
            if i < s.len() - 1 {
                assert(s.drop_last()[i] == s[i]);
            }
        }
        if d >= 0 {
            assert(s.drop_last()[d] == s[d]);
        }
    }
}

} // verus!
