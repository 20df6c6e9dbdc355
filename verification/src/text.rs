//! Text: the operations on strings that the analyses are made of, each stated
//! over the sequence of characters.

use crate::seqs::{group_views, views};
use vstd::prelude::*;
use vstd::utf8::{decode_utf8, is_ascii_chars, valid_utf8};

verus! {

broadcast use group_views;

/// `String::push` appends one character.
pub assume_specification[ String::push ](s: &mut String, c: char)
    ensures
        final(s)@ == old(s)@.push(c),
;

/// The characters of a string.
pub fn chars_of(s: &str) -> (v: Vec<char>)
    ensures
        v@ == s@,
{
    let mut v: Vec<char> = Vec::new();
    for c in it: s.chars()
        invariant
            it.seq() == s@,
            v@ == s@.take(it.index() as int),
    {
        v.push(c);
        assert(s@.take(it.index() + 1) =~= s@.take(it.index() as int).push(s@[it.index() as int]));
    }
    assert(s@.take(s@.len() as int) =~= s@);
    v
}

/// The characters of `v` from `from` up to `to`, as a string.
pub fn text_of(v: &Vec<char>, from: usize, to: usize) -> (s: String)
    requires
        from <= to <= v@.len(),
    ensures
        s@ == v@.subrange(from as int, to as int),
{
    let mut s = String::new();
    let mut i: usize = from;
    assert(s@ =~= v@.subrange(from as int, from as int));
    while i < to
        invariant
            from <= i <= to <= v@.len(),
            s@ == v@.subrange(from as int, i as int),
        decreases to - i,
    {
        s.push(v[i]);
        assert(v@.subrange(from as int, i + 1) =~= v@.subrange(from as int, i as int).push(
            v@[i as int],
        ));
        i += 1;
    }
    s
}

/// Whether two strings hold the same characters.
pub fn same(a: &str, b: &str) -> (r: bool)
    ensures
        r == (a@ == b@),
{
    let left: String = a.to_owned();
    let right: String = b.to_owned();
    left == right
}

/// Whether `s` is one of `list`.
pub fn among(s: &str, list: &Vec<String>) -> (r: bool)
    ensures
        r == views(list@).contains(s@),
{
    let mut i: usize = 0;
    while i < list.len()
        invariant
            i <= list@.len(),
            forall|j: int| 0 <= j < i ==> views(list@)[j] != s@,
        decreases list@.len() - i,
    {
        if same(list[i].as_str(), s) {
            assert(views(list@)[i as int] == s@);
            return true;
        }
        i += 1;
    }
    false
}

/// A copy of a vector of strings.
pub fn copy_texts(list: &Vec<String>) -> (r: Vec<String>)
    ensures
        views(r@) == views(list@),
{
    let mut r: Vec<String> = Vec::new();
    let mut i: usize = 0;
    while i < list.len()
        invariant
            i <= list@.len(),
            views(r@) == views(list@.take(i as int)),
        decreases list@.len() - i,
    {
        r.push(list[i].clone());
        assert(list@.take(i + 1) =~= list@.take(i as int).push(list@[i as int]));
        i += 1;
    }
    assert(list@.take(list@.len() as int) =~= list@);
    r
}

/// A copy of an optional string.
pub fn copy_opt(s: &Option<String>) -> (r: Option<String>)
    ensures
        r == *s,
{
    match s {
        Some(t) => Some(t.clone()),
        None => None,
    }
}

// ---- prefixes, suffixes and substrings ----

/// Whether `needle` stands in `s` at position `i`.
pub open spec fn stands_at(s: Seq<char>, needle: Seq<char>, i: int) -> bool {
    &&& 0 <= i
    &&& i + needle.len() <= s.len()
    &&& s.subrange(i, i + needle.len()) == needle
}

/// Whether `needle` occurs somewhere in `s`.
pub open spec fn occurs(s: Seq<char>, needle: Seq<char>) -> bool {
    exists|i: int| stands_at(s, needle, i)
}

/// Whether `s` begins with `p`.
pub open spec fn begins(s: Seq<char>, p: Seq<char>) -> bool {
    stands_at(s, p, 0)
}

/// Whether `s` ends with `p`.
pub open spec fn ends(s: Seq<char>, p: Seq<char>) -> bool {
    stands_at(s, p, s.len() - p.len())
}

fn stands(v: &Vec<char>, n: &Vec<char>, i: usize) -> (r: bool)
    requires
        i + n@.len() <= v@.len(),
    ensures
        r == stands_at(v@, n@, i as int),
{
    let total: usize = v.len();
    let mut k: usize = 0;
    while k < n.len()
        invariant
            k <= n@.len(),
            total == v@.len(),
            i + n@.len() <= v@.len(),
            forall|j: int| 0 <= j < k ==> v@[i + j] == n@[j],
        decreases n@.len() - k,
    {
        if v[i + k] != n[k] {
            assert(v@.subrange(i as int, i + n@.len())[k as int] != n@[k as int]);
            return false;
        }
        k += 1;
    }
    assert(v@.subrange(i as int, i + n@.len()) =~= n@);
    true
}

/// `str::starts_with`.
pub fn starts_with(s: &str, p: &str) -> (r: bool)
    ensures
        r == begins(s@, p@),
{
    let v = chars_of(s);
    let n = chars_of(p);
    if n.len() <= v.len() {
        stands(&v, &n, 0)
    } else {
        false
    }
}

/// `str::ends_with`.
pub fn ends_with(s: &str, p: &str) -> (r: bool)
    ensures
        r == ends(s@, p@),
{
    let v = chars_of(s);
    let n = chars_of(p);
    if n.len() <= v.len() {
        stands(&v, &n, v.len() - n.len())
    } else {
        false
    }
}

/// `str::contains`, for a string.
pub fn contains(s: &str, needle: &str) -> (r: bool)
    ensures
        r == occurs(s@, needle@),
{
    let v = chars_of(s);
    let n = chars_of(needle);
    if n.len() > v.len() {
        return false;
    }
    let last: usize = v.len() - n.len();
    let mut i: usize = 0;
    while i <= last
        invariant
            v@ == s@,
            n@ == needle@,
            n@.len() <= v@.len(),
            last == v@.len() - n@.len(),
            i <= last + 1,
            forall|j: int| 0 <= j < i ==> !stands_at(v@, n@, j),
        decreases last + 1 - i,
    {
        if stands(&v, &n, i) {
            return true;
        }
        if i == last {
            return false;
        }
        i += 1;
    }
    false
}

/// What follows the prefix `p` of `s`.
pub open spec fn without_prefix(s: Seq<char>, p: Seq<char>) -> Option<Seq<char>> {
    if begins(s, p) {
        Some(s.skip(p.len() as int))
    } else {
        None
    }
}

/// What precedes the suffix `p` of `s`.
pub open spec fn without_suffix(s: Seq<char>, p: Seq<char>) -> Option<Seq<char>> {
    if ends(s, p) {
        Some(s.take(s.len() - p.len()))
    } else {
        None
    }
}

/// `str::strip_prefix`.
pub fn strip_prefix(s: &str, p: &str) -> (r: Option<String>)
    ensures
        crate::seqs::view_of(r) == without_prefix(s@, p@),
{
    let v = chars_of(s);
    let n = chars_of(p);
    if n.len() <= v.len() && stands(&v, &n, 0) {
        assert(v@.subrange(n@.len() as int, v@.len() as int) =~= v@.skip(n@.len() as int));
        Some(text_of(&v, n.len(), v.len()))
    } else {
        None
    }
}

/// `str::strip_suffix`.
pub fn strip_suffix(s: &str, p: &str) -> (r: Option<String>)
    ensures
        crate::seqs::view_of(r) == without_suffix(s@, p@),
{
    let v = chars_of(s);
    let n = chars_of(p);
    if n.len() <= v.len() && stands(&v, &n, v.len() - n.len()) {
        assert(v@.subrange(0, v@.len() - n@.len()) =~= v@.take(v@.len() - n@.len()));
        Some(text_of(&v, 0, v.len() - n.len()))
    } else {
        None
    }
}

/// Where `needle` first stands in `s`.
pub open spec fn first_at(s: Seq<char>, needle: Seq<char>) -> Option<int>
    decreases s.len(),
{
    if begins(s, needle) {
        Some(0)
    } else if s.len() == 0 {
        None
    } else {
        match first_at(s.skip(1), needle) {
            Some(i) => Some(i + 1),
            None => None,
        }
    }
}

/// The two sides of the first `sep` in `s`.
pub open spec fn halves_at(s: Seq<char>, sep: Seq<char>) -> Option<(Seq<char>, Seq<char>)> {
    match first_at(s, sep) {
        Some(i) => Some((s.take(i), s.skip(i + sep.len()))),
        None => None,
    }
}

fn stands_here(v: &Vec<char>, i: usize, needle: &Vec<char>) -> (r: bool)
    requires
        i <= v@.len(),
    ensures
        r == begins(v@.skip(i as int), needle@),
{
    let n: usize = v.len();
    if n - i < needle.len() {
        return false;
    }
    let ghost s = v@.skip(i as int);
    let mut j: usize = 0;
    while j < needle.len()
        invariant
            j <= needle@.len(),
            n == v@.len(),
            i + needle@.len() <= n,
            s == v@.skip(i as int),
            forall|k: int| 0 <= k < j ==> s[k] == #[trigger] needle@[k],
        decreases needle@.len() - j,
    {
        if v[i + j] != needle[j] {
            assert(s[j as int] != needle@[j as int]);
            assert(s.take(needle@.len() as int)[j as int] == s[j as int]);
            return false;
        }
        assert(s[j as int] == v@[i + j]);
        j += 1;
    }
    assert(s.take(needle@.len() as int) =~= needle@);
    true
}

/// `str::split_once`, for a text.
pub fn split_once_at(s: &str, sep: &str) -> (r: Option<(String, String)>)
    ensures
        match r {
            Some(p) => halves_at(s@, sep@) == Some((p.0@, p.1@)),
            None => halves_at(s@, sep@) is None,
        },
{
    let v = chars_of(s);
    let n = chars_of(sep);
    let mut i: usize = 0;
    assert(v@.skip(0) =~= s@);
    while i <= v.len()
        invariant
            i <= v@.len() + 1,
            v@ == s@,
            n@ == sep@,
            i <= v@.len() ==> first_at(s@, sep@) == (match first_at(v@.skip(i as int), sep@) {
                Some(k) => Some(k + i),
                None => None,
            }),
            i > v@.len() ==> first_at(s@, sep@) is None,
        decreases v@.len() + 1 - i,
    {
        if stands_here(&v, i, &n) {
            assert(v@.subrange(0, i as int) =~= s@.take(i as int));
            let b: usize = i + n.len();
            assert(v@.subrange(b as int, v@.len() as int) =~= s@.skip(i + sep@.len()));
            let len: usize = v.len();
            return Some((text_of(&v, 0, i), text_of(&v, b, len)));
        }
        if i == v.len() {
            return None;
        }
        assert(v@.skip(i as int).skip(1) =~= v@.skip(i + 1));
        i += 1;
    }
    None
}

/// `s` with every `from` in it, read from the left, replaced by `to`.
pub open spec fn replaced_text(s: Seq<char>, from: Seq<char>, to: Seq<char>) -> Seq<char>
    decreases s.len(),
{
    if s.len() == 0 {
        Seq::empty()
    } else if from.len() > 0 && begins(s, from) {
        to + replaced_text(s.skip(from.len() as int), from, to)
    } else {
        seq![s[0]] + replaced_text(s.skip(1), from, to)
    }
}

/// `str::replace`, for a text that is not empty.
pub fn replace_text(s: &str, from: &str, to: &str) -> (r: String)
    requires
        from@.len() > 0,
    ensures
        r@ == replaced_text(s@, from@, to@),
{
    let v = chars_of(s);
    let n = chars_of(from);
    let mut r = String::new();
    let mut i: usize = 0;
    assert(v@.skip(0) =~= s@);
    assert(r@ + replaced_text(v@.skip(0), from@, to@) =~= replaced_text(s@, from@, to@));
    while i < v.len()
        invariant
            i <= v@.len(),
            n@ == from@,
            from@.len() > 0,
            r@ + replaced_text(v@.skip(i as int), from@, to@) == replaced_text(s@, from@, to@),
        decreases v@.len() - i,
    {
        let ghost before = r@;
        let ghost rest = v@.skip(i as int);
        if stands_here(&v, i, &n) {
            r.append(to);
            assert(rest.skip(from@.len() as int) =~= v@.skip(i + from@.len()));
            let ghost tail = replaced_text(v@.skip(i + from@.len()), from@, to@);
            assert(before + (to@ + tail) =~= (before + to@) + tail);
            i += n.len();
        } else {
            r.push(v[i]);
            assert(rest.skip(1) =~= v@.skip(i + 1));
            let ghost tail = replaced_text(v@.skip(i + 1), from@, to@);
            assert(before + (seq![rest[0]] + tail) =~= before.push(v@[i as int]) + tail);
            i += 1;
        }
    }
    assert(replaced_text(v@.skip(i as int), from@, to@) =~= Seq::<char>::empty());
    assert(r@ + Seq::<char>::empty() =~= r@);
    r
}

/// `s` without `p` as often as it leads `s`.
pub open spec fn without_leading(s: Seq<char>, p: Seq<char>) -> Seq<char>
    decreases s.len(),
{
    if p.len() > 0 && begins(s, p) {
        without_leading(s.skip(p.len() as int), p)
    } else {
        s
    }
}

/// `str::trim_start_matches`, for a text.
pub fn strip_leading(s: &str, p: &str) -> (r: String)
    ensures
        r@ == without_leading(s@, p@),
{
    let mut cur = s.to_owned();
    if p.is_empty() {
        return cur;
    }
    loop
        invariant
            p@.len() > 0,
            without_leading(s@, p@) == without_leading(cur@, p@),
        decreases cur@.len(),
    {
        match strip_prefix(cur.as_str(), p) {
            Some(rest) => {
                cur = rest;
            },
            None => {
                return cur;
            },
        }
    }
}

/// An optional text, as characters.
pub open spec fn shown(s: Option<&str>) -> Option<Seq<char>> {
    match s {
        Some(t) => Some(t@),
        None => None,
    }
}

/// A text, or the empty one where there is none.
pub open spec fn or_empty(s: Option<Seq<char>>) -> Seq<char> {
    match s {
        Some(t) => t,
        None => Seq::empty(),
    }
}

pub fn text_or_empty(s: Option<String>) -> (r: String)
    ensures
        r@ == or_empty(match s {
            Some(t) => Some(t@),
            None => None,
        }),
{
    match s {
        Some(t) => t,
        None => {
            let r = String::new();
            assert(r@ =~= Seq::<char>::empty());
            r
        },
    }
}

/// The position of the first `c` in `s`; its length where there is none.
pub open spec fn index_of_char(s: Seq<char>, c: char) -> int
    decreases s.len(),
{
    if s.len() == 0 || s[0] == c {
        0
    } else {
        1 + index_of_char(s.skip(1), c)
    }
}

/// The first `c` is preceded by other characters only.
pub proof fn lemma_index_of_char(s: Seq<char>, c: char, i: int)
    requires
        0 <= i <= s.len(),
        forall|j: int| 0 <= j < i ==> s[j] != c,
        i < s.len() ==> s[i] == c,
    ensures
        index_of_char(s, c) == i,
    decreases s.len(),
{
    if i > 0 {
        assert forall|j: int| 0 <= j < i - 1 implies s.skip(1)[j] != c by {
            assert(s.skip(1)[j] == s[j + 1]);
        }
        lemma_index_of_char(s.skip(1), c, i - 1);
    }
}

/// The two sides of the first `c` in `s`.
pub open spec fn halves(s: Seq<char>, c: char) -> Option<(Seq<char>, Seq<char>)> {
    let i = index_of_char(s, c);
    if i < s.len() {
        Some((s.take(i), s.skip(i + 1)))
    } else {
        None
    }
}

/// `str::split_once`, for a character.
pub fn split_once(s: &str, c: char) -> (r: Option<(String, String)>)
    ensures
        match r {
            Some(p) => halves(s@, c) == Some((p.0@, p.1@)),
            None => halves(s@, c) is None,
        },
{
    let v = chars_of(s);
    let mut i: usize = 0;
    while i < v.len()
        invariant
            i <= v@.len(),
            v@ == s@,
            forall|j: int| 0 <= j < i ==> v@[j] != c,
        decreases v@.len() - i,
    {
        if v[i] == c {
            proof {
                lemma_index_of_char(s@, c, i as int);
                assert(v@.subrange(0, i as int) =~= s@.take(i as int));
                assert(v@.subrange(i + 1, v@.len() as int) =~= s@.skip(i + 1));
            }
            return Some((text_of(&v, 0, i), text_of(&v, i + 1, v.len())));
        }
        i += 1;
    }
    proof {
        lemma_index_of_char(s@, c, i as int);
    }
    None
}

/// Whether the character `c` stands in the string.
pub fn has_char(s: &str, c: char) -> (r: bool)
    ensures
        r == s@.contains(c),
{
    let v = chars_of(s);
    let mut i: usize = 0;
    while i < v.len()
        invariant
            i <= v@.len(),
            v@ == s@,
            forall|j: int| 0 <= j < i ==> v@[j] != c,
        decreases v@.len() - i,
    {
        if v[i] == c {
            return true;
        }
        i += 1;
    }
    false
}

// ---- white space ----

/// The characters with the Unicode property White_Space.
pub open spec fn space(c: char) -> bool {
    let n = c as int;
    ||| 0x9 <= n <= 0xd
    ||| n == 0x20
    ||| n == 0x85
    ||| n == 0xa0
    ||| n == 0x1680
    ||| 0x2000 <= n <= 0x200a
    ||| n == 0x2028
    ||| n == 0x2029
    ||| n == 0x202f
    ||| n == 0x205f
    ||| n == 0x3000
}

/// `char::is_whitespace`.
pub fn is_space(c: char) -> (r: bool)
    ensures
        r == space(c),
{
    let n: u32 = c as u32;
    (0x9 <= n && n <= 0xd) || n == 0x20 || n == 0x85 || n == 0xa0 || n == 0x1680 || (0x2000 <= n
        && n <= 0x200a) || n == 0x2028 || n == 0x2029 || n == 0x202f || n == 0x205f || n == 0x3000
}

/// `s` without the white space at its start.
pub open spec fn trim_start(s: Seq<char>) -> Seq<char>
    decreases s.len(),
{
    if s.len() > 0 && space(s[0]) {
        trim_start(s.skip(1))
    } else {
        s
    }
}

/// `s` without the white space at its end.
pub open spec fn trim_end(s: Seq<char>) -> Seq<char>
    decreases s.len(),
{
    if s.len() > 0 && space(s.last()) {
        trim_end(s.drop_last())
    } else {
        s
    }
}

/// `s` without the white space at both ends.
pub open spec fn trimmed(s: Seq<char>) -> Seq<char> {
    trim_end(trim_start(s))
}

/// `str::trim`.
pub fn trim(s: &str) -> (r: String)
    ensures
        r@ == trimmed(s@),
{
    let v = chars_of(s);
    let mut i: usize = 0;
    assert(v@.skip(0) =~= v@);
    while i < v.len() && is_space(v[i])
        invariant
            i <= v@.len(),
            trim_start(v@) == trim_start(v@.skip(i as int)),
        decreases v@.len() - i,
    {
        assert(v@.skip(i as int).skip(1) =~= v@.skip(i + 1));
        i += 1;
    }
    let ghost body = v@.skip(i as int);
    assert(trim_start(v@) == body);
    let mut j: usize = v.len();
    assert(body.take(body.len() as int) =~= body);
    while j > i && is_space(v[j - 1])
        invariant
            i <= j <= v@.len(),
            body == v@.skip(i as int),
            trim_end(body) == trim_end(body.take(j - i)),
        decreases j,
    {
        assert(body.take(j - i).drop_last() =~= body.take(j - i - 1));
        assert(body.take(j - i).last() == v@[j - 1]);
        j -= 1;
    }
    assert(j > i ==> body.take(j - i).last() == v@[j - 1]);
    assert(v@.subrange(i as int, j as int) =~= body.take(j - i));
    text_of(&v, i, j)
}

/// `s` without the characters `c` at its end.
pub open spec fn trim_end_of(s: Seq<char>, c: char) -> Seq<char>
    decreases s.len(),
{
    if s.len() > 0 && s.last() == c {
        trim_end_of(s.drop_last(), c)
    } else {
        s
    }
}

/// `s` without the characters `c` at its start.
pub open spec fn trim_start_of(s: Seq<char>, c: char) -> Seq<char>
    decreases s.len(),
{
    if s.len() > 0 && s[0] == c {
        trim_start_of(s.skip(1), c)
    } else {
        s
    }
}

/// `str::trim_end_matches`, for a character.
pub fn trim_end_matches(s: &str, c: char) -> (r: String)
    ensures
        r@ == trim_end_of(s@, c),
{
    let v = chars_of(s);
    let mut j: usize = v.len();
    assert(v@.take(v@.len() as int) =~= v@);
    while j > 0 && v[j - 1] == c
        invariant
            j <= v@.len(),
            trim_end_of(v@, c) == trim_end_of(v@.take(j as int), c),
        decreases j,
    {
        assert(v@.take(j as int).drop_last() =~= v@.take(j - 1));
        j -= 1;
    }
    assert(v@.subrange(0, j as int) =~= v@.take(j as int));
    text_of(&v, 0, j)
}

/// `str::trim_start_matches`, for a character.
pub fn trim_start_matches(s: &str, c: char) -> (r: String)
    ensures
        r@ == trim_start_of(s@, c),
{
    let v = chars_of(s);
    let mut i: usize = 0;
    assert(v@.skip(0) =~= v@);
    while i < v.len() && v[i] == c
        invariant
            i <= v@.len(),
            trim_start_of(v@, c) == trim_start_of(v@.skip(i as int), c),
        decreases v@.len() - i,
    {
        assert(v@.skip(i as int).skip(1) =~= v@.skip(i + 1));
        i += 1;
    }
    assert(v@.subrange(i as int, v@.len() as int) =~= v@.skip(i as int));
    text_of(&v, i, v.len())
}

// ---- splitting ----

/// The last piece of a text gets one more character.
pub open spec fn extend_last(pieces: Seq<Seq<char>>, c: char) -> Seq<Seq<char>> {
    pieces.update(pieces.len() - 1, pieces.last().push(c))
}

/// The pieces of `s` between the characters for which `cut` holds.
pub open spec fn pieces(s: Seq<char>, cut: spec_fn(char) -> bool) -> Seq<Seq<char>>
    decreases s.len(),
{
    if s.len() == 0 {
        seq![Seq::empty()]
    } else if cut(s.last()) {
        pieces(s.drop_last(), cut).push(Seq::empty())
    } else {
        extend_last(pieces(s.drop_last(), cut), s.last())
    }
}

pub open spec fn is_char(c: char) -> spec_fn(char) -> bool {
    |x: char| x == c
}

pub open spec fn is_space_cut() -> spec_fn(char) -> bool {
    |x: char| space(x)
}

pub proof fn lemma_pieces_nonempty(s: Seq<char>, cut: spec_fn(char) -> bool)
    ensures
        pieces(s, cut).len() >= 1,
    decreases s.len(),
{
    if s.len() > 0 {
        lemma_pieces_nonempty(s.drop_last(), cut);
    }
}

/// The pieces found so far, with one more character read.
pub proof fn lemma_pieces_step(s: Seq<char>, i: int, cut: spec_fn(char) -> bool)
    requires
        0 <= i < s.len(),
    ensures
        pieces(s.take(i + 1), cut) == if cut(s[i]) {
            pieces(s.take(i), cut).push(Seq::empty())
        } else {
            extend_last(pieces(s.take(i), cut), s[i])
        },
        pieces(s.take(i), cut).len() >= 1,
{
    assert(s.take(i + 1).drop_last() =~= s.take(i));
    lemma_pieces_nonempty(s.take(i), cut);
}

/// `str::split`, for a character.
pub fn split(s: &str, c: char) -> (r: Vec<String>)
    ensures
        views(r@) == pieces(s@, is_char(c)),
        r@.len() >= 1,
{
    let v = chars_of(s);
    let ghost cut = is_char(c);
    let mut done: Vec<String> = Vec::new();
    let mut last = String::new();
    let mut i: usize = 0;
    assert(v@.take(0) =~= Seq::<char>::empty());
    assert(views(done@).push(last@) =~= pieces(v@.take(0), cut));
    while i < v.len()
        invariant
            i <= v@.len(),
            cut == is_char(c),
            views(done@).push(last@) == pieces(v@.take(i as int), cut),
        decreases v@.len() - i,
    {
        proof {
            lemma_pieces_step(v@, i as int, cut);
        }
        let ghost before = views(done@).push(last@);
        if v[i] == c {
            done.push(last);
            last = String::new();
            assert(last@ =~= Seq::<char>::empty());
        } else {
            last.push(v[i]);
            assert(views(done@).push(last@) =~= extend_last(before, v@[i as int]));
        }
        i += 1;
    }
    assert(v@.take(v@.len() as int) =~= s@);
    done.push(last);
    done
}

/// The white-space separated words of `s`.
pub open spec fn words(s: Seq<char>) -> Seq<Seq<char>> {
    nonempty(pieces(s, is_space_cut()))
}

/// The elements of `s` that hold something.
pub open spec fn nonempty(s: Seq<Seq<char>>) -> Seq<Seq<char>> {
    crate::seqs::collect_some(s, if_nonempty())
}

pub open spec fn if_nonempty() -> spec_fn(Seq<char>) -> Option<Seq<char>> {
    |p: Seq<char>|
        if p.len() > 0 {
            Some(p)
        } else {
            None
        }
}

/// `str::split_whitespace`.
pub fn split_whitespace(s: &str) -> (r: Vec<String>)
    ensures
        views(r@) == words(s@),
{
    let v = chars_of(s);
    let ghost cut = is_space_cut();
    let mut done: Vec<String> = Vec::new();
    let ghost mut all: Seq<Seq<char>> = Seq::empty();
    let mut last = String::new();
    let mut i: usize = 0;
    assert(v@.take(0) =~= Seq::<char>::empty());
    assert(all.push(last@) =~= pieces(v@.take(0), cut));
    while i < v.len()
        invariant
            i <= v@.len(),
            cut == is_space_cut(),
            all.push(last@) == pieces(v@.take(i as int), cut),
            views(done@) == nonempty(all),
        decreases v@.len() - i,
    {
        proof {
            lemma_pieces_step(v@, i as int, cut);
        }
        let ghost before = all.push(last@);
        if is_space(v[i]) {
            proof {
                assert(all.push(last@).drop_last() =~= all);
                all = all.push(last@);
            }
            if !last.as_str().is_empty() {
                done.push(last);
            }
            last = String::new();
            assert(last@ =~= Seq::<char>::empty());
        } else {
            last.push(v[i]);
            assert(all.push(last@) =~= extend_last(before, v@[i as int]));
        }
        i += 1;
    }
    assert(v@.take(v@.len() as int) =~= s@);
    assert(all.push(last@).drop_last() =~= all);
    if !last.as_str().is_empty() {
        done.push(last);
    }
    done
}

/// A line without the carriage return that ended it.
pub open spec fn without_return(s: Seq<char>) -> Seq<char> {
    if s.len() > 0 && s.last() == '\r' {
        s.drop_last()
    } else {
        s
    }
}

/// The lines of `s`: what stands between line feeds, without the carriage
/// return before one; what follows the last line feed counts where it holds
/// something.
pub open spec fn lines_of(s: Seq<char>) -> Seq<Seq<char>> {
    let p = pieces(s, is_char('\n'));
    let ended = p.drop_last().map_values(|l: Seq<char>| without_return(l));
    if p.last().len() > 0 {
        ended.push(p.last())
    } else {
        ended
    }
}

/// `str::lines`.
pub fn lines(s: &str) -> (r: Vec<String>)
    ensures
        views(r@) == lines_of(s@),
{
    let parts = split(s, '\n');
    let ghost p = pieces(s@, is_char('\n'));
    let ghost strip = |l: Seq<char>| without_return(l);
    let mut out: Vec<String> = Vec::new();
    let mut i: usize = 0;
    let count: usize = parts.len();
    while i < count - 1
        invariant
            count == parts@.len(),
            parts@.len() >= 1,
            i <= parts@.len() - 1,
            p == views(parts@),
            strip == (|l: Seq<char>| without_return(l)),
            views(out@) == p.take(i as int).map_values(strip),
        decreases parts@.len() - i,
    {
        let v = chars_of(parts[i].as_str());
        assert(p.take(i + 1).map_values(strip) =~= p.take(i as int).map_values(strip).push(
            without_return(p[i as int]),
        ));
        if v.len() > 0 && v[v.len() - 1] == '\r' {
            assert(v@.subrange(0, v@.len() - 1) =~= v@.drop_last());
            out.push(text_of(&v, 0, v.len() - 1));
        } else {
            out.push(parts[i].clone());
        }
        i += 1;
    }
    assert(p.take(i as int) =~= p.drop_last());
    if !parts[i].as_str().is_empty() {
        out.push(parts[i].clone());
    }
    out
}

// ---- building ----

/// The elements of `parts` with `sep` between them.
pub open spec fn joined(parts: Seq<Seq<char>>, sep: Seq<char>) -> Seq<char>
    decreases parts.len(),
{
    if parts.len() == 0 {
        Seq::empty()
    } else if parts.len() == 1 {
        parts[0]
    } else {
        joined(parts.drop_last(), sep) + sep + parts.last()
    }
}

/// `[String]::join`.
pub fn join(parts: &Vec<String>, sep: &str) -> (r: String)
    ensures
        r@ == joined(views(parts@), sep@),
{
    let mut r = String::new();
    let ghost p = views(parts@);
    let mut i: usize = 0;
    while i < parts.len()
        invariant
            i <= parts@.len(),
            p == views(parts@),
            r@ == joined(p.take(i as int), sep@),
        decreases parts@.len() - i,
    {
        assert(p.take(i + 1).drop_last() =~= p.take(i as int));
        if i > 0 {
            r.append(sep);
        } else {
            assert(r@ + p[0] =~= p[0]);
        }
        r.append(parts[i].as_str());
        i += 1;
    }
    assert(p.take(p.len() as int) =~= p);
    r
}

/// `s` with every `from` replaced by the characters `to`.
pub open spec fn replaced(s: Seq<char>, from: char, to: Seq<char>) -> Seq<char>
    decreases s.len(),
{
    if s.len() == 0 {
        Seq::empty()
    } else if s.last() == from {
        replaced(s.drop_last(), from, to) + to
    } else {
        replaced(s.drop_last(), from, to).push(s.last())
    }
}

/// `str::replace`, for a character.
pub fn replace(s: &str, from: char, to: &str) -> (r: String)
    ensures
        r@ == replaced(s@, from, to@),
{
    let v = chars_of(s);
    let mut r = String::new();
    let mut i: usize = 0;
    while i < v.len()
        invariant
            i <= v@.len(),
            r@ == replaced(v@.take(i as int), from, to@),
        decreases v@.len() - i,
    {
        assert(v@.take(i + 1).drop_last() =~= v@.take(i as int));
        if v[i] == from {
            r.append(to);
        } else {
            r.push(v[i]);
        }
        i += 1;
    }
    assert(v@.take(v@.len() as int) =~= s@);
    r
}

/// The ASCII lower case of a character.
pub open spec fn lower_char(c: char) -> char {
    if 'A' <= c && c <= 'Z' {
        ((c as u32) + 32) as char
    } else {
        c
    }
}

/// The ASCII upper case of a character.
pub open spec fn upper_char(c: char) -> char {
    if 'a' <= c && c <= 'z' {
        ((c as u32) - 32) as char
    } else {
        c
    }
}

fn lower(c: char) -> (r: char)
    ensures
        r == lower_char(c),
{
    if 'A' <= c && c <= 'Z' {
        let n: u8 = c as u8;
        (n + 32) as char
    } else {
        c
    }
}

fn upper(c: char) -> (r: char)
    ensures
        r == upper_char(c),
{
    if 'a' <= c && c <= 'z' {
        let n: u8 = c as u8;
        (n - 32) as char
    } else {
        c
    }
}

/// `s` with its ASCII letters in lower case.
pub open spec fn lowered(s: Seq<char>) -> Seq<char> {
    s.map_values(|c: char| lower_char(c))
}

/// `s` with its ASCII letters in upper case.
pub open spec fn uppered(s: Seq<char>) -> Seq<char> {
    s.map_values(|c: char| upper_char(c))
}

/// `str::to_ascii_lowercase`.
pub fn to_ascii_lowercase(s: &str) -> (r: String)
    ensures
        r@ == lowered(s@),
{
    let v = chars_of(s);
    let mut r = String::new();
    let mut i: usize = 0;
    while i < v.len()
        invariant
            i <= v@.len(),
            v@ == s@,
            r@ == lowered(s@).take(i as int),
        decreases v@.len() - i,
    {
        r.push(lower(v[i]));
        assert(lowered(s@).take(i + 1) =~= lowered(s@).take(i as int).push(lower_char(s@[i as int])));
        i += 1;
    }
    assert(lowered(s@).take(s@.len() as int) =~= lowered(s@));
    r
}

/// `str::to_ascii_uppercase`.
pub fn to_ascii_uppercase(s: &str) -> (r: String)
    ensures
        r@ == uppered(s@),
{
    let v = chars_of(s);
    let mut r = String::new();
    let mut i: usize = 0;
    while i < v.len()
        invariant
            i <= v@.len(),
            v@ == s@,
            r@ == uppered(s@).take(i as int),
        decreases v@.len() - i,
    {
        r.push(upper(v[i]));
        assert(uppered(s@).take(i + 1) =~= uppered(s@).take(i as int).push(upper_char(s@[i as int])));
        i += 1;
    }
    assert(uppered(s@).take(s@.len() as int) =~= uppered(s@));
    r
}

/// The text that `str::to_lowercase` makes: the Unicode lower case.
pub uninterp spec fn lower_case(s: Seq<char>) -> Seq<char>;

/// Calls `str::to_lowercase`, which maps by the Unicode tables alone: equal
/// texts have equal lower cases, and of an ASCII text the letters `A` to `Z`
/// change and nothing else.
#[verifier::external_body]
pub(crate) fn to_lowercase(s: &str) -> (r: String)
    ensures
        r@ == lower_case(s@),
        is_ascii_chars(s@) ==> r@ == lowered(s@),
{
    s.to_lowercase()
}

// ---- numbers ----

/// The character of a decimal digit.
pub open spec fn digit_char(d: nat) -> char {
    ((d + 48) as u32) as char
}

/// The decimal digits of a number.
pub open spec fn digits(n: nat) -> Seq<char>
    decreases n,
{
    if n < 10 {
        seq![digit_char(n)]
    } else {
        digits(n / 10).push(digit_char(n % 10))
    }
}

/// `u64::to_string`.
pub fn decimal(n: u64) -> (r: String)
    ensures
        r@ == digits(n as nat),
    decreases n,
{
    let d: u8 = (n % 10) as u8;
    let c: char = (d + 48) as char;
    if n < 10 {
        let mut r = String::new();
        r.push(c);
        assert(r@ =~= seq![digit_char(n as nat)]);
        r
    } else {
        let mut r = decimal(n / 10);
        r.push(c);
        r
    }
}

/// Whether a character is an ASCII digit.
pub open spec fn is_digit(c: char) -> bool {
    '0' <= c && c <= '9'
}

/// Whether a text is made of ASCII digits.
pub open spec fn all_digits(s: Seq<char>) -> bool {
    forall|i: int| 0 <= i < s.len() ==> is_digit(#[trigger] s[i])
}

/// The number that a text of digits writes.
pub open spec fn number(s: Seq<char>) -> nat
    decreases s.len(),
{
    if s.len() == 0 {
        0
    } else {
        number(s.drop_last()) * 10 + (s.last() as int - 48) as nat
    }
}

/// More digits never write a smaller number.
pub proof fn lemma_number_grows(s: Seq<char>, i: int)
    requires
        0 <= i <= s.len(),
        all_digits(s),
    ensures
        number(s.take(i)) <= number(s),
    decreases s.len(),
{
    if i == s.len() {
        assert(s.take(i) =~= s);
    } else {
        lemma_number_grows(s.drop_last(), i);
        assert(s.drop_last().take(i) =~= s.take(i));
        assert(is_digit(s[s.len() - 1]));
    }
}

/// The digits of `v` from `from` on, as a number that fits.
pub fn parse_digits(v: &Vec<char>, from: usize) -> (r: Option<u64>)
    requires
        from <= v@.len(),
    ensures
        r == {
            let s = v@.skip(from as int);
            if s.len() > 0 && all_digits(s) && number(s) <= u64::MAX {
                Some(number(s) as u64)
            } else {
                None
            }
        },
{
    let ghost s = v@.skip(from as int);
    if from == v.len() {
        return None;
    }
    let mut n: u64 = 0;
    let mut i: usize = from;
    assert(s.take(0) =~= Seq::<char>::empty());
    while i < v.len()
        invariant
            from <= i <= v@.len(),
            s == v@.skip(from as int),
            all_digits(s.take(i - from)),
            n == number(s.take(i - from)),
        decreases v@.len() - i,
    {
        let c = v[i];
        assert(s[i - from] == c);
        if c < '0' || c > '9' {
            assert(!is_digit(s[i - from]));
            return None;
        }
        let d: u64 = (c as u8 - 48) as u64;
        let ghost next = s.take(i - from + 1);
        assert(next.drop_last() =~= s.take(i - from));
        assert(next.last() == c);
        assert(all_digits(next)) by {
            assert forall|j: int| 0 <= j < next.len() implies is_digit(#[trigger] next[j]) by {
                if j < i - from {
                    assert(next[j] == s.take(i - from)[j]);
                }
            }
        }
        assert(number(next) == n * 10 + d);
        if n > u64::MAX / 10 || (n == u64::MAX / 10 && d > u64::MAX % 10) {
            proof {
                if all_digits(s) {
                    lemma_number_grows(s, i - from + 1);
                }
            }
            return None;
        }
        n = n * 10 + d;
        i += 1;
    }
    assert(s.take(s.len() as int) =~= s);
    Some(n)
}

/// A text without one leading plus sign.
pub open spec fn without_plus(s: Seq<char>) -> Seq<char> {
    if s.len() > 0 && s[0] == '+' {
        s.skip(1)
    } else {
        s
    }
}

/// The number that `u64::from_str` reads.
pub open spec fn unsigned(s: Seq<char>) -> Option<u64> {
    let d = without_plus(s);
    if d.len() > 0 && all_digits(d) && number(d) <= u64::MAX {
        Some(number(d) as u64)
    } else {
        None
    }
}

/// `u64::from_str`: digits, with a plus sign allowed before them.
pub fn parse_u64(s: &str) -> (r: Option<u64>)
    ensures
        r == unsigned(s@),
{
    let v = chars_of(s);
    assert(v@.skip(0) =~= v@);
    if v.len() > 0 && v[0] == '+' {
        parse_digits(&v, 1)
    } else {
        parse_digits(&v, 0)
    }
}

/// What a number is written as reads as that number.
pub proof fn law_written_numbers_read(n: u64)
    ensures
        unsigned(digits(n as nat)) == Some(n),
{
    lemma_digits_number(n as nat);
    let d = digits(n as nat);
    assert(is_digit(d[0]));
    assert(without_plus(d) == d);
}

pub proof fn lemma_digits_number(n: nat)
    ensures
        digits(n).len() > 0,
        all_digits(digits(n)),
        number(digits(n)) == n,
    decreases n,
{
    let d = digits(n);
    if n < 10 {
        assert(d.drop_last() =~= Seq::<char>::empty());
        assert(d[0] == digit_char(n));
        assert(number(d.drop_last()) == 0);
    } else {
        lemma_digits_number(n / 10);
        assert(d.drop_last() =~= digits(n / 10));
        assert(d.last() == digit_char(n % 10));
        assert forall|i: int| 0 <= i < d.len() implies is_digit(#[trigger] d[i]) by {
            if i < d.len() - 1 {
                assert(d[i] == digits(n / 10)[i]);
            }
        }
    }
}

/// The number that `i64::from_str` reads.
pub open spec fn signed(s: Seq<char>) -> Option<i64> {
    if s.len() > 0 && s[0] == '-' {
        let d = s.skip(1);
        if d.len() > 0 && all_digits(d) && number(d) <= 0x8000_0000_0000_0000 {
            Some((-(number(d) as int)) as i64)
        } else {
            None
        }
    } else {
        let d = without_plus(s);
        if d.len() > 0 && all_digits(d) && number(d) <= i64::MAX {
            Some(number(d) as i64)
        } else {
            None
        }
    }
}

/// `i64::from_str`: digits, with a sign allowed before them.
pub fn parse_i64(s: &str) -> (r: Option<i64>)
    ensures
        r == signed(s@),
{
    let v = chars_of(s);
    assert(v@.skip(0) =~= v@);
    if v.len() > 0 && v[0] == '-' {
        match parse_digits(&v, 1) {
            Some(n) => {
                if n <= 0x7fff_ffff_ffff_ffff {
                    Some(-(n as i64))
                } else if n == 0x8000_0000_0000_0000 {
                    Some(i64::MIN)
                } else {
                    None
                }
            },
            None => None,
        }
    } else {
        let n = if v.len() > 0 && v[0] == '+' {
            parse_digits(&v, 1)
        } else {
            parse_digits(&v, 0)
        };
        match n {
            Some(n) => {
                if n <= 0x7fff_ffff_ffff_ffff {
                    Some(n as i64)
                } else {
                    None
                }
            },
            None => None,
        }
    }
}

// ---- bytes ----

/// The number of bytes of a character in UTF-8.
pub open spec fn utf8_len(c: char) -> int {
    if (c as int) < 0x80 {
        1
    } else if (c as int) < 0x800 {
        2
    } else if (c as int) < 0x1_0000 {
        3
    } else {
        4
    }
}

/// The first `n` bytes of a text, where a character ends there.
pub open spec fn byte_prefix(s: Seq<char>, n: int) -> Option<Seq<char>>
    decreases s.len(),
{
    if n == 0 {
        Some(Seq::empty())
    } else if s.len() == 0 || utf8_len(s[0]) > n {
        None
    } else {
        match byte_prefix(s.skip(1), n - utf8_len(s[0])) {
            Some(rest) => Some(seq![s[0]] + rest),
            None => None,
        }
    }
}

/// The number of bytes of a character in UTF-8.
pub fn bytes_in(c: char) -> (r: u32)
    ensures
        r == utf8_len(c),
{
    let n: u32 = c as u32;
    if n < 0x80 {
        1
    } else if n < 0x800 {
        2
    } else if n < 0x1_0000 {
        3
    } else {
        4
    }
}

/// The number of bytes of a text in UTF-8.
pub open spec fn byte_len(s: Seq<char>) -> nat
    decreases s.len(),
{
    if s.len() == 0 {
        0
    } else {
        byte_len(s.drop_last()) + utf8_len(s.last()) as nat
    }
}

/// The longest start of a text that takes at most `n` bytes.
pub open spec fn byte_cut(s: Seq<char>, n: int) -> Seq<char>
    decreases s.len(),
{
    if s.len() == 0 || byte_len(s) <= n {
        s
    } else {
        byte_cut(s.drop_last(), n)
    }
}

proof fn lemma_byte_len_take(s: Seq<char>, i: int)
    requires
        0 <= i < s.len(),
    ensures
        byte_len(s.take(i + 1)) == byte_len(s.take(i)) + utf8_len(s[i]),
        byte_len(s.take(i)) < byte_len(s.take(i + 1)),
{
    assert(s.take(i + 1).drop_last() =~= s.take(i));
}

pub proof fn lemma_byte_len_grows(s: Seq<char>, i: int)
    requires
        0 <= i <= s.len(),
    ensures
        byte_len(s.take(i)) <= byte_len(s),
        i < s.len() ==> byte_len(s.take(i)) < byte_len(s),
    decreases s.len() - i,
{
    if i < s.len() {
        lemma_byte_len_take(s, i);
        lemma_byte_len_grows(s, i + 1);
    } else {
        assert(s.take(i) =~= s);
    }
}

proof fn lemma_cut_at(s: Seq<char>, n: int, i: int)
    requires
        0 <= i <= s.len(),
        byte_len(s.take(i)) <= n,
        i < s.len() ==> byte_len(s.take(i + 1)) > n,
    ensures
        byte_cut(s, n) == s.take(i),
    decreases s.len(),
{
    if i == s.len() {
        assert(s.take(i) =~= s);
    } else {
        lemma_byte_len_grows(s, i + 1);
        let t = s.drop_last();
        assert(t.take(i) =~= s.take(i));
        if i < t.len() {
            assert(t.take(i + 1) =~= s.take(i + 1));
        } else {
            assert(t.take(i) =~= t);
        }
        lemma_cut_at(t, n, i);
    }
}

/// A text cut to at most `n` bytes, between two characters; and whether that
/// is all of it.
pub fn cut_bytes(s: &str, n: u64) -> (r: (String, bool))
    ensures
        r.0@ == byte_cut(s@, n as int),
        r.1 == (byte_len(s@) <= n),
{
    let v = chars_of(s);
    let mut used: u64 = 0;
    let mut i: usize = 0;
    assert(v@.take(0) =~= Seq::<char>::empty());
    while i < v.len()
        invariant
            i <= v@.len(),
            v@ == s@,
            used <= n,
            used == byte_len(v@.take(i as int)),
        decreases v@.len() - i,
    {
        let size: u64 = bytes_in(v[i]) as u64;
        proof {
            lemma_byte_len_take(v@, i as int);
        }
        if size > n - used {
            proof {
                lemma_cut_at(v@, n as int, i as int);
                lemma_byte_len_grows(v@, i + 1);
                assert(v@.subrange(0, i as int) =~= v@.take(i as int));
            }
            return (text_of(&v, 0, i), false);
        }
        used = used + size;
        i += 1;
    }
    proof {
        assert(v@.take(v@.len() as int) =~= v@);
        lemma_cut_at(v@, n as int, i as int);
    }
    (s.to_owned(), true)
}

/// What is cut to `n` bytes takes at most `n` bytes.
pub proof fn lemma_cut_fits(s: Seq<char>, n: int)
    requires
        n >= 0,
    ensures
        byte_len(byte_cut(s, n)) <= n,
    decreases s.len(),
{
    if s.len() > 0 && byte_len(s) > n {
        lemma_cut_fits(s.drop_last(), n);
    }
}

/// A text of ASCII characters takes one byte for each.
pub proof fn lemma_ascii_bytes(s: Seq<char>)
    requires
        forall|i: int| 0 <= i < s.len() ==> (#[trigger] s[i]) as int <= 0x7f,
    ensures
        byte_len(s) == s.len(),
    decreases s.len(),
{
    if s.len() > 0 {
        assert forall|i: int| 0 <= i < s.drop_last().len() implies (
        #[trigger] s.drop_last()[i]) as int <= 0x7f by {
            assert(s.drop_last()[i] == s[i]);
        }
        lemma_ascii_bytes(s.drop_last());
        assert(s[s.len() - 1] as int <= 0x7f);
    }
}

/// Joining two texts adds their bytes.
pub proof fn lemma_byte_len_concat(a: Seq<char>, b: Seq<char>)
    ensures
        byte_len(a + b) == byte_len(a) + byte_len(b),
    decreases b.len(),
{
    if b.len() == 0 {
        assert(a + b =~= a);
    } else {
        assert((a + b).drop_last() =~= a + b.drop_last());
        lemma_byte_len_concat(a, b.drop_last());
    }
}

/// The text that `String::from_utf8_lossy` reads from bytes.
pub uninterp spec fn lossy_text(bytes: Seq<u8>) -> Seq<char>;

/// Calls `String::from_utf8_lossy`, which decodes UTF-8 and puts the
/// replacement character in place of what is not UTF-8: equal bytes give equal
/// texts, and bytes that are UTF-8 give the text that they encode.
#[verifier::external_body]
pub(crate) fn from_utf8_lossy(bytes: &[u8]) -> (r: String)
    ensures
        r@ == lossy_text(bytes@),
        valid_utf8(bytes@) ==> r@ == decode_utf8(bytes@),
{
    String::from_utf8_lossy(bytes).into_owned()
}

// ---- short lists ----

pub fn texts1(a: &str) -> (r: Vec<String>)
    ensures
        views(r@) == seq![a@],
{
    let r = vec![a.to_owned()];
    assert(views(r@) =~= seq![a@]);
    r
}

pub fn texts2(a: &str, b: &str) -> (r: Vec<String>)
    ensures
        views(r@) == seq![a@, b@],
{
    let r = vec![a.to_owned(), b.to_owned()];
    assert(views(r@) =~= seq![a@, b@]);
    r
}

pub fn texts3(a: &str, b: &str, c: &str) -> (r: Vec<String>)
    ensures
        views(r@) == seq![a@, b@, c@],
{
    let r = vec![a.to_owned(), b.to_owned(), c.to_owned()];
    assert(views(r@) =~= seq![a@, b@, c@]);
    r
}

pub fn texts4(a: &str, b: &str, c: &str, d: &str) -> (r: Vec<String>)
    ensures
        views(r@) == seq![a@, b@, c@, d@],
{
    let r = vec![a.to_owned(), b.to_owned(), c.to_owned(), d.to_owned()];
    assert(views(r@) =~= seq![a@, b@, c@, d@]);
    r
}

pub fn texts5(a: &str, b: &str, c: &str, d: &str, e: &str) -> (r: Vec<String>)
    ensures
        views(r@) == seq![a@, b@, c@, d@, e@],
{
    let r = vec![a.to_owned(), b.to_owned(), c.to_owned(), d.to_owned(), e.to_owned()];
    assert(views(r@) =~= seq![a@, b@, c@, d@, e@]);
    r
}

pub fn texts6(a: &str, b: &str, c: &str, d: &str, e: &str, f: &str) -> (r: Vec<String>)
    ensures
        views(r@) == seq![a@, b@, c@, d@, e@, f@],
{
    let r = vec![
        a.to_owned(),
        b.to_owned(),
        c.to_owned(),
        d.to_owned(),
        e.to_owned(),
        f.to_owned(),
    ];
    assert(views(r@) =~= seq![a@, b@, c@, d@, e@, f@]);
    r
}

pub fn texts7(a: &str, b: &str, c: &str, d: &str, e: &str, f: &str, g: &str) -> (r: Vec<String>)
    ensures
        views(r@) == seq![a@, b@, c@, d@, e@, f@, g@],
{
    let r = vec![
        a.to_owned(),
        b.to_owned(),
        c.to_owned(),
        d.to_owned(),
        e.to_owned(),
        f.to_owned(),
        g.to_owned(),
    ];
    assert(views(r@) =~= seq![a@, b@, c@, d@, e@, f@, g@]);
    r
}

/// A copy of a list of string slices.
pub fn owned(list: &[&str]) -> (r: Vec<String>)
    ensures
        views(r@) == list@.map_values(|s: &str| s@),
{
    let ghost all = list@.map_values(|s: &str| s@);
    let mut r: Vec<String> = Vec::new();
    let mut i: usize = 0;
    while i < list.len()
        invariant
            i <= list@.len(),
            all == list@.map_values(|s: &str| s@),
            views(r@) == all.take(i as int),
        decreases list@.len() - i,
    {
        r.push(list[i].to_owned());
        assert(all.take(i + 1) =~= all.take(i as int).push(all[i as int]));
        i += 1;
    }
    assert(all.take(all.len() as int) =~= all);
    r
}

// ---- columns ----

/// Spaces.
pub open spec fn spaces(n: nat) -> Seq<char> {
    Seq::new(n, |i: int| ' ')
}

/// A text with spaces before it, up to a width.
pub open spec fn pad_left(s: Seq<char>, width: nat) -> Seq<char> {
    if s.len() >= width {
        s
    } else {
        spaces((width - s.len()) as nat) + s
    }
}

/// A text with spaces behind it, up to a width.
pub open spec fn pad_right(s: Seq<char>, width: nat) -> Seq<char> {
    if s.len() >= width {
        s
    } else {
        s + spaces((width - s.len()) as nat)
    }
}

fn missing(s: &str, width: usize) -> (r: String)
    ensures
        r@ == if s@.len() >= width {
            Seq::<char>::empty()
        } else {
            spaces((width - s@.len()) as nat)
        },
{
    let n: usize = chars_of(s).len();
    let mut r = String::new();
    let mut i: usize = n;
    assert(r@ =~= spaces(0));
    while i < width
        invariant
            n == s@.len(),
            n <= i,
            i <= width || i == n,
            r@ == spaces((i - n) as nat),
        decreases width - i,
    {
        r.push(' ');
        i += 1;
        assert(r@ =~= spaces((i - n) as nat));
    }
    r
}

/// A text with spaces before it, up to a width.
pub fn right_aligned(s: &str, width: usize) -> (r: String)
    ensures
        r@ == pad_left(s@, width as nat),
{
    let r = missing(s, width).concat(s);
    assert(s@.len() >= width ==> r@ =~= s@);
    r
}

/// A text with spaces behind it, up to a width.
pub fn left_aligned(s: &str, width: usize) -> (r: String)
    ensures
        r@ == pad_right(s@, width as nat),
{
    let r = s.to_owned().concat(missing(s, width).as_str());
    assert(s@.len() >= width ==> r@ =~= s@);
    r
}

// ---- laws ----

/// A text begins with another exactly where it is that text and something after it;
/// taking the one off leaves the other.
pub proof fn law_prefixes_come_off(p: Seq<char>, rest: Seq<char>, s: Seq<char>)
    ensures
        begins(p + rest, p),
        without_prefix(p + rest, p) == Some(rest),
        begins(s, p) ==> s == p + s.skip(p.len() as int),
        without_prefix(s, p) matches Some(r) ==> s == p + r,
{
    assert((p + rest).subrange(0, p.len() as int) =~= p);
    assert((p + rest).skip(p.len() as int) =~= rest);
    if begins(s, p) {
        assert(s =~= s.subrange(0, p.len() as int) + s.skip(p.len() as int));
    }
}

/// A text ends with another exactly where it is that text with something before it;
/// taking the one off leaves the other.
pub proof fn law_suffixes_come_off(head: Seq<char>, p: Seq<char>, s: Seq<char>)
    ensures
        ends(head + p, p),
        without_suffix(head + p, p) == Some(head),
        without_suffix(s, p) matches Some(r) ==> s == r + p,
{
    let whole = head + p;
    assert(whole.subrange(whole.len() - p.len(), whole.len() as int) =~= p);
    assert(whole.take(whole.len() - p.len()) =~= head);
    if ends(s, p) {
        assert(s =~= s.take(s.len() - p.len()) + s.subrange(s.len() - p.len(), s.len() as int));
    }
}

/// A text occurs in another exactly where it stands between two parts of it.
pub proof fn law_texts_occur(a: Seq<char>, needle: Seq<char>, b: Seq<char>, s: Seq<char>)
    ensures
        occurs(a + needle + b, needle),
        occurs(s, needle) ==> exists|i: int|
        0 <= i <= s.len() - needle.len() && s == #[trigger] s.take(i) + needle + s.skip(i + needle.len()),
{
    let whole = a + needle + b;
    assert(whole.subrange(a.len() as int, (a.len() + needle.len()) as int) =~= needle);
    assert(stands_at(whole, needle, a.len() as int));
    if occurs(s, needle) {
        let i = choose|i: int| stands_at(s, needle, i);
        assert(s =~= s.take(i) + s.subrange(i, i + needle.len()) + s.skip(i + needle.len()));
    }
}

proof fn lemma_index_is_first(s: Seq<char>, c: char)
    ensures
        0 <= index_of_char(s, c) <= s.len(),
        index_of_char(s, c) < s.len() ==> s[index_of_char(s, c)] == c,
        forall|j: int| 0 <= j < index_of_char(s, c) ==> s[j] != c,
    decreases s.len(),
{
    if s.len() > 0 && s[0] != c {
        lemma_index_is_first(s.skip(1), c);
        let k = index_of_char(s.skip(1), c);
        assert forall|j: int| 0 <= j < k + 1 implies s[j] != c by {
            if j > 0 {
                assert(s.skip(1)[j - 1] == s[j]);
            }
        }
        if k < s.skip(1).len() {
            assert(s.skip(1)[k] == s[k + 1]);
        }
    }
}

/// A text is cut in two at the first place of a character: the halves and the
/// character make it up again, and the first half does not hold it.
pub proof fn law_halves_make_the_whole(s: Seq<char>, c: char)
    ensures
        match halves(s, c) {
            Some((a, b)) => s == a.push(c) + b && !a.contains(c),
            None => !s.contains(c),
        },
{
    lemma_index_is_first(s, c);
    let i = index_of_char(s, c);
    if i < s.len() {
        assert(s =~= s.take(i).push(c) + s.skip(i + 1));
        if s.take(i).contains(c) {
            let j = choose|j: int| 0 <= j < s.take(i).len() && s.take(i)[j] == c;
            assert(s[j] == c);
        }
    }
}

proof fn lemma_first_at_is_first(s: Seq<char>, needle: Seq<char>)
    ensures
        match first_at(s, needle) {
            Some(i) => stands_at(s, needle, i) && forall|j: int| 0 <= j < i ==> !stands_at(s, needle, j),
            None => forall|j: int| !stands_at(s, needle, j),
        },
    decreases s.len(),
{
    if begins(s, needle) {
    } else if s.len() == 0 {
        assert forall|j: int| !stands_at(s, needle, j) by {
            if stands_at(s, needle, j) {
                assert(j == 0);
            }
        }
    } else {
        let t = s.skip(1);
        lemma_first_at_is_first(t, needle);
        assert forall|j: int| 1 <= j implies stands_at(s, needle, j) == #[trigger] stands_at(t, needle, j - 1) by {
            if j + needle.len() <= s.len() {
                assert(s.subrange(j, j + needle.len()) =~= t.subrange(j - 1, j - 1 + needle.len()));
            }
        }
        match first_at(t, needle) {
            Some(i) => {
                assert(stands_at(s, needle, i + 1) == stands_at(t, needle, i + 1 - 1));
                assert forall|j: int| 0 <= j < i + 1 implies !stands_at(s, needle, j) by {
                    if j > 0 {
                        assert(stands_at(s, needle, j) == stands_at(t, needle, j - 1));
                    }
                }
            },
            None => {
                assert forall|j: int| !stands_at(s, needle, j) by {
                    if j >= 1 {
                        assert(stands_at(s, needle, j) == stands_at(t, needle, j - 1));
                    }
                }
            },
        }
    }
}

/// A text is cut in two at the first place where another stands in it: the halves and
/// that text make it up again.
pub proof fn law_halves_at_make_the_whole(s: Seq<char>, sep: Seq<char>)
    ensures
        match halves_at(s, sep) {
            Some((a, b)) => s == a + sep + b && forall|j: int| 0 <= j < a.len() ==> !stands_at(s, sep, j),
            None => !occurs(s, sep),
        },
{
    lemma_first_at_is_first(s, sep);
    if let Some(i) = first_at(s, sep) {
        assert(s =~= s.take(i) + s.subrange(i, i + sep.len()) + s.skip(i + sep.len()));
    }
}

proof fn lemma_trim_start(s: Seq<char>) -> (k: int)
    ensures
        0 <= k <= s.len(),
        trim_start(s) == s.skip(k),
        forall|i: int| 0 <= i < k ==> space(#[trigger] s[i]),
        k < s.len() ==> !space(s[k]),
    decreases s.len(),
{
    if s.len() > 0 && space(s[0]) {
        let k = lemma_trim_start(s.skip(1));
        assert(s.skip(1).skip(k) =~= s.skip(k + 1));
        assert forall|i: int| 0 <= i < k + 1 implies space(#[trigger] s[i]) by {
            if i > 0 {
                assert(s.skip(1)[i - 1] == s[i]);
            }
        }
        if k + 1 < s.len() {
            assert(s.skip(1)[k] == s[k + 1]);
        }
        k + 1
    } else {
        assert(s.skip(0) =~= s);
        0
    }
}

proof fn lemma_trim_end(s: Seq<char>) -> (k: int)
    ensures
        0 <= k <= s.len(),
        trim_end(s) == s.take(k),
        forall|i: int| k <= i < s.len() ==> space(#[trigger] s[i]),
        k > 0 ==> !space(s[k - 1]),
    decreases s.len(),
{
    if s.len() > 0 && space(s.last()) {
        let k = lemma_trim_end(s.drop_last());
        assert(s.drop_last().take(k) =~= s.take(k));
        assert forall|i: int| k <= i < s.len() implies space(#[trigger] s[i]) by {
            if i < s.len() - 1 {
                assert(s.drop_last()[i] == s[i]);
            }
        }
        if k > 0 {
            assert(s.drop_last()[k - 1] == s[k - 1]);
        }
        k
    } else {
        assert(s.take(s.len() as int) =~= s);
        s.len() as int
    }
}

/// Trimming takes the blanks off both ends and nothing else.
pub proof fn law_trimming_takes_blanks_off(s: Seq<char>)
    ensures
        trimmed(s).len() > 0 ==> !space(trimmed(s)[0]) && !space(trimmed(s).last()),
        exists|i: int, j: int|
        0 <= i <= j <= s.len() && trimmed(s) == #[trigger] s.subrange(i, j) && (forall|k: int|
            0 <= k < i ==> space(#[trigger] s[k])) && forall|k: int|
        j <= k < s.len() ==> space(#[trigger] s[k]),
{
    let i = lemma_trim_start(s);
    let t = s.skip(i);
    let n = lemma_trim_end(t);
    assert(trimmed(s) =~= s.subrange(i, i + n));
    if n > 0 {
        assert(t[0] == s[i]);
        assert(trimmed(s)[0] == s[i]);
        assert(trimmed(s).last() == t[n - 1]);
    }
    assert forall|k: int| i + n <= k < s.len() implies space(#[trigger] s[k]) by {
        assert(t[k - i] == s[k]);
    }
}

/// What is cut at one character and then the rest is what is cut of each part.
pub proof fn law_pieces_add(a: Seq<char>, c: char, b: Seq<char>, cut: spec_fn(char) -> bool)
    requires
        cut(c),
    ensures
        pieces(a.push(c) + b, cut) == pieces(a, cut) + pieces(b, cut),
    decreases b.len(),
{
    let whole = a.push(c) + b;
    lemma_pieces_nonempty(a, cut);
    lemma_pieces_nonempty(b, cut);
    if b.len() == 0 {
        assert(whole =~= a.push(c));
        assert(whole.drop_last() =~= a);
        assert(pieces(whole, cut) =~= pieces(a, cut) + pieces(b, cut));
    } else {
        law_pieces_add(a, c, b.drop_last(), cut);
        lemma_pieces_nonempty(b.drop_last(), cut);
        assert(whole.drop_last() =~= a.push(c) + b.drop_last());
        assert(whole.last() == b.last());
        assert(pieces(whole, cut) =~= pieces(a, cut) + pieces(b, cut));
    }
}

/// No piece holds the character at which a text was cut, and the pieces with that
/// character between them make the text up again.
pub proof fn law_pieces_make_the_whole(s: Seq<char>, c: char)
    ensures
        forall|i: int|
        0 <= i < pieces(s, is_char(c)).len() ==> !(#[trigger] pieces(s, is_char(c))[i]).contains(c),
        joined(pieces(s, is_char(c)), seq![c]) == s,
    decreases s.len(),
{
    let all = pieces(s, is_char(c));
    if s.len() == 0 {
        assert(all.len() == 1 && all[0] == Seq::<char>::empty());
        assert(joined(all, seq![c]) =~= s);
    } else {
        let less = pieces(s.drop_last(), is_char(c));
        law_pieces_make_the_whole(s.drop_last(), c);
        lemma_pieces_nonempty(s.drop_last(), is_char(c));
        assert(s =~= s.drop_last().push(s.last()));
        if s.last() == c {
            assert(all.drop_last() =~= less);
            assert(joined(all, seq![c]) =~= s);
        } else {
            assert forall|i: int| 0 <= i < all.len() implies !(#[trigger] all[i]).contains(c) by {
                if i == all.len() - 1 {
                    assert(!less[i].contains(c));
                    let last = less[i].push(s.last());
                    assert(all[i] == last);
                    if last.contains(c) {
                        let j = choose|j: int| 0 <= j < last.len() && last[j] == c;
                        assert(less[i][j] == c);
                    }
                } else {
                    assert(all[i] == less[i]);
                }
            }
            if less.len() == 1 {
                assert(joined(all, seq![c]) =~= s);
            } else {
                assert(all.drop_last() =~= less.drop_last());
                assert(joined(all, seq![c]) =~= joined(less, seq![c]).push(s.last()));
            }
        }
    }
}

/// Lower case and upper case differ by their letters only, letter by letter, and
/// lower case once more changes nothing.
pub proof fn law_case_is_changed_by_letters(s: Seq<char>)
    ensures
        lowered(s).len() == s.len(),
        lowered(lowered(s)) == lowered(s),
        forall|i: int|
        0 <= i < s.len() && !('A' <= s[i] && s[i] <= 'Z') ==> #[trigger] lowered(s)[i] == s[i],
        forall|i: int|
        0 <= i < s.len() && 'A' <= s[i] && s[i] <= 'Z' ==> (#[trigger] lowered(s)[i]) as int == s[i] as int
            + 32,
{
    assert(lowered(lowered(s)) =~= lowered(s));
}

/// Upper case changes small letters alone, each to its capital.
pub proof fn law_capitals_are_made_of_small_letters(s: Seq<char>)
    ensures
        uppered(s).len() == s.len(),
        forall|i: int|
        0 <= i < s.len() && !('a' <= s[i] && s[i] <= 'z') ==> #[trigger] uppered(s)[i] == s[i],
        forall|i: int|
        0 <= i < s.len() && 'a' <= s[i] && s[i] <= 'z' ==> (#[trigger] uppered(s)[i]) as int == s[i] as int
            - 32,
{
}

} // verus!
