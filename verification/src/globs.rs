//! Glob patterns, and sets of them that are matched together.
//!
//! A pattern is held with two flags: whether only a slash matches a slash, and
//! whether letters match in either case.

use crate::seqs;
use crate::seqs::{find_some, lemma_find_none, lemma_find_step, views};
use globset::{GlobBuilder, GlobSet, GlobSetBuilder};
use vstd::prelude::*;

verus! {

/// A set of patterns.
#[verifier::external_type_specification]
#[verifier::external_body]
pub struct ExGlobSet(globset::GlobSet);

/// The patterns of a set that is yet to be built.
#[verifier::external_type_specification]
#[verifier::external_body]
pub struct ExGlobSetBuilder(globset::GlobSetBuilder);

/// Whether a pattern can be read.
pub uninterp spec fn is_glob(pattern: Seq<char>, literal: bool, fold: bool) -> bool;

/// Whether a pattern matches a path.
pub uninterp spec fn glob_hits(
    pattern: Seq<char>,
    literal: bool,
    fold: bool,
    path: Seq<char>,
) -> bool;

/// Whether a set can be built of patterns.
pub uninterp spec fn set_builds(globs: Seq<(Seq<char>, bool, bool)>) -> bool;

/// The patterns that were added to a set that is yet to be built.
pub uninterp spec fn listed(b: GlobSetBuilder) -> Seq<(Seq<char>, bool, bool)>;

/// The patterns of a set.
pub uninterp spec fn held(s: GlobSet) -> Seq<(Seq<char>, bool, bool)>;

/// Whether one of some patterns matches a path.
pub open spec fn any_hit(globs: Seq<(Seq<char>, bool, bool)>, path: Seq<char>) -> bool {
    exists|i: int|
    0 <= i < globs.len() && hits(#[trigger] globs[i], path)
}

/// Whether a pattern matches a path.
pub open spec fn hits(glob: (Seq<char>, bool, bool), path: Seq<char>) -> bool {
    glob_hits(glob.0, glob.1, glob.2, path)
}

/// The positions of the patterns that match a path.
pub open spec fn hit_positions(globs: Seq<(Seq<char>, bool, bool)>, path: Seq<char>) -> Seq<usize>
    decreases globs.len(),
{
    if globs.len() == 0 {
        Seq::empty()
    } else {
        let rest = hit_positions(globs.drop_last(), path);
        if hits(globs.last(), path) {
            rest.push((globs.len() - 1) as usize)
        } else {
            rest
        }
    }
}

/// Calls `GlobSetBuilder::new`: no pattern has been added yet.
#[verifier::external_body]
pub(crate) fn new_set() -> (r: GlobSetBuilder)
    ensures
        listed(r) == Seq::<(Seq<char>, bool, bool)>::empty(),
{
    GlobSetBuilder::new()
}

/// Calls `GlobBuilder::build` for a pattern with its two flags, and
/// `GlobSetBuilder::add` where it could be read. Whether it can be read depends
/// on the pattern and the flags alone, where paths are separated by `/`.
#[verifier::external_body]
pub(crate) fn add_glob(b: &mut GlobSetBuilder, pattern: &str, literal: bool, fold: bool) -> (r: bool)
    ensures
        r == is_glob(pattern@, literal, fold),
        r ==> listed(*final(b)) == listed(*old(b)).push((pattern@, literal, fold)),
        !r ==> listed(*final(b)) == listed(*old(b)),
{
    match GlobBuilder::new(pattern).literal_separator(literal).case_insensitive(fold).build() {
        Ok(glob) => {
            b.add(glob);
            true
        },
        Err(_) => false,
    }
}

/// Calls `GlobSetBuilder::build`: the set holds the patterns that were added.
/// Whether it can be built depends on the patterns alone; of no patterns it
/// always can.
#[verifier::external_body]
pub(crate) fn build_set(b: &GlobSetBuilder) -> (r: Option<GlobSet>)
    ensures
        r is Some == set_builds(listed(*b)),
        listed(*b).len() == 0 ==> r is Some,
        r matches Some(s) ==> held(s) == listed(*b),
{
    b.build().ok()
}

/// Calls `GlobSet::is_match`: whether one of the patterns matches.
#[verifier::external_body]
pub(crate) fn is_match(s: &GlobSet, path: &str) -> (r: bool)
    ensures
        r == (exists|i: int|
            0 <= i < held(*s).len() && glob_hits(
                (#[trigger] held(*s)[i]).0,
                held(*s)[i].1,
                held(*s)[i].2,
                path@,
        )),
{
    s.is_match(path)
}

/// Calls `GlobSet::matches`: the positions of the patterns that match, in
/// ascending order.
#[verifier::external_body]
pub(crate) fn matches(s: &GlobSet, path: &str) -> (r: Vec<usize>)
    ensures
        r@ == hit_positions(held(*s), path@),
{
    s.matches(path)
}

/// Patterns with the same flags.
pub open spec fn globs_of(patterns: Seq<Seq<char>>, literal: bool, fold: bool) -> Seq<
(Seq<char>, bool, bool),
> {
    patterns.map_values(|p: Seq<char>| (p, literal, fold))
}

/// A pattern that cannot be read.
pub open spec fn if_bad() -> spec_fn((Seq<char>, bool, bool)) -> Option<Seq<char>> {
    |g: (Seq<char>, bool, bool)|
    if is_glob(g.0, g.1, g.2) {
        None
    } else {
        Some(g.0)
    }
}

/// Adds patterns to a set that is yet to be built, up to the first one that
/// cannot be read.
pub fn add_globs(b: &mut GlobSetBuilder, patterns: &Vec<String>, literal: bool, fold: bool) -> (r:
    Result<(), String>)
    ensures
        match find_some(globs_of(views(patterns@), literal, fold), if_bad()) {
            Some(p) => r matches Err(e) && e@ == p,
            None => r is Ok && listed(*final(b)) == listed(*old(b)) + globs_of(
                views(patterns@),
                literal,
                fold,
            ),
        },
{
    let ghost globs = globs_of(views(patterns@), literal, fold);
    let ghost f = if_bad();
    let ghost before = listed(*b);
    assert(globs.skip(0) =~= globs);
    assert(before + globs.take(0) =~= before);
    let mut i: usize = 0;
    while i < patterns.len()
        invariant
            i <= patterns@.len(),
            globs == globs_of(views(patterns@), literal, fold),
            f == if_bad(),
            listed(*b) == before + globs.take(i as int),
            find_some(globs, f) == find_some(globs.skip(i as int), f),
        decreases patterns@.len() - i,
    {
        proof {
            lemma_find_step(globs, i as int, f);
        }
        assert(globs[i as int] == (patterns@[i as int]@, literal, fold));
        if !add_glob(b, patterns[i].as_str(), literal, fold) {
            return Err(patterns[i].clone());
        }
        assert(before + globs.take(i + 1) =~= (before + globs.take(i as int)).push(globs[i as int]));
        i += 1;
    }
    proof {
        lemma_find_none(globs.skip(i as int), f);
    }
    assert(globs.take(i as int) =~= globs);
    Ok(())
}

/// Why a set of patterns is refused.
#[derive(Debug, Clone)]
pub enum SetError {
    /// A pattern cannot be read.
    Pattern(String),
    /// The patterns cannot be matched together.
    Together,
}

/// Whether a set is refused, and `e` is the reason.
pub open spec fn set_refused(globs: Seq<(Seq<char>, bool, bool)>, e: SetError) -> bool {
    match find_some(globs, if_bad()) {
        Some(p) => e matches SetError::Pattern(t) && t@ == p,
        None => e is Together && !set_builds(globs),
    }
}

/// Whether a set can be made of patterns.
pub open spec fn set_fits(globs: Seq<(Seq<char>, bool, bool)>) -> bool {
    find_some(globs, if_bad()) is None && set_builds(globs)
}

/// The set of some patterns.
pub fn compile_set(patterns: &Vec<String>, literal: bool, fold: bool) -> (r: Result<
    GlobSet,
    SetError,
    >)
    ensures
        match r {
            Ok(s) => set_fits(globs_of(views(patterns@), literal, fold)) && held(s) == globs_of(
                views(patterns@),
                literal,
                fold,
            ),
            Err(e) => !set_fits(globs_of(views(patterns@), literal, fold)) && set_refused(
                globs_of(views(patterns@), literal, fold),
                e,
            ),
        },
{
    let mut b = new_set();
    if let Err(p) = add_globs(&mut b, patterns, literal, fold) {
        return Err(SetError::Pattern(p));
    }
    assert(listed(b) =~= globs_of(views(patterns@), literal, fold));
    match build_set(&b) {
        Some(s) => Ok(s),
        None => Err(SetError::Together),
    }
}

/// The set of one pattern for names, letters in either case.
pub fn name_set(pattern: &str) -> (r: Option<GlobSet>)
    ensures
        r is Some == (is_glob(pattern@, false, true) && set_builds(seq![(pattern@, false, true)])),
        r matches Some(s) ==> held(s) == seq![(pattern@, false, true)],
{
    let mut b = new_set();
    if !add_glob(&mut b, pattern, false, true) {
        return None;
    }
    assert(listed(b) =~= seq![(pattern@, false, true)]);
    build_set(&b)
}

/// Whether a set matches one of some names.
pub open spec fn any_name_hit(globs: Seq<(Seq<char>, bool, bool)>, names: Seq<Seq<char>>) -> bool {
    exists|i: int| 0 <= i < names.len() && any_hit(globs, #[trigger] names[i])
}

/// Whether a set matches one of some names.
pub fn matches_any(s: &GlobSet, names: &Vec<String>) -> (r: bool)
    ensures
        r == any_name_hit(held(*s), views(names@)),
{
    let ghost all = views(names@);
    let mut i: usize = 0;
    while i < names.len()
        invariant
            i <= names@.len(),
            all == views(names@),
            forall|j: int| 0 <= j < i ==> !any_hit(held(*s), #[trigger] all[j]),
        decreases names@.len() - i,
    {
        assert(all[i as int] == names@[i as int]@);
        if is_match(s, names[i].as_str()) {
            assert(any_hit(held(*s), all[i as int]));
            return true;
        }
        i += 1;
    }
    false
}

/// The positions that hit are those of the patterns that match, in order, each once.
pub proof fn law_first_hit_comes_first(globs: Seq<(Seq<char>, bool, bool)>, path: Seq<char>)
    requires
        globs.len() <= usize::MAX,
    ensures
        forall|i: int|
        0 <= i < hit_positions(globs, path).len() ==> (#[trigger] hit_positions(globs, path)[i]) < globs.len()
            && hits(globs[hit_positions(globs, path)[i] as int], path),
        forall|i: int, j: int|
        #![trigger hit_positions(globs, path)[i], hit_positions(globs, path)[j]]
        0 <= i < j < hit_positions(globs, path).len() ==> hit_positions(globs, path)[i]
            < hit_positions(globs, path)[j],
        forall|k: int|
        0 <= k < globs.len() && hits(#[trigger] globs[k], path) ==> hit_positions(globs, path).contains(
            k as usize,
        ),
        hit_positions(globs, path).len() > 0 ==> forall|k: int|
        0 <= k < hit_positions(globs, path)[0] ==> !hits(#[trigger] globs[k], path),
        hit_positions(globs, path).len() == 0 <==> !any_hit(globs, path),
    decreases globs.len(),
{
    let all = hit_positions(globs, path);
    if globs.len() > 0 {
        let less = globs.drop_last();
        let rest = hit_positions(less, path);
        let last = globs.len() - 1;
        law_first_hit_comes_first(less, path);
        assert forall|i: int| 0 <= i < all.len() implies (#[trigger] all[i]) < globs.len() && hits(
            globs[all[i] as int],
            path,
        ) by {
            if i < rest.len() {
                assert(all[i] == rest[i]);
                assert(less[rest[i] as int] == globs[rest[i] as int]);
            }
        }
        assert forall|i: int, j: int|
        #![trigger all[i], all[j]]
        0 <= i < j < all.len() implies all[i] < all[j] by {
            assert(all[i] == rest[i]);
            if j < rest.len() {
                assert(all[j] == rest[j]);
            }
        }
        assert forall|k: int| 0 <= k < globs.len() && hits(#[trigger] globs[k], path) implies all.contains(
            k as usize,
        ) by {
            if k < last {
                assert(less[k] == globs[k]);
                assert(rest.contains(k as usize));
                let i = choose|i: int| 0 <= i < rest.len() && rest[i] == k as usize;
                assert(all[i] == k as usize);
            } else {
                assert(all[rest.len() as int] == k as usize);
            }
        }
        if all.len() > 0 {
            assert forall|k: int| 0 <= k < all[0] implies !hits(#[trigger] globs[k], path) by {
                if hits(globs[k], path) {
                    assert(all.contains(k as usize));
                    let i = choose|i: int| 0 <= i < all.len() && all[i] == k as usize;
                    if i > 0 {
                        assert(all[0] < all[i]);
                    }
                }
            }
            assert(hits(globs[all[0] as int], path));
        } else {
            assert forall|k: int| 0 <= k < globs.len() implies !hits(#[trigger] globs[k], path) by {
                if hits(globs[k], path) {
                    assert(all.contains(k as usize));
                }
            }
        }
    }
}

/// A set of patterns can be built exactly where each pattern can be read and they fit
/// together; otherwise the first that cannot be read is told.
pub proof fn law_sets_need_readable_patterns(globs: Seq<(Seq<char>, bool, bool)>, e: SetError)
    ensures
        set_fits(globs) <==> set_builds(globs) && forall|i: int|
        0 <= i < globs.len() ==> is_glob((#[trigger] globs[i]).0, globs[i].1, globs[i].2),
        set_refused(globs, e) ==> match e {
            SetError::Pattern(t) => exists|i: int|
            0 <= i < globs.len() && !is_glob((#[trigger] globs[i]).0, globs[i].1, globs[i].2) && globs[i].0
                == t@ && forall|j: int|
            0 <= j < i ==> is_glob((#[trigger] globs[j]).0, globs[j].1, globs[j].2),
            SetError::Together => !set_builds(globs) && forall|i: int|
            0 <= i < globs.len() ==> is_glob((#[trigger] globs[i]).0, globs[i].1, globs[i].2),
        },
{
    seqs::law_found_is_made(globs, if_bad());
    let f = if_bad();
    match find_some(globs, f) {
        Some(p) => {
            let i = choose|i: int|
            0 <= i < globs.len() && f(#[trigger] globs[i]) == Some(p) && forall|j: int|
            0 <= j < i ==> f(#[trigger] globs[j]) is None;
            assert(!is_glob(globs[i].0, globs[i].1, globs[i].2) && globs[i].0 == p);
            assert forall|j: int| 0 <= j < i implies is_glob(
                (#[trigger] globs[j]).0,
                globs[j].1,
                globs[j].2,
            ) by {
                assert(f(globs[j]) is None);
            }
        },
        None => {
            assert forall|i: int| 0 <= i < globs.len() implies is_glob(
                (#[trigger] globs[i]).0,
                globs[i].1,
                globs[i].2,
            ) by {
                assert(f(globs[i]) is None);
            }
        },
    }
}

} // verus!
