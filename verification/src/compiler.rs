//! Compiles rule definitions into tables, so that an entry is matched by a look
//! at its name and a few predicates.

use crate::globs;
use crate::globs::{SetError, any_hit, compile_set, globs_of, held, if_bad, listed, set_builds};
use crate::rules::{RuleDef, Safety, SizeError, parse_size, refused_size, size_of_text};
use crate::seqs::{find_some, flatten_map, group_views, lemma_flatten_step, views};
use crate::text;
use crate::text::{lower_case, same};
use globset::{GlobSet, GlobSetBuilder};
use vstd::prelude::*;

verus! {

broadcast use group_views;

/// A rule with what was worked out of its definition.
pub struct CompiledRule {
    pub def: RuleDef,
    pub sibling_any: Option<GlobSet>,
    /// Bits in the ancestor mask that disqualify this rule.
    pub exclude_mask: u64,
    pub min_size_bytes: u64,
    pub min_file_size_bytes: u64,
    pub min_age_secs: i64,
    pub process_names_lower: Vec<String>,
}

/// The rules in the form in which entries are matched.
pub struct Engine {
    pub rules: Vec<CompiledRule>,
    /// Lowercase directory basenames, each with a rule that claims it.
    pub dir_names: Vec<(String, usize)>,
    /// Lowercase file basenames, each with a rule that counts it.
    pub file_names: Vec<(String, usize)>,
    /// Lowercase suffixes, each with a rule that counts it.
    pub file_suffixes: Vec<(String, usize)>,
    /// Residual full-path globs, matched together.
    pub path_globs: GlobSet,
    pub path_glob_rules: Vec<usize>,
    /// Lowercase ancestor names; the position of one is its bit in the descent
    /// mask.
    pub ancestor_names: Vec<String>,
    /// Protection: full-path globs from protect rules and user config.
    pub protect_globs: GlobSet,
    /// Targeted work items: root patterns with `~` expanded, each with its rule.
    pub targeted: Vec<(String, usize)>,
}

/// Why rules cannot be compiled.
#[derive(Debug, Clone)]
pub enum CompileError {
    /// More than 64 distinct `exclude_ancestors` names.
    TooManyAncestors,
    /// A glob cannot be read.
    InvalidGlob(String),
    /// The `require_sibling_any` globs of a rule cannot be matched together.
    BadSiblings(String),
    /// A minimum size cannot be read.
    BadSize(SizeError),
    /// The path globs cannot be matched together.
    BadPathGlobs,
    /// The protect globs cannot be matched together.
    BadProtectGlobs,
}

/// What stands in the way of compiling rules.
pub enum Fault {
    TooManyAncestors,
    InvalidGlob(Seq<char>),
    BadSiblings(Seq<char>),
    BadSize(Seq<char>),
    BadPathGlobs,
    BadProtectGlobs,
}

/// Whether an error reports a fault.
pub open spec fn reports(e: CompileError, f: Fault) -> bool {
    match f {
        Fault::TooManyAncestors => e is TooManyAncestors,
        Fault::InvalidGlob(p) => e matches CompileError::InvalidGlob(t) && t@ == p,
        Fault::BadSiblings(id) => e matches CompileError::BadSiblings(t) && t@ == id,
        Fault::BadSize(s) => e matches CompileError::BadSize(why) && refused_size(s, why),
        Fault::BadPathGlobs => e is BadPathGlobs,
        Fault::BadProtectGlobs => e is BadProtectGlobs,
    }
}

impl CompileError {
    /// What the error says.
    pub open spec fn said(self) -> Seq<char> {
        match self {
            CompileError::TooManyAncestors => "more than 64 distinct exclude_ancestors names"@,
            CompileError::InvalidGlob(p) => "invalid glob: "@ + p@,
            CompileError::BadSiblings(id) => "rule "@ + id@ + ": bad require_sibling_any"@,
            CompileError::BadSize(SizeError::BadNumber) => "bad size"@,
            CompileError::BadSize(SizeError::UnknownUnit(u)) => "unknown size unit: "@ + u@,
            CompileError::BadPathGlobs => "bad path_globs"@,
            CompileError::BadProtectGlobs => "bad protect globs"@,
        }
    }

    /// What the error says.
    pub fn message(&self) -> (r: String)
        ensures
            r@ == self.said(),
    {
        match self {
            CompileError::TooManyAncestors => "more than 64 distinct exclude_ancestors names".to_owned(),
            CompileError::InvalidGlob(p) => "invalid glob: ".to_owned().concat(p.as_str()),
            CompileError::BadSiblings(id) => "rule ".to_owned().concat(id.as_str()).concat(
                ": bad require_sibling_any",
            ),
            CompileError::BadSize(SizeError::BadNumber) => "bad size".to_owned(),
            CompileError::BadSize(SizeError::UnknownUnit(u)) => "unknown size unit: ".to_owned().concat(
                u.as_str(),
            ),
            CompileError::BadPathGlobs => "bad path_globs".to_owned(),
            CompileError::BadProtectGlobs => "bad protect globs".to_owned(),
        }
    }
}

// ---- patterns ----

/// A pattern with a leading `~/` replaced by the home directory.
pub open spec fn expanded(pattern: Seq<char>, home: Option<Seq<char>>) -> Seq<char> {
    match (home, text::without_prefix(pattern, "~/"@)) {
        (Some(h), Some(rest)) => text::trim_end_of(h, '/') + "/"@ + rest,
        _ => pattern,
    }
}

/// A pattern with a leading `~/` replaced by the home directory.
pub fn expand_home(pattern: &str, home: Option<&str>) -> (r: String)
    ensures
        r@ == expanded(pattern@, text::shown(home)),
{
    if let Some(h) = home {
        if let Some(rest) = text::strip_prefix(pattern, "~/") {
            return text::trim_end_matches(h, '/').concat("/").concat(rest.as_str());
        }
    }
    pattern.to_owned()
}

/// Some patterns, each expanded.
pub open spec fn expanded_all(patterns: Seq<Seq<char>>, home: Option<Seq<char>>) -> Seq<Seq<char>> {
    patterns.map_values(|p: Seq<char>| expanded(p, home))
}

fn expand_all(patterns: &Vec<String>, home: Option<&str>) -> (r: Vec<String>)
    ensures
        views(r@) == expanded_all(views(patterns@), text::shown(home)),
{
    let ghost all = views(patterns@);
    let ghost h = text::shown(home);
    let mut out: Vec<String> = Vec::new();
    let mut i: usize = 0;
    while i < patterns.len()
        invariant
            i <= patterns@.len(),
            all == views(patterns@),
            h == text::shown(home),
            views(out@) == expanded_all(all.take(i as int), h),
        decreases patterns@.len() - i,
    {
        out.push(expand_home(patterns[i].as_str(), home));
        assert(views(out@) =~= expanded_all(all.take(i + 1), h));
        i += 1;
    }
    assert(all.take(i as int) =~= all);
    out
}

/// Some names, each in lower case.
pub open spec fn lower_all(names: Seq<Seq<char>>) -> Seq<Seq<char>> {
    names.map_values(|n: Seq<char>| lower_case(n))
}

pub(crate) fn lowercase_all(names: &Vec<String>) -> (r: Vec<String>)
    ensures
        views(r@) == lower_all(views(names@)),
{
    let ghost all = views(names@);
    let mut out: Vec<String> = Vec::new();
    let mut i: usize = 0;
    while i < names.len()
        invariant
            i <= names@.len(),
            all == views(names@),
            views(out@) == lower_all(all.take(i as int)),
        decreases names@.len() - i,
    {
        out.push(text::to_lowercase(names[i].as_str()));
        assert(views(out@) =~= lower_all(all.take(i + 1)));
        i += 1;
    }
    assert(all.take(i as int) =~= all);
    out
}

// ---- tables ----

/// Names with rules, as text and numbers.
pub open spec fn pairs(s: Seq<(String, usize)>) -> Seq<(Seq<char>, usize)> {
    s.map_values(|p: (String, usize)| (p.0@, p.1))
}

/// Some names, each with the same rule.
pub open spec fn indexed(names: Seq<Seq<char>>, rule: usize) -> Seq<(Seq<char>, usize)> {
    names.map_values(|n: Seq<char>| (n, rule))
}

/// What the first `n` rules name, each name with its rule.
pub open spec fn table(
    defs: Seq<RuleDef>,
    f: spec_fn(RuleDef) -> Seq<Seq<char>>,
    n: int,
) -> Seq<(Seq<char>, usize)>
    decreases n,
{
    if n <= 0 {
        Seq::empty()
    } else {
        table(defs, f, n - 1) + indexed(f(defs[n - 1]), (n - 1) as usize)
    }
}

fn add_indexed(out: &mut Vec<(String, usize)>, names: Vec<String>, rule: usize)
    ensures
        pairs(final(out)@) == pairs(old(out)@) + indexed(views(names@), rule),
{
    let ghost before = pairs(out@);
    let ghost all = views(names@);
    let mut i: usize = 0;
    assert(before + indexed(all.take(0), rule) =~= before);
    while i < names.len()
        invariant
            i <= names@.len(),
            all == views(names@),
            pairs(out@) == before + indexed(all.take(i as int), rule),
        decreases names@.len() - i,
    {
        let name = names[i].clone();
        assert(name@ == all[i as int]);
        let ghost earlier = out@;
        out.push((name, rule));
        assert(pairs(out@) =~= pairs(earlier).push((name@, rule)));
        assert(indexed(all.take(i + 1), rule) =~= indexed(all.take(i as int), rule).push((name@, rule)));
        i += 1;
    }
    assert(all.take(i as int) =~= all);
}

/// Whether a rule protects what it names.
pub open spec fn is_protect(d: RuleDef) -> bool {
    d.safety == Safety::Protected
}

fn is_protect_rule(d: &RuleDef) -> (r: bool)
    ensures
        r == is_protect(*d),
{
    d.safety == Safety::Protected
}

/// The lowercase directory names that a rule looks for.
pub open spec fn dir_keys() -> spec_fn(RuleDef) -> Seq<Seq<char>> {
    |d: RuleDef|
    if is_protect(d) {
        Seq::empty()
    } else {
        lower_all(views(d.dir_names@))
    }
}

/// The lowercase file names that a rule looks for.
pub open spec fn file_keys() -> spec_fn(RuleDef) -> Seq<Seq<char>> {
    |d: RuleDef|
    if is_protect(d) {
        Seq::empty()
    } else {
        lower_all(views(d.file_names@))
    }
}

/// The lowercase suffixes that a rule looks for.
pub open spec fn suffix_keys() -> spec_fn(RuleDef) -> Seq<Seq<char>> {
    |d: RuleDef|
    if is_protect(d) {
        Seq::empty()
    } else {
        lower_all(views(d.file_suffixes@))
    }
}

/// The root patterns that a rule looks for, expanded.
pub open spec fn root_keys(home: Option<Seq<char>>) -> spec_fn(RuleDef) -> Seq<Seq<char>> {
    |d: RuleDef|
    if is_protect(d) {
        Seq::empty()
    } else {
        expanded_all(views(d.roots@), home)
    }
}

/// The path globs that a rule looks for, expanded.
pub open spec fn glob_keys(home: Option<Seq<char>>) -> spec_fn(RuleDef) -> Seq<Seq<char>> {
    |d: RuleDef|
    if is_protect(d) {
        Seq::empty()
    } else {
        expanded_all(views(d.path_globs@), home)
    }
}

/// The directory names that rules look for.
fn dir_table(defs: &Vec<RuleDef>) -> (r: Vec<(String, usize)>)
    ensures
        pairs(r@) == table(defs@, dir_keys(), defs@.len() as int),
{
    let ghost f = dir_keys();
    let mut out: Vec<(String, usize)> = Vec::new();
    let mut i: usize = 0;
    assert(pairs(out@) =~= table(defs@, f, 0));
    while i < defs.len()
        invariant
            i <= defs@.len(),
            f == dir_keys(),
            pairs(out@) == table(defs@, f, i as int),
        decreases defs@.len() - i,
    {
        let names = if is_protect_rule(&defs[i]) {
            Vec::new()
        } else {
            lowercase_all(&defs[i].dir_names)
        };
        assert(views(names@) =~= f(defs@[i as int]));
        add_indexed(&mut out, names, i);
        i += 1;
    }
    out
}

/// The file names that rules look for.
fn file_table(defs: &Vec<RuleDef>) -> (r: Vec<(String, usize)>)
    ensures
        pairs(r@) == table(defs@, file_keys(), defs@.len() as int),
{
    let ghost f = file_keys();
    let mut out: Vec<(String, usize)> = Vec::new();
    let mut i: usize = 0;
    assert(pairs(out@) =~= table(defs@, f, 0));
    while i < defs.len()
        invariant
            i <= defs@.len(),
            f == file_keys(),
            pairs(out@) == table(defs@, f, i as int),
        decreases defs@.len() - i,
    {
        let names = if is_protect_rule(&defs[i]) {
            Vec::new()
        } else {
            lowercase_all(&defs[i].file_names)
        };
        assert(views(names@) =~= f(defs@[i as int]));
        add_indexed(&mut out, names, i);
        i += 1;
    }
    out
}

/// The suffixes that rules look for.
fn suffix_table(defs: &Vec<RuleDef>) -> (r: Vec<(String, usize)>)
    ensures
        pairs(r@) == table(defs@, suffix_keys(), defs@.len() as int),
{
    let ghost f = suffix_keys();
    let mut out: Vec<(String, usize)> = Vec::new();
    let mut i: usize = 0;
    assert(pairs(out@) =~= table(defs@, f, 0));
    while i < defs.len()
        invariant
            i <= defs@.len(),
            f == suffix_keys(),
            pairs(out@) == table(defs@, f, i as int),
        decreases defs@.len() - i,
    {
        let names = if is_protect_rule(&defs[i]) {
            Vec::new()
        } else {
            lowercase_all(&defs[i].file_suffixes)
        };
        assert(views(names@) =~= f(defs@[i as int]));
        add_indexed(&mut out, names, i);
        i += 1;
    }
    out
}

/// The roots that rules look for.
fn root_table(defs: &Vec<RuleDef>, home: Option<&str>) -> (r: Vec<(String, usize)>)
    ensures
        pairs(r@) == table(defs@, root_keys(text::shown(home)), defs@.len() as int),
{
    let ghost f = root_keys(text::shown(home));
    let mut out: Vec<(String, usize)> = Vec::new();
    let mut i: usize = 0;
    assert(pairs(out@) =~= table(defs@, f, 0));
    while i < defs.len()
        invariant
            i <= defs@.len(),
            f == root_keys(text::shown(home)),
            pairs(out@) == table(defs@, f, i as int),
        decreases defs@.len() - i,
    {
        let names = if is_protect_rule(&defs[i]) {
            Vec::new()
        } else {
            expand_all(&defs[i].roots, home)
        };
        assert(views(names@) =~= f(defs@[i as int]));
        add_indexed(&mut out, names, i);
        i += 1;
    }
    out
}

/// The path globs that rules look for.
fn glob_table(defs: &Vec<RuleDef>, home: Option<&str>) -> (r: Vec<(String, usize)>)
    ensures
        pairs(r@) == table(defs@, glob_keys(text::shown(home)), defs@.len() as int),
{
    let ghost f = glob_keys(text::shown(home));
    let mut out: Vec<(String, usize)> = Vec::new();
    let mut i: usize = 0;
    assert(pairs(out@) =~= table(defs@, f, 0));
    while i < defs.len()
        invariant
            i <= defs@.len(),
            f == glob_keys(text::shown(home)),
            pairs(out@) == table(defs@, f, i as int),
        decreases defs@.len() - i,
    {
        let names = if is_protect_rule(&defs[i]) {
            Vec::new()
        } else {
            expand_all(&defs[i].path_globs, home)
        };
        assert(views(names@) =~= f(defs@[i as int]));
        add_indexed(&mut out, names, i);
        i += 1;
    }
    out
}

/// The rules of a table.
pub open spec fn rules_of(t: Seq<(Seq<char>, usize)>) -> Seq<usize> {
    t.map_values(|p: (Seq<char>, usize)| p.1)
}

fn second_parts(t: &Vec<(String, usize)>) -> (r: Vec<usize>)
    ensures
        r@ == rules_of(pairs(t@)),
{
    let ghost all = pairs(t@);
    let mut out: Vec<usize> = Vec::new();
    let mut i: usize = 0;
    while i < t.len()
        invariant
            i <= t@.len(),
            all == pairs(t@),
            out@ == rules_of(all.take(i as int)),
        decreases t@.len() - i,
    {
        out.push(t[i].1);
        assert(out@ =~= rules_of(all.take(i + 1)));
        i += 1;
    }
    assert(all.take(i as int) =~= all);
    out
}

// ---- ancestors ----

/// Names to which others were added, in lower case and each once.
pub open spec fn noted(names: Seq<Seq<char>>, more: Seq<Seq<char>>) -> Seq<Seq<char>>
    decreases more.len(),
{
    if more.len() == 0 {
        names
    } else {
        let rest = noted(names, more.drop_last());
        let n = lower_case(more.last());
        if rest.contains(n) {
            rest
        } else {
            rest.push(n)
        }
    }
}

/// The ancestors that the first `n` rules exclude, each once.
pub open spec fn ancestors(defs: Seq<RuleDef>, n: int) -> Seq<Seq<char>>
    decreases n,
{
    if n <= 0 {
        Seq::empty()
    } else {
        noted(ancestors(defs, n - 1), views(defs[n - 1].exclude_ancestors@))
    }
}

/// The bit of a name in the descent mask; no bit where no rule excludes it.
pub open spec fn bit_of(names: Seq<Seq<char>>, name: Seq<char>) -> u64 {
    if names.contains(name) {
        1u64 << (names.index_of(name) as u64)
    } else {
        0
    }
}

/// The bits of some names.
pub open spec fn mask_of(names: Seq<Seq<char>>, excluded: Seq<Seq<char>>) -> u64
    decreases excluded.len(),
{
    if excluded.len() == 0 {
        0
    } else {
        mask_of(names, excluded.drop_last()) | bit_of(names, lower_case(excluded.last()))
    }
}

proof fn lemma_noted_unique(names: Seq<Seq<char>>, more: Seq<Seq<char>>)
    requires
        names.no_duplicates(),
    ensures
        noted(names, more).no_duplicates(),
    decreases more.len(),
{
    if more.len() > 0 {
        lemma_noted_unique(names, more.drop_last());
        let rest = noted(names, more.drop_last());
        let n = lower_case(more.last());
        if !rest.contains(n) {
            let all = rest.push(n);
            assert forall|i: int, j: int| 0 <= i < all.len() && 0 <= j < all.len() && i != j implies all[i]
            != all[j] by {
                if i == rest.len() {
                    assert(rest.contains(rest[j]));
                } else if j == rest.len() {
                    assert(rest.contains(rest[i]));
                }
            }
        }
    }
}

fn note_ancestors(names: &mut Vec<String>, more: &Vec<String>)
    ensures
        views(final(names)@) == noted(views(old(names)@), views(more@)),
{
    let ghost before = views(names@);
    let ghost all = views(more@);
    let mut i: usize = 0;
    assert(all.take(0) =~= Seq::<Seq<char>>::empty());
    while i < more.len()
        invariant
            i <= more@.len(),
            all == views(more@),
            views(names@) == noted(before, all.take(i as int)),
        decreases more@.len() - i,
    {
        assert(all.take(i + 1).drop_last() =~= all.take(i as int));
        assert(all[i as int] == more@[i as int]@);
        let n = text::to_lowercase(more[i].as_str());
        if !text::among(n.as_str(), names) {
            names.push(n);
        }
        i += 1;
    }
    assert(all.take(i as int) =~= all);
}

fn name_bit(names: &Vec<String>, name: &str) -> (r: u64)
    requires
        names@.len() <= 64,
        views(names@).no_duplicates(),
    ensures
        r == bit_of(views(names@), name@),
{
    let ghost all = views(names@);
    let mut i: usize = 0;
    while i < names.len()
        invariant
            i <= names@.len(),
            names@.len() <= 64,
            all == views(names@),
            all.no_duplicates(),
            forall|j: int| 0 <= j < i ==> all[j] != name@,
        decreases names@.len() - i,
    {
        assert(all[i as int] == names@[i as int]@);
        if same(names[i].as_str(), name) {
            proof {
                assert(all.contains(name@));
                let k = all.index_of(name@);
                assert(all[k] == name@ && 0 <= k < all.len());
                assert(k == i);
            }
            return 1u64 << (i as u64);
        }
        i += 1;
    }
    assert(!all.contains(name@));
    0
}

fn exclude_bits(names: &Vec<String>, excluded: &Vec<String>) -> (r: u64)
    requires
        names@.len() <= 64,
        views(names@).no_duplicates(),
    ensures
        r == mask_of(views(names@), views(excluded@)),
{
    let ghost ns = views(names@);
    let ghost all = views(excluded@);
    let mut mask: u64 = 0;
    let mut i: usize = 0;
    assert(all.take(0) =~= Seq::<Seq<char>>::empty());
    while i < excluded.len()
        invariant
            i <= excluded@.len(),
            names@.len() <= 64,
            ns == views(names@),
            ns.no_duplicates(),
            all == views(excluded@),
            mask == mask_of(ns, all.take(i as int)),
        decreases excluded@.len() - i,
    {
        assert(all.take(i + 1).drop_last() =~= all.take(i as int));
        assert(all[i as int] == excluded@[i as int]@);
        let n = text::to_lowercase(excluded[i].as_str());
        mask = mask | name_bit(names, n.as_str());
        i += 1;
    }
    assert(all.take(i as int) =~= all);
    mask
}

// ---- one rule ----

/// The globs by which a root is protected with all below it.
pub open spec fn root_shields(home: Option<Seq<char>>, fold: bool) -> spec_fn(Seq<char>) -> Seq<
(Seq<char>, bool, bool),
> {
    |root: Seq<char>|
    seq![
        (expanded(root, home), true, fold),
        (text::trim_end_of(expanded(root, home), '/') + "/**"@, true, fold),
    ]
}

/// The globs by which a rule protects.
pub open spec fn shields(home: Option<Seq<char>>, fold: bool) -> spec_fn(RuleDef) -> Seq<
(Seq<char>, bool, bool),
> {
    |d: RuleDef|
    if is_protect(d) {
        flatten_map(views(d.roots@), root_shields(home, fold)) + globs_of(
            expanded_all(views(d.path_globs@), home),
            true,
            fold,
        )
    } else {
        Seq::empty()
    }
}

/// The globs by which a rule looks for files.
pub open spec fn seekers(home: Option<Seq<char>>, fold: bool) -> spec_fn(RuleDef) -> Seq<
(Seq<char>, bool, bool),
> {
    |d: RuleDef| globs_of(glob_keys(home)(d), true, fold)
}

/// Whether a minimum size cannot be read.
pub open spec fn bad_size(size: Option<String>) -> bool {
    match size {
        Some(s) => size_of_text(s@) is Err,
        None => false,
    }
}

/// The bytes of a minimum size; none where there is none.
pub open spec fn size_or_zero(size: Option<String>) -> u64 {
    match size {
        Some(s) => match size_of_text(s@) {
            Ok(n) => n,
            Err(_) => 0,
        },
        None => 0,
    }
}

/// What stands in the way of compiling one rule, apart from its ancestors.
pub open spec fn rule_fault(d: RuleDef, home: Option<Seq<char>>, fold: bool) -> Option<Fault> {
    let siblings = globs_of(views(d.require_sibling_any@), false, true);
    let globs = shields(home, fold)(d) + seekers(home, fold)(d);
    if siblings.len() > 0 && find_some(siblings, if_bad()) is Some {
        Some(Fault::InvalidGlob(find_some(siblings, if_bad())->0))
    } else if siblings.len() > 0 && !set_builds(siblings) {
        Some(Fault::BadSiblings(d.id@))
    } else if find_some(globs, if_bad()) is Some {
        Some(Fault::InvalidGlob(find_some(globs, if_bad())->0))
    } else if bad_size(d.min_size) {
        Some(Fault::BadSize(d.min_size->0@))
    } else if bad_size(d.min_file_size) {
        Some(Fault::BadSize(d.min_file_size->0@))
    } else {
        None
    }
}

/// The days of a rule's age gate.
pub open spec fn gate_days(d: RuleDef) -> u64 {
    match d.min_age_days {
        Some(n) => n,
        None => 0,
    }
}

/// Whether the age gate of a rule fits in seconds.
pub open spec fn gate_fits(d: RuleDef) -> bool {
    gate_days(d) * 86_400 <= i64::MAX
}

/// What is worked out of the definition of a rule.
struct RuleParts {
    sibling_any: Option<GlobSet>,
    min_size_bytes: u64,
    min_file_size_bytes: u64,
    min_age_secs: i64,
}

spec fn parts_are(p: RuleParts, d: RuleDef) -> bool {
    &&& siblings_are(p.sibling_any, d)
    &&& p.min_size_bytes == size_or_zero(d.min_size)
    &&& p.min_file_size_bytes == size_or_zero(d.min_file_size)
    &&& p.min_age_secs == gate_days(d) * 86_400
}

/// Whether a set is that of the siblings that a rule asks for.
pub open spec fn siblings_are(s: Option<GlobSet>, d: RuleDef) -> bool {
    if d.require_sibling_any@.len() == 0 {
        s is None
    } else {
        s matches Some(set) && held(set) == globs_of(views(d.require_sibling_any@), false, true)
    }
}

fn read_size(size: &Option<String>) -> (r: Result<u64, CompileError>)
    ensures
        match r {
            Ok(n) => !bad_size(*size) && n == size_or_zero(*size),
            Err(e) => bad_size(*size) && reports(e, Fault::BadSize(size->0@)),
        },
{
    match size {
        Some(s) => match parse_size(s.as_str()) {
            Ok(n) => Ok(n),
            Err(e) => Err(CompileError::BadSize(e)),
        },
        None => Ok(0),
    }
}

proof fn lemma_find_concat<A, B>(a: Seq<A>, b: Seq<A>, f: spec_fn(A) -> Option<B>)
    ensures
        find_some(a + b, f) == match find_some(a, f) {
            Some(x) => Some(x),
            None => find_some(b, f),
        },
    decreases a.len(),
{
    if a.len() == 0 {
        assert(a + b =~= b);
    } else {
        assert((a + b).skip(1) =~= a.skip(1) + b);
        lemma_find_concat(a.skip(1), b, f);
    }
}

/// Adds the globs by which a rule protects its roots.
fn add_shields(b: &mut GlobSetBuilder, roots: &Vec<String>, home: Option<&str>, fold: bool) -> (r:
    Result<(), CompileError>)
    ensures
        match find_some(
            flatten_map(views(roots@), root_shields(text::shown(home), fold)),
            if_bad(),
        ) {
            Some(p) => r matches Err(e) && reports(e, Fault::InvalidGlob(p)),
            None => r is Ok && listed(*final(b)) == listed(*old(b)) + flatten_map(
                views(roots@),
                root_shields(text::shown(home), fold),
            ),
        },
{
    let ghost before = listed(*b);
    let ghost all = views(roots@);
    let ghost f = root_shields(text::shown(home), fold);
    let ghost bad = if_bad();
    let mut i: usize = 0;
    assert(all.take(0) =~= Seq::<Seq<char>>::empty());
    assert(before + flatten_map(all.take(0), f) =~= before);
    while i < roots.len()
        invariant
            i <= roots@.len(),
            all == views(roots@),
            f == root_shields(text::shown(home), fold),
            bad == if_bad(),
            listed(*b) == before + flatten_map(all.take(i as int), f),
            find_some(flatten_map(all.take(i as int), f), bad) is None,
        decreases roots@.len() - i,
    {
        assert(all[i as int] == roots@[i as int]@);
        let ghost head = flatten_map(all.take(i as int), f);
        let ghost two = f(all[i as int]);
        let ghost rest = flatten_map(all.skip(i + 1), f);
        proof {
            lemma_flatten_step(all, i as int, f);
            lemma_find_concat(head, two, bad);
            lemma_flatten_split(all, i as int, f);
            lemma_find_concat(head, two + rest, bad);
            lemma_find_concat(two, rest, bad);
            lemma_find_two(two, bad);
        }
        let e = expand_home(roots[i].as_str(), home);
        if !globs::add_glob(b, e.as_str(), true, fold) {
            return Err(CompileError::InvalidGlob(e));
        }
        let below = text::trim_end_matches(e.as_str(), '/').concat("/**");
        if !globs::add_glob(b, below.as_str(), true, fold) {
            return Err(CompileError::InvalidGlob(below));
        }
        assert(before + (head + two) =~= (before + head).push(two[0]).push(two[1]));
        i += 1;
    }
    assert(all.take(i as int) =~= all);
    Ok(())
}

/// A flattened list, around one of its parts.
proof fn lemma_flatten_split<A, B>(s: Seq<A>, i: int, f: spec_fn(A) -> Seq<B>)
    requires
        0 <= i < s.len(),
    ensures
        flatten_map(s, f) == flatten_map(s.take(i), f) + (f(s[i]) + flatten_map(s.skip(i + 1), f)),
    decreases s.len(),
{
    if i == s.len() - 1 {
        assert(s.drop_last() =~= s.take(i));
        assert(s.skip(i + 1) =~= Seq::<A>::empty());
        assert(f(s[i]) + flatten_map(s.skip(i + 1), f) =~= f(s[i]));
    } else {
        let t = s.drop_last();
        lemma_flatten_split(t, i, f);
        assert(t.take(i) =~= s.take(i));
        assert(t.skip(i + 1) =~= s.skip(i + 1).drop_last());
        assert(s.skip(i + 1).last() == s.last());
        let a = flatten_map(s.take(i), f);
        let b = flatten_map(t.skip(i + 1), f);
        assert(a + (f(s[i]) + b) + f(s.last()) =~= a + (f(s[i]) + (b + f(s.last()))));
    }
}

proof fn lemma_find_two<A, B>(two: Seq<A>, f: spec_fn(A) -> Option<B>)
    requires
        two.len() == 2,
    ensures
        find_some(two, f) == match f(two[0]) {
            Some(x) => Some(x),
            None => f(two[1]),
        },
{
    assert(two.skip(1).skip(1) =~= Seq::<A>::empty());
    assert(two.skip(1)[0] == two[1]);
    reveal_with_fuel(find_some, 3);
}

/// Works out what the definition of a rule says, and adds its globs.
fn compile_rule(
    d: &RuleDef,
    home: Option<&str>,
    fold: bool,
    seek: &mut GlobSetBuilder,
    shield: &mut GlobSetBuilder,
) -> (r: Result<RuleParts, CompileError>)
    requires
        gate_fits(*d),
    ensures
        match rule_fault(*d, text::shown(home), fold) {
            Some(f) => r matches Err(e) && reports(e, f),
            None => r matches Ok(p) && parts_are(p, *d) && listed(*final(seek)) == listed(*old(seek))
                + seekers(text::shown(home), fold)(*d) && listed(*final(shield)) == listed(
                *old(shield),
            ) + shields(text::shown(home), fold)(*d),
        },
{
    let ghost h = text::shown(home);
    let ghost siblings = globs_of(views(d.require_sibling_any@), false, true);
    assert(siblings.len() == d.require_sibling_any@.len());
    let sibling_any = if d.require_sibling_any.len() == 0 {
        None
    } else {
        match compile_set(&d.require_sibling_any, false, true) {
            Ok(s) => Some(s),
            Err(SetError::Pattern(p)) => {
                return Err(CompileError::InvalidGlob(p));
            },
            Err(SetError::Together) => {
                return Err(CompileError::BadSiblings(d.id.clone()));
            },
        }
    };
    let ghost root_globs = flatten_map(views(d.roots@), root_shields(h, fold));
    let ghost path_globs = globs_of(expanded_all(views(d.path_globs@), h), true, fold);
    let ghost seek_before = listed(*seek);
    let ghost shield_before = listed(*shield);
    let globs = expand_all(&d.path_globs, home);
    if is_protect_rule(d) {
        assert(seekers(h, fold)(*d) =~= Seq::<(Seq<char>, bool, bool)>::empty());
        assert(shields(h, fold)(*d) + seekers(h, fold)(*d) =~= root_globs + path_globs);
        proof {
            lemma_find_concat(root_globs, path_globs, if_bad());
        }
        if let Err(e) = add_shields(shield, &d.roots, home, fold) {
            return Err(e);
        }
        if let Err(p) = globs::add_globs(shield, &globs, true, fold) {
            return Err(CompileError::InvalidGlob(p));
        }
        assert((shield_before + root_globs) + path_globs =~= shield_before + (root_globs + path_globs));
        assert(seek_before + seekers(h, fold)(*d) =~= seek_before);
    } else {
        assert(shields(h, fold)(*d) + seekers(h, fold)(*d) =~= path_globs);
        if let Err(p) = globs::add_globs(seek, &globs, true, fold) {
            return Err(CompileError::InvalidGlob(p));
        }
        assert(shield_before + shields(h, fold)(*d) =~= shield_before);
    }
    let min_size_bytes: u64 = match read_size(&d.min_size) {
        Ok(n) => n,
        Err(e) => {
            return Err(e);
        },
    };
    let min_file_size_bytes: u64 = match read_size(&d.min_file_size) {
        Ok(n) => n,
        Err(e) => {
            return Err(e);
        },
    };
    let days: u64 = match d.min_age_days {
        Some(n) => n,
        None => 0,
    };
    let min_age_secs: i64 = (days * 86_400) as i64;
    Ok(RuleParts { sibling_any, min_size_bytes, min_file_size_bytes, min_age_secs })
}

// ---- all rules ----

/// What stands in the way of compiling the first `n` rules.
pub open spec fn first_fault(
    defs: Seq<RuleDef>,
    home: Option<Seq<char>>,
    fold: bool,
    n: int,
) -> Option<Fault>
    decreases n,
{
    if n <= 0 {
        None
    } else {
        match first_fault(defs, home, fold, n - 1) {
            Some(f) => Some(f),
            None => if ancestors(defs, n).len() > 64 {
                Some(Fault::TooManyAncestors)
            } else {
                rule_fault(defs[n - 1], home, fold)
            },
        }
    }
}

/// The globs by which files are looked for.
pub open spec fn all_seekers(defs: Seq<RuleDef>, home: Option<Seq<char>>, fold: bool) -> Seq<
(Seq<char>, bool, bool),
> {
    flatten_map(defs, seekers(home, fold))
}

/// The globs by which the user protects.
pub open spec fn extra_shields(extra: Seq<Seq<char>>, home: Option<Seq<char>>, fold: bool) -> Seq<
(Seq<char>, bool, bool),
> {
    globs_of(expanded_all(extra, home), true, fold)
}

/// The globs by which rules and the user protect.
pub open spec fn all_shields(
    defs: Seq<RuleDef>,
    extra: Seq<Seq<char>>,
    home: Option<Seq<char>>,
    fold: bool,
) -> Seq<(Seq<char>, bool, bool)> {
    flatten_map(defs, shields(home, fold)) + extra_shields(extra, home, fold)
}

/// What stands in the way of compiling rules.
pub open spec fn compile_fault(
    defs: Seq<RuleDef>,
    extra: Seq<Seq<char>>,
    home: Option<Seq<char>>,
    fold: bool,
) -> Option<Fault> {
    match first_fault(defs, home, fold, defs.len() as int) {
        Some(f) => Some(f),
        None => match find_some(extra_shields(extra, home, fold), if_bad()) {
            Some(p) => Some(Fault::InvalidGlob(p)),
            None => if !set_builds(all_seekers(defs, home, fold)) {
                Some(Fault::BadPathGlobs)
            } else if !set_builds(all_shields(defs, extra, home, fold)) {
                Some(Fault::BadProtectGlobs)
            } else {
                None
            },
        },
    }
}

/// Whether a compiled rule is that of a definition.
pub open spec fn compiled_from(c: CompiledRule, d: RuleDef, names: Seq<Seq<char>>) -> bool {
    &&& c.def == d
    &&& siblings_are(c.sibling_any, d)
    &&& c.exclude_mask == mask_of(names, views(d.exclude_ancestors@))
    &&& c.min_size_bytes == size_or_zero(d.min_size)
    &&& c.min_file_size_bytes == size_or_zero(d.min_file_size)
    &&& c.min_age_secs == gate_days(d) * 86_400
    &&& views(c.process_names_lower@) == lower_all(views(d.process_names@))
}

/// Whether an engine is that of some rules.
pub open spec fn engine_of(
    e: Engine,
    defs: Seq<RuleDef>,
    extra: Seq<Seq<char>>,
    home: Option<Seq<char>>,
    fold: bool,
) -> bool {
    let n = defs.len() as int;
    &&& e.rules@.len() == n
    &&& views(e.ancestor_names@) == ancestors(defs, n)
    &&& forall|i: int|
    0 <= i < n ==> compiled_from(#[trigger] e.rules@[i], defs[i], ancestors(defs, n))
    &&& pairs(e.dir_names@) == table(defs, dir_keys(), n)
    &&& pairs(e.file_names@) == table(defs, file_keys(), n)
    &&& pairs(e.file_suffixes@) == table(defs, suffix_keys(), n)
    &&& held(e.path_globs) == all_seekers(defs, home, fold)
    &&& e.path_glob_rules@ == rules_of(table(defs, glob_keys(home), n))
    &&& held(e.protect_globs) == all_shields(defs, extra, home, fold)
    &&& pairs(e.targeted@) == table(defs, root_keys(home), n)
}

impl Engine {
    /// Whether the tables fit together: they name rules that there are, each
    /// path glob has a rule, and each ancestor has a bit.
    pub open spec fn wf(&self) -> bool {
        &&& self.ancestor_names@.len() <= 64
        &&& views(self.ancestor_names@).no_duplicates()
        &&& held(self.path_globs).len() == self.path_glob_rules@.len()
        &&& forall|i: int|
        0 <= i < self.dir_names@.len() ==> (#[trigger] self.dir_names@[i]).1 < self.rules@.len()
        &&& forall|i: int|
        0 <= i < self.file_names@.len() ==> (#[trigger] self.file_names@[i]).1
        < self.rules@.len()
        &&& forall|i: int|
        0 <= i < self.file_suffixes@.len() ==> (#[trigger] self.file_suffixes@[i]).1
        < self.rules@.len()
        &&& forall|i: int|
        0 <= i < self.path_glob_rules@.len() ==> (#[trigger] self.path_glob_rules@[i])
        < self.rules@.len()
        &&& forall|i: int|
        0 <= i < self.targeted@.len() ==> (#[trigger] self.targeted@[i]).1 < self.rules@.len()
    }

    /// Compiles rules. `extra_protect` are globs of the user's, `fold` says
    /// whether paths match in either case.
    pub fn compile(
        defs: Vec<RuleDef>,
        extra_protect: &Vec<String>,
        home: Option<&str>,
        fold: bool,
    ) -> (r: Result<Engine, CompileError>)
        requires
            forall|i: int| 0 <= i < defs@.len() ==> gate_fits(#[trigger] defs@[i]),
        ensures
            match compile_fault(defs@, views(extra_protect@), text::shown(home), fold) {
                Some(f) => r matches Err(e) && reports(e, f),
                None => r matches Ok(e) && e.wf() && engine_of(
                    e,
                    defs@,
                    views(extra_protect@),
                    text::shown(home),
                    fold,
                ),
            },
    {
        let ghost all = defs@;
        let ghost h = text::shown(home);
        let n: usize = defs.len();
        let mut seek = globs::new_set();
        let mut shield = globs::new_set();
        let mut names: Vec<String> = Vec::new();
        let mut parts: Vec<RuleParts> = Vec::new();
        let mut i: usize = 0;
        assert(all.take(0) =~= Seq::<RuleDef>::empty());
        while i < n
            invariant
                i <= n,
                n == all.len(),
                all == defs@,
                h == text::shown(home),
                forall|j: int| 0 <= j < all.len() ==> gate_fits(#[trigger] all[j]),
                views(names@) == ancestors(all, i as int),
                views(names@).no_duplicates(),
                names@.len() <= 64,
                first_fault(all, h, fold, i as int) is None,
                parts@.len() == i,
                forall|j: int| 0 <= j < i ==> parts_are(#[trigger] parts@[j], all[j]),
                listed(seek) == flatten_map(all.take(i as int), seekers(h, fold)),
                listed(shield) == flatten_map(all.take(i as int), shields(h, fold)),
            decreases n - i,
        {
            proof {
                lemma_noted_unique(views(names@), views(all[i as int].exclude_ancestors@));
                lemma_flatten_step(all, i as int, seekers(h, fold));
                lemma_flatten_step(all, i as int, shields(h, fold));
                lemma_fault_stays(all, h, fold, i + 1, n as int);
            }
            note_ancestors(&mut names, &defs[i].exclude_ancestors);
            assert(views(names@).len() == names@.len());
            if names.len() > 64 {
                return Err(CompileError::TooManyAncestors);
            }
            match compile_rule(&defs[i], home, fold, &mut seek, &mut shield) {
                Ok(p) => {
                    parts.push(p);
                },
                Err(e) => {
                    return Err(e);
                },
            }
            i += 1;
        }
        assert(all.take(n as int) =~= all);
        let extra = expand_all(extra_protect, home);
        if let Err(p) = globs::add_globs(&mut shield, &extra, true, fold) {
            return Err(CompileError::InvalidGlob(p));
        }
        let path_globs = match globs::build_set(&seek) {
            Some(s) => s,
            None => {
                return Err(CompileError::BadPathGlobs);
            },
        };
        let protect_globs = match globs::build_set(&shield) {
            Some(s) => s,
            None => {
                return Err(CompileError::BadProtectGlobs);
            },
        };
        let dir_names = dir_table(&defs);
        let file_names = file_table(&defs);
        let file_suffixes = suffix_table(&defs);
        let targeted = root_table(&defs, home);
        let glob_rules = glob_table(&defs, home);
        let path_glob_rules = second_parts(&glob_rules);
        let rules = combine(defs, parts, &names);
        proof {
            lemma_table_rules(all, dir_keys(), n as int, n);
            lemma_table_rules(all, file_keys(), n as int, n);
            lemma_table_rules(all, suffix_keys(), n as int, n);
            lemma_table_rules(all, root_keys(h), n as int, n);
            lemma_table_rules(all, glob_keys(h), n as int, n);
            lemma_table_len(all, h, fold, n as int);
            assert forall|k: int| 0 <= k < dir_names@.len() implies (#[trigger] dir_names@[k]).1 < n by {
                assert(pairs(dir_names@)[k].1 < n);
            }
            assert forall|k: int| 0 <= k < file_names@.len() implies (#[trigger] file_names@[k]).1 < n by {
                assert(pairs(file_names@)[k].1 < n);
            }
            assert forall|k: int| 0 <= k < file_suffixes@.len() implies (#[trigger] file_suffixes@[k]).1
            < n by {
                assert(pairs(file_suffixes@)[k].1 < n);
            }
            assert forall|k: int| 0 <= k < targeted@.len() implies (#[trigger] targeted@[k]).1 < n by {
                assert(pairs(targeted@)[k].1 < n);
            }
            assert forall|k: int| 0 <= k < path_glob_rules@.len() implies (
                #[trigger] path_glob_rules@[k]) < n by {
                assert(table(all, glob_keys(h), n as int)[k].1 < n);
            }
        }
        Ok(
            Engine {
                rules,
                dir_names,
                file_names,
                file_suffixes,
                path_globs,
                path_glob_rules,
                ancestor_names: names,
                protect_globs,
                targeted,
            },
        )
    }

    /// Whether a rule or the user protects a path.
    pub open spec fn protects(&self, path: Seq<char>) -> bool {
        any_hit(held(self.protect_globs), path)
    }

    /// Whether a rule or the user protects a path.
    pub fn is_protected(&self, full_path: &str) -> (r: bool)
        ensures
            r == self.protects(full_path@),
    {
        globs::is_match(&self.protect_globs, full_path)
    }

    /// The bit of a directory name met on the way down; 0 where no rule excludes
    /// it.
    pub fn ancestor_bit(&self, lower_name: &str) -> (r: u64)
        requires
            self.wf(),
        ensures
            r == bit_of(views(self.ancestor_names@), lower_name@),
    {
        name_bit(&self.ancestor_names, lower_name)
    }
}

proof fn lemma_fault_stays(
    defs: Seq<RuleDef>,
    home: Option<Seq<char>>,
    fold: bool,
    a: int,
    b: int,
)
    requires
        a <= b,
    ensures
        first_fault(defs, home, fold, a) is Some ==> first_fault(defs, home, fold, b)
            == first_fault(defs, home, fold, a),
    decreases b - a,
{
    if a < b {
        lemma_fault_stays(defs, home, fold, a, b - 1);
    }
}

/// The rules that a table names are those it was made of.
proof fn lemma_table_rules(
    defs: Seq<RuleDef>,
    f: spec_fn(RuleDef) -> Seq<Seq<char>>,
    n: int,
    len: usize,
)
    requires
        0 <= n <= len,
    ensures
        forall|k: int| 0 <= k < table(defs, f, n).len() ==> (#[trigger] table(defs, f, n)[k]).1 < len,
    decreases n,
{
    if n > 0 {
        lemma_table_rules(defs, f, n - 1, len);
        let head = table(defs, f, n - 1);
        let tail = indexed(f(defs[n - 1]), (n - 1) as usize);
        assert forall|k: int| 0 <= k < table(defs, f, n).len() implies (
            #[trigger] table(defs, f, n)[k]).1 < len by {
            if k < head.len() {
                assert(table(defs, f, n)[k] == head[k]);
            } else {
                assert(table(defs, f, n)[k] == tail[k - head.len()]);
            }
        }
    }
}

/// Each path glob has a rule.
proof fn lemma_table_len(defs: Seq<RuleDef>, home: Option<Seq<char>>, fold: bool, n: int)
    requires
        0 <= n <= defs.len(),
    ensures
        flatten_map(defs.take(n), seekers(home, fold)).len() == table(defs, glob_keys(home), n).len(),
    decreases n,
{
    if n > 0 {
        lemma_table_len(defs, home, fold, n - 1);
        lemma_flatten_step(defs, n - 1, seekers(home, fold));
    } else {
        assert(defs.take(0) =~= Seq::<RuleDef>::empty());
    }
}

/// Joins the definitions with what was worked out of them.
fn combine(defs: Vec<RuleDef>, parts: Vec<RuleParts>, names: &Vec<String>) -> (r: Vec<CompiledRule>)
    requires
        defs@.len() == parts@.len(),
        names@.len() <= 64,
        views(names@).no_duplicates(),
        forall|i: int| 0 <= i < defs@.len() ==> parts_are(#[trigger] parts@[i], defs@[i]),
    ensures
        r@.len() == defs@.len(),
        forall|i: int|
        0 <= i < defs@.len() ==> compiled_from(#[trigger] r@[i], defs@[i], views(names@)),
{
    let ghost ds = defs@;
    let ghost ps = parts@;
    let mut defs = defs;
    let mut parts = parts;
    let mut out: Vec<CompiledRule> = Vec::new();
    while defs.len() > 0
        invariant
            defs@.len() == parts@.len(),
            defs@.len() + out@.len() == ds.len(),
            ds.len() == ps.len(),
            names@.len() <= 64,
            views(names@).no_duplicates(),
            forall|i: int| 0 <= i < ds.len() ==> parts_are(#[trigger] ps[i], ds[i]),
            defs@ == ds.take(defs@.len() as int),
            parts@ == ps.take(defs@.len() as int),
            forall|i: int|
            0 <= i < out@.len() ==> compiled_from(
                #[trigger] out@[i],
                ds[defs@.len() + i],
                views(names@),
            ),
        decreases defs@.len(),
    {
        let ghost k = defs@.len() - 1;
        let ghost before = out@;
        assert(defs@.last() == ds[k]);
        assert(parts@.last() == ps[k]);
        match (defs.pop(), parts.pop()) {
            (Some(def), Some(p)) => {
                let exclude_mask = exclude_bits(names, &def.exclude_ancestors);
                let process_names_lower = lowercase_all(&def.process_names);
                assert(parts_are(ps[k], ds[k]));
                out.insert(
                    0,
                    CompiledRule {
                        def,
                        sibling_any: p.sibling_any,
                        exclude_mask,
                        min_size_bytes: p.min_size_bytes,
                        min_file_size_bytes: p.min_file_size_bytes,
                        min_age_secs: p.min_age_secs,
                        process_names_lower,
                    },
                );
                assert forall|i: int| 0 <= i < out@.len() implies compiled_from(
                    #[trigger] out@[i],
                    ds[defs@.len() + i],
                    views(names@),
                ) by {
                    if i > 0 {
                        assert(out@[i] == before[i - 1]);
                    }
                }
            },
            _ => {},
        }
        assert(defs@ =~= ds.take(k));
        assert(parts@ =~= ps.take(k));
    }
    out
}

// ---- laws ----

/// A protect rule is never looked for: it names no directory, file, suffix,
/// path glob or root in the tables.
pub proof fn law_protect_rules_claim_nothing(d: RuleDef, home: Option<Seq<char>>)
    requires
        is_protect(d),
    ensures
        dir_keys()(d).len() == 0,
        file_keys()(d).len() == 0,
        suffix_keys()(d).len() == 0,
        glob_keys(home)(d).len() == 0,
        root_keys(home)(d).len() == 0,
{
}

/// What the user protects is protected, whatever the rules are.
pub proof fn law_user_globs_protect(
    e: Engine,
    defs: Seq<RuleDef>,
    extra: Seq<Seq<char>>,
    home: Option<Seq<char>>,
    fold: bool,
    i: int,
    path: Seq<char>,
)
    requires
        engine_of(e, defs, extra, home, fold),
        0 <= i < extra.len(),
        globs::glob_hits(expanded(extra[i], home), true, fold, path),
    ensures
        e.protects(path),
{
    let mine = flatten_map(defs, shields(home, fold));
    let all = all_shields(defs, extra, home, fold);
    assert(all[mine.len() + i] == (expanded(extra[i], home), true, fold));
    assert(globs::hits(all[mine.len() + i], path));
}

/// A table holds a key for a rule exactly where the rule has that key.
pub proof fn law_tables_hold_the_keys_of_rules(
    defs: Seq<RuleDef>,
    f: spec_fn(RuleDef) -> Seq<Seq<char>>,
    n: int,
    key: Seq<char>,
    rule: usize,
)
    requires
        0 <= n <= defs.len() <= usize::MAX,
    ensures
        table(defs, f, n).contains((key, rule)) <==> rule < n && f(defs[rule as int]).contains(key),
    decreases n,
{
    if n > 0 {
        law_tables_hold_the_keys_of_rules(defs, f, n - 1, key, rule);
        let head = table(defs, f, n - 1);
        let own = f(defs[n - 1]);
        let tail = indexed(own, (n - 1) as usize);
        let all = table(defs, f, n);
        assert(all == head + tail);
        if all.contains((key, rule)) {
            let i = choose|i: int| 0 <= i < all.len() && all[i] == (key, rule);
            if i < head.len() {
                assert(head[i] == (key, rule));
                assert(head.contains((key, rule)));
            } else {
                assert(tail[i - head.len()] == (key, rule));
                assert(own[i - head.len()] == key);
            }
        }
        if rule < n && f(defs[rule as int]).contains(key) {
            if rule < n - 1 {
                let i = choose|i: int| 0 <= i < head.len() && head[i] == (key, rule);
                assert(all[i] == (key, rule));
            } else {
                let i = choose|i: int| 0 <= i < own.len() && own[i] == key;
                assert(tail[i] == (key, rule));
                assert(all[head.len() + i] == (key, rule));
            }
        }
    }
}

/// A directory name of a rule that protects nothing leads to that rule, in lower
/// case; so do its file names and suffixes.
pub proof fn law_names_lead_to_rules(
    e: Engine,
    defs: Seq<RuleDef>,
    extra: Seq<Seq<char>>,
    home: Option<Seq<char>>,
    fold: bool,
    r: int,
    k: int,
)
    requires
        engine_of(e, defs, extra, home, fold),
        defs.len() <= usize::MAX,
        0 <= r < defs.len(),
        defs[r].safety != Safety::Protected,
    ensures
        0 <= k < defs[r].dir_names@.len() ==> pairs(e.dir_names@).contains(
            (lower_case(defs[r].dir_names@[k]@), r as usize),
        ),
        0 <= k < defs[r].file_names@.len() ==> pairs(e.file_names@).contains(
            (lower_case(defs[r].file_names@[k]@), r as usize),
        ),
        0 <= k < defs[r].file_suffixes@.len() ==> pairs(e.file_suffixes@).contains(
            (lower_case(defs[r].file_suffixes@[k]@), r as usize),
        ),
        0 <= k < defs[r].roots@.len() ==> pairs(e.targeted@).contains(
            (expanded(defs[r].roots@[k]@, home), r as usize),
        ),
{
    let n = defs.len() as int;
    let d = defs[r];
    if 0 <= k < d.dir_names@.len() {
        let own = dir_keys()(d);
        assert(own[k] == lower_case(d.dir_names@[k]@));
        law_tables_hold_the_keys_of_rules(defs, dir_keys(), n, own[k], r as usize);
    }
    if 0 <= k < d.file_names@.len() {
        let own = file_keys()(d);
        assert(own[k] == lower_case(d.file_names@[k]@));
        law_tables_hold_the_keys_of_rules(defs, file_keys(), n, own[k], r as usize);
    }
    if 0 <= k < d.file_suffixes@.len() {
        let own = suffix_keys()(d);
        assert(own[k] == lower_case(d.file_suffixes@[k]@));
        law_tables_hold_the_keys_of_rules(defs, suffix_keys(), n, own[k], r as usize);
    }
    if 0 <= k < d.roots@.len() {
        let own = root_keys(home)(d);
        assert(own[k] == expanded(d.roots@[k]@, home));
        law_tables_hold_the_keys_of_rules(defs, root_keys(home), n, own[k], r as usize);
    }
}

/// A rule that protects something leads to no claim: nothing in the tables belongs to
/// it.
pub proof fn law_protecting_rules_have_no_names(
    e: Engine,
    defs: Seq<RuleDef>,
    extra: Seq<Seq<char>>,
    home: Option<Seq<char>>,
    fold: bool,
    r: int,
    key: Seq<char>,
)
    requires
        engine_of(e, defs, extra, home, fold),
        defs.len() <= usize::MAX,
        0 <= r < defs.len(),
        defs[r].safety == Safety::Protected,
    ensures
        !pairs(e.dir_names@).contains((key, r as usize)),
        !pairs(e.file_names@).contains((key, r as usize)),
        !pairs(e.file_suffixes@).contains((key, r as usize)),
        !pairs(e.targeted@).contains((key, r as usize)),
{
    let n = defs.len() as int;
    law_tables_hold_the_keys_of_rules(defs, dir_keys(), n, key, r as usize);
    law_tables_hold_the_keys_of_rules(defs, file_keys(), n, key, r as usize);
    law_tables_hold_the_keys_of_rules(defs, suffix_keys(), n, key, r as usize);
    law_tables_hold_the_keys_of_rules(defs, root_keys(home), n, key, r as usize);
}

/// The root of a rule that protects something is protected, and all that matches it
/// with anything below.
pub proof fn law_protected_roots_protect(
    e: Engine,
    defs: Seq<RuleDef>,
    extra: Seq<Seq<char>>,
    home: Option<Seq<char>>,
    fold: bool,
    r: int,
    k: int,
    path: Seq<char>,
)
    requires
        engine_of(e, defs, extra, home, fold),
        0 <= r < defs.len(),
        defs[r].safety == Safety::Protected,
        0 <= k < defs[r].roots@.len(),
        globs::glob_hits(expanded(defs[r].roots@[k]@, home), true, fold, path) || globs::glob_hits(
            text::trim_end_of(expanded(defs[r].roots@[k]@, home), '/') + "/**"@,
            true,
            fold,
            path,
        ),
    ensures
        e.protects(path),
{
    let root = defs[r].roots@[k]@;
    let two = root_shields(home, fold)(root);
    let a = (expanded(root, home), true, fold);
    let b = (text::trim_end_of(expanded(root, home), '/') + "/**"@, true, fold);
    assert(two[0] == a && two[1] == b);
    let hit = if globs::hits(a, path) {
        a
    } else {
        b
    };
    assert(two.contains(hit));
    let roots = views(defs[r].roots@);
    assert(roots[k] == root);
    crate::seqs::law_flattened_is_made(roots, root_shields(home, fold), hit);
    let own = flatten_map(roots, root_shields(home, fold));
    let i = choose|i: int| 0 <= i < own.len() && own[i] == hit;
    let whole = shields(home, fold)(defs[r]);
    assert(whole[i] == hit);
    assert(whole.contains(hit));
    crate::seqs::law_flattened_is_made(defs, shields(home, fold), hit);
    let all = flatten_map(defs, shields(home, fold));
    let j = choose|j: int| 0 <= j < all.len() && all[j] == hit;
    assert(held(e.protect_globs)[j] == hit);
}

/// Each rule keeps its own numbers: an age gate in whole days, sizes as they were
/// written, nothing where nothing was written.
pub proof fn law_rules_keep_their_numbers(
    e: Engine,
    defs: Seq<RuleDef>,
    extra: Seq<Seq<char>>,
    home: Option<Seq<char>>,
    fold: bool,
    r: int,
)
    requires
        engine_of(e, defs, extra, home, fold),
        0 <= r < defs.len(),
    ensures
        e.rules@[r].def == defs[r],
        defs[r].min_age_days is None ==> e.rules@[r].min_age_secs == 0,
        defs[r].min_age_days is Some ==> e.rules@[r].min_age_secs == defs[r].min_age_days->0 * 24 * 60 * 60,
        defs[r].min_size is None ==> e.rules@[r].min_size_bytes == 0,
        defs[r].min_file_size is None ==> e.rules@[r].min_file_size_bytes == 0,
        defs[r].min_size is Some && size_of_text(defs[r].min_size->0@) is Ok ==> size_of_text(
            defs[r].min_size->0@,
        ) == Ok::<u64, ()>(e.rules@[r].min_size_bytes),
        defs[r].min_file_size is Some && size_of_text(defs[r].min_file_size->0@) is Ok ==> size_of_text(
            defs[r].min_file_size->0@,
        ) == Ok::<u64, ()>(e.rules@[r].min_file_size_bytes),
        e.rules@[r].process_names_lower@.len() == defs[r].process_names@.len(),
        defs[r].require_sibling_any@.len() == 0 <==> e.rules@[r].sibling_any is None,
{
    assert(compiled_from(e.rules@[r], defs[r], ancestors(defs, defs.len() as int)));
    assert(views(e.rules@[r].process_names_lower@).len() == views(defs[r].process_names@).len());
}

/// Different names have different bits, and a name that is not among them has none.
pub proof fn law_bits_tell_names_apart(names: Seq<Seq<char>>, a: Seq<char>, b: Seq<char>)
    requires
        names.len() <= 64,
        a != b,
    ensures
        bit_of(names, a) & bit_of(names, b) == 0,
        names.contains(a) ==> bit_of(names, a) != 0,
        !names.contains(a) ==> bit_of(names, a) == 0,
{
    if names.contains(a) {
        let i = names.index_of(a);
        assert(0 <= i < names.len() && names[i] == a);
        let x = i as u64;
        assert(1u64 << x != 0) by (bit_vector)
            requires
                x < 64,
        ;
        if names.contains(b) {
            let j = names.index_of(b);
            assert(0 <= j < names.len() && names[j] == b);
            let y = j as u64;
            assert(x != y);
            assert((1u64 << x) & (1u64 << y) == 0) by (bit_vector)
                requires
                    x < 64,
                    y < 64,
                    x != y,
            ;
        } else {
            assert(bit_of(names, b) == 0);
            let m = bit_of(names, a);
            assert(m & 0 == 0) by (bit_vector);
        }
    } else {
        let m = bit_of(names, b);
        assert(0 & m == 0) by (bit_vector);
    }
}

/// An ancestor excludes a rule exactly where its name is one that the rule excludes.
pub proof fn law_excluded_names_are_in_the_mask(names: Seq<Seq<char>>, excluded: Seq<Seq<char>>, name: Seq<char>)
    requires
        names.len() <= 64,
        names.contains(name),
    ensures
        mask_of(names, excluded) & bit_of(names, name) != 0 <==> exists|i: int|
        0 <= i < excluded.len() && lower_case(#[trigger] excluded[i]) == name,
    decreases excluded.len(),
{
    let bit = bit_of(names, name);
    law_bits_tell_names_apart(names, name, name.push('x'));
    assert(name.push('x').len() != name.len());
    if excluded.len() == 0 {
        assert(0 & bit == 0) by (bit_vector);
    } else {
        let less = excluded.drop_last();
        law_excluded_names_are_in_the_mask(names, less, name);
        let last = lower_case(excluded.last());
        let m = mask_of(names, less);
        let b = bit_of(names, last);
        assert(((m | b) & bit != 0) == (m & bit != 0 || b & bit != 0)) by (bit_vector);
        if last == name {
            assert(bit & bit == bit) by (bit_vector);
            assert(excluded[excluded.len() - 1] == excluded.last());
        } else {
            law_bits_tell_names_apart(names, last, name);
        }
        if exists|i: int| 0 <= i < less.len() && lower_case(#[trigger] less[i]) == name {
            let i = choose|i: int| 0 <= i < less.len() && lower_case(#[trigger] less[i]) == name;
            assert(excluded[i] == less[i]);
        }
        if exists|i: int| 0 <= i < excluded.len() && lower_case(#[trigger] excluded[i]) == name {
            let i = choose|i: int| 0 <= i < excluded.len() && lower_case(#[trigger] excluded[i]) == name;
            if i < less.len() {
                assert(less[i] == excluded[i]);
            }
        }
    }
}

/// Rules compile only where their sizes can be read, and no more than sixty-four names
/// of ancestors are excluded.
pub proof fn law_compiled_rules_are_in_order(
    defs: Seq<RuleDef>,
    extra: Seq<Seq<char>>,
    home: Option<Seq<char>>,
    fold: bool,
    i: int,
)
    requires
        compile_fault(defs, extra, home, fold) is None,
        0 <= i < defs.len(),
    ensures
        defs[i].min_size matches Some(s) ==> size_of_text(s@) is Ok,
        defs[i].min_file_size matches Some(s) ==> size_of_text(s@) is Ok,
        ancestors(defs, i + 1).len() <= 64,
        set_builds(all_seekers(defs, home, fold)),
        set_builds(all_shields(defs, extra, home, fold)),
        defs[i].require_sibling_any@.len() > 0 ==> set_builds(
            globs_of(views(defs[i].require_sibling_any@), false, true),
        ),
{
    lemma_no_fault(defs, home, fold, defs.len() as int, i);
}

proof fn lemma_no_fault(defs: Seq<RuleDef>, home: Option<Seq<char>>, fold: bool, n: int, i: int)
    requires
        0 <= i < n <= defs.len(),
        first_fault(defs, home, fold, n) is None,
    ensures
        rule_fault(defs[i], home, fold) is None,
        ancestors(defs, i + 1).len() <= 64,
    decreases n,
{
    if i < n - 1 {
        lemma_no_fault(defs, home, fold, n - 1, i);
    }
}

proof fn lemma_all_in_order(defs: Seq<RuleDef>, home: Option<Seq<char>>, fold: bool, n: int)
    requires
        0 <= n <= defs.len(),
        forall|i: int|
        0 <= i < n ==> rule_fault(#[trigger] defs[i], home, fold) is None && ancestors(defs, i + 1).len() <= 64,
    ensures
        first_fault(defs, home, fold, n) is None,
    decreases n,
{
    if n > 0 {
        lemma_all_in_order(defs, home, fold, n - 1);
        assert(rule_fault(defs[n - 1], home, fold) is None);
    }
}

/// Rules without patterns and sizes that cannot be read compile, where the names of the
/// ancestors that they exclude are few enough and their sets can be built.
pub proof fn law_rules_in_order_compile(
    defs: Seq<RuleDef>,
    extra: Seq<Seq<char>>,
    home: Option<Seq<char>>,
    fold: bool,
)
    requires
        forall|i: int|
        0 <= i < defs.len() ==> rule_fault(#[trigger] defs[i], home, fold) is None && ancestors(
            defs,
            i + 1,
        ).len() <= 64,
        forall|i: int|
        0 <= i < extra_shields(extra, home, fold).len() ==> globs::is_glob(
            (#[trigger] extra_shields(extra, home, fold)[i]).0,
            extra_shields(extra, home, fold)[i].1,
            extra_shields(extra, home, fold)[i].2,
        ),
        set_builds(all_seekers(defs, home, fold)),
        set_builds(all_shields(defs, extra, home, fold)),
    ensures
        compile_fault(defs, extra, home, fold) is None,
{
    lemma_all_in_order(defs, home, fold, defs.len() as int);
    let x = extra_shields(extra, home, fold);
    assert forall|i: int| 0 <= i < x.len() implies if_bad()(#[trigger] x[i]) is None by {
    }
    crate::seqs::lemma_find_none(x, if_bad());
}

/// A rule is refused where one of its sizes cannot be read or one of its patterns is
/// no pattern, and a rule with neither is not.
pub proof fn law_unreadable_sizes_are_refused(d: RuleDef, home: Option<Seq<char>>, fold: bool)
    ensures
        d.min_size is Some && size_of_text(d.min_size->0@) is Err ==> rule_fault(d, home, fold) is Some,
        d.min_file_size is Some && size_of_text(d.min_file_size->0@) is Err ==> rule_fault(d, home, fold) is Some,
        rule_fault(d, home, fold) matches Some(Fault::BadSize(t)) ==> size_of_text(t) is Err && (d.min_size
            is Some && d.min_size->0@ == t || d.min_file_size is Some && d.min_file_size->0@ == t),
        d.require_sibling_any@.len() == 0 && (shields(home, fold)(d) + seekers(home, fold)(d)).len() == 0 && (
        d.min_size is None || size_of_text(d.min_size->0@) is Ok) && (d.min_file_size is None || size_of_text(
            d.min_file_size->0@,
        ) is Ok) ==> rule_fault(d, home, fold) is None,
{
}

/// A leading tilde stands for the home directory, where one is known; other patterns
/// stay as they are.
pub proof fn law_tildes_are_home(rest: Seq<char>, pattern: Seq<char>, home: Seq<char>)
    ensures
        expanded("~/"@ + rest, Some(home)) == text::trim_end_of(home, '/') + "/"@ + rest,
        !text::begins(pattern, "~/"@) ==> expanded(pattern, Some(home)) == pattern,
        expanded(pattern, None) == pattern,
{
    text::law_prefixes_come_off("~/"@, rest, pattern);
}

} // verus!
