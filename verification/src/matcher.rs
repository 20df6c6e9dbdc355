//! Rule sets in the form in which paths are matched: the rule that weighs most
//! decides.

use crate::config::{RuleAction, RuleContext, RuleDef, RuleKind, SampleStrategy};
use crate::globs;
use crate::globs::{SetError, any_hit, compile_set, globs_of, held, if_bad, set_builds, set_fits};
use crate::paths;
use crate::paths::below;
use crate::seqs::{find_some, group_views, views};
use crate::text;
use globset::GlobSet;
use vstd::prelude::*;

verus! {

broadcast use group_views;

/// The rule that a path matches.
#[derive(Debug, Clone, Copy)]
pub struct MatchResult {
    pub rule_index: usize,
}

/// A rule with its patterns.
pub struct CompiledRule {
    pub id: String,
    pub kind: RuleKind,
    pub action: RuleAction,
    pub priority: u32,
    pub globset: GlobSet,
    pub context: Option<CompiledContext>,
}

/// What must hold around a path for a rule to match it, and under which path it
/// is shown.
pub struct CompiledContext {
    pub parent_anchor_any: Option<GlobSet>,
    pub require_parent_any: Option<GlobSet>,
    pub require_parent_none: Option<GlobSet>,
    pub exclude_ancestor_any: Option<GlobSet>,
    pub require_ancestor_files_any: Vec<String>,
    pub ancestor_depth: usize,
    pub sample_ancestor_files_any: Vec<String>,
    pub sample_ancestor_depth: usize,
    pub sample_parent_any: Option<GlobSet>,
    pub sample_strategy: Option<SampleStrategy>,
}

/// Rules in the form in which paths are matched.
pub struct RuleMatcher {
    pub rules: Vec<CompiledRule>,
}

/// Why rules cannot be compiled.
#[derive(Debug, Clone)]
pub enum MatcherError {
    /// A pattern of a rule cannot be read.
    Pattern(String),
    /// The patterns of a rule cannot be matched together.
    Globset(String),
    /// The context of a rule cannot be compiled.
    Context(String, SetError),
}

/// What stands in the way of compiling a list of patterns.
pub enum ListFault {
    Pattern(Seq<char>),
    Together,
}

/// What stands in the way of compiling rules.
pub enum MatcherFault {
    Pattern(Seq<char>),
    Globset(Seq<char>),
    Context(Seq<char>, ListFault),
}

/// Whether an error reports the fault of a list.
pub open spec fn tells(e: SetError, f: ListFault) -> bool {
    match f {
        ListFault::Pattern(p) => e matches SetError::Pattern(t) && t@ == p,
        ListFault::Together => e is Together,
    }
}

/// Whether an error reports a fault.
pub open spec fn reports(e: MatcherError, f: MatcherFault) -> bool {
    match f {
        MatcherFault::Pattern(p) => e matches MatcherError::Pattern(t) && t@ == p,
        MatcherFault::Globset(id) => e matches MatcherError::Globset(t) && t@ == id,
        MatcherFault::Context(id, why) => e matches MatcherError::Context(t, w) && t@ == id && tells(
            w,
            why,
        ),
    }
}

impl MatcherError {
    /// What the error says.
    pub open spec fn said(self) -> Seq<char> {
        match self {
            MatcherError::Pattern(p) => "invalid glob pattern: "@ + p@,
            MatcherError::Globset(id) => "failed to build globset for rule "@ + id@,
            MatcherError::Context(id, _) => "failed to build context for rule "@ + id@,
        }
    }

    /// What the error says.
    pub fn message(&self) -> (r: String)
        ensures
            r@ == self.said(),
    {
        match self {
            MatcherError::Pattern(p) => "invalid glob pattern: ".to_owned().concat(p.as_str()),
            MatcherError::Globset(id) => "failed to build globset for rule ".to_owned().concat(id.as_str()),
            MatcherError::Context(id, _) => "failed to build context for rule ".to_owned().concat(
                id.as_str(),
            ),
        }
    }
}

// ---- patterns ----

/// A pattern with a leading `~/` replaced by the home directory, written with
/// slashes.
pub open spec fn expanded(pattern: Seq<char>, home: Option<Seq<char>>) -> Seq<char> {
    match (home, text::without_prefix(pattern, "~/"@)) {
        (Some(h), Some(rest)) => text::replaced(below(h, rest), '\\', "/"@),
        _ => pattern,
    }
}

/// A pattern with a leading `~/` replaced by the home directory, written with
/// slashes.
pub fn expand_pattern(pattern: &str, home: Option<&str>) -> (r: String)
    ensures
        r@ == expanded(pattern@, text::shown(home)),
{
    if let Some(h) = home {
        if let Some(rest) = text::strip_prefix(pattern, "~/") {
            return text::replace(paths::join(h, rest.as_str()).as_str(), '\\', "/");
        }
    }
    pattern.to_owned()
}

/// The globs of some patterns.
pub open spec fn pattern_globs(patterns: Seq<Seq<char>>, home: Option<Seq<char>>, fold: bool) -> Seq<
(Seq<char>, bool, bool),
> {
    globs_of(patterns.map_values(|p: Seq<char>| expanded(p, home)), true, fold)
}

fn expand_patterns(patterns: &Vec<String>, home: Option<&str>) -> (r: Vec<String>)
    ensures
        views(r@) == views(patterns@).map_values(|p: Seq<char>| expanded(p, text::shown(home))),
{
    let ghost all = views(patterns@);
    let ghost h = text::shown(home);
    let ghost f = |p: Seq<char>| expanded(p, h);
    let mut r: Vec<String> = Vec::new();
    let mut i: usize = 0;
    while i < patterns.len()
        invariant
            i <= patterns@.len(),
            all == views(patterns@),
            h == text::shown(home),
            f == (|p: Seq<char>| expanded(p, h)),
            views(r@) == all.take(i as int).map_values(f),
        decreases patterns@.len() - i,
    {
        assert(all[i as int] == patterns@[i as int]@);
        r.push(expand_pattern(patterns[i].as_str(), home));
        assert(views(r@) =~= all.take(i + 1).map_values(f));
        i += 1;
    }
    assert(all.take(i as int) =~= all);
    r
}

fn compile_patterns(patterns: &Vec<String>, home: Option<&str>, fold: bool) -> (r: Result<
    GlobSet,
    SetError,
    >)
    ensures
        match r {
            Ok(s) => set_fits(pattern_globs(views(patterns@), text::shown(home), fold)) && held(s)
                == pattern_globs(views(patterns@), text::shown(home), fold),
            Err(e) => globs::set_refused(pattern_globs(views(patterns@), text::shown(home), fold), e),
        },
{
    let l = expand_patterns(patterns, home);
    compile_set(&l, true, fold)
}

// ---- contexts ----

/// What stands in the way of compiling a list of patterns; nothing where there
/// are none.
pub open spec fn list_fault(patterns: Seq<Seq<char>>, home: Option<Seq<char>>, fold: bool) -> Option<
ListFault,
> {
    let globs = pattern_globs(patterns, home, fold);
    if patterns.len() == 0 {
        None
    } else if find_some(globs, if_bad()) is Some {
        Some(ListFault::Pattern(find_some(globs, if_bad())->0))
    } else if !set_builds(globs) {
        Some(ListFault::Together)
    } else {
        None
    }
}

/// Whether a set is that of a list of patterns.
pub open spec fn list_is(
    s: Option<GlobSet>,
    patterns: Seq<Seq<char>>,
    home: Option<Seq<char>>,
    fold: bool,
) -> bool {
    if patterns.len() == 0 {
        s is None
    } else {
        s matches Some(set) && held(set) == pattern_globs(patterns, home, fold)
    }
}

fn compile_context_globs(patterns: &Vec<String>, home: Option<&str>, fold: bool) -> (r: Result<
    Option<GlobSet>,
    SetError,
    >)
    ensures
        match list_fault(views(patterns@), text::shown(home), fold) {
            Some(f) => r matches Err(e) && tells(e, f),
            None => r matches Ok(s) && list_is(s, views(patterns@), text::shown(home), fold),
        },
{
    assert(views(patterns@).len() == patterns@.len());
    if patterns.len() == 0 {
        return Ok(None);
    }
    match compile_patterns(patterns, home, fold) {
        Ok(s) => Ok(Some(s)),
        Err(e) => Err(e),
    }
}

/// What stands in the way of compiling a context.
pub open spec fn context_fault(c: RuleContext, home: Option<Seq<char>>, fold: bool) -> Option<ListFault> {
    match list_fault(views(c.parent_anchor_any@), home, fold) {
        Some(e) => Some(e),
        None => match list_fault(views(c.require_parent_any@), home, fold) {
            Some(e) => Some(e),
            None => match list_fault(views(c.require_parent_none@), home, fold) {
                Some(e) => Some(e),
                None => match list_fault(views(c.exclude_ancestor_any@), home, fold) {
                    Some(e) => Some(e),
                    None => match list_fault(views(c.sample_parent_any@), home, fold) {
                        Some(e) => Some(e),
                        None => None,
                    },
                },
            },
        },
    }
}

/// Whether a context asks for anything.
pub open spec fn context_matters(c: RuleContext) -> bool {
    c.parent_anchor_any@.len() > 0 || c.require_parent_any@.len() > 0 || c.require_parent_none@.len()
    > 0 || c.exclude_ancestor_any@.len() > 0 || c.require_ancestor_files_any@.len() > 0
        || c.sample_ancestor_files_any@.len() > 0 || c.sample_parent_any@.len() > 0
        || c.sample_strategy is Some
}

/// Whether a compiled context is that of a context.
pub open spec fn context_is(
    x: CompiledContext,
    c: RuleContext,
    home: Option<Seq<char>>,
    fold: bool,
) -> bool {
    &&& list_is(x.parent_anchor_any, views(c.parent_anchor_any@), home, fold)
    &&& list_is(x.require_parent_any, views(c.require_parent_any@), home, fold)
    &&& list_is(x.require_parent_none, views(c.require_parent_none@), home, fold)
    &&& list_is(x.exclude_ancestor_any, views(c.exclude_ancestor_any@), home, fold)
    &&& list_is(x.sample_parent_any, views(c.sample_parent_any@), home, fold)
    &&& views(x.require_ancestor_files_any@) == views(c.require_ancestor_files_any@)
    &&& x.ancestor_depth == match c.ancestor_depth {
        Some(d) => d,
        None => 3,
    }
    &&& views(x.sample_ancestor_files_any@) == views(c.sample_ancestor_files_any@)
    &&& x.sample_ancestor_depth == match c.sample_ancestor_depth {
        Some(d) => d,
        None => 6,
    }
    &&& x.sample_strategy == c.sample_strategy
}

fn compile_context(c: &RuleContext, home: Option<&str>, fold: bool) -> (r: Result<
    Option<CompiledContext>,
    SetError,
    >)
    ensures
        match context_fault(*c, text::shown(home), fold) {
            Some(f) => r matches Err(e) && tells(e, f),
            None => match r {
                Ok(Some(x)) => context_matters(*c) && context_is(x, *c, text::shown(home), fold),
                Ok(None) => !context_matters(*c),
                Err(_) => false,
            },
        },
{
    let parent_anchor_any = match compile_context_globs(&c.parent_anchor_any, home, fold) {
        Ok(s) => s,
        Err(e) => {
            return Err(e);
        },
    };
    let require_parent_any = match compile_context_globs(&c.require_parent_any, home, fold) {
        Ok(s) => s,
        Err(e) => {
            return Err(e);
        },
    };
    let require_parent_none = match compile_context_globs(&c.require_parent_none, home, fold) {
        Ok(s) => s,
        Err(e) => {
            return Err(e);
        },
    };
    let exclude_ancestor_any = match compile_context_globs(&c.exclude_ancestor_any, home, fold) {
        Ok(s) => s,
        Err(e) => {
            return Err(e);
        },
    };
    let sample_parent_any = match compile_context_globs(&c.sample_parent_any, home, fold) {
        Ok(s) => s,
        Err(e) => {
            return Err(e);
        },
    };
    proof {
        assert(views(c.parent_anchor_any@).len() == c.parent_anchor_any@.len());
        assert(views(c.require_parent_any@).len() == c.require_parent_any@.len());
        assert(views(c.require_parent_none@).len() == c.require_parent_none@.len());
        assert(views(c.exclude_ancestor_any@).len() == c.exclude_ancestor_any@.len());
        assert(views(c.sample_parent_any@).len() == c.sample_parent_any@.len());
    }
    if parent_anchor_any.is_none() && require_parent_any.is_none() && require_parent_none.is_none()
        && exclude_ancestor_any.is_none() && c.require_ancestor_files_any.len() == 0
        && c.sample_ancestor_files_any.len() == 0 && sample_parent_any.is_none()
        && c.sample_strategy.is_none() {
        return Ok(None);
    }
    let ancestor_depth: usize = match c.ancestor_depth {
        Some(d) => d,
        None => 3,
    };
    let sample_ancestor_depth: usize = match c.sample_ancestor_depth {
        Some(d) => d,
        None => 6,
    };
    Ok(
        Some(
            CompiledContext {
                parent_anchor_any,
                require_parent_any,
                require_parent_none,
                exclude_ancestor_any,
                require_ancestor_files_any: text::copy_texts(&c.require_ancestor_files_any),
                ancestor_depth,
                sample_ancestor_files_any: text::copy_texts(&c.sample_ancestor_files_any),
                sample_ancestor_depth,
                sample_parent_any,
                sample_strategy: c.sample_strategy,
            },
        ),
    )
}

// ---- rules ----

/// What stands in the way of compiling a rule.
pub open spec fn rule_fault(r: RuleDef, home: Option<Seq<char>>, fold: bool) -> Option<MatcherFault> {
    let globs = pattern_globs(views(r.patterns@), home, fold);
    if find_some(globs, if_bad()) is Some {
        Some(MatcherFault::Pattern(find_some(globs, if_bad())->0))
    } else if !set_builds(globs) {
        Some(MatcherFault::Globset(r.id@))
    } else {
        match r.context {
            Some(c) => match context_fault(c, home, fold) {
                Some(f) => Some(MatcherFault::Context(r.id@, f)),
                None => None,
            },
            None => None,
        }
    }
}

/// What stands in the way of compiling the first `n` rules.
pub open spec fn rules_fault(
    rules: Seq<RuleDef>,
    home: Option<Seq<char>>,
    fold: bool,
    n: int,
) -> Option<MatcherFault>
    decreases n,
{
    if n <= 0 {
        None
    } else {
        match rules_fault(rules, home, fold, n - 1) {
            Some(f) => Some(f),
            None => rule_fault(rules[n - 1], home, fold),
        }
    }
}

/// Whether a compiled rule is that of a rule.
pub open spec fn rule_is(x: CompiledRule, r: RuleDef, home: Option<Seq<char>>, fold: bool) -> bool {
    &&& x.id@ == r.id@
    &&& x.kind == r.kind
    &&& x.action == r.action
    &&& x.priority == r.weight()
    &&& held(x.globset) == pattern_globs(views(r.patterns@), home, fold)
    &&& match (x.context, r.context) {
        (Some(a), Some(c)) => context_matters(c) && context_is(a, c, home, fold),
        (None, Some(c)) => !context_matters(c),
        (None, None) => true,
        (Some(_), None) => false,
    }
}

fn compile_rule(r: &RuleDef, home: Option<&str>, fold: bool) -> (x: Result<
    CompiledRule,
    MatcherError,
    >)
    ensures
        match rule_fault(*r, text::shown(home), fold) {
            Some(f) => x matches Err(e) && reports(e, f),
            None => x matches Ok(c) && rule_is(c, *r, text::shown(home), fold),
        },
{
    let globset = match compile_patterns(&r.patterns, home, fold) {
        Ok(s) => s,
        Err(SetError::Pattern(p)) => {
            return Err(MatcherError::Pattern(p));
        },
        Err(SetError::Together) => {
            return Err(MatcherError::Globset(r.id.clone()));
        },
    };
    let context = match &r.context {
        Some(c) => match compile_context(c, home, fold) {
            Ok(x) => x,
            Err(e) => {
                return Err(MatcherError::Context(r.id.clone(), e));
            },
        },
        None => None,
    };
    Ok(
        CompiledRule {
            id: r.id.clone(),
            kind: r.kind,
            action: r.action,
            priority: r.effective_priority(),
            globset,
            context,
        },
    )
}

/// The rule that a path matches among the first `n`: the one that weighs most,
/// the first of those that weigh the same.
pub open spec fn best_rule(rules: Seq<CompiledRule>, path: Seq<char>, n: int) -> Option<int>
    decreases n,
{
    if n <= 0 {
        None
    } else {
        let best = best_rule(rules, path, n - 1);
        let r = rules[n - 1];
        if any_hit(held(r.globset), path) && match best {
            Some(b) => r.priority > rules[b].priority,
            None => true,
        } {
            Some(n - 1)
        } else {
            best
        }
    }
}

/// The rule that decides is one of the rules, and matches.
pub proof fn lemma_best_rule(rules: Seq<CompiledRule>, path: Seq<char>, n: int)
    requires
        0 <= n <= rules.len(),
    ensures
        best_rule(rules, path, n) matches Some(b) ==> 0 <= b < n && any_hit(
            held(rules[b].globset),
            path,
        ),
    decreases n,
{
    if n > 0 {
        lemma_best_rule(rules, path, n - 1);
    }
}

impl RuleMatcher {
    /// Compiles rules. `fold` says whether paths match in either case.
    pub fn new(rules: &Vec<RuleDef>, home: Option<&str>, fold: bool) -> (r: Result<Self, MatcherError>)
        ensures
            match rules_fault(rules@, text::shown(home), fold, rules@.len() as int) {
                Some(f) => r matches Err(e) && reports(e, f),
                None => r matches Ok(m) && m.rules@.len() == rules@.len() && forall|i: int|
                0 <= i < rules@.len() ==> rule_is(
                    #[trigger] m.rules@[i],
                    rules@[i],
                    text::shown(home),
                    fold,
                ),
            },
    {
        let ghost h = text::shown(home);
        let mut compiled: Vec<CompiledRule> = Vec::new();
        let mut i: usize = 0;
        let n: usize = rules.len();
        while i < n
            invariant
                i <= n,
                n == rules@.len(),
                h == text::shown(home),
                compiled@.len() == i,
                rules_fault(rules@, h, fold, i as int) is None,
                forall|j: int|
                0 <= j < i ==> rule_is(#[trigger] compiled@[j], rules@[j], h, fold),
            decreases n - i,
        {
            proof {
                lemma_fault_stays(rules@, h, fold, i + 1, n as int);
            }
            match compile_rule(&rules[i], home, fold) {
                Ok(c) => {
                    compiled.push(c);
                },
                Err(e) => {
                    return Err(e);
                },
            }
            i += 1;
        }
        Ok(RuleMatcher { rules: compiled })
    }

    /// The rule that a path matches: the one that weighs most, the first of those
    /// that weigh the same.
    pub fn match_path(&self, path: &str) -> (r: Option<MatchResult>)
        ensures
            match (r, best_rule(self.rules@, path@, self.rules@.len() as int)) {
                (Some(m), Some(i)) => m.rule_index == i && m.rule_index < self.rules@.len(),
                (None, None) => true,
                _ => false,
            },
    {
        let mut best: Option<usize> = None;
        let mut i: usize = 0;
        while i < self.rules.len()
            invariant
                i <= self.rules@.len(),
                match (best, best_rule(self.rules@, path@, i as int)) {
                    (Some(b), Some(k)) => b == k && b < i,
                    (None, None) => true,
                    _ => false,
                },
            decreases self.rules@.len() - i,
        {
            let hit = globs::is_match(&self.rules[i].globset, path);
            assert(hit == any_hit(held(self.rules@[i as int].globset), path@));
            if hit {
                let wins = match best {
                    Some(b) => self.rules[i].priority > self.rules[b].priority,
                    None => true,
                };
                if wins {
                    best = Some(i);
                }
            }
            i += 1;
        }
        match best {
            Some(b) => Some(MatchResult { rule_index: b }),
            None => None,
        }
    }

    pub fn rule_id(&self, index: usize) -> (r: &str)
        requires
            index < self.rules@.len(),
        ensures
            r@ == self.rules@[index as int].id@,
    {
        self.rules[index].id.as_str()
    }

    pub fn rule_action(&self, index: usize) -> (r: RuleAction)
        requires
            index < self.rules@.len(),
        ensures
            r == self.rules@[index as int].action,
    {
        self.rules[index].action
    }

    pub fn rule_kind(&self, index: usize) -> (r: RuleKind)
        requires
            index < self.rules@.len(),
        ensures
            r == self.rules@[index as int].kind,
    {
        self.rules[index].kind
    }

    pub fn rule_context(&self, index: usize) -> (r: Option<&CompiledContext>)
        requires
            index < self.rules@.len(),
        ensures
            match (r, self.rules@[index as int].context) {
                (Some(a), Some(c)) => *a == c,
                (None, None) => true,
                _ => false,
            },
    {
        self.rules[index].context.as_ref()
    }

    pub fn len(&self) -> (r: usize)
        ensures
            r == self.rules@.len(),
    {
        self.rules.len()
    }
}

proof fn lemma_fault_stays(
    rules: Seq<RuleDef>,
    home: Option<Seq<char>>,
    fold: bool,
    a: int,
    b: int,
)
    requires
        a <= b,
    ensures
        rules_fault(rules, home, fold, a) is Some ==> rules_fault(rules, home, fold, b) == rules_fault(
            rules,
            home,
            fold,
            a,
        ),
    decreases b - a,
{
    if a < b {
        lemma_fault_stays(rules, home, fold, a, b - 1);
    }
}

// ---- laws ----

/// The rule that decides matches the path, no other that matches weighs more, and
/// none before it weighs as much.
pub proof fn law_heaviest_rule_decides(rules: Seq<CompiledRule>, path: Seq<char>, i: int)
    requires
        0 <= i < rules.len(),
        any_hit(held(rules[i].globset), path),
    ensures
        best_rule(rules, path, rules.len() as int) matches Some(b) && 0 <= b < rules.len() && any_hit(
            held(rules[b].globset),
            path,
        ) && rules[i].priority <= rules[b].priority && (rules[i].priority == rules[b].priority ==> b
            <= i),
{
    lemma_heaviest(rules, path, i, rules.len() as int);
}

proof fn lemma_heaviest(rules: Seq<CompiledRule>, path: Seq<char>, i: int, n: int)
    requires
        0 <= i < n <= rules.len(),
        any_hit(held(rules[i].globset), path),
    ensures
        best_rule(rules, path, n) matches Some(b) && 0 <= b < n && any_hit(
            held(rules[b].globset),
            path,
        ) && rules[i].priority <= rules[b].priority && (rules[i].priority == rules[b].priority ==> b
            <= i),
    decreases n,
{
    lemma_best_rule(rules, path, n - 1);
    if i < n - 1 {
        lemma_heaviest(rules, path, i, n - 1);
    }
}

/// A rule is refused exactly where one of its patterns cannot be read, its patterns do
/// not fit together, or its context is refused.
pub proof fn law_rules_need_readable_patterns(r: RuleDef, home: Option<Seq<char>>, fold: bool)
    ensures
        rule_fault(r, home, fold) is None <==> {
            &&& forall|i: int|
                0 <= i < r.patterns@.len() ==> globs::is_glob(
                    expanded(#[trigger] r.patterns@[i]@, home),
                    true,
                    fold,
                )
            &&& set_builds(pattern_globs(views(r.patterns@), home, fold))
            &&& r.context matches Some(c) ==> context_fault(c, home, fold) is None
        },
        rule_fault(r, home, fold) is Some && (rule_fault(r, home, fold)->0 is Globset || rule_fault(
            r,
            home,
            fold,
        )->0 is Context) ==> forall|i: int|
        0 <= i < r.patterns@.len() ==> globs::is_glob(
            expanded(#[trigger] r.patterns@[i]@, home),
            true,
            fold,
        ),
{
    let g = pattern_globs(views(r.patterns@), home, fold);
    let f = if_bad();
    crate::seqs::law_found_is_made(g, f);
    assert forall|i: int| 0 <= i < r.patterns@.len() implies f(#[trigger] g[i]) is None <==> globs::is_glob(
        expanded(r.patterns@[i]@, home),
        true,
        fold,
    ) by {
        assert(views(r.patterns@)[i] == r.patterns@[i]@);
    }
    if find_some(g, f) is None {
        assert forall|i: int| 0 <= i < r.patterns@.len() implies globs::is_glob(
            expanded(#[trigger] r.patterns@[i]@, home),
            true,
            fold,
        ) by {
            assert(f(g[i]) is None);
        }
    } else {
        let b = find_some(g, f)->0;
        let i = choose|i: int|
        0 <= i < g.len() && f(#[trigger] g[i]) == Some(b) && forall|j: int|
        0 <= j < i ==> f(#[trigger] g[j]) is None;
        assert(!globs::is_glob(expanded(r.patterns@[i]@, home), true, fold));
    }
}

/// A set of rules is refused exactly where one of its rules is, for what the first
/// such rule is refused for.
pub proof fn law_first_refusal_is_told(rules: Seq<RuleDef>, home: Option<Seq<char>>, fold: bool, n: int, i: int)
    requires
        0 <= i < n <= rules.len(),
    ensures
        (forall|j: int| 0 <= j < i ==> rule_fault(#[trigger] rules[j], home, fold) is None) && rule_fault(
            rules[i],
            home,
            fold,
        ) is Some ==> rules_fault(rules, home, fold, n) == rule_fault(rules[i], home, fold),
        (forall|j: int| 0 <= j < n ==> rule_fault(#[trigger] rules[j], home, fold) is None) ==> rules_fault(
            rules,
            home,
            fold,
            n,
        ) is None,
    decreases n,
{
    if forall|j: int| 0 <= j < n - 1 ==> rule_fault(#[trigger] rules[j], home, fold) is None {
        lemma_no_refusal(rules, home, fold, n - 1);
    }
    if i < n - 1 {
        law_first_refusal_is_told(rules, home, fold, n - 1, i);
    }
}

proof fn lemma_no_refusal(rules: Seq<RuleDef>, home: Option<Seq<char>>, fold: bool, n: int)
    requires
        0 <= n <= rules.len(),
        forall|j: int| 0 <= j < n ==> rule_fault(#[trigger] rules[j], home, fold) is None,
    ensures
        rules_fault(rules, home, fold, n) is None,
    decreases n,
{
    if n > 0 {
        lemma_no_refusal(rules, home, fold, n - 1);
    }
}

/// A compiled rule keeps what its definition says, and a context that asks for nothing
/// is left out. Where no depth is given, files are looked for three levels up, and six
/// for a sample.
pub proof fn law_compiled_rules_keep_their_definition(
    x: CompiledRule,
    r: RuleDef,
    home: Option<Seq<char>>,
    fold: bool,
)
    requires
        rule_is(x, r, home, fold),
    ensures
        x.id@ == r.id@ && x.kind == r.kind && x.action == r.action && x.priority == r.weight(),
        held(x.globset).len() == r.patterns@.len(),
        r.context is None ==> x.context is None,
        x.context matches Some(a) ==> (r.context matches Some(c) && {
            &&& views(a.require_ancestor_files_any@) == views(c.require_ancestor_files_any@)
            &&& views(a.sample_ancestor_files_any@) == views(c.sample_ancestor_files_any@)
            &&& c.ancestor_depth matches Some(d) ==> a.ancestor_depth == d
            &&& c.ancestor_depth is None ==> a.ancestor_depth == 3
            &&& c.sample_ancestor_depth matches Some(d) ==> a.sample_ancestor_depth == d
            &&& c.sample_ancestor_depth is None ==> a.sample_ancestor_depth == 6
            &&& a.sample_strategy == c.sample_strategy
            &&& a.parent_anchor_any is Some <==> c.parent_anchor_any@.len() > 0
            &&& a.require_parent_any is Some <==> c.require_parent_any@.len() > 0
            &&& a.require_parent_none is Some <==> c.require_parent_none@.len() > 0
            &&& a.exclude_ancestor_any is Some <==> c.exclude_ancestor_any@.len() > 0
            &&& a.sample_parent_any is Some <==> c.sample_parent_any@.len() > 0
            &&& a.require_parent_none matches Some(set) ==> held(set).len() == c.require_parent_none@.len()
        }),
        x.context is None && r.context is Some ==> (r.context matches Some(c) && c.parent_anchor_any@.len()
            == 0 && c.require_parent_any@.len() == 0 && c.require_parent_none@.len() == 0
            && c.exclude_ancestor_any@.len() == 0 && c.require_ancestor_files_any@.len() == 0
            && c.sample_ancestor_files_any@.len() == 0 && c.sample_parent_any@.len() == 0
            && c.sample_strategy is None),
{
}

/// The patterns of a context are read as those of a rule: with the home directory in
/// place of the tilde, one for each.
pub proof fn law_patterns_are_expanded(patterns: Seq<Seq<char>>, home: Option<Seq<char>>, fold: bool, i: int)
    requires
        0 <= i < patterns.len(),
    ensures
        pattern_globs(patterns, home, fold).len() == patterns.len(),
        pattern_globs(patterns, home, fold)[i] == (expanded(patterns[i], home), true, fold),
        !globs::is_glob(expanded(patterns[i], home), true, fold) ==> list_fault(patterns, home, fold) is Some,
        list_fault(patterns, home, fold) is None ==> set_builds(pattern_globs(patterns, home, fold)),
        list_fault(Seq::<Seq<char>>::empty(), home, fold) is None,
{
    let g = pattern_globs(patterns, home, fold);
    crate::seqs::law_found_is_made(g, if_bad());
    if !globs::is_glob(expanded(patterns[i], home), true, fold) {
        assert(if_bad()(g[i]) is Some);
    }
}

/// A context is refused exactly where one of its lists is.
pub proof fn law_contexts_need_readable_lists(c: RuleContext, home: Option<Seq<char>>, fold: bool)
    ensures
        context_fault(c, home, fold) is None <==> list_fault(views(c.parent_anchor_any@), home, fold) is None
            && list_fault(views(c.require_parent_any@), home, fold) is None && list_fault(
            views(c.require_parent_none@),
            home,
            fold,
        ) is None && list_fault(views(c.exclude_ancestor_any@), home, fold) is None && list_fault(
            views(c.sample_parent_any@),
            home,
            fold,
        ) is None,
{
}

/// A leading tilde stands for the home directory, where one is known; other patterns
/// stay as they are.
pub proof fn law_tildes_are_home(rest: Seq<char>, pattern: Seq<char>, home: Seq<char>)
    ensures
        expanded("~/"@ + rest, Some(home)) == text::replaced(below(home, rest), '\\', "/"@),
        !text::begins(pattern, "~/"@) ==> expanded(pattern, Some(home)) == pattern,
        expanded(pattern, None) == pattern,
{
    text::law_prefixes_come_off("~/"@, rest, pattern);
}

} // verus!
