//! Declarative cleaning rules.
//!
//! A rule is either *targeted* (it has `roots`: concrete, enumerable locations
//! that are sized directly without walking anything else) or *discovery* (it
//! has `dir_names`, `file_names`, `file_suffixes` or `path_globs`: triggers
//! evaluated during the full walk). Protected rules carve paths out of both.

use crate::seqs::{collect_some, flatten_map, group_views, lemma_collect_step, views};
use crate::sizes;
use crate::text;
use crate::text::{same, trimmed, uppered};
use vstd::prelude::*;

verus! {

broadcast use group_views;

#[derive(Debug, Clone, Copy, PartialEq, Eq, PartialOrd, Ord, Structural)]
pub enum Safety {
    /// Regenerated automatically; deleting costs nothing but a warm cache.
    Safe,
    /// Regenerable but with a real cost (re-download, re-build, re-login).
    Review,
    /// May contain user data; deletion needs explicit, per-item consent.
    Risky,
    /// Never deleted, never offered.
    Protected,
}

pub open spec fn safety_label(s: Safety) -> Seq<char> {
    match s {
        Safety::Safe => "safe"@,
        Safety::Review => "review"@,
        Safety::Risky => "risky"@,
        Safety::Protected => "protected"@,
    }
}

impl Safety {
    /// The word for this tier.
    pub fn label(self) -> (r: &'static str)
        ensures
            r@ == safety_label(self),
    {
        match self {
            Safety::Safe => "safe",
            Safety::Review => "review",
            Safety::Risky => "risky",
            Safety::Protected => "protected",
        }
    }
}

#[derive(Debug, Clone)]
pub struct RuleDef {
    pub id: String,
    /// Free-form taxonomy label used for grouping (e.g. "app-cache",
    /// "package-manager-cache", "project-artifact").
    pub category: String,
    pub safety: Safety,
    /// What the matched data is.
    pub description: Option<String>,
    /// One human sentence: what deleting this costs the user.
    pub impact: Option<String>,
    /// What the user is advised to do.
    pub recommendation: Option<String>,
    /// Anchored locations. `~` expands to the home directory; a path component
    /// may contain glob characters (expanded by listing that level).
    pub roots: Vec<String>,
    /// Only directories among the expanded roots count.
    pub directory_only: bool,
    /// Directory basenames that claim their whole subtree on match.
    pub dir_names: Vec<String>,
    /// Exact file basenames (e.g. ".DS_Store").
    pub file_names: Vec<String>,
    /// File basename suffixes (e.g. ".pyc"). Matched case-insensitively.
    pub file_suffixes: Vec<String>,
    /// Escape hatch: full-path globs for patterns the tables can't express.
    pub path_globs: Vec<String>,
    /// Claim only if a sibling entry matches one of these globs
    /// (e.g. "package.json" next to node_modules).
    pub require_sibling_any: Vec<String>,
    /// Never claim while one of these directory names is an ancestor.
    pub exclude_ancestors: Vec<String>,
    /// Marks findings as in use while a running command contains one of these.
    pub process_names: Vec<String>,
    /// Skip (mark recent) when the newest of dir-mtime / marker-sibling mtimes
    /// is younger than this.
    pub min_age_days: Option<u64>,
    /// Ignore findings smaller than this (bytes, accepts "10MB" style).
    pub min_size: Option<String>,
    /// Ignore single files smaller than this.
    pub min_file_size: Option<String>,
    /// Preferred tool-native GC command, e.g. ["pnpm", "store", "prune"].
    pub clean_via: Vec<String>,
    /// Surface in reports but never include in a deletion plan
    /// (e.g. Trash bin, Docker advice).
    pub report_only: bool,
    /// Selectable by hand only, never by bulk selection.
    pub manual_only: bool,
}

#[derive(Debug, Clone)]
pub struct RuleFile {
    pub rules: Vec<RuleDef>,
}

#[derive(Debug, Clone)]
pub struct UserConfig {
    /// Extra protect globs (full paths, ~ allowed).
    pub protect: Vec<String>,
    /// Rule ids to disable entirely.
    pub disable_rules: Vec<String>,
    /// Global floor for min_age_days applied to every non-protect rule.
    pub min_age_days: Option<u64>,
}

impl Default for UserConfig {
    fn default() -> (r: Self)
        ensures
            r.protect@.len() == 0,
            r.disable_rules@.len() == 0,
            r.min_age_days is None,
    {
        UserConfig { protect: Vec::new(), disable_rules: Vec::new(), min_age_days: None }
    }
}

// ---- user configuration ----

/// A rule, unless its id is disabled.
pub open spec fn if_enabled(disabled: Seq<Seq<char>>) -> spec_fn(RuleDef) -> Option<RuleDef> {
    |r: RuleDef|
        if disabled.contains(r.id@) {
            None
        } else {
            Some(r)
        }
}

/// A rule with an age of at least `floor` days, unless it protects.
pub open spec fn with_floor(rule: RuleDef, floor: u64) -> RuleDef {
    if rule.safety == Safety::Protected {
        rule
    } else {
        RuleDef {
            min_age_days: Some(
                match rule.min_age_days {
                    Some(d) => if d > floor {
                        d
                    } else {
                        floor
                    },
                    None => floor,
                },
            ),
            ..rule
        }
    }
}

/// The rules as the user's configuration leaves them.
pub open spec fn configured(rules: Seq<RuleDef>, config: UserConfig) -> Seq<RuleDef> {
    let kept = collect_some(rules, if_enabled(views(config.disable_rules@)));
    match config.min_age_days {
        Some(floor) => kept.map_values(|r: RuleDef| with_floor(r, floor)),
        None => kept,
    }
}

/// Drops the disabled rules, in order, and raises the age gates of the others.
pub fn apply_user_config(rules: &mut Vec<RuleDef>, config: &UserConfig)
    ensures
        final(rules)@ == configured(old(rules)@, *config),
{
    let ghost before = rules@;
    let ghost keep = if_enabled(views(config.disable_rules@));
    let ghost mut seen: int = 0;
    let mut i: usize = 0;
    assert(before.take(0) =~= Seq::<RuleDef>::empty());
    assert(rules@ =~= collect_some(before.take(0), keep) + before.skip(0));
    while i < rules.len()
        invariant
            0 <= seen <= before.len(),
            keep == if_enabled(views(config.disable_rules@)),
            rules@ == collect_some(before.take(seen), keep) + before.skip(seen),
            i == collect_some(before.take(seen), keep).len(),
        decreases before.len() - seen,
    {
        proof {
            lemma_collect_step(before, seen, keep);
            assert(rules@[i as int] == before.skip(seen)[0]);
            assert(before.skip(seen)[0] == before[seen]);
        }
        let ghost now = rules@;
        if text::among(rules[i].id.as_str(), &config.disable_rules) {
            rules.remove(i);
            assert(rules@ =~= collect_some(before.take(seen + 1), keep) + before.skip(seen + 1));
        } else {
            assert(rules@ =~= collect_some(before.take(seen + 1), keep) + before.skip(seen + 1));
            i += 1;
        }
        proof {
            seen = seen + 1;
        }
    }
    let ghost kept = collect_some(before, keep);
    assert(before.take(before.len() as int) =~= before);
    assert(seen == before.len());
    assert(rules@ =~= kept);
    if let Some(floor) = config.min_age_days {
        let ghost raise = |r: RuleDef| with_floor(r, floor);
        let mut k: usize = 0;
        while k < rules.len()
            invariant
                k <= rules@.len(),
                rules@.len() == kept.len(),
                raise == (|r: RuleDef| with_floor(r, floor)),
                forall|j: int| 0 <= j < k ==> #[trigger] rules@[j] == with_floor(kept[j], floor),
                forall|j: int| k <= j < kept.len() ==> #[trigger] rules@[j] == kept[j],
            decreases rules@.len() - k,
        {
            if rules[k].safety != Safety::Protected {
                let current: u64 = match rules[k].min_age_days {
                    Some(d) => d,
                    None => 0,
                };
                let days: u64 = if current > floor {
                    current
                } else {
                    floor
                };
                rules[k].min_age_days = Some(days);
            }
            k += 1;
        }
        assert(rules@ =~= kept.map_values(raise));
    }
}

// ---- validation ----

/// Whether a rule names anything to look for.
pub open spec fn has_trigger(rule: RuleDef) -> bool {
    ||| rule.roots@.len() > 0
    ||| rule.dir_names@.len() > 0
    ||| rule.file_names@.len() > 0
    ||| rule.file_suffixes@.len() > 0
    ||| rule.path_globs@.len() > 0
}

/// Whether a size that may be absent can be read.
pub open spec fn readable(size: Option<String>) -> bool {
    match size {
        Some(s) => size_of_text(s@) is Ok,
        None => true,
    }
}

/// Why a set of rules is refused.
#[derive(Debug, Clone)]
pub enum RuleError {
    /// Two rules share an id.
    Duplicate(String),
    /// A rule has no roots and no discovery triggers.
    NoTrigger(String),
    /// A rule's minimum size cannot be read.
    BadSize(String, SizeError),
}

impl RuleError {
    /// What the error says.
    pub open spec fn said(self) -> Seq<char> {
        match self {
            RuleError::Duplicate(id) => "duplicate rule id: "@ + id@,
            RuleError::NoTrigger(id) => "rule "@ + id@ + " has no roots and no discovery triggers"@,
            RuleError::BadSize(id, _) => "rule "@ + id@ + ": bad min_size"@,
        }
    }

    /// What the error says.
    pub fn message(&self) -> (r: String)
        ensures
            r@ == self.said(),
    {
        match self {
            RuleError::Duplicate(id) => "duplicate rule id: ".to_owned().concat(id.as_str()),
            RuleError::NoTrigger(id) => "rule ".to_owned().concat(id.as_str()).concat(
                " has no roots and no discovery triggers",
            ),
            RuleError::BadSize(id, _) => "rule ".to_owned().concat(id.as_str()).concat(
                ": bad min_size",
            ),
        }
    }
}

/// Whether the id of rule `i` stands at an earlier rule too.
pub open spec fn repeats(rules: Seq<RuleDef>, i: int) -> bool {
    exists|j: int| 0 <= j < i && (#[trigger] rules[j]).id@ == rules[i].id@
}

/// Whether rule `i` is in order.
pub open spec fn rule_ok(rules: Seq<RuleDef>, i: int) -> bool {
    &&& !repeats(rules, i)
    &&& has_trigger(rules[i])
    &&& readable(rules[i].min_size)
}

/// Whether `e` is what rule `i` is refused for.
pub open spec fn refusal(rules: Seq<RuleDef>, i: int, e: RuleError) -> bool {
    if repeats(rules, i) {
        e matches RuleError::Duplicate(id) && id@ == rules[i].id@
    } else if !has_trigger(rules[i]) {
        e matches RuleError::NoTrigger(id) && id@ == rules[i].id@
    } else {
        e matches RuleError::BadSize(id, why) && id@ == rules[i].id@ && rules[i].min_size is Some
            && refused_size(rules[i].min_size->0@, why)
    }
}

/// Accepts rules with distinct ids, at least one trigger each and readable
/// minimum sizes; refuses others for the first rule that is not in order.
pub fn validate(rules: &Vec<RuleDef>) -> (r: Result<(), RuleError>)
    ensures
        match r {
            Ok(_) => forall|i: int| 0 <= i < rules@.len() ==> #[trigger] rule_ok(rules@, i),
            Err(e) => exists|i: int|
                0 <= i < rules@.len() && !(#[trigger] rule_ok(rules@, i)) && refusal(rules@, i, e)
                    && forall|k: int| 0 <= k < i ==> #[trigger] rule_ok(rules@, k),
        },
{
    let mut i: usize = 0;
    while i < rules.len()
        invariant
            i <= rules@.len(),
            forall|k: int| 0 <= k < i ==> #[trigger] rule_ok(rules@, k),
        decreases rules@.len() - i,
    {
        let rule = &rules[i];
        let mut j: usize = 0;
        while j < i
            invariant
                j <= i < rules@.len(),
                *rule == rules@[i as int],
                forall|k: int| 0 <= k < j ==> (#[trigger] rules@[k]).id@ != rules@[i as int].id@,
                forall|k: int| 0 <= k < i ==> #[trigger] rule_ok(rules@, k),
            decreases i - j,
        {
            if same(rules[j].id.as_str(), rule.id.as_str()) {
                assert(rules@[j as int].id@ == rules@[i as int].id@);
                assert(!rule_ok(rules@, i as int));
                return Err(RuleError::Duplicate(rule.id.clone()));
            }
            j += 1;
        }
        assert(!repeats(rules@, i as int));
        let trigger = rule.roots.len() > 0 || rule.dir_names.len() > 0 || rule.file_names.len() > 0
            || rule.file_suffixes.len() > 0 || rule.path_globs.len() > 0;
        if !trigger {
            assert(!rule_ok(rules@, i as int));
            return Err(RuleError::NoTrigger(rule.id.clone()));
        }
        if let Some(size) = &rule.min_size {
            match parse_size(size.as_str()) {
                Ok(_) => {},
                Err(why) => {
                    assert(!rule_ok(rules@, i as int));
                    return Err(RuleError::BadSize(rule.id.clone(), why));
                },
            }
        }
        assert(rule_ok(rules@, i as int));
        i += 1;
    }
    Ok(())
}

/// The rules of several files in one list, where they are in order.
pub fn combine_rules(files: Vec<RuleFile>) -> (r: Result<Vec<RuleDef>, RuleError>)
    ensures
        match r {
            Ok(v) => {
                &&& v@ == all_rules(files@)
                &&& forall|i: int| 0 <= i < v@.len() ==> #[trigger] rule_ok(v@, i)
            },
            Err(e) => exists|i: int|
                0 <= i < all_rules(files@).len() && !(#[trigger] rule_ok(all_rules(files@), i))
                    && refusal(all_rules(files@), i, e) && forall|k: int|
                    0 <= k < i ==> #[trigger] rule_ok(all_rules(files@), k),
        },
{
    let ghost given = files@;
    let mut files = files;
    let mut all: Vec<RuleDef> = Vec::new();
    let mut done: usize = 0;
    let count: usize = files.len();
    assert(given.take(0) =~= Seq::<RuleFile>::empty());
    assert(given.skip(0) =~= given);
    while done < count
        invariant
            done <= count,
            count == given.len(),
            files@ == given.skip(done as int),
            all@ == all_rules(given.take(done as int)),
        decreases count - done,
    {
        let file = files.remove(0);
        let mut rules = file.rules;
        assert(file == given[done as int]);
        all.append(&mut rules);
        assert(given.take(done + 1).drop_last() =~= given.take(done as int));
        assert(given.skip(done as int).remove(0) =~= given.skip(done + 1));
        done += 1;
    }
    assert(given.take(count as int) =~= given);
    match validate(&all) {
        Ok(_) => Ok(all),
        Err(e) => Err(e),
    }
}

/// The rules of several files, in order.
pub open spec fn all_rules(files: Seq<RuleFile>) -> Seq<RuleDef> {
    flatten_map(files, |f: RuleFile| f.rules@)
}

// ---- sizes ----

/// Why a size is refused.
#[derive(Debug, Clone)]
pub enum SizeError {
    /// No decimal number leads the text.
    BadNumber,
    /// The unit behind the number, in upper case.
    UnknownUnit(String),
}

/// The power of two that a unit stands for.
pub open spec fn size_unit(unit: Seq<char>) -> Option<nat> {
    if unit == ""@ || unit == "B"@ {
        Some(0)
    } else if unit == "KB"@ || unit == "K"@ {
        Some(10)
    } else if unit == "MB"@ || unit == "M"@ {
        Some(20)
    } else if unit == "GB"@ || unit == "G"@ {
        Some(30)
    } else if unit == "TB"@ || unit == "T"@ {
        Some(40)
    } else {
        None
    }
}

/// The number and the unit of a size, the unit in upper case.
pub open spec fn size_parts(input: Seq<char>) -> (Seq<char>, Seq<char>) {
    let (n, u) = sizes::number_and_unit(trimmed(input));
    (n, uppered(trimmed(u)))
}

/// The bytes that a size such as `10MB` stands for.
pub open spec fn size_of_text(input: Seq<char>) -> Result<u64, ()> {
    let (n, u) = size_parts(input);
    match (sizes::decimal_parts(n), size_unit(u)) {
        (Some(_), Some(shift)) => Ok(sizes::scaled(n, shift)->0),
        _ => Err(()),
    }
}

/// Whether `e` is what the size is refused for.
pub open spec fn refused_size(input: Seq<char>, e: SizeError) -> bool {
    let (n, u) = size_parts(input);
    if sizes::decimal_parts(n) is None {
        e is BadNumber
    } else {
        size_unit(u) is None && (e matches SizeError::UnknownUnit(t) && t@ == u)
    }
}

/// Reads a size such as `10MB`; units are powers of 1024.
pub fn parse_size(input: &str) -> (r: Result<u64, SizeError>)
    ensures
        match r {
            Ok(n) => size_of_text(input@) == Ok::<u64, ()>(n),
            Err(e) => size_of_text(input@) is Err && refused_size(input@, e),
        },
{
    let t = text::trim(input);
    let (num, rest) = sizes::split_number(t.as_str());
    if sizes::scaled_bytes(num.as_str(), 0).is_none() {
        return Err(SizeError::BadNumber);
    }
    let unit = text::to_ascii_uppercase(text::trim(rest.as_str()).as_str());
    let u = unit.as_str();
    let shift: u32 = if same(u, "") || same(u, "B") {
        0
    } else if same(u, "KB") || same(u, "K") {
        10
    } else if same(u, "MB") || same(u, "M") {
        20
    } else if same(u, "GB") || same(u, "G") {
        30
    } else if same(u, "TB") || same(u, "T") {
        40
    } else {
        return Err(SizeError::UnknownUnit(unit));
    };
    match sizes::scaled_bytes(num.as_str(), shift) {
        Some(n) => Ok(n),
        None => Err(SizeError::BadNumber),
    }
}

// ---- laws ----

/// The age floor of the configuration never lowers a gate and leaves every
/// other field of a rule as it was.
pub proof fn law_floor_only_raises(rule: RuleDef, floor: u64)
    ensures
        rule.safety != Safety::Protected ==> with_floor(rule, floor).min_age_days is Some
            && with_floor(rule, floor).min_age_days->0 >= floor && (rule.min_age_days is Some
            ==> with_floor(rule, floor).min_age_days->0 >= rule.min_age_days->0),
        rule.safety == Safety::Protected ==> with_floor(rule, floor) == rule,
        with_floor(rule, floor).id == rule.id,
        with_floor(rule, floor).safety == rule.safety,
{
}

/// No configured rule has a disabled id, and each comes from a given rule with
/// the same id and the same safety tier.
pub proof fn law_disabled_rules_are_gone(rules: Seq<RuleDef>, config: UserConfig, j: int)
    requires
        0 <= j < configured(rules, config).len(),
    ensures
        !views(config.disable_rules@).contains(configured(rules, config)[j].id@),
        exists|i: int|
            0 <= i < rules.len() && (#[trigger] rules[i]).id == configured(rules, config)[j].id
                && rules[i].safety == configured(rules, config)[j].safety,
{
    let f = if_enabled(views(config.disable_rules@));
    let kept = collect_some(rules, f);
    crate::seqs::lemma_collect_origin(rules, f, j);
    let i = choose|i: int| 0 <= i < rules.len() && f(#[trigger] rules[i]) == Some(kept[j]);
    assert(rules[i] == kept[j]);
    assert(rules[i].id == configured(rules, config)[j].id);
}

/// A rule that is not disabled stays as it is but for its least age, which a floor
/// raises and never lowers.
pub proof fn law_enabled_rules_stay(rules: Seq<RuleDef>, config: UserConfig, i: int)
    requires
        0 <= i < rules.len(),
        !views(config.disable_rules@).contains(rules[i].id@),
    ensures
        exists|j: int|
        {
            &&& 0 <= j < configured(rules, config).len()
            &&& (#[trigger] configured(rules, config)[j]) == RuleDef {
                min_age_days: configured(rules, config)[j].min_age_days,
                ..rules[i]
            }
            &&& config.min_age_days is None || rules[i].safety == Safety::Protected
                ==> configured(rules, config)[j].min_age_days == rules[i].min_age_days
            &&& config.min_age_days is Some && rules[i].safety != Safety::Protected && (
            rules[i].min_age_days is None || rules[i].min_age_days->0 <= config.min_age_days->0)
                ==> configured(rules, config)[j].min_age_days == config.min_age_days
            &&& config.min_age_days is Some && rules[i].safety != Safety::Protected
                && rules[i].min_age_days is Some && rules[i].min_age_days->0 >= config.min_age_days->0
                ==> configured(rules, config)[j].min_age_days == rules[i].min_age_days
        },
{
    let f = if_enabled(views(config.disable_rules@));
    let kept = collect_some(rules, f);
    crate::seqs::law_collected_is_made(rules, f, rules[i]);
    assert(f(rules[i]) == Some(rules[i]));
    let j = choose|j: int| 0 <= j < kept.len() && kept[j] == rules[i];
    match config.min_age_days {
        Some(floor) => {
            assert(configured(rules, config)[j] == with_floor(rules[i], floor));
        },
        None => {
            assert(configured(rules, config)[j] == rules[i]);
        },
    }
}

/// Rules are accepted exactly where no two share an id, each finds something and each
/// size can be read.
pub proof fn law_valid_rules(rules: Seq<RuleDef>)
    ensures
        (forall|i: int| 0 <= i < rules.len() ==> #[trigger] rule_ok(rules, i)) <==> {
            &&& forall|i: int, j: int|
                #![trigger rules[i], rules[j]]
                0 <= j < i < rules.len() ==> rules[j].id@ != rules[i].id@
            &&& forall|i: int|
                0 <= i < rules.len() ==> (#[trigger] rules[i]).roots@.len() + rules[i].dir_names@.len()
                    + rules[i].file_names@.len() + rules[i].file_suffixes@.len() + rules[i].path_globs@.len()
                    > 0
            &&& forall|i: int|
                0 <= i < rules.len() && (#[trigger] rules[i]).min_size is Some ==> size_of_text(
                    rules[i].min_size->0@,
                ) is Ok
        },
{
    if forall|i: int| 0 <= i < rules.len() ==> #[trigger] rule_ok(rules, i) {
        assert forall|i: int, j: int|
        #![trigger rules[i], rules[j]]
        0 <= j < i < rules.len() implies rules[j].id@ != rules[i].id@ by {
            assert(rule_ok(rules, i));
        }
        assert forall|i: int| 0 <= i < rules.len() implies (#[trigger] rules[i]).roots@.len()
            + rules[i].dir_names@.len() + rules[i].file_names@.len() + rules[i].file_suffixes@.len()
            + rules[i].path_globs@.len() > 0 by {
            assert(rule_ok(rules, i));
        }
        assert forall|i: int| 0 <= i < rules.len() && (#[trigger] rules[i]).min_size is Some
            implies size_of_text(rules[i].min_size->0@) is Ok by {
            assert(rule_ok(rules, i));
        }
    }
}

/// A unit stands for a power of 1024, in its short and its long form; other units are
/// none.
pub proof fn law_units_are_powers(u: Seq<char>)
    ensures
        size_unit(u) == Some(0nat) <==> u == ""@ || u == "B"@,
        u == "K"@ || u == "KB"@ ==> size_unit(u) == Some(10nat),
        u == "M"@ || u == "MB"@ ==> size_unit(u) == Some(20nat),
        u == "G"@ || u == "GB"@ ==> size_unit(u) == Some(30nat),
        u == "T"@ || u == "TB"@ ==> size_unit(u) == Some(40nat),
        size_unit(u) is None <==> u != ""@ && u != "B"@ && u != "K"@ && u != "KB"@ && u != "M"@ && u
            != "MB"@ && u != "G"@ && u != "GB"@ && u != "T"@ && u != "TB"@,
{
    reveal_strlit("");
    reveal_strlit("B");
    reveal_strlit("K");
    reveal_strlit("KB");
    reveal_strlit("M");
    reveal_strlit("MB");
    reveal_strlit("G");
    reveal_strlit("GB");
    reveal_strlit("T");
    reveal_strlit("TB");
    assert("K"@[0] == 'K' && "KB"@[0] == 'K' && "M"@[0] == 'M' && "MB"@[0] == 'M' && "G"@[0] == 'G'
        && "GB"@[0] == 'G' && "T"@[0] == 'T' && "TB"@[0] == 'T' && "B"@[0] == 'B');
    assert("B"@.len() == 1 && "K"@.len() == 1 && "KB"@.len() == 2 && "M"@.len() == 1 && "MB"@.len() == 2
        && "G"@.len() == 1 && "GB"@.len() == 2 && "T"@.len() == 1 && "TB"@.len() == 2);
}

/// A rule is refused for an identifier that an earlier rule has, for want of anything
/// to look for, or for a size that cannot be read, the first of these that holds.
pub proof fn law_refusals_tell_the_first_fault(rules: Seq<RuleDef>, i: int, e: RuleError)
    requires
        0 <= i < rules.len(),
        refusal(rules, i, e),
    ensures
        e is Duplicate <==> exists|j: int| 0 <= j < i && (#[trigger] rules[j]).id@ == rules[i].id@,
        e is NoTrigger ==> rules[i].roots@.len() == 0 && rules[i].dir_names@.len() == 0
            && rules[i].file_names@.len() == 0 && rules[i].file_suffixes@.len() == 0 && rules[i].path_globs@.len()
            == 0,
        e is BadSize ==> rules[i].min_size is Some,
        match e {
            RuleError::Duplicate(id) => id@ == rules[i].id@,
            RuleError::NoTrigger(id) => id@ == rules[i].id@,
            RuleError::BadSize(id, _) => id@ == rules[i].id@,
        },
{
}

} // verus!
