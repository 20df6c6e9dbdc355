//! Rule sets: files of rules that are put together by name, with rules and groups
//! of rules that are switched off.

use crate::paths;
use crate::paths::{below, parent_of};
use crate::seqs::{collect_some, flatten_map, group_views, if_stays, keep, paired, views};
use crate::text;
use crate::text::same;
use vstd::prelude::*;

verus! {

broadcast use group_views;

#[derive(Debug, Clone)]
pub struct RuleFile {
    pub rules: Vec<RuleDef>,
}

#[derive(Debug, Clone)]
pub struct RuleDef {
    pub id: String,
    pub kind: RuleKind,
    pub action: RuleAction,
    pub patterns: Vec<String>,
    pub group: Option<String>,
    pub context: Option<RuleContext>,
    pub notes: Option<String>,
    pub priority: Option<u32>,
}

#[derive(Debug, Clone, Copy, PartialEq, Eq, Structural)]
pub enum RuleKind {
    Cache,
    Log,
    Temp,
    Crash,
    Download,
    Build,
    Trash,
    Data,
    Dev,
    System,
    GitIgnored,
    Other,
}

#[derive(Debug, Clone, Copy, PartialEq, Eq, Structural)]
pub enum RuleAction {
    Cleanable,
    Caution,
    DeepClean,
    Protect,
}

/// What must hold around a path for a rule to match it, and under which path it
/// is shown.
#[derive(Debug, Clone)]
pub struct RuleContext {
    pub parent_anchor_any: Vec<String>,
    pub require_parent_any: Vec<String>,
    pub require_parent_none: Vec<String>,
    pub exclude_ancestor_any: Vec<String>,
    pub require_ancestor_files_any: Vec<String>,
    pub ancestor_depth: Option<usize>,
    pub sample_ancestor_files_any: Vec<String>,
    pub sample_ancestor_depth: Option<usize>,
    pub sample_parent_any: Vec<String>,
    pub sample_strategy: Option<SampleStrategy>,
}

#[derive(Debug, Clone, Copy, PartialEq, Eq, Structural)]
pub enum SampleStrategy {
    ChromiumProfile,
    MacosLibraryApp,
}

/// The action of a rule that names none.
pub fn default_action() -> (r: RuleAction)
    ensures
        r == RuleAction::Cleanable,
{
    RuleAction::Cleanable
}

/// How much an action weighs against others.
pub open spec fn action_priority(a: RuleAction) -> u32 {
    match a {
        RuleAction::Protect => 100,
        RuleAction::DeepClean => 80,
        RuleAction::Caution => 60,
        RuleAction::Cleanable => 40,
    }
}

impl RuleAction {
    /// How much the action weighs against others.
    pub fn priority(self) -> (r: u32)
        ensures
            r == action_priority(self),
    {
        match self {
            RuleAction::Protect => 100,
            RuleAction::DeepClean => 80,
            RuleAction::Caution => 60,
            RuleAction::Cleanable => 40,
        }
    }
}

impl RuleDef {
    /// How much the rule weighs against others: as it says, or as its action does.
    pub open spec fn weight(&self) -> u32 {
        match self.priority {
            Some(p) => p,
            None => action_priority(self.action),
        }
    }

    /// How much the rule weighs against others: as it says, or as its action does.
    pub fn effective_priority(&self) -> (r: u32)
        ensures
            r == self.weight(),
    {
        match self.priority {
            Some(p) => p,
            None => self.action.priority(),
        }
    }
}

#[derive(Debug, Clone)]
pub struct RulesetFile {
    pub rulesets: Vec<RulesetDef>,
}

#[derive(Debug, Clone)]
pub struct RulesetDef {
    pub name: String,
    pub includes: Vec<String>,
    pub disabled: Vec<String>,
    pub disabled_groups: Vec<String>,
}

/// Whether the rule set at a position is the first of a name.
pub open spec fn is_first_called(sets: Seq<RulesetDef>, name: Seq<char>, i: int) -> bool {
    &&& 0 <= i < sets.len()
    &&& sets[i].name@ == name
    &&& forall|j: int| 0 <= j < i ==> (#[trigger] sets[j]).name@ != name
}

/// Whether there is a rule set of a name.
pub open spec fn is_called(sets: Seq<RulesetDef>, name: Seq<char>) -> bool {
    exists|i: int| 0 <= i < sets.len() && (#[trigger] sets[i]).name@ == name
}

/// The position of the first rule set of a name.
pub fn find_ruleset(sets: &RulesetFile, name: &str) -> (r: Result<usize, String>)
    ensures
        match r {
            Ok(i) => is_first_called(sets.rulesets@, name@, i as int),
            Err(e) => !is_called(sets.rulesets@, name@) && e@ == "ruleset '"@ + name@ + "' not found"@,
        },
{
    let mut i: usize = 0;
    while i < sets.rulesets.len()
        invariant
            i <= sets.rulesets@.len(),
            forall|j: int| 0 <= j < i ==> (#[trigger] sets.rulesets@[j]).name@ != name@,
        decreases sets.rulesets@.len() - i,
    {
        if same(sets.rulesets[i].name.as_str(), name) {
            return Ok(i);
        }
        i += 1;
    }
    Err("ruleset '".to_owned().concat(name).concat("' not found"))
}

/// Where the files of a rule set are looked for.
pub open spec fn ruleset_dir(rulesets_path: Seq<char>) -> Seq<char> {
    match parent_of(rulesets_path) {
        Some(p) => p,
        None => "."@,
    }
}

/// The files that a rule set includes.
pub fn include_paths(rulesets_path: &str, set: &RulesetDef) -> (r: Vec<String>)
    ensures
        views(r@) == views(set.includes@).map_values(
            |i: Seq<char>| below(ruleset_dir(rulesets_path@), i),
        ),
{
    let dir = match paths::parent(rulesets_path) {
        Some(p) => p,
        None => ".".to_owned(),
    };
    let ghost d = ruleset_dir(rulesets_path@);
    let ghost all = views(set.includes@);
    let ghost f = |i: Seq<char>| below(d, i);
    let mut r: Vec<String> = Vec::new();
    let mut i: usize = 0;
    while i < set.includes.len()
        invariant
            i <= set.includes@.len(),
            all == views(set.includes@),
            dir@ == d,
            f == (|i: Seq<char>| below(d, i)),
            views(r@) == all.take(i as int).map_values(f),
        decreases set.includes@.len() - i,
    {
        assert(all[i as int] == set.includes@[i as int]@);
        r.push(paths::join(dir.as_str(), set.includes[i].as_str()));
        assert(views(r@) =~= all.take(i + 1).map_values(f));
        i += 1;
    }
    assert(all.take(i as int) =~= all);
    r
}

/// Whether a rule is switched on.
pub open spec fn is_on(r: RuleDef, ids: Seq<Seq<char>>, groups: Seq<Seq<char>>) -> bool {
    !ids.contains(r.id@) && match r.group {
        Some(g) => !groups.contains(g@),
        None => true,
    }
}

/// Which rules are switched on.
pub open spec fn on_flags(rules: Seq<RuleDef>, ids: Seq<Seq<char>>, groups: Seq<Seq<char>>) -> Seq<bool> {
    rules.map_values(|r: RuleDef| is_on(r, ids, groups))
}

/// The rules that are switched on, in order.
pub fn filter_rules(rules: Vec<RuleDef>, ids: &Vec<String>, groups: &Vec<String>) -> (r: Vec<RuleDef>)
    ensures
        r@ == collect_some(
            paired(rules@, on_flags(rules@, views(ids@), views(groups@))),
            if_stays(),
        ),
{
    let ghost all = rules@;
    let n: usize = rules.len();
    let mut stays: Vec<bool> = Vec::new();
    let mut i: usize = 0;
    while i < n
        invariant
            i <= n,
            n == rules@.len(),
            all == rules@,
            stays@ == on_flags(all, views(ids@), views(groups@)).take(i as int),
        decreases n - i,
    {
        let grouped_off = match &rules[i].group {
            Some(g) => text::among(g.as_str(), groups),
            None => false,
        };
        stays.push(!text::among(rules[i].id.as_str(), ids) && !grouped_off);
        assert(stays@ =~= on_flags(all, views(ids@), views(groups@)).take(i + 1));
        i += 1;
    }
    assert(stays@ =~= on_flags(all, views(ids@), views(groups@)));
    keep(rules, &stays)
}

/// The rules of some files, one file after the other.
pub open spec fn rules_in(files: Seq<RuleFile>) -> Seq<RuleDef> {
    flatten_map(files, |f: RuleFile| f.rules@)
}

fn gather(files: Vec<RuleFile>) -> (r: Vec<RuleDef>)
    ensures
        r@ == rules_in(files@),
{
    let ghost all = files@;
    let mut rest = files;
    let mut r: Vec<RuleDef> = Vec::new();
    assert(rules_in(all) =~= rules_in(rest@) + r@);
    while rest.len() > 0
        invariant
            rules_in(all) == rules_in(rest@) + r@,
        decreases rest@.len(),
    {
        let ghost before = rest@;
        let ghost behind = r@;
        match rest.pop() {
            Some(f) => {
                assert(rest@ =~= before.drop_last());
                let mut own = f.rules;
                let ghost mine = own@;
                own.append(&mut r);
                r = own;
                assert(rules_in(rest@) + mine + behind =~= rules_in(rest@) + (mine + behind));
            },
            None => {},
        }
    }
    assert(rules_in(rest@) + r@ =~= r@);
    r
}

/// The rules of a rule set that are switched on. `files` are the files that it
/// includes, as they were read.
pub fn load_ruleset(
    sets: &RulesetFile,
    name: &str,
    files: Vec<RuleFile>,
    disable_ids: &Vec<String>,
    disable_groups: &Vec<String>,
) -> (r: Result<Vec<RuleDef>, String>)
    ensures
        match r {
            Ok(rules) => exists|i: int|
            #[trigger] is_first_called(sets.rulesets@, name@, i) && rules@ == collect_some(
                paired(
                    rules_in(files@),
                    on_flags(
                        rules_in(files@),
                        views(sets.rulesets@[i].disabled@) + views(disable_ids@),
                        views(sets.rulesets@[i].disabled_groups@) + views(disable_groups@),
                    ),
                ),
                if_stays(),
            ),
            Err(e) => !is_called(sets.rulesets@, name@) && e@ == "ruleset '"@ + name@ + "' not found"@,
        },
{
    let at = match find_ruleset(sets, name) {
        Ok(i) => i,
        Err(e) => {
            return Err(e);
        },
    };
    let set = &sets.rulesets[at];
    let mut ids = text::copy_texts(&set.disabled);
    let mut more_ids = text::copy_texts(disable_ids);
    ids.append(&mut more_ids);
    let mut groups = text::copy_texts(&set.disabled_groups);
    let mut more_groups = text::copy_texts(disable_groups);
    groups.append(&mut more_groups);
    let rules = gather(files);
    let r = filter_rules(rules, &ids, &groups);
    assert(is_first_called(sets.rulesets@, name@, at as int));
    Ok(r)
}

// ---- laws ----

/// Protection outweighs every other action.
pub proof fn law_protection_weighs_most(a: RuleAction)
    ensures
        a != RuleAction::Protect ==> action_priority(a) < action_priority(RuleAction::Protect),
{
}

/// A rule that is switched off by its id or its group is gone.
pub proof fn law_disabled_rules_are_gone(
    rules: Seq<RuleDef>,
    ids: Seq<Seq<char>>,
    groups: Seq<Seq<char>>,
    j: int,
)
    requires
        0 <= j < collect_some(
            paired(rules, on_flags(rules, ids, groups)),
            if_stays::<RuleDef>(),
        ).len(),
    ensures
        is_on(
            collect_some(paired(rules, on_flags(rules, ids, groups)), if_stays::<RuleDef>())[j],
            ids,
            groups,
        ),
{
    let p = paired(rules, on_flags(rules, ids, groups));
    let f = if_stays::<RuleDef>();
    crate::seqs::lemma_collect_origin(p, f, j);
    let i = choose|i: int|
    0 <= i < p.len() && f(#[trigger] p[i]) == Some(collect_some(p, f)[j]);
    assert(p[i] == (rules[i], is_on(rules[i], ids, groups)));
}

/// A rule stays exactly where neither its id nor its group is disabled.
pub proof fn law_enabled_rules_stay(rules: Seq<RuleDef>, ids: Seq<Seq<char>>, groups: Seq<Seq<char>>, i: int)
    requires
        0 <= i < rules.len(),
        !ids.contains(rules[i].id@),
        rules[i].group is Some ==> !groups.contains(rules[i].group->0@),
    ensures
        collect_some(paired(rules, on_flags(rules, ids, groups)), if_stays::<RuleDef>()).contains(rules[i]),
{
    crate::seqs::law_marked_items_stay(rules, on_flags(rules, ids, groups), rules[i]);
    assert(on_flags(rules, ids, groups)[i]);
}

/// A priority of its own outweighs that of the action; without one, protection comes
/// before deep cleaning, that before caution, and that before what can be cleaned.
pub proof fn law_priorities(r: RuleDef)
    ensures
        r.priority is Some ==> r.weight() == r.priority->0,
        r.priority is None ==> r.weight() == action_priority(r.action),
        action_priority(RuleAction::Protect) > action_priority(RuleAction::DeepClean),
        action_priority(RuleAction::DeepClean) > action_priority(RuleAction::Caution),
        action_priority(RuleAction::Caution) > action_priority(RuleAction::Cleanable),
{
}

/// A set of rules is found by its name, and the first of that name comes first.
pub proof fn law_first_of_a_name_is_found(sets: Seq<RulesetDef>, name: Seq<char>, i: int, j: int)
    requires
        0 <= i < sets.len(),
        0 <= j < sets.len(),
    ensures
        sets[i].name@ == name ==> is_called(sets, name),
        is_first_called(sets, name, i) && sets[j].name@ == name ==> i <= j,
        is_first_called(sets, name, i) ==> sets[i].name@ == name,
        is_called(sets, name) ==> exists|k: int| 0 <= k < sets.len() && #[trigger] sets[k].name@ == name,
{
}

/// The files of a set stand below the directory that holds the list of sets.
pub proof fn law_sets_stand_beside_their_list(dir: Seq<char>, path: Seq<char>)
    requires
        parent_of(path) == Some(dir),
    ensures
        ruleset_dir(path) == dir,
{
}

} // verus!
