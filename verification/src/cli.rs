//! What the command line decides: where to look, and the lines it prints.

use crate::rules::{RuleDef, safety_label};
use crate::seqs::{group_views, views};
use crate::sizes;
use crate::text;
use crate::text::digits;
use vstd::prelude::*;

verus! {

broadcast use group_views;

/// A value that was set to something.
pub open spec fn set_value(v: Option<Seq<char>>) -> Option<Seq<char>> {
    match v {
        Some(s) => if s.len() > 0 {
            Some(s)
        } else {
            None
        },
        None => None,
    }
}

/// The home directory: the value of `HOME`, or that of `USERPROFILE` where the
/// first is not set.
pub fn home_dir(home: Option<&str>, user_profile: Option<&str>) -> (r: Option<String>)
    ensures
        crate::seqs::view_of(r) == match set_value(text::shown(home)) {
            Some(s) => Some(s),
            None => set_value(text::shown(user_profile)),
        },
{
    proof {
        reveal_strlit("");
    }
    if let Some(s) = home {
        assert(s@.len() == 0 ==> s@ =~= ""@);
        if !text::same(s, "") {
            return Some(s.to_owned());
        }
    }
    match user_profile {
        Some(s) => {
            assert(s@.len() == 0 ==> s@ =~= ""@);
            if text::same(s, "") {
                None
            } else {
                Some(s.to_owned())
            }
        },
        None => None,
    }
}

/// The directories to discover in: those that were given, else the home directory.
pub fn resolve_roots(given: &Vec<String>, home: Option<&str>) -> (r: Result<Vec<String>, String>)
    ensures
        match r {
            Ok(roots) => if given@.len() > 0 {
                views(roots@) == views(given@)
            } else {
                text::shown(home) matches Some(h) && views(roots@) == seq![h]
            },
            Err(m) => given@.len() == 0 && home is None && m@ == "no --root given and $HOME is unset"@,
        },
{
    if given.len() > 0 {
        return Ok(text::copy_texts(given));
    }
    match home {
        Some(h) => Ok(text::texts1(h)),
        None => Err("no --root given and $HOME is unset".to_owned()),
    }
}

/// How a rule finds what it cleans.
pub open spec fn rule_mode(roots: nat) -> Seq<char> {
    if roots > 0 {
        "targeted"@
    } else {
        "discovery"@
    }
}

/// The line that lists a rule.
pub open spec fn rule_text(def: RuleDef) -> Seq<char> {
    text::pad_right(def.id@, 28) + " "@ + text::pad_right(def.category@, 24) + " "@ + text::pad_right(
        safety_label(def.safety),
        9,
    ) + " "@ + rule_mode(def.roots@.len()) + if def.report_only {
        " (report only)"@
    } else {
        ""@
    }
}

/// The line that lists a rule.
pub fn rule_line(def: &RuleDef) -> (r: String)
    ensures
        r@ == rule_text(*def),
{
    let mode = if def.roots.len() > 0 {
        "targeted"
    } else {
        "discovery"
    };
    let note = if def.report_only {
        " (report only)"
    } else {
        ""
    };
    text::left_aligned(def.id.as_str(), 28).concat(" ").concat(
        text::left_aligned(def.category.as_str(), 24).as_str(),
    ).concat(" ").concat(text::left_aligned(def.safety.label(), 9).as_str()).concat(" ").concat(mode).concat(
        note,
    )
}

/// What cleaning came to, in one line.
pub fn cleaned_line(freed_bytes: u64, deleted: u64, failed: u64) -> (r: String)
    ensures
        r@ == "Freed "@ + sizes::human(freed_bytes as nat) + " ("@ + digits(deleted as nat)
            + " items deleted, "@ + digits(failed as nat)
            + " skipped/failed). Journal: ~/.local/state/hokori/journal.jsonl"@,
{
    "Freed ".to_owned().concat(sizes::human_bytes(freed_bytes).as_str()).concat(" (").concat(
        text::decimal(deleted).as_str(),
    ).concat(" items deleted, ").concat(text::decimal(failed).as_str()).concat(
        " skipped/failed). Journal: ~/.local/state/hokori/journal.jsonl",
    )
}

/// A variable of the environment counts as set exactly where it holds something.
pub proof fn law_empty_values_are_not_set(v: Seq<char>)
    ensures
        set_value(Some(v)) == Some(v) <==> v.len() > 0,
        set_value(Some(v)) is None <==> v.len() == 0,
        set_value(None) is None,
{
}

/// Rules with roots are told as targeted, the others as found on the way.
pub proof fn law_roots_make_a_rule_targeted(roots: nat)
    ensures
        rule_mode(roots) == "targeted"@ <==> roots > 0,
        rule_mode(roots) == "discovery"@ <==> roots == 0,
{
    reveal_strlit("targeted");
    reveal_strlit("discovery");
    assert("targeted"@.len() != "discovery"@.len());
}

} // verus!
