//! What the interface shows and what the user selects. Only safe findings enter
//! a selection in bulk; what is protected or only reported enters none.

use crate::providers::{ProviderMetadata, ProviderState};
use crate::report::{Finding, FindingModel, SizeAccuracy, human_bytes};
use crate::rules::Safety;
use crate::seqs::{collect_some, group_views, if_stays, keep, paired, view_of, views};
use crate::sizes::human;
use crate::text;
use crate::text::{digits, same};
use vstd::prelude::*;

verus! {

broadcast use group_views;

// ---- what can be selected ----

/// Whether the user can select a finding at all.
pub open spec fn can_select(f: Finding) -> bool {
    !f.report_only && f.safety != Safety::Protected
}

/// Whether the user can select a finding at all: what is protected or only
/// reported never; recent and manual-only findings by hand.
pub fn selectable(f: &Finding) -> (r: bool)
    ensures
        r == can_select(*f),
{
    !f.report_only && f.safety != Safety::Protected
}

/// Whether a finding enters a selection in bulk.
pub open spec fn in_bulk(f: Finding) -> bool {
    can_select(f) && !f.recent && !f.manual_only && f.safety == Safety::Safe
}

/// Whether a finding enters a selection in bulk: it is safe, and neither recent
/// nor manual-only. Review and risky findings are selected one by one.
pub fn auto_selectable(f: &Finding) -> (r: bool)
    ensures
        r == in_bulk(*f),
{
    selectable(f) && !f.recent && !f.manual_only && f.safety == Safety::Safe
}

/// Whether a finding that was streamed is shown: it frees something, or groups
/// files.
pub fn worth_showing(f: &Finding) -> (r: bool)
    ensures
        r == (f.bytes > 0 || f.member_paths@.len() > 0),
{
    f.bytes > 0 || f.member_paths.len() > 0
}

// ---- selecting ----

/// What the user is told after selecting something.
#[derive(Debug, Clone, Copy, PartialEq, Eq, Structural)]
pub enum Notice {
    Nothing,
    NotDeletable,
    ManualOnly,
    Recent,
}

/// What the user is told after a finding was toggled.
pub open spec fn toggle_notice(f: Finding, was_checked: bool) -> Notice {
    if !can_select(f) {
        Notice::NotDeletable
    } else if was_checked {
        Notice::Nothing
    } else if f.manual_only {
        Notice::ManualOnly
    } else if f.recent {
        Notice::Recent
    } else {
        Notice::Nothing
    }
}

impl Notice {
    /// The words of a notice.
    pub fn message(self) -> (r: &'static str)
        ensures
            r@ == match self {
                Notice::Nothing => ""@,
                Notice::NotDeletable => "Not deletable: protected or report-only."@,
                Notice::ManualOnly => "Manual-only: could be source, a database or an SDK. Confirm this path before cleaning."@,
                Notice::Recent => "Selected a recently-used item; make sure you're done with it."@,
            },
    {
        match self {
            Notice::Nothing => "",
            Notice::NotDeletable => "Not deletable: protected or report-only.",
            Notice::ManualOnly => "Manual-only: could be source, a database or an SDK. Confirm this path before cleaning.",
            Notice::Recent => "Selected a recently-used item; make sure you're done with it.",
        }
    }
}

/// Toggles one finding.
pub fn toggle(findings: &[Finding], checked: &mut Vec<bool>, at: usize) -> (r: Notice)
    requires
        findings@.len() == old(checked)@.len(),
        at < findings@.len(),
    ensures
        r == toggle_notice(findings@[at as int], old(checked)@[at as int]),
        final(checked)@ == if can_select(findings@[at as int]) {
            old(checked)@.update(at as int, !old(checked)@[at as int])
        } else {
            old(checked)@
        },
{
    let f = &findings[at];
    if !selectable(f) {
        return Notice::NotDeletable;
    }
    let was = checked[at];
    checked.set(at, !was);
    if was {
        Notice::Nothing
    } else if f.manual_only {
        Notice::ManualOnly
    } else if f.recent {
        Notice::Recent
    } else {
        Notice::Nothing
    }
}

/// Whether all findings of a category that enter a selection in bulk are checked.
pub open spec fn bulk_checked(findings: Seq<Finding>, checked: Seq<bool>, category: Seq<char>) -> bool {
    forall|i: int|
    0 <= i < findings.len() && (#[trigger] findings[i]).category@ == category && in_bulk(
        findings[i],
    ) ==> checked[i]
}

/// A selection once a category was toggled: its bulk is added, or where that is
/// selected already, the whole category is taken out.
pub open spec fn category_toggled(
    findings: Seq<Finding>,
    checked: Seq<bool>,
    category: Seq<char>,
) -> Seq<bool> {
    Seq::new(
        checked.len(),
        |i: int|
        if findings[i].category@ != category {
            checked[i]
        } else if bulk_checked(findings, checked, category) {
            false
        } else {
            checked[i] || in_bulk(findings[i])
        },
    )
}

fn is_bulk_checked(findings: &[Finding], checked: &Vec<bool>, category: &str) -> (r: bool)
    requires
        findings@.len() == checked@.len(),
    ensures
        r == bulk_checked(findings@, checked@, category@),
{
    let n: usize = findings.len();
    let mut i: usize = 0;
    while i < n
        invariant
            i <= n,
            n == findings@.len(),
            n == checked@.len(),
            forall|j: int|
            0 <= j < i && (#[trigger] findings@[j]).category@ == category@ && in_bulk(findings@[j])
                ==> checked@[j],
        decreases n - i,
    {
        if same(findings[i].category.as_str(), category) && auto_selectable(&findings[i]) && !checked[i] {
            return false;
        }
        i += 1;
    }
    true
}

/// Toggles a category.
pub fn toggle_category(findings: &[Finding], checked: &mut Vec<bool>, category: &str)
    requires
        findings@.len() == old(checked)@.len(),
    ensures
        final(checked)@ == category_toggled(findings@, old(checked)@, category@),
{
    let ghost before = checked@;
    let n: usize = findings.len();
    let all = is_bulk_checked(findings, checked, category);
    let mut i: usize = 0;
    while i < n
        invariant
            i <= n,
            n == findings@.len(),
            n == checked@.len(),
            n == before.len(),
            all == bulk_checked(findings@, before, category@),
            forall|j: int|
            0 <= j < i ==> (#[trigger] checked@[j]) == category_toggled(
                findings@,
                before,
                category@,
            )[j],
            forall|j: int| i <= j < n ==> (#[trigger] checked@[j]) == before[j],
        decreases n - i,
    {
        if same(findings[i].category.as_str(), category) {
            if all {
                checked.set(i, false);
            } else if auto_selectable(&findings[i]) {
                checked.set(i, true);
            }
        }
        i += 1;
    }
    assert(checked@ =~= category_toggled(findings@, before, category@));
}

/// The selection of all that enters one in bulk.
pub open spec fn bulk_selection(findings: Seq<Finding>) -> Seq<bool> {
    findings.map_values(|f: Finding| in_bulk(f))
}

/// How many are selected.
pub open spec fn selected_count(checked: Seq<bool>) -> nat
    decreases checked.len(),
{
    if checked.len() == 0 {
        0
    } else {
        selected_count(checked.drop_last()) + if checked.last() {
            1nat
        } else {
            0nat
        }
    }
}

/// Selects all that enters a selection in bulk, and nothing else.
pub fn select_all(findings: &[Finding]) -> (r: Vec<bool>)
    ensures
        r@ == bulk_selection(findings@),
{
    let n: usize = findings.len();
    let mut r: Vec<bool> = Vec::new();
    let mut i: usize = 0;
    while i < n
        invariant
            i <= n,
            n == findings@.len(),
            r@ == bulk_selection(findings@).take(i as int),
        decreases n - i,
    {
        r.push(auto_selectable(&findings[i]));
        assert(r@ =~= bulk_selection(findings@).take(i + 1));
        i += 1;
    }
    assert(r@ =~= bulk_selection(findings@));
    r
}

/// How many are selected.
pub fn count_selected(checked: &Vec<bool>) -> (r: usize)
    ensures
        r == selected_count(checked@),
        r <= checked@.len(),
{
    let mut n: usize = 0;
    let mut i: usize = 0;
    assert(checked@.take(0) =~= Seq::<bool>::empty());
    while i < checked.len()
        invariant
            i <= checked@.len(),
            n <= i,
            n == selected_count(checked@.take(i as int)),
        decreases checked@.len() - i,
    {
        assert(checked@.take(i + 1).drop_last() =~= checked@.take(i as int));
        if checked[i] {
            n += 1;
        }
        i += 1;
    }
    assert(checked@.take(i as int) =~= checked@);
    n
}

/// What the user is told after selecting in bulk.
pub fn bulk_message(count: usize) -> (r: String)
    ensures
        r@ == "Selected "@ + digits(count as nat)
            + " safe items (recent skipped; space picks others by hand)."@,
{
    "Selected ".to_owned().concat(text::decimal(count as u64).as_str()).concat(
        " safe items (recent skipped; space picks others by hand).",
    )
}

/// The bytes of what is selected, as far as they fit in 64 bits.
pub open spec fn selected_bytes(findings: Seq<Finding>, checked: Seq<bool>, n: int) -> u64
    decreases n,
{
    if n <= 0 {
        0
    } else {
        let rest = selected_bytes(findings, checked, n - 1);
        if !checked[n - 1] {
            rest
        } else if rest + findings[n - 1].bytes > u64::MAX {
            u64::MAX
        } else {
            (rest + findings[n - 1].bytes) as u64
        }
    }
}

/// The bytes of what is selected.
pub fn checked_bytes(findings: &[Finding], checked: &Vec<bool>) -> (r: u64)
    requires
        findings@.len() == checked@.len(),
    ensures
        r == selected_bytes(findings@, checked@, checked@.len() as int),
{
    let n: usize = findings.len();
    let mut sum: u64 = 0;
    let mut i: usize = 0;
    while i < n
        invariant
            i <= n,
            n == findings@.len(),
            n == checked@.len(),
            sum == selected_bytes(findings@, checked@, i as int),
        decreases n - i,
    {
        if checked[i] {
            sum = if sum > u64::MAX - findings[i].bytes {
                u64::MAX
            } else {
                sum + findings[i].bytes
            };
        }
        i += 1;
    }
    sum
}

/// Whether a finding is carried out: it is selected, and can be.
pub open spec fn carried_out(findings: Seq<Finding>, checked: Seq<bool>, i: int) -> bool {
    checked[i] && can_select(findings[i])
}

/// The first `n` positions of what is carried out.
pub open spec fn picks(findings: Seq<Finding>, checked: Seq<bool>, n: int) -> Seq<usize>
    decreases n,
{
    if n <= 0 {
        Seq::empty()
    } else {
        let rest = picks(findings, checked, n - 1);
        if carried_out(findings, checked, n - 1) {
            rest.push((n - 1) as usize)
        } else {
            rest
        }
    }
}

/// The positions of what is carried out.
pub fn picked(findings: &[Finding], checked: &Vec<bool>) -> (r: Vec<usize>)
    requires
        findings@.len() == checked@.len(),
    ensures
        r@ == picks(findings@, checked@, findings@.len() as int),
        forall|i: int|
        0 <= i < r@.len() ==> (#[trigger] r@[i]) < findings@.len() && carried_out(
            findings@,
            checked@,
            r@[i] as int,
        ),
{
    let n: usize = findings.len();
    let mut r: Vec<usize> = Vec::new();
    let mut i: usize = 0;
    while i < n
        invariant
            i <= n,
            n == findings@.len(),
            n == checked@.len(),
            r@ == picks(findings@, checked@, i as int),
            forall|j: int|
            0 <= j < r@.len() ==> (#[trigger] r@[j]) < n && carried_out(
                findings@,
                checked@,
                r@[j] as int,
            ),
        decreases n - i,
    {
        if checked[i] && selectable(&findings[i]) {
            r.push(i);
        }
        i += 1;
    }
    r
}

// ---- what stays ----

/// The findings that stay once what was selected was carried out.
pub open spec fn stays_after(findings: Seq<Finding>, checked: Seq<bool>) -> Seq<bool> {
    Seq::new(findings.len(), |i: int| !carried_out(findings, checked, i))
}

/// The findings that stay once what was selected was carried out.
pub fn without_picked(findings: Vec<Finding>, checked: &Vec<bool>) -> (r: Vec<Finding>)
    requires
        findings@.len() == checked@.len(),
    ensures
        r@ == collect_some(paired(findings@, stays_after(findings@, checked@)), if_stays()),
{
    let ghost all = findings@;
    let n: usize = findings.len();
    let mut stays: Vec<bool> = Vec::new();
    let mut i: usize = 0;
    while i < n
        invariant
            i <= n,
            n == findings@.len(),
            n == checked@.len(),
            all == findings@,
            stays@ == stays_after(all, checked@).take(i as int),
        decreases n - i,
    {
        stays.push(!(checked[i] && selectable(&findings[i])));
        assert(stays@ =~= stays_after(all, checked@).take(i + 1));
        i += 1;
    }
    assert(stays@ =~= stays_after(all, checked@));
    keep(findings, &stays)
}

// ---- rules that providers take over ----

/// The rules whose findings a provider takes over: once it has finished.
pub open spec fn taken_over(supersedes: Seq<Seq<char>>, state: ProviderState) -> Seq<Seq<char>> {
    if state == ProviderState::Ready {
        supersedes
    } else {
        Seq::empty()
    }
}

/// The rules whose findings a provider takes over.
pub fn superseded_rules(metadata: &ProviderMetadata, state: ProviderState) -> (r: Vec<String>)
    ensures
        views(r@) == taken_over(metadata@.supersedes_rules, state),
{
    if state == ProviderState::Ready {
        let r = text::owned(metadata.supersedes_rules);
        assert(views(r@) =~= metadata@.supersedes_rules);
        r
    } else {
        let r: Vec<String> = Vec::new();
        assert(views(r@) =~= Seq::<Seq<char>>::empty());
        r
    }
}

/// Whether a finding of a rule stays beside what a provider found.
pub open spec fn not_superseded(f: Finding, rules: Seq<Seq<char>>) -> bool {
    f.provider is Some || !rules.contains(f.rule_id@)
}

/// Which findings stay beside what a provider found.
pub open spec fn stays_beside(findings: Seq<Finding>, rules: Seq<Seq<char>>) -> Seq<bool> {
    findings.map_values(|f: Finding| not_superseded(f, rules))
}

/// The findings that stay beside what a provider found: those of the rules that it
/// supersedes go.
pub fn without_superseded(findings: Vec<Finding>, rules: &Vec<String>) -> (r: Vec<Finding>)
    ensures
        r@ == collect_some(paired(findings@, stays_beside(findings@, views(rules@))), if_stays()),
{
    let ghost all = findings@;
    let n: usize = findings.len();
    let mut stays: Vec<bool> = Vec::new();
    let mut i: usize = 0;
    while i < n
        invariant
            i <= n,
            n == findings@.len(),
            all == findings@,
            stays@ == stays_beside(all, views(rules@)).take(i as int),
        decreases n - i,
    {
        let owned = findings[i].provider.is_some();
        stays.push(owned || !text::among(findings[i].rule_id.as_str(), rules));
        assert(stays@ =~= stays_beside(all, views(rules@)).take(i + 1));
        i += 1;
    }
    assert(stays@ =~= stays_beside(all, views(rules@)));
    keep(findings, &stays)
}

// ---- filters ----

/// Which sizes are shown.
#[derive(Debug, Clone, Copy, PartialEq, Eq, Structural)]
pub enum AccuracyFilter {
    All,
    Exact,
    Estimated,
}

/// What is shown of the findings.
pub struct Filters {
    /// The provider whose findings are shown; those of all where there is none.
    pub provider: Option<String>,
    pub accuracy: AccuracyFilter,
    pub show_recent: bool,
}

/// Whether a finding is shown.
pub open spec fn passes(f: Finding, x: Filters) -> bool {
    &&& match x.provider {
        Some(id) => f.provider matches Some(p) && p.id@ == id@,
        None => true,
    }
    &&& match x.accuracy {
        AccuracyFilter::All => true,
        AccuracyFilter::Exact => f.size.accuracy == SizeAccuracy::Exact,
        AccuracyFilter::Estimated => f.size.accuracy != SizeAccuracy::Exact,
    }
    &&& f.recent ==> x.show_recent
}

/// Whether a finding is shown.
pub fn visible(f: &Finding, x: &Filters) -> (r: bool)
    ensures
        r == passes(*f, *x),
{
    let from = match (&x.provider, &f.provider) {
        (Some(id), Some(p)) => same(p.id.as_str(), id.as_str()),
        (Some(_), None) => false,
        (None, _) => true,
    };
    let sized = match x.accuracy {
        AccuracyFilter::All => true,
        AccuracyFilter::Exact => f.size.accuracy == SizeAccuracy::Exact,
        AccuracyFilter::Estimated => f.size.accuracy != SizeAccuracy::Exact,
    };
    from && sized && (!f.recent || x.show_recent)
}

impl AccuracyFilter {
    /// The filter that comes next.
    pub fn next(self) -> (r: Self)
        ensures
            r == match self {
                AccuracyFilter::All => AccuracyFilter::Exact,
                AccuracyFilter::Exact => AccuracyFilter::Estimated,
                AccuracyFilter::Estimated => AccuracyFilter::All,
            },
    {
        match self {
            AccuracyFilter::All => AccuracyFilter::Exact,
            AccuracyFilter::Exact => AccuracyFilter::Estimated,
            AccuracyFilter::Estimated => AccuracyFilter::All,
        }
    }
}

// ---- marks ----

/// The mark of a category, of whose findings some are selected.
pub fn category_mark(selected: usize, total: usize) -> (r: &'static str)
    ensures
        r@ == if selected == 0 {
            "  "@
        } else if selected == total {
            "[x]"@
        } else {
            "[~]"@
        },
{
    if selected == 0 {
        "  "
    } else if selected == total {
        "[x]"
    } else {
        "[~]"
    }
}

/// The mark of a finding.
pub fn finding_mark(f: &Finding, checked: bool) -> (r: &'static str)
    ensures
        r@ == if checked {
            "[x] "@
        } else if !can_select(*f) {
            "[-] "@
        } else {
            "[ ] "@
        },
{
    if checked {
        "[x] "
    } else if !selectable(f) {
        "[-] "
    } else {
        "[ ] "
    }
}

/// The short name of a safety.
pub fn safety_mark(s: Safety) -> (r: &'static str)
    ensures
        r@ == match s {
            Safety::Safe => "safe "@,
            Safety::Review => "rev  "@,
            Safety::Risky => "risk "@,
            Safety::Protected => "prot "@,
        },
{
    match s {
        Safety::Safe => "safe ",
        Safety::Review => "rev  ",
        Safety::Risky => "risk ",
        Safety::Protected => "prot ",
    }
}

/// What is noted behind the path of a finding.
pub open spec fn notes_of(f: FindingModel) -> Seq<char> {
    (if f.recent {
            " ·recent"@
        } else {
            ""@
    }) + (if f.manual_only {
            " ·manual"@
        } else {
            ""@
    }) + (if f.report_only {
            " ·report-only"@
        } else {
            ""@
    }) + (if f.files > 1 {
            " ·"@ + digits(f.files as nat) + " files"@
        } else {
            ""@
    })
}

/// What is noted behind the path of a finding.
pub fn finding_notes(f: &Finding) -> (r: String)
    ensures
        r@ == notes_of(f@),
{
    let recent: &str = if f.recent {
        " ·recent"
    } else {
        ""
    };
    let manual: &str = if f.manual_only {
        " ·manual"
    } else {
        ""
    };
    let report_only: &str = if f.report_only {
        " ·report-only"
    } else {
        ""
    };
    let files = if f.files > 1 {
        " ·".to_owned().concat(text::decimal(f.files).as_str()).concat(" files")
    } else {
        "".to_owned()
    };
    recent.to_owned().concat(manual).concat(report_only).concat(files.as_str())
}

// ---- names in the tree ----

/// The name of a finding in the tree.
pub open spec fn finding_node(at: nat) -> Seq<char> {
    "#"@ + digits(at)
}

/// The name of a finding in the tree.
pub fn finding_id(at: usize) -> (r: String)
    ensures
        r@ == finding_node(at as nat),
{
    "#".to_owned().concat(text::decimal(at as u64).as_str())
}

/// The finding that a name in the tree stands for.
pub open spec fn node_finding(id: Seq<char>) -> Option<u64> {
    match text::without_prefix(id, "#"@) {
        Some(n) => text::unsigned(n),
        None => None,
    }
}

/// The finding that a name in the tree stands for.
pub fn selected_finding(id: &str) -> (r: Option<u64>)
    ensures
        r == node_finding(id@),
{
    match text::strip_prefix(id, "#") {
        Some(n) => text::parse_u64(n.as_str()),
        None => None,
    }
}

/// The name of a category in the tree.
pub fn category_id(category: &str) -> (r: String)
    ensures
        r@ == "cat:"@ + category@,
{
    "cat:".to_owned().concat(category)
}

/// The category that a name in the tree stands for.
pub fn selected_category(id: &str) -> (r: Option<String>)
    ensures
        view_of(r) == text::without_prefix(id@, "cat:"@),
{
    text::strip_prefix(id, "cat:")
}

// ---- keys ----

/// A key, as far as it matters.
#[derive(Debug, Clone, Copy, PartialEq, Eq, Structural)]
pub enum Key {
    Char(char),
    Enter,
    Esc,
    Up,
    Down,
    Left,
    Right,
    Other,
}

/// What lies over the tree.
#[derive(Debug, Clone, Copy, PartialEq, Eq, Structural)]
pub enum Overlay {
    Nothing,
    /// The question whether to carry out what is selected.
    Confirm,
    /// Something to read.
    Message,
}

/// What a key asks for.
#[derive(Debug, Clone, Copy, PartialEq, Eq, Structural)]
pub enum Intent {
    Nothing,
    Quit,
    Help,
    Down,
    Up,
    Left,
    Right,
    Fold,
    Toggle,
    SelectAll,
    ClearSelection,
    SwitchPermanent,
    AskToClean,
    /// There is nothing selected to clean.
    NothingChecked,
    Execute,
    Dismiss,
    SwitchProfile,
    LowerAge,
    RaiseAge,
    CycleMinSize,
    CycleProvider,
    CycleAccuracy,
    SwitchRecent,
    ShowProviders,
}

/// What a key asks for. What is selected is carried out after `y` or Enter, and
/// after Shift+Y alone where it takes a stronger confirmation.
pub open spec fn intent_of(over: Overlay, key: Key, control: bool, selected: usize, strong: bool) -> Intent {
    match over {
        Overlay::Confirm => if key == Key::Char('Y') || (!strong && (key == Key::Char('y') || key
                    == Key::Enter)) {
            Intent::Execute
        } else {
            Intent::Dismiss
        },
        Overlay::Message => Intent::Dismiss,
        Overlay::Nothing => match key {
            Key::Esc => Intent::Quit,
            Key::Enter => Intent::Fold,
            Key::Up => Intent::Up,
            Key::Down => Intent::Down,
            Key::Left => Intent::Left,
            Key::Right => Intent::Right,
            Key::Other => Intent::Nothing,
            Key::Char(c) => char_intent(c, control, selected),
        },
    }
}

/// What a letter asks for.
pub open spec fn char_intent(c: char, control: bool, selected: usize) -> Intent {
    if c == 'q' {
        Intent::Quit
    } else if c == 'c' && control {
        Intent::Quit
    } else if c == '?' {
        Intent::Help
    } else if c == 'j' {
        Intent::Down
    } else if c == 'k' {
        Intent::Up
    } else if c == 'h' {
        Intent::Left
    } else if c == 'l' {
        Intent::Right
    } else if c == ' ' {
        Intent::Toggle
    } else if c == 'a' {
        Intent::SelectAll
    } else if c == 'n' {
        Intent::ClearSelection
    } else if c == 'p' {
        Intent::SwitchPermanent
    } else if c == 'd' {
        if selected == 0 {
            Intent::NothingChecked
        } else {
            Intent::AskToClean
        }
    } else if c == 'm' {
        Intent::SwitchProfile
    } else if c == '[' {
        Intent::LowerAge
    } else if c == ']' {
        Intent::RaiseAge
    } else if c == 'z' {
        Intent::CycleMinSize
    } else if c == 'v' {
        Intent::CycleProvider
    } else if c == 'e' {
        Intent::CycleAccuracy
    } else if c == 'u' {
        Intent::SwitchRecent
    } else if c == 'o' {
        Intent::ShowProviders
    } else {
        Intent::Nothing
    }
}

fn letter(c: char, control: bool, selected: usize) -> (r: Intent)
    ensures
        r == char_intent(c, control, selected),
{
    if c == 'q' {
        Intent::Quit
    } else if c == 'c' && control {
        Intent::Quit
    } else if c == '?' {
        Intent::Help
    } else if c == 'j' {
        Intent::Down
    } else if c == 'k' {
        Intent::Up
    } else if c == 'h' {
        Intent::Left
    } else if c == 'l' {
        Intent::Right
    } else if c == ' ' {
        Intent::Toggle
    } else if c == 'a' {
        Intent::SelectAll
    } else if c == 'n' {
        Intent::ClearSelection
    } else if c == 'p' {
        Intent::SwitchPermanent
    } else if c == 'd' {
        if selected == 0 {
            Intent::NothingChecked
        } else {
            Intent::AskToClean
        }
    } else if c == 'm' {
        Intent::SwitchProfile
    } else if c == '[' {
        Intent::LowerAge
    } else if c == ']' {
        Intent::RaiseAge
    } else if c == 'z' {
        Intent::CycleMinSize
    } else if c == 'v' {
        Intent::CycleProvider
    } else if c == 'e' {
        Intent::CycleAccuracy
    } else if c == 'u' {
        Intent::SwitchRecent
    } else if c == 'o' {
        Intent::ShowProviders
    } else {
        Intent::Nothing
    }
}

/// What a key asks for.
pub fn on_key(over: Overlay, key: Key, control: bool, selected: usize, strong: bool) -> (r: Intent)
    ensures
        r == intent_of(over, key, control, selected, strong),
{
    match over {
        Overlay::Confirm => if key == Key::Char('Y') || (!strong && (key == Key::Char('y') || key
                    == Key::Enter)) {
            Intent::Execute
        } else {
            Intent::Dismiss
        },
        Overlay::Message => Intent::Dismiss,
        Overlay::Nothing => match key {
            Key::Esc => Intent::Quit,
            Key::Enter => Intent::Fold,
            Key::Up => Intent::Up,
            Key::Down => Intent::Down,
            Key::Left => Intent::Left,
            Key::Right => Intent::Right,
            Key::Other => Intent::Nothing,
            Key::Char(c) => letter(c, control, selected),
        },
    }
}

/// Whether what is carried out takes a stronger confirmation: it is permanent, or
/// a provider acts.
pub open spec fn takes_more(findings: Seq<Finding>, checked: Seq<bool>, permanently: bool) -> bool {
    permanently || exists|i: int|
    0 <= i < findings.len() && carried_out(findings, checked, i) && (
        #[trigger] findings[i]).native_action is Some
}

/// Whether what is carried out takes a stronger confirmation.
pub fn needs_strong(findings: &[Finding], checked: &Vec<bool>, permanently: bool) -> (r: bool)
    requires
        findings@.len() == checked@.len(),
    ensures
        r == takes_more(findings@, checked@, permanently),
{
    if permanently {
        return true;
    }
    let n: usize = findings.len();
    let mut i: usize = 0;
    while i < n
        invariant
            i <= n,
            n == findings@.len(),
            n == checked@.len(),
            forall|j: int|
            0 <= j < i ==> !carried_out(findings@, checked@, j) || (
                #[trigger] findings@[j]).native_action is None,
        decreases n - i,
    {
        if checked[i] && selectable(&findings[i]) && findings[i].native_action.is_some() {
            assert(carried_out(findings@, checked@, i as int) && findings@[i as int].native_action is Some);
            return true;
        }
        i += 1;
    }
    false
}

// ---- settings ----

/// The ages from which providers report, in days.
pub open spec fn age_steps() -> Seq<u64> {
    seq![0, 7, 14, 30, 60, 90, 180, 365]
}

fn age_step_list() -> (r: Vec<u64>)
    ensures
        r@ == age_steps(),
{
    let r: Vec<u64> = vec![0, 7, 14, 30, 60, 90, 180, 365];
    assert(r@ =~= age_steps());
    r
}

/// The next higher age; the same where there is none.
pub fn raise_age(days: u64) -> (r: u64)
    ensures
        r >= days,
        days < 365 ==> r > days && age_steps().contains(r) && forall|i: int|
        0 <= i < age_steps().len() ==> (#[trigger] age_steps()[i]) <= days || age_steps()[i] >= r,
        days >= 365 ==> r == days,
{
    let steps = age_step_list();
    let mut i: usize = 0;
    while i < steps.len()
        invariant
            i <= steps@.len(),
            steps@ == age_steps(),
            forall|j: int| 0 <= j < i ==> (#[trigger] age_steps()[j]) <= days,
        decreases steps@.len() - i,
    {
        if steps[i] > days {
            assert(age_steps()[i as int] == steps@[i as int]);
            return steps[i];
        }
        i += 1;
    }
    assert(age_steps()[7] <= days);
    days
}

/// The next lower age; the same where there is none.
pub fn lower_age(days: u64) -> (r: u64)
    ensures
        r <= days,
        days > 0 ==> r < days && age_steps().contains(r) && forall|i: int|
        0 <= i < age_steps().len() ==> (#[trigger] age_steps()[i]) >= days || age_steps()[i] <= r,
        days == 0 ==> r == 0,
{
    let steps = age_step_list();
    let mut i: usize = steps.len();
    while i > 0
        invariant
            i <= steps@.len(),
            steps@ == age_steps(),
            forall|j: int| i <= j < age_steps().len() ==> (#[trigger] age_steps()[j]) >= days,
        decreases i,
    {
        i -= 1;
        if steps[i] < days {
            assert(age_steps()[i as int] == steps@[i as int]);
            return steps[i];
        }
    }
    assert(age_steps()[0] >= days);
    days
}

/// The next smallest size that providers report: none, 1 MiB, 10 MiB, 100 MiB,
/// 1 GiB, and none again.
pub fn next_min_size(bytes: u64) -> (r: u64)
    ensures
        r == if bytes < 0x10_0000 {
            0x10_0000u64
        } else if bytes < 0xA0_0000 {
            0xA0_0000u64
        } else if bytes < 0x640_0000 {
            0x640_0000u64
        } else if bytes < 0x4000_0000 {
            0x4000_0000u64
        } else {
            0u64
        },
{
    if bytes < 0x10_0000 {
        0x10_0000
    } else if bytes < 0xA0_0000 {
        0xA0_0000
    } else if bytes < 0x640_0000 {
        0x640_0000
    } else if bytes < 0x4000_0000 {
        0x4000_0000
    } else {
        0
    }
}

// ---- messages ----

/// The question whether to carry out what is selected.
pub fn confirm_message(permanently: bool, bytes: u64, items: usize, strong: bool) -> (r: String)
    ensures
        r@ == (if permanently {
                "PERMANENTLY DELETE"@
            } else {
                "move to Trash"@
        }) + " "@ + human(bytes as nat) + " across "@ + digits(items as nat) + " items?"@ + (if strong {
                "\n\n[Shift+Y] confirm     [any other key] cancel"@
            } else {
                "\n\n[y / Enter] confirm     [any other key] cancel"@
        }),
{
    let mode: &str = if permanently {
        "PERMANENTLY DELETE"
    } else {
        "move to Trash"
    };
    let keys: &str = if strong {
        "\n\n[Shift+Y] confirm     [any other key] cancel"
    } else {
        "\n\n[y / Enter] confirm     [any other key] cancel"
    };
    mode.to_owned().concat(" ").concat(human_bytes(bytes).as_str()).concat(" across ").concat(
        text::decimal(items as u64).as_str(),
    ).concat(" items?").concat(keys)
}

/// What the user is told once what was selected was carried out.
pub fn result_message(freed: u64, deleted: u64, failed: u64, first_error: Option<&str>) -> (r: String)
    ensures
        r@ == "Freed "@ + human(freed as nat) + " — "@ + digits(deleted as nat) + " deleted, "@ + digits(
            failed as nat,
        ) + " failed."@ + (match first_error {
                Some(e) => "\nFirst error: "@ + e@,
                None => ""@,
        }),
{
    let tail = match first_error {
        Some(e) => "\nFirst error: ".to_owned().concat(e),
        None => "".to_owned(),
    };
    "Freed ".to_owned().concat(human_bytes(freed).as_str()).concat(" — ").concat(
        text::decimal(deleted).as_str(),
    ).concat(" deleted, ").concat(text::decimal(failed).as_str()).concat(" failed.").concat(
        tail.as_str(),
    )
}

// ---- laws ----

/// Nothing that is protected or only reported can be selected by toggling it.
pub proof fn law_protected_stays_unselected(f: Finding, checked: Seq<bool>, at: int)
    requires
        f.report_only || f.safety == Safety::Protected,
    ensures
        !can_select(f),
        !in_bulk(f),
        toggle_notice(f, checked[at]) == Notice::NotDeletable,
{
}

/// Recent and manual-only findings never enter a selection in bulk, nor do those
/// that need a look.
pub proof fn law_bulk_is_safe(findings: Seq<Finding>, i: int)
    requires
        0 <= i < findings.len(),
        bulk_selection(findings)[i],
    ensures
        findings[i].safety == Safety::Safe,
        !findings[i].recent,
        !findings[i].manual_only,
        !findings[i].report_only,
{
}

/// Toggling a category selects nothing that does not enter a selection in bulk.
pub proof fn law_categories_select_in_bulk(
    findings: Seq<Finding>,
    checked: Seq<bool>,
    category: Seq<char>,
    i: int,
)
    requires
        findings.len() == checked.len(),
        0 <= i < findings.len(),
        !checked[i],
        category_toggled(findings, checked, category)[i],
    ensures
        in_bulk(findings[i]),
{
}

/// Toggling a finding twice leaves the selection as it was.
pub proof fn law_toggling_twice(checked: Seq<bool>, at: int)
    requires
        0 <= at < checked.len(),
    ensures
        checked.update(at, !checked[at]).update(at, checked[at]) == checked,
{
    assert(checked.update(at, !checked[at]).update(at, checked[at]) =~= checked);
}

/// What is carried out was selected, and is neither protected nor only reported.
pub proof fn law_only_selected_is_carried_out(findings: Seq<Finding>, checked: Seq<bool>, i: int)
    requires
        carried_out(findings, checked, i),
    ensures
        checked[i],
        !findings[i].report_only,
        findings[i].safety != Safety::Protected,
{
}

/// What a provider acts on is carried out after Shift+Y only.
pub proof fn law_native_actions_take_more(
    findings: Seq<Finding>,
    checked: Seq<bool>,
    permanently: bool,
    i: int,
    key: Key,
    control: bool,
    selected: usize,
)
    requires
        0 <= i < findings.len(),
        carried_out(findings, checked, i),
        findings[i].native_action is Some,
        intent_of(
            Overlay::Confirm,
            key,
            control,
            selected,
            takes_more(findings, checked, permanently),
        ) == Intent::Execute,
    ensures
        key == Key::Char('Y'),
{
}

/// The name of a finding in the tree leads back to it, and names no category.
pub proof fn law_tree_names(at: u64)
    ensures
        node_finding(finding_node(at as nat)) == Some(at),
        text::without_prefix(finding_node(at as nat), "cat:"@) is None,
{
    let id = finding_node(at as nat);
    let d = digits(at as nat);
    reveal_strlit("#");
    reveal_strlit("cat:");
    assert("#"@.len() == 1 && "#"@[0] == '#');
    assert("cat:"@.len() == 4 && "cat:"@[0] == 'c');
    assert(id[0] == '#');
    assert(id.subrange(0, 1) =~= "#"@);
    assert(id.skip(1) =~= d);
    text::law_written_numbers_read(at);
    if id.len() >= 4 {
        assert(id.subrange(0, 4)[0] == '#');
    }
}

/// What a provider found itself is never taken away for a rule that it
/// supersedes, and nothing is before it has finished.
pub proof fn law_supersession(f: Finding, supersedes: Seq<Seq<char>>, state: ProviderState)
    ensures
        f.provider is Some ==> not_superseded(f, taken_over(supersedes, state)),
        state != ProviderState::Ready ==> not_superseded(f, taken_over(supersedes, state)),
        f.provider is None && state == ProviderState::Ready && supersedes.contains(f.rule_id@)
            ==> !not_superseded(f, taken_over(supersedes, state)),
{
}

/// Everything can be selected by hand but what is only reported and what is
/// protected.
pub proof fn law_selectable_by_hand(f: Finding, checked: bool)
    ensures
        can_select(f) <==> !f.report_only && (f.safety == Safety::Safe || f.safety == Safety::Review
            || f.safety == Safety::Risky),
        toggle_notice(f, checked) == Notice::NotDeletable <==> f.report_only || f.safety == Safety::Protected,
        !f.report_only && f.safety != Safety::Protected && !checked && f.manual_only ==> toggle_notice(
            f,
            checked,
        ) == Notice::ManualOnly,
        !f.report_only && f.safety != Safety::Protected && !checked && !f.manual_only && f.recent
            ==> toggle_notice(f, checked) == Notice::Recent,
        !f.report_only && f.safety != Safety::Protected && (checked || (!f.manual_only && !f.recent))
            ==> toggle_notice(f, checked) == Notice::Nothing,
{
}

/// All that is safe, not recent, not for the user's own hand and not only reported is
/// selected in bulk, and nothing else.
pub proof fn law_bulk_takes_all_that_is_safe(findings: Seq<Finding>, i: int)
    requires
        0 <= i < findings.len(),
    ensures
        bulk_selection(findings).len() == findings.len(),
        bulk_selection(findings)[i] <==> findings[i].safety == Safety::Safe && !findings[i].recent
            && !findings[i].manual_only && !findings[i].report_only,
{
}

/// Toggling a category leaves the others as they are. Where all that is selected in
/// bulk was selected, nothing of the category is afterwards; otherwise all of it is,
/// and what was selected stays so.
pub proof fn law_categories_toggle_as_a_whole(
    findings: Seq<Finding>,
    checked: Seq<bool>,
    category: Seq<char>,
    i: int,
)
    requires
        findings.len() == checked.len(),
        0 <= i < findings.len(),
    ensures
        ({
            let after = category_toggled(findings, checked, category);
            let all = forall|j: int|
            0 <= j < findings.len() && (#[trigger] findings[j]).category@ == category && findings[j].safety
                == Safety::Safe && !findings[j].recent && !findings[j].manual_only && !findings[j].report_only
                ==> checked[j];
            &&& findings[i].category@ != category ==> after[i] == checked[i]
            &&& findings[i].category@ == category && all ==> !after[i]
            &&& findings[i].category@ == category && !all && checked[i] ==> after[i]
            &&& findings[i].category@ == category && !all && findings[i].safety == Safety::Safe
                && !findings[i].recent && !findings[i].manual_only && !findings[i].report_only ==> after[i]
        }),
{
    let all = forall|j: int|
    0 <= j < findings.len() && (#[trigger] findings[j]).category@ == category && findings[j].safety
        == Safety::Safe && !findings[j].recent && !findings[j].manual_only && !findings[j].report_only
        ==> checked[j];
    assert(all == bulk_checked(findings, checked, category));
}

/// What is carried out is what is selected and may be acted on, in order and each
/// once.
pub proof fn law_selected_findings_are_picked(findings: Seq<Finding>, checked: Seq<bool>, n: int)
    requires
        0 <= n <= findings.len() <= usize::MAX,
        findings.len() == checked.len(),
    ensures
        forall|k: usize|
        #[trigger] picks(findings, checked, n).contains(k) <==> k < n && checked[k as int]
            && !findings[k as int].report_only && findings[k as int].safety != Safety::Protected,
        forall|i: int, j: int|
        #![trigger picks(findings, checked, n)[i], picks(findings, checked, n)[j]]
        0 <= i < j < picks(findings, checked, n).len() ==> picks(findings, checked, n)[i] < picks(
            findings,
            checked,
            n,
        )[j],
    decreases n,
{
    if n > 0 {
        law_selected_findings_are_picked(findings, checked, n - 1);
        let less = picks(findings, checked, n - 1);
        let all = picks(findings, checked, n);
        assert forall|k: usize| #[trigger] all.contains(k) <==> k < n && checked[k as int]
            && !findings[k as int].report_only && findings[k as int].safety != Safety::Protected by {
            if carried_out(findings, checked, n - 1) {
                assert(all == less.push((n - 1) as usize));
                if all.contains(k) {
                    let i = choose|i: int| 0 <= i < all.len() && all[i] == k;
                    if i < less.len() {
                        assert(less[i] == k);
                        assert(less.contains(k));
                    }
                }
                if less.contains(k) {
                    let i = choose|i: int| 0 <= i < less.len() && less[i] == k;
                    assert(all[i] == k);
                }
                assert(all[less.len() as int] == (n - 1) as usize);
            } else {
                assert(all == less);
            }
            assert(less.contains(k) <==> k < n - 1 && checked[k as int] && !findings[k as int].report_only
                && findings[k as int].safety != Safety::Protected);
        }
        assert forall|i: int, j: int|
        #![trigger all[i], all[j]]
        0 <= i < j < all.len() implies all[i] < all[j] by {
            assert(all[i] == less[i]);
            assert(less.contains(less[i]));
            if j < less.len() {
                assert(all[j] == less[j]);
            }
        }
    }
}

/// What was not carried out stays.
pub proof fn law_the_rest_stays(findings: Seq<Finding>, checked: Seq<bool>, i: int)
    requires
        findings.len() == checked.len(),
        0 <= i < findings.len(),
        !checked[i] || findings[i].report_only || findings[i].safety == Safety::Protected,
    ensures
        collect_some(paired(findings, stays_after(findings, checked)), if_stays()).contains(findings[i]),
{
    crate::seqs::law_marked_items_stay(findings, stays_after(findings, checked), findings[i]);
    assert(stays_after(findings, checked)[i]);
}

/// What is left was there before and was not carried out.
pub proof fn law_what_is_left_was_not_picked(findings: Seq<Finding>, checked: Seq<bool>, f: Finding)
    requires
        findings.len() == checked.len(),
        collect_some(paired(findings, stays_after(findings, checked)), if_stays()).contains(f),
    ensures
        exists|i: int|
        0 <= i < findings.len() && #[trigger] findings[i] == f && (!checked[i] || f.report_only || f.safety
            == Safety::Protected),
{
    crate::seqs::law_marked_items_stay(findings, stays_after(findings, checked), f);
    let i = choose|i: int|
    0 <= i < findings.len() && #[trigger] findings[i] == f && stays_after(findings, checked)[i];
    assert(!carried_out(findings, checked, i));
}

/// The bytes that are selected grow with each finding that is, by its own bytes, and
/// with no other.
pub proof fn law_selected_bytes_add_up(findings: Seq<Finding>, checked: Seq<bool>, n: int)
    requires
        0 < n <= findings.len(),
    ensures
        selected_bytes(findings, checked, 0) == 0,
        !checked[n - 1] ==> selected_bytes(findings, checked, n) == selected_bytes(findings, checked, n - 1),
        checked[n - 1] && selected_bytes(findings, checked, n - 1) + findings[n - 1].bytes <= u64::MAX
            ==> selected_bytes(findings, checked, n) == selected_bytes(findings, checked, n - 1)
            + findings[n - 1].bytes,
        selected_bytes(findings, checked, n) >= selected_bytes(findings, checked, n - 1),
{
}

/// Each mark is counted, and nothing else.
pub proof fn law_marks_are_counted(checked: Seq<bool>, b: bool)
    ensures
        selected_count(Seq::empty()) == 0,
        selected_count(checked.push(b)) == selected_count(checked) + if b {
            1int
        } else {
            0
        },
{
    assert(checked.push(b).drop_last() =~= checked);
}

/// A finding is shown exactly where it is of the provider that was asked for, as
/// exact as was asked for, and not recent unless recent ones are shown.
pub proof fn law_filters_show_what_was_asked_for(f: Finding, x: Filters)
    ensures
        passes(f, x) <==> {
            &&& x.provider is Some ==> f.provider is Some && f.provider->0.id@ == x.provider->0@
            &&& x.accuracy == AccuracyFilter::Exact ==> f.size.accuracy == SizeAccuracy::Exact
            &&& x.accuracy == AccuracyFilter::Estimated ==> f.size.accuracy != SizeAccuracy::Exact
            &&& !x.show_recent ==> !f.recent
        },
{
}

/// Nothing is carried out without a question that was answered with yes; a strong
/// question takes a capital one.
pub proof fn law_questions_are_answered(over: Overlay, key: Key, control: bool, selected: usize, strong: bool)
    ensures
        intent_of(over, key, control, selected, strong) == Intent::Execute <==> over == Overlay::Confirm && (
        key == Key::Char('Y') || (!strong && (key == Key::Char('y') || key == Key::Enter))),
        over != Overlay::Nothing ==> intent_of(over, key, control, selected, strong) == Intent::Execute
            || intent_of(over, key, control, selected, strong) == Intent::Dismiss,
        intent_of(over, key, control, selected, strong) == Intent::AskToClean <==> over == Overlay::Nothing
            && key == Key::Char('d') && selected > 0,
        intent_of(over, key, control, selected, strong) == Intent::NothingChecked <==> over
            == Overlay::Nothing && key == Key::Char('d') && selected == 0,
        intent_of(over, key, control, selected, strong) == Intent::Quit <==> over == Overlay::Nothing && (key
            == Key::Esc || key == Key::Char('q') || (key == Key::Char('c') && control)),
        intent_of(over, key, control, selected, strong) == Intent::Toggle <==> over == Overlay::Nothing
            && key == Key::Char(' '),
        intent_of(over, key, control, selected, strong) == Intent::SelectAll <==> over == Overlay::Nothing
            && key == Key::Char('a'),
        intent_of(over, key, control, selected, strong) == Intent::ClearSelection <==> over
            == Overlay::Nothing && key == Key::Char('n'),
        intent_of(over, key, control, selected, strong) == Intent::SwitchPermanent <==> over
            == Overlay::Nothing && key == Key::Char('p'),
        intent_of(over, key, control, selected, strong) == Intent::Down <==> over == Overlay::Nothing && (key
            == Key::Down || key == Key::Char('j')),
        intent_of(over, key, control, selected, strong) == Intent::Up <==> over == Overlay::Nothing && (key
            == Key::Up || key == Key::Char('k')),
        intent_of(over, key, control, selected, strong) == Intent::Left <==> over == Overlay::Nothing && (key
            == Key::Left || key == Key::Char('h')),
        intent_of(over, key, control, selected, strong) == Intent::Right <==> over == Overlay::Nothing && (
        key == Key::Right || key == Key::Char('l')),
        intent_of(over, key, control, selected, strong) == Intent::Fold <==> over == Overlay::Nothing && key
            == Key::Enter,
{
}

/// The other keys change what is scanned for and shown.
pub proof fn law_keys_change_what_is_shown(over: Overlay, key: Key, control: bool, selected: usize, strong: bool)
    ensures
        intent_of(over, key, control, selected, strong) == Intent::Help <==> over == Overlay::Nothing && key
            == Key::Char('?'),
        intent_of(over, key, control, selected, strong) == Intent::SwitchProfile <==> over
            == Overlay::Nothing && key == Key::Char('m'),
        intent_of(over, key, control, selected, strong) == Intent::LowerAge <==> over == Overlay::Nothing
            && key == Key::Char('['),
        intent_of(over, key, control, selected, strong) == Intent::RaiseAge <==> over == Overlay::Nothing
            && key == Key::Char(']'),
        intent_of(over, key, control, selected, strong) == Intent::CycleMinSize <==> over
            == Overlay::Nothing && key == Key::Char('z'),
        intent_of(over, key, control, selected, strong) == Intent::CycleProvider <==> over
            == Overlay::Nothing && key == Key::Char('v'),
        intent_of(over, key, control, selected, strong) == Intent::CycleAccuracy <==> over
            == Overlay::Nothing && key == Key::Char('e'),
        intent_of(over, key, control, selected, strong) == Intent::SwitchRecent <==> over
            == Overlay::Nothing && key == Key::Char('u'),
        intent_of(over, key, control, selected, strong) == Intent::ShowProviders <==> over
            == Overlay::Nothing && key == Key::Char('o'),
{
}

/// A strong question is asked exactly where something is deleted for good or a
/// provider acts on something that is selected.
pub proof fn law_strong_questions(findings: Seq<Finding>, checked: Seq<bool>, permanently: bool)
    ensures
        permanently ==> takes_more(findings, checked, permanently),
        (forall|i: int| 0 <= i < findings.len() ==> (#[trigger] findings[i]).native_action is None)
            && !permanently ==> !takes_more(findings, checked, permanently),
        forall|i: int|
        0 <= i < findings.len() && checked[i] && !(#[trigger] findings[i]).report_only && findings[i].safety
            != Safety::Protected && findings[i].native_action is Some ==> takes_more(
            findings,
            checked,
            permanently,
        ),
{
    assert forall|i: int|
    0 <= i < findings.len() && checked[i] && !(#[trigger] findings[i]).report_only && findings[i].safety
        != Safety::Protected && findings[i].native_action is Some implies takes_more(
        findings,
        checked,
        permanently,
    ) by {
        assert(carried_out(findings, checked, i));
    }
}

/// A provider takes a rule's findings over exactly where it is ready and says so; a
/// finding of a provider is never taken over.
pub proof fn law_superseded_findings_go(
    findings: Seq<Finding>,
    supersedes: Seq<Seq<char>>,
    state: ProviderState,
    i: int,
)
    requires
        0 <= i < findings.len(),
    ensures
        stays_beside(findings, taken_over(supersedes, state))[i] <==> findings[i].provider is Some || state
            != ProviderState::Ready || !supersedes.contains(findings[i].rule_id@),
{
    if state != ProviderState::Ready {
        assert(!taken_over(supersedes, state).contains(findings[i].rule_id@));
    }
}

/// The ages to choose from begin with none, grow, and end with a year.
pub proof fn law_ages_grow_to_a_year(i: int, j: int)
    requires
        0 <= i < j < age_steps().len(),
    ensures
        age_steps()[i] < age_steps()[j],
        age_steps()[0] == 0,
        age_steps().last() == 365,
        age_steps().contains(7) && age_steps().contains(14) && age_steps().contains(30) && age_steps().contains(
            60,
        ) && age_steps().contains(90) && age_steps().contains(180),
        age_steps().len() == 8,
{
    assert(age_steps()[1] == 7 && age_steps()[2] == 14 && age_steps()[3] == 30 && age_steps()[4] == 60
        && age_steps()[5] == 90 && age_steps()[6] == 180);
}

} // verus!
