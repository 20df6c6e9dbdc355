//! Carrying out a plan, one step at a time. The run says what is to be done next
//! (look at a path, delete it, ask a provider, write to the journal), and goes on
//! from what came of it: a path is deleted only after it passed the validation
//! funnel, a native action runs only after its provider looked again, and every
//! attempt is recorded.

use crate::action::{
    ExecSummary, JournalEntry, JournalModel, PathKind, SummaryModel, accounted, actionable,
    all_attempted, deletion_targets, error_texts, journal_entry, journal_of, mode_name,
    mode_of, nothing_done, refusal_text, refused, sensitive, settle, targets, validate_for_deletion,
    withheld,
};
use crate::compiler::Engine;
use crate::providers::{Revalidation, RevalidationModel, obstacle_of};
use crate::report::{Finding, FindingModel};
use crate::rules::Safety;
use crate::seqs::{group_views, view_of, views};
use crate::text;
use vstd::prelude::*;

verus! {

broadcast use group_views;

/// What is carried out, and how.
pub struct Orders<'a> {
    pub items: &'a Vec<&'a Finding>,
    pub engine: &'a Engine,
    pub home: &'a str,
    pub permanently: bool,
}

#[verifier::ext_equal]
pub struct OrdersModel {
    pub items: Seq<FindingModel>,
    pub engine: Engine,
    pub home: Seq<char>,
    pub permanently: bool,
}

impl<'a> View for Orders<'a> {
    type V = OrdersModel;

    open spec fn view(&self) -> OrdersModel {
        OrdersModel {
            items: views(self.items@),
            engine: *self.engine,
            home: self.home@,
            permanently: self.permanently,
        }
    }
}

/// What is to be done next.
pub enum Step {
    /// Look what stands at a path.
    Inspect(String),
    /// Delete what stands at a path, or move it to the Trash.
    Delete(String, bool),
    /// Look whether the path is gone.
    Confirm(String),
    /// Let the provider of an item look again.
    Recheck(usize),
    /// Let the provider of an item act.
    Act(usize, bool),
    /// Write to the journal.
    Record(JournalEntry),
    Done,
}

#[verifier::ext_equal]
pub enum StepModel {
    Inspect(Seq<char>),
    Delete(Seq<char>, bool),
    Confirm(Seq<char>),
    Recheck(int),
    Act(int, bool),
    Record(JournalModel),
    Done,
}

impl View for Step {
    type V = StepModel;

    open spec fn view(&self) -> StepModel {
        match *self {
            Step::Inspect(p) => StepModel::Inspect(p@),
            Step::Delete(p, permanently) => StepModel::Delete(p@, permanently),
            Step::Confirm(p) => StepModel::Confirm(p@),
            Step::Recheck(i) => StepModel::Recheck(i as int),
            Step::Act(i, permanently) => StepModel::Act(i as int, permanently),
            Step::Record(e) => StepModel::Record(e@),
            Step::Done => StepModel::Done,
        }
    }
}

/// What came of a step.
pub enum Event {
    Begin,
    /// What stands at the path.
    Found(PathKind),
    /// The path was to be deleted; the error, if any.
    Deleted(Option<String>),
    /// Whether the path is gone.
    Seen(bool),
    /// What the provider found, or its error.
    Rechecked(Result<Revalidation, String>),
    /// The bytes that the action freed, or its error.
    Acted(Result<u64, String>),
    Recorded,
}

#[verifier::ext_equal]
pub enum EventModel {
    Begin,
    Found(PathKind),
    Deleted(Option<Seq<char>>),
    Seen(bool),
    Rechecked(Result<RevalidationModel, Seq<char>>),
    Acted(Result<u64, Seq<char>>),
    Recorded,
}

impl View for Event {
    type V = EventModel;

    open spec fn view(&self) -> EventModel {
        match *self {
            Event::Begin => EventModel::Begin,
            Event::Found(k) => EventModel::Found(k),
            Event::Deleted(e) => EventModel::Deleted(view_of(e)),
            Event::Seen(gone) => EventModel::Seen(gone),
            Event::Rechecked(r) => EventModel::Rechecked(
                match r {
                    Ok(v) => Ok(v@),
                    Err(e) => Err(e@),
                },
            ),
            Event::Acted(r) => EventModel::Acted(
                match r {
                    Ok(n) => Ok(n),
                    Err(e) => Err(e@),
                },
            ),
            Event::Recorded => EventModel::Recorded,
        }
    }
}

/// What a run waits for.
pub enum Phase {
    Ready,
    Inspecting,
    Deleting,
    /// With the error so far, if any.
    Confirming(Option<String>),
    Rechecking,
    Acting,
    /// With the error, if any, and the bytes that were freed.
    Recording(Option<String>, u64),
    Finished,
}

#[verifier::ext_equal]
pub enum PhaseModel {
    Ready,
    Inspecting,
    Deleting,
    Confirming(Option<Seq<char>>),
    Rechecking,
    Acting,
    Recording(Option<Seq<char>>, u64),
    Finished,
}

impl View for Phase {
    type V = PhaseModel;

    open spec fn view(&self) -> PhaseModel {
        match *self {
            Phase::Ready => PhaseModel::Ready,
            Phase::Inspecting => PhaseModel::Inspecting,
            Phase::Deleting => PhaseModel::Deleting,
            Phase::Confirming(e) => PhaseModel::Confirming(view_of(e)),
            Phase::Rechecking => PhaseModel::Rechecking,
            Phase::Acting => PhaseModel::Acting,
            Phase::Recording(e, n) => PhaseModel::Recording(view_of(e), n),
            Phase::Finished => PhaseModel::Finished,
        }
    }
}

/// How far a plan is carried out.
pub struct Run {
    /// The item at hand.
    at: usize,
    /// Which of the item's paths is at hand.
    target: usize,
    phase: Phase,
    /// What came of the item's paths before the one at hand.
    errors: Vec<Option<String>>,
    /// What the items before came to.
    summary: ExecSummary,
}

#[verifier::ext_equal]
pub struct RunModel {
    pub at: int,
    pub target: int,
    pub phase: PhaseModel,
    pub errors: Seq<Option<Seq<char>>>,
    pub summary: SummaryModel,
}

impl View for Run {
    type V = RunModel;

    closed spec fn view(&self) -> RunModel {
        RunModel {
            at: self.at as int,
            target: self.target as int,
            phase: self.phase@,
            errors: error_texts(self.errors@),
            summary: self.summary@,
        }
    }
}

/// A run of which nothing is done.
pub open spec fn not_started() -> RunModel {
    RunModel {
        at: 0,
        target: 0,
        phase: PhaseModel::Ready,
        errors: Seq::empty(),
        summary: nothing_done(),
    }
}

/// Whether an item is left to a provider.
pub open spec fn is_native(f: FindingModel) -> bool {
    f.native_action is Some
}

/// What is attempted for an item, by name: the native action, or each path that
/// is to be deleted.
pub open spec fn attempts(f: FindingModel) -> Seq<Seq<char>> {
    if !actionable(f) {
        Seq::empty()
    } else if is_native(f) {
        seq![f.stable_id]
    } else {
        targets(f)
    }
}

/// The first item, from a place on, that may be acted on.
pub open spec fn next_item(items: Seq<FindingModel>, from: int) -> int
    decreases items.len() - from,
{
    if from >= items.len() {
        items.len() as int
    } else if actionable(items[from]) {
        from
    } else {
        next_item(items, from + 1)
    }
}

/// The run at the first item, from a place on, that may be acted on.
pub open spec fn begun(o: OrdersModel, from: int, summary: SummaryModel) -> (RunModel, StepModel) {
    let k = next_item(o.items, from);
    let s = RunModel {
        at: k,
        target: 0,
        phase: PhaseModel::Finished,
        errors: Seq::empty(),
        summary,
    };
    if k >= o.items.len() {
        (s, StepModel::Done)
    } else if is_native(o.items[k]) {
        (RunModel { phase: PhaseModel::Rechecking, ..s }, StepModel::Recheck(k))
    } else {
        (
            RunModel { phase: PhaseModel::Inspecting, ..s },
            StepModel::Inspect(targets(o.items[k])[0]),
        )
    }
}

/// The run with an attempt that is to be recorded.
pub open spec fn to_record(
    s: RunModel,
    o: OrdersModel,
    error: Option<Seq<char>>,
    freed: u64,
    now: u64,
) -> (RunModel, StepModel) {
    let f = o.items[s.at];
    (
        RunModel { phase: PhaseModel::Recording(error, freed), ..s },
        StepModel::Record(
            journal_of(
                now,
                f,
                if is_native(f) {
                    f.path
                } else {
                    targets(f)[s.target]
                },
                if is_native(f) {
                    "native"@
                } else {
                    mode_of(o.permanently)
                },
                error is Some,
                freed,
            ),
        ),
    )
}

/// The run after an attempt was recorded: at the item's next path, or at the next
/// item.
pub open spec fn recorded(s: RunModel, o: OrdersModel, error: Option<Seq<char>>, freed: u64) -> (
    RunModel,
    StepModel,
) {
    let f = o.items[s.at];
    let errors = s.errors.push(error);
    if s.target + 1 < attempts(f).len() {
        (
            RunModel { target: s.target + 1, phase: PhaseModel::Inspecting, errors, ..s },
            StepModel::Inspect(targets(f)[s.target + 1]),
        )
    } else {
        begun(o, s.at + 1, accounted(s.summary, attempts(f), errors, freed, o.home))
    }
}

/// Whether an event is what a run in this phase waits for.
pub open spec fn awaited(p: PhaseModel, e: EventModel) -> bool {
    match p {
        PhaseModel::Ready => e is Begin,
        PhaseModel::Inspecting => e is Found,
        PhaseModel::Deleting => e is Deleted,
        PhaseModel::Confirming(_) => e is Seen,
        PhaseModel::Rechecking => e is Rechecked,
        PhaseModel::Acting => e is Acted,
        PhaseModel::Recording(_, _) => e is Recorded,
        PhaseModel::Finished => false,
    }
}

/// The run after an event that it waits for, and what is to be done next.
pub open spec fn stepped(s: RunModel, o: OrdersModel, e: EventModel, now: u64) -> (
    RunModel,
    StepModel,
) {
    let f = o.items[s.at];
    let path = targets(f)[s.target];
    match (s.phase, e) {
        (PhaseModel::Ready, _) => begun(o, 0, s.summary),
        (PhaseModel::Inspecting, EventModel::Found(kind)) => match refused(
            path,
            kind,
            o.engine,
            o.home,
        ) {
            None => (
                RunModel { phase: PhaseModel::Deleting, ..s },
                StepModel::Delete(path, o.permanently),
            ),
            Some(r) => (
                RunModel { phase: PhaseModel::Confirming(Some(refusal_text(r))), ..s },
                StepModel::Confirm(path),
            ),
        },
        (PhaseModel::Deleting, EventModel::Deleted(error)) => (
            RunModel { phase: PhaseModel::Confirming(error), ..s },
            StepModel::Confirm(path),
        ),
        (PhaseModel::Confirming(error), EventModel::Seen(gone)) => to_record(
            s,
            o,
            if gone {
                None
            } else {
                error
            },
            f.bytes,
            now,
        ),
        (PhaseModel::Rechecking, EventModel::Rechecked(r)) => match r {
            Err(error) => to_record(s, o, Some(error), 0, now),
            Ok(v) => match obstacle_of(v) {
                Some(error) => to_record(s, o, Some(error), 0, now),
                None => (
                    RunModel { phase: PhaseModel::Acting, ..s },
                    StepModel::Act(s.at, o.permanently),
                ),
            },
        },
        (PhaseModel::Acting, EventModel::Acted(r)) => match r {
            Err(error) => to_record(s, o, Some(error), 0, now),
            Ok(freed) => to_record(s, o, None, freed, now),
        },
        (PhaseModel::Recording(error, freed), _) => recorded(s, o, error, freed),
        _ => (s, StepModel::Done),
    }
}

/// Whether a run is in the midst of an attempt.
pub open spec fn attempting(s: RunModel) -> bool {
    !(s.phase is Ready) && !(s.phase is Finished)
}

/// Whether a run is one of these orders: in the midst of an attempt it is at an
/// item that may be acted on, and knows what came of the item's paths before.
pub open spec fn on_course(s: RunModel, o: OrdersModel) -> bool {
    &&& 0 <= s.at <= o.items.len()
    &&& s.target >= 0
    &&& s.phase is Ready ==> s.at == 0 && s.target == 0
    &&& attempting(s) ==> {
        let f = o.items[s.at];
        &&& s.at < o.items.len()
        &&& actionable(f)
        &&& s.errors.len() == s.target
        &&& s.target < attempts(f).len()
        &&& s.phase is Inspecting || s.phase is Deleting || s.phase is Confirming ==> !is_native(f)
        &&& s.phase is Rechecking || s.phase is Acting ==> is_native(f)
    }
}

proof fn lemma_next_item(items: Seq<FindingModel>, from: int)
    requires
        0 <= from <= items.len(),
    ensures
        from <= next_item(items, from) <= items.len(),
        next_item(items, from) < items.len() ==> actionable(items[next_item(items, from)]),
    decreases items.len() - from,
{
    if from < items.len() && !actionable(items[from]) {
        lemma_next_item(items, from + 1);
    }
}

/// Whether a step is what a run has to show for its phase.
pub open spec fn shows(s: RunModel, o: OrdersModel, step: StepModel) -> bool {
    let f = o.items[s.at];
    let path = targets(f)[s.target];
    match s.phase {
        PhaseModel::Ready => false,
        PhaseModel::Inspecting => step == StepModel::Inspect(path),
        PhaseModel::Deleting => step == StepModel::Delete(path, o.permanently),
        PhaseModel::Confirming(_) => step == StepModel::Confirm(path),
        PhaseModel::Rechecking => step == StepModel::Recheck(s.at),
        PhaseModel::Acting => step == StepModel::Act(s.at, o.permanently),
        PhaseModel::Recording(error, freed) => exists|now: u64|
        #[trigger] to_record(s, o, error, freed, now).1 == step,
        PhaseModel::Finished => step is Done,
    }
}

/// A run stays on course, and shows what it has to.
proof fn lemma_stays_on_course(s: RunModel, o: OrdersModel, e: EventModel, now: u64)
    requires
        on_course(s, o),
        awaited(s.phase, e),
    ensures
        on_course(stepped(s, o, e, now).0, o),
        shows(stepped(s, o, e, now).0, o, stepped(s, o, e, now).1),
{
    lemma_next_item(o.items, 0);
    if attempting(s) {
        lemma_next_item(o.items, s.at + 1);
    }
    let (t, step) = stepped(s, o, e, now);
    if let PhaseModel::Recording(error, freed) = t.phase {
        assert(to_record(t, o, error, freed, now).1 == step);
    }
}

/// The error so far, in a phase.
spec fn pending_of(p: PhaseModel) -> Option<Seq<char>> {
    match p {
        PhaseModel::Confirming(error) => error,
        PhaseModel::Recording(error, _) => error,
        _ => None,
    }
}

/// The bytes that were freed, in a phase.
spec fn freed_of(p: PhaseModel) -> u64 {
    match p {
        PhaseModel::Recording(_, freed) => freed,
        _ => 0,
    }
}

fn copy_error(error: &Option<String>) -> (r: Option<String>)
    ensures
        view_of(r) == view_of(*error),
{
    match error {
        Some(e) => Some(e.clone()),
        None => None,
    }
}

/// What is attempted for an item, by name.
fn attempt_names(f: &Finding) -> (r: Vec<String>)
    ensures
        views(r@) == attempts(f@),
{
    if f.report_only || f.safety == Safety::Protected || f.native_action.is_none() {
        deletion_targets(f)
    } else {
        text::texts1(f.stable_id.as_str())
    }
}

impl Run {
    /// A run of which nothing is done.
    pub fn new() -> (r: Run)
        ensures
            r@ == not_started(),
    {
        let errors: Vec<Option<String>> = Vec::new();
        assert(error_texts(errors@) =~= Seq::<Option<Seq<char>>>::empty());
        Run { at: 0, target: 0, phase: Phase::Ready, errors, summary: ExecSummary::default() }
    }

    /// What the items that are done came to.
    pub fn into_summary(self) -> (r: ExecSummary)
        ensures
            r@ == self@.summary,
    {
        self.summary
    }

    /// Goes on to the first item, from a place on, that may be acted on.
    fn begin(orders: &Orders, from: usize, summary: ExecSummary) -> (r: (Run, Step))
        requires
            from <= orders@.items.len(),
        ensures
            (r.0@, r.1@) == begun(orders@, from as int, summary@),
    {
        let ghost o = orders@;
        let mut k: usize = from;
        while k < orders.items.len() && (orders.items[k].report_only || orders.items[k].safety
            == Safety::Protected)
            invariant
                from <= k <= o.items.len(),
                o == orders@,
                next_item(o.items, from as int) == next_item(o.items, k as int),
            decreases o.items.len() - k,
        {
            assert(o.items[k as int] == orders.items@[k as int]@);
            k += 1;
        }
        let errors: Vec<Option<String>> = Vec::new();
        assert(error_texts(errors@) =~= Seq::<Option<Seq<char>>>::empty());
        if k >= orders.items.len() {
            return (Run { at: k, target: 0, phase: Phase::Finished, errors, summary }, Step::Done);
        }
        let item: &Finding = orders.items[k];
        assert(o.items[k as int] == item@);
        if item.native_action.is_some() {
            return (
                Run { at: k, target: 0, phase: Phase::Rechecking, errors, summary },
                Step::Recheck(k),
            );
        }
        let all = deletion_targets(item);
        assert(all@.len() == targets(item@).len());
        assert(targets(item@)[0] == all@[0]@);
        (
            Run { at: k, target: 0, phase: Phase::Inspecting, errors, summary },
            Step::Inspect(all[0].clone()),
        )
    }

    /// The same run in another phase.
    fn entering(self, phase: Phase) -> (r: Run)
        ensures
            r@ == (RunModel { phase: phase@, ..self@ }),
    {
        Run { at: self.at, target: self.target, phase, errors: self.errors, summary: self.summary }
    }

    /// Has an attempt recorded.
    fn record(self, orders: &Orders, error: Option<String>, freed: u64, now: u64) -> (r: (Run, Step))
        requires
            on_course(self@, orders@),
            attempting(self@),
        ensures
            (r.0@, r.1@) == to_record(self@, orders@, view_of(error), freed, now),
    {
        let item: &Finding = orders.items[self.at];
        assert(orders@.items[self.at as int] == item@);
        let entry = if item.native_action.is_some() {
            journal_entry(
                now,
                item,
                item.path.as_str(),
                "native",
                error.is_some(),
                freed,
            )
        } else {
            let all = deletion_targets(item);
            assert(targets(item@)[self.target as int] == all@[self.target as int]@);
            journal_entry(
                now,
                item,
                all[self.target].as_str(),
                mode_name(orders.permanently),
                error.is_some(),
                freed,
            )
        };
        (self.entering(Phase::Recording(error, freed)), Step::Record(entry))
    }

    /// The path at hand.
    fn path(&self, orders: &Orders) -> (r: String)
        requires
            on_course(self@, orders@),
            attempting(self@),
            !is_native(orders@.items[self@.at]),
        ensures
            r@ == targets(orders@.items[self@.at])[self@.target],
    {
        let item: &Finding = orders.items[self.at];
        assert(orders@.items[self.at as int] == item@);
        let all = deletion_targets(item);
        assert(targets(item@)[self.target as int] == all@[self.target as int]@);
        all[self.target].clone()
    }

    /// Goes on after an attempt was recorded.
    fn after_record(self, orders: &Orders, error: Option<String>, freed: u64) -> (r: (Run, Step))
        requires
            on_course(self@, orders@),
            attempting(self@),
        ensures
            (r.0@, r.1@) == recorded(self@, orders@, view_of(error), freed),
    {
        let ghost s = self@;
        let ghost o = orders@;
        let Run { at, target, phase: _, errors, summary } = self;
        let item: &Finding = orders.items[at];
        assert(o.items[at as int] == item@);
        let names = attempt_names(item);
        assert(names@.len() == attempts(item@).len());
        let mut errors: Vec<Option<String>> = errors;
        let ghost before = errors@;
        errors.push(error);
        assert(error_texts(errors@) =~= error_texts(before).push(view_of(error)));
        if target < names.len() - 1 {
            let all = deletion_targets(item);
            assert(targets(item@) == attempts(item@));
            assert(targets(item@)[target + 1] == all@[target + 1]@);
            let next: usize = target + 1;
            return (
                Run { at, target: next, phase: Phase::Inspecting, errors, summary },
                Step::Inspect(all[next].clone()),
            );
        }
        let mut summary: ExecSummary = summary;
        summary.account(&names, &errors, freed, orders.home);
        assert(at < orders.items.len());
        Run::begin(orders, at + 1, summary)
    }

    /// The error so far.
    fn pending(&self) -> (r: Option<String>)
        ensures
            view_of(r) == pending_of(self@.phase),
    {
        match &self.phase {
            Phase::Confirming(error) => copy_error(error),
            Phase::Recording(error, _) => copy_error(error),
            _ => None,
        }
    }

    /// The bytes that were freed.
    fn freed(&self) -> (r: u64)
        ensures
            r == freed_of(self@.phase),
    {
        match &self.phase {
            Phase::Recording(_, freed) => *freed,
            _ => 0,
        }
    }

    /// Goes on from what came of the last step, and says what is to be done next.
    /// `now` is the time, in seconds.
    pub fn advance(self, orders: &Orders, event: Event, now: u64) -> (r: (Run, Step))
        requires
            on_course(self@, orders@),
            awaited(self@.phase, event@),
        ensures
            (r.0@, r.1@) == stepped(self@, orders@, event@, now),
            on_course(r.0@, orders@),
            shows(r.0@, orders@, r.1@),
    {
        proof {
            lemma_stays_on_course(self@, orders@, event@, now);
        }
        match event {
            Event::Begin => Run::begin(orders, 0, self.summary),
            Event::Found(kind) => {
                let path = self.path(orders);
                match validate_for_deletion(path.as_str(), kind, orders.engine, orders.home) {
                    Ok(()) => (
                        self.entering(Phase::Deleting),
                        Step::Delete(path, orders.permanently),
                    ),
                    Err(refusal) => (
                        self.entering(Phase::Confirming(Some(refusal.message()))),
                        Step::Confirm(path),
                    ),
                }
            },
            Event::Deleted(error) => {
                let path = self.path(orders);
                (self.entering(Phase::Confirming(error)), Step::Confirm(path))
            },
            Event::Seen(gone) => {
                let error = settle(self.pending(), gone);
                let item: &Finding = orders.items[self.at];
                assert(orders@.items[self.at as int] == item@);
                self.record(orders, error, item.bytes, now)
            },
            Event::Rechecked(Err(error)) => self.record(orders, Some(error), 0, now),
            Event::Rechecked(Ok(verdict)) => match verdict.obstacle() {
                Some(error) => self.record(orders, Some(error), 0, now),
                None => {
                    let at: usize = self.at;
                    (self.entering(Phase::Acting), Step::Act(at, orders.permanently))
                },
            },
            Event::Acted(Err(error)) => self.record(orders, Some(error), 0, now),
            Event::Acted(Ok(freed)) => self.record(orders, None, freed, now),
            Event::Recorded => {
                let error = self.pending();
                let freed: u64 = self.freed();
                self.after_record(orders, error, freed)
            },
        }
    }
}

// ---- laws ----

/// What happened in a run: its states, what came of the steps and when, and the
/// steps themselves.
#[verifier::ext_equal]
pub struct History {
    pub states: Seq<RunModel>,
    pub events: Seq<EventModel>,
    pub times: Seq<u64>,
    pub steps: Seq<StepModel>,
}

/// Whether a history goes on as it should at a place.
pub open spec fn follows(h: History, o: OrdersModel, i: int) -> bool {
    awaited(h.states[i].phase, h.events[i]) && (h.states[i + 1], h.steps[i]) == stepped(
        h.states[i],
        o,
        h.events[i],
        h.times[i],
    )
}

/// Whether a history is one of a run from its start.
pub open spec fn is_history(h: History, o: OrdersModel) -> bool {
    &&& h.states.len() == h.steps.len() + 1
    &&& h.events.len() == h.steps.len()
    &&& h.times.len() == h.steps.len()
    &&& h.states[0] == not_started()
    &&& forall|i: int| 0 <= i < h.steps.len() ==> #[trigger] follows(h, o, i)
}

/// Whether a history is one of a run to its end.
pub open spec fn is_complete(h: History, o: OrdersModel) -> bool {
    is_history(h, o) && h.steps.len() > 0 && h.steps.last() is Done
}

proof fn lemma_history(h: History, o: OrdersModel, i: int)
    requires
        is_history(h, o),
        0 <= i <= h.steps.len(),
    ensures
        on_course(h.states[i], o),
        i > 0 ==> shows(h.states[i], o, h.steps[i - 1]),
    decreases i,
{
    if i > 0 {
        lemma_history(h, o, i - 1);
        assert(follows(h, o, i - 1));
        lemma_stays_on_course(h.states[i - 1], o, h.events[i - 1], h.times[i - 1]);
    }
}

/// A path is deleted only right after a look at it, and only where it then passed
/// the funnel.
pub proof fn law_deletions_pass_the_funnel(h: History, o: OrdersModel, i: int)
    requires
        is_history(h, o),
        0 <= i < h.steps.len(),
        h.steps[i] is Delete,
    ensures
        i > 0,
        h.steps[i - 1] == StepModel::Inspect(h.steps[i]->Delete_0),
        h.events[i] is Found,
        refused(h.steps[i]->Delete_0, h.events[i]->Found_0, o.engine, o.home) is None,
{
    lemma_history(h, o, i);
    lemma_history(h, o, i + 1);
    assert(follows(h, o, i));
    assert(h.states[i].phase is Inspecting);
}

/// A native action runs only right after its provider looked again and found that
/// the item still stands.
pub proof fn law_actions_are_rechecked(h: History, o: OrdersModel, i: int)
    requires
        is_history(h, o),
        0 <= i < h.steps.len(),
        h.steps[i] is Act,
    ensures
        i > 0,
        h.steps[i - 1] == StepModel::Recheck(h.steps[i]->Act_0),
        h.events[i] == EventModel::Rechecked(Ok(RevalidationModel::Valid)),
{
    lemma_history(h, o, i);
    lemma_history(h, o, i + 1);
    assert(follows(h, o, i));
    assert(h.states[i].phase is Rechecking);
}

/// Whether a path is one that is deleted for an item.
pub open spec fn is_target(o: OrdersModel, k: int, path: Seq<char>) -> bool {
    0 <= k < o.items.len() && actionable(o.items[k]) && !is_native(o.items[k]) && targets(
        o.items[k],
    ).contains(path)
}

/// Only paths of items that may be acted on are looked at or deleted, only
/// providers of such items are asked or act, and nothing is deleted for good unless
/// that was ordered.
pub proof fn law_protected_items_are_left_alone(h: History, o: OrdersModel, i: int)
    requires
        is_history(h, o),
        0 <= i < h.steps.len(),
    ensures
        match h.steps[i] {
            StepModel::Inspect(p) => exists|k: int| is_target(o, k, p),
            StepModel::Confirm(p) => exists|k: int| is_target(o, k, p),
            StepModel::Delete(p, permanently) => permanently == o.permanently && exists|k: int|
            is_target(o, k, p),
            StepModel::Recheck(k) => 0 <= k < o.items.len() && actionable(o.items[k]),
            StepModel::Act(k, permanently) => permanently == o.permanently && 0 <= k < o.items.len()
                && actionable(o.items[k]),
            _ => true,
        },
{
    lemma_history(h, o, i + 1);
    let s = h.states[i + 1];
    match h.steps[i] {
        StepModel::Inspect(p) => {
            assert(s.phase is Inspecting);
            assert(is_target(o, s.at, p));
        },
        StepModel::Confirm(p) => {
            assert(s.phase is Confirming);
            assert(is_target(o, s.at, p));
        },
        StepModel::Delete(p, _) => {
            assert(s.phase is Deleting);
            assert(is_target(o, s.at, p));
        },
        StepModel::Recheck(k) => {
            assert(s.phase is Rechecking);
        },
        StepModel::Act(k, _) => {
            assert(s.phase is Acting);
        },
        _ => {},
    }
}

/// Whether a step opens an attempt.
pub open spec fn opens(step: StepModel) -> bool {
    step is Inspect || step is Recheck
}

/// Whether a step records an attempt for an item: the path, the item's rule and
/// the bytes that were expected.
pub open spec fn records(step: StepModel, f: FindingModel, path: Seq<char>) -> bool {
    step matches StepModel::Record(e) && e.path == path && e.rule_id == f.rule_id && e.bytes == f.bytes
}

/// The path that the journal names for what a run is at.
pub open spec fn path_at(s: RunModel, o: OrdersModel) -> Seq<char> {
    if is_native(o.items[s.at]) {
        o.items[s.at].path
    } else {
        targets(o.items[s.at])[s.target]
    }
}

/// Every attempt of a run that has ended was recorded, before another was opened.
pub proof fn law_attempts_are_recorded(h: History, o: OrdersModel, i: int)
    requires
        is_complete(h, o),
        0 <= i < h.steps.len(),
        opens(h.steps[i]),
    ensures
        exists|j: int|
        {
            &&& i < j < h.steps.len()
            &&& #[trigger] records(h.steps[j], o.items[h.states[i + 1].at], path_at(h.states[i + 1], o))
            &&& forall|m: int| i < m <= j ==> !opens(#[trigger] h.steps[m])
        },
{
    lemma_history(h, o, i + 1);
    let j = lemma_recorded_later(h, o, i + 1);
    assert(records(h.steps[j], o.items[h.states[i + 1].at], path_at(h.states[i + 1], o)));
}

proof fn lemma_recorded_later(h: History, o: OrdersModel, i: int) -> (j: int)
    requires
        is_complete(h, o),
        0 <= i <= h.steps.len(),
        attempting(h.states[i]),
        !(h.states[i].phase is Recording),
    ensures
        i <= j < h.steps.len(),
        records(h.steps[j], o.items[h.states[i].at], path_at(h.states[i], o)),
        forall|m: int| i <= m <= j ==> !opens(#[trigger] h.steps[m]),
    decreases h.steps.len() - i,
{
    lemma_history(h, o, i);
    assert(i < h.steps.len());
    assert(follows(h, o, i));
    if h.states[i + 1].phase is Recording {
        i
    } else {
        lemma_recorded_later(h, o, i + 1)
    }
}

/// Whatever a run records, the values of sensitive evidence are withheld.
pub proof fn law_records_withhold_what_is_sensitive(h: History, o: OrdersModel, i: int, j: int)
    requires
        is_history(h, o),
        0 <= i < h.steps.len(),
        h.steps[i] is Record,
        0 <= j < h.steps[i]->Record_0.evidence.len(),
        sensitive(h.steps[i]->Record_0.evidence[j].label),
    ensures
        h.steps[i]->Record_0.evidence[j].value == "[redacted]"@,
{
    lemma_history(h, o, i + 1);
    let s = h.states[i + 1];
    assert(s.phase is Recording);
    assert(h.steps[i]->Record_0.evidence == o.items[s.at].evidence.map_values(withheld()));
}

/// How far a phase is from the end of an attempt.
pub open spec fn phase_rank(p: PhaseModel) -> nat {
    match p {
        PhaseModel::Ready => 5,
        PhaseModel::Inspecting => 4,
        PhaseModel::Rechecking => 4,
        PhaseModel::Deleting => 3,
        PhaseModel::Acting => 3,
        PhaseModel::Confirming(_) => 2,
        PhaseModel::Recording(_, _) => 1,
        PhaseModel::Finished => 0,
    }
}

/// Every step brings a run closer to its end: to a later item, to a later path of
/// the same item, or to a later phase of the same attempt.
pub proof fn law_runs_come_to_an_end(s: RunModel, o: OrdersModel, e: EventModel, now: u64)
    requires
        on_course(s, o),
        awaited(s.phase, e),
    ensures
        ({
            let t = stepped(s, o, e, now).0;
            ||| s.at < t.at <= o.items.len()
            ||| t.at == s.at && s.target < t.target < attempts(o.items[s.at]).len()
            ||| t.at == s.at && t.target == s.target && phase_rank(t.phase) < phase_rank(s.phase)
        }),
{
    lemma_next_item(o.items, 0);
    if attempting(s) {
        lemma_next_item(o.items, s.at + 1);
    }
}

/// Whether a step opens an attempt for an item: the look at one of its paths, or
/// the second look of its provider.
pub open spec fn opens_for(step: StepModel, o: OrdersModel, k: int, t: int) -> bool {
    if is_native(o.items[k]) {
        step == StepModel::Recheck(k)
    } else {
        step == StepModel::Inspect(targets(o.items[k])[t])
    }
}

/// Whether an attempt was opened before a place of a history.
pub open spec fn opened(h: History, o: OrdersModel, k: int, t: int, i: int) -> bool {
    exists|j: int| 0 <= j < i && opens_for(#[trigger] h.steps[j], o, k, t)
}

/// Whether an attempt lies before what a run is at, or is that.
spec fn behind(s: RunModel, k: int, t: int) -> bool {
    k < s.at || k == s.at && attempting(s) && t <= s.target
}

proof fn lemma_none_between(items: Seq<FindingModel>, from: int, k: int)
    requires
        0 <= from <= k < next_item(items, from),
        k < items.len(),
    ensures
        !actionable(items[k]),
    decreases items.len() - from,
{
    if from < items.len() && !actionable(items[from]) && from < k {
        lemma_none_between(items, from + 1, k);
    }
}

proof fn lemma_opened(h: History, o: OrdersModel, i: int, k: int, t: int)
    requires
        is_history(h, o),
        0 <= i <= h.steps.len(),
        0 <= k < o.items.len(),
        0 <= t < attempts(o.items[k]).len(),
        behind(h.states[i], k, t),
    ensures
        opened(h, o, k, t, i),
    decreases i,
{
    lemma_history(h, o, i);
    if i > 0 {
        let (s, u) = (h.states[i - 1], h.states[i]);
        lemma_history(h, o, i - 1);
        assert(follows(h, o, i - 1));
        if behind(s, k, t) {
            lemma_opened(h, o, i - 1, k, t);
            let j = choose|j: int| 0 <= j < i - 1 && opens_for(#[trigger] h.steps[j], o, k, t);
            assert(opens_for(h.steps[j], o, k, t));
        } else {
            assert(actionable(o.items[k]));
            if k < u.at {
                let from = if attempting(s) {
                    s.at + 1
                } else {
                    0
                };
                if from <= k {
                    lemma_none_between(o.items, from, k);
                }
            }
            assert(opens_for(h.steps[i - 1], o, k, t));
        }
    }
}

/// A run that has ended attempted all that may be acted on: each path of each item,
/// and each native action.
pub proof fn law_nothing_is_passed_over(h: History, o: OrdersModel, k: int, t: int)
    requires
        is_complete(h, o),
        0 <= k < o.items.len(),
        0 <= t < attempts(o.items[k]).len(),
    ensures
        opened(h, o, k, t, h.steps.len() as int),
{
    let n = h.steps.len() as int;
    lemma_history(h, o, n);
    lemma_history(h, o, n - 1);
    assert(follows(h, o, n - 1));
    lemma_next_item(o.items, 0);
    if attempting(h.states[n - 1]) {
        lemma_next_item(o.items, h.states[n - 1].at + 1);
    }
    assert(h.states[n].at == o.items.len());
    lemma_opened(h, o, n, k, t);
}

/// How many of some steps write to the journal.
pub open spec fn record_count(steps: Seq<StepModel>) -> nat
    decreases steps.len(),
{
    if steps.len() == 0 {
        0
    } else {
        record_count(steps.drop_last()) + if steps.last() is Record {
            1nat
        } else {
            0
        }
    }
}

proof fn lemma_counts(
    s: SummaryModel,
    names: Seq<Seq<char>>,
    errors: Seq<Option<Seq<char>>>,
    home: Seq<char>,
    n: int,
)
    requires
        0 <= n,
        s.deleted + s.failed + n <= u64::MAX,
    ensures
        all_attempted(s, names, errors, home, n).deleted + all_attempted(s, names, errors, home, n).failed
            == s.deleted + s.failed + n,
    decreases n,
{
    if n > 0 {
        lemma_counts(s, names, errors, home, n - 1);
    }
}

/// What a run has counted, with what is still to be counted.
spec fn counted(s: RunModel) -> int {
    s.summary.deleted + s.summary.failed + s.errors.len() + if s.phase is Recording {
        1int
    } else {
        0
    }
}

proof fn lemma_counted(h: History, o: OrdersModel, i: int)
    requires
        is_history(h, o),
        0 <= i <= h.steps.len(),
        record_count(h.steps) <= u64::MAX,
    ensures
        counted(h.states[i]) == record_count(h.steps.take(i)),
        record_count(h.steps.take(i)) <= record_count(h.steps),
    decreases i,
{
    lemma_count_prefix(h.steps, i);
    if i > 0 {
        let s = h.states[i - 1];
        lemma_counted(h, o, i - 1);
        lemma_history(h, o, i - 1);
        assert(follows(h, o, i - 1));
        assert(h.steps.take(i).drop_last() =~= h.steps.take(i - 1));
        assert(h.steps.take(i).last() == h.steps[i - 1]);
        if let PhaseModel::Recording(error, freed) = s.phase {
            let names = attempts(o.items[s.at]);
            if s.target + 1 == names.len() {
                lemma_counts(s.summary, names, s.errors.push(error), o.home, names.len() as int);
            }
        }
    }
}

proof fn lemma_count_prefix(steps: Seq<StepModel>, i: int)
    requires
        0 <= i <= steps.len(),
    ensures
        record_count(steps.take(i)) <= record_count(steps),
    decreases steps.len(),
{
    if i == steps.len() {
        assert(steps.take(i) =~= steps);
    } else {
        lemma_count_prefix(steps.drop_last(), i);
        assert(steps.drop_last().take(i) =~= steps.take(i));
    }
}

/// A run that has ended counts each attempt that it recorded once, as deleted or as
/// failed, as long as they are no more than can be counted.
pub proof fn law_records_are_counted(h: History, o: OrdersModel)
    requires
        is_complete(h, o),
        record_count(h.steps) <= u64::MAX,
    ensures
        h.states.last().summary.deleted + h.states.last().summary.failed == record_count(h.steps),
{
    let n = h.steps.len() as int;
    lemma_counted(h, o, n);
    lemma_history(h, o, n);
    lemma_history(h, o, n - 1);
    assert(follows(h, o, n - 1));
    assert(h.steps.take(n) =~= h.steps);
}

/// A path that nothing speaks against is deleted, in the way that was asked for.
pub proof fn law_accepted_paths_are_deleted(s: RunModel, o: OrdersModel, kind: PathKind, now: u64)
    requires
        s.phase is Inspecting,
        refused(targets(o.items[s.at])[s.target], kind, o.engine, o.home) is None,
    ensures
        stepped(s, o, EventModel::Found(kind), now).1 == StepModel::Delete(
            targets(o.items[s.at])[s.target],
            o.permanently,
        ),
{
}

/// A path that is refused is never deleted; what was said of it is kept.
pub proof fn law_refused_paths_are_not_deleted(s: RunModel, o: OrdersModel, kind: PathKind, now: u64)
    requires
        s.phase is Inspecting,
        refused(targets(o.items[s.at])[s.target], kind, o.engine, o.home) is Some,
    ensures
        !(stepped(s, o, EventModel::Found(kind), now).1 is Delete),
        stepped(s, o, EventModel::Found(kind), now).0.phase is Confirming,
        stepped(s, o, EventModel::Found(kind), now).0.phase->Confirming_0 is Some,
{
}

/// An action that its provider still finds valid is carried out; one that changed, is
/// gone or is blocked is not, and frees nothing.
pub proof fn law_only_valid_actions_are_carried_out(
    s: RunModel,
    o: OrdersModel,
    r: Result<RevalidationModel, Seq<char>>,
    now: u64,
)
    requires
        s.phase is Rechecking,
    ensures
        r == Ok::<RevalidationModel, Seq<char>>(RevalidationModel::Valid) <==> stepped(
            s,
            o,
            EventModel::Rechecked(r),
            now,
        ).1 == StepModel::Act(s.at, o.permanently),
        r != Ok::<RevalidationModel, Seq<char>>(RevalidationModel::Valid) ==> {
            let step = stepped(s, o, EventModel::Rechecked(r), now).1;
            step matches StepModel::Record(e) && e.result == "error"@ && e.freed_bytes == 0
        },
{
    if let Ok(v) = r {
        match v {
            RevalidationModel::Valid => {},
            RevalidationModel::Changed(m) => {},
            RevalidationModel::Gone(m) => {},
            RevalidationModel::Blocked(m) => {},
        }
    }
}

/// What an action freed is what is recorded; one that failed freed nothing.
pub proof fn law_actions_record_what_they_freed(
    s: RunModel,
    o: OrdersModel,
    r: Result<u64, Seq<char>>,
    now: u64,
)
    requires
        s.phase is Acting,
        is_native(o.items[s.at]),
    ensures
        stepped(s, o, EventModel::Acted(r), now).1 matches StepModel::Record(e) && e.ts == now
            && e.mode == "native"@ && e.freed_bytes == match r {
            Ok(freed) => freed,
            Err(_) => 0,
        } && (e.result == "ok"@ <==> r is Ok),
{
    reveal_strlit("ok");
    reveal_strlit("error");
    assert("ok"@.len() != "error"@.len());
}

/// A path that is gone counts as deleted whatever was said of it; one that still
/// stands counts as failed where there was an error.
pub proof fn law_gone_paths_are_deleted(
    s: RunModel,
    o: OrdersModel,
    error: Option<Seq<char>>,
    gone: bool,
    now: u64,
)
    requires
        s.phase == PhaseModel::Confirming(error),
        !is_native(o.items[s.at]),
    ensures
        stepped(s, o, EventModel::Seen(gone), now).1 matches StepModel::Record(e) && e.ts == now && e.path
            == targets(o.items[s.at])[s.target] && (e.result == "error"@ <==> !gone && error is Some)
            && e.mode == (if o.permanently {
            "delete"@
        } else {
            "trash"@
        }) && e.freed_bytes == (if !gone && error is Some {
            0
        } else {
            o.items[s.at].bytes
        }),
{
    reveal_strlit("ok");
    reveal_strlit("error");
    assert("ok"@.len() != "error"@.len());
}

} // verus!
