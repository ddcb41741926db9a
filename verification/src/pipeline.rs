//! A run from its inputs to the store, as a machine of states and events.
//!
//! The machine decides and its caller acts. The caller begins the run,
//! lists the inputs and hands the listing in, asks for the next batch while
//! there is one to start, commits each batch to the store, and reports how
//! each commit ended. The machine parses and batches the inputs, bounds how
//! many batches are in flight, keeps every failure, and tells in the end
//! whether the run succeeded. A run can be cancelled: no further batch
//! starts then, and the batches in flight end as they would.

use crate::batch::{batches_of, lemma_batches_deep_view, lemma_no_items_no_batches, split_batches};
use crate::coordinator::{
    all_over, completed, entries_about, failures, finished, first_pending, lemma_finished_is_all_over,
    lemma_one_entry_for_each_failure, lemma_running_count_update, running_count, some_pending,
    succeeded_count, Coordinator, UnitState,
};
use crate::db::{plan_for, upsert, UpsertPlan};
use crate::error::{Error, ErrorKind};
use crate::source::SourceEntry;
use crate::whois::{parse_text, RecordView, WhoIsRecord};
use vstd::prelude::*;

verus! {

/// Where a run stands.
#[derive(Clone, Copy, Debug, PartialEq, Eq, Structural)]
pub enum Phase {
    /// Not begun.
    Idle,
    /// Waiting for the listing of the inputs.
    Enumerating,
    /// Batches are being committed.
    Upserting,
    /// No batch is in flight and none will start: every batch has been
    /// committed or has failed, or the run was cancelled.
    Done,
    /// The inputs could not be listed.
    Failed,
}

/// What a failure is about.
#[derive(Clone, Copy, Debug, PartialEq, Eq, Structural)]
pub enum Origin {
    /// The listing of the inputs.
    Enumeration,
    /// The input with this position in the listing.
    Entry(usize),
    /// The batch with this number.
    Batch(usize),
}

/// One failure of a run.
#[derive(Clone, Copy, Debug, PartialEq, Eq, Structural)]
pub struct Failure {
    pub origin: Origin,
    pub error: Error,
}

/// What the inputs come to: the batches of the inputs that hold well-formed
/// records, input after input, and the failures of the others.
pub struct Plan {
    pub batches: Seq<Seq<RecordView>>,
    pub errors: Seq<(usize, Error)>,
}

/// What one input comes to: its records, or why there are none. An input
/// that could not be read keeps its failure; one that was read is parsed.
pub open spec fn records_of_input(input: Result<Seq<char>, Error>) -> Result<Seq<RecordView>, Error> {
    match input {
        Ok(text) => match parse_text(text) {
            Ok(records) => Ok(records),
            Err(e) => Err(Error::Parse(e)),
        },
        Err(e) => Err(e),
    }
}

/// What the inputs come to when each is parsed and its records are split
/// into batches of at most `size`.
pub open spec fn plan_of(inputs: Seq<Result<Seq<char>, Error>>, size: nat) -> Plan
    decreases inputs.len(),
{
    if inputs.len() == 0 {
        Plan { batches: Seq::empty(), errors: Seq::empty() }
    } else {
        let before = plan_of(inputs.drop_last(), size);
        match records_of_input(inputs.last()) {
            Ok(records) => Plan {
                batches: before.batches + batches_of(records, size),
                errors: before.errors,
            },
            Err(e) => Plan {
                batches: before.batches,
                errors: before.errors.push(((inputs.len() - 1) as usize, e)),
            },
        }
    }
}

/// The texts of the inputs that were read and the failures of the others,
/// in order.
pub open spec fn texts_of(listing: Seq<Result<SourceEntry, Error>>) -> Seq<Result<Seq<char>, Error>> {
    Seq::new(
        listing.len(),
        |i: int|
            match listing[i] {
                Ok(entry) => Ok(entry.content@),
                Err(e) => Err(e),
            },
    )
}

/// The state of a run, as mathematical values.
pub struct PipelineView {
    pub phase: Phase,
    /// Whether any failure fails the run.
    pub strict: bool,
    pub batch_size: nat,
    pub limit: nat,
    /// The batches, in the order of their numbers.
    pub batches: Seq<Seq<RecordView>>,
    /// The failures of the inputs that do not hold well-formed records.
    pub entry_errors: Seq<(usize, Error)>,
    /// Where each batch stands.
    pub units: Seq<UnitState>,
    /// Why the inputs could not be listed, if they could not.
    pub stopped_by: Option<Error>,
    /// Whether the run was cancelled.
    pub cancelled: bool,
}

/// The state after the run is begun.
pub open spec fn begun(v: PipelineView) -> PipelineView {
    if v.phase == Phase::Idle {
        PipelineView { phase: Phase::Enumerating, ..v }
    } else {
        v
    }
}

/// The state after the listing of the inputs ended with `outcome`. A
/// listing that failed fails the run. Otherwise every input that was read is
/// parsed and batched; an input that could not be read or does not parse is
/// kept as a failure and does not stop the others. Without any batch the run
/// is done, and so is a run that was cancelled before.
pub open spec fn listed(
    v: PipelineView,
    outcome: Result<Seq<Result<Seq<char>, Error>>, Error>,
) -> PipelineView {
    if v.phase != Phase::Enumerating {
        v
    } else {
        match outcome {
            Err(e) => PipelineView { phase: Phase::Failed, stopped_by: Some(e), ..v },
            Ok(inputs) => {
                let plan = plan_of(inputs, v.batch_size);
                PipelineView {
                    phase: if plan.batches.len() == 0 || v.cancelled {
                        Phase::Done
                    } else {
                        Phase::Upserting
                    },
                    batches: plan.batches,
                    entry_errors: plan.errors,
                    units: Seq::new(plan.batches.len(), |i: int| UnitState::Pending),
                    ..v
                }
            },
        }
    }
}

/// The state after batch `unit` ended with `outcome`. Only a batch that is
/// in flight can end. When no batch is in flight and none is left to start
/// the run is done.
pub open spec fn committed(v: PipelineView, unit: int, outcome: Result<(), Error>) -> PipelineView {
    if v.phase == Phase::Upserting && 0 <= unit < v.units.len() && v.units[unit] is Running {
        let units = v.units.update(unit, completed(outcome));
        PipelineView {
            phase: if finished(units, v.cancelled) {
                Phase::Done
            } else {
                Phase::Upserting
            },
            units,
            ..v
        }
    } else {
        v
    }
}

/// The first batch that has not been started.
pub open spec fn next_pending(units: Seq<UnitState>) -> int {
    choose|unit: int| first_pending(units, unit)
}

/// The state after the caller asked for the next batch. While batches are
/// committed and the run is not cancelled, the first batch that has not
/// been started is in flight, if the limit allows one more; otherwise
/// nothing changes.
pub open spec fn started(v: PipelineView) -> PipelineView {
    if v.phase == Phase::Upserting && !v.cancelled && running_count(v.units) < v.limit && some_pending(
        v.units,
    ) {
        PipelineView { units: v.units.update(next_pending(v.units), UnitState::Running), ..v }
    } else {
        v
    }
}

/// What happens to a run after its inputs are listed.
pub enum Event {
    /// The caller asks for the next batch.
    Start,
    /// The commit of batch `unit` ended with `outcome`.
    Ended { unit: int, outcome: Result<(), Error> },
    /// The caller cancels the run.
    Cancel,
}

/// The state after one event.
pub open spec fn step(v: PipelineView, event: Event) -> PipelineView {
    match event {
        Event::Start => started(v),
        Event::Ended { unit, outcome } => committed(v, unit, outcome),
        Event::Cancel => cancelled(v),
    }
}

/// The state after the events, one after another.
pub open spec fn run(v: PipelineView, events: Seq<Event>) -> PipelineView
    decreases events.len(),
{
    if events.len() == 0 {
        v
    } else {
        step(run(v, events.drop_last()), events.last())
    }
}

/// Whether the commit of batch `unit` was reported to have failed.
pub open spec fn failure_reported(events: Seq<Event>, unit: int) -> bool {
    exists|e: Error| #[trigger] events.contains(Event::Ended { unit, outcome: Err(e) })
}

/// Before a batch that has not been started stands a first such batch.
proof fn lemma_least_pending(units: Seq<UnitState>, i: int) -> (unit: int)
    requires
        0 <= i < units.len(),
        units[i] is Pending,
    ensures
        first_pending(units, unit),
    decreases i,
{
    if forall|j: int| 0 <= j < i ==> !(#[trigger] units[j] is Pending) {
        i
    } else {
        let j = choose|j: int| 0 <= j < i && #[trigger] units[j] is Pending;
        lemma_least_pending(units, j)
    }
}

/// Only one batch is the first that has not been started.
pub proof fn lemma_next_pending(units: Seq<UnitState>, unit: int)
    requires
        first_pending(units, unit),
    ensures
        next_pending(units) == unit,
{
    let other = next_pending(units);
    assert(first_pending(units, other));
    if other < unit {
        assert(!(units[other] is Pending));
    } else if unit < other {
        assert(!(units[unit] is Pending));
    }
}

/// In a whole run no batch answers for another. Whatever the caller does
/// after the inputs are listed, in whatever order batches start and end and
/// whether the run is cancelled or not: the batches stay what they were; a
/// batch has failed only where the commit of that very batch was reported
/// to have failed, and has succeeded only where its own commit was reported
/// to have succeeded; and the failures hold exactly one entry for each batch
/// that failed. A run that is done without having been cancelled has seen
/// every batch end, so that every batch of which no failure was reported has
/// been committed, however many others failed.
pub proof fn lemma_failures_are_isolated(v: PipelineView, events: Seq<Event>, unit: int)
    requires
        forall|i: int| 0 <= i < v.units.len() ==> #[trigger] v.units[i] is Pending,
        v.phase == Phase::Done ==> finished(v.units, v.cancelled),
        v.units.len() <= usize::MAX,
        0 <= unit < v.units.len(),
    ensures
        run(v, events).batches == v.batches,
        run(v, events).entry_errors == v.entry_errors,
        run(v, events).units.len() == v.units.len(),
        run(v, events).units[unit] matches UnitState::Failed(e) ==> events.contains(
            Event::Ended { unit, outcome: Err(e) },
        ),
        run(v, events).units[unit] is Succeeded ==> events.contains(Event::Ended { unit, outcome: Ok(()) }),
        entries_about(failures(run(v, events).units), unit) == (if run(v, events).units[unit] is Failed {
            1nat
        } else {
            0nat
        }),
        run(v, events).phase == Phase::Done && !run(v, events).cancelled ==> all_over(run(v, events).units),
        run(v, events).phase == Phase::Done && !run(v, events).cancelled && !failure_reported(
            events,
            unit,
        ) ==> run(v, events).units[unit] is Succeeded,
{
    lemma_run(v, events, unit);
    let after = run(v, events);
    lemma_one_entry_for_each_failure(after.units, unit);
    lemma_finished_is_all_over(after.units);
    if after.phase == Phase::Done && !after.cancelled {
        assert(crate::coordinator::is_over(after.units[unit]));
    }
}

/// What holds after every event of a run.
proof fn lemma_run(v: PipelineView, events: Seq<Event>, unit: int)
    requires
        forall|i: int| 0 <= i < v.units.len() ==> #[trigger] v.units[i] is Pending,
        v.phase == Phase::Done ==> finished(v.units, v.cancelled),
        0 <= unit < v.units.len(),
    ensures
        run(v, events).batches == v.batches,
        run(v, events).entry_errors == v.entry_errors,
        run(v, events).units.len() == v.units.len(),
        run(v, events).phase == Phase::Done ==> finished(run(v, events).units, run(v, events).cancelled),
        run(v, events).units[unit] matches UnitState::Failed(e) ==> events.contains(
            Event::Ended { unit, outcome: Err(e) },
        ),
        run(v, events).units[unit] is Succeeded ==> events.contains(Event::Ended { unit, outcome: Ok(()) }),
    decreases events.len(),
{
    if events.len() > 0 {
        let init = events.drop_last();
        let before = run(v, init);
        let after = run(v, events);
        lemma_run(v, init, unit);
        assert(forall|k: int| 0 <= k < init.len() ==> init[k] == events[k]);
        let last = events.len() - 1;
        match before.units[unit] {
            UnitState::Failed(e) => {
                let k = choose|k: int|
                    0 <= k < init.len() && init[k] == (Event::Ended { unit, outcome: Err(e) });
                assert(events[k] == (Event::Ended { unit, outcome: Err(e) }));
            },
            UnitState::Succeeded => {
                let k = choose|k: int|
                    0 <= k < init.len() && init[k] == (Event::Ended { unit, outcome: Ok(()) });
                assert(events[k] == (Event::Ended { unit, outcome: Ok(()) }));
            },
            _ => {},
        }
        match events.last() {
            Event::Start => {
                if after != before {
                    let i = choose|i: int| 0 <= i < before.units.len() && #[trigger] before.units[i] is Pending;
                    let first = lemma_least_pending(before.units, i);
                    lemma_next_pending(before.units, first);
                }
            },
            Event::Ended { unit: ended, outcome } => {
                if ended == unit && after != before {
                    assert(events[last] == (Event::Ended { unit, outcome }));
                    match outcome {
                        Ok(done) => {
                            assert(done == ());
                        },
                        Err(e) => {},
                    }
                }
            },
            Event::Cancel => {},
        }
    }
}

/// The state after the run is cancelled. Before the run is done or has
/// failed, it is marked as cancelled and no further batch starts; if no
/// batch is in flight, the run is done.
pub open spec fn cancelled(v: PipelineView) -> PipelineView {
    if v.phase == Phase::Done || v.phase == Phase::Failed {
        v
    } else {
        PipelineView {
            phase: if v.phase == Phase::Upserting && running_count(v.units) == 0 {
                Phase::Done
            } else {
                v.phase
            },
            cancelled: true,
            ..v
        }
    }
}

/// Every failure of the run: of the listing, then of the inputs in their
/// order, then of the batches in theirs.
pub open spec fn all_failures(v: PipelineView) -> Seq<Failure> {
    (match v.stopped_by {
        Some(e) => seq![Failure { origin: Origin::Enumeration, error: e }],
        None => Seq::empty(),
    }) + Seq::new(
        v.entry_errors.len(),
        |i: int| Failure { origin: Origin::Entry(v.entry_errors[i].0), error: v.entry_errors[i].1 },
    ) + Seq::new(
        failures(v.units).len(),
        |i: int| Failure { origin: Origin::Batch(failures(v.units)[i].0), error: failures(v.units)[i].1 },
    )
}

/// The number of records in the batches that were committed.
pub open spec fn ingested_count(batches: Seq<Seq<RecordView>>, units: Seq<UnitState>) -> nat
    decreases batches.len(),
{
    if batches.len() == 0 {
        0
    } else {
        ingested_count(batches.drop_last(), units) + if batches.len() <= units.len() && units[batches.len()
            - 1] is Succeeded {
            batches.last().len()
        } else {
            0nat
        }
    }
}

/// The number of failures of the kind.
pub open spec fn kind_count(list: Seq<Failure>, kind: ErrorKind) -> nat
    decreases list.len(),
{
    if list.len() == 0 {
        0
    } else {
        kind_count(list.drop_last(), kind) + if list.last().error.kind_of() == kind {
            1nat
        } else {
            0nat
        }
    }
}

/// Whether the run has succeeded: it is done and was not cancelled, and it
/// is not strict or nothing has failed.
pub open spec fn has_succeeded(v: PipelineView) -> bool {
    v.phase == Phase::Done && !v.cancelled && (!v.strict || all_failures(v).len() == 0)
}

/// Inputs without records make no batches and no failures.
proof fn lemma_plan_of_nothing(inputs: Seq<Result<Seq<char>, Error>>, size: nat)
    requires
        size > 0,
        forall|i: int|
            0 <= i < inputs.len() ==> records_of_input(#[trigger] inputs[i]) == Ok::<
                Seq<RecordView>,
                Error,
            >(Seq::empty()),
    ensures
        plan_of(inputs, size).batches.len() == 0,
        plan_of(inputs, size).errors.len() == 0,
    decreases inputs.len(),
{
    if inputs.len() > 0 {
        let init = inputs.drop_last();
        assert(forall|i: int| 0 <= i < init.len() ==> init[i] == inputs[i]);
        lemma_plan_of_nothing(init, size);
        assert(records_of_input(inputs[inputs.len() - 1]) == Ok::<Seq<RecordView>, Error>(Seq::empty()));
        lemma_no_items_no_batches(Seq::<RecordView>::empty(), size);
    }
}

/// Empty inputs end a run at once and well: where every input that was
/// listed holds no records, and none at all is such a listing, there is no
/// batch to commit, nothing has failed, and the run is done and has
/// succeeded, strict or not.
pub proof fn lemma_empty_inputs_succeed(v: PipelineView, inputs: Seq<Result<Seq<char>, Error>>)
    requires
        v.phase == Phase::Enumerating,
        v.batch_size > 0,
        v.stopped_by is None,
        !v.cancelled,
        forall|i: int|
            0 <= i < inputs.len() ==> records_of_input(#[trigger] inputs[i]) == Ok::<
                Seq<RecordView>,
                Error,
            >(Seq::empty()),
    ensures
        listed(v, Ok(inputs)).batches.len() == 0,
        listed(v, Ok(inputs)).units.len() == 0,
        all_failures(listed(v, Ok(inputs))).len() == 0,
        listed(v, Ok(inputs)).phase == Phase::Done,
        has_succeeded(listed(v, Ok(inputs))),
{
    lemma_plan_of_nothing(inputs, v.batch_size);
}

/// How a run ended, or how far it is.
#[derive(Clone, Debug, PartialEq, Eq)]
pub struct RunReport {
    pub phase: Phase,
    /// The number of batches.
    pub batches: usize,
    /// The number of batches that were committed.
    pub committed: usize,
    /// The number of records in the batches that were committed, or the
    /// largest number that the field holds where there are more.
    pub ingested: usize,
    /// Every failure of the run.
    pub failures: Vec<Failure>,
    /// Whether the run was cancelled.
    pub cancelled: bool,
    /// Whether the run has succeeded.
    pub succeeded: bool,
}

impl RunReport {
    /// The number of failures of the kind.
    pub fn failures_of(&self, kind: ErrorKind) -> (count: usize)
        ensures
            count == kind_count(self.failures@, kind),
    {
        let mut count: usize = 0;
        let mut i: usize = 0;
        assert(self.failures@.take(0) =~= Seq::<Failure>::empty());
        while i < self.failures.len()
            invariant
                i <= self.failures.len(),
                count <= i,
                count == kind_count(self.failures@.take(i as int), kind),
            decreases self.failures.len() - i,
        {
            assert(self.failures@.take(i + 1).drop_last() =~= self.failures@.take(i as int));
            if self.failures[i].error.kind() == kind {
                count = count + 1;
            }
            i += 1;
        }
        assert(self.failures@.take(i as int) =~= self.failures@);
        count
    }

    /// The status with which the process ends: zero for a run that has
    /// succeeded, one for any other.
    pub fn exit_code(&self) -> (code: i32)
        ensures
            code == (if self.succeeded {
                0i32
            } else {
                1i32
            }),
    {
        if self.succeeded {
            0
        } else {
            1
        }
    }
}

/// The decisions of one run.
pub struct Pipeline {
    phase: Phase,
    strict: bool,
    batch_size: usize,
    limit: usize,
    batches: Vec<Vec<WhoIsRecord>>,
    entry_errors: Vec<(usize, Error)>,
    coordinator: Coordinator,
    stopped_by: Option<Error>,
    cancelled: bool,
}

impl View for Pipeline {
    type V = PipelineView;

    closed spec fn view(&self) -> PipelineView {
        PipelineView {
            phase: self.phase,
            strict: self.strict,
            batch_size: self.batch_size as nat,
            limit: self.limit as nat,
            batches: self.batches.deep_view(),
            entry_errors: self.entry_errors@,
            units: self.coordinator.units(),
            stopped_by: self.stopped_by,
            cancelled: self.cancelled,
        }
    }
}

impl Pipeline {
    /// What holds of every run between two calls.
    pub closed spec fn wf(&self) -> bool {
        &&& self.coordinator.wf()
        &&& self.coordinator.limit() == self.limit
        &&& self.batch_size > 0
        &&& self.limit > 0
        &&& self.coordinator.stopped() == self.cancelled
        &&& self.coordinator.units().len() == self.batches.len()
        &&& self.phase == Phase::Upserting ==> !finished(self.coordinator.units(), self.cancelled)
        &&& self.phase == Phase::Done ==> finished(self.coordinator.units(), self.cancelled)
    }

    /// A run that has not begun, in which at most `limit` batches are in
    /// flight at once and a batch holds at most `batch_size` records. A
    /// strict run fails when anything in it fails; a lenient run only
    /// reports the failures.
    pub fn new(limit: usize, batch_size: usize, strict: bool) -> (pipeline: Pipeline)
        requires
            limit > 0,
            batch_size > 0,
        ensures
            pipeline.wf(),
            pipeline@ == (PipelineView {
                phase: Phase::Idle,
                strict,
                batch_size: batch_size as nat,
                limit: limit as nat,
                batches: Seq::empty(),
                entry_errors: Seq::empty(),
                units: Seq::empty(),
                stopped_by: None,
                cancelled: false,
            }),
    {
        let coordinator = Coordinator::new(0, limit);
        let batches: Vec<Vec<WhoIsRecord>> = Vec::new();
        assert(batches.deep_view() =~= Seq::<Seq<RecordView>>::empty());
        assert(coordinator.units() =~= Seq::<UnitState>::empty());
        Pipeline {
            cancelled: false,
            phase: Phase::Idle,
            strict,
            batch_size,
            limit,
            batches,
            entry_errors: Vec::new(),
            coordinator,
            stopped_by: None,
        }
    }

    /// Where the run stands.
    pub fn phase(&self) -> (phase: Phase)
        ensures
            phase == self@.phase,
    {
        self.phase
    }

    /// Begins the run: the caller is to list the inputs next. A run can
    /// begin once; the answer tells whether it did now.
    pub fn begin(&mut self) -> (began: bool)
        requires
            old(self).wf(),
        ensures
            final(self).wf(),
            final(self)@ == begun(old(self)@),
            began == (old(self)@.phase == Phase::Idle),
    {
        match self.phase {
            Phase::Idle => {
                self.phase = Phase::Enumerating;
                true
            },
            _ => false,
        }
    }

    /// Takes the listing of the inputs, or the failure to list them, and
    /// parses and batches every input that was read. The answer tells
    /// whether the run was waiting for the listing.
    pub fn enumerated(&mut self, outcome: Result<Vec<Result<SourceEntry, Error>>, Error>) -> (taken:
        bool)
        requires
            old(self).wf(),
        ensures
            final(self).wf(),
            final(self)@ == listed(
                old(self)@,
                match outcome {
                    Ok(listing) => Ok(texts_of(listing@)),
                    Err(e) => Err(e),
                },
            ),
            taken == (old(self)@.phase == Phase::Enumerating),
    {
        match self.phase {
            Phase::Enumerating => {},
            _ => {
                return false;
            },
        }
        let listing = match outcome {
            Ok(listing) => listing,
            Err(e) => {
                self.phase = Phase::Failed;
                self.stopped_by = Some(e);
                return true;
            },
        };
        let ghost texts = texts_of(listing@);
        let ghost size = self.batch_size as nat;
        let mut batches: Vec<Vec<WhoIsRecord>> = Vec::new();
        let mut errors: Vec<(usize, Error)> = Vec::new();
        let mut i: usize = 0;
        assert(texts.take(0) =~= Seq::<Result<Seq<char>, Error>>::empty());
        assert(batches.deep_view() =~= Seq::<Seq<RecordView>>::empty());
        while i < listing.len()
            invariant
                i <= listing.len(),
                size == self.batch_size,
                size > 0,
                self.limit > 0,
                texts == texts_of(listing@),
                batches.deep_view() == plan_of(texts.take(i as int), size).batches,
                errors@ == plan_of(texts.take(i as int), size).errors,
            decreases listing.len() - i,
        {
            proof {
                assert(texts.take(i + 1).drop_last() =~= texts.take(i as int));
                assert(texts.take(i + 1).last() == texts[i as int]);
            }
            let parsed = match &listing[i] {
                Ok(entry) => WhoIsRecord::from_buffer(entry.content.as_str()),
                Err(e) => Err(*e),
            };
            match parsed {
                Ok(records) => {
                    let ghost parsed = records.deep_view();
                    let ghost whole = records;
                    let mut more = split_batches(records, self.batch_size);
                    proof {
                        lemma_batches_deep_view(whole, more, size);
                    }
                    let ghost before = batches.deep_view();
                    let ghost added = more.deep_view();
                    batches.append(&mut more);
                    assert(batches.deep_view() =~= before + added);
                },
                Err(e) => {
                    errors.push((i, e));
                },
            }
            i += 1;
        }
        assert(texts.take(i as int) =~= texts);
        self.coordinator = Coordinator::new(batches.len(), self.limit);
        if self.cancelled {
            self.coordinator.stop();
        }
        proof {
            let units = self.coordinator.units();
            if units.len() > 0 {
                assert(units[0] is Pending);
            }
        }
        self.phase = if batches.len() == 0 || self.cancelled {
            Phase::Done
        } else {
            Phase::Upserting
        };
        self.batches = batches;
        self.entry_errors = errors;
        true
    }

    /// Starts the next batch, if one is left and the limit allows it. The
    /// batches start in the order of their numbers.
    pub fn start_next(&mut self) -> (unit: Option<usize>)
        requires
            old(self).wf(),
        ensures
            final(self).wf(),
            unit is Some <==> old(self)@.phase == Phase::Upserting && !old(self)@.cancelled
                && running_count(old(self)@.units) < old(self)@.limit && some_pending(old(self)@.units),
            match unit {
                Some(u) => first_pending(old(self)@.units, u as int) && final(self)@ == (PipelineView {
                    units: old(self)@.units.update(u as int, UnitState::Running),
                    ..old(self)@
                }),
                None => final(self)@ == old(self)@,
            },
            final(self)@ == started(old(self)@),
    {
        match self.phase {
            Phase::Upserting => {},
            _ => {
                return None;
            },
        }
        let unit = self.coordinator.start_next();
        proof {
            match unit {
                Some(u) => {
                    lemma_running_count_update(old(self).coordinator.units(), u as int, UnitState::Running);
                    lemma_next_pending(old(self).coordinator.units(), u as int);
                },
                None => {},
            }
        }
        unit
    }

    /// The records of batch `unit`, if there is such a batch.
    pub fn batch(&self, unit: usize) -> (records: Option<&Vec<WhoIsRecord>>)
        ensures
            match records {
                Some(batch) => unit < self@.batches.len() && batch.deep_view() == self@.batches[unit as int],
                None => unit >= self@.batches.len(),
            },
    {
        if unit < self.batches.len() {
            Some(&self.batches[unit])
        } else {
            None
        }
    }

    /// What committing batch `unit` asks of the store, if there is such a
    /// batch: the filter for the documents to delete and the documents to
    /// insert, one for each domain name of the batch.
    pub fn plan(&self, unit: usize) -> (plan: Option<UpsertPlan>)
        ensures
            match plan {
                Some(plan) => unit < self@.batches.len() && plan.shows(
                    plan_for(self@.batches[unit as int]),
                ),
                None => unit >= self@.batches.len(),
            },
    {
        if unit < self.batches.len() {
            Some(upsert(&self.batches[unit]))
        } else {
            None
        }
    }

    /// Records how the commit of batch `unit` ended. The answer tells
    /// whether that batch was in flight; if it was not, nothing changes.
    pub fn batch_done(&mut self, unit: usize, outcome: Result<(), Error>) -> (recorded: bool)
        requires
            old(self).wf(),
        ensures
            final(self).wf(),
            final(self)@ == committed(old(self)@, unit as int, outcome),
            recorded == (old(self)@.phase == Phase::Upserting && unit < old(self)@.units.len() && old(
                self,
            )@.units[unit as int] is Running),
    {
        match self.phase {
            Phase::Upserting => {},
            _ => {
                return false;
            },
        }
        let recorded = self.coordinator.complete(unit, outcome);
        if recorded {
            if self.coordinator.is_done() {
                self.phase = Phase::Done;
            }
        }
        recorded
    }

    /// Cancels the run: no further batch starts, and the batches in flight
    /// end as they would. The answer tells whether the run could still be
    /// cancelled, which it cannot once it is done or has failed.
    pub fn cancel(&mut self) -> (stopped: bool)
        requires
            old(self).wf(),
        ensures
            final(self).wf(),
            final(self)@ == cancelled(old(self)@),
            stopped == (old(self)@.phase != Phase::Done && old(self)@.phase != Phase::Failed),
    {
        match self.phase {
            Phase::Done => {
                return false;
            },
            Phase::Failed => {
                return false;
            },
            _ => {},
        }
        self.cancelled = true;
        self.coordinator.stop();
        match self.phase {
            Phase::Upserting => {
                if self.coordinator.running() == 0 {
                    self.phase = Phase::Done;
                }
            },
            _ => {},
        }
        true
    }

    /// How the run ended, or how far it is.
    pub fn report(&self) -> (report: RunReport)
        requires
            self.wf(),
        ensures
            report.phase == self@.phase,
            report.batches == self@.batches.len(),
            report.committed == succeeded_count(self@.units),
            report.ingested == (if ingested_count(self@.batches, self@.units) <= usize::MAX {
                ingested_count(self@.batches, self@.units)
            } else {
                usize::MAX as nat
            }),
            report.failures@ == all_failures(self@),
            report.cancelled == self@.cancelled,
            report.succeeded == has_succeeded(self@),
    {
        let mut list: Vec<Failure> = Vec::new();
        match self.stopped_by {
            Some(e) => {
                list.push(Failure { origin: Origin::Enumeration, error: e });
            },
            None => {},
        }
        let ghost head = list@;
        let mut i: usize = 0;
        while i < self.entry_errors.len()
            invariant
                i <= self.entry_errors.len(),
                list@ == head + Seq::new(
                    i as nat,
                    |k: int|
                        Failure {
                            origin: Origin::Entry(self.entry_errors@[k].0),
                            error: self.entry_errors@[k].1,
                        },
                ),
            decreases self.entry_errors.len() - i,
        {
            let (entry, error) = self.entry_errors[i];
            list.push(Failure { origin: Origin::Entry(entry), error });
            i += 1;
        }
        let ghost middle = list@;
        let failed = self.coordinator.errors();
        let mut k: usize = 0;
        while k < failed.len()
            invariant
                k <= failed.len(),
                list@ == middle + Seq::new(
                    k as nat,
                    |j: int| Failure { origin: Origin::Batch(failed@[j].0), error: failed@[j].1 },
                ),
            decreases failed.len() - k,
        {
            let (unit, error) = failed[k];
            list.push(Failure { origin: Origin::Batch(unit), error });
            k += 1;
        }
        assert(list@ =~= all_failures(self@));
        let succeeded = match self.phase {
            Phase::Done => !self.cancelled && (!self.strict || list.len() == 0),
            _ => false,
        };
        let ghost all = self.batches.deep_view();
        let ghost units = self.coordinator.units();
        let mut ingested: usize = 0;
        let mut b: usize = 0;
        assert(all.take(0) =~= Seq::<Seq<RecordView>>::empty());
        while b < self.batches.len()
            invariant
                b <= self.batches.len(),
                all == self.batches.deep_view(),
                units == self.coordinator.units(),
                units.len() == all.len(),
                ingested == (if ingested_count(all.take(b as int), units) <= usize::MAX {
                    ingested_count(all.take(b as int), units)
                } else {
                    usize::MAX as nat
                }),
            decreases self.batches.len() - b,
        {
            proof {
                assert(all.take(b + 1).drop_last() =~= all.take(b as int));
                assert(all.take(b + 1).last() == self.batches[b as int].deep_view());
                assert(self.batches[b as int].deep_view().len() == self.batches[b as int].len());
            }
            match self.coordinator.state(b) {
                Some(UnitState::Succeeded) => {
                    ingested = ingested.saturating_add(self.batches[b].len());
                },
                _ => {},
            }
            b += 1;
        }
        assert(all.take(b as int) =~= all);
        RunReport {
            phase: self.phase,
            batches: self.batches.len(),
            committed: self.coordinator.succeeded(),
            ingested,
            failures: list,
            cancelled: self.cancelled,
            succeeded,
        }
    }
}

} // verus!
