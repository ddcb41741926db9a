//! Running independent units of work under a bound on how many run at once.
//!
//! The coordinator decides; its caller does the work. The caller asks for
//! the next unit to start until there is none, starts what it was given,
//! reports each unit that completes, and asks again. The run is over when
//! every unit has completed, whatever the outcome of each. A run that is
//! stopped starts no further unit and is over when the units in flight have
//! completed.

use crate::error::Error;
use vstd::prelude::*;

verus! {

/// Where one unit of work stands.
#[derive(Clone, Copy, Debug, PartialEq, Eq, Structural)]
pub enum UnitState {
    /// Not started yet.
    Pending,
    /// Started, and not completed yet.
    Running,
    /// Completed without failure.
    Succeeded,
    /// Completed with this failure.
    Failed(Error),
}

/// The state in which a unit completes with `outcome`.
pub open spec fn completed(outcome: Result<(), Error>) -> UnitState {
    match outcome {
        Ok(_) => UnitState::Succeeded,
        Err(e) => UnitState::Failed(e),
    }
}

/// Whether the unit has completed, with or without failure.
pub open spec fn is_over(state: UnitState) -> bool {
    state is Succeeded || state is Failed
}

/// The number of units that are running.
pub open spec fn running_count(units: Seq<UnitState>) -> nat
    decreases units.len(),
{
    if units.len() == 0 {
        0
    } else {
        running_count(units.drop_last()) + if units.last() is Running {
            1nat
        } else {
            0nat
        }
    }
}

/// The number of units that have completed without failure.
pub open spec fn succeeded_count(units: Seq<UnitState>) -> nat
    decreases units.len(),
{
    if units.len() == 0 {
        0
    } else {
        succeeded_count(units.drop_last()) + if units.last() is Succeeded {
            1nat
        } else {
            0nat
        }
    }
}

/// The failures of the units that have failed, each with the number of its
/// unit, in the order of the units.
pub open spec fn failures(units: Seq<UnitState>) -> Seq<(usize, Error)>
    decreases units.len(),
{
    if units.len() == 0 {
        Seq::empty()
    } else {
        match units.last() {
            UnitState::Failed(e) => failures(units.drop_last()).push(((units.len() - 1) as usize, e)),
            _ => failures(units.drop_last()),
        }
    }
}

/// The number of entries of `list` that are about `unit`.
pub open spec fn entries_about(list: Seq<(usize, Error)>, unit: int) -> nat
    decreases list.len(),
{
    if list.len() == 0 {
        0
    } else {
        entries_about(list.drop_last(), unit) + if list.last().0 == unit {
            1nat
        } else {
            0nat
        }
    }
}

/// Whether some unit has not been started.
pub open spec fn some_pending(units: Seq<UnitState>) -> bool {
    exists|i: int| 0 <= i < units.len() && #[trigger] units[i] is Pending
}

/// Whether `unit` is the first unit that has not been started.
pub open spec fn first_pending(units: Seq<UnitState>, unit: int) -> bool {
    &&& 0 <= unit < units.len()
    &&& units[unit] is Pending
    &&& forall|i: int| 0 <= i < unit ==> !(#[trigger] units[i] is Pending)
}

/// Whether every unit has completed.
pub open spec fn all_over(units: Seq<UnitState>) -> bool {
    forall|i: int| 0 <= i < units.len() ==> is_over(#[trigger] units[i])
}

/// Whether the run is over: no unit is running, and none is left to start
/// or the run was stopped.
pub open spec fn finished(units: Seq<UnitState>, stopped: bool) -> bool {
    running_count(units) == 0 && (stopped || !some_pending(units))
}

/// Changing the state of one unit changes the number of running units by
/// what that unit adds or takes away.
pub proof fn lemma_running_count_update(units: Seq<UnitState>, unit: int, state: UnitState)
    requires
        0 <= unit < units.len(),
    ensures
        running_count(units.update(unit, state)) + (if units[unit] is Running {
            1nat
        } else {
            0nat
        }) == running_count(units) + (if state is Running {
            1nat
        } else {
            0nat
        }),
    decreases units.len(),
{
    let changed = units.update(unit, state);
    if unit == units.len() - 1 {
        assert(changed.drop_last() =~= units.drop_last());
    } else {
        assert(changed.drop_last() =~= units.drop_last().update(unit, state));
        lemma_running_count_update(units.drop_last(), unit, state);
    }
}

/// Where no unit is counted as running, none is.
pub proof fn lemma_none_running(units: Seq<UnitState>)
    requires
        running_count(units) == 0,
    ensures
        forall|i: int| 0 <= i < units.len() ==> !(#[trigger] units[i] is Running),
    decreases units.len(),
{
    if units.len() > 0 {
        let init = units.drop_last();
        lemma_none_running(init);
        assert(forall|i: int| 0 <= i < init.len() ==> init[i] == units[i]);
    }
}

/// The list of failures holds exactly one entry for each unit that failed,
/// with its failure, and none for any other unit.
pub proof fn lemma_one_entry_for_each_failure(units: Seq<UnitState>, unit: int)
    requires
        0 <= unit < units.len(),
        units.len() <= usize::MAX,
    ensures
        entries_about(failures(units), unit) == (if units[unit] is Failed {
            1nat
        } else {
            0nat
        }),
        units[unit] matches UnitState::Failed(e) ==> failures(units).contains((unit as usize, e)),
        forall|k: int|
            0 <= k < failures(units).len() ==> 0 <= (#[trigger] failures(units)[k]).0 < units.len()
                && units[failures(units)[k].0 as int] == UnitState::Failed(failures(units)[k].1),
    decreases units.len(),
{
    let init = units.drop_last();
    let last = units.len() - 1;
    assert(forall|i: int| 0 <= i < init.len() ==> init[i] == units[i]);
    if unit < last {
        lemma_one_entry_for_each_failure(init, unit);
    } else {
        lemma_failures_stay_below(init, unit);
    }
    if last > 0 {
        lemma_one_entry_for_each_failure(init, 0);
    }
    match units.last() {
        UnitState::Failed(e) => {
            let list = failures(units);
            assert(list.drop_last() =~= failures(init));
            assert(list.last() == (last as usize, e));
            if unit < last {
                let found = units[unit];
                if found is Failed {
                    let k = choose|k: int|
                        0 <= k < failures(init).len() && failures(init)[k] == (unit as usize, found->0);
                    assert(list[k] == (unit as usize, found->0));
                }
            } else {
                assert(list[list.len() - 1] == (unit as usize, e));
            }
        },
        _ => {},
    }
}

/// No failure is listed for a unit beyond those that there are.
proof fn lemma_failures_stay_below(units: Seq<UnitState>, unit: int)
    requires
        units.len() <= unit,
    ensures
        entries_about(failures(units), unit) == 0,
        forall|k: int| 0 <= k < failures(units).len() ==> (#[trigger] failures(units)[k]).0 < units.len(),
    decreases units.len(),
{
    if units.len() > 0 {
        lemma_failures_stay_below(units.drop_last(), unit);
        match units.last() {
            UnitState::Failed(e) => {
                assert(failures(units).drop_last() =~= failures(units.drop_last()));
            },
            _ => {},
        }
    }
}

/// The decisions of a run of units under a bound on how many run at once.
pub struct Coordinator {
    limit: usize,
    states: Vec<UnitState>,
    started: usize,
    running: usize,
    stopped: bool,
}

impl Coordinator {
    /// Where each unit stands.
    pub closed spec fn units(&self) -> Seq<UnitState> {
        self.states@
    }

    /// The number of units that may run at once.
    pub closed spec fn limit(&self) -> nat {
        self.limit as nat
    }

    /// Whether the run was stopped.
    pub closed spec fn stopped(&self) -> bool {
        self.stopped
    }

    /// What holds of every coordinator between two calls: units are started
    /// in their order, and no more of them run than the limit allows.
    pub closed spec fn wf(&self) -> bool {
        &&& self.limit > 0
        &&& self.started <= self.states.len()
        &&& self.running == running_count(self.states@)
        &&& self.running <= self.limit
        &&& forall|i: int| 0 <= i < self.started ==> !(#[trigger] self.states@[i] is Pending)
        &&& forall|i: int| self.started <= i < self.states.len() ==> #[trigger] self.states@[i] is Pending
    }

    /// A coordinator for `units` units, none of them started, of which at
    /// most `limit` may run at once.
    pub fn new(units: usize, limit: usize) -> (coordinator: Coordinator)
        requires
            limit > 0,
        ensures
            coordinator.wf(),
            coordinator.limit() == limit,
            !coordinator.stopped(),
            coordinator.units() == Seq::new(units as nat, |i: int| UnitState::Pending),
            running_count(coordinator.units()) == 0,
    {
        let mut states: Vec<UnitState> = Vec::new();
        let mut i: usize = 0;
        while i < units
            invariant
                i <= units,
                states@ == Seq::new(i as nat, |k: int| UnitState::Pending),
                running_count(states@) == 0,
            decreases units - i,
        {
            let ghost before = states@;
            states.push(UnitState::Pending);
            assert(states@.drop_last() =~= before);
            assert(states@ =~= Seq::new((i + 1) as nat, |k: int| UnitState::Pending));
            i += 1;
        }
        Coordinator { limit, states, started: 0, running: 0, stopped: false }
    }

    /// The number of units.
    pub fn unit_count(&self) -> (count: usize)
        ensures
            count == self.units().len(),
    {
        self.states.len()
    }

    /// The number of units that may run at once.
    pub fn concurrency_limit(&self) -> (limit: usize)
        ensures
            limit == self.limit(),
    {
        self.limit
    }

    /// The number of units that are running. It never exceeds the limit.
    pub fn running(&self) -> (count: usize)
        requires
            self.wf(),
        ensures
            count == running_count(self.units()),
            count <= self.limit(),
    {
        self.running
    }

    /// Where unit `unit` stands, if there is such a unit.
    pub fn state(&self, unit: usize) -> (state: Option<UnitState>)
        ensures
            state == (if unit < self.units().len() {
                Some(self.units()[unit as int])
            } else {
                None
            }),
    {
        if unit < self.states.len() {
            Some(self.states[unit])
        } else {
            None
        }
    }

    /// Stops the run: no further unit starts. The units in flight are not
    /// touched and complete as they would.
    pub fn stop(&mut self)
        requires
            old(self).wf(),
        ensures
            final(self).wf(),
            final(self).limit() == old(self).limit(),
            final(self).units() == old(self).units(),
            final(self).stopped(),
    {
        self.stopped = true;
    }

    /// Whether the run was stopped.
    pub fn is_stopped(&self) -> (stopped: bool)
        ensures
            stopped == self.stopped(),
    {
        self.stopped
    }

    /// Starts the next unit, if one is left, the limit allows it and the
    /// run was not stopped: the first unit that has not been started is now
    /// running, and its number is returned. Otherwise nothing changes.
    pub fn start_next(&mut self) -> (unit: Option<usize>)
        requires
            old(self).wf(),
        ensures
            final(self).wf(),
            final(self).limit() == old(self).limit(),
            final(self).stopped() == old(self).stopped(),
            unit is Some <==> !old(self).stopped() && running_count(old(self).units()) < old(
                self,
            ).limit() && some_pending(old(self).units()),
            match unit {
                Some(u) => first_pending(old(self).units(), u as int) && final(self).units() == old(
                    self,
                ).units().update(u as int, UnitState::Running),
                None => final(self).units() == old(self).units(),
            },
    {
        if !self.stopped && self.running < self.limit && self.started < self.states.len() {
            let unit = self.started;
            proof {
                lemma_running_count_update(self.states@, unit as int, UnitState::Running);
                assert(self.states@[unit as int] is Pending);
            }
            self.states.set(unit, UnitState::Running);
            self.started = unit + 1;
            self.running = self.running + 1;
            Some(unit)
        } else {
            None
        }
    }

    /// Records that unit `unit` has completed with `outcome`. Only a unit
    /// that is running can complete: for any other, nothing changes and the
    /// answer is `false`. No other unit is touched, whatever the outcome.
    pub fn complete(&mut self, unit: usize, outcome: Result<(), Error>) -> (recorded: bool)
        requires
            old(self).wf(),
        ensures
            final(self).wf(),
            final(self).limit() == old(self).limit(),
            final(self).stopped() == old(self).stopped(),
            recorded == (unit < old(self).units().len() && old(self).units()[unit as int] is Running),
            recorded ==> final(self).units() == old(self).units().update(unit as int, completed(outcome)),
            !recorded ==> final(self).units() == old(self).units(),
    {
        if unit >= self.states.len() {
            return false;
        }
        match self.states[unit] {
            UnitState::Running => {},
            _ => {
                return false;
            },
        }
        let state = match outcome {
            Ok(_) => UnitState::Succeeded,
            Err(e) => UnitState::Failed(e),
        };
        proof {
            lemma_running_count_update(self.states@, unit as int, state);
        }
        self.states.set(unit, state);
        self.running = self.running - 1;
        true
    }

    /// Whether the run is over. In a run that was not stopped that is when
    /// every unit has completed. Until the run is over the caller has a
    /// unit to start or a running unit to wait for.
    pub fn is_done(&self) -> (done: bool)
        requires
            self.wf(),
        ensures
            done == finished(self.units(), self.stopped()),
            !self.stopped() ==> done == all_over(self.units()),
            !done ==> running_count(self.units()) > 0 || (!self.stopped() && some_pending(self.units())
                && running_count(self.units()) < self.limit()),
    {
        proof {
            lemma_finished_is_all_over(self.states@);
            if self.started < self.states.len() {
                assert(self.states@[self.started as int] is Pending);
            }
        }
        self.running == 0 && (self.stopped || self.started == self.states.len())
    }

    /// The number of units that have completed without failure.
    pub fn succeeded(&self) -> (count: usize)
        ensures
            count == succeeded_count(self.units()),
    {
        let mut count: usize = 0;
        let mut i: usize = 0;
        assert(self.states@.take(0) =~= Seq::<UnitState>::empty());
        while i < self.states.len()
            invariant
                i <= self.states.len(),
                count <= i,
                count == succeeded_count(self.states@.take(i as int)),
            decreases self.states.len() - i,
        {
            assert(self.states@.take(i + 1).drop_last() =~= self.states@.take(i as int));
            match self.states[i] {
                UnitState::Succeeded => {
                    count = count + 1;
                },
                _ => {},
            }
            i += 1;
        }
        assert(self.states@.take(i as int) =~= self.states@);
        count
    }

    /// The failures of the units that have failed, each with the number of
    /// its unit: exactly one entry for each such unit, in the order of the
    /// units.
    pub fn errors(&self) -> (list: Vec<(usize, Error)>)
        ensures
            list@ == failures(self.units()),
    {
        let mut list: Vec<(usize, Error)> = Vec::new();
        let mut i: usize = 0;
        assert(self.states@.take(0) =~= Seq::<UnitState>::empty());
        while i < self.states.len()
            invariant
                i <= self.states.len(),
                list@ == failures(self.states@.take(i as int)),
            decreases self.states.len() - i,
        {
            assert(self.states@.take(i + 1).drop_last() =~= self.states@.take(i as int));
            match self.states[i] {
                UnitState::Failed(e) => {
                    list.push((i, e));
                },
                _ => {},
            }
            i += 1;
        }
        assert(self.states@.take(i as int) =~= self.states@);
        list
    }
}

/// Where every unit has completed, none is running.
pub proof fn lemma_all_over_none_running(units: Seq<UnitState>)
    requires
        all_over(units),
    ensures
        running_count(units) == 0,
    decreases units.len(),
{
    if units.len() > 0 {
        let init = units.drop_last();
        assert(forall|i: int| 0 <= i < init.len() ==> init[i] == units[i]);
        assert(is_over(units[units.len() - 1]));
        lemma_all_over_none_running(init);
    }
}

/// A run that was not stopped is over exactly when every unit has
/// completed: the run returns only after all of them.
pub proof fn lemma_finished_is_all_over(units: Seq<UnitState>)
    ensures
        finished(units, false) == all_over(units),
{
    if all_over(units) {
        lemma_all_over_none_running(units);
        if some_pending(units) {
            let i = choose|i: int| 0 <= i < units.len() && #[trigger] units[i] is Pending;
            assert(is_over(units[i]));
        }
    }
    if finished(units, false) {
        lemma_none_running(units);
        assert forall|i: int| 0 <= i < units.len() implies is_over(#[trigger] units[i]) by {
            assert(!(units[i] is Pending));
        }
    }
}

/// A unit that fails does not touch the others: every other unit stands as
/// it did, the list of failures gains exactly one entry, which is for the
/// unit that failed, and holds for every other unit what it held.
pub proof fn lemma_failure_is_isolated(units: Seq<UnitState>, unit: int, error: Error, other: int)
    requires
        0 <= unit < units.len() <= usize::MAX,
        0 <= other < units.len(),
        other != unit,
        units[unit] is Running,
    ensures
        units.update(unit, UnitState::Failed(error))[other] == units[other],
        entries_about(failures(units.update(unit, UnitState::Failed(error))), unit) == 1,
        failures(units.update(unit, UnitState::Failed(error))).contains((unit as usize, error)),
        entries_about(failures(units.update(unit, UnitState::Failed(error))), other) == entries_about(
            failures(units),
            other,
        ),
{
    let after = units.update(unit, UnitState::Failed(error));
    lemma_one_entry_for_each_failure(after, unit);
    lemma_one_entry_for_each_failure(after, other);
    lemma_one_entry_for_each_failure(units, other);
}

} // verus!
