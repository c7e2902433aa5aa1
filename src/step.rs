//! A whole step: order the components, schedule each one, and swap the
//! nozzles back at the end.

use vstd::prelude::*;

use crate::change::NozzleChange;
use crate::config::{lemma_replay_concat, replay, NozzleConfig, PlanError};
use crate::machine::{Head, Nozzle};
use crate::order::{is_processing_order, lemma_processing_order_unique, processing_order, SortKey};
use crate::planner::{
    finalize_model, initial_state, lemma_change_bound, lemma_finalize_restores, lemma_plan_index,
    lemma_plan_keeps_exclusive, plan_model, Planner, PlannerAction, PlannerState,
};
use crate::spans::{lemma_last_use_bounds, lemma_required_len, required};

verus! {

/// Scheduling one component that needs `n`: one decision, and where it was
/// a nozzle change, a second one for the same component.
pub open spec fn place_model(s: PlannerState, n: Nozzle) -> (PlannerState, Result<
    (Head, Seq<NozzleChange>),
    PlanError,
>) {
    let (s1, r1) = plan_model(s, n);
    match r1 {
        Err(e) => (s1, Err(e)),
        Ok(PlannerAction::Head(h)) => (s1, Ok((h, Seq::empty()))),
        Ok(PlannerAction::NozzleChange(c)) => {
            let (s2, r2) = plan_model(s1, n);
            match r2 {
                Ok(PlannerAction::Head(h)) => (s2, Ok((h, seq![c]))),
                Ok(PlannerAction::NozzleChange(_)) => (s2, Err(PlanError::NozzleUnavailable(n))),
                Err(e) => (s2, Err(e)),
            }
        },
    }
}

/// The planner state after the components `nozzles`, in order, and the
/// head number given to each: 1 or 2, or 0 for a component that needs no
/// nozzle.
pub open spec fn run(s: PlannerState, nozzles: Seq<Option<Nozzle>>) -> Result<
    (PlannerState, Seq<u8>),
    PlanError,
>
    decreases nozzles.len(),
{
    if nozzles.len() == 0 {
        Ok((s, Seq::empty()))
    } else {
        match run(s, nozzles.drop_last()) {
            Err(e) => Err(e),
            Ok((s1, heads)) => match nozzles.last() {
                None => Ok((s1, heads.push(0))),
                Some(n) => match place_model(s1, n).1 {
                    Ok((h, _)) => Ok((place_model(s1, n).0, heads.push(h.spec_number()))),
                    Err(e) => Err(e),
                },
            },
        }
    }
}

/// The outcome of a step over the ordered components `nozzles`: each
/// component's head number, and the forward changes followed by the swaps
/// back.
pub open spec fn schedule_model(config: NozzleConfig, nozzles: Seq<Option<Nozzle>>) -> Result<
    (Seq<u8>, Seq<NozzleChange>),
    PlanError,
> {
    if !config.wf() {
        Err(PlanError::DuplicateNozzle)
    } else {
        match run(initial_state(config, nozzles), nozzles) {
            Err(e) => Err(e),
            Ok((s, heads)) => match finalize_model(s) {
                Err(e) => Err(e),
                Ok(back) => Ok((heads, s.history + back)),
            },
        }
    }
}

/// A scheduled step.
#[derive(Debug)]
pub struct Schedule {
    /// Head number of each component, in processing order: 1 or 2, or 0
    /// where the component needs no nozzle.
    pub heads: Vec<u8>,
    /// The nozzle changes, forward ones first, then the swaps back.
    pub changes: Vec<NozzleChange>,
    /// Whether an inert component must follow the last one, to anchor the
    /// swaps back.
    pub placeholder: bool,
}

pub proof fn lemma_required_prefix(s: Seq<Option<Nozzle>>, k: int)
    requires
        0 <= k <= s.len(),
    ensures
        required(s.take(k)).len() <= required(s).len(),
        required(s).take(required(s.take(k)).len() as int) == required(s.take(k)),
    decreases s.len(),
{
    if k == s.len() {
        assert(s.take(k) =~= s);
        assert(required(s).take(required(s).len() as int) =~= required(s));
    } else {
        let p = s.drop_last();
        assert(s.take(k) =~= p.take(k));
        lemma_required_prefix(p, k);
        let a = required(p.take(k));
        assert(required(s).take(a.len() as int) =~= required(p).take(a.len() as int));
    }
}

proof fn lemma_run_err_extends(s: PlannerState, nozzles: Seq<Option<Nozzle>>, k: int, e: PlanError)
    requires
        0 <= k <= nozzles.len(),
        run(s, nozzles.take(k)) == Err::<(PlannerState, Seq<u8>), PlanError>(e),
    ensures
        run(s, nozzles) == Err::<(PlannerState, Seq<u8>), PlanError>(e),
    decreases nozzles.len() - k,
{
    if k == nozzles.len() {
        assert(nozzles.take(k) =~= nozzles);
    } else {
        assert(nozzles.take(k + 1).drop_last() =~= nozzles.take(k));
        lemma_run_err_extends(s, nozzles, k + 1, e);
    }
}

/// Schedules a step over components already in processing order, given
/// the nozzle each one requires.
pub fn schedule_step(config: NozzleConfig, nozzles: &Vec<Option<Nozzle>>) -> (r: Result<
    Schedule,
    PlanError,
>)
    requires
        nozzles@.len() < usize::MAX,
    ensures
        match (r, schedule_model(config, nozzles@)) {
            (Ok(p), Ok((heads, changes))) => {
                &&& p.heads@ == heads
                &&& p.changes@ == changes
                &&& p.placeholder == (changes.len() > 0)
            },
            (Err(e), Err(f)) => e == f,
            _ => false,
        },
{
    if !config.is_consistent() {
        return Err(PlanError::DuplicateNozzle);
    }
    let ghost s0 = initial_state(config, nozzles@);
    let ghost all = required(nozzles@);
    let mut planner = Planner::new(config, nozzles);
    let mut heads: Vec<u8> = Vec::new();
    let mut forward: Vec<NozzleChange> = Vec::new();
    let mut k: usize = 0;
    while k < nozzles.len()
        invariant
            k <= nozzles@.len() < usize::MAX,
            config.wf(),
            planner.wf(),
            planner@.spans == s0.spans,
            s0 == initial_state(config, nozzles@),
            all == required(nozzles@),
            s0.spans == crate::spans::span_map(all),
            planner@.index == 1 + required(nozzles@.take(k as int)).len(),
            run(s0, nozzles@.take(k as int)) == Ok::<(PlannerState, Seq<u8>), PlanError>(
                (planner@, heads@),
            ),
            forward@ == planner@.history,
        decreases nozzles@.len() - k,
    {
        let ghost pre = planner@;
        proof {
            assert(nozzles@.take(k + 1).drop_last() =~= nozzles@.take(k as int));
            lemma_required_len(nozzles@.take(k as int));
        }
        match nozzles[k] {
            None => {
                heads.push(0);
            },
            Some(n) => {
                proof {
                    lemma_required_prefix(nozzles@, k + 1);
                    let done = required(nozzles@.take(k as int));
                    assert(required(nozzles@.take(k + 1)) == done.push(n));
                    assert(all[done.len() as int] == n) by {
                        assert(all.take(done.len() + 1 as int)[done.len() as int] == n);
                    }
                    lemma_last_use_bounds(all, n);
                }
                match planner.plan(n) {
                    Err(e) => {
                        proof {
                            lemma_run_err_extends(s0, nozzles@, k + 1, e);
                        }
                        return Err(e);
                    },
                    Ok(PlannerAction::Head(h)) => {
                        heads.push(h.number());
                    },
                    Ok(PlannerAction::NozzleChange(c)) => {
                        forward.push(c);
                        match planner.plan(n) {
                            Ok(PlannerAction::Head(h)) => {
                                heads.push(h.number());
                            },
                            Ok(PlannerAction::NozzleChange(_)) => {
                                proof {
                                    lemma_run_err_extends(
                                        s0,
                                        nozzles@,
                                        k + 1,
                                        PlanError::NozzleUnavailable(n),
                                    );
                                }
                                return Err(PlanError::NozzleUnavailable(n));
                            },
                            Err(e) => {
                                proof {
                                    lemma_run_err_extends(s0, nozzles@, k + 1, e);
                                }
                                return Err(e);
                            },
                        }
                    },
                }
            },
        }
        k += 1;
    }
    proof {
        assert(nozzles@.take(nozzles@.len() as int) =~= nozzles@);
    }
    let back = match planner.finalize() {
        Ok(back) => back,
        Err(e) => {
            return Err(e);
        },
    };
    let placeholder = back.len() > 0;
    let mut changes = forward;
    let mut i: usize = 0;
    let ghost fwd = changes@;
    while i < back.len()
        invariant
            i <= back@.len(),
            changes@ == fwd + back@.take(i as int),
        decreases back@.len() - i,
    {
        changes.push(back[i]);
        i += 1;
        assert(changes@ =~= fwd + back@.take(i as int));
    }
    assert(back@.take(back@.len() as int) =~= back@);
    Ok(Schedule { heads, changes, placeholder })
}

/// Over any run of components, every state the planner passes through
/// keeps each nozzle in at most one place (the lemma holds for every prefix
/// of `nozzles`), and the component index grows by exactly one for each
/// component that needs a nozzle; components that need none get head 0 and
/// leave the planner as it was.
pub proof fn lemma_run_invariants(s: PlannerState, nozzles: Seq<Option<Nozzle>>)
    requires
        s.wf(),
        s.index + nozzles.len() <= usize::MAX,
    ensures
        run(s, nozzles) matches Ok((t, heads)) ==> {
            &&& t.wf()
            &&& t.config.exclusive()
            &&& t.initial == s.initial
            &&& t.spans == s.spans
            &&& t.index == s.index + required(nozzles).len()
            &&& heads.len() == nozzles.len()
            &&& forall|i: int| 0 <= i < nozzles.len() ==> (#[trigger] heads[i] == 0 <==> nozzles[i] is None)
        },
    decreases nozzles.len(),
{
    if nozzles.len() > 0 {
        let p = nozzles.drop_last();
        lemma_run_invariants(s, p);
        lemma_required_len(p);
        if let Ok((s1, h1)) = run(s, p) {
            if let Some(n) = nozzles.last() {
                lemma_plan_keeps_exclusive(s1, n);
                lemma_plan_index(s1, n);
                if plan_model(s1, n).1 matches Ok(PlannerAction::NozzleChange(_)) {
                    let s2 = plan_model(s1, n).0;
                    lemma_plan_keeps_exclusive(s2, n);
                    lemma_plan_index(s2, n);
                }
            }
            if let Ok((t, heads)) = run(s, nozzles) {
                assert forall|i: int| 0 <= i < nozzles.len() implies (#[trigger] heads[i] == 0
                    <==> nozzles[i] is None) by {
                    if i < p.len() {
                        assert(heads[i] == h1[i]);
                        assert(nozzles[i] == p[i]);
                    }
                }
            }
        }
    }
}

/// Performing all of a step's changes, forward ones and swaps back, returns
/// the machine to the configured state.
pub proof fn lemma_step_restores(config: NozzleConfig, nozzles: Seq<Option<Nozzle>>)
    requires
        nozzles.len() < usize::MAX,
    ensures
        schedule_model(config, nozzles) matches Ok((_, changes)) ==> replay(config, changes)
            == config,
{
    if config.wf() {
        let s0 = initial_state(config, nozzles);
        assert(s0.history =~= Seq::<NozzleChange>::empty());
        lemma_run_invariants(s0, nozzles);
        if let Ok((t, _)) = run(s0, nozzles) {
            lemma_finalize_restores(t);
            if let Ok(back) = finalize_model(t) {
                lemma_replay_concat(config, t.history, back);
            }
        }
    }
}

/// A scheduled step has at most four changes in all, swaps back included.
pub proof fn lemma_step_change_bound(config: NozzleConfig, nozzles: Seq<Option<Nozzle>>)
    ensures
        schedule_model(config, nozzles) matches Ok((_, changes)) ==> changes.len() <= 4,
{
    if config.wf() {
        if let Ok((t, _)) = run(initial_state(config, nozzles), nozzles) {
            lemma_change_bound(t);
        }
    }
}

/// 1 where `t` is a nozzle the step still needs at the current index.
pub open spec fn live(s: PlannerState, t: Option<Nozzle>) -> nat {
    match t {
        Some(n) => if s.spans.contains_key(n) && s.spans[n] >= s.index {
            1
        } else {
            0
        },
        None => 0,
    }
}

/// How many rack stations hold a nozzle the step still needs.
pub open spec fn live_racked(s: PlannerState) -> nat {
    live(s, s.config.station1) + live(s, s.config.station2) + live(s, s.config.station3)
}

proof fn lemma_plan_budget(s: PlannerState, n: Nozzle)
    requires
        s.wf(),
        s.index < usize::MAX,
        s.spans.contains_key(n),
        s.spans[n] >= s.index,
    ensures
        plan_model(s, n).0.history.len() + live_racked(plan_model(s, n).0) <= s.history.len()
            + live_racked(s),
{
}

proof fn lemma_run_budget(config: NozzleConfig, nozzles: Seq<Option<Nozzle>>, k: int)
    requires
        config.wf(),
        nozzles.len() < usize::MAX,
        0 <= k <= nozzles.len(),
    ensures
        run(initial_state(config, nozzles), nozzles.take(k)) matches Ok((t, _)) ==> t.history.len()
            + live_racked(t) <= 2,
    decreases k,
{
    let s0 = initial_state(config, nozzles);
    assert(s0.history =~= Seq::<NozzleChange>::empty());
    if k > 0 {
        lemma_run_budget(config, nozzles, k - 1);
        let pre = nozzles.take(k - 1);
        assert(nozzles.take(k).drop_last() =~= pre);
        lemma_run_invariants(s0, pre);
        lemma_required_len(pre);
        if let Ok((t, _)) = run(s0, pre) {
            if let Some(n) = nozzles[k - 1] {
                let all = required(nozzles);
                lemma_required_prefix(nozzles, k);
                let done = required(pre);
                assert(required(nozzles.take(k)) == done.push(n));
                assert(all[done.len() as int] == n) by {
                    assert(all.take(done.len() + 1 as int)[done.len() as int] == n);
                }
                lemma_last_use_bounds(all, n);
                lemma_plan_budget(t, n);
                lemma_plan_keeps_exclusive(t, n);
                lemma_plan_index(t, n);
                if plan_model(t, n).1 matches Ok(PlannerAction::NozzleChange(_)) {
                    lemma_plan_budget(plan_model(t, n).0, n);
                }
            }
        }
    } else {
        assert(nozzles.take(0) =~= Seq::<Option<Nozzle>>::empty());
    }
}

proof fn lemma_run_error_kind(s: PlannerState, nozzles: Seq<Option<Nozzle>>)
    ensures
        run(s, nozzles) matches Err(e) ==> e is NozzleUnavailable,
    decreases nozzles.len(),
{
    if nozzles.len() > 0 {
        lemma_run_error_kind(s, nozzles.drop_last());
    }
}

/// With the span table of its own components, a step only ever picks up
/// nozzles that started in the rack, each at most once: it makes at most
/// two forward changes, so it never fails for lack of rack capacity.
pub proof fn lemma_step_within_capacity(config: NozzleConfig, nozzles: Seq<Option<Nozzle>>)
    requires
        nozzles.len() < usize::MAX,
    ensures
        config.wf() ==> (run(initial_state(config, nozzles), nozzles) matches Ok((t, _))
            ==> t.history.len() <= 2),
        !(schedule_model(config, nozzles) matches Err(PlanError::TooManyNozzleChanges(_))),
{
    if config.wf() {
        lemma_run_budget(config, nozzles, nozzles.len() as int);
        assert(nozzles.take(nozzles.len() as int) =~= nozzles);
        lemma_run_error_kind(initial_state(config, nozzles), nozzles);
    }
}

/// The required nozzles of `keys`, taken in the order `order`.
pub open spec fn reordered(keys: Seq<SortKey>, order: Seq<usize>) -> Seq<Option<Nozzle>> {
    Seq::new(order.len(), |i: int| keys[order[i] as int].nozzle)
}

/// A step planned from scratch.
#[derive(Debug)]
pub struct StepPlan {
    /// Input positions of the components, in processing order.
    pub order: Vec<usize>,
    /// The schedule over the components in that order.
    pub schedule: Schedule,
}

/// Orders a step's components and schedules them from `config`.
pub fn assign_nozzles(config: NozzleConfig, keys: &Vec<SortKey>) -> (r: Result<StepPlan, PlanError>)
    requires
        keys@.len() < usize::MAX,
    ensures
        match r {
            Ok(p) => {
                &&& is_processing_order(config, keys@, p.order@)
                &&& schedule_model(config, reordered(keys@, p.order@)) == Ok::<
                    (Seq<u8>, Seq<NozzleChange>),
                    PlanError,
                >((p.schedule.heads@, p.schedule.changes@))
                &&& p.schedule.placeholder == (p.schedule.changes@.len() > 0)
            },
            Err(e) => forall|o: Seq<usize>|
                is_processing_order(config, keys@, o) ==> schedule_model(config, reordered(keys@, o))
                    == Err::<(Seq<u8>, Seq<NozzleChange>), PlanError>(e),
        },
{
    let order = processing_order(&config, keys);
    let mut nozzles: Vec<Option<Nozzle>> = Vec::new();
    let mut i: usize = 0;
    while i < order.len()
        invariant
            i <= order@.len(),
            is_processing_order(config, keys@, order@),
            nozzles@ == reordered(keys@, order@).take(i as int),
        decreases order@.len() - i,
    {
        nozzles.push(keys[order[i]].nozzle);
        i += 1;
        assert(nozzles@ =~= reordered(keys@, order@).take(i as int));
    }
    assert(nozzles@ =~= reordered(keys@, order@));
    match schedule_step(config, &nozzles) {
        Ok(schedule) => Ok(StepPlan { order, schedule }),
        Err(e) => {
            proof {
                assert forall|o: Seq<usize>| is_processing_order(config, keys@, o) implies schedule_model(
                    config,
                    reordered(keys@, o),
                ) == Err::<(Seq<u8>, Seq<NozzleChange>), PlanError>(e) by {
                    lemma_processing_order_unique(config, keys@, o, order@);
                }
            }
            Err(e)
        },
    }
}

} // verus!
