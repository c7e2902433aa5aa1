//! The greedy scheduler: one pass over the ordered components that assigns
//! each to a head and swaps nozzles where the current head's nozzle is no
//! longer needed.

use vstd::prelude::*;

use crate::change::NozzleChange;
use crate::config::{
    all_undoable, lemma_reversal_restores, replay, reversal, undoable, NozzleConfig, PlanError,
};
use crate::machine::{Head, Nozzle};
use crate::spans::{required, span_map, SpanTable};

verus! {

/// What one call of `Planner::plan` decided.
#[derive(Clone, Copy, Debug, PartialEq, Eq, Structural)]
pub enum PlannerAction {
    /// The component goes to this head.
    Head(Head),
    /// A nozzle swap was scheduled; ask again for the same component.
    NozzleChange(NozzleChange),
}

/// The planner as a mathematical value.
pub struct PlannerState {
    /// The tool-state now.
    pub config: NozzleConfig,
    /// The head tried first for the next component.
    pub head: Head,
    /// 1-based index of the next component among those that need a nozzle.
    pub index: nat,
    /// Last index at which each nozzle is needed.
    pub spans: Map<Nozzle, nat>,
    /// The tool-state the step started from.
    pub initial: NozzleConfig,
    /// The changes performed so far, in order.
    pub history: Seq<NozzleChange>,
}

impl PlannerState {
    /// Both tool-states are consistent, the current one is the start state
    /// with the history performed on it, and every change can be undone.
    pub open spec fn wf(self) -> bool {
        &&& self.config.wf()
        &&& self.initial.wf()
        &&& self.config == replay(self.initial, self.history)
        &&& all_undoable(self.initial, self.history)
        &&& 1 <= self.index <= usize::MAX
    }

    /// The nozzle on the current head is absent or not needed again.
    pub open spec fn expired(self) -> bool {
        match self.config.head_tool(self.head) {
            None => true,
            Some(t) => !self.spans.contains_key(t) || self.spans[t] < self.index,
        }
    }
}

/// The state a step starts in.
pub open spec fn initial_state(config: NozzleConfig, nozzles: Seq<Option<Nozzle>>) -> PlannerState {
    PlannerState {
        config,
        head: Head::Head1,
        index: 1,
        spans: span_map(required(nozzles)),
        initial: config,
        history: Seq::empty(),
    }
}

/// One planning decision for a component that needs `n`.
pub open spec fn plan_model(s: PlannerState, n: Nozzle) -> (PlannerState, Result<
    PlannerAction,
    PlanError,
>) {
    if s.expired() && s.config.station_of(n) is Some {
        let c = NozzleChange {
            enabled: true,
            before_component: s.index as usize,
            head: s.head,
            drop_station: s.config.first_free()->Some_0,
            pickup_station: s.config.station_of(n)->Some_0,
        };
        (
            PlannerState { config: s.config.apply(c), history: s.history.push(c), ..s },
            Ok(PlannerAction::NozzleChange(c)),
        )
    } else if s.config.head_tool(s.head) == Some(n) {
        (
            PlannerState { index: s.index + 1, head: s.head.spec_other(), ..s },
            Ok(PlannerAction::Head(s.head)),
        )
    } else if s.config.head_tool(s.head.spec_other()) == Some(n) {
        (PlannerState { index: s.index + 1, ..s }, Ok(PlannerAction::Head(s.head.spec_other())))
    } else {
        (s, Err(PlanError::NozzleUnavailable(n)))
    }
}

/// What finalizing a step in state `s` yields: the swaps back, or the
/// capacity error where forward and backward changes together exceed four.
pub open spec fn finalize_model(s: PlannerState) -> Result<Seq<NozzleChange>, PlanError> {
    if s.history.len() > 2 {
        Err(PlanError::TooManyNozzleChanges(s.history.len() as usize))
    } else {
        Ok(reversal(s.history, s.index as usize))
    }
}

/// Scheduler state for one step.
pub struct Planner {
    component_index: usize,
    head: Head,
    config: NozzleConfig,
    nozzle_spans: SpanTable,
    nozzle_history: Vec<NozzleChange>,
    initial: Ghost<NozzleConfig>,
}

impl View for Planner {
    type V = PlannerState;

    closed spec fn view(&self) -> PlannerState {
        PlannerState {
            config: self.config,
            head: self.head,
            index: self.component_index as nat,
            spans: self.nozzle_spans@,
            initial: self.initial@,
            history: self.nozzle_history@,
        }
    }
}

impl Planner {
    /// The planner's state is consistent and its span table complete.
    pub closed spec fn wf(&self) -> bool {
        self@.wf() && self.nozzle_spans.wf()
    }

    /// A planner for the components `nozzles` (each one's required nozzle,
    /// in processing order), starting from `config`.
    pub fn new(config: NozzleConfig, nozzles: &Vec<Option<Nozzle>>) -> (r: Planner)
        requires
            config.wf(),
        ensures
            r.wf(),
            r@ == initial_state(config, nozzles@),
    {
        let nozzle_spans = SpanTable::compute(nozzles);
        let r = Planner {
            config,
            nozzle_spans,
            component_index: 1,
            nozzle_history: Vec::new(),
            head: Head::Head1,
            initial: Ghost(config),
        };
        assert(r@.history =~= Seq::<NozzleChange>::empty());
        r
    }

    /// Decides for a component that needs `nozzle`: either a head for it,
    /// or a nozzle change after which the caller asks again.
    pub fn plan(&mut self, nozzle: Nozzle) -> (r: Result<PlannerAction, PlanError>)
        requires
            old(self).wf(),
            old(self)@.index < usize::MAX,
        ensures
            final(self).wf(),
            (final(self)@, r) == plan_model(old(self)@, nozzle),
    {
        let active_nozzle = self.config.get_head_nozzle(self.head);
        let nozzle_expired = match active_nozzle {
            None => true,
            Some(t) => match self.nozzle_spans.get(t) {
                None => true,
                Some(ttl) => ttl < self.component_index,
            },
        };
        if nozzle_expired && self.config.find_nozzle_station(nozzle).is_some() {
            let ghost before = self@;
            let nozzle_change = self.config.pickup_nozzle(self.head, nozzle, self.component_index);
            self.nozzle_history.push(nozzle_change);
            proof {
                assert(self@.history.drop_last() =~= before.history);
                assert(undoable(replay(before.initial, before.history), nozzle_change));
            }
            return Ok(PlannerAction::NozzleChange(nozzle_change));
        }
        let other = self.head.other();
        if same_nozzle(active_nozzle, nozzle) {
            let action = PlannerAction::Head(self.head);
            self.component_index += 1;
            self.head = other;
            Ok(action)
        } else if same_nozzle(self.config.get_head_nozzle(other), nozzle) {
            self.component_index += 1;
            Ok(PlannerAction::Head(other))
        } else {
            Err(PlanError::NozzleUnavailable(nozzle))
        }
    }

    /// Ends the step: the changes that put every nozzle back where the step
    /// found it, latest first, all before the position after the last
    /// component. Fails where the step's changes and their reversals
    /// together would exceed four.
    pub fn finalize(self) -> (r: Result<Vec<NozzleChange>, PlanError>)
        requires
            self.wf(),
        ensures
            match (r, finalize_model(self@)) {
                (Ok(v), Ok(w)) => v@ == w,
                (Err(e), Err(f)) => e == f,
                _ => false,
            },
    {
        let n = self.nozzle_history.len();
        if n > 2 {
            return Err(PlanError::TooManyNozzleChanges(n));
        }
        let mut back: Vec<NozzleChange> = Vec::new();
        let mut i: usize = n;
        while i > 0
            invariant
                i <= n,
                n == self.nozzle_history@.len(),
                back@ == reversal(self.nozzle_history@, self.component_index).take((n - i) as int),
            decreases i,
        {
            i -= 1;
            let c = self.nozzle_history[i];
            back.push(
                NozzleChange {
                    before_component: self.component_index,
                    pickup_station: c.drop_station,
                    drop_station: c.pickup_station,
                    ..c
                },
            );
            assert(back@ =~= reversal(self.nozzle_history@, self.component_index).take(
                (n - i) as int,
            ));
        }
        assert(back@ =~= reversal(self.nozzle_history@, self.component_index));
        Ok(back)
    }
}

/// Each planning decision keeps the planner consistent; in particular no
/// nozzle is ever in two places at once.
pub proof fn lemma_plan_keeps_exclusive(s: PlannerState, n: Nozzle)
    requires
        s.wf(),
        s.index < usize::MAX,
    ensures
        plan_model(s, n).0.wf(),
        plan_model(s, n).0.config.exclusive(),
        plan_model(s, n).0.initial == s.initial,
        plan_model(s, n).0.spans == s.spans,
{
    let c = s.config;
    if s.expired() && c.station_of(n) is Some {
        let ch = match plan_model(s, n).1 {
            Ok(PlannerAction::NozzleChange(ch)) => ch,
            _ => arbitrary(),
        };
        let t = plan_model(s, n).0;
        assert(t.history.drop_last() =~= s.history);
        assert(undoable(c, ch));
    }
}

/// The component index moves by exactly one per head assignment: a change
/// is tagged with the current index and leaves it, an assignment advances
/// it by one, and a failure changes nothing.
pub proof fn lemma_plan_index(s: PlannerState, n: Nozzle)
    ensures
        match plan_model(s, n) {
            (t, Ok(PlannerAction::Head(_))) => t.index == s.index + 1 && t.history == s.history,
            (t, Ok(PlannerAction::NozzleChange(c))) => {
                &&& t.index == s.index
                &&& c.before_component == s.index as usize
                &&& t.history == s.history.push(c)
            },
            (t, Err(_)) => t == s,
        },
{
}

/// After a change has mounted `n` on the current head, the next decision
/// for the same component assigns it to that head, provided the step still
/// needs `n` at the current index. So one component takes at most two
/// decisions.
pub proof fn lemma_change_then_assign(s: PlannerState, n: Nozzle)
    requires
        s.wf(),
        s.index < usize::MAX,
        s.spans.contains_key(n),
        s.spans[n] >= s.index,
        plan_model(s, n).1 is Ok,
        plan_model(s, n).1->Ok_0 is NozzleChange,
    ensures
        plan_model(plan_model(s, n).0, n).1 == Ok::<PlannerAction, PlanError>(
            PlannerAction::Head(s.head),
        ),
{
    lemma_plan_keeps_exclusive(s, n);
}

/// After the swaps back that finalizing yields, the tool-state is the one
/// the step started from.
pub proof fn lemma_finalize_restores(s: PlannerState)
    requires
        s.wf(),
    ensures
        finalize_model(s) is Ok ==> replay(s.config, finalize_model(s)->Ok_0) == s.initial,
{
    lemma_reversal_restores(s.initial, s.history, s.index as usize);
}

/// Forward changes and swaps back together never exceed four; a step that
/// would need more fails.
pub proof fn lemma_change_bound(s: PlannerState)
    ensures
        finalize_model(s) is Ok ==> s.history.len() + finalize_model(s)->Ok_0.len() <= 4,
        s.history.len() + s.history.len() > 4 ==> finalize_model(s) is Err,
{
}

fn same_nozzle(slot: Option<Nozzle>, n: Nozzle) -> (r: bool)
    ensures
        r == (slot == Some(n)),
{
    match slot {
        Some(m) => m == n,
        None => false,
    }
}

} // verus!
