//! The live tool-state: which nozzle sits on each head and in each rack
//! station, and the swaps that change it.

use vstd::prelude::*;

use crate::change::NozzleChange;
use crate::machine::{Head, Nozzle, NozzleStation};

verus! {

/// Why a step cannot be scheduled.
#[derive(Clone, Copy, Debug, PartialEq, Eq, Structural)]
pub enum PlanError {
    /// The same nozzle is configured in two places.
    DuplicateNozzle,
    /// A component needs a nozzle that is neither mounted nor in the rack.
    NozzleUnavailable(Nozzle),
    /// The step made this many forward changes; with one swap back for
    /// each, they exceed the four the machine's header holds.
    TooManyNozzleChanges(usize),
}

/// Which nozzle, if any, occupies each head and each rack station.
#[derive(Clone, Copy, Debug, PartialEq, Eq, Structural)]
pub struct NozzleConfig {
    pub head1: Option<Nozzle>,
    pub head2: Option<Nozzle>,
    pub station1: Option<Nozzle>,
    pub station2: Option<Nozzle>,
    pub station3: Option<Nozzle>,
}

/// Two locations do not hold the same nozzle.
pub open spec fn apart(a: Option<Nozzle>, b: Option<Nozzle>) -> bool {
    a is None || a != b
}

fn holds(slot: Option<Nozzle>, n: Nozzle) -> (r: bool)
    ensures
        r == (slot == Some(n)),
{
    match slot {
        Some(m) => m == n,
        None => false,
    }
}

impl NozzleConfig {
    pub open spec fn head_tool(self, h: Head) -> Option<Nozzle> {
        match h {
            Head::Head1 => self.head1,
            Head::Head2 => self.head2,
        }
    }

    pub open spec fn station_tool(self, s: NozzleStation) -> Option<Nozzle> {
        match s {
            NozzleStation::Station1 => self.station1,
            NozzleStation::Station2 => self.station2,
            NozzleStation::Station3 => self.station3,
        }
    }

    /// Each nozzle occupies at most one of the five locations.
    pub open spec fn exclusive(self) -> bool {
        &&& apart(self.head1, self.head2)
        &&& apart(self.head1, self.station1)
        &&& apart(self.head1, self.station2)
        &&& apart(self.head1, self.station3)
        &&& apart(self.head2, self.station1)
        &&& apart(self.head2, self.station2)
        &&& apart(self.head2, self.station3)
        &&& apart(self.station1, self.station2)
        &&& apart(self.station1, self.station3)
        &&& apart(self.station2, self.station3)
    }

    /// A head or one of the two configured stations holds `n`.
    pub open spec fn has(self, n: Nozzle) -> bool {
        self.head1 == Some(n) || self.head2 == Some(n) || self.station1 == Some(n)
            || self.station2 == Some(n)
    }

    pub open spec fn has_free_station(self) -> bool {
        self.station1 is None || self.station2 is None || self.station3 is None
    }

    /// A consistent tool-state: no nozzle twice, and a free station to park
    /// a nozzle in.
    pub open spec fn wf(self) -> bool {
        self.exclusive() && self.has_free_station()
    }

    /// The lowest-numbered empty station.
    pub open spec fn first_free(self) -> Option<NozzleStation> {
        if self.station1 is None {
            Some(NozzleStation::Station1)
        } else if self.station2 is None {
            Some(NozzleStation::Station2)
        } else if self.station3 is None {
            Some(NozzleStation::Station3)
        } else {
            None
        }
    }

    pub open spec fn station_of(self, n: Nozzle) -> Option<NozzleStation> {
        if self.station1 == Some(n) {
            Some(NozzleStation::Station1)
        } else if self.station2 == Some(n) {
            Some(NozzleStation::Station2)
        } else if self.station3 == Some(n) {
            Some(NozzleStation::Station3)
        } else {
            None
        }
    }

    pub open spec fn head_of(self, n: Nozzle) -> Option<Head> {
        if self.head1 == Some(n) {
            Some(Head::Head1)
        } else if self.head2 == Some(n) {
            Some(Head::Head2)
        } else {
            None
        }
    }

    pub open spec fn set_head(self, h: Head, t: Option<Nozzle>) -> NozzleConfig {
        match h {
            Head::Head1 => NozzleConfig { head1: t, ..self },
            Head::Head2 => NozzleConfig { head2: t, ..self },
        }
    }

    pub open spec fn set_station(self, s: NozzleStation, t: Option<Nozzle>) -> NozzleConfig {
        match s {
            NozzleStation::Station1 => NozzleConfig { station1: t, ..self },
            NozzleStation::Station2 => NozzleConfig { station2: t, ..self },
            NozzleStation::Station3 => NozzleConfig { station3: t, ..self },
        }
    }

    /// What the machine does for a change: the head parks its nozzle in the
    /// drop station, then takes the nozzle from the pickup station.
    pub open spec fn apply(self, c: NozzleChange) -> NozzleConfig {
        let parked = self.set_station(c.drop_station, self.head_tool(c.head));
        parked.set_head(c.head, parked.station_tool(c.pickup_station)).set_station(
            c.pickup_station,
            None,
        )
    }

    /// A state from the configured heads and stations 1 and 2; station 3 is
    /// the working station and starts empty.
    pub fn new(
        head1: Option<Nozzle>,
        head2: Option<Nozzle>,
        station1: Option<Nozzle>,
        station2: Option<Nozzle>,
    ) -> (r: Result<NozzleConfig, PlanError>)
        ensures
            ({
                let c = NozzleConfig { head1, head2, station1, station2, station3: None };
                if c.wf() {
                    r == Ok::<NozzleConfig, PlanError>(c)
                } else {
                    r == Err::<NozzleConfig, PlanError>(PlanError::DuplicateNozzle)
                }
            }),
    {
        let c = NozzleConfig { head1, head2, station1, station2, station3: None };
        if c.is_consistent() {
            Ok(c)
        } else {
            Err(PlanError::DuplicateNozzle)
        }
    }

    /// Whether the state is consistent (see `wf`).
    pub fn is_consistent(&self) -> (r: bool)
        ensures
            r == self.wf(),
    {
        let pairs_apart = apart_exec(self.head1, self.head2) && apart_exec(self.head1, self.station1)
            && apart_exec(self.head1, self.station2) && apart_exec(self.head1, self.station3)
            && apart_exec(self.head2, self.station1) && apart_exec(self.head2, self.station2)
            && apart_exec(self.head2, self.station3) && apart_exec(self.station1, self.station2)
            && apart_exec(self.station1, self.station3) && apart_exec(self.station2, self.station3);
        pairs_apart && (self.station1.is_none() || self.station2.is_none()
            || self.station3.is_none())
    }

    /// Whether a head or one of the two configured stations holds `nozzle`.
    pub fn contains(&self, nozzle: Nozzle) -> (r: bool)
        ensures
            r == self.has(nozzle),
    {
        holds(self.head1, nozzle) || holds(self.head2, nozzle) || holds(self.station1, nozzle)
            || holds(self.station2, nozzle)
    }

    /// Whether `nozzle` is mounted on a head.
    pub fn is_active(&self, nozzle: Nozzle) -> (r: bool)
        ensures
            r == self.head_of(nozzle) is Some,
    {
        self.find_nozzle_head(nozzle).is_some()
    }

    pub fn get_head_nozzle(&self, head: Head) -> (r: Option<Nozzle>)
        ensures
            r == self.head_tool(head),
    {
        match head {
            Head::Head1 => self.head1,
            Head::Head2 => self.head2,
        }
    }

    /// The first head, in head order, that holds `nozzle`.
    pub fn find_nozzle_head(&self, nozzle: Nozzle) -> (r: Option<Head>)
        ensures
            r == self.head_of(nozzle),
    {
        if holds(self.head1, nozzle) {
            Some(Head::Head1)
        } else if holds(self.head2, nozzle) {
            Some(Head::Head2)
        } else {
            None
        }
    }

    /// The first station, in station order, that holds `nozzle`.
    pub fn find_nozzle_station(&self, nozzle: Nozzle) -> (r: Option<NozzleStation>)
        ensures
            r == self.station_of(nozzle),
    {
        if holds(self.station1, nozzle) {
            Some(NozzleStation::Station1)
        } else if holds(self.station2, nozzle) {
            Some(NozzleStation::Station2)
        } else if holds(self.station3, nozzle) {
            Some(NozzleStation::Station3)
        } else {
            None
        }
    }

    /// Parks `nozzle` in the lowest-numbered empty station and returns that
    /// station.
    pub fn drop_nozzle(&mut self, nozzle: Option<Nozzle>) -> (r: NozzleStation)
        requires
            old(self).has_free_station(),
        ensures
            old(self).first_free() == Some(r),
            *final(self) == old(self).set_station(r, nozzle),
    {
        if self.station1.is_none() {
            self.station1 = nozzle;
            NozzleStation::Station1
        } else if self.station2.is_none() {
            self.station2 = nozzle;
            NozzleStation::Station2
        } else {
            self.station3 = nozzle;
            NozzleStation::Station3
        }
    }

    /// Mounts `new_nozzle`, taken from its station, on `head`; the nozzle
    /// the head held goes to the lowest-numbered empty station.
    pub fn pickup_nozzle(&mut self, head: Head, new_nozzle: Nozzle, before_component: usize) -> (r:
        NozzleChange)
        requires
            old(self).wf(),
            old(self).station_of(new_nozzle) is Some,
        ensures
            r == (NozzleChange {
                enabled: true,
                before_component,
                head,
                drop_station: old(self).first_free()->Some_0,
                pickup_station: old(self).station_of(new_nozzle)->Some_0,
            }),
            r.drop_station != r.pickup_station,
            old(self).station_tool(r.drop_station) is None,
            *final(self) == old(self).apply(r),
            final(self).wf(),
    {
        let current_nozzle = match head {
            Head::Head1 => {
                let t = self.head1;
                self.head1 = Some(new_nozzle);
                t
            },
            Head::Head2 => {
                let t = self.head2;
                self.head2 = Some(new_nozzle);
                t
            },
        };
        let pickup_station = match self.find_nozzle_station(new_nozzle) {
            Some(s) => s,
            None => NozzleStation::Station3,
        };
        let drop_station = self.drop_nozzle(current_nozzle);
        match pickup_station {
            NozzleStation::Station1 => self.station1 = None,
            NozzleStation::Station2 => self.station2 = None,
            NozzleStation::Station3 => self.station3 = None,
        }
        NozzleChange { head, drop_station, pickup_station, before_component, enabled: true }
    }
}

/// The change that undoes `c`: the same head takes its nozzle back from
/// where `c` parked it and returns the other one to where `c` took it from.
pub open spec fn reversed(c: NozzleChange, before_component: usize) -> NozzleChange {
    NozzleChange {
        pickup_station: c.drop_station,
        drop_station: c.pickup_station,
        before_component,
        ..c
    }
}

/// The changes that undo `history`, latest first, all placed before
/// `before_component`.
pub open spec fn reversal(history: Seq<NozzleChange>, before_component: usize) -> Seq<NozzleChange> {
    Seq::new(
        history.len(),
        |i: int| reversed(history[history.len() - 1 - i], before_component),
    )
}

/// The state after performing `ops` in order, starting from `c`.
pub open spec fn replay(c: NozzleConfig, ops: Seq<NozzleChange>) -> NozzleConfig
    decreases ops.len(),
{
    if ops.len() == 0 {
        c
    } else {
        replay(c, ops.drop_last()).apply(ops.last())
    }
}

/// A change whose two stations differ and whose drop station was empty.
pub open spec fn undoable(c: NozzleConfig, op: NozzleChange) -> bool {
    op.drop_station != op.pickup_station && c.station_tool(op.drop_station) is None
}

/// Every change of `ops` is undoable in the state it was performed in.
pub open spec fn all_undoable(c: NozzleConfig, ops: Seq<NozzleChange>) -> bool
    decreases ops.len(),
{
    ops.len() == 0 || (all_undoable(c, ops.drop_last()) && undoable(
        replay(c, ops.drop_last()),
        ops.last(),
    ))
}

pub proof fn lemma_undo_one(c: NozzleConfig, op: NozzleChange, before_component: usize)
    requires
        undoable(c, op),
    ensures
        c.apply(op).apply(reversed(op, before_component)) == c,
{
}

pub proof fn lemma_replay_concat(c: NozzleConfig, a: Seq<NozzleChange>, b: Seq<NozzleChange>)
    ensures
        replay(c, a + b) == replay(replay(c, a), b),
    decreases b.len(),
{
    if b.len() > 0 {
        assert((a + b).drop_last() =~= a + b.drop_last());
        lemma_replay_concat(c, a, b.drop_last());
    } else {
        assert(a + b =~= a);
    }
}

/// Performing the swaps back after a history of undoable changes returns
/// the machine to the state it started from.
pub proof fn lemma_reversal_restores(
    c: NozzleConfig,
    history: Seq<NozzleChange>,
    before_component: usize,
)
    requires
        all_undoable(c, history),
    ensures
        replay(replay(c, history), reversal(history, before_component)) == c,
    decreases history.len(),
{
    if history.len() > 0 {
        let pre = history.drop_last();
        let op = history.last();
        let back = reversal(history, before_component);
        let head = seq![reversed(op, before_component)];
        assert(back =~= head + reversal(pre, before_component));
        lemma_replay_concat(replay(c, history), head, reversal(pre, before_component));
        assert(head.drop_last() =~= Seq::<NozzleChange>::empty());
        assert(head.last() == reversed(op, before_component));
        assert(replay(replay(c, history), head.drop_last()) == replay(c, history));
        assert(replay(c, history) == replay(c, pre).apply(op));
        assert(replay(replay(c, history), head) == replay(c, pre).apply(op).apply(
            reversed(op, before_component),
        ));
        lemma_undo_one(replay(c, pre), op, before_component);
        lemma_reversal_restores(c, pre, before_component);
    } else {
        assert(reversal(history, before_component) =~= Seq::<NozzleChange>::empty());
    }
}

fn apart_exec(a: Option<Nozzle>, b: Option<Nozzle>) -> (r: bool)
    ensures
        r == apart(a, b),
{
    match (a, b) {
        (Some(x), Some(y)) => x != y,
        _ => true,
    }
}

} // verus!
