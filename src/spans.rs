//! Span table: for each nozzle type, the last position at which the step
//! still needs it.

use vstd::prelude::*;

use crate::machine::{NOZZLE_KINDS, Nozzle};

verus! {

/// The nozzles the components require, in order, skipping components that
/// require none.
pub open spec fn required(s: Seq<Option<Nozzle>>) -> Seq<Nozzle>
    decreases s.len(),
{
    if s.len() == 0 {
        Seq::empty()
    } else {
        match s.last() {
            Some(n) => required(s.drop_last()).push(n),
            None => required(s.drop_last()),
        }
    }
}

/// The last 1-based position of `n` in `t`, or 0 where `n` does not occur.
pub open spec fn last_use(t: Seq<Nozzle>, n: Nozzle) -> nat
    decreases t.len(),
{
    if t.len() == 0 {
        0
    } else if t.last() == n {
        t.len()
    } else {
        last_use(t.drop_last(), n)
    }
}

/// The span of each nozzle that `t` uses; nozzles it never uses are absent.
pub open spec fn span_map(t: Seq<Nozzle>) -> Map<Nozzle, nat> {
    Map::new(|n: Nozzle| last_use(t, n) > 0, |n: Nozzle| last_use(t, n))
}

pub proof fn lemma_required_len(s: Seq<Option<Nozzle>>)
    ensures
        required(s).len() <= s.len(),
    decreases s.len(),
{
    if s.len() > 0 {
        lemma_required_len(s.drop_last());
    }
}

/// A nozzle's span lies within the sequence and reaches at least every
/// position where the nozzle is used.
pub proof fn lemma_last_use_bounds(t: Seq<Nozzle>, n: Nozzle)
    ensures
        last_use(t, n) <= t.len(),
        last_use(t, n) > 0 ==> t[last_use(t, n) - 1] == n,
        forall|j: int| 0 <= j < t.len() && t[j] == n ==> j < last_use(t, n),
    decreases t.len(),
{
    if t.len() > 0 && t.last() != n {
        lemma_last_use_bounds(t.drop_last(), n);
        assert forall|j: int| 0 <= j < t.len() && t[j] == n implies j < last_use(t, n) by {
            assert(j < t.len() - 1);
            assert(t.drop_last()[j] == t[j]);
        }
    }
}

pub proof fn lemma_ordinal_injective(a: Nozzle, b: Nozzle)
    ensures
        a.spec_ordinal() == b.spec_ordinal() ==> a == b,
{
}

/// The span of each nozzle type, indexed by its ordinal; 0 marks a type the
/// step never needs.
#[derive(Debug)]
pub struct SpanTable {
    last: Vec<usize>,
}

impl View for SpanTable {
    type V = Map<Nozzle, nat>;

    closed spec fn view(&self) -> Map<Nozzle, nat> {
        Map::new(
            |n: Nozzle| self.last@[n.spec_ordinal() as int] > 0,
            |n: Nozzle| self.last@[n.spec_ordinal() as int] as nat,
        )
    }
}

impl SpanTable {
    pub closed spec fn wf(&self) -> bool {
        self.last@.len() == NOZZLE_KINDS
    }

    /// Scans the ordered components once, front to back: each component
    /// that requires a nozzle records its position among such components as
    /// that nozzle's span, overwriting earlier records.
    pub fn compute(nozzles: &Vec<Option<Nozzle>>) -> (r: SpanTable)
        ensures
            r.wf(),
            r@ == span_map(required(nozzles@)),
    {
        let mut last: Vec<usize> = Vec::new();
        while last.len() < NOZZLE_KINDS
            invariant
                last@.len() <= NOZZLE_KINDS,
                forall|i: int| 0 <= i < last@.len() ==> last@[i] == 0,
            decreases NOZZLE_KINDS - last@.len(),
        {
            last.push(0);
        }
        let mut count: usize = 0;
        let mut k: usize = 0;
        while k < nozzles.len()
            invariant
                k <= nozzles@.len(),
                last@.len() == NOZZLE_KINDS,
                count == required(nozzles@.take(k as int)).len(),
                count <= k,
                forall|n: Nozzle| #[trigger]
                    last@[n.spec_ordinal() as int] == last_use(
                        required(nozzles@.take(k as int)),
                        n,
                    ),
            decreases nozzles@.len() - k,
        {
            let ghost before = required(nozzles@.take(k as int));
            assert(nozzles@.take(k + 1).drop_last() =~= nozzles@.take(k as int));
            if let Some(n) = nozzles[k] {
                count = count + 1;
                last.set(n.ordinal(), count);
                assert(required(nozzles@.take(k + 1)) == before.push(n));
                assert forall|m: Nozzle| #[trigger]
                    last@[m.spec_ordinal() as int] == last_use(
                        required(nozzles@.take(k + 1)),
                        m,
                    ) by {
                    lemma_ordinal_injective(m, n);
                    assert(before.push(n).drop_last() =~= before);
                }
            }
            k += 1;
        }
        assert(nozzles@.take(nozzles@.len() as int) =~= nozzles@);
        let r = SpanTable { last };
        assert(r@ =~= span_map(required(nozzles@)));
        r
    }

    /// The span of `nozzle`, if the step needs it at all.
    pub fn get(&self, nozzle: Nozzle) -> (r: Option<usize>)
        requires
            self.wf(),
        ensures
            match r {
                Some(v) => self@.contains_key(nozzle) && v == self@[nozzle],
                None => !self@.contains_key(nozzle),
            },
    {
        let v = self.last[nozzle.ordinal()];
        if v > 0 {
            Some(v)
        } else {
            None
        }
    }
}

/// Computing the span table twice from the same ordered components gives
/// the same mapping.
pub proof fn lemma_spans_deterministic(
    nozzles: Seq<Option<Nozzle>>,
    first: SpanTable,
    second: SpanTable,
)
    requires
        first@ == span_map(required(nozzles)),
        second@ == span_map(required(nozzles)),
    ensures
        first@ == second@,
{
}

} // verus!
