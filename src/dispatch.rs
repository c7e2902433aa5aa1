//! Which nozzle a component is placed with, and which step takes it, when
//! the machine has one tool-state per step.

use vstd::prelude::*;

use crate::config::NozzleConfig;
use crate::machine::Nozzle;

verus! {

/// Step `i` is configured and holds nozzle `n`.
pub open spec fn step_has(configs: Seq<Option<NozzleConfig>>, i: int, n: Nozzle) -> bool {
    configs[i] matches Some(c) && c.has(n)
}

/// Some step is configured and holds `n`.
pub open spec fn offered(configs: Seq<Option<NozzleConfig>>, n: Nozzle) -> bool {
    exists|i: int| 0 <= i < configs.len() && #[trigger] step_has(configs, i, n)
}

/// Some step has a configuration.
pub open spec fn any_configured(configs: Seq<Option<NozzleConfig>>) -> bool {
    exists|i: int| 0 <= i < configs.len() && #[trigger] configs[i] is Some
}

/// The nozzle a component whose feeder asks for `nozzle` is placed with,
/// and whether it must be skipped: it keeps `nozzle` where some step holds
/// it; otherwise it gets none, and is skipped where any step is configured.
pub fn resolve_nozzle(configs: &Vec<Option<NozzleConfig>>, nozzle: Nozzle) -> (r: (
    Option<Nozzle>,
    bool,
))
    ensures
        r.0 == (if offered(configs@, nozzle) {
            Some(nozzle)
        } else {
            None
        }),
        r.1 == (!offered(configs@, nozzle) && any_configured(configs@)),
{
    let mut i: usize = 0;
    let mut configured = false;
    while i < configs.len()
        invariant
            i <= configs@.len(),
            forall|j: int| 0 <= j < i ==> !#[trigger] step_has(configs@, j, nozzle),
            configured == exists|j: int| 0 <= j < i && #[trigger] configs@[j] is Some,
        decreases configs@.len() - i,
    {
        if let Some(c) = configs[i] {
            if c.contains(nozzle) {
                assert(step_has(configs@, i as int, nozzle));
                return (Some(nozzle), false);
            }
            configured = true;
            assert(configs@[i as int] is Some);
        }
        i += 1;
    }
    (None, configured)
}

/// The step that takes a component: for a nozzle, the first configured
/// step that holds it; for a component that needs none, the first step.
pub fn step_for(configs: &Vec<Option<NozzleConfig>>, nozzle: Option<Nozzle>) -> (r: Option<usize>)
    ensures
        nozzle matches Some(n) ==> match r {
            Some(i) => {
                &&& i < configs@.len()
                &&& step_has(configs@, i as int, n)
                &&& forall|j: int| 0 <= j < i ==> !#[trigger] step_has(configs@, j, n)
            },
            None => !offered(configs@, n),
        },
        nozzle is None ==> r == (if configs@.len() > 0 {
            Some(0usize)
        } else {
            None
        }),
{
    match nozzle {
        None => {
            if configs.len() > 0 {
                Some(0)
            } else {
                None
            }
        },
        Some(n) => {
            let mut i: usize = 0;
            while i < configs.len()
                invariant
                    nozzle == Some(n),
                    i <= configs@.len(),
                    forall|j: int| 0 <= j < i ==> !#[trigger] step_has(configs@, j, n),
                decreases configs@.len() - i,
            {
                if let Some(c) = configs[i] {
                    if c.contains(n) {
                        assert(step_has(configs@, i as int, n));
                        return Some(i);
                    }
                }
                i += 1;
            }
            None
        },
    }
}

} // verus!
