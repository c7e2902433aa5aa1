//! The order in which a step's components are processed.

use vstd::prelude::*;

use crate::config::NozzleConfig;
use crate::machine::Nozzle;

verus! {

/// What the ordering reads of a component. `height` is the placement height
/// as a number that orders as the height does.
#[derive(Clone, Copy, Debug, PartialEq, Eq, Structural)]
pub struct SortKey {
    pub nozzle: Option<Nozzle>,
    pub height: u32,
    pub feeder: u8,
}

/// The nozzle a component counts as for ordering; one that needs none
/// counts as `CN040`.
pub open spec fn sort_nozzle(k: SortKey) -> Nozzle {
    match k.nozzle {
        Some(n) => n,
        None => Nozzle::CN040,
    }
}

/// The ordering key packed into one number: components whose nozzle is
/// mounted on a head first, then by height, by nozzle type and by feeder,
/// each ascending.
pub open spec fn sort_rank(config: NozzleConfig, k: SortKey) -> int {
    (if config.head_of(sort_nozzle(k)) is Some {
        0int
    } else {
        1int
    }) * 0x1000_0000_0000 + k.height * 0x1000 + sort_nozzle(k).spec_ordinal() * 0x100
        + k.feeder
}

/// Component `a` is processed before component `b`: by rank, and in input
/// order where the ranks are equal.
pub open spec fn ranked_before(config: NozzleConfig, keys: Seq<SortKey>, a: int, b: int) -> bool {
    let ra = sort_rank(config, keys[a]);
    let rb = sort_rank(config, keys[b]);
    ra < rb || (ra == rb && a < b)
}

/// `order` holds `m` somewhere.
pub open spec fn lists(order: Seq<usize>, m: int) -> bool {
    exists|j: int| 0 <= j < order.len() && order[j] == m
}

/// `order` lists every component index once, in processing order.
pub open spec fn is_processing_order(
    config: NozzleConfig,
    keys: Seq<SortKey>,
    order: Seq<usize>,
) -> bool {
    &&& order.len() == keys.len()
    &&& forall|i: int| 0 <= i < order.len() ==> #[trigger] order[i] < keys.len()
    &&& forall|i: int, j: int|
        0 <= i < j < order.len() ==> ranked_before(
            config,
            keys,
            #[trigger] order[i] as int,
            #[trigger] order[j] as int,
        )
    &&& forall|m: int| 0 <= m < keys.len() ==> #[trigger] lists(order, m)
}

/// The packed rank compares as the four keys do, one after the other.
pub proof fn lemma_rank_lexicographic(config: NozzleConfig, a: SortKey, b: SortKey)
    ensures
        sort_rank(config, a) < sort_rank(config, b) <==> {
            let ma = config.head_of(sort_nozzle(a)) is Some;
            let mb = config.head_of(sort_nozzle(b)) is Some;
            let oa = sort_nozzle(a).spec_ordinal();
            let ob = sort_nozzle(b).spec_ordinal();
            ||| ma && !mb
            ||| ma == mb && a.height < b.height
            ||| ma == mb && a.height == b.height && oa < ob
            ||| ma == mb && a.height == b.height && oa == ob && a.feeder < b.feeder
        },
{
}

fn rank(config: &NozzleConfig, k: &SortKey) -> (r: u64)
    ensures
        r == sort_rank(*config, *k),
{
    let n = match k.nozzle {
        Some(n) => n,
        None => Nozzle::CN040,
    };
    let mounted: u64 = if config.is_active(n) {
        0
    } else {
        1
    };
    mounted * 0x1000_0000_0000 + (k.height as u64) * 0x1000 + (n.ordinal() as u64) * 0x100
        + k.feeder as u64
}

/// Orders the components of a step for processing. The sort is stable:
/// components with equal keys keep their input order.
pub fn processing_order(config: &NozzleConfig, keys: &Vec<SortKey>) -> (r: Vec<usize>)
    ensures
        is_processing_order(*config, keys@, r@),
{
    let mut order: Vec<usize> = Vec::new();
    let mut k: usize = 0;
    while k < keys.len()
        invariant
            k <= keys@.len(),
            order@.len() == k,
            forall|i: int| 0 <= i < order@.len() ==> #[trigger] order@[i] < k,
            forall|i: int, j: int|
                0 <= i < j < order@.len() ==> ranked_before(
                    *config,
                    keys@,
                    #[trigger] order@[i] as int,
                    #[trigger] order@[j] as int,
                ),
            forall|m: int| 0 <= m < k ==> #[trigger] lists(order@, m),
        decreases keys@.len() - k,
    {
        let rk = rank(config, &keys[k]);
        let mut pos: usize = 0;
        while pos < order.len() && rank(config, &keys[order[pos]]) <= rk
            invariant
                pos <= order@.len(),
                order@.len() == k,
                k < keys@.len(),
                forall|i: int| 0 <= i < order@.len() ==> #[trigger] order@[i] < k,
                rk == sort_rank(*config, keys@[k as int]),
                forall|t: int|
                    0 <= t < pos ==> sort_rank(*config, keys@[#[trigger] order@[t] as int]) <= rk,
            decreases order@.len() - pos,
        {
            pos += 1;
        }
        let ghost old_order = order@;
        order.insert(pos, k);
        proof {
            assert(order@ == old_order.insert(pos as int, k));
            assert forall|i: int, j: int| 0 <= i < j < order@.len() implies ranked_before(
                *config,
                keys@,
                #[trigger] order@[i] as int,
                #[trigger] order@[j] as int,
            ) by {
                if j < pos {
                    assert(order@[i] == old_order[i] && order@[j] == old_order[j]);
                } else if j == pos {
                    assert(order@[i] == old_order[i]);
                } else if i == pos {
                    assert(order@[j] == old_order[j - 1]);
                    if j - 1 > pos {
                        assert(ranked_before(
                            *config,
                            keys@,
                            old_order[pos as int] as int,
                            old_order[j - 1] as int,
                        ));
                    }
                } else if i < pos {
                    assert(order@[i] == old_order[i] && order@[j] == old_order[j - 1]);
                } else {
                    assert(order@[i] == old_order[i - 1] && order@[j] == old_order[j - 1]);
                }
            }
            assert forall|m: int| 0 <= m < k + 1 implies #[trigger] lists(order@, m) by {
                if m == k {
                    assert(order@[pos as int] == m);
                } else {
                    assert(lists(old_order, m));
                    let j0 = choose|j: int| 0 <= j < old_order.len() && old_order[j] == m;
                    if j0 < pos {
                        assert(order@[j0] == m);
                    } else {
                        assert(order@[j0 + 1] == m);
                    }
                }
            }
        }
        k += 1;
    }
    order
}

proof fn lemma_orders_agree_upto(
    config: NozzleConfig,
    keys: Seq<SortKey>,
    a: Seq<usize>,
    b: Seq<usize>,
    i: int,
)
    requires
        is_processing_order(config, keys, a),
        is_processing_order(config, keys, b),
        0 <= i < a.len(),
    ensures
        forall|t: int| 0 <= t <= i ==> a[t] == b[t],
    decreases i,
{
    if i > 0 {
        lemma_orders_agree_upto(config, keys, a, b, i - 1);
    }
    if a[i] != b[i] {
        assert(lists(b, a[i] as int));
        assert(lists(a, b[i] as int));
        let ja = choose|j: int| 0 <= j < b.len() && b[j] == a[i] as int;
        let jb = choose|j: int| 0 <= j < a.len() && a[j] == b[i] as int;
        if ja < i {
            assert(a[ja] == b[ja]);
            assert(ranked_before(config, keys, a[ja] as int, a[i] as int));
        }
        if jb < i {
            assert(a[jb] == b[jb]);
            assert(ranked_before(config, keys, b[jb] as int, b[i] as int));
        }
        assert(ranked_before(config, keys, b[i] as int, b[ja] as int));
        assert(ranked_before(config, keys, a[i] as int, a[jb] as int));
    }
}

/// The processing order is determined by the keys: any two orders that
/// meet its definition are the same.
pub proof fn lemma_processing_order_unique(
    config: NozzleConfig,
    keys: Seq<SortKey>,
    a: Seq<usize>,
    b: Seq<usize>,
)
    requires
        is_processing_order(config, keys, a),
        is_processing_order(config, keys, b),
    ensures
        a == b,
{
    if a.len() > 0 {
        lemma_orders_agree_upto(config, keys, a, b, a.len() - 1);
    }
    assert(a =~= b);
}

} // verus!
