//! Reconciling a fresh discovery with the GPUs already tracked: which
//! tracked state each discovered GPU keeps, and which arrivals, departures and
//! partition changes are announced.
use vstd::prelude::*;

use crate::model::{PartitionId, PhysicalGpuId};

verus! {

/// What reconciliation reads of one GPU: its identity and its partition layout.
pub struct TopologyEntry {
    pub id: PhysicalGpuId,
    pub partitions: Vec<PartitionId>,
}

impl TopologyEntry {
    /// The partition layout as a sequence of identifier texts.
    pub open spec fn layout(self) -> Seq<Seq<char>> {
        self.partitions@.map_values(|p: PartitionId| p@)
    }
}

/// A topology change worth announcing.
#[derive(Debug)]
pub enum StateEffect {
    GpuAdded(PhysicalGpuId),
    GpuRemoved(PhysicalGpuId),
    PartitionConfigurationChanged(PhysicalGpuId),
}

/// The outcome of reconciliation: for each discovered GPU, the index of the
/// tracked GPU whose state it keeps (`None` for a new GPU), and the effects.
pub struct TopologyPlan {
    pub carried: Vec<Option<usize>>,
    pub effects: Vec<StateEffect>,
}

/// Whether tracked GPU `j` was already claimed by one of the first `i`
/// discovered GPUs.
pub open spec fn claimed_before(carried: Seq<Option<usize>>, i: int, j: int) -> bool {
    exists|k: int| 0 <= k < i && #[trigger] carried[k] == Some(j as usize)
}

/// Discovered GPU `i` keeps tracked GPU `j`: the first one with its identity
/// that no earlier discovered GPU kept.
pub open spec fn keeps(
    previous: Seq<TopologyEntry>,
    discovered: Seq<TopologyEntry>,
    carried: Seq<Option<usize>>,
    i: int,
    j: int,
) -> bool {
    &&& 0 <= j < previous.len()
    &&& previous[j].id@ == discovered[i].id@
    &&& !claimed_before(carried, i, j)
    &&& forall|j2: int|
        0 <= j2 < j && (#[trigger] previous[j2]).id@ == discovered[i].id@ ==> claimed_before(
            carried,
            i,
            j2,
        )
}

/// Every tracked GPU with the identity of discovered GPU `i` was already kept
/// by an earlier discovered GPU.
pub open spec fn all_claimed(
    previous: Seq<TopologyEntry>,
    discovered: Seq<TopologyEntry>,
    carried: Seq<Option<usize>>,
    i: int,
) -> bool {
    forall|j: int|
        0 <= j < previous.len() && (#[trigger] previous[j]).id@ == discovered[i].id@
            ==> claimed_before(carried, i, j)
}

/// What discovered GPU `i` keeps: the first unclaimed tracked GPU with its
/// identity, or nothing when there is none.
pub open spec fn carried_right(
    previous: Seq<TopologyEntry>,
    discovered: Seq<TopologyEntry>,
    carried: Seq<Option<usize>>,
    i: int,
) -> bool {
    if carried[i] is Some {
        keeps(previous, discovered, carried, i, carried[i]->0 as int)
    } else {
        all_claimed(previous, discovered, carried, i)
    }
}

/// Each of the first `n` discovered GPUs keeps what it should.
pub open spec fn carries(
    previous: Seq<TopologyEntry>,
    discovered: Seq<TopologyEntry>,
    carried: Seq<Option<usize>>,
    n: int,
) -> bool {
    forall|i: int| 0 <= i < n ==> #[trigger] carried_right(previous, discovered, carried, i)
}

/// Effects of the first `n` discovered GPUs, in discovery order: a new GPU is
/// added; a kept GPU whose partition layout differs is announced as changed.
pub open spec fn arrival_effects(
    previous: Seq<TopologyEntry>,
    discovered: Seq<TopologyEntry>,
    carried: Seq<Option<usize>>,
    n: int,
) -> Seq<StateEffect>
    decreases n,
{
    if n <= 0 {
        Seq::empty()
    } else {
        let rest = arrival_effects(previous, discovered, carried, n - 1);
        match carried[n - 1] {
            None => rest.push(StateEffect::GpuAdded(discovered[n - 1].id)),
            Some(j) => if previous[j as int].layout() != discovered[n - 1].layout() {
                rest.push(StateEffect::PartitionConfigurationChanged(discovered[n - 1].id))
            } else {
                rest
            },
        }
    }
}

/// Removals among the first `m` tracked GPUs, in tracked order: each one no
/// discovered GPU kept.
pub open spec fn departure_effects(
    previous: Seq<TopologyEntry>,
    carried: Seq<Option<usize>>,
    m: int,
) -> Seq<StateEffect>
    decreases m,
{
    if m <= 0 {
        Seq::empty()
    } else {
        let rest = departure_effects(previous, carried, m - 1);
        if claimed_before(carried, carried.len() as int, m - 1) {
            rest
        } else {
            rest.push(StateEffect::GpuRemoved(previous[m - 1].id))
        }
    }
}

proof fn lemma_arrival_prefix(
    previous: Seq<TopologyEntry>,
    discovered: Seq<TopologyEntry>,
    c1: Seq<Option<usize>>,
    c2: Seq<Option<usize>>,
    n: int,
)
    requires
        0 <= n <= c1.len(),
        n <= c2.len(),
        forall|k: int| 0 <= k < n ==> c1[k] == c2[k],
    ensures
        arrival_effects(previous, discovered, c1, n) == arrival_effects(previous, discovered, c2, n),
    decreases n,
{
    if n > 0 {
        lemma_arrival_prefix(previous, discovered, c1, c2, n - 1);
    }
}

fn same_layout(a: &Vec<PartitionId>, b: &Vec<PartitionId>) -> (r: bool)
    ensures
        r == (a@.map_values(|p: PartitionId| p@) == b@.map_values(|p: PartitionId| p@)),
{
    let ghost fa = a@.map_values(|p: PartitionId| p@);
    let ghost fb = b@.map_values(|p: PartitionId| p@);
    if a.len() != b.len() {
        proof {
            assert(fa.len() != fb.len());
        }
        return false;
    }
    let mut i: usize = 0;
    while i < a.len()
        invariant
            i <= a@.len(),
            a@.len() == b@.len(),
            fa == a@.map_values(|p: PartitionId| p@),
            fb == b@.map_values(|p: PartitionId| p@),
            forall|k: int| 0 <= k < i ==> fa[k] == fb[k],
        decreases a.len() - i,
    {
        if !a[i].same(&b[i]) {
            proof {
                assert(fa[i as int] != fb[i as int]);
            }
            return false;
        }
        i = i + 1;
    }
    proof {
        assert(fa =~= fb);
    }
    true
}

/// The first tracked GPU with identity `id` that is not yet claimed.
fn first_unclaimed(previous: &Vec<TopologyEntry>, claimed: &Vec<bool>, id: &PhysicalGpuId) -> (r:
    Option<usize>)
    requires
        claimed@.len() == previous@.len(),
    ensures
        match r {
            Some(j) => {
                &&& j < previous@.len()
                &&& previous@[j as int].id@ == id@
                &&& !claimed@[j as int]
                &&& forall|j2: int|
                    0 <= j2 < j && (#[trigger] previous@[j2]).id@ == id@ ==> claimed@[j2]
            },
            None => forall|j: int|
                0 <= j < previous@.len() && (#[trigger] previous@[j]).id@ == id@ ==> claimed@[j],
        },
{
    let mut j: usize = 0;
    while j < previous.len()
        invariant
            j <= previous@.len(),
            claimed@.len() == previous@.len(),
            forall|j2: int| 0 <= j2 < j && (#[trigger] previous@[j2]).id@ == id@ ==> claimed@[j2],
        decreases previous.len() - j,
    {
        if !claimed[j] && previous[j].id.same(id) {
            return Some(j);
        }
        j = j + 1;
    }
    None
}

/// Reconciles tracked GPUs with a fresh discovery, taken in the order given
/// (discovery hands GPUs over sorted by PCI address). A GPU seen again keeps
/// its tracked state; a new one is added; a kept one with another partition
/// layout is announced as changed; afterwards each tracked GPU that nothing
/// kept is announced as removed, in tracked order.
pub fn plan_topology(previous: &Vec<TopologyEntry>, discovered: &Vec<TopologyEntry>) -> (plan:
    TopologyPlan)
    ensures
        plan.carried@.len() == discovered@.len(),
        carries(previous@, discovered@, plan.carried@, discovered@.len() as int),
        plan.effects@ == arrival_effects(
            previous@,
            discovered@,
            plan.carried@,
            discovered@.len() as int,
        ) + departure_effects(previous@, plan.carried@, previous@.len() as int),
{
    let mut claimed: Vec<bool> = Vec::new();
    let mut j: usize = 0;
    while j < previous.len()
        invariant
            j <= previous@.len(),
            claimed@.len() == j,
            forall|k: int| 0 <= k < j ==> !claimed@[k],
        decreases previous.len() - j,
    {
        claimed.push(false);
        j = j + 1;
    }
    let mut carried: Vec<Option<usize>> = Vec::new();
    let mut effects: Vec<StateEffect> = Vec::new();
    let plen: usize = previous.len();
    let mut i: usize = 0;
    while i < discovered.len()
        invariant
            plen == previous@.len(),
            i <= discovered@.len(),
            carried@.len() == i,
            claimed@.len() == previous@.len(),
            forall|k: int|
                0 <= k < previous@.len() ==> claimed@[k] == claimed_before(carried@, i as int, k),
            carries(previous@, discovered@, carried@, i as int),
            effects@ == arrival_effects(previous@, discovered@, carried@, i as int),
        decreases discovered.len() - i,
    {
        let found = first_unclaimed(previous, &claimed, &discovered[i].id);
        let ghost before = carried@;
        let ghost old_claimed = claimed@;
        match found {
            Some(j) => {
                if !same_layout(&previous[j].partitions, &discovered[i].partitions) {
                    effects.push(
                        StateEffect::PartitionConfigurationChanged(discovered[i].id.clone()),
                    );
                }
                claimed.set(j, true);
                carried.push(Some(j));
            },
            None => {
                effects.push(StateEffect::GpuAdded(discovered[i].id.clone()));
                carried.push(None);
            },
        }
        proof {
            assert(carried@ == before.push(found));
            assert forall|k: int, j2: int| 0 <= k <= i implies claimed_before(before, k, j2)
                == claimed_before(carried@, k, j2) by {
                if claimed_before(before, k, j2) {
                    let w = choose|w: int| 0 <= w < k && #[trigger] before[w] == Some(j2 as usize);
                    assert(carried@[w] == before[w]);
                }
                if claimed_before(carried@, k, j2) {
                    let w = choose|w: int| 0 <= w < k && #[trigger] carried@[w] == Some(j2 as usize);
                    assert(carried@[w] == before[w]);
                }
            }
            assert forall|j2: int| 0 <= j2 < previous@.len() implies claimed@[j2]
                == claimed_before(carried@, i + 1, j2) by {
                if claimed_before(before, i as int, j2) {
                    let w = choose|w: int| 0 <= w < i && #[trigger] before[w] == Some(j2 as usize);
                    assert(carried@[w] == before[w]);
                }
                if claimed_before(carried@, i + 1, j2) {
                    let w = choose|w: int|
                        0 <= w < i + 1 && #[trigger] carried@[w] == Some(j2 as usize);
                    if w < i {
                        assert(carried@[w] == before[w]);
                        assert(claimed_before(before, i as int, j2));
                    } else {
                        assert(found == Some(j2 as usize));
                    }
                }
                if found == Some(j2 as usize) {
                    assert(carried@[i as int] == Some(j2 as usize));
                }
                assert(old_claimed[j2] == claimed_before(before, i as int, j2));
                match found {
                    Some(j) => {
                        assert(claimed@ == old_claimed.update(j as int, true));
                        if j2 == j {
                            assert(carried@[i as int] == Some(j2 as usize));
                        }
                    },
                    None => {
                        assert(claimed@ == old_claimed);
                    },
                }
                assert(claimed_before(carried@, i + 1, j2) ==> claimed@[j2]);
                assert(claimed@[j2] ==> claimed_before(carried@, i + 1, j2));
            }
            assert forall|k: int| 0 <= k < i + 1 implies #[trigger] carried_right(
                previous@,
                discovered@,
                carried@,
                k,
            ) by {
                if k < i {
                    assert(carried@[k] == before[k]);
                    assert(carried_right(previous@, discovered@, before, k));
                } else {
                    assert(carried@[k] == found);
                    match found {
                        Some(j) => {
                            assert(old_claimed[j as int] == claimed_before(before, i as int, j as int));
                            assert forall|j2: int|
                                0 <= j2 < j && (#[trigger] previous@[j2]).id@ == discovered@[k].id@
                                    implies claimed_before(carried@, k, j2) by {
                                assert(old_claimed[j2] == claimed_before(before, i as int, j2));
                            }
                        },
                        None => {
                            assert forall|j2: int|
                                0 <= j2 < previous@.len() && (#[trigger] previous@[j2]).id@
                                    == discovered@[k].id@ implies claimed_before(carried@, k, j2) by {
                                assert(old_claimed[j2] == claimed_before(before, i as int, j2));
                            }
                        },
                    }
                }
            }
            lemma_arrival_prefix(previous@, discovered@, before, carried@, i as int);
        }
        i = i + 1;
    }
    let ghost arrivals = effects@;
    let mut m: usize = 0;
    while m < previous.len()
        invariant
            m <= previous@.len(),
            carried@.len() == discovered@.len(),
            claimed@.len() == previous@.len(),
            forall|k: int|
                0 <= k < previous@.len() ==> claimed@[k] == claimed_before(
                    carried@,
                    carried@.len() as int,
                    k,
                ),
            effects@ == arrivals + departure_effects(previous@, carried@, m as int),
        decreases previous.len() - m,
    {
        if !claimed[m] {
            effects.push(StateEffect::GpuRemoved(previous[m].id.clone()));
        }
        proof {
            assert(arrivals + departure_effects(previous@, carried@, m + 1) =~= effects@);
        }
        m = m + 1;
    }
    TopologyPlan { carried, effects }
}

/// Every tracked GPU is accounted for after reconciliation: either a
/// discovered GPU keeps it, or its removal is announced.
pub proof fn lemma_every_tracked_gpu_accounted(
    previous: Seq<TopologyEntry>,
    carried: Seq<Option<usize>>,
    j: int,
)
    requires
        0 <= j < previous.len(),
    ensures
        claimed_before(carried, carried.len() as int, j) || departure_effects(
            previous,
            carried,
            previous.len() as int,
        ).contains(StateEffect::GpuRemoved(previous[j].id)),
{
    if !claimed_before(carried, carried.len() as int, j) {
        lemma_departure_contains(previous, carried, previous.len() as int, j);
    }
}

proof fn lemma_departure_contains(
    previous: Seq<TopologyEntry>,
    carried: Seq<Option<usize>>,
    m: int,
    j: int,
)
    requires
        0 <= j < m <= previous.len(),
        !claimed_before(carried, carried.len() as int, j),
    ensures
        departure_effects(previous, carried, m).contains(StateEffect::GpuRemoved(previous[j].id)),
    decreases m,
{
    let rest = departure_effects(previous, carried, m - 1);
    if j == m - 1 {
        let all = rest.push(StateEffect::GpuRemoved(previous[m - 1].id));
        assert(all[rest.len() as int] == StateEffect::GpuRemoved(previous[j].id));
    } else {
        lemma_departure_contains(previous, carried, m - 1, j);
        let w = choose|w: int|
            0 <= w < rest.len() && rest[w] == StateEffect::GpuRemoved(previous[j].id);
        if !claimed_before(carried, carried.len() as int, m - 1) {
            assert(rest.push(StateEffect::GpuRemoved(previous[m - 1].id))[w] == rest[w]);
        }
    }
}

/// A discovered GPU whose identity is tracked and not already kept by an
/// earlier discovered GPU keeps that tracked state rather than being added.
pub proof fn lemma_returning_gpu_keeps_state(
    previous: Seq<TopologyEntry>,
    discovered: Seq<TopologyEntry>,
    carried: Seq<Option<usize>>,
    i: int,
    j: int,
)
    requires
        carries(previous, discovered, carried, discovered.len() as int),
        carried.len() == discovered.len(),
        0 <= i < discovered.len(),
        0 <= j < previous.len(),
        previous[j].id@ == discovered[i].id@,
        !claimed_before(carried, i, j),
    ensures
        carried[i] is Some,
        previous[carried[i]->0 as int].id@ == discovered[i].id@,
{
    assert(carried_right(previous, discovered, carried, i));
    if carried[i] is None {
        assert(previous[j].id@ == discovered[i].id@);
    }
}


/// The effect announces the arrival of the GPU whose identifier reads `id`.
pub open spec fn adds(e: StateEffect, id: Seq<char>) -> bool {
    match e {
        StateEffect::GpuAdded(g) => g@ == id,
        _ => false,
    }
}

/// The effect announces the departure of the GPU whose identifier reads `id`.
pub open spec fn removes(e: StateEffect, id: Seq<char>) -> bool {
    match e {
        StateEffect::GpuRemoved(g) => g@ == id,
        _ => false,
    }
}

/// The effect announces a partition change of the GPU whose identifier reads `id`.
pub open spec fn changes(e: StateEffect, id: Seq<char>) -> bool {
    match e {
        StateEffect::PartitionConfigurationChanged(g) => g@ == id,
        _ => false,
    }
}

/// Some effect announces the arrival of `id`.
pub open spec fn announces_added(s: Seq<StateEffect>, id: Seq<char>) -> bool {
    exists|k: int| 0 <= k < s.len() && #[trigger] adds(s[k], id)
}

/// Some effect announces the departure of `id`.
pub open spec fn announces_removed(s: Seq<StateEffect>, id: Seq<char>) -> bool {
    exists|k: int| 0 <= k < s.len() && #[trigger] removes(s[k], id)
}

/// Some effect announces a partition change of `id`.
pub open spec fn announces_changed(s: Seq<StateEffect>, id: Seq<char>) -> bool {
    exists|k: int| 0 <= k < s.len() && #[trigger] changes(s[k], id)
}

/// No two GPUs of the list share an identifier.
pub open spec fn ids_distinct(s: Seq<TopologyEntry>) -> bool {
    forall|a: int, b: int| 0 <= a < b < s.len() ==> (#[trigger] s[a]).id@ != (#[trigger] s[b]).id@
}

/// Some GPU of the list has the identifier `id`.
pub open spec fn has_id(s: Seq<TopologyEntry>, id: Seq<char>) -> bool {
    exists|j: int| 0 <= j < s.len() && (#[trigger] s[j]).id@ == id
}

/// An effect appended is announced alongside the earlier ones.
proof fn lemma_announces_push(s: Seq<StateEffect>, e: StateEffect, id: Seq<char>)
    ensures
        announces_added(s.push(e), id) <==> announces_added(s, id) || adds(e, id),
        announces_removed(s.push(e), id) <==> announces_removed(s, id) || removes(e, id),
        announces_changed(s.push(e), id) <==> announces_changed(s, id) || changes(e, id),
{
    let t = s.push(e);
    assert(t[s.len() as int] == e);
    assert forall|k: int| 0 <= k < s.len() implies #[trigger] t[k] == s[k] by {}
    if announces_added(s, id) {
        let k = choose|k: int| 0 <= k < s.len() && #[trigger] adds(s[k], id);
        assert(adds(t[k], id));
    }
    if announces_added(t, id) {
        let k = choose|k: int| 0 <= k < t.len() && #[trigger] adds(t[k], id);
        if k < s.len() {
            assert(adds(s[k], id));
        }
    }
    if announces_removed(s, id) {
        let k = choose|k: int| 0 <= k < s.len() && #[trigger] removes(s[k], id);
        assert(removes(t[k], id));
    }
    if announces_removed(t, id) {
        let k = choose|k: int| 0 <= k < t.len() && #[trigger] removes(t[k], id);
        if k < s.len() {
            assert(removes(s[k], id));
        }
    }
    if announces_changed(s, id) {
        let k = choose|k: int| 0 <= k < s.len() && #[trigger] changes(s[k], id);
        assert(changes(t[k], id));
    }
    if announces_changed(t, id) {
        let k = choose|k: int| 0 <= k < t.len() && #[trigger] changes(t[k], id);
        if k < s.len() {
            assert(changes(s[k], id));
        }
    }
}

/// Two effect lists together announce what either announces.
proof fn lemma_announces_concat(a: Seq<StateEffect>, b: Seq<StateEffect>, id: Seq<char>)
    ensures
        announces_added(a + b, id) <==> announces_added(a, id) || announces_added(b, id),
        announces_removed(a + b, id) <==> announces_removed(a, id) || announces_removed(b, id),
        announces_changed(a + b, id) <==> announces_changed(a, id) || announces_changed(b, id),
{
    let t = a + b;
    if announces_added(a, id) {
        let k = choose|k: int| 0 <= k < a.len() && #[trigger] adds(a[k], id);
        assert(adds(t[k], id));
    }
    if announces_added(b, id) {
        let k = choose|k: int| 0 <= k < b.len() && #[trigger] adds(b[k], id);
        assert(adds(t[a.len() + k], id));
    }
    if announces_added(t, id) {
        let k = choose|k: int| 0 <= k < t.len() && #[trigger] adds(t[k], id);
        if k < a.len() {
            assert(adds(a[k], id));
        } else {
            assert(adds(b[k - a.len()], id));
        }
    }
    if announces_removed(a, id) {
        let k = choose|k: int| 0 <= k < a.len() && #[trigger] removes(a[k], id);
        assert(removes(t[k], id));
    }
    if announces_removed(b, id) {
        let k = choose|k: int| 0 <= k < b.len() && #[trigger] removes(b[k], id);
        assert(removes(t[a.len() + k], id));
    }
    if announces_removed(t, id) {
        let k = choose|k: int| 0 <= k < t.len() && #[trigger] removes(t[k], id);
        if k < a.len() {
            assert(removes(a[k], id));
        } else {
            assert(removes(b[k - a.len()], id));
        }
    }
    if announces_changed(a, id) {
        let k = choose|k: int| 0 <= k < a.len() && #[trigger] changes(a[k], id);
        assert(changes(t[k], id));
    }
    if announces_changed(b, id) {
        let k = choose|k: int| 0 <= k < b.len() && #[trigger] changes(b[k], id);
        assert(changes(t[a.len() + k], id));
    }
    if announces_changed(t, id) {
        let k = choose|k: int| 0 <= k < t.len() && #[trigger] changes(t[k], id);
        if k < a.len() {
            assert(changes(a[k], id));
        } else {
            assert(changes(b[k - a.len()], id));
        }
    }
}

/// Discovered GPU `i` is new and has the identifier `id`.
pub open spec fn arrives_new(d: Seq<TopologyEntry>, c: Seq<Option<usize>>, i: int, id: Seq<char>) -> bool {
    c[i] is None && d[i].id@ == id
}

/// Discovered GPU `i` keeps a tracked GPU of another partition layout and
/// has the identifier `id`.
pub open spec fn arrives_changed(
    p: Seq<TopologyEntry>,
    d: Seq<TopologyEntry>,
    c: Seq<Option<usize>>,
    i: int,
    id: Seq<char>,
) -> bool {
    c[i] is Some && p[c[i]->0 as int].layout() != d[i].layout() && d[i].id@ == id
}

/// What the arrival effects of the first `n` discovered GPUs announce.
proof fn lemma_arrival_members(
    p: Seq<TopologyEntry>,
    d: Seq<TopologyEntry>,
    c: Seq<Option<usize>>,
    n: int,
    id: Seq<char>,
)
    requires
        0 <= n,
    ensures
        announces_added(arrival_effects(p, d, c, n), id) <==> exists|i: int|
            0 <= i < n && #[trigger] arrives_new(d, c, i, id),
        !announces_removed(arrival_effects(p, d, c, n), id),
        announces_changed(arrival_effects(p, d, c, n), id) <==> exists|i: int|
            0 <= i < n && #[trigger] arrives_changed(p, d, c, i, id),
    decreases n,
{
    if n == 0 {
        let s = arrival_effects(p, d, c, 0);
        assert(s.len() == 0);
    } else {
        lemma_arrival_members(p, d, c, n - 1, id);
        let rest = arrival_effects(p, d, c, n - 1);
        match c[n - 1] {
            None => {
                lemma_announces_push(rest, StateEffect::GpuAdded(d[n - 1].id), id);
                if d[n - 1].id@ == id {
                    assert(arrives_new(d, c, n - 1, id));
                }
            },
            Some(j) => {
                if p[j as int].layout() != d[n - 1].layout() {
                    lemma_announces_push(
                        rest,
                        StateEffect::PartitionConfigurationChanged(d[n - 1].id),
                        id,
                    );
                    if d[n - 1].id@ == id {
                        assert(arrives_changed(p, d, c, n - 1, id));
                    }
                }
            },
        }
        if exists|i: int| 0 <= i < n && #[trigger] arrives_new(d, c, i, id) {
            let i = choose|i: int| 0 <= i < n && #[trigger] arrives_new(d, c, i, id);
            if i < n - 1 {
                assert(exists|i2: int| 0 <= i2 < n - 1 && #[trigger] arrives_new(d, c, i2, id));
            }
        }
        if exists|i: int| 0 <= i < n - 1 && #[trigger] arrives_new(d, c, i, id) {
            let i = choose|i: int| 0 <= i < n - 1 && #[trigger] arrives_new(d, c, i, id);
            assert(arrives_new(d, c, i, id) && 0 <= i < n);
        }
        if exists|i: int| 0 <= i < n && #[trigger] arrives_changed(p, d, c, i, id) {
            let i = choose|i: int| 0 <= i < n && #[trigger] arrives_changed(p, d, c, i, id);
            if i < n - 1 {
                assert(exists|i2: int| 0 <= i2 < n - 1 && #[trigger] arrives_changed(p, d, c, i2, id));
            }
        }
        if exists|i: int| 0 <= i < n - 1 && #[trigger] arrives_changed(p, d, c, i, id) {
            let i = choose|i: int| 0 <= i < n - 1 && #[trigger] arrives_changed(p, d, c, i, id);
            assert(arrives_changed(p, d, c, i, id) && 0 <= i < n);
        }
    }
}

/// Tracked GPU `j` was kept by no discovered GPU and has the identifier `id`.
pub open spec fn departs(p: Seq<TopologyEntry>, c: Seq<Option<usize>>, j: int, id: Seq<char>) -> bool {
    !claimed_before(c, c.len() as int, j) && p[j].id@ == id
}

/// What the departure effects of the first `m` tracked GPUs announce.
proof fn lemma_departure_members(p: Seq<TopologyEntry>, c: Seq<Option<usize>>, m: int, id: Seq<char>)
    requires
        0 <= m,
    ensures
        !announces_added(departure_effects(p, c, m), id),
        !announces_changed(departure_effects(p, c, m), id),
        announces_removed(departure_effects(p, c, m), id) <==> exists|j: int|
            0 <= j < m && #[trigger] departs(p, c, j, id),
    decreases m,
{
    if m == 0 {
        let s = departure_effects(p, c, 0);
        assert(s.len() == 0);
    } else {
        lemma_departure_members(p, c, m - 1, id);
        let rest = departure_effects(p, c, m - 1);
        if !claimed_before(c, c.len() as int, m - 1) {
            lemma_announces_push(rest, StateEffect::GpuRemoved(p[m - 1].id), id);
            if p[m - 1].id@ == id {
                assert(departs(p, c, m - 1, id));
            }
        }
        if exists|j: int| 0 <= j < m && #[trigger] departs(p, c, j, id) {
            let j = choose|j: int| 0 <= j < m && #[trigger] departs(p, c, j, id);
            if j < m - 1 {
                assert(exists|j2: int| 0 <= j2 < m - 1 && #[trigger] departs(p, c, j2, id));
            }
        }
        if exists|j: int| 0 <= j < m - 1 && #[trigger] departs(p, c, j, id) {
            let j = choose|j: int| 0 <= j < m - 1 && #[trigger] departs(p, c, j, id);
            assert(departs(p, c, j, id) && 0 <= j < m);
        }
    }
}

/// With distinct identifiers, what a discovered GPU keeps is exactly the
/// tracked GPU of its identifier.
proof fn lemma_carried_exact(
    p: Seq<TopologyEntry>,
    d: Seq<TopologyEntry>,
    c: Seq<Option<usize>>,
    i: int,
)
    requires
        carries(p, d, c, d.len() as int),
        c.len() == d.len(),
        p.len() <= usize::MAX,
        ids_distinct(d),
        0 <= i < d.len(),
    ensures
        c[i] is Some ==> 0 <= c[i]->0 < p.len() && p[c[i]->0 as int].id@ == d[i].id@,
        c[i] is None ==> !has_id(p, d[i].id@),
{
    assert(carried_right(p, d, c, i));
    if c[i] is None && has_id(p, d[i].id@) {
        let j = choose|j: int| 0 <= j < p.len() && (#[trigger] p[j]).id@ == d[i].id@;
        assert(claimed_before(c, i, j));
        let k = choose|k: int| 0 <= k < i && #[trigger] c[k] == Some(j as usize);
        assert(carried_right(p, d, c, k));
        assert(d[k].id@ == d[i].id@);
        assert(false);
    }
}

/// With distinct identifiers, a tracked GPU is kept exactly when a
/// discovered GPU has its identifier.
proof fn lemma_claimed_exact(
    p: Seq<TopologyEntry>,
    d: Seq<TopologyEntry>,
    c: Seq<Option<usize>>,
    j: int,
)
    requires
        carries(p, d, c, d.len() as int),
        c.len() == d.len(),
        p.len() <= usize::MAX,
        ids_distinct(p),
        ids_distinct(d),
        0 <= j < p.len(),
    ensures
        claimed_before(c, c.len() as int, j) <==> has_id(d, p[j].id@),
{
    if claimed_before(c, c.len() as int, j) {
        let k = choose|k: int| 0 <= k < c.len() && #[trigger] c[k] == Some(j as usize);
        assert(carried_right(p, d, c, k));
        assert(d[k].id@ == p[j].id@);
    }
    if has_id(d, p[j].id@) {
        let i = choose|i: int| 0 <= i < d.len() && (#[trigger] d[i]).id@ == p[j].id@;
        lemma_carried_exact(p, d, c, i);
        assert(p[j].id@ == d[i].id@);
        assert(c[i] is Some);
        let j2 = c[i]->0 as int;
        if j2 != j {
            if j2 < j {
                assert(p[j2].id@ != p[j].id@);
            } else {
                assert(p[j].id@ != p[j2].id@);
            }
        }
        assert(c[i] == Some(j as usize));
    }
}

/// With distinct identifiers on both sides, reconciliation announces exactly
/// the set differences: an arrival for each discovered GPU that was not
/// tracked, a departure for each tracked GPU that was not discovered, a
/// partition change for each GPU on both sides whose layout differs, and
/// nothing else.
pub proof fn lemma_effects_are_set_differences(
    previous: Seq<TopologyEntry>,
    discovered: Seq<TopologyEntry>,
    carried: Seq<Option<usize>>,
    id: Seq<char>,
)
    requires
        carried.len() == discovered.len(),
        previous.len() <= usize::MAX,
        carries(previous, discovered, carried, discovered.len() as int),
        ids_distinct(previous),
        ids_distinct(discovered),
    ensures
        ({
            let effects = arrival_effects(previous, discovered, carried, discovered.len() as int)
                + departure_effects(previous, carried, previous.len() as int);
            &&& announces_added(effects, id) <==> has_id(discovered, id) && !has_id(previous, id)
            &&& announces_removed(effects, id) <==> has_id(previous, id) && !has_id(discovered, id)
            &&& announces_changed(effects, id) <==> exists|i: int, j: int|
                0 <= i < discovered.len() && 0 <= j < previous.len() && (#[trigger] discovered[i]).id@
                    == id && (#[trigger] previous[j]).id@ == id && previous[j].layout()
                    != discovered[i].layout()
        }),
{
    let p = previous;
    let d = discovered;
    let c = carried;
    let a = arrival_effects(p, d, c, d.len() as int);
    let r = departure_effects(p, c, p.len() as int);
    lemma_announces_concat(a, r, id);
    lemma_arrival_members(p, d, c, d.len() as int, id);
    lemma_departure_members(p, c, p.len() as int, id);
    // Arrivals.
    if exists|i: int| 0 <= i < d.len() && #[trigger] arrives_new(d, c, i, id) {
        let i = choose|i: int| 0 <= i < d.len() && #[trigger] arrives_new(d, c, i, id);
        lemma_carried_exact(p, d, c, i);
        assert(d[i].id@ == id);
    }
    if has_id(d, id) && !has_id(p, id) {
        let i = choose|i: int| 0 <= i < d.len() && (#[trigger] d[i]).id@ == id;
        lemma_carried_exact(p, d, c, i);
        if c[i] is Some {
            let j = c[i]->0 as int;
            assert(p[j].id@ == id);
        }
        assert(arrives_new(d, c, i, id));
    }
    // Departures.
    if exists|j: int| 0 <= j < p.len() && #[trigger] departs(p, c, j, id) {
        let j = choose|j: int| 0 <= j < p.len() && #[trigger] departs(p, c, j, id);
        lemma_claimed_exact(p, d, c, j);
        assert(p[j].id@ == id);
    }
    if has_id(p, id) && !has_id(d, id) {
        let j = choose|j: int| 0 <= j < p.len() && (#[trigger] p[j]).id@ == id;
        lemma_claimed_exact(p, d, c, j);
        assert(departs(p, c, j, id));
    }
    // Partition changes.
    if exists|i: int| 0 <= i < d.len() && #[trigger] arrives_changed(p, d, c, i, id) {
        let i = choose|i: int| 0 <= i < d.len() && #[trigger] arrives_changed(p, d, c, i, id);
        lemma_carried_exact(p, d, c, i);
        let j = c[i]->0 as int;
        assert(d[i].id@ == id && p[j].id@ == id && p[j].layout() != d[i].layout());
    }
    if exists|i: int, j: int|
        0 <= i < d.len() && 0 <= j < p.len() && (#[trigger] d[i]).id@ == id && (#[trigger] p[j]).id@
            == id && p[j].layout() != d[i].layout() {
        let (i, j) = choose|i: int, j: int|
            0 <= i < d.len() && 0 <= j < p.len() && (#[trigger] d[i]).id@ == id && (#[trigger] p[j]).id@
                == id && p[j].layout() != d[i].layout();
        lemma_carried_exact(p, d, c, i);
        assert(has_id(p, d[i].id@));
        let j2 = c[i]->0 as int;
        if j2 != j {
            if j2 < j {
                assert(p[j2].id@ != p[j].id@);
            } else {
                assert(p[j].id@ != p[j2].id@);
            }
        }
        assert(arrives_changed(p, d, c, i, id));
    }
}

} // verus!
