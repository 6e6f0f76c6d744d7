//! Properties of the analysis as a whole.

use crate::analyze::{analysis, partition, partition_upto};
use crate::metadata::{ModView, PlatformView};
use crate::resolve::{follow, reserved, Walk};
use vstd::prelude::*;

verus! {

/// Analyzing the same records twice gives the same outcome: the same order on
/// success, the same faults in the same order otherwise.
pub proof fn analysis_is_deterministic(a: Seq<ModView>, b: Seq<ModView>)
    requires
        a == b,
    ensures
        analysis(a) == analysis(b),
{
}

/// A dependency on a reserved id is skipped outright: following it adds no
/// fault, visits nothing and changes no mark, whether it is mandatory or not
/// and whatever its requirement says.
pub proof fn reserved_dependency_is_skipped(
    part: Seq<ModView>,
    fuel: nat,
    n: int,
    j: int,
    w: Walk,
)
    requires
        0 <= n < part.len(),
        0 <= j < part[n].dependencies.len(),
        reserved(part[n].dependencies[j].mod_id),
    ensures
        follow(part, fuel, n, j, w) == w,
{
}

/// The partition of an ecosystem does not depend on the records of other
/// ecosystems: adding one of them leaves it as it was.
pub proof fn partition_ignores_other_ecosystems(mods: Seq<ModView>, extra: ModView, p: PlatformView)
    requires
        extra.platform != p,
    ensures
        partition(mods.push(extra), p) == partition(mods, p),
{
    lemma_partition_prefix(mods.push(extra), mods, p, mods.len() as int);
}

proof fn lemma_partition_prefix(a: Seq<ModView>, b: Seq<ModView>, p: PlatformView, k: int)
    requires
        0 <= k <= b.len(),
        b.len() <= a.len(),
        forall|i: int| 0 <= i < b.len() ==> a[i] == b[i],
    ensures
        partition_upto(a, p, k) == partition_upto(b, p, k),
    decreases k,
{
    if k > 0 {
        lemma_partition_prefix(a, b, p, k - 1);
    }
}

} // verus!
