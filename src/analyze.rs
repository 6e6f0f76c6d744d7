//! The aggregator: partitions a batch by ecosystem, resolves each resolvable
//! partition, reports each other one as unsupported, and merges the results.

use crate::fault::{faults_view, DependencyError, DependencyErrors, FaultView};
use crate::metadata::{resolvable, texts_view, ModMetadata, ModView, Platform, PlatformView};
use crate::resolve::{
    has_cycle, order_distinct, placed, lemma_find_last, unique_ids, needs_record, no_reserved_missing, records_view, reserved, resolution,
    resolve_dependencies,
};
use vstd::prelude::*;

verus! {

/// The ecosystem tags of the first `k` records, each once, in the order of
/// their first appearance.
pub open spec fn tags_upto(mods: Seq<ModView>, k: int) -> Seq<PlatformView>
    decreases k,
{
    if k <= 0 {
        Seq::<PlatformView>::empty()
    } else {
        let t = tags_upto(mods, k - 1);
        if t.contains(mods[k - 1].platform) {
            t
        } else {
            t.push(mods[k - 1].platform)
        }
    }
}

pub open spec fn platform_tags(mods: Seq<ModView>) -> Seq<PlatformView> {
    tags_upto(mods, mods.len() as int)
}

/// The records among the first `k` tagged `p`, in input order.
pub open spec fn partition_upto(mods: Seq<ModView>, p: PlatformView, k: int) -> Seq<ModView>
    decreases k,
{
    if k <= 0 {
        Seq::<ModView>::empty()
    } else {
        let m = partition_upto(mods, p, k - 1);
        if mods[k - 1].platform == p {
            m.push(mods[k - 1])
        } else {
            m
        }
    }
}

/// The partition of tag `p`: its records in input order.
pub open spec fn partition(mods: Seq<ModView>, p: PlatformView) -> Seq<ModView> {
    partition_upto(mods, p, mods.len() as int)
}

pub open spec fn file_names(part: Seq<ModView>) -> Seq<Seq<char>> {
    part.map_values(|m: ModView| m.file_name)
}

/// The combined order and the collected faults after the first `g` tags.
pub open spec fn gather(mods: Seq<ModView>, tags: Seq<PlatformView>, g: int) -> (
    Seq<ModView>,
    Seq<FaultView>,
)
    decreases g,
{
    if g <= 0 {
        (Seq::<ModView>::empty(), Seq::<FaultView>::empty())
    } else {
        let (o, f) = gather(mods, tags, g - 1);
        let p = tags[g - 1];
        let part = partition(mods, p);
        if resolvable(p) {
            match resolution(part) {
                Ok(order) => (o + order.map_values(|q: int| part[q]), f),
                Err(e) => (o, f + e),
            }
        } else {
            (o, f.push(FaultView::UnsupportedPlatform(p, file_names(part))))
        }
    }
}

/// The outcome of analyzing a batch: every partition's order, one after the
/// other, when no partition has a fault; else every fault, partition by
/// partition in the order found.
pub open spec fn analysis(mods: Seq<ModView>) -> Result<Seq<ModView>, Seq<FaultView>> {
    let tags = platform_tags(mods);
    let (o, f) = gather(mods, tags, tags.len() as int);
    if f.len() == 0 {
        Ok(o)
    } else {
        Err(f)
    }
}

/// Some record of the batch is tagged `p` and has the id `d`.
pub open spec fn has_record(mods: Seq<ModView>, p: PlatformView, d: Seq<char>) -> bool {
    exists|i: int| 0 <= i < mods.len() && mods[i].platform == p && #[trigger] mods[i].mod_id == d
}

/// Every record of `out` comes after a record of its own ecosystem for each
/// dependency that is not reserved and that some record of that ecosystem in
/// the batch has.
pub open spec fn batch_deps_first(mods: Seq<ModView>, out: Seq<ModView>) -> bool {
    forall|x: int, j: int|
        0 <= x < out.len() && 0 <= j < out[x].dependencies.len() && !reserved(
            #[trigger] out[x].dependencies[j].mod_id,
        ) && has_record(mods, out[x].platform, out[x].dependencies[j].mod_id) ==> exists|y: int|
            0 <= y < x && out[y].mod_id == out[x].dependencies[j].mod_id && out[y].platform
                == out[x].platform
}

/// Every record of the batch has a record with its id and ecosystem in `out`.
pub open spec fn covers(mods: Seq<ModView>, out: Seq<ModView>) -> bool {
    forall|i: int|
        0 <= i < mods.len() ==> exists|y: int|
            0 <= y < out.len() && out[y].mod_id == (#[trigger] mods[i]).mod_id && out[y].platform
                == mods[i].platform
}

/// Every record of `out` is a record of the batch.
pub open spec fn from_batch(mods: Seq<ModView>, out: Seq<ModView>) -> bool {
    forall|y: int| 0 <= y < out.len() ==> exists|i: int| 0 <= i < mods.len() && mods[i] == #[trigger] out[y]
}

/// No two records of `out` share both id and ecosystem.
pub open spec fn distinct_records(out: Seq<ModView>) -> bool {
    forall|a: int, b: int|
        0 <= a < b < out.len() ==> !((#[trigger] out[a]).mod_id == (#[trigger] out[b]).mod_id
            && out[a].platform == out[b].platform)
}

pub proof fn lemma_tags_distinct(mods: Seq<ModView>, k: int)
    requires
        0 <= k <= mods.len(),
    ensures
        forall|a: int, b: int|
            0 <= a < b < tags_upto(mods, k).len() ==> #[trigger] tags_upto(mods, k)[a]
                != #[trigger] tags_upto(mods, k)[b],
    decreases k,
{
    if k > 0 {
        lemma_tags_distinct(mods, k - 1);
        let t = tags_upto(mods, k - 1);
        if !t.contains(mods[k - 1].platform) {
            assert forall|a: int, b: int|
                0 <= a < b < tags_upto(mods, k).len() implies #[trigger] tags_upto(mods, k)[a]
                    != #[trigger] tags_upto(mods, k)[b] by {
                if b == t.len() {
                    assert(tags_upto(mods, k)[a] == t[a]);
                }
            }
        }
    }
}

pub proof fn lemma_tags_cover(mods: Seq<ModView>, k: int)
    requires
        0 <= k <= mods.len(),
    ensures
        forall|i: int|
            0 <= i < k ==> exists|h: int|
                0 <= h < tags_upto(mods, k).len() && tags_upto(mods, k)[h] == (#[trigger] mods[i]).platform,
    decreases k,
{
    if k > 0 {
        lemma_tags_cover(mods, k - 1);
        let t = tags_upto(mods, k - 1);
        assert forall|i: int| 0 <= i < k implies exists|h: int|
            0 <= h < tags_upto(mods, k).len() && tags_upto(mods, k)[h] == (#[trigger] mods[i]).platform by {
            if i < k - 1 {
                let h = choose|h: int| 0 <= h < t.len() && t[h] == mods[i].platform;
                assert(tags_upto(mods, k)[h] == t[h]);
            } else if t.contains(mods[k - 1].platform) {
                let h = choose|h: int| 0 <= h < t.len() && t[h] == mods[k - 1].platform;
                assert(tags_upto(mods, k)[h] == t[h]);
            } else {
                assert(tags_upto(mods, k)[t.len() as int] == mods[k - 1].platform);
            }
        }
    }
}

pub proof fn lemma_partition_members(mods: Seq<ModView>, p: PlatformView, k: int)
    requires
        0 <= k <= mods.len(),
    ensures
        forall|z: int|
            0 <= z < partition_upto(mods, p, k).len() ==> (#[trigger] partition_upto(
                mods,
                p,
                k,
            )[z]).platform == p,
    decreases k,
{
    if k > 0 {
        lemma_partition_members(mods, p, k - 1);
    }
}

pub proof fn lemma_partition_from_batch(mods: Seq<ModView>, p: PlatformView, k: int, z: int)
    requires
        0 <= k <= mods.len(),
        0 <= z < partition_upto(mods, p, k).len(),
    ensures
        exists|i: int| 0 <= i < k && #[trigger] mods[i] == partition_upto(mods, p, k)[z],
    decreases k,
{
    let prev = partition_upto(mods, p, k - 1);
    if z < prev.len() {
        lemma_partition_from_batch(mods, p, k - 1, z);
        let i = choose|i: int| 0 <= i < k - 1 && #[trigger] mods[i] == prev[z];
        assert(partition_upto(mods, p, k)[z] == prev[z]);
    } else {
        assert(mods[k - 1] == partition_upto(mods, p, k)[z]);
    }
}

pub proof fn lemma_partition_has(mods: Seq<ModView>, p: PlatformView, k: int, d: Seq<char>)
    requires
        0 <= k <= mods.len(),
        exists|i: int| 0 <= i < k && mods[i].platform == p && #[trigger] mods[i].mod_id == d,
    ensures
        exists|z: int|
            0 <= z < partition_upto(mods, p, k).len() && #[trigger] partition_upto(mods, p, k)[z].mod_id
                == d,
    decreases k,
{
    let i = choose|i: int| 0 <= i < k && mods[i].platform == p && #[trigger] mods[i].mod_id == d;
    let prev = partition_upto(mods, p, k - 1);
    if i == k - 1 {
        assert(partition_upto(mods, p, k)[prev.len() as int].mod_id == d);
    } else {
        lemma_partition_has(mods, p, k - 1, d);
        let z = choose|z: int| 0 <= z < prev.len() && #[trigger] prev[z].mod_id == d;
        assert(partition_upto(mods, p, k)[z] == prev[z]);
    }
}

pub open spec fn mods_view(v: Seq<ModMetadata>) -> Seq<ModView> {
    v.map_values(|m: ModMetadata| m@)
}

pub open spec fn platforms_view(v: Seq<Platform>) -> Seq<PlatformView> {
    v.map_values(|p: Platform| p@)
}

fn has_tag(tags: &Vec<Platform>, p: &Platform) -> (r: bool)
    ensures
        r == platforms_view(tags@).contains(p@),
{
    let mut i: usize = 0;
    while i < tags.len()
        invariant
            i <= tags.len(),
            forall|x: int| 0 <= x < i ==> tags@[x]@ != p@,
        decreases tags.len() - i,
    {
        if tags[i].same_as(p) {
            proof {
                assert(platforms_view(tags@)[i as int] == p@);
            }
            return true;
        }
        i = i + 1;
    }
    proof {
        if platforms_view(tags@).contains(p@) {
            let x = choose|x: int| 0 <= x < platforms_view(tags@).len() && platforms_view(tags@)[x] == p@;
            assert(tags@[x]@ == p@);
        }
    }
    false
}

/// The distinct tags of a batch, in order of first appearance.
fn collect_tags(mods: &[ModMetadata]) -> (r: Vec<Platform>)
    ensures
        platforms_view(r@) == platform_tags(mods_view(mods@)),
{
    let ghost all = mods_view(mods@);
    let mut tags: Vec<Platform> = Vec::new();
    let mut i: usize = 0;
    while i < mods.len()
        invariant
            i <= mods.len(),
            all == mods_view(mods@),
            platforms_view(tags@) == tags_upto(all, i as int),
        decreases mods.len() - i,
    {
        proof {
            assert(all[i as int].platform == mods@[i as int].platform@);
        }
        if !has_tag(&tags, &mods[i].platform) {
            let ghost prev = tags@;
            tags.push(mods[i].platform.duplicate());
            proof {
                assert(platforms_view(tags@) =~= platforms_view(prev).push(mods@[i as int].platform@));
            }
        }
        i = i + 1;
    }
    tags
}

/// The records of a batch tagged `p`, in input order.
fn collect_partition<'a>(mods: &'a [ModMetadata], p: &Platform) -> (r: Vec<&'a ModMetadata>)
    ensures
        records_view(r@) == partition(mods_view(mods@), p@),
{
    let ghost all = mods_view(mods@);
    let mut part: Vec<&'a ModMetadata> = Vec::new();
    let mut i: usize = 0;
    while i < mods.len()
        invariant
            i <= mods.len(),
            all == mods_view(mods@),
            records_view(part@) == partition_upto(all, p@, i as int),
        decreases mods.len() - i,
    {
        if mods[i].platform.same_as(p) {
            let ghost prev = part@;
            part.push(&mods[i]);
            proof {
                assert(records_view(part@) =~= records_view(prev).push(all[i as int]));
            }
        }
        i = i + 1;
    }
    part
}

/// Analyzes a whole batch: each ecosystem partition is resolved on its own
/// (or reported unsupported); the result is the combined order when no fault
/// was found anywhere, else the report of every fault.
pub fn analyze_dependencies(mods: &[ModMetadata]) -> (r: Result<Vec<ModMetadata>, DependencyErrors>)
    ensures
        match r {
            Ok(ordered) => analysis(mods_view(mods@)) == Ok::<Seq<ModView>, Seq<FaultView>>(
                mods_view(ordered@),
            ),
            Err(e) => analysis(mods_view(mods@)) == Err::<Seq<ModView>, Seq<FaultView>>(e@),
        },
        r matches Ok(ordered) ==> batch_deps_first(mods_view(mods@), mods_view(ordered@)),
        r matches Ok(ordered) ==> covers(mods_view(mods@), mods_view(ordered@)),
        r matches Ok(ordered) ==> from_batch(mods_view(mods@), mods_view(ordered@)),
        r matches Ok(ordered) ==> distinct_records(mods_view(ordered@)),
        forall|p: PlatformView|
            resolvable(p) && unique_ids(#[trigger] partition(mods_view(mods@), p)) && has_cycle(
                partition(mods_view(mods@), p),
            ) ==> r is Err,
        r matches Err(e) ==> no_reserved_missing(e@),
{
    let ghost all = mods_view(mods@);
    let tags = collect_tags(mods);
    let ghost tv = platforms_view(tags@);
    let mut result: Vec<ModMetadata> = Vec::new();
    let mut all_errors: Vec<DependencyError> = Vec::new();
    let mut g: usize = 0;
    proof {
        lemma_tags_distinct(all, all.len() as int);
        assert(mods_view(result@) =~= Seq::<ModView>::empty());
        assert(faults_view(all_errors@) =~= Seq::<FaultView>::empty());
    }
    while g < tags.len()
        invariant
            g <= tags.len(),
            all == mods_view(mods@),
            tv == platforms_view(tags@),
            tv == platform_tags(all),
            gather(all, tv, g as int) == (mods_view(result@), faults_view(all_errors@)),
            batch_deps_first(all, mods_view(result@)),
            from_batch(all, mods_view(result@)),
            distinct_records(mods_view(result@)),
            forall|y: int|
                0 <= y < mods_view(result@).len() ==> exists|h: int|
                    0 <= h < g && tv[h] == (#[trigger] mods_view(result@)[y]).platform,
            forall|a: int, b: int| 0 <= a < b < tv.len() ==> #[trigger] tv[a] != #[trigger] tv[b],
            no_reserved_missing(faults_view(all_errors@)),
            forall|h: int|
                0 <= h < g && resolvable(tv[h]) && unique_ids(#[trigger] partition(all, tv[h]))
                    && has_cycle(partition(all, tv[h])) ==> all_errors@.len() > 0,
            all_errors@.len() == 0 ==> forall|i: int|
                0 <= i < all.len() && (exists|h: int| 0 <= h < g && tv[h] == (#[trigger] all[i]).platform)
                    ==> exists|y: int|
                    0 <= y < mods_view(result@).len() && mods_view(result@)[y].mod_id == all[i].mod_id
                        && mods_view(result@)[y].platform == all[i].platform,
        decreases tags.len() - g,
    {
        let platform = &tags[g];
        let ghost p = tv[g as int];
        let members = collect_partition(mods, platform);
        let ghost part = partition(all, p);
        if platform.is_resolvable() {
            match resolve_dependencies(members) {
                Ok(resolved) => {
                    let ghost order = resolution(part)->Ok_0;
                    let ghost prev = result@;
                    let mut q: usize = 0;
                    while q < resolved.len()
                        invariant
                            q <= resolved@.len(),
                            resolved@.len() == order.len(),
                            forall|x: int| 0 <= x < order.len() ==> resolved@[x]@ == part[order[x]],
                            mods_view(result@) == mods_view(prev) + order.subrange(0, q as int).map_values(
                                |x: int| part[x],
                            ),
                        decreases resolved@.len() - q,
                    {
                        let ghost before = result@;
                        result.push(resolved[q].duplicate());
                        proof {
                            assert(mods_view(result@) =~= mods_view(before).push(part[order[q as int]]));
                            assert(order.subrange(0, q + 1).map_values(|x: int| part[x])
                                =~= order.subrange(0, q as int).map_values(|x: int| part[x]).push(part[order[q as int]]));
                        }
                        q = q + 1;
                    }
                    proof {
                        assert(order.subrange(0, order.len() as int) =~= order);
                        assert(forall|x: int| 0 <= x < order.len() ==> resolved@[x]@ == part[order[x]]);
                        lemma_partition_members(all, p, all.len() as int);
                        let out = mods_view(result@);
                        let pv = mods_view(prev);
                        assert(out == pv + order.map_values(|x: int| part[x]));
                        assert forall|x: int, j: int|
                            0 <= x < out.len() && 0 <= j < out[x].dependencies.len() && !reserved(
                                #[trigger] out[x].dependencies[j].mod_id,
                            ) && has_record(all, out[x].platform, out[x].dependencies[j].mod_id)
                            implies exists|y: int|
                            0 <= y < x && out[y].mod_id == out[x].dependencies[j].mod_id
                                && out[y].platform == out[x].platform by {
                            let d = out[x].dependencies[j].mod_id;
                            if x < pv.len() {
                                assert(out[x] == pv[x]);
                                assert(pv[x].dependencies[j].mod_id == d);
                                let y = choose|y: int|
                                    0 <= y < x && pv[y].mod_id == d && pv[y].platform == pv[x].platform;
                                assert(out[y] == pv[y]);
                            } else {
                                let q = x - pv.len();
                                assert(out[x] == part[order[q]]);
                                assert(part[order[q]].platform == p);
                                lemma_partition_has(all, p, all.len() as int, d);
                                lemma_find_last(part, d, part.len() as int);
                                assert(needs_record(part, d));
                                assert(part[order[q]].dependencies[j].mod_id == d);
                                let yy = choose|yy: int|
                                    0 <= yy < q && #[trigger] part[order[yy]].mod_id == d;
                                assert(out[pv.len() + yy] == part[order[yy]]);
                                assert(part[order[yy]].platform == p);
                            }
                        }
                        assert forall|y: int| 0 <= y < out.len() implies exists|i: int|
                            0 <= i < all.len() && all[i] == #[trigger] out[y] by {
                            if y < pv.len() {
                                assert(out[y] == pv[y]);
                            } else {
                                let q = y - pv.len();
                                assert(out[y] == part[order[q]]);
                                lemma_partition_from_batch(all, p, all.len() as int, order[q]);
                            }
                        }
                        assert forall|y: int| 0 <= y < out.len() implies exists|h: int|
                            0 <= h < g + 1 && tv[h] == (#[trigger] out[y]).platform by {
                            if y < pv.len() {
                                assert(out[y] == pv[y]);
                                let h = choose|h: int| 0 <= h < g && tv[h] == (#[trigger] pv[y]).platform;
                            } else {
                                assert(out[y] == part[order[y - pv.len()]]);
                                assert(tv[g as int] == out[y].platform);
                            }
                        }
                        assert forall|a: int, b: int| 0 <= a < b < out.len() implies !((#[trigger] out[a]).mod_id
                            == (#[trigger] out[b]).mod_id && out[a].platform == out[b].platform) by {
                            if b < pv.len() {
                                assert(out[a] == pv[a] && out[b] == pv[b]);
                            } else if a < pv.len() {
                                assert(out[a] == pv[a]);
                                let h = choose|h: int| 0 <= h < g && tv[h] == (#[trigger] pv[a]).platform;
                                assert(out[b] == part[order[b - pv.len()]]);
                                assert(out[b].platform == p);
                                assert(tv[h] != tv[g as int]);
                            } else {
                                assert(out[a] == part[order[a - pv.len()]]);
                                assert(out[b] == part[order[b - pv.len()]]);
                                assert(order_distinct(part, order));
                            }
                        }
                        if all_errors@.len() == 0 {
                            assert forall|i: int|
                                0 <= i < all.len() && (exists|h: int| 0 <= h < g + 1 && tv[h] == (#[trigger] all[i]).platform)
                                    implies exists|y: int|
                                    0 <= y < out.len() && out[y].mod_id == all[i].mod_id
                                        && out[y].platform == all[i].platform by {
                                let h = choose|h: int| 0 <= h < g + 1 && tv[h] == all[i].platform;
                                if h < g {
                                    let y = choose|y: int|
                                        0 <= y < pv.len() && pv[y].mod_id == all[i].mod_id
                                            && pv[y].platform == all[i].platform;
                                    assert(out[y] == pv[y]);
                                } else {
                                    let d = all[i].mod_id;
                                    lemma_partition_has(all, p, all.len() as int, d);
                                    let z = choose|z: int| 0 <= z < part.len() && #[trigger] part[z].mod_id == d;
                                    assert(records_view(members@)[z].mod_id == d);
                                    assert(placed(part, order, order.len() as int, d));
                                    let yy = choose|yy: int| 0 <= yy < order.len() && #[trigger] part[order[yy]].mod_id == d;
                                    assert(out[pv.len() + yy] == part[order[yy]]);
                                    assert(part[order[yy]].platform == p);
                                }
                            }
                        }
                    }
                },
                Err(errors) => {
                    let ghost prev = all_errors@;
                    let mut es = errors.0;
                    all_errors.append(&mut es);
                    proof {
                        assert(faults_view(all_errors@) =~= faults_view(prev) + errors@);
                        let fv = faults_view(all_errors@);
                        assert forall|x: int| 0 <= x < fv.len() implies (#[trigger] fv[x] matches crate::fault::FaultView::MissingDependency(_, _, t) ==> !reserved(t)) by {
                            if x < faults_view(prev).len() {
                                assert(fv[x] == faults_view(prev)[x]);
                            } else {
                                assert(fv[x] == errors@[x - faults_view(prev).len()]);
                            }
                        }
                    }
                },
            }
        } else {
            let mut files: Vec<String> = Vec::new();
            let mut q: usize = 0;
            while q < members.len()
                invariant
                    q <= members@.len(),
                    records_view(members@) == part,
                    texts_view(files@) == file_names(part.subrange(0, q as int)),
                decreases members@.len() - q,
            {
                let ghost before = files@;
                files.push(members[q].file_name.clone());
                proof {
                    assert(texts_view(files@) =~= texts_view(before).push(part[q as int].file_name));
                    assert(file_names(part.subrange(0, q + 1)) =~= file_names(part.subrange(0, q as int)).push(part[q as int].file_name));
                }
                q = q + 1;
            }
            proof {
                assert(part.subrange(0, part.len() as int) =~= part);
            }
            let ghost prev = all_errors@;
            all_errors.push(DependencyError::UnsupportedPlatform(platform.duplicate(), files));
            proof {
                assert(faults_view(all_errors@) =~= faults_view(prev).push(all_errors@.last()@));
            }
        }
        g = g + 1;
    }
    proof {
        lemma_tags_cover(all, all.len() as int);
        assert forall|p: PlatformView|
            resolvable(p) && unique_ids(#[trigger] partition(all, p)) && has_cycle(partition(all, p))
                implies all_errors@.len() > 0 by {
            let part = partition(all, p);
            let c = choose|c: Seq<int>| crate::resolve::is_cycle(part, c);
            assert(0 <= c[0] < part.len());
            lemma_partition_from_batch(all, p, all.len() as int, c[0]);
            lemma_partition_members(all, p, all.len() as int);
            let i = choose|i: int| 0 <= i < all.len() && #[trigger] all[i] == part[c[0]];
            assert(all[i].platform == p);
            let h = choose|h: int| 0 <= h < tv.len() && tv[h] == (#[trigger] all[i]).platform;
            assert(partition(all, tv[h]) == part);
        }
    }
    if all_errors.len() == 0 {
        Ok(result)
    } else {
        Err(DependencyErrors(all_errors))
    }
}

} // verus!
