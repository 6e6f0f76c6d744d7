//! Dependency resolution within one ecosystem partition: a depth-first walk
//! that orders every record after the records it depends on and collects
//! every missing, circular, conflicting or malformed dependency on the way.

use crate::fault::{faults_view, DependencyError, DependencyErrors, FaultView};
use crate::metadata::{
    texts_view, copy_texts, DependencyVersionRange, ModDependency, ModMetadata, ModView, RangeView,
    DependencyView,
};
use crate::text::{join_texts, joined};
use crate::version::{constraint_admits, constraint_of, is_semver, SemVer, VersionConstraint};
use vstd::prelude::*;
use vstd::string::*;

verus! {

/// Ids that stand for the host runtime or loader itself; they never have to
/// be present as records.
pub open spec fn reserved(id: Seq<char>) -> bool {
    ||| id == "minecraft"@
    ||| id == "forge"@
    ||| id == "fabricloader"@
    ||| id == "fabric-resource-loader-v0"@
    ||| id == "java"@
    ||| id == "neoforge"@
}

/// The last record among the first `k` whose id is `id`.
pub open spec fn find_last(part: Seq<ModView>, id: Seq<char>, k: int) -> Option<int>
    decreases k,
{
    if k <= 0 {
        None
    } else if part[k - 1].mod_id == id {
        Some(k - 1)
    } else {
        find_last(part, id, k - 1)
    }
}

/// The record that a dependency on `id` resolves to: the last one with that id.
pub open spec fn lookup(part: Seq<ModView>, id: Seq<char>) -> Option<int> {
    find_last(part, id, part.len() as int)
}

/// The record that stands for the id of record `n`; marks are kept there.
pub open spec fn key_of(part: Seq<ModView>, n: int) -> int {
    match lookup(part, part[n].mod_id) {
        Some(k) => k,
        None => n,
    }
}

/// Where the walk stands with an id.
#[derive(Debug, Clone, Copy, PartialEq, Eq, Structural)]
pub enum Mark {
    Unvisited,
    InProgress,
    Done,
}

/// The state of a walk: a mark per record, the records finished so far in
/// order, the ids on the current path, and the faults found so far.
pub struct Walk {
    pub marks: Seq<Mark>,
    pub order: Seq<int>,
    pub path: Seq<Seq<char>>,
    pub faults: Seq<FaultView>,
}

/// The alternatives of a requirement.
pub open spec fn alternatives(r: RangeView) -> Seq<Seq<char>> {
    match r {
        RangeView::Single(s) => seq![s],
        RangeView::Multiple(v) => v,
    }
}

/// The requirement as a fault message shows it.
pub open spec fn range_text(r: RangeView) -> Seq<char> {
    match r {
        RangeView::Single(s) => s,
        RangeView::Multiple(v) => joined(v, " || "@),
    }
}

/// Goes through the alternatives up to the first that admits the version
/// spelled `v`: the invalid-format faults of those that do not parse, and
/// whether one admitted `v`.
pub open spec fn scan_alternatives(
    alts: Seq<Seq<char>>,
    v: Seq<char>,
    target: Seq<char>,
    file: Seq<char>,
) -> (Seq<FaultView>, bool)
    decreases alts.len(),
{
    if alts.len() == 0 {
        (Seq::<FaultView>::empty(), false)
    } else {
        let rest = scan_alternatives(alts.drop_first(), v, target, file);
        match constraint_of(alts[0]) {
            Ok(c) => if constraint_admits(c, v) {
                (Seq::<FaultView>::empty(), true)
            } else {
                rest
            },
            Err(_) => (
                seq![FaultView::InvalidVersionFormat(target, file, alts[0])] + rest.0,
                rest.1,
            ),
        }
    }
}

/// The faults of the edge from `src` to the present `target` whose version
/// is valid: the alternatives that do not parse, and a conflict when none
/// admits the target's version.
pub open spec fn edge_faults(dep: DependencyView, src: ModView, target: ModView) -> Seq<FaultView> {
    let scan = scan_alternatives(
        alternatives(dep.version_range),
        target.version,
        dep.mod_id,
        src.file_name,
    );
    if scan.1 {
        scan.0
    } else {
        scan.0.push(
            FaultView::VersionConflict(
                src.file_name,
                dep.mod_id,
                range_text(dep.version_range),
                target.version,
                target.file_name,
            ),
        )
    }
}

pub open spec fn with_fault(w: Walk, f: FaultView) -> Walk {
    Walk { faults: w.faults.push(f), ..w }
}

/// Visits record `n`: marks its id in progress, follows its dependencies in
/// order, then marks it done and appends it to the order. `fuel` bounds the
/// depth of the walk; `resolution` gives more than it can use.
pub open spec fn visit(part: Seq<ModView>, fuel: nat, n: int, w: Walk) -> Walk
    decreases fuel, 1int, 0int,
{
    if fuel == 0 {
        w
    } else {
        let k = key_of(part, n);
        let inner = visit_deps(part, fuel, n, 0, Walk { marks: w.marks.update(k, Mark::InProgress), ..w });
        Walk { marks: inner.marks.update(k, Mark::Done), order: inner.order.push(n), ..inner }
    }
}

/// Follows the dependencies of record `n` from the `j`-th on.
pub open spec fn visit_deps(part: Seq<ModView>, fuel: nat, n: int, j: int, w: Walk) -> Walk
    decreases fuel, 0int, part[n].dependencies.len() - j + 1,
{
    if fuel == 0 || j < 0 || j >= part[n].dependencies.len() {
        w
    } else {
        visit_deps(part, fuel, n, j + 1, follow(part, fuel, n, j, w))
    }
}

/// Follows the `j`-th dependency of record `n`: reserved ids and finished
/// targets are skipped; a target in progress closes a cycle; an absent
/// mandatory target is missing; a present one needs a valid version, has its
/// requirement checked, and is visited.
pub open spec fn follow(part: Seq<ModView>, fuel: nat, n: int, j: int, w: Walk) -> Walk
    decreases fuel, 0int, part[n].dependencies.len() - j,
{
    let src = part[n];
    let dep = src.dependencies[j];
    if fuel == 0 || j < 0 || j >= src.dependencies.len() || reserved(dep.mod_id) {
        w
    } else {
        match lookup(part, dep.mod_id) {
            None => if dep.mandatory {
                with_fault(w, FaultView::MissingDependency(src.mod_id, src.file_name, dep.mod_id))
            } else {
                w
            },
            Some(t) => if w.marks[t] == Mark::Done {
                w
            } else if w.marks[t] == Mark::InProgress {
                with_fault(w, FaultView::CircularDependency(w.path.push(dep.mod_id)))
            } else if !is_semver(part[t].version) {
                with_fault(
                    w,
                    FaultView::InvalidVersionFormat(
                        part[t].mod_id,
                        part[t].file_name,
                        part[t].version,
                    ),
                )
            } else {
                let checked = Walk {
                    path: w.path.push(dep.mod_id),
                    faults: w.faults + edge_faults(dep, src, part[t]),
                    ..w
                };
                let after = visit(part, (fuel - 1) as nat, t, checked);
                Walk { path: w.path, ..after }
            },
        }
    }
}

/// Starts a walk at every record from the `i`-th on whose id is not done yet,
/// each time with a path that holds only that record's id.
pub open spec fn walk_from(part: Seq<ModView>, i: int, w: Walk) -> Walk
    decreases part.len() - i,
{
    if i < 0 || i >= part.len() {
        w
    } else {
        let next = if w.marks[key_of(part, i)] == Mark::Done {
            w
        } else {
            visit(part, (part.len() + 1) as nat, i, Walk { path: seq![part[i].mod_id], ..w })
        };
        walk_from(part, i + 1, next)
    }
}

pub open spec fn initial_walk(len: nat) -> Walk {
    Walk {
        marks: Seq::new(len, |i: int| Mark::Unvisited),
        order: Seq::<int>::empty(),
        path: Seq::<Seq<char>>::empty(),
        faults: Seq::<FaultView>::empty(),
    }
}

/// The walk over a whole partition.
pub open spec fn full_walk(part: Seq<ModView>) -> Walk {
    walk_from(part, 0, initial_walk(part.len()))
}

/// The outcome for one partition: the order of its records (as positions)
/// when no fault was found, else every fault in the order found.
pub open spec fn resolution(part: Seq<ModView>) -> Result<Seq<int>, Seq<FaultView>> {
    let w = full_walk(part);
    if w.faults.len() == 0 {
        Ok(w.order)
    } else {
        Err(w.faults)
    }
}

/// A dependency on `d` has to be met by an earlier record: `d` is not
/// reserved and some record of the partition has it.
pub open spec fn needs_record(part: Seq<ModView>, d: Seq<char>) -> bool {
    !reserved(d) && lookup(part, d) is Some
}

/// One of the first `upto` records of `order` has the id `d`.
pub open spec fn placed(part: Seq<ModView>, order: Seq<int>, upto: int, d: Seq<char>) -> bool {
    exists|y: int| 0 <= y < upto && #[trigger] part[order[y]].mod_id == d
}

/// Every record of `order` comes after a record for each of its
/// dependencies that has to be met.
pub open spec fn deps_first(part: Seq<ModView>, order: Seq<int>) -> bool {
    forall|x: int, j: int|
        0 <= x < order.len() && 0 <= j < part[order[x]].dependencies.len() && needs_record(
            part,
            #[trigger] part[order[x]].dependencies[j].mod_id,
        ) ==> placed(part, order, x, part[order[x]].dependencies[j].mod_id)
}

/// No fault reports a reserved id as missing.
pub open spec fn no_reserved_missing(faults: Seq<FaultView>) -> bool {
    forall|i: int|
        0 <= i < faults.len() ==> (#[trigger] faults[i] matches FaultView::MissingDependency(
            _,
            _,
            t,
        ) ==> !reserved(t))
}

/// Every record in the order has its id marked done.
pub open spec fn order_done(part: Seq<ModView>, w: Walk) -> bool {
    forall|y: int| 0 <= y < w.order.len() ==> w.marks[key_of(part, #[trigger] w.order[y])] == Mark::Done
}

/// No id occurs twice in the order.
pub open spec fn order_distinct(part: Seq<ModView>, order: Seq<int>) -> bool {
    forall|a: int, b: int|
        0 <= a < b < order.len() ==> part[#[trigger] order[a]].mod_id != part[#[trigger] order[b]].mod_id
}

/// `a` is `b` followed by zero or more entries.
pub open spec fn prefix_of(b: Seq<int>, a: Seq<int>) -> bool {
    b.len() <= a.len() && forall|y: int| 0 <= y < b.len() ==> a[y] == b[y]
}

/// Every id marked done has a record in the order.
pub open spec fn done_placed(part: Seq<ModView>, w: Walk) -> bool {
    forall|k: int|
        0 <= k < w.marks.len() && #[trigger] w.marks[k] == Mark::Done ==> placed(
            part,
            w.order,
            w.order.len() as int,
            part[k].mod_id,
        )
}

pub proof fn lemma_placed_extends(part: Seq<ModView>, b: Seq<int>, a: Seq<int>, d: Seq<char>)
    requires
        prefix_of(b, a),
        placed(part, b, b.len() as int, d),
    ensures
        placed(part, a, a.len() as int, d),
{
    let y = choose|y: int| 0 <= y < b.len() && #[trigger] part[b[y]].mod_id == d;
    assert(a[y] == b[y]);
    assert(part[a[y]].mod_id == d);
}

pub proof fn lemma_deps_first_push(part: Seq<ModView>, order: Seq<int>, n: int)
    requires
        deps_first(part, order),
        forall|j: int|
            0 <= j < part[n].dependencies.len() && needs_record(
                part,
                #[trigger] part[n].dependencies[j].mod_id,
            ) ==> placed(part, order, order.len() as int, part[n].dependencies[j].mod_id),
    ensures
        deps_first(part, order.push(n)),
{
    let o2 = order.push(n);
    assert forall|x: int, j: int|
        0 <= x < o2.len() && 0 <= j < part[o2[x]].dependencies.len() && needs_record(
            part,
            #[trigger] part[o2[x]].dependencies[j].mod_id,
        ) implies placed(part, o2, x, part[o2[x]].dependencies[j].mod_id) by {
        let d = part[o2[x]].dependencies[j].mod_id;
        if x < order.len() {
            assert(o2[x] == order[x]);
            assert(placed(part, order, x, d));
            let y = choose|y: int| 0 <= y < x && #[trigger] part[order[y]].mod_id == d;
            assert(o2[y] == order[y]);
            assert(part[o2[y]].mod_id == d);
        } else {
            assert(placed(part, order, order.len() as int, d));
            let y = choose|y: int| 0 <= y < order.len() && #[trigger] part[order[y]].mod_id == d;
            assert(o2[y] == order[y]);
            assert(part[o2[y]].mod_id == d);
        }
    }
}

/// No two records of the partition share an id.
pub open spec fn unique_ids(part: Seq<ModView>) -> bool {
    forall|a: int, b: int|
        0 <= a < part.len() && 0 <= b < part.len() && a != b ==> (#[trigger] part[a]).mod_id
            != (#[trigger] part[b]).mod_id
}

/// Record `a` declares a dependency on the id of record `b`, and that id is
/// not reserved.
pub open spec fn depends_on(part: Seq<ModView>, a: int, b: int) -> bool {
    exists|j: int|
        0 <= j < part[a].dependencies.len() && #[trigger] part[a].dependencies[j].mod_id
            == part[b].mod_id && !reserved(part[b].mod_id)
}

/// The position after `i` in the cycle `c`, wrapping around.
pub open spec fn cycle_next(c: Seq<int>, i: int) -> int {
    if i + 1 < c.len() {
        i + 1
    } else {
        0
    }
}

/// The records `c[0], c[1], ...` each depend on the next, and the last on
/// the first.
pub open spec fn is_cycle(part: Seq<ModView>, c: Seq<int>) -> bool {
    &&& c.len() >= 1
    &&& forall|i: int| 0 <= i < c.len() ==> 0 <= #[trigger] c[i] < part.len()
    &&& forall|i: int| 0 <= i < c.len() ==> depends_on(part, #[trigger] c[i], c[cycle_next(c, i)])
}

pub open spec fn has_cycle(part: Seq<ModView>) -> bool {
    exists|c: Seq<int>| is_cycle(part, c)
}

/// Following a cycle backwards through an order in which dependencies come
/// first would descend forever: no position of such an order holds a record
/// of the cycle.
pub proof fn lemma_cycle_not_ordered(
    part: Seq<ModView>,
    order: Seq<int>,
    c: Seq<int>,
    i: int,
    y: int,
)
    requires
        unique_ids(part),
        deps_first(part, order),
        forall|q: int| 0 <= q < order.len() ==> 0 <= #[trigger] order[q] < part.len(),
        is_cycle(part, c),
        0 <= i < c.len(),
        0 <= y < order.len(),
    ensures
        order[y] != c[i],
    decreases y,
{
    if order[y] == c[i] {
        let next = c[cycle_next(c, i)];
        assert(depends_on(part, c[i], next));
        let j = choose|j: int|
            0 <= j < part[c[i]].dependencies.len() && #[trigger] part[c[i]].dependencies[j].mod_id
                == part[next].mod_id && !reserved(part[next].mod_id);
        let d = part[order[y]].dependencies[j].mod_id;
        lemma_find_last(part, d, part.len() as int);
        assert(needs_record(part, d));
        assert(placed(part, order, y, d));
        let y2 = choose|y2: int| 0 <= y2 < y && #[trigger] part[order[y2]].mod_id == d;
        assert(order[y2] == next);
        lemma_cycle_not_ordered(part, order, c, cycle_next(c, i), y2);
    }
}

pub open spec fn records_view(v: Seq<&ModMetadata>) -> Seq<ModView> {
    v.map_values(|m: &ModMetadata| m@)
}

} // verus!

verus! {

pub proof fn lemma_find_last(part: Seq<ModView>, id: Seq<char>, k: int)
    requires
        0 <= k <= part.len(),
    ensures
        match find_last(part, id, k) {
            Some(t) => 0 <= t < k && part[t].mod_id == id && forall|u: int|
                t < u < k ==> part[u].mod_id != id,
            None => forall|u: int| 0 <= u < k ==> part[u].mod_id != id,
        },
    decreases k,
{
    if k > 0 {
        lemma_find_last(part, id, k - 1);
    }
}

/// Every record's id resolves, to a record at or after it, which is its own key.
pub proof fn lemma_key_of(part: Seq<ModView>, n: int)
    requires
        0 <= n < part.len(),
    ensures
        lookup(part, part[n].mod_id) == Some(key_of(part, n)),
        n <= key_of(part, n) < part.len(),
        part[key_of(part, n)].mod_id == part[n].mod_id,
        key_of(part, key_of(part, n)) == key_of(part, n),
{
    lemma_find_last(part, part[n].mod_id, part.len() as int);
}

/// A record that a lookup finds is its own key.
pub proof fn lemma_lookup_is_key(part: Seq<ModView>, id: Seq<char>)
    ensures
        lookup(part, id) matches Some(t) ==> 0 <= t < part.len() && part[t].mod_id == id
            && key_of(part, t) == t,
{
    lemma_find_last(part, id, part.len() as int);
}

/// The number of unvisited marks.
pub open spec fn unvisited(marks: Seq<Mark>) -> nat
    decreases marks.len(),
{
    if marks.len() == 0 {
        0
    } else {
        unvisited(marks.drop_last()) + (if marks.last() == Mark::Unvisited {
            1nat
        } else {
            0nat
        })
    }
}

pub proof fn lemma_unvisited_set(marks: Seq<Mark>, k: int, m: Mark)
    requires
        0 <= k < marks.len(),
        m != Mark::Unvisited,
    ensures
        unvisited(marks.update(k, m)) + (if marks[k] == Mark::Unvisited {
            1nat
        } else {
            0nat
        }) == unvisited(marks),
    decreases marks.len(),
{
    if k == marks.len() - 1 {
        assert(marks.update(k, m).drop_last() =~= marks.drop_last());
    } else {
        lemma_unvisited_set(marks.drop_last(), k, m);
        assert(marks.update(k, m).drop_last() =~= marks.drop_last().update(k, m));
    }
}

pub proof fn lemma_unvisited_bound(marks: Seq<Mark>)
    ensures
        unvisited(marks) <= marks.len(),
    decreases marks.len(),
{
    if marks.len() > 0 {
        lemma_unvisited_bound(marks.drop_last());
    }
}

} // verus!

verus! {

/// Whether `id` is one of the reserved host ids.
pub fn is_reserved(id: &String) -> (r: bool)
    ensures
        r == reserved(id@),
{
    *id == String::from_str("minecraft") || *id == String::from_str("forge") || *id
        == String::from_str("fabricloader") || *id == String::from_str(
        "fabric-resource-loader-v0",
    ) || *id == String::from_str("java") || *id == String::from_str("neoforge")
}

/// The position of the record that a dependency on `id` resolves to.
fn find_record(mods: &Vec<&ModMetadata>, id: &String) -> (r: Option<usize>)
    ensures
        match r {
            Some(t) => lookup(records_view(mods@), id@) == Some(t as int),
            None => lookup(records_view(mods@), id@) is None,
        },
{
    let ghost part = records_view(mods@);
    let mut k: usize = mods.len();
    while k > 0
        invariant
            k <= mods.len(),
            part == records_view(mods@),
            find_last(part, id@, k as int) == lookup(part, id@),
        decreases k,
    {
        if mods[k - 1].mod_id == *id {
            return Some(k - 1);
        }
        k = k - 1;
    }
    None
}

pub open spec fn valid_keys(part: Seq<ModView>, keys: Seq<usize>) -> bool {
    &&& keys.len() == part.len()
    &&& forall|i: int| 0 <= i < part.len() ==> keys[i] == key_of(part, i)
}

/// For each record, the position where the marks of its id are kept.
fn record_keys(mods: &Vec<&ModMetadata>) -> (r: Vec<usize>)
    ensures
        valid_keys(records_view(mods@), r@),
{
    let ghost part = records_view(mods@);
    let mut keys: Vec<usize> = Vec::new();
    let mut i: usize = 0;
    while i < mods.len()
        invariant
            i <= mods.len(),
            part == records_view(mods@),
            keys@.len() == i,
            forall|q: int| 0 <= q < i ==> keys@[q] == key_of(part, q),
        decreases mods.len() - i,
    {
        proof {
            lemma_key_of(part, i as int);
        }
        let k = match find_record(mods, &mods[i].mod_id) {
            Some(k) => k,
            None => i,
        };
        keys.push(k);
        i = i + 1;
    }
    keys
}

/// The requirement of `dep` as a fault message shows it.
fn range_display(r: &DependencyVersionRange) -> (s: String)
    ensures
        s@ == range_text(r@),
{
    match r {
        DependencyVersionRange::Single(s) => s.clone(),
        DependencyVersionRange::Multiple(v) => join_texts(v, " || "),
    }
}

/// Appends the faults of the edge from `src` along `dep` to `target`, whose
/// version `found` is valid.
fn check_requirement(
    dep: &ModDependency,
    src: &ModMetadata,
    target: &ModMetadata,
    found: &SemVer,
    faults: &mut Vec<DependencyError>,
)
    requires
        found@ == target.version@,
        no_reserved_missing(faults_view(old(faults)@)),
    ensures
        faults_view(final(faults)@) == faults_view(old(faults)@) + edge_faults(dep@, src@, target@),
        no_reserved_missing(faults_view(final(faults)@)),
{
    let alts: Vec<String> = match &dep.version_range {
        DependencyVersionRange::Single(s) => vec![s.clone()],
        DependencyVersionRange::Multiple(v) => copy_texts(v),
    };
    let ghost all = alternatives(dep.version_range@);
    proof {
        assert(texts_view(alts@) =~= all);
    }
    let ghost start = faults_view(faults@);
    let ghost v = target.version@;
    let ghost id = dep.mod_id@;
    let ghost file = src.file_name@;
    let ghost whole = scan_alternatives(all, v, id, file);
    let ghost mut added: Seq<FaultView> = Seq::empty();
    proof {
        assert(all.subrange(0, all.len() as int) =~= all);
        assert(start + added =~= start);
        assert(added + whole.0 =~= whole.0);
    }
    let mut i: usize = 0;
    while i < alts.len()
        invariant
            i <= alts.len(),
            texts_view(alts@) == all,
            all == alternatives(dep.version_range@),
            found@ == target.version@,
            v == target.version@,
            id == dep.mod_id@,
            file == src.file_name@,
            whole == scan_alternatives(all, v, id, file),
            start == faults_view(old(faults)@),
            faults_view(faults@) == start + added,
            no_reserved_missing(faults_view(faults@)),
            whole.0 == added + scan_alternatives(all.subrange(i as int, all.len() as int), v, id, file).0,
            whole.1 == scan_alternatives(all.subrange(i as int, all.len() as int), v, id, file).1,
        decreases alts.len() - i,
    {
        let ghost rest = all.subrange(i as int, all.len() as int);
        let ghost tail = all.subrange(i + 1, all.len() as int);
        proof {
            assert(rest.drop_first() =~= tail);
            assert(rest[0] == alts@[i as int]@);
        }
        match VersionConstraint::parse(alts[i].as_str()) {
            Ok(c) => {
                if c.matches(found) {
                    proof {
                        assert(scan_alternatives(rest, v, id, file).1);
                        assert(scan_alternatives(rest, v, id, file).0 =~= Seq::<FaultView>::empty());
                        assert(added + Seq::<FaultView>::empty() =~= added);
                    }
                    return;
                }
            },
            Err(_) => {
                let ghost before = faults@;
                let ghost fault = FaultView::InvalidVersionFormat(id, file, rest[0]);
                faults.push(
                    DependencyError::InvalidVersionFormat(
                        dep.mod_id.clone(),
                        src.file_name.clone(),
                        alts[i].clone(),
                    ),
                );
                proof {
                    assert(faults_view(faults@) =~= faults_view(before).push(fault));
                    assert(faults_view(faults@) =~= start + added.push(fault));
                    assert(no_reserved_missing(faults_view(faults@)));
                    assert(added + scan_alternatives(rest, v, id, file).0 =~= added.push(fault)
                        + scan_alternatives(tail, v, id, file).0);
                    added = added.push(fault);
                }
            },
        }
        i = i + 1;
    }
    proof {
        let rest = all.subrange(i as int, all.len() as int);
        assert(rest =~= Seq::<Seq<char>>::empty());
        assert(added + Seq::<FaultView>::empty() =~= added);
    }
    let ghost before = faults@;
    faults.push(
        DependencyError::VersionConflict(
            src.file_name.clone(),
            dep.mod_id.clone(),
            range_display(&dep.version_range),
            target.version.clone(),
            target.file_name.clone(),
        ),
    );
    proof {
        assert(faults_view(faults@) =~= faults_view(before).push(faults@.last()@));
        assert(faults_view(faults@) =~= faults_view(old(faults)@) + edge_faults(dep@, src@, target@));
        assert(no_reserved_missing(faults_view(faults@)));
    }
}

} // verus!

verus! {

/// The executable state of a walk; its view is a `Walk`.
struct Walker {
    marks: Vec<Mark>,
    order: Vec<usize>,
    path: Vec<String>,
    faults: Vec<DependencyError>,
}

impl View for Walker {
    type V = Walk;

    closed spec fn view(&self) -> Walk {
        Walk {
            marks: self.marks@,
            order: self.order@.map_values(|i: usize| i as int),
            path: texts_view(self.path@),
            faults: faults_view(self.faults@),
        }
    }
}

/// Visits record `n`, whose id is unvisited, exactly as `visit` describes.
/// `fuel` exceeds the number of unvisited ids, so it never runs out; each
/// recursive call marks one more id and gets one less unit of fuel.
fn resolve_mod(
    mods: &Vec<&ModMetadata>,
    keys: &Vec<usize>,
    n: usize,
    w: &mut Walker,
    Ghost(fuel): Ghost<nat>,
)
    requires
        valid_keys(records_view(mods@), keys@),
        n < mods.len(),
        old(w).marks@.len() == mods.len(),
        old(w).marks@[key_of(records_view(mods@), n as int)] == Mark::Unvisited,
        unvisited(old(w).marks@) < fuel,
        forall|q: int| 0 <= q < old(w).order@.len() ==> old(w).order@[q] < mods.len(),
        done_placed(records_view(mods@), old(w)@),
        order_done(records_view(mods@), old(w)@),
        order_distinct(records_view(mods@), old(w)@.order),
        old(w)@.faults.len() == 0 ==> deps_first(records_view(mods@), old(w)@.order),
        no_reserved_missing(old(w)@.faults),
    ensures
        final(w)@ == visit(records_view(mods@), fuel, n as int, old(w)@),
        final(w).marks@.len() == old(w).marks@.len(),
        unvisited(final(w).marks@) < unvisited(old(w).marks@),
        forall|i: int|
            0 <= i < old(w).marks@.len() ==> ((final(w).marks@[i] == Mark::InProgress) == (
            old(w).marks@[i] == Mark::InProgress)),
        forall|q: int| 0 <= q < final(w).order@.len() ==> final(w).order@[q] < mods.len(),
        final(w)@.path == old(w)@.path,
        final(w).marks@[key_of(records_view(mods@), n as int)] == Mark::Done,
        done_placed(records_view(mods@), final(w)@),
        order_done(records_view(mods@), final(w)@),
        order_distinct(records_view(mods@), final(w)@.order),
        final(w)@.faults.len() == 0 ==> deps_first(records_view(mods@), final(w)@.order),
        no_reserved_missing(final(w)@.faults),
        prefix_of(old(w)@.order, final(w)@.order),
        final(w)@.faults.len() >= old(w)@.faults.len(),
        forall|i: int|
            0 <= i < old(w).marks@.len() && old(w).marks@[i] == Mark::Done ==> #[trigger] final(w).marks@[i] == Mark::Done,
    decreases fuel,
{
    let ghost part = records_view(mods@);
    let ghost w0 = w@;
    proof {
        lemma_key_of(part, n as int);
        lemma_unvisited_set(w.marks@, key_of(part, n as int), Mark::InProgress);
    }
    let k = keys[n];
    w.marks.set(k, Mark::InProgress);
    let ghost start = w@;
    proof {
        assert forall|y: int| 0 <= y < start.order.len() implies start.marks[key_of(part, #[trigger] start.order[y])]
            == Mark::Done by {
            assert(start.order[y] == w0.order[y]);
            lemma_key_of(part, w0.order[y]);
            assert(w0.marks[key_of(part, w0.order[y])] == Mark::Done);
            assert(key_of(part, w0.order[y]) != k);
            assert(start.marks[key_of(part, w0.order[y])] == w0.marks[key_of(part, w0.order[y])]);
        }
        assert(start.order == w0.order && start.faults == w0.faults);
        assert forall|kk: int| 0 <= kk < start.marks.len() && #[trigger] start.marks[kk] == Mark::Done implies placed(
            part,
            start.order,
            start.order.len() as int,
            part[kk].mod_id,
        ) by {
            assert(w0.marks[kk] == Mark::Done);
        }
    }
    let m: &ModMetadata = mods[n];
    let deps_len = m.dependencies.len();
    let mut j: usize = 0;
    while j < deps_len
        invariant
            valid_keys(part, keys@),
            part == records_view(mods@),
            n < mods.len(),
            m == mods@[n as int],
            k == key_of(part, n as int),
            k < mods.len(),
            deps_len == m.dependencies@.len(),
            deps_len == part[n as int].dependencies.len(),
            j <= deps_len,
            fuel > 0,
            start.marks[k as int] == Mark::InProgress,
            visit_deps(part, fuel, n as int, j as int, w@) == visit_deps(part, fuel, n as int, 0, start),
            w.marks@.len() == mods.len(),
            start.marks.len() == mods.len(),
            unvisited(w.marks@) <= unvisited(start.marks),
            unvisited(start.marks) < fuel - 1,
            forall|i: int|
                0 <= i < mods.len() ==> ((w.marks@[i] == Mark::InProgress) == (start.marks[i]
                    == Mark::InProgress)),
            w@.path == start.path,
            forall|q: int| 0 <= q < w.order@.len() ==> w.order@[q] < mods.len(),
            done_placed(part, w@),
            order_done(part, w@),
            order_distinct(part, w@.order),
            w@.faults.len() == 0 ==> deps_first(part, w@.order),
            no_reserved_missing(w@.faults),
            prefix_of(start.order, w@.order),
            w@.faults.len() >= start.faults.len(),
            forall|x: int| 0 <= x < mods.len() && start.marks[x] == Mark::Done ==> #[trigger] w.marks@[x] == Mark::Done,
            w@.faults.len() == 0 ==> forall|jj: int|
                0 <= jj < j && needs_record(part, #[trigger] part[n as int].dependencies[jj].mod_id)
                    ==> placed(part, w@.order, w@.order.len() as int, part[n as int].dependencies[jj].mod_id),
        decreases deps_len - j,
    {
        let ghost before = w@;
        let dep: &ModDependency = &m.dependencies[j];
        proof {
            assert(part[n as int].dependencies[j as int] == dep@);
            assert(part[n as int] == m@);
        }
        if is_reserved(&dep.mod_id) {
        } else {
            match find_record(mods, &dep.mod_id) {
                None => {
                    if dep.mandatory {
                        let ghost prev = w.faults@;
                        w.faults.push(
                            DependencyError::MissingDependency(
                                m.mod_id.clone(),
                                m.file_name.clone(),
                                dep.mod_id.clone(),
                            ),
                        );
                        proof {
                            assert(faults_view(w.faults@) =~= faults_view(prev).push(
                                w.faults@.last()@,
                            ));
                        }
                    }
                },
                Some(t) => {
                    proof {
                        lemma_lookup_is_key(part, dep.mod_id@);
                    }
                    let mark = w.marks[t];
                    if mark == Mark::Done {
                    } else if mark == Mark::InProgress {
                        let mut chain = copy_texts(&w.path);
                        let ghost prev_chain = chain@;
                        chain.push(dep.mod_id.clone());
                        proof {
                            assert(texts_view(chain@) =~= texts_view(prev_chain).push(dep.mod_id@));
                        }
                        let ghost prev = w.faults@;
                        w.faults.push(DependencyError::CircularDependency(chain));
                        proof {
                            assert(faults_view(w.faults@) =~= faults_view(prev).push(
                                w.faults@.last()@,
                            ));
                        }
                    } else {
                        let target: &ModMetadata = mods[t];
                        proof {
                            assert(part[t as int] == target@);
                        }
                        match SemVer::parse(target.version.as_str()) {
                            None => {
                                let ghost prev = w.faults@;
                                w.faults.push(
                                    DependencyError::InvalidVersionFormat(
                                        target.mod_id.clone(),
                                        target.file_name.clone(),
                                        target.version.clone(),
                                    ),
                                );
                                proof {
                                    assert(faults_view(w.faults@) =~= faults_view(prev).push(
                                        w.faults@.last()@,
                                    ));
                                }
                            },
                            Some(found) => {
                                check_requirement(dep, m, target, &found, &mut w.faults);
                                let ghost prev_path = w.path@;
                                w.path.push(dep.mod_id.clone());
                                proof {
                                    assert(texts_view(w.path@) =~= texts_view(prev_path).push(
                                        dep.mod_id@,
                                    ));
                                }
                                let ghost checked = w@;
                                resolve_mod(mods, keys, t, w, Ghost((fuel - 1) as nat));
                                let ghost after = w@;
                                let ghost full_path = w.path@;
                                proof {
                                    assert(texts_view(full_path) == checked.path);
                                    assert(full_path.len() == checked.path.len());
                                }
                                w.path.pop();
                                proof {
                                    assert(w.path@ == full_path.drop_last());
                                    assert(texts_view(w.path@) =~= texts_view(full_path).drop_last());
                                    assert(texts_view(w.path@) =~= before.path);
                                    assert(w@ == Walk { path: before.path, ..after });
                                }
                            },
                        }
                    }
                },
            }
        }
        proof {
            assert(w@ == follow(part, fuel, n as int, j as int, before));
            let d = part[n as int].dependencies[j as int].mod_id;
            if w@.faults.len() == 0 {
                assert forall|jj: int|
                    0 <= jj < j + 1 && needs_record(part, #[trigger] part[n as int].dependencies[jj].mod_id)
                        implies placed(part, w@.order, w@.order.len() as int, part[n as int].dependencies[jj].mod_id) by {
                    if jj < j {
                        lemma_placed_extends(part, before.order, w@.order, part[n as int].dependencies[jj].mod_id);
                    } else {
                        lemma_lookup_is_key(part, d);
                        let t = lookup(part, d)->Some_0;
                        assert(w@.marks[t] == Mark::Done);
                    }
                }
            }
        }
        j = j + 1;
    }
    let ghost inner = w@;
    proof {
        lemma_unvisited_set(w.marks@, k as int, Mark::Done);
    }
    w.marks.set(k, Mark::Done);
    w.order.push(n);
    proof {
        assert(w@.order =~= inner.order.push(n as int));
        assert(w@.marks =~= inner.marks.update(k as int, Mark::Done));
        assert(start.marks == w0.marks.update(k as int, Mark::InProgress));
        assert forall|i: int| 0 <= i < w0.marks.len() implies ((w.marks@[i] == Mark::InProgress)
            == (w0.marks[i] == Mark::InProgress)) by {
            if i != k {
                assert(start.marks[i] == w0.marks[i]);
            }
        }
        let fin = w@;
        assert(inner.marks[k as int] == Mark::InProgress);
        assert forall|y: int| 0 <= y < fin.order.len() implies fin.marks[key_of(part, #[trigger] fin.order[y])]
            == Mark::Done by {
            lemma_key_of(part, fin.order[y]);
            if y < inner.order.len() {
                assert(fin.order[y] == inner.order[y]);
                assert(inner.marks[key_of(part, inner.order[y])] == Mark::Done);
            } else {
                assert(fin.order[y] == n);
            }
        }
        assert forall|a: int, b: int| 0 <= a < b < fin.order.len() implies part[#[trigger] fin.order[a]].mod_id
            != part[#[trigger] fin.order[b]].mod_id by {
            assert(fin.order[a] == inner.order[a]);
            if b < inner.order.len() {
                assert(fin.order[b] == inner.order[b]);
            } else {
                let x = inner.order[a];
                assert(inner.marks[key_of(part, x)] == Mark::Done);
                lemma_key_of(part, x);
                if part[x].mod_id == part[n as int].mod_id {
                    assert(key_of(part, x) == k);
                }
            }
        }
        assert forall|x: int| 0 <= x < w0.marks.len() && w0.marks[x] == Mark::Done implies #[trigger] fin.marks[x] == Mark::Done by {
            assert(start.marks[x] == w0.marks[x]);
        }
        assert(prefix_of(inner.order, fin.order));
        assert(prefix_of(w0.order, fin.order));
        assert forall|kk: int| 0 <= kk < fin.marks.len() && #[trigger] fin.marks[kk] == Mark::Done implies placed(
            part,
            fin.order,
            fin.order.len() as int,
            part[kk].mod_id,
        ) by {
            if kk == k {
                assert(fin.order[inner.order.len() as int] == n);
                assert(part[fin.order[inner.order.len() as int]].mod_id == part[kk].mod_id);
            } else {
                assert(inner.marks[kk] == Mark::Done);
                lemma_placed_extends(part, inner.order, fin.order, part[kk].mod_id);
            }
        }
        if fin.faults.len() == 0 {
            lemma_deps_first_push(part, inner.order, n as int);
        }
    }
}

} // verus!

verus! {

/// Resolves one ecosystem partition: on success, every record whose id was
/// walked, each after the records it depends on; otherwise every fault found.
#[verifier::rlimit(60)]
pub fn resolve_dependencies<'a>(mods: Vec<&'a ModMetadata>) -> (r: Result<
    Vec<&'a ModMetadata>,
    DependencyErrors,
>)
    ensures
        match r {
            Ok(ordered) => resolution(records_view(mods@)) matches Ok(order) && ordered@.len()
                == order.len() && (forall|q: int|
                0 <= q < order.len() ==> 0 <= order[q] < mods@.len() && ordered@[q] == mods@[order[q]])
                && deps_first(records_view(mods@), order) && order_distinct(records_view(mods@), order)
                && forall|i: int|
                0 <= i < mods@.len() ==> placed(
                    records_view(mods@),
                    order,
                    order.len() as int,
                    #[trigger] records_view(mods@)[i].mod_id,
                ),
            Err(e) => resolution(records_view(mods@)) == Err::<Seq<int>, Seq<FaultView>>(e@)
                && no_reserved_missing(e@),
        },
        unique_ids(records_view(mods@)) && has_cycle(records_view(mods@)) ==> r is Err,
{
    let ghost part = records_view(mods@);
    let len = mods.len();
    let keys = record_keys(&mods);
    let mut marks: Vec<Mark> = Vec::new();
    let mut q: usize = 0;
    while q < len
        invariant
            q <= len,
            marks@ =~= Seq::new(q as nat, |i: int| Mark::Unvisited),
        decreases len - q,
    {
        marks.push(Mark::Unvisited);
        q = q + 1;
    }
    let mut w = Walker { marks, order: Vec::new(), path: Vec::new(), faults: Vec::new() };
    proof {
        assert(w@.order =~= Seq::<int>::empty());
        assert(w@.path =~= Seq::<Seq<char>>::empty());
        assert(w@.faults =~= Seq::<FaultView>::empty());
        assert(w@ == initial_walk(part.len()));
    }
    let mut i: usize = 0;
    while i < len
        invariant
            len == mods.len(),
            part == records_view(mods@),
            valid_keys(part, keys@),
            i <= len,
            walk_from(part, i as int, w@) == full_walk(part),
            w.marks@.len() == len,
            forall|x: int| 0 <= x < len ==> w.marks@[x] != Mark::InProgress,
            forall|x: int| 0 <= x < w.order@.len() ==> w.order@[x] < len,
            done_placed(part, w@),
            order_done(part, w@),
            order_distinct(part, w@.order),
            w@.faults.len() == 0 ==> deps_first(part, w@.order),
            no_reserved_missing(w@.faults),
            forall|x: int| 0 <= x < i ==> #[trigger] w.marks@[key_of(part, x)] == Mark::Done,
        decreases len - i,
    {
        let ghost before = w@;
        proof {
            lemma_key_of(part, i as int);
        }
        let k = keys[i];
        if w.marks[k] != Mark::Done {
            let mut path: Vec<String> = Vec::new();
            path.push(mods[i].mod_id.clone());
            w.path = path;
            proof {
                assert(w@.path =~= seq![part[i as int].mod_id]);
                assert(w@ == Walk { path: seq![part[i as int].mod_id], ..before });
                lemma_unvisited_bound(w.marks@);
                assert(done_placed(part, w@));
            }
            resolve_mod(&mods, &keys, i, &mut w, Ghost((len + 1) as nat));
        }
        proof {
            assert forall|x: int| 0 <= x < i + 1 implies #[trigger] w.marks@[key_of(part, x)] == Mark::Done by {
                lemma_key_of(part, x);
                if x < i {
                    assert(before.marks[key_of(part, x)] == Mark::Done);
                }
            }
        }
        i = i + 1;
    }
    proof {
        assert forall|x: int| 0 <= x < len implies placed(part, w@.order, w@.order.len() as int, #[trigger] part[x].mod_id) by {
            lemma_key_of(part, x);
            assert(w.marks@[key_of(part, x)] == Mark::Done);
        }
    }
    proof {
        assert(walk_from(part, len as int, w@) == w@);
    }
    proof {
        if w@.faults.len() == 0 && unique_ids(part) && has_cycle(part) {
            let c = choose|c: Seq<int>| is_cycle(part, c);
            assert(0 <= c[0] < part.len());
            assert(placed(part, w@.order, w@.order.len() as int, part[c[0]].mod_id));
            let y = choose|y: int|
                0 <= y < w@.order.len() && #[trigger] part[w@.order[y]].mod_id == part[c[0]].mod_id;
            assert(w@.order[y] == c[0]);
            lemma_cycle_not_ordered(part, w@.order, c, 0, y);
        }
    }
    if w.faults.len() == 0 {
        let mut ordered: Vec<&'a ModMetadata> = Vec::new();
        let mut p: usize = 0;
        while p < w.order.len()
            invariant
                len == mods.len(),
                p <= w.order@.len(),
                forall|x: int| 0 <= x < w.order@.len() ==> w.order@[x] < len,
                ordered@.len() == p,
                forall|x: int| 0 <= x < p ==> ordered@[x] == mods@[w.order@[x] as int],
            decreases w.order@.len() - p,
        {
            ordered.push(mods[w.order[p]]);
            p = p + 1;
        }
        Ok(ordered)
    } else {
        Err(DependencyErrors(w.faults))
    }
}

} // verus!
