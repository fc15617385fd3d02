//! Laws of what is loaded for a project, and of what is left out.
use vstd::prelude::*;
use crate::manifest::{PomScope, Scope};
use crate::maven::loader::{
    branch_wf, child_spec, children_are_farther, claim_spec, excludes, fail_spec, leaves_out, loaded_spec, loads_spec,
    nearer, portable_set, resolved_from, store_spec, BranchView, Deps, LoadView, LoadedView, PomDependencyView, RankView,
    ResolvedView, SlotState, SlotView, Unresolved,
};
use crate::types::{glob_match, pattern_wf, CoordView, PatternView};

verus! {

/// How many dependencies before a place are not left out.
pub open spec fn kept_before(excluded: Seq<bool>, i: int) -> nat {
    excluded.take(i).filter(|e: bool| !e).len()
}

/// Whether a load is that of the dependency at a place: it has its coordinates, its type and its
/// classifier, and is one step farther than what depends on it, at that place, in no scope that
/// is wider, and without all that either leaves out.
pub open spec fn is_load_of(l: LoadView, b: BranchView, d: (CoordView, PomDependencyView), i: int) -> bool {
    &&& l.coord == d.0
    &&& l.artifact_type == d.1.artifact_type
    &&& l.classifier == d.1.classifier
    &&& l.branch.depth == b.depth + 1
    &&& l.branch.position == b.position.push(i as usize)
    &&& l.branch.effective_scope == if b.effective_scope == Scope::Compile && d.1.scope == PomScope::Runtime {
        Scope::Runtime
    } else {
        b.effective_scope
    }
    &&& forall|p: PatternView| #[trigger]
        l.branch.exclusions.contains(p) <==> b.exclusions.contains(p) || d.1.exclusions.contains(p)
}

/// Whether a load is that of some dependency that is not left out, and stands among the loads as
/// the dependency does among those.
pub open spec fn is_load_of_some(l: LoadView, b: BranchView, deps: Deps, excluded: Seq<bool>, k: int) -> bool {
    exists|i: int|
        0 <= i < deps.len() && !excluded[i] && kept_before(excluded, i) == k && is_load_of(
            l,
            b,
            #[trigger] deps[i],
            i,
        )
}

proof fn kept_before_grows(excluded: Seq<bool>, i: int, j: int)
    requires
        0 <= i < j <= excluded.len(),
    ensures
        kept_before(excluded, i) <= kept_before(excluded, j),
        !excluded[i] ==> kept_before(excluded, i) < kept_before(excluded, j),
    decreases j,
{
    let s = excluded.take(j);
    reveal(Seq::filter);
    assert(s.drop_last() =~= excluded.take(j - 1));
    assert(s.last() == excluded[j - 1]);
    if i < j - 1 {
        kept_before_grows(excluded, i, j - 1);
    }
}

/// Whatever the branch, and however deep: each dependency of a POM that is not left out is
/// loaded, at its place, and nothing else is. There are as many loads as dependencies that are
/// not left out, in their order, and with nothing left out as many as dependencies.
pub proof fn every_dependency_is_loaded(b: BranchView, deps: Deps, excluded: Seq<bool>)
    requires
        b.depth < usize::MAX,
        branch_wf(b),
        excluded.len() == deps.len(),
        forall|i: int, j: int|
            0 <= i < deps.len() && 0 <= j < deps[i].1.exclusions.len() ==> pattern_wf(
                #[trigger] deps[i].1.exclusions[j],
            ),
    ensures
        loads_spec(b, deps, excluded).len() == excluded.filter(|e: bool| !e).len(),
        forall|i: int|
            0 <= i < deps.len() && !#[trigger] excluded[i] ==> kept_before(excluded, i) < loads_spec(
                b,
                deps,
                excluded,
            ).len() && is_load_of(loads_spec(b, deps, excluded)[kept_before(excluded, i) as int], b, deps[i], i),
        forall|k: int|
            0 <= k < loads_spec(b, deps, excluded).len() ==> is_load_of_some(
                #[trigger] loads_spec(b, deps, excluded)[k],
                b,
                deps,
                excluded,
                k,
            ),
        forall|i: int, j: int|
            0 <= i < j < deps.len() && !#[trigger] excluded[i] && !#[trigger] excluded[j] ==> kept_before(excluded, i)
                < kept_before(excluded, j),
        (forall|i: int| 0 <= i < deps.len() ==> !#[trigger] excluded[i]) ==> loads_spec(b, deps, excluded).len()
            == deps.len(),
{
    let l = loads_spec(b, deps, excluded);
    loads_are_counted(b, deps, excluded);
    assert forall|i: int| 0 <= i < deps.len() && !#[trigger] excluded[i] implies kept_before(excluded, i) < l.len()
        && is_load_of(l[kept_before(excluded, i) as int], b, deps[i], i) by {
        dependency_has_a_load(b, deps, excluded, i);
        dependency_load_is_its_own(b, deps, i);
    }
    assert forall|k: int| 0 <= k < l.len() implies is_load_of_some(#[trigger] l[k], b, deps, excluded, k) by {
        let i = load_has_a_dependency(b, deps, excluded, k);
        assert(!excluded[i]);
        assert(is_load_of(l[k], b, deps[i], i));
    }
    assert forall|i: int, j: int|
        0 <= i < j < deps.len() && !#[trigger] excluded[i] && !#[trigger] excluded[j] implies kept_before(excluded, i)
        < kept_before(excluded, j) by {
        kept_before_grows(excluded, i, j);
    }
    if forall|i: int| 0 <= i < deps.len() ==> !#[trigger] excluded[i] {
        all_before_are_kept(excluded, excluded.len() as int);
        assert(excluded.take(excluded.len() as int) =~= excluded);
    }
}

spec fn load_at(b: BranchView, deps: Deps, i: int) -> LoadView {
    LoadView {
        coord: deps[i].0,
        artifact_type: deps[i].1.artifact_type,
        classifier: deps[i].1.classifier,
        branch: child_spec(b, i as usize, deps[i].1.exclusions, deps[i].1.scope),
    }
}

proof fn dependency_load_is_its_own(b: BranchView, deps: Deps, i: int)
    requires
        b.depth < usize::MAX,
        branch_wf(b),
        0 <= i < deps.len(),
        forall|j: int| 0 <= j < deps[i].1.exclusions.len() ==> pattern_wf(#[trigger] deps[i].1.exclusions[j]),
    ensures
        is_load_of(load_at(b, deps, i), b, deps[i], i),
{
    children_are_farther(b, i as usize, deps[i].1.exclusions, deps[i].1.scope, |p: PatternView| true);
}

proof fn loads_are_counted(b: BranchView, deps: Deps, excluded: Seq<bool>)
    requires
        excluded.len() == deps.len(),
    ensures
        loads_spec(b, deps, excluded).len() == excluded.filter(|e: bool| !e).len(),
    decreases deps.len(),
{
    reveal(Seq::filter);
    if deps.len() > 0 {
        let x = excluded.drop_last();
        loads_are_counted(b, deps.drop_last(), x);
        loads_look_back(b, deps.drop_last(), excluded, x);
    }
}

proof fn dependency_has_a_load(b: BranchView, deps: Deps, excluded: Seq<bool>, i: int)
    requires
        excluded.len() == deps.len(),
        0 <= i < deps.len(),
        !excluded[i],
    ensures
        kept_before(excluded, i) < loads_spec(b, deps, excluded).len(),
        loads_spec(b, deps, excluded)[kept_before(excluded, i) as int] == load_at(b, deps, i),
    decreases deps.len(),
{
    let n = deps.len() - 1;
    let x = excluded.drop_last();
    loads_look_back(b, deps.drop_last(), excluded, x);
    loads_are_counted(b, deps.drop_last(), x);
    assert(excluded.take(n) =~= x);
    if i < n {
        dependency_has_a_load(b, deps.drop_last(), x, i);
        assert(excluded.take(i) =~= x.take(i));
    }
}

proof fn load_has_a_dependency(b: BranchView, deps: Deps, excluded: Seq<bool>, k: int) -> (i: int)
    requires
        excluded.len() == deps.len(),
        0 <= k < loads_spec(b, deps, excluded).len(),
    ensures
        0 <= i < deps.len(),
        !excluded[i],
        kept_before(excluded, i) == k,
    decreases deps.len(),
{
    let n = deps.len() - 1;
    let x = excluded.drop_last();
    loads_look_back(b, deps.drop_last(), excluded, x);
    loads_are_counted(b, deps.drop_last(), x);
    assert(excluded.take(n) =~= x);
    if k < loads_spec(b, deps.drop_last(), x).len() {
        let i = load_has_a_dependency(b, deps.drop_last(), x, k);
        assert(excluded.take(i) =~= x.take(i));
        i
    } else {
        n
    }
}

/// What is loaded depends on no flag but those of the dependencies.
proof fn loads_look_back(b: BranchView, deps: Deps, x: Seq<bool>, y: Seq<bool>)
    requires
        deps.len() <= x.len(),
        deps.len() <= y.len(),
        forall|i: int| 0 <= i < deps.len() ==> x[i] == y[i],
    ensures
        loads_spec(b, deps, x) == loads_spec(b, deps, y),
    decreases deps.len(),
{
    if deps.len() > 0 {
        loads_look_back(b, deps.drop_last(), x, y);
    }
}

/// A dependency is left out where an exclusion on the way to it matches both its group and its
/// name, and only there: where nothing is excluded, nothing is left out.
pub proof fn only_what_matches_is_left_out(exclusions: Seq<PatternView>, deps: Deps, excluded: Seq<bool>)
    requires
        leaves_out(exclusions, deps, excluded),
    ensures
        excluded.len() == deps.len(),
        exclusions.len() == 0 ==> forall|i: int| 0 <= i < deps.len() ==> !#[trigger] excluded[i],
        (forall|k: int|
            0 <= k < exclusions.len() ==> !(#[trigger] exclusions[k]).group.contains('\\')
                && !exclusions[k].artifact.contains('\\')) ==> forall|i: int|
            0 <= i < deps.len() ==> (#[trigger] excluded[i] <==> exists|k: int|
                0 <= k < exclusions.len() && glob_match((#[trigger] exclusions[k]).group, deps[i].0.group) == Some(
                    true,
                ) && glob_match(exclusions[k].artifact, deps[i].0.artifact) == Some(true)),
{
    assert forall|i: int| exclusions.len() == 0 && 0 <= i < deps.len() implies !#[trigger] excluded[i] by {
        assert(portable_set(exclusions));
        assert(deps[i] == deps[i]);
        assert(!excludes(exclusions, deps[i].0));
    }
    if forall|k: int|
        0 <= k < exclusions.len() ==> !(#[trigger] exclusions[k]).group.contains('\\')
            && !exclusions[k].artifact.contains('\\') {
        assert(portable_set(exclusions));
        assert forall|i: int| 0 <= i < deps.len() implies (#[trigger] excluded[i] <==> exists|k: int|
            0 <= k < exclusions.len() && glob_match((#[trigger] exclusions[k]).group, deps[i].0.group) == Some(true)
                && glob_match(exclusions[k].artifact, deps[i].0.artifact) == Some(true)) by {
            assert(excluded[i] == excludes(exclusions, deps[i].0));
        }
    }
}

/// With no exclusions on the way, every dependency of a POM is loaded, at whatever depth.
pub proof fn without_exclusions_all_is_loaded(b: BranchView, deps: Deps, excluded: Seq<bool>)
    requires
        b.depth < usize::MAX,
        branch_wf(b),
        b.exclusions.len() == 0,
        leaves_out(b.exclusions, deps, excluded),
        forall|i: int, j: int|
            0 <= i < deps.len() && 0 <= j < deps[i].1.exclusions.len() ==> pattern_wf(
                #[trigger] deps[i].1.exclusions[j],
            ),
    ensures
        loads_spec(b, deps, excluded).len() == deps.len(),
        forall|i: int|
            0 <= i < deps.len() ==> is_load_of(#[trigger] loads_spec(b, deps, excluded)[i], b, deps[i], i),
{
    only_what_matches_is_left_out(b.exclusions, deps, excluded);
    every_dependency_is_loaded(b, deps, excluded);
    assert forall|i: int| 0 <= i < deps.len() implies is_load_of(
        #[trigger] loads_spec(b, deps, excluded)[i],
        b,
        deps[i],
        i,
    ) by {
        all_before_are_kept(excluded, i);
        assert(!excluded[i]);
    }
}

proof fn all_before_are_kept(excluded: Seq<bool>, i: int)
    requires
        0 <= i <= excluded.len(),
        forall|k: int| 0 <= k < excluded.len() ==> !#[trigger] excluded[k],
    ensures
        kept_before(excluded, i) == i,
    decreases i,
{
    reveal(Seq::filter);
    if i > 0 {
        all_before_are_kept(excluded, i - 1);
        assert(excluded.take(i).drop_last() =~= excluded.take(i - 1));
        assert(!excluded[i - 1]);
    } else {
        assert(excluded.take(0) =~= Seq::empty());
    }
}

/// What a loading lacks, where it lacks anything.
pub open spec fn shortcoming(l: LoadedView, i: int, e: Unresolved) -> bool {
    match l {
        LoadedView::Ready(_, sourced) => !sourced && e == Unresolved::NoSource(i as usize),
        LoadedView::Failed => e == Unresolved::Failed(i as usize),
        LoadedView::Loading => e == Unresolved::Unfinished(i as usize),
    }
}

/// All that was loaded is there, in order, where all of it was loaded and where it came from is
/// known. Where something lacks, the first that does is named, with what it lacks.
pub proof fn all_that_was_loaded_is_there(c: Seq<LoadedView>)
    ensures
        match resolved_from(c, 0, Seq::empty()) {
            Ok(v) => v.len() == c.len() && forall|i: int|
                0 <= i < c.len() ==> #[trigger] c[i] == LoadedView::Ready(v[i], true),
            Err(e) => exists|i: int|
                0 <= i < c.len() && shortcoming(#[trigger] c[i], i, e) && forall|k: int|
                    0 <= k < i ==> (#[trigger] c[k] matches LoadedView::Ready(_, sourced) && sourced),
        },
{
    loaded_from_there(c, 0, Seq::empty());
}

proof fn loaded_from_there(c: Seq<LoadedView>, i: int, acc: Seq<(ResolvedView, RankView)>)
    requires
        0 <= i <= c.len(),
        acc.len() == i,
        forall|k: int| 0 <= k < i ==> #[trigger] c[k] == LoadedView::Ready(acc[k], true),
    ensures
        match resolved_from(c, i, acc) {
            Ok(v) => v.len() == c.len() && forall|k: int|
                0 <= k < c.len() ==> #[trigger] c[k] == LoadedView::Ready(v[k], true),
            Err(e) => exists|j: int|
                0 <= j < c.len() && shortcoming(#[trigger] c[j], j, e) && forall|k: int|
                    0 <= k < j ==> (#[trigger] c[k] matches LoadedView::Ready(_, sourced) && sourced),
        },
    decreases c.len() - i,
{
    if i < c.len() {
        match c[i] {
            LoadedView::Ready(a, sourced) => {
                if sourced {
                    let more = acc.push(a);
                    assert forall|k: int| 0 <= k < i + 1 implies #[trigger] c[k] == LoadedView::Ready(more[k], true) by {
                        if k < i {
                            assert(c[k] == LoadedView::Ready(acc[k], true));
                        }
                    }
                    loaded_from_there(c, i + 1, more);
                } else {
                    assert(shortcoming(c[i], i, Unresolved::NoSource(i as usize)));
                }
            },
            LoadedView::Failed => {
                assert(shortcoming(c[i], i, Unresolved::Failed(i as usize)));
            },
            LoadedView::Loading => {
                assert(shortcoming(c[i], i, Unresolved::Unfinished(i as usize)));
            },
        }
    }
}

/// What comes in first takes the slot. Something nearer takes it from what has it; what has it
/// comes nearer itself; and what is not nearer changes nothing.
pub proof fn nearer_takes_the_slot(slot: SlotView, coord: CoordView, rank: RankView)
    ensures
        claim_spec(None, coord, rank) == Some(SlotView { rank, coord, state: SlotState::Loading }),
        nearer(rank, slot.rank) && slot.coord != coord ==> claim_spec(Some(slot), coord, rank) == Some(
            SlotView { rank, coord, state: SlotState::Loading },
        ),
        nearer(rank, slot.rank) && slot.coord == coord ==> claim_spec(Some(slot), coord, rank) == Some(
            SlotView { rank, coord, state: slot.state },
        ),
        !nearer(rank, slot.rank) ==> claim_spec(Some(slot), coord, rank) == Some(slot),
{
}

/// What was loaded is stored where its version still has the slot, as near as that has come, or
/// where nothing nearer has it, and is dropped elsewhere. A failure is stored unless something
/// that is as near is ready.
pub proof fn results_are_stored(slot: SlotView, coord: CoordView, rank: RankView)
    ensures
        store_spec(None, coord, rank) == Some(SlotView { rank, coord, state: SlotState::Ready }),
        slot.coord == coord && nearer(slot.rank, rank) ==> store_spec(Some(slot), coord, rank) == Some(
            SlotView { rank: slot.rank, coord, state: SlotState::Ready },
        ),
        slot.coord == coord && !nearer(slot.rank, rank) ==> store_spec(Some(slot), coord, rank) == Some(
            SlotView { rank, coord, state: SlotState::Ready },
        ),
        slot.coord != coord && nearer(slot.rank, rank) ==> store_spec(Some(slot), coord, rank) == Some(slot),
        slot.coord != coord && !nearer(slot.rank, rank) ==> store_spec(Some(slot), coord, rank) == Some(
            SlotView { rank, coord, state: SlotState::Ready },
        ),
        fail_spec(None, coord, rank) == Some(SlotView { rank, coord, state: SlotState::Failed }),
        slot.state == SlotState::Ready && !nearer(rank, slot.rank) ==> fail_spec(Some(slot), coord, rank) == Some(slot),
        slot.state != SlotState::Ready || nearer(rank, slot.rank) ==> {
            let f = fail_spec(Some(slot), coord, rank);
            &&& f is Some
            &&& f->Some_0.state == SlotState::Failed
            &&& f->Some_0.coord == coord
            &&& slot.coord != coord ==> f->Some_0.rank == rank
            &&& slot.coord == coord && nearer(slot.rank, rank) ==> f->Some_0.rank == slot.rank
        },
{
}

/// What was loaded is what was to be loaded, from the repository and the path where it was found,
/// with the dependencies of its POM, and as near as it was to be.
pub proof fn loaded_is_what_was_to_be_loaded(l: LoadView, source: Seq<char>, path: Seq<char>, deps: Deps)
    ensures
        ({
            let (a, rank) = loaded_spec(l, source, path, deps);
            &&& a.coord == l.coord
            &&& a.source == source
            &&& a.artifact_path == path
            &&& a.artifact_type == l.artifact_type
            &&& l.classifier is Some ==> a.classifier == l.classifier
            &&& l.classifier is None ==> a.classifier == crate::types::implied_spec(l.artifact_type)
            &&& a.effective_scope == l.branch.effective_scope
            &&& a.dependencies == deps
            &&& rank.depth == l.branch.depth
            &&& rank.position == l.branch.position
        }),
{
}

} // verus!
