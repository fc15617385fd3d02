//! Laws of the scopes in which artifacts are needed, and of what is planned for each.
use vstd::prelude::*;
use crate::manifest::{DepView, Scope, SourceView};
use crate::maven::loader::{PomDependencyView, RankView, ResolvedView};
use crate::project::locking::{are_plans, locked_spec, PlanView};
use crate::project::scopes::{
    artifact_of, direct_needs, is_needed, needed, needs_of, scopes_are_the_widest, scope_in, Need,
};
use crate::manifest::{PomScope, lock::LockArtifactView};
use crate::types::CoordView;

verus! {

/// The artifacts that were resolved, and how near each is.
pub type Artifacts = Seq<(ResolvedView, RankView)>;

/// How far a scope reaches: from `compile`, the widest, over `runtime`, then `provided` and
/// `processor`, to `test`.
pub open spec fn reach(s: Scope) -> int {
    if s == Scope::Compile {
        3
    } else if s == Scope::Runtime {
        2
    } else if s == Scope::Provided || s == Scope::Processor {
        1
    } else {
        0
    }
}

/// Whether an artifact is brought in, in a scope, over so many steps: the manifest declares it in
/// that scope, or what was brought in over one step fewer depends on it. What a `compile`
/// dependency needs to run is needed to run; all else is needed in the scope of what needs it.
pub open spec fn brought_in(deps: Seq<DepView>, arts: Artifacts, n: nat, c: CoordView, x: Scope) -> bool
    decreases n,
{
    if n == 0 {
        exists|i: int| 0 <= i < deps.len() && (#[trigger] deps[i]).source == SourceView::Id(c) && deps[i].scope == x
    } else {
        exists|b: CoordView, y: Scope|
            brought_in(deps, arts, (n - 1) as nat, b, y) && #[trigger] passes_on(arts, b, y, c, x)
    }
}

/// Whether an artifact that is needed in a scope needs another in a scope.
pub open spec fn passes_on(arts: Artifacts, b: CoordView, y: Scope, c: CoordView, x: Scope) -> bool {
    exists|k: int, j: int|
        0 <= k < arts.len() && 0 <= j < arts[k].0.dependencies.len() && arts[k].0.coord == b && (forall|l: int|
            k < l < arts.len() ==> (#[trigger] arts[l]).0.coord != b) && (
        #[trigger] arts[k].0.dependencies[j]).0 == c && x == if y == Scope::Compile
            && arts[k].0.dependencies[j].1.scope == PomScope::Runtime {
            Scope::Runtime
        } else {
            y
        }
}

/// Whether an artifact is brought in at all, in a scope.
pub open spec fn wanted(deps: Seq<DepView>, arts: Artifacts, c: CoordView, x: Scope) -> bool {
    exists|n: nat| #[trigger] brought_in(deps, arts, n, c, x)
}

proof fn direct_needs_are_declared(deps: Seq<DepView>, c: CoordView, x: Scope)
    ensures
        direct_needs(deps).contains((c, x)) <==> exists|i: int|
            0 <= i < deps.len() && (#[trigger] deps[i]).source == SourceView::Id(c) && deps[i].scope == x,
    decreases deps.len(),
{
    if deps.len() > 0 {
        let d = deps.drop_last();
        let r = direct_needs(deps);
        direct_needs_are_declared(d, c, x);
        if direct_needs(d).contains((c, x)) {
            let k = choose|k: int| 0 <= k < direct_needs(d).len() && direct_needs(d)[k] == (c, x);
            assert(r[k] == (c, x));
            let i = choose|i: int|
                0 <= i < d.len() && (#[trigger] d[i]).source == SourceView::Id(c) && d[i].scope == x;
            assert(deps[i] == d[i]);
        }
        if r.contains((c, x)) && !direct_needs(d).contains((c, x)) {
            let k = choose|k: int| 0 <= k < r.len() && r[k] == (c, x);
            if k < direct_needs(d).len() {
                assert(direct_needs(d)[k] == (c, x));
            }
            assert(deps[deps.len() - 1] == deps.last());
        }
        if exists|i: int| 0 <= i < deps.len() && (#[trigger] deps[i]).source == SourceView::Id(c) && deps[i].scope == x {
            let i = choose|i: int|
                0 <= i < deps.len() && (#[trigger] deps[i]).source == SourceView::Id(c) && deps[i].scope == x;
            if i < d.len() {
                assert(d[i] == deps[i]);
            } else {
                assert(r[r.len() - 1] == (c, x));
            }
        }
    }
}

/// What the manifest declares from repositories is needed, in the declared scope: each dependency
/// once, in order, and nothing else.
pub proof fn declared_dependencies_are_needed(deps: Seq<DepView>)
    ensures
        direct_needs(deps) == deps.filter(|d: DepView| d.source is Id).map_values(
            |d: DepView| (d.source->Id_0, d.scope),
        ),
    decreases deps.len(),
{
    reveal(Seq::filter);
    if deps.len() > 0 {
        declared_dependencies_are_needed(deps.drop_last());
    }
    assert(direct_needs(deps) =~= deps.filter(|d: DepView| d.source is Id).map_values(
        |d: DepView| (d.source->Id_0, d.scope),
    ));
}

/// Of several artifacts with the same coordinates the last counts.
proof fn last_artifact_counts(arts: Artifacts, c: CoordView)
    ensures
        match artifact_of(arts, c) {
            Some(a) => exists|k: int|
                0 <= k < arts.len() && (#[trigger] arts[k]).0 == a && a.coord == c && forall|l: int|
                    k < l < arts.len() ==> (#[trigger] arts[l]).0.coord != c,
            None => forall|l: int| 0 <= l < arts.len() ==> (#[trigger] arts[l]).0.coord != c,
        },
    decreases arts.len(),
{
    if arts.len() > 0 {
        let d = arts.drop_last();
        let n = arts.len() - 1;
        last_artifact_counts(d, c);
        assert(arts[n] == arts.last());
        if arts.last().0.coord != c {
            match artifact_of(d, c) {
                Some(a) => {
                    let k = choose|k: int|
                        0 <= k < d.len() && (#[trigger] d[k]).0 == a && a.coord == c && forall|l: int|
                            k < l < d.len() ==> (#[trigger] d[l]).0.coord != c;
                    assert(arts[k] == d[k]);
                    assert forall|l: int| k < l < arts.len() implies (#[trigger] arts[l]).0.coord != c by {
                        if l < n {
                            assert(d[l] == arts[l]);
                        }
                    }
                },
                None => {
                    assert forall|l: int| 0 <= l < arts.len() implies (#[trigger] arts[l]).0.coord != c by {
                        if l < n {
                            assert(d[l] == arts[l]);
                        }
                    }
                },
            }
        }
    }
}

proof fn needs_are_passed_on(arts: Artifacts, b: CoordView, y: Scope, c: CoordView, x: Scope)
    ensures
        needs_of(arts, (b, y)).contains((c, x)) <==> passes_on(arts, b, y, c, x),
{
    last_artifact_counts(arts, b);
    let r = needs_of(arts, (b, y));
    if r.contains((c, x)) {
        let j = choose|j: int| 0 <= j < r.len() && r[j] == (c, x);
        let a = artifact_of(arts, b)->Some_0;
        let k = choose|k: int|
            0 <= k < arts.len() && (#[trigger] arts[k]).0 == a && a.coord == b && forall|l: int|
                k < l < arts.len() ==> (#[trigger] arts[l]).0.coord != b;
        assert(arts[k].0.dependencies[j].0 == c);
    }
    if passes_on(arts, b, y, c, x) {
        let (k, j) = choose|k: int, j: int|
            0 <= k < arts.len() && 0 <= j < arts[k].0.dependencies.len() && arts[k].0.coord == b && (forall|l: int|
                k < l < arts.len() ==> (#[trigger] arts[l]).0.coord != b) && (
            #[trigger] arts[k].0.dependencies[j]).0 == c && x == if y == Scope::Compile
                && arts[k].0.dependencies[j].1.scope == PomScope::Runtime {
                Scope::Runtime
            } else {
                y
            };
        assert(artifact_of(arts, b) is Some);
        let a = artifact_of(arts, b)->Some_0;
        let m = choose|m: int|
            0 <= m < arts.len() && (#[trigger] arts[m]).0 == a && a.coord == b && forall|l: int|
                m < l < arts.len() ==> (#[trigger] arts[l]).0.coord != b;
        assert(m == k) by {
            if m < k {
                assert(arts[k].0.coord != b);
            } else if k < m {
                assert(arts[m].0.coord != b);
            }
        }
        assert(r[j] == (c, x));
    }
}

proof fn needed_means_brought_in(deps: Seq<DepView>, arts: Artifacts, n: nat, c: CoordView, x: Scope)
    ensures
        needed(deps, arts, n, (c, x)) <==> brought_in(deps, arts, n, c, x),
    decreases n,
{
    if n == 0 {
        direct_needs_are_declared(deps, c, x);
    } else {
        let m = (n - 1) as nat;
        if needed(deps, arts, n, (c, x)) {
            let from = choose|from: Need|
                needed(deps, arts, m, from) && (#[trigger] needs_of(arts, from)).contains((c, x));
            needed_means_brought_in(deps, arts, m, from.0, from.1);
            needs_are_passed_on(arts, from.0, from.1, c, x);
            assert(brought_in(deps, arts, m, from.0, from.1));
        }
        if brought_in(deps, arts, n, c, x) {
            let (b, y) = choose|b: CoordView, y: Scope|
                brought_in(deps, arts, m, b, y) && #[trigger] passes_on(arts, b, y, c, x);
            needed_means_brought_in(deps, arts, m, b, y);
            needs_are_passed_on(arts, b, y, c, x);
            assert(needed(deps, arts, m, (b, y)) && needs_of(arts, (b, y)).contains((c, x)));
        }
    }
}

/// An artifact is needed in a scope where the manifest declares it so, or something that is needed
/// brings it in, over however many steps, and nowhere else.
pub proof fn needed_is_what_is_brought_in(deps: Seq<DepView>, arts: Artifacts, c: CoordView, x: Scope)
    ensures
        is_needed(deps, arts, (c, x)) <==> wanted(deps, arts, c, x),
{
    if is_needed(deps, arts, (c, x)) {
        let n = choose|n: nat| #[trigger] needed(deps, arts, n, (c, x));
        needed_means_brought_in(deps, arts, n, c, x);
    }
    if wanted(deps, arts, c, x) {
        let n = choose|n: nat| #[trigger] brought_in(deps, arts, n, c, x);
        needed_means_brought_in(deps, arts, n, c, x);
    }
}

/// The scope of the plan for an artifact that anything brings in is a scope in which it is brought
/// in, and none in which it is brought in reaches farther. An artifact that nothing brings in is
/// planned for `compile`. The lock has the scope of the plan.
pub proof fn plan_has_the_widest_scope(
    plans: Seq<PlanView>,
    artifacts: Artifacts,
    deps: Seq<DepView>,
    locked: Seq<LockArtifactView>,
    libraries: Seq<char>,
    scopes: Seq<(CoordView, Scope)>,
    i: int,
    x: Scope,
    digest: Seq<u8>,
)
    requires
        are_plans(plans, artifacts, deps, locked, libraries, scopes),
        0 <= i < artifacts.len(),
    ensures
        plans.len() == artifacts.len(),
        wanted(deps, artifacts, artifacts[i].0.coord, x) ==> wanted(
            deps,
            artifacts,
            artifacts[i].0.coord,
            plans[i].scope,
        ) && reach(x) <= reach(plans[i].scope),
        (forall|y: Scope| !#[trigger] wanted(deps, artifacts, artifacts[i].0.coord, y)) ==> plans[i].scope
            == Scope::Compile,
        locked_spec(artifacts[i].0, artifacts[i].1, plans[i], digest).effective_scope == plans[i].scope,
{
    let c = artifacts[i].0.coord;
    scopes_are_the_widest(deps, artifacts, scopes, c, x);
    needed_is_what_is_brought_in(deps, artifacts, c, x);
    if let Some(s) = scope_in(scopes, c) {
        needed_is_what_is_brought_in(deps, artifacts, c, s);
        assert(plans[i].scope == s);
    }
}

/// A direct dependency that nothing else brings in is planned, and locked, in the scope that the
/// manifest declares, whichever that is.
pub proof fn direct_dependency_keeps_its_scope(
    plans: Seq<PlanView>,
    artifacts: Artifacts,
    deps: Seq<DepView>,
    locked: Seq<LockArtifactView>,
    libraries: Seq<char>,
    scopes: Seq<(CoordView, Scope)>,
    i: int,
    k: int,
    digest: Seq<u8>,
)
    requires
        are_plans(plans, artifacts, deps, locked, libraries, scopes),
        0 <= i < artifacts.len(),
        0 <= k < deps.len(),
        deps[k].source == SourceView::Id(artifacts[i].0.coord),
        forall|j: int|
            0 <= j < deps.len() && (#[trigger] deps[j]).source == SourceView::Id(artifacts[i].0.coord)
                ==> deps[j].scope == deps[k].scope,
        forall|m: int, j: int|
            0 <= m < artifacts.len() && 0 <= j < artifacts[m].0.dependencies.len() ==> (
            #[trigger] artifacts[m].0.dependencies[j]).0 != artifacts[i].0.coord,
    ensures
        plans[i].scope == deps[k].scope,
        locked_spec(artifacts[i].0, artifacts[i].1, plans[i], digest).effective_scope == deps[k].scope,
{
    let c = artifacts[i].0.coord;
    let x = deps[k].scope;
    assert(brought_in(deps, artifacts, 0, c, x));
    assert(wanted(deps, artifacts, c, x));
    plan_has_the_widest_scope(plans, artifacts, deps, locked, libraries, scopes, i, x, digest);
    let y = plans[i].scope;
    let n = choose|n: nat| #[trigger] brought_in(deps, artifacts, n, c, y);
    if n > 0 {
        let (b, z) = choose|b: CoordView, z: Scope|
            brought_in(deps, artifacts, (n - 1) as nat, b, z) && #[trigger] passes_on(artifacts, b, z, c, y);
        assert(passes_on(artifacts, b, z, c, y));
    }
}

} // verus!
