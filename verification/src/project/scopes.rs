//! The scope in which each artifact is needed: the widest in which anything brings it in.
use vstd::prelude::*;
use crate::manifest::{
    dep_coord, mediate, mediate_never_widens, mediate_spec, scope_rank, DepView, Dependency, Scope,
};
use crate::maven::loader::{Deps, PomDependencyView, Resolved, ResolvedView, RankView};
use crate::order::{
    assign, assign_keeps_order, lookup, sorted, views, OrdMap, Pair,
};
use crate::types::{coord_code_tells, ArtifactCoordinates, CoordView};

verus! {

/// An artifact and a scope in which it is needed.
pub type Need = (CoordView, Scope);

/// The resolved artifact of the given coordinates: the last, where there are several.
pub open spec fn artifact_of(arts: Seq<(ResolvedView, RankView)>, c: CoordView) -> Option<ResolvedView>
    decreases arts.len(),
{
    if arts.len() == 0 {
        None
    } else if arts.last().0.coord == c {
        Some(arts.last().0)
    } else {
        artifact_of(arts.drop_last(), c)
    }
}

/// What the given coordinates depend on.
pub open spec fn edges(arts: Seq<(ResolvedView, RankView)>, c: CoordView) -> Deps {
    match artifact_of(arts, c) {
        Some(a) => a.dependencies,
        None => Seq::empty(),
    }
}

/// What an artifact needs in turn when it is needed in a scope.
pub open spec fn needs_of(arts: Seq<(ResolvedView, RankView)>, n: Need) -> Seq<Need> {
    edges(arts, n.0).map_values(|d: (CoordView, PomDependencyView)| (d.0, mediate_spec(n.1, d.1.scope)))
}

/// What the manifest needs from repositories, in order.
pub open spec fn direct_needs(deps: Seq<DepView>) -> Seq<Need>
    decreases deps.len(),
{
    if deps.len() == 0 {
        Seq::empty()
    } else {
        match dep_coord(deps.last()) {
            Some(c) => direct_needs(deps.drop_last()).push((c, deps.last().scope)),
            None => direct_needs(deps.drop_last()),
        }
    }
}

/// How far the search for scopes has come: what is still to be looked at, and the scopes
/// found so far.
pub struct Search {
    pub queue: Seq<Need>,
    pub scopes: Seq<(CoordView, Scope)>,
}

/// The scope found so far for an artifact.
pub open spec fn scope_in(scopes: Seq<(CoordView, Scope)>, c: CoordView) -> Option<Scope> {
    lookup::<ArtifactCoordinates, Scope>(scopes, c)
}

/// Whether a need is met by the scopes found so far.
pub open spec fn met(scopes: Seq<(CoordView, Scope)>, n: Need) -> bool {
    match scope_in(scopes, n.0) {
        Some(s) => scope_rank(n.1) <= scope_rank(s),
        None => false,
    }
}

/// One step: the first need in the queue is looked at, and where it is not met, its scope
/// is taken and what it needs in turn is queued.
pub open spec fn step(arts: Seq<(ResolvedView, RankView)>, s: Search) -> Search {
    if s.queue.len() == 0 {
        s
    } else {
        let n = s.queue[0];
        let rest = s.queue.drop_first();
        if met(s.scopes, n) {
            Search { queue: rest, scopes: s.scopes }
        } else {
            Search {
                queue: rest + needs_of(arts, n),
                scopes: assign::<ArtifactCoordinates, Scope>(s.scopes, n.0, n.1),
            }
        }
    }
}

/// The search after a number of steps.
pub open spec fn run(deps: Seq<DepView>, arts: Seq<(ResolvedView, RankView)>, n: nat) -> Search
    decreases n,
{
    if n == 0 {
        Search { queue: direct_needs(deps), scopes: Seq::empty() }
    } else {
        step(arts, run(deps, arts, (n - 1) as nat))
    }
}

/// Whether the scopes are those that the search ends with.
pub open spec fn scopes_of(
    deps: Seq<DepView>,
    arts: Seq<(ResolvedView, RankView)>,
    scopes: Seq<(CoordView, Scope)>,
) -> bool {
    exists|n: nat| #[trigger] run(deps, arts, n) == (Search { queue: Seq::empty(), scopes })
}

/// Whether an artifact is needed in a scope over a chain of `n` dependencies.
pub open spec fn needed(deps: Seq<DepView>, arts: Seq<(ResolvedView, RankView)>, n: nat, need: Need) -> bool
    decreases n,
{
    if n == 0 {
        direct_needs(deps).contains(need)
    } else {
        exists|from: Need| needed(deps, arts, (n - 1) as nat, from) && (#[trigger] needs_of(arts, from)).contains(need)
    }
}

/// Whether an artifact is needed in a scope at all.
pub open spec fn is_needed(deps: Seq<DepView>, arts: Seq<(ResolvedView, RankView)>, need: Need) -> bool {
    exists|n: nat| #[trigger] needed(deps, arts, n, need)
}

proof fn needed_in_turn(deps: Seq<DepView>, arts: Seq<(ResolvedView, RankView)>, from: Need, i: int)
    requires
        is_needed(deps, arts, from),
        0 <= i < needs_of(arts, from).len(),
    ensures
        is_needed(deps, arts, needs_of(arts, from)[i]),
{
    let n = choose|n: nat| #[trigger] needed(deps, arts, n, from);
    assert(needs_of(arts, from).contains(needs_of(arts, from)[i]));
    assert(needed(deps, arts, ((n + 1) - 1) as nat, from));
    assert(needed(deps, arts, (n + 1) as nat, needs_of(arts, from)[i]));
}

/// Whether a need is met, or queued.
pub open spec fn pending(s: Search, n: Need) -> bool {
    met(s.scopes, n) || s.queue.contains(n)
}

/// What holds throughout a search.
pub open spec fn sound(deps: Seq<DepView>, arts: Seq<(ResolvedView, RankView)>, s: Search) -> bool {
    &&& sorted::<Pair<ArtifactCoordinates, Scope>>(s.scopes)
    &&& forall|i: int| 0 <= i < s.queue.len() ==> is_needed(deps, arts, #[trigger] s.queue[i])
    &&& forall|c: CoordView| (#[trigger] scope_in(s.scopes, c)) is Some ==> is_needed(
        deps,
        arts,
        (c, scope_in(s.scopes, c)->Some_0),
    )
    &&& forall|i: int| 0 <= i < direct_needs(deps).len() ==> pending(s, #[trigger] direct_needs(deps)[i])
    &&& forall|c: CoordView, i: int|
        #![trigger scope_in(s.scopes, c), edges(arts, c)[i]]
        scope_in(s.scopes, c) is Some && 0 <= i < edges(arts, c).len() ==> pending(
            s,
            needs_of(arts, (c, scope_in(s.scopes, c)->Some_0))[i],
        )
}

proof fn assign_scope(scopes: Seq<(CoordView, Scope)>, c: CoordView, x: Scope)
    requires
        sorted::<Pair<ArtifactCoordinates, Scope>>(scopes),
    ensures
        sorted::<Pair<ArtifactCoordinates, Scope>>(assign::<ArtifactCoordinates, Scope>(scopes, c, x)),
        scope_in(assign::<ArtifactCoordinates, Scope>(scopes, c, x), c) == Some(x),
        forall|o: CoordView|
            o != c ==> #[trigger] scope_in(assign::<ArtifactCoordinates, Scope>(scopes, c, x), o) == scope_in(
                scopes,
                o,
            ),
{
    assign_keeps_order::<ArtifactCoordinates, Scope>(scopes, c, x);
    assert forall|o: CoordView| o != c implies #[trigger] scope_in(
        assign::<ArtifactCoordinates, Scope>(scopes, c, x),
        o,
    ) == scope_in(scopes, o) by {
        coord_code_tells(o, c);
    }
}

/// A need that is met, or queued behind the first, stays so through a step.
proof fn step_keeps_pending(arts: Seq<(ResolvedView, RankView)>, s: Search, n: Need)
    requires
        sorted::<Pair<ArtifactCoordinates, Scope>>(s.scopes),
        pending(s, n),
    ensures
        pending(step(arts, s), n),
{
    if s.queue.len() > 0 {
        let first = s.queue[0];
        let rest = s.queue.drop_first();
        let t = step(arts, s);
        assign_scope(s.scopes, first.0, first.1);
        if s.queue.contains(n) {
            let k = choose|k: int| 0 <= k < s.queue.len() && s.queue[k] == n;
            if k > 0 {
                assert(rest[k - 1] == n);
                if !met(s.scopes, first) {
                    assert(t.queue[k - 1] == n);
                }
                assert(t.queue.contains(n));
            } else {
                assert(met(t.scopes, n));
            }
        } else {
            if n.0 == first.0 {
                assert(met(t.scopes, n));
            } else {
                assert(scope_in(t.scopes, n.0) == scope_in(s.scopes, n.0));
            }
        }
    }
}

proof fn step_keeps_sound(deps: Seq<DepView>, arts: Seq<(ResolvedView, RankView)>, s: Search)
    requires
        sound(deps, arts, s),
    ensures
        sound(deps, arts, step(arts, s)),
{
    if s.queue.len() > 0 {
        let n = s.queue[0];
        let rest = s.queue.drop_first();
        let t = step(arts, s);
        assign_scope(s.scopes, n.0, n.1);
        assert(is_needed(deps, arts, n));
        assert forall|i: int| 0 <= i < t.queue.len() implies is_needed(deps, arts, #[trigger] t.queue[i]) by {
            if i < rest.len() {
                assert(t.queue[i] == s.queue[i + 1]);
            } else {
                needed_in_turn(deps, arts, n, i - rest.len());
            }
        }
        assert forall|c: CoordView| (#[trigger] scope_in(t.scopes, c)) is Some implies is_needed(
            deps,
            arts,
            (c, scope_in(t.scopes, c)->Some_0),
        ) by {
            if c == n.0 && !met(s.scopes, n) {
                assert(scope_in(t.scopes, c) == Some(n.1));
            } else {
                assert(scope_in(t.scopes, c) == scope_in(s.scopes, c));
            }
        }
        assert forall|i: int| 0 <= i < direct_needs(deps).len() implies pending(t, #[trigger] direct_needs(deps)[i]) by {
            step_keeps_pending(arts, s, direct_needs(deps)[i]);
        }
        assert forall|c: CoordView, i: int|
            #![trigger scope_in(t.scopes, c), edges(arts, c)[i]]
            scope_in(t.scopes, c) is Some && 0 <= i < edges(arts, c).len() implies pending(
            t,
            needs_of(arts, (c, scope_in(t.scopes, c)->Some_0))[i],
        ) by {
            if c == n.0 && !met(s.scopes, n) {
                let more = needs_of(arts, n);
                assert(t.queue[rest.len() + i] == more[i]);
                assert(t.queue.contains(more[i]));
            } else {
                assert(scope_in(t.scopes, c) == scope_in(s.scopes, c));
                let e = edges(arts, c)[i];
                step_keeps_pending(arts, s, needs_of(arts, (c, scope_in(s.scopes, c)->Some_0))[i]);
            }
        }
    }
}

proof fn run_is_sound(deps: Seq<DepView>, arts: Seq<(ResolvedView, RankView)>, n: nat)
    ensures
        sound(deps, arts, run(deps, arts, n)),
    decreases n,
{
    if n == 0 {
        let s = run(deps, arts, 0);
        assert forall|i: int| 0 <= i < s.queue.len() implies is_needed(deps, arts, #[trigger] s.queue[i]) by {
            assert(direct_needs(deps).contains(s.queue[i]));
            assert(needed(deps, arts, 0, s.queue[i]));
        }
        assert forall|i: int| 0 <= i < direct_needs(deps).len() implies pending(s, #[trigger] direct_needs(deps)[i]) by {
            assert(s.queue.contains(direct_needs(deps)[i]));
        }
    } else {
        run_is_sound(deps, arts, (n - 1) as nat);
        step_keeps_sound(deps, arts, run(deps, arts, (n - 1) as nat));
    }
}

proof fn needed_is_met(
    deps: Seq<DepView>,
    arts: Seq<(ResolvedView, RankView)>,
    scopes: Seq<(CoordView, Scope)>,
    n: nat,
    need: Need,
)
    requires
        sound(deps, arts, Search { queue: Seq::empty(), scopes }),
        needed(deps, arts, n, need),
    ensures
        met(scopes, need),
    decreases n,
{
    let s = Search { queue: Seq::empty(), scopes };
    if n == 0 {
        let i = choose|i: int| 0 <= i < direct_needs(deps).len() && direct_needs(deps)[i] == need;
        assert(pending(s, direct_needs(deps)[i]));
    } else {
        let from = choose|from: Need|
            needed(deps, arts, (n - 1) as nat, from) && (#[trigger] needs_of(arts, from)).contains(need);
        needed_is_met(deps, arts, scopes, (n - 1) as nat, from);
        let x = scope_in(scopes, from.0)->Some_0;
        let i = choose|i: int| 0 <= i < needs_of(arts, from).len() && needs_of(arts, from)[i] == need;
        let e = edges(arts, from.0)[i];
        assert(pending(s, needs_of(arts, (from.0, x))[i]));
        mediate_never_widens(from.1, x, e.1.scope);
    }
}

/// Each artifact that anything needs has a scope, and no other has one. The scope is one in
/// which the artifact is needed, and none in which it is needed is wider.
pub proof fn scopes_are_the_widest(
    deps: Seq<DepView>,
    arts: Seq<(ResolvedView, RankView)>,
    scopes: Seq<(CoordView, Scope)>,
    c: CoordView,
    x: Scope,
)
    requires
        scopes_of(deps, arts, scopes),
    ensures
        is_needed(deps, arts, (c, x)) ==> scope_in(scopes, c) is Some && scope_rank(x) <= scope_rank(
            scope_in(scopes, c)->Some_0,
        ),
        scope_in(scopes, c) is Some ==> is_needed(deps, arts, (c, scope_in(scopes, c)->Some_0)),
{
    let n = choose|n: nat| #[trigger] run(deps, arts, n) == (Search { queue: Seq::empty(), scopes });
    run_is_sound(deps, arts, n);
    if is_needed(deps, arts, (c, x)) {
        let k = choose|k: nat| #[trigger] needed(deps, arts, k, (c, x));
        needed_is_met(deps, arts, scopes, k, (c, x));
    }
}

/// A direct dependency of the manifest is never needed in a narrower scope than the manifest
/// declares for it.
pub proof fn direct_scope_is_kept(
    deps: Seq<DepView>,
    arts: Seq<(ResolvedView, RankView)>,
    scopes: Seq<(CoordView, Scope)>,
    i: int,
)
    requires
        scopes_of(deps, arts, scopes),
        0 <= i < direct_needs(deps).len(),
    ensures
        met(scopes, direct_needs(deps)[i]),
{
    let need = direct_needs(deps)[i];
    assert(direct_needs(deps).contains(need));
    assert(needed(deps, arts, 0, need));
    scopes_are_the_widest(deps, arts, scopes, need.0, need.1);
}

/// How much wider the scopes of artifacts can still become.
spec fn room(universe: Seq<CoordView>, scopes: Seq<(CoordView, Scope)>) -> nat
    decreases universe.len(),
{
    if universe.len() == 0 {
        0
    } else {
        room(universe.drop_last(), scopes) + match scope_in(scopes, universe.last()) {
            Some(s) => (4 - scope_rank(s)) as nat,
            None => 5,
        }
    }
}

/// A wider scope leaves less room.
proof fn room_shrinks(universe: Seq<CoordView>, scopes: Seq<(CoordView, Scope)>, n: Need)
    requires
        sorted::<Pair<ArtifactCoordinates, Scope>>(scopes),
        !met(scopes, n),
    ensures
        room(universe, assign::<ArtifactCoordinates, Scope>(scopes, n.0, n.1)) <= room(universe, scopes),
        universe.contains(n.0) ==> room(universe, assign::<ArtifactCoordinates, Scope>(scopes, n.0, n.1)) < room(
            universe,
            scopes,
        ),
    decreases universe.len(),
{
    if universe.len() > 0 {
        let d = universe.drop_last();
        room_shrinks(d, scopes, n);
        assign_scope(scopes, n.0, n.1);
        if universe.contains(n.0) && universe.last() != n.0 {
            let k = choose|k: int| 0 <= k < universe.len() && universe[k] == n.0;
            assert(d[k] == n.0);
            assert(d.contains(n.0));
        }
    }
}

/// All coordinates that a search can come to.
spec fn reachable(arts: Seq<(ResolvedView, RankView)>) -> Seq<CoordView>
    decreases arts.len(),
{
    if arts.len() == 0 {
        Seq::empty()
    } else {
        reachable(arts.drop_last()) + arts.last().0.dependencies.map_values(
            |d: (CoordView, PomDependencyView)| d.0,
        )
    }
}

proof fn edges_are_reachable(arts: Seq<(ResolvedView, RankView)>, c: CoordView, i: int)
    requires
        0 <= i < edges(arts, c).len(),
    ensures
        reachable(arts).contains(edges(arts, c)[i].0),
    decreases arts.len(),
{
    if arts.len() > 0 {
        let before = reachable(arts.drop_last());
        let more = arts.last().0.dependencies.map_values(|d: (CoordView, PomDependencyView)| d.0);
        if arts.last().0.coord == c {
            assert((before + more)[before.len() + i] == edges(arts, c)[i].0);
        } else {
            edges_are_reachable(arts.drop_last(), c, i);
            let k = choose|k: int| 0 <= k < before.len() && before[k] == edges(arts, c)[i].0;
            assert((before + more)[k] == edges(arts, c)[i].0);
        }
    }
}

spec fn universe(deps: Seq<DepView>, arts: Seq<(ResolvedView, RankView)>) -> Seq<CoordView> {
    direct_needs(deps).map_values(|n: Need| n.0) + reachable(arts)
}

proof fn in_universe(deps: Seq<DepView>, arts: Seq<(ResolvedView, RankView)>, c: CoordView, i: int)
    ensures
        0 <= i < direct_needs(deps).len() ==> universe(deps, arts).contains(direct_needs(deps)[i].0),
        0 <= i < edges(arts, c).len() ==> universe(deps, arts).contains(edges(arts, c)[i].0),
{
    let a = direct_needs(deps).map_values(|n: Need| n.0);
    let b = reachable(arts);
    if 0 <= i < direct_needs(deps).len() {
        assert((a + b)[i] == direct_needs(deps)[i].0);
    }
    if 0 <= i < edges(arts, c).len() {
        edges_are_reachable(arts, c, i);
        let k = choose|k: int| 0 <= k < b.len() && b[k] == edges(arts, c)[i].0;
        assert((a + b)[a.len() + k] == edges(arts, c)[i].0);
    }
}

fn find_artifact(artifacts: &Vec<Resolved>, c: &ArtifactCoordinates) -> (r: Option<usize>)
    ensures
        match r {
            Some(i) => i < artifacts@.len() && artifact_of(views(artifacts@), c@) == Some(artifacts@[i as int].artifact@),
            None => artifact_of(views(artifacts@), c@) is None,
        },
{
    let ghost av = views(artifacts@);
    let mut n: usize = artifacts.len();
    assert(av.take(n as int) =~= av);
    while n > 0
        invariant
            n <= artifacts@.len(),
            av == views(artifacts@),
            artifact_of(av, c@) == artifact_of(av.take(n as int), c@),
        decreases n,
    {
        assert(av.take(n as int).last() == artifacts@[n - 1]@);
        if artifacts[n - 1].artifact.coord.same(c) {
            return Some(n - 1);
        }
        assert(av.take(n as int).drop_last() =~= av.take(n - 1));
        n = n - 1;
    }
    None
}

/// Needs that wait to be looked at.
fn queue_direct(deps: &Vec<Dependency>) -> (r: Vec<(ArtifactCoordinates, Scope)>)
    ensures
        need_views(r@) == direct_needs(views(deps@)),
{
    let ghost dv = views(deps@);
    let mut out: Vec<(ArtifactCoordinates, Scope)> = Vec::new();
    let mut i: usize = 0;
    assert(dv.take(0) =~= Seq::empty());
    assert(need_views(out@) =~= Seq::empty());
    while i < deps.len()
        invariant
            i <= deps@.len(),
            dv == views(deps@),
            need_views(out@) == direct_needs(dv.take(i as int)),
        decreases deps@.len() - i,
    {
        assert(dv[i as int] == deps@[i as int]@);
        assert(dv.take(i + 1).drop_last() =~= dv.take(i as int));
        if let Some(c) = deps[i].coord() {
            let ghost before = out@;
            out.push((c.clone(), deps[i].scope));
            assert(need_views(out@) =~= need_views(before).push((c@, deps@[i as int].scope)));
        }
        i = i + 1;
    }
    assert(dv.take(i as int) =~= dv);
    out
}

/// Needs, their texts as characters.
pub open spec fn need_views(s: Seq<(ArtifactCoordinates, Scope)>) -> Seq<Need> {
    s.map_values(|n: (ArtifactCoordinates, Scope)| (n.0@, n.1))
}

/// Adds what an artifact needs in turn.
fn queue_needs(
    queue: &mut Vec<(ArtifactCoordinates, Scope)>,
    artifacts: &Vec<Resolved>,
    c: &ArtifactCoordinates,
    scope: Scope,
)
    ensures
        need_views(final(queue)@) == need_views(old(queue)@) + needs_of(views(artifacts@), (c@, scope)),
{
    let ghost av = views(artifacts@);
    let ghost more = needs_of(av, (c@, scope));
    let ghost q0 = need_views(queue@);
    match find_artifact(artifacts, c) {
        None => {
            assert(more =~= Seq::empty());
            assert(need_views(queue@) =~= q0 + more);
        },
        Some(at) => {
            let deps = &artifacts[at].artifact.dependencies;
            assert(edges(av, c@) == deps@);
            let mut i: usize = 0;
            assert(q0 + more.take(0) =~= q0);
            while i < deps.len()
                invariant
                    i <= deps@.len(),
                    edges(av, c@) == deps@,
                    more == needs_of(av, (c@, scope)),
                    need_views(queue@) == q0 + more.take(i as int),
                decreases deps@.len() - i,
            {
                let (child, dep) = deps.at(i);
                let ghost before = queue@;
                queue.push((child.clone(), mediate(scope, dep.scope)));
                assert(need_views(queue@) =~= need_views(before).push(more[i as int]));
                i = i + 1;
                assert(need_views(queue@) =~= q0 + more.take(i as int));
            }
            assert(more.take(i as int) =~= more);
        },
    }
}

/// The scope in which each artifact is needed.
pub fn compute_effective_scopes(deps: &Vec<Dependency>, artifacts: &Vec<Resolved>) -> (r: OrdMap<
    ArtifactCoordinates,
    Scope,
>)
    ensures
        scopes_of(views(deps@), views(artifacts@), r@),
        sorted::<Pair<ArtifactCoordinates, Scope>>(r@),
{
    let ghost dv = views(deps@);
    let ghost av = views(artifacts@);
    let ghost u = universe(dv, av);
    let mut result: OrdMap<ArtifactCoordinates, Scope> = OrdMap::new();
    let mut queue = queue_direct(deps);
    let mut head: usize = 0;
    let ghost mut n: nat = 0;
    assert(need_views(queue@).skip(0) =~= direct_needs(dv));
    assert forall|i: int| 0 <= i < queue@.len() implies u.contains((#[trigger] need_views(queue@)[i]).0) by {
        in_universe(dv, av, arbitrary(), i);
    }
    while head < queue.len()
        invariant
            head <= queue@.len(),
            dv == views(deps@),
            av == views(artifacts@),
            u == universe(dv, av),
            run(dv, av, n) == (Search { queue: need_views(queue@).skip(head as int), scopes: result@ }),
            forall|i: int| 0 <= i < queue@.len() ==> u.contains((#[trigger] need_views(queue@)[i]).0),
        decreases room(u, result@), queue@.len() - head,
    {
        let ghost s = run(dv, av, n);
        let ghost qv = need_views(queue@);
        proof {
            use_type_invariant(&result);
            assert(s.queue[0] == qv[head as int]);
            assert(s.queue.drop_first() =~= qv.skip(head + 1));
            assert(u.contains(qv[head as int].0));
        }
        let coord = queue[head].0.clone();
        let scope = queue[head].1;
        let ghost need = (coord@, scope);
        assert(need == s.queue[0]);
        head = head + 1;
        let done = match result.get(&coord) {
            Some(existing) => scope.rank() <= existing.rank(),
            None => false,
        };
        if !done {
            proof {
                room_shrinks(u, result@, need);
            }
            result.insert(coord.clone(), scope);
            queue_needs(&mut queue, artifacts, &coord, scope);
            proof {
                let more = needs_of(av, need);
                assert(need_views(queue@).skip(head as int) =~= qv.skip(head as int) + more);
                assert forall|i: int| 0 <= i < queue@.len() implies u.contains((#[trigger] need_views(queue@)[i]).0) by {
                    if i < qv.len() {
                        assert(need_views(queue@)[i] == qv[i]);
                    } else {
                        assert(need_views(queue@)[i] == more[i - qv.len()]);
                        in_universe(dv, av, coord@, i - qv.len());
                    }
                }
            }
        }
        proof {
            assert(run(dv, av, (n + 1) as nat) == step(av, s));
            n = n + 1;
        }
    }
    proof {
        use_type_invariant(&result);
        assert(need_views(queue@).skip(head as int) =~= Seq::empty());
    }
    result
}

} // verus!
