//! Laws of what is downloaded, where it is kept, and what the lock says of it.
use vstd::prelude::*;
use crate::laws::names::set_holds_each_text;
use crate::manifest::lock::{LocalArtifact, LocalView, LockArtifactView, LockView};
use crate::manifest::{DepView, Scope, SourceView};
use crate::maven::loader::{
    from_locked_ranked, locked_deps_are_kept, seed_of, ticket_spec, LoadView, PomDependency, RankView, ResolvedView,
};
use crate::maven::sha256_of;
use crate::order::{
    assign_keeps_order, holds, less_irreflexive, less_transitive, lookup, put_all, put_keeps_order, sorted, sorted_at,
    sorted_drop_last, Pair, Ranked,
};
use crate::paths::{join_path_spec, Path};
use crate::project::locking::{
    are_plans, comes_from, declared_exclusions, direct_loads_spec, has_come, is_declared, is_locked, library_name,
    local_paths_spec, locals_spec, locked_digest, locked_spec, passed_over, scopes_survive_the_lock, still_holds,
    with_libraries, with_local_paths, PlanView,
};
use crate::types::{extension_spec, implied_spec, ArtifactCoordinates, CoordView};

verus! {

/// How many dependencies before a place come from a repository.
pub open spec fn remote_before(deps: Seq<DepView>, i: int) -> nat {
    deps.take(i).filter(|d: DepView| d.source is Id).len()
}

/// Whether a load is that of a dependency of the manifest at a place.
pub open spec fn is_direct_load(l: LoadView, d: DepView, i: int) -> bool {
    &&& d.source == SourceView::Id(l.coord)
    &&& l.artifact_type == d.artifact_type
    &&& l.classifier == d.classifier
    &&& l.branch.depth == 0
    &&& l.branch.position == seq![i as usize]
    &&& l.branch.effective_scope == d.scope
    &&& l.branch.exclusions == d.exclusions
}

/// Each dependency of the manifest that comes from a repository is loaded, in order, at its place
/// among all of them, with its own type, classifier, scope and exclusions. Nothing else is.
pub proof fn every_direct_dependency_is_loaded(deps: Seq<DepView>, i: int)
    requires
        0 <= i < deps.len(),
    ensures
        direct_loads_spec(deps).len() == deps.filter(|d: DepView| d.source is Id).len(),
        deps[i].source is Id ==> remote_before(deps, i) < direct_loads_spec(deps).len() && is_direct_load(
            direct_loads_spec(deps)[remote_before(deps, i) as int],
            deps[i],
            i,
        ),
    decreases deps.len(),
{
    reveal(Seq::filter);
    let d = deps.drop_last();
    let n = deps.len() - 1;
    assert(deps.take(n) =~= d);
    direct_loads_are_counted(d);
    if i < n {
        every_direct_dependency_is_loaded(d, i);
        assert(deps.take(i) =~= d.take(i));
    }
}

proof fn direct_loads_are_counted(deps: Seq<DepView>)
    ensures
        direct_loads_spec(deps).len() == deps.filter(|d: DepView| d.source is Id).len(),
    decreases deps.len(),
{
    reveal(Seq::filter);
    if deps.len() > 0 {
        direct_loads_are_counted(deps.drop_last());
    }
}

/// The files that a manifest names as dependencies are all of them, in order.
pub proof fn every_local_file_is_named(deps: Seq<DepView>)
    ensures
        local_paths_spec(deps) == deps.filter(|d: DepView| d.source is Path).map_values(
            |d: DepView| d.source->Path_0,
        ),
    decreases deps.len(),
{
    reveal(Seq::filter);
    if deps.len() > 0 {
        every_local_file_is_named(deps.drop_last());
    }
    assert(local_paths_spec(deps) =~= deps.filter(|d: DepView| d.source is Path).map_values(
        |d: DepView| d.source->Path_0,
    ));
}

/// A file that a manifest names is on the class path, in the directory of the project, in the
/// scope of the last dependency that names it. All else is there as before.
pub proof fn local_files_are_on_the_class_path(
    cp: Seq<(Seq<char>, Scope)>,
    dir: Seq<char>,
    deps: Seq<DepView>,
    i: int,
    path: Seq<char>,
)
    requires
        sorted::<Pair<Path, Scope>>(cp),
    ensures
        sorted::<Pair<Path, Scope>>(with_local_paths(cp, dir, deps)),
        0 <= i < deps.len() && deps[i].source is Path && (forall|j: int|
            i < j < deps.len() && (#[trigger] deps[j]).source is Path ==> Path::code(
                join_path_spec(dir, deps[j].source->Path_0),
            ) != Path::code(join_path_spec(dir, deps[i].source->Path_0))) ==> lookup::<Path, Scope>(
            with_local_paths(cp, dir, deps),
            join_path_spec(dir, deps[i].source->Path_0),
        ) == Some(deps[i].scope),
        (forall|j: int|
            0 <= j < deps.len() && (#[trigger] deps[j]).source is Path ==> Path::code(
                join_path_spec(dir, deps[j].source->Path_0),
            ) != Path::code(path)) ==> lookup::<Path, Scope>(with_local_paths(cp, dir, deps), path) == lookup::<
            Path,
            Scope,
        >(cp, path),
    decreases deps.len(),
{
    if deps.len() > 0 {
        let d = deps.drop_last();
        let l = deps.last();
        assert(deps[deps.len() - 1] == l);
        assert(forall|j: int| 0 <= j < d.len() ==> #[trigger] d[j] == deps[j]);
        local_files_are_on_the_class_path(cp, dir, d, i, path);
        let before = with_local_paths(cp, dir, d);
        if l.source is Path {
            let x = join_path_spec(dir, l.source->Path_0);
            assign_keeps_order::<Path, Scope>(before, x, l.scope);
        }
        if forall|j: int|
            0 <= j < deps.len() && (#[trigger] deps[j]).source is Path ==> Path::code(
                join_path_spec(dir, deps[j].source->Path_0),
            ) != Path::code(path) {
            assert(forall|j: int|
                0 <= j < d.len() && (#[trigger] d[j]).source is Path ==> Path::code(
                    join_path_spec(dir, d[j].source->Path_0),
                ) != Path::code(path));
        }
        if 0 <= i < d.len() && deps[i].source is Path && (forall|j: int|
            i < j < deps.len() && (#[trigger] deps[j]).source is Path ==> Path::code(
                join_path_spec(dir, deps[j].source->Path_0),
            ) != Path::code(join_path_spec(dir, deps[i].source->Path_0))) {
            assert(d[i] == deps[i]);
            assert(forall|j: int|
                i < j < d.len() && (#[trigger] d[j]).source is Path ==> Path::code(
                    join_path_spec(dir, d[j].source->Path_0),
                ) != Path::code(join_path_spec(dir, d[i].source->Path_0)));
        }
    }
}

/// The file of each artifact is on the class path, in the scope of its plan: of several plans for
/// one file, that of the last. All else is there as before.
pub proof fn libraries_are_on_the_class_path(
    cp: Seq<(Seq<char>, Scope)>,
    plans: Seq<PlanView>,
    i: int,
    path: Seq<char>,
)
    requires
        sorted::<Pair<Path, Scope>>(cp),
    ensures
        sorted::<Pair<Path, Scope>>(with_libraries(cp, plans)),
        0 <= i < plans.len() && (forall|j: int|
            i < j < plans.len() ==> Path::code((#[trigger] plans[j]).out) != Path::code(plans[i].out)) ==> lookup::<
            Path,
            Scope,
        >(with_libraries(cp, plans), plans[i].out) == Some(plans[i].scope),
        (forall|j: int| 0 <= j < plans.len() ==> Path::code((#[trigger] plans[j]).out) != Path::code(path))
            ==> lookup::<Path, Scope>(with_libraries(cp, plans), path) == lookup::<Path, Scope>(cp, path),
    decreases plans.len(),
{
    if plans.len() > 0 {
        let d = plans.drop_last();
        let l = plans.last();
        assert(plans[plans.len() - 1] == l);
        assert(forall|j: int| 0 <= j < d.len() ==> #[trigger] d[j] == plans[j]);
        libraries_are_on_the_class_path(cp, d, i, path);
        assign_keeps_order::<Path, Scope>(with_libraries(cp, d), l.out, l.scope);
        if forall|j: int| 0 <= j < plans.len() ==> Path::code((#[trigger] plans[j]).out) != Path::code(path) {
            assert(forall|j: int| 0 <= j < d.len() ==> Path::code((#[trigger] d[j]).out) != Path::code(path));
        }
        if 0 <= i < d.len() && (forall|j: int|
            i < j < plans.len() ==> Path::code((#[trigger] plans[j]).out) != Path::code(plans[i].out)) {
            assert(d[i] == plans[i]);
            assert(forall|j: int| i < j < d.len() ==> Path::code((#[trigger] d[j]).out) != Path::code(d[i].out));
        }
    }
}

/// Each local file is locked under its own path, with the digest of what it holds, and no other.
pub proof fn local_files_are_locked(paths: Seq<Seq<char>>, contents: Seq<Seq<u8>>, i: int, v: LocalView)
    ensures
        sorted::<LocalArtifact>(locals_spec(paths, contents)),
        0 <= i < paths.len() ==> holds::<LocalArtifact>(
            locals_spec(paths, contents),
            LocalView { path: paths[i], checksum: sha256_of(contents[i]) },
        ),
        locals_spec(paths, contents).contains(v) ==> exists|k: int|
            0 <= k < paths.len() && v.path == #[trigger] paths[k] && v.checksum == sha256_of(contents[k]),
    decreases paths.len(),
{
    if paths.len() > 0 {
        let d = paths.drop_last();
        let n = paths.len() - 1;
        let q = locals_spec(d, contents);
        let r = locals_spec(paths, contents);
        let x = LocalView { path: paths.last(), checksum: sha256_of(contents[n]) };
        assert(paths[n] == paths.last());
        local_files_are_locked(d, contents, i, v);
        put_keeps_order::<LocalArtifact>(q, x);
        if 0 <= i < n {
            let y = LocalView { path: paths[i], checksum: sha256_of(contents[i]) };
            let k = choose|k: int| 0 <= k < q.len() && LocalArtifact::code(#[trigger] q[k]) == LocalArtifact::code(y);
            assert(q.contains(q[k]));
            assert(r.contains(q[k]));
            let j = choose|j: int| 0 <= j < r.len() && r[j] == q[k];
            assert(LocalArtifact::code(r[j]) == LocalArtifact::code(y));
        }
        if r.contains(v) && q.contains(v) {
            let k = choose|k: int|
                0 <= k < d.len() && v.path == #[trigger] d[k] && v.checksum == sha256_of(contents[k]);
            assert(paths[k] == d[k]);
        }
    }
}

/// The digest that is expected of a file is that of the first locked artifact with its coordinates
/// and its classifier. Nothing is expected where none is locked.
pub proof fn expected_digest_is_the_locked_one(
    artifacts: Seq<LockArtifactView>,
    c: CoordView,
    classifier: Option<Seq<char>>,
)
    ensures
        match locked_digest(artifacts, c, classifier) {
            Some(d) => exists|k: int|
                0 <= k < artifacts.len() && (#[trigger] artifacts[k]).coord == c && artifacts[k].classifier
                    == classifier && artifacts[k].checksum == d && forall|l: int|
                    0 <= l < k ==> !((#[trigger] artifacts[l]).coord == c && artifacts[l].classifier == classifier),
            None => forall|l: int|
                0 <= l < artifacts.len() ==> !((#[trigger] artifacts[l]).coord == c && artifacts[l].classifier
                    == classifier),
        },
    decreases artifacts.len(),
{
    if artifacts.len() > 0 {
        let d = artifacts.drop_first();
        expected_digest_is_the_locked_one(d, c, classifier);
        if !(artifacts[0].coord == c && artifacts[0].classifier == classifier) {
            assert(forall|l: int| 0 < l < artifacts.len() ==> #[trigger] artifacts[l] == d[l - 1]);
            if let Some(x) = locked_digest(d, c, classifier) {
                let k = choose|k: int|
                    0 <= k < d.len() && (#[trigger] d[k]).coord == c && d[k].classifier == classifier
                        && d[k].checksum == x && forall|l: int|
                        0 <= l < k ==> !((#[trigger] d[l]).coord == c && d[l].classifier == classifier);
                assert(artifacts[k + 1] == d[k]);
                assert forall|l: int| 0 <= l < k + 1 implies !((#[trigger] artifacts[l]).coord == c
                    && artifacts[l].classifier == classifier) by {
                    if l > 0 {
                        assert(artifacts[l] == d[l - 1]);
                    }
                }
            }
        }
    }
}

/// What a manifest excludes of an artifact is what the first dependency on its coordinates says,
/// and nothing where there is none.
pub proof fn declared_exclusions_are_those_of_the_first(deps: Seq<DepView>, c: CoordView, i: int)
    ensures
        0 <= i < deps.len() && deps[i].source == SourceView::Id(c) && (forall|l: int|
            0 <= l < i ==> (#[trigger] deps[l]).source != SourceView::Id(c)) ==> declared_exclusions(deps, c)
            == deps[i].exclusions,
        (forall|l: int| 0 <= l < deps.len() ==> (#[trigger] deps[l]).source != SourceView::Id(c))
            ==> declared_exclusions(deps, c).len() == 0,
    decreases deps.len(),
{
    if deps.len() > 0 {
        let d = deps.drop_first();
        assert(forall|l: int| 0 < l < deps.len() ==> #[trigger] deps[l] == d[l - 1]);
        declared_exclusions_are_those_of_the_first(d, c, i - 1);
        if 0 < i < deps.len() && deps[i].source == SourceView::Id(c) && (forall|l: int|
            0 <= l < i ==> (#[trigger] deps[l]).source != SourceView::Id(c)) {
            assert forall|l: int| 0 <= l < i - 1 implies (#[trigger] d[l]).source != SourceView::Id(c) by {
                assert(deps[l + 1] == d[l]);
            }
            assert(deps[0].source != SourceView::Id(c));
        }
        if forall|l: int| 0 <= l < deps.len() ==> (#[trigger] deps[l]).source != SourceView::Id(c) {
            assert forall|l: int| 0 <= l < d.len() implies (#[trigger] d[l]).source != SourceView::Id(c) by {
                assert(deps[l + 1] == d[l]);
            }
            assert(deps[0].source != SourceView::Id(c));
        }
    }
}

/// There is one plan for each artifact, in order. Its file is kept among the libraries under its
/// own name; the lock says what is expected of it, and the manifest what it excludes.
pub proof fn each_artifact_has_its_plan(
    plans: Seq<PlanView>,
    artifacts: Seq<(ResolvedView, RankView)>,
    deps: Seq<DepView>,
    locked: Seq<LockArtifactView>,
    libraries: Seq<char>,
    scopes: Seq<(CoordView, Scope)>,
    i: int,
)
    requires
        are_plans(plans, artifacts, deps, locked, libraries, scopes),
        0 <= i < artifacts.len(),
    ensures
        plans.len() == artifacts.len(),
        plans[i].out == join_path_spec(
            libraries,
            library_name(artifacts[i].0.coord, artifacts[i].0.classifier, artifacts[i].0.artifact_type),
        ),
        plans[i].expected == locked_digest(locked, artifacts[i].0.coord, artifacts[i].0.classifier),
        plans[i].exclusions == declared_exclusions(deps, artifacts[i].0.coord),
{
}

/// The file of an artifact is named by its group, its name, its version and, where it has one, its
/// classifier, with hyphens between them, and by the extension of its type.
pub proof fn library_is_named_after_its_artifact(c: CoordView, classifier: Option<Seq<char>>, t: Seq<char>)
    ensures
        ({
            let e = if t == "test-jar"@ || t == "maven-plugin"@ || t == "ejb"@ || t == "ejb-client"@ || t
                == "java-source"@ || t == "javadoc"@ {
                "jar"@
            } else {
                t
            };
            let n = library_name(c, classifier, t);
            &&& classifier is None ==> n == c.group + "-"@ + c.artifact + "-"@ + c.version + "."@ + e
            &&& classifier is Some ==> n == c.group + "-"@ + c.artifact + "-"@ + c.version + "-"@
                + classifier->Some_0 + "."@ + e
        }),
{
    reveal_strlit("-");
    reveal_strlit(".");
    assert("-"@ =~= seq!['-']);
    assert("."@ =~= seq!['.']);
}

/// The lock says of an artifact what was resolved, where it is, and what was planned, with the
/// digest of its file: the same that comes back when the lock is recalled.
pub proof fn lock_says_what_was_resolved(a: ResolvedView, rank: RankView, plan: PlanView, digest: Seq<u8>)
    requires
        sorted::<Pair<ArtifactCoordinates, PomDependency>>(a.dependencies),
    ensures
        ({
            let l = locked_spec(a, rank, plan, digest);
            let back = from_locked_ranked(l);
            &&& l.checksum == digest
            &&& l.effective_scope == plan.scope
            &&& l.exclusions == plan.exclusions
            &&& l.dependencies.len() == a.dependencies.len()
            &&& forall|i: int|
                0 <= i < a.dependencies.len() ==> (#[trigger] l.dependencies[i]).0 == a.dependencies[i].0
                    && l.dependencies[i].1 == a.dependencies[i].1.scope
            &&& back.0.coord == a.coord
            &&& back.0.source == a.source
            &&& back.0.artifact_path == a.artifact_path
            &&& back.0.artifact_type == a.artifact_type
            &&& back.0.classifier == a.classifier
            &&& back.0.effective_scope == plan.scope
            &&& back.1 == rank
            &&& back.0.dependencies.len() == a.dependencies.len()
            &&& forall|i: int|
                0 <= i < a.dependencies.len() ==> (#[trigger] back.0.dependencies[i]).0 == a.dependencies[i].0
                    && back.0.dependencies[i].1.scope == a.dependencies[i].1.scope
            &&& seed_of(l).coord == a.coord
            &&& seed_of(l).source == a.source
            &&& seed_of(l).artifact_path == a.artifact_path
            &&& seed_of(l).dependencies == l.dependencies
        }),
{
    scopes_survive_the_lock(a.dependencies);
    locked_deps_are_kept(locked_spec(a, rank, plan, digest).dependencies);
}

/// A file among the libraries is kept where a locked artifact has its name, and only there.
pub proof fn only_locked_files_are_kept(artifacts: Seq<LockArtifactView>, name: Seq<char>, i: int)
    ensures
        0 <= i < artifacts.len() && name == library_name(
            artifacts[i].coord,
            artifacts[i].classifier,
            artifacts[i].artifact_type,
        ) ==> is_locked(artifacts, name),
        artifacts.len() == 0 ==> !is_locked(artifacts, name),
        is_locked(artifacts, name) ==> exists|k: int|
            0 <= k < artifacts.len() && name == library_name(
                (#[trigger] artifacts[k]).coord,
                artifacts[k].classifier,
                artifacts[k].artifact_type,
            ),
{
    if 0 <= i < artifacts.len() {
        assert(artifacts[i] == artifacts[i]);
    }
}

proof fn direct_load_has_a_dependency(deps: Seq<DepView>, k: int) -> (i: int)
    requires
        0 <= k < direct_loads_spec(deps).len(),
    ensures
        0 <= i < deps.len(),
        deps[i].source is Id,
        remote_before(deps, i) == k,
        is_direct_load(direct_loads_spec(deps)[k], deps[i], i),
    decreases deps.len(),
{
    reveal(Seq::filter);
    let d = deps.drop_last();
    let n = deps.len() - 1;
    direct_loads_are_counted(d);
    assert(deps.take(n) =~= d);
    if k < direct_loads_spec(d).len() {
        let i = direct_load_has_a_dependency(d, k);
        assert(deps.take(i) =~= d.take(i));
        every_direct_dependency_is_loaded(deps, i);
        i
    } else {
        every_direct_dependency_is_loaded(deps, n);
        n
    }
}

/// Whether two dependencies ask for the same: of the same group and name, of one type, and with
/// one classifier. Their versions may differ.
pub open spec fn asks_for_the_same(a: DepView, b: DepView) -> bool {
    &&& a.source is Id
    &&& b.source is Id
    &&& a.source->Id_0.group == b.source->Id_0.group
    &&& a.source->Id_0.artifact == b.source->Id_0.artifact
    &&& a.artifact_type == b.artifact_type
    &&& wanted_classifier(a) == wanted_classifier(b)
}

/// The classifier of a dependency, or else the one that its type implies.
pub open spec fn wanted_classifier(d: DepView) -> Option<Seq<char>> {
    if d.classifier is Some {
        d.classifier
    } else {
        implied_spec(d.artifact_type)
    }
}

/// Whether a locked artifact is what a dependency of the manifest at a place asks for.
pub open spec fn answers(a: LockArtifactView, d: DepView, i: int) -> bool {
    &&& d.source == SourceView::Id(a.coord)
    &&& a.classifier == wanted_classifier(d)
    &&& extension_spec(a.artifact_type) == extension_spec(d.artifact_type)
    &&& a.exclusions == d.exclusions
    &&& a.depth == 0
    &&& a.position == seq![i as usize]
}

/// Whether a dependency at a place is answered by a lock, or asks for what one before it does.
pub open spec fn is_answered(locked: Seq<LockArtifactView>, deps: Seq<DepView>, i: int) -> bool {
    ||| exists|k: int| 0 <= k < locked.len() && answers(#[trigger] locked[k], deps[i], i)
    ||| exists|j: int| 0 <= j < i && asks_for_the_same(#[trigger] deps[j], deps[i])
}

/// A lock is recalled only where the repositories are the same, each dependency of the manifest
/// that comes from a repository is in it as the manifest declares it, at its place and with its
/// exclusions, and nothing that it has directly is undeclared.
pub proof fn changes_are_noticed(lock: LockView, urls: Seq<Seq<char>>, deps: Seq<DepView>, u: Seq<char>, i: int, k: int)
    requires
        still_holds(lock, urls, deps),
    ensures
        lock.repositories.contains(u) <==> urls.contains(u),
        0 <= i < deps.len() && deps[i].source is Id ==> is_answered(lock.artifacts, deps, i),
        0 <= k < lock.artifacts.len() && lock.artifacts[k].depth == 0 ==> exists|j: int|
            0 <= j < deps.len() && answers(lock.artifacts[k], #[trigger] deps[j], j),
{
    set_holds_each_text(urls, u);
    let loads = direct_loads_spec(deps);
    let locked = lock.artifacts;
    if 0 <= i < deps.len() && deps[i].source is Id {
        every_direct_dependency_is_loaded(deps, i);
        let m = remote_before(deps, i) as int;
        assert(loads[m] == loads[m]);
        if passed_over(loads, m) {
            let n = choose|n: int| 0 <= n < m && ticket_spec(#[trigger] loads[n]).key == ticket_spec(loads[m]).key;
            let j = direct_load_has_a_dependency(deps, n);
            remote_before_grows(deps, i, j);
            assert(asks_for_the_same(deps[j], deps[i]));
        } else {
            assert(has_come(locked, loads[m]));
            let l = choose|l: int| 0 <= l < locked.len() && comes_from(#[trigger] locked[l], loads[m]);
            assert(answers(locked[l], deps[i], i));
        }
    }
    if 0 <= k < locked.len() && locked[k].depth == 0 {
        assert(is_declared(locked[k], loads));
        let m = choose|m: int| 0 <= m < loads.len() && !passed_over(loads, m) && comes_from(locked[k], #[trigger] loads[m]);
        let j = direct_load_has_a_dependency(deps, m);
        assert(answers(locked[k], deps[j], j));
    }
}

proof fn remote_before_grows(deps: Seq<DepView>, i: int, j: int)
    requires
        0 <= i < deps.len(),
        0 <= j < deps.len(),
        remote_before(deps, j) < remote_before(deps, i),
    ensures
        j < i,
    decreases j,
{
    if j >= i {
        remote_before_does_not_shrink(deps, i, j);
    }
}

proof fn remote_before_does_not_shrink(deps: Seq<DepView>, i: int, j: int)
    requires
        0 <= i <= j <= deps.len(),
    ensures
        remote_before(deps, i) <= remote_before(deps, j),
    decreases j - i,
{
    reveal(Seq::filter);
    if i < j {
        remote_before_does_not_shrink(deps, i, j - 1);
        assert(deps.take(j).drop_last() =~= deps.take(j - 1));
    }
}

/// A lock is of use with the same repositories, in whatever order they are declared, and however
/// often.
pub proof fn order_of_repositories_is_of_no_account(a: Seq<Seq<char>>, b: Seq<Seq<char>>)
    requires
        forall|u: Seq<char>| #[trigger] a.contains(u) <==> b.contains(u),
    ensures
        put_all::<String>(a) == put_all::<String>(b),
{
    let x = put_all::<String>(a);
    let y = put_all::<String>(b);
    assert forall|u: Seq<char>| #[trigger] x.contains(u) <==> y.contains(u) by {
        set_holds_each_text(a, u);
        set_holds_each_text(b, u);
        assert(a.contains(u) <==> b.contains(u));
    }
    set_holds_each_text(a, Seq::empty());
    set_holds_each_text(b, Seq::empty());
    same_texts_in_order(x, y);
}

proof fn same_texts_in_order(x: Seq<Seq<char>>, y: Seq<Seq<char>>)
    requires
        sorted::<String>(x),
        sorted::<String>(y),
        forall|u: Seq<char>| #[trigger] x.contains(u) <==> y.contains(u),
    ensures
        x == y,
    decreases x.len(),
{
    if x.len() == 0 {
        if y.len() > 0 {
            assert(y.contains(y[0]));
            assert(x.contains(y[0]));
        }
        assert(x =~= y);
    } else {
        let n = x.len() - 1;
        assert(x.contains(x[n]));
        let k = choose|k: int| 0 <= k < y.len() && y[k] == x[n];
        let m = y.len() - 1;
        assert(x.contains(y[m]));
        let l = choose|l: int| 0 <= l < x.len() && x[l] == y[m];
        if k < m {
            sorted_at::<String>(y, k, m);
            if l < n {
                sorted_at::<String>(x, l, n);
                less_transitive(String::code(x[n]), String::code(y[m]), String::code(x[n]));
            }
            less_irreflexive(String::code(x[n]));
        }
        assert(y[m] == x[n]);
        let p = x.drop_last();
        let q = y.drop_last();
        sorted_drop_last::<String>(x);
        sorted_drop_last::<String>(y);
        less_irreflexive(String::code(x[n]));
        assert forall|u: Seq<char>| #[trigger] p.contains(u) <==> q.contains(u) by {
            if p.contains(u) {
                let i = choose|i: int| 0 <= i < p.len() && p[i] == u;
                assert(x[i] == u);
                assert(x.contains(u));
                sorted_at::<String>(x, i, n);
                let j = choose|j: int| 0 <= j < y.len() && y[j] == u;
                assert(j != m);
                assert(q[j] == u);
            }
            if q.contains(u) {
                let i = choose|i: int| 0 <= i < q.len() && q[i] == u;
                assert(y[i] == u);
                assert(x.contains(u));
                sorted_at::<String>(y, i, m);
                let j = choose|j: int| 0 <= j < x.len() && x[j] == u;
                assert(j != n);
                assert(p[j] == u);
            }
        }
        same_texts_in_order(p, q);
        assert(x =~= p.push(x[n]));
        assert(y =~= q.push(y[m]));
    }
}

} // verus!
