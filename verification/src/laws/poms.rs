//! Laws of how a POM is put together, and of what it hands on.
use vstd::prelude::*;
use crate::manifest::PomScope;
use crate::maven::assembly::{
    begin_spec, finish_spec, imported, imports_of, need_spec, supply_spec, AssemblyView, PropsView, StageView,
};
use crate::maven::loader::{
    classifier_or_implied, deps_given, fill_one, fill_versions, managed_versions_fill_gaps, patterns_given,
    unversioned, versioned, Deps, PomDependency, PomDependencyView, PomFault,
};
use crate::maven::pom::{
    at_most_one, exclusion_text, exclusions_field, pom_word, read_dependencies, read_dependency, read_exclusion,
    read_exclusions, read_items, read_parent, read_pom, required_field, scope_field, text_field, DependencyScope,
    ExclusionView, ParentView, PomDepView, PomView,
};
use crate::maven::template::templates_spec;
use crate::maven::xml::{get_spec, item, item_index, item_index_props, merge_spec, set_spec, Items, XmlView};
use crate::order::{
    assign, assign_keeps_order, lookup, put, put_keeps_order, sorted, text_code, text_code_parts, Pair, Ranked,
};
use crate::types::{
    coord_code_tells, pattern_round_trip, pattern_text, pattern_wf, ArtifactCoordinates, CoordView, ExclusionPattern,
    GlobVerdict, PatternView,
};

verus! {

/// The gaps for an artifact before a place: the dependencies on it that have no version.
pub open spec fn gaps(deps: Seq<PomDepView>, group: Seq<char>, artifact: Seq<char>, i: int) -> nat {
    deps.take(i).filter(|d: PomDepView| d.version is None && d.group == group && d.artifact == artifact).len()
}

/// The versions that are managed for an artifact, in order.
pub open spec fn offers(managed: Seq<PomDepView>, group: Seq<char>, artifact: Seq<char>) -> Seq<PomDepView> {
    managed.filter(|m: PomDepView| m.version is Some && m.group == group && m.artifact == artifact)
}

proof fn gaps_grow(deps: Seq<PomDepView>, group: Seq<char>, artifact: Seq<char>, i: int, j: int)
    requires
        0 <= i < j <= deps.len(),
    ensures
        gaps(deps, group, artifact, i) <= gaps(deps, group, artifact, j),
        deps[i].version is None && deps[i].group == group && deps[i].artifact == artifact ==> gaps(
            deps,
            group,
            artifact,
            i,
        ) < gaps(deps, group, artifact, j),
    decreases j,
{
    let s = deps.take(j);
    reveal(Seq::filter);
    assert(s.drop_last() =~= deps.take(j - 1));
    if i < j - 1 {
        gaps_grow(deps, group, artifact, i, j - 1);
    }
}

/// Where more gaps than `n` come before a place, one of them has `n` before it.
proof fn gap_of(deps: Seq<PomDepView>, group: Seq<char>, artifact: Seq<char>, j: int, n: nat) -> (i: int)
    requires
        0 <= j <= deps.len(),
        n < gaps(deps, group, artifact, j),
    ensures
        0 <= i < j,
        deps[i].version is None && deps[i].group == group && deps[i].artifact == artifact,
        gaps(deps, group, artifact, i) == n,
    decreases j,
{
    let s = deps.take(j);
    reveal(Seq::filter);
    if j == 0 {
        assert(s =~= Seq::empty());
        0
    } else {
        assert(s.drop_last() =~= deps.take(j - 1));
        if n < gaps(deps, group, artifact, j - 1) {
            gap_of(deps, group, artifact, j - 1, n)
        } else {
            j - 1
        }
    }
}

proof fn unversioned_is_first(deps: Seq<PomDepView>, group: Seq<char>, artifact: Seq<char>, from: int)
    requires
        0 <= from <= deps.len(),
    ensures
        ({
            let i = unversioned(deps, group, artifact, from);
            &&& from <= i <= deps.len()
            &&& i < deps.len() ==> deps[i].version is None && deps[i].group == group && deps[i].artifact == artifact
            &&& forall|k: int|
                from <= k < i ==> !((#[trigger] deps[k]).version is None && deps[k].group == group && deps[k].artifact
                    == artifact)
        }),
    decreases deps.len() - from,
{
    if from < deps.len() {
        unversioned_is_first(deps, group, artifact, from + 1);
    }
}

/// The gaps for an artifact are filled in turn: the first with the first version that is managed
/// for its group and its name, the second with the second, as far as there are any. Nothing else
/// changes.
pub proof fn gaps_are_filled_in_turn(deps: Seq<PomDepView>, managed: Seq<PomDepView>, i: int)
    requires
        0 <= i < deps.len(),
        deps[i].version is None,
    ensures
        fill_versions(deps, managed).len() == deps.len(),
        ({
            let n = gaps(deps, deps[i].group, deps[i].artifact, i);
            let versions = offers(managed, deps[i].group, deps[i].artifact);
            fill_versions(deps, managed)[i] == (PomDepView {
                version: if n < versions.len() { versions[n as int].version } else { None },
                ..deps[i]
            })
        }),
    decreases managed.len(),
{
    reveal(Seq::filter);
    let g = deps[i].group;
    let a = deps[i].artifact;
    managed_versions_fill_gaps(deps, managed, i);
    if managed.len() > 0 {
        let rest = managed.drop_last();
        let m = managed.last();
        let before = fill_versions(deps, rest);
        let n = gaps(deps, g, a, i);
        managed_versions_fill_gaps(deps, rest, i);
        gaps_are_filled_in_turn(deps, rest, i);
        let had = offers(rest, g, a);
        let j = unversioned(before, m.group, m.artifact, 0);
        unversioned_is_first(before, m.group, m.artifact, 0);
        assert(fill_versions(deps, managed) == fill_one(before, m));
        if m.group == g && m.artifact == a && m.version is Some {
            assert(offers(managed, g, a) == had.push(m));
            if n == had.len() {
                assert(before[i].version is None);
                assert(j <= i);
                if j < i {
                    managed_versions_fill_gaps(deps, rest, j);
                    gaps_are_filled_in_turn(deps, rest, j);
                    gaps_grow(deps, g, a, j, i);
                }
            } else if n > had.len() {
                let k = gap_of(deps, g, a, i, had.len());
                managed_versions_fill_gaps(deps, rest, k);
                gaps_are_filled_in_turn(deps, rest, k);
                assert(before[k].version is None);
                assert(j <= k);
            } else {
                assert(before[i].version == had[n as int].version);
                offers_have_versions(rest, g, a, n as int);
            }
        } else {
            assert(offers(managed, g, a) == had);
        }
    }
}

proof fn offers_have_versions(managed: Seq<PomDepView>, group: Seq<char>, artifact: Seq<char>, n: int) -> (k: int)
    requires
        0 <= n < offers(managed, group, artifact).len(),
    ensures
        0 <= k < managed.len(),
        offers(managed, group, artifact)[n] == managed[k],
        managed[k].version is Some && managed[k].group == group && managed[k].artifact == artifact,
    decreases managed.len(),
{
    reveal(Seq::filter);
    if managed.len() == 0 {
        0
    } else if n < offers(managed.drop_last(), group, artifact).len() {
        offers_have_versions(managed.drop_last(), group, artifact, n)
    } else {
        managed.len() - 1
    }
}

proof fn first_offer(managed: Seq<PomDepView>, group: Seq<char>, artifact: Seq<char>, k: int)
    requires
        0 <= k < managed.len(),
        managed[k].version is Some && managed[k].group == group && managed[k].artifact == artifact,
        forall|l: int|
            0 <= l < k ==> !((#[trigger] managed[l]).version is Some && managed[l].group == group
                && managed[l].artifact == artifact),
    ensures
        offers(managed, group, artifact).len() > 0,
        offers(managed, group, artifact)[0] == managed[k],
    decreases managed.len(),
{
    reveal(Seq::filter);
    let d = managed.drop_last();
    if k < d.len() {
        assert(d[k] == managed[k]);
        first_offer(d, group, artifact, k);
    } else {
        if offers(d, group, artifact).len() > 0 {
            let l = offers_have_versions(d, group, artifact, 0);
            assert(d[l] == managed[l]);
        }
    }
}

proof fn first_gap(deps: Seq<PomDepView>, group: Seq<char>, artifact: Seq<char>, i: int)
    requires
        0 <= i <= deps.len(),
        forall|j: int|
            0 <= j < i ==> !((#[trigger] deps[j]).version is None && deps[j].group == group && deps[j].artifact
                == artifact),
    ensures
        gaps(deps, group, artifact, i) == 0,
{
    if gaps(deps, group, artifact, i) > 0 {
        let j = gap_of(deps, group, artifact, i, 0);
        assert(deps[j].version is None);
    }
}

/// Where a managed version fills a gap, it is that of a managed entry with the same group and the
/// same name. The first dependency on an artifact that has no version gets the first version that
/// is managed for it, wherever either stands.
pub proof fn managed_version_is_of_the_same_artifact(deps: Seq<PomDepView>, managed: Seq<PomDepView>, i: int, k: int)
    requires
        0 <= i < deps.len(),
        deps[i].version is None,
    ensures
        fill_versions(deps, managed)[i].version is Some ==> exists|l: int|
            0 <= l < managed.len() && (#[trigger] managed[l]).group == deps[i].group && managed[l].artifact
                == deps[i].artifact && managed[l].version == fill_versions(deps, managed)[i].version,
        0 <= k < managed.len() && managed[k].version is Some && managed[k].group == deps[i].group && managed[k].artifact
            == deps[i].artifact && (forall|l: int|
            0 <= l < k ==> !((#[trigger] managed[l]).version is Some && managed[l].group == deps[i].group
                && managed[l].artifact == deps[i].artifact)) && (forall|j: int|
            0 <= j < i ==> !((#[trigger] deps[j]).version is None && deps[j].group == deps[i].group
                && deps[j].artifact == deps[i].artifact)) ==> fill_versions(deps, managed)[i].version
            == managed[k].version,
{
    let g = deps[i].group;
    let a = deps[i].artifact;
    gaps_are_filled_in_turn(deps, managed, i);
    let n = gaps(deps, g, a, i);
    if n < offers(managed, g, a).len() {
        let l = offers_have_versions(managed, g, a, n as int);
        assert(managed[l].group == g);
    }
    if 0 <= k < managed.len() && managed[k].version is Some && managed[k].group == g && managed[k].artifact == a && (
    forall|l: int|
        0 <= l < k ==> !((#[trigger] managed[l]).version is Some && managed[l].group == g && managed[l].artifact == a))
        && (forall|j: int|
        0 <= j < i ==> !((#[trigger] deps[j]).version is None && deps[j].group == g && deps[j].artifact == a)) {
        first_offer(managed, g, a, k);
        first_gap(deps, g, a, i);
    }
}

/// The same of a whole POM. One that manages nothing keeps its dependencies as they are.
pub proof fn pom_fills_its_gaps(pom: PomView, i: int)
    requires
        0 <= i < pom.dependencies.len(),
    ensures
        versioned(pom).len() == pom.dependencies.len(),
        pom.managed is None ==> versioned(pom) == pom.dependencies,
        pom.dependencies[i].version is Some ==> versioned(pom)[i] == pom.dependencies[i],
        pom.dependencies[i].version is None && pom.managed is Some ==> {
            let d = pom.dependencies[i];
            let n = gaps(pom.dependencies, d.group, d.artifact, i);
            let versions = offers(pom.managed->Some_0, d.group, d.artifact);
            versioned(pom)[i] == (PomDepView {
                version: if n < versions.len() { versions[n as int].version } else { None },
                ..d
            })
        },
{
    if let Some(m) = pom.managed {
        managed_versions_fill_gaps(pom.dependencies, m, i);
        if pom.dependencies[i].version is None {
            gaps_are_filled_in_turn(pom.dependencies, m, i);
        }
    }
}

/// The POMs that a POM imports are all the managed dependencies of scope `import`, in order:
/// there are as many as such entries, each with the group, the name and the version of its entry.
pub proof fn every_import_is_found(deps: Seq<PomDepView>)
    ensures
        imported(deps).len() == deps.filter(|d: PomDepView| d.scope == DependencyScope::Import).len(),
        imported(deps) == deps.filter(|d: PomDepView| d.scope == DependencyScope::Import).map_values(
            |d: PomDepView| ParentView { group: d.group, artifact: d.artifact, version: d.version },
        ),
        forall|i: int|
            0 <= i < deps.len() && (#[trigger] deps[i]).scope == DependencyScope::Import ==> imported(deps).contains(
                ParentView { group: deps[i].group, artifact: deps[i].artifact, version: deps[i].version },
            ),
    decreases deps.len(),
{
    reveal(Seq::filter);
    if deps.len() > 0 {
        let d = deps.drop_last();
        let x = deps.last();
        every_import_is_found(d);
        let p = ParentView { group: x.group, artifact: x.artifact, version: x.version };
        assert forall|i: int| 0 <= i < deps.len() && (#[trigger] deps[i]).scope
            == DependencyScope::Import implies imported(deps).contains(
            ParentView { group: deps[i].group, artifact: deps[i].artifact, version: deps[i].version },
        ) by {
            if i < d.len() {
                let q = ParentView { group: deps[i].group, artifact: deps[i].artifact, version: deps[i].version };
                assert(d[i] == deps[i]);
                assert(imported(d).contains(q));
                let k = choose|k: int| 0 <= k < imported(d).len() && imported(d)[k] == q;
                assert(imported(deps)[k] == q);
            } else {
                assert(imported(deps).last() == p);
                assert(imported(deps)[imported(deps).len() - 1] == p);
            }
        }
    }
    assert(imported(deps) =~= deps.filter(|d: PomDepView| d.scope == DependencyScope::Import).map_values(
        |d: PomDepView| ParentView { group: d.group, artifact: d.artifact, version: d.version },
    ));
}

/// An assembly after a number of POMs were supplied.
pub open spec fn supplied(a: AssemblyView, poms: Seq<XmlView>, system: PropsView) -> AssemblyView
    decreases poms.len(),
{
    if poms.len() == 0 {
        a
    } else {
        supply_spec(supplied(a, poms.drop_last(), system), poms.last(), system)
    }
}

/// What is imported is asked for one by one, in order, whatever is supplied: first the first, and
/// after as many as there are, nothing more.
pub proof fn imports_are_asked_for_in_order(
    a: AssemblyView,
    list: Seq<ParentView>,
    poms: Seq<XmlView>,
    system: PropsView,
)
    requires
        a.stage == StageView::Imports(list, 0),
        poms.len() <= list.len(),
    ensures
        supplied(a, poms, system).stage == StageView::Imports(list, poms.len() as int),
        poms.len() < list.len() ==> need_spec(supplied(a, poms, system)) == match list[poms.len() as int].version {
            Some(version) => Ok::<Option<CoordView>, PomFault<Seq<char>>>(
                Some(
                    CoordView {
                        group: list[poms.len() as int].group,
                        artifact: list[poms.len() as int].artifact,
                        version,
                    },
                ),
            ),
            None => Err(PomFault::ImportVersion),
        },
        poms.len() == list.len() ==> need_spec(supplied(a, poms, system)) == Ok::<
            Option<CoordView>,
            PomFault<Seq<char>>,
        >(None),
    decreases poms.len(),
{
    if poms.len() > 0 {
        imports_are_asked_for_in_order(a, list, poms.drop_last(), system);
    }
}

/// Whether a POM hands a dependency on: one that is not optional, of scope `compile` or `runtime`.
pub open spec fn goes_on(d: PomDepView) -> bool {
    !d.optional && (d.scope == DependencyScope::Compile || d.scope == DependencyScope::Runtime)
}

/// Whether a dependency can be handed on: it has a version, and its exclusions are patterns.
pub open spec fn can_go_on(d: PomDepView, vs: Seq<GlobVerdict>) -> bool {
    d.version is Some && patterns_given(d.exclusions, vs) is Ok
}

/// What a dependency is handed on as.
pub open spec fn goes_on_as(d: PomDepView, vs: Seq<GlobVerdict>, r: PomDependencyView) -> bool {
    &&& r.scope == if d.scope == DependencyScope::Compile { PomScope::Compile } else { PomScope::Runtime }
    &&& r.artifact_type == d.artifact_type
    &&& d.classifier is Some ==> r.classifier == d.classifier
    &&& d.classifier is None ==> r.classifier == if d.artifact_type == "test-jar"@ {
        Some("tests"@)
    } else if d.artifact_type == "ejb-client"@ {
        Some("client"@)
    } else if d.artifact_type == "java-source"@ {
        Some("sources"@)
    } else if d.artifact_type == "javadoc"@ {
        Some("javadoc"@)
    } else {
        None
    }
    &&& patterns_given(d.exclusions, vs) == Ok::<Seq<crate::types::PatternView>, crate::types::PatternError>(
        r.exclusions,
    )
}

/// The coordinates of a dependency that has a version.
pub open spec fn coordinates(d: PomDepView) -> CoordView {
    CoordView { group: d.group, artifact: d.artifact, version: d.version->Some_0 }
}

/// A POM can be used where each dependency that it hands on has a version and exclusions that
/// are patterns. The first that has not is what is wrong with it.
pub proof fn pom_is_usable_where_its_dependencies_are(c: Seq<PomDepView>, vss: Seq<Seq<GlobVerdict>>)
    requires
        vss.len() <= c.len(),
    ensures
        deps_given(c, vss) is Ok <==> forall|i: int|
            0 <= i < vss.len() && goes_on(#[trigger] c[i]) ==> can_go_on(c[i], vss[i]),
        forall|i: int|
            0 <= i < vss.len() && goes_on(#[trigger] c[i]) && !can_go_on(c[i], vss[i]) && (forall|j: int|
                0 <= j < i && goes_on(#[trigger] c[j]) ==> can_go_on(c[j], vss[j])) ==> match deps_given(c, vss) {
                Err(PomFault::MissingVersion(g, a)) => c[i].version is None && g == c[i].group && a == c[i].artifact,
                Err(PomFault::Exclusion(e)) => c[i].version is Some && patterns_given(c[i].exclusions, vss[i])
                    == Err::<Seq<crate::types::PatternView>, crate::types::PatternError>(e),
                _ => false,
            },
    decreases vss.len(),
{
    if vss.len() > 0 {
        let before = vss.drop_last();
        let n = vss.len() - 1;
        pom_is_usable_where_its_dependencies_are(c, before);
        assert(forall|i: int| 0 <= i < n ==> before[i] == vss[i]);
        if deps_given(c, before) is Ok {
            assert(forall|i: int| 0 <= i < n && goes_on(#[trigger] c[i]) ==> can_go_on(c[i], vss[i]));
            assert(c[n] == c[n]);
        } else {
            let i = choose|i: int|
                0 <= i < before.len() && goes_on(#[trigger] c[i]) && !can_go_on(c[i], before[i]);
            assert(!can_go_on(c[i], vss[i]));
        }
    }
}

/// A POM that can be used hands on each dependency that it is to hand on, under its coordinates:
/// of several with the same, the last counts. It hands on nothing else.
pub proof fn pom_hands_on_its_dependencies(c: Seq<PomDepView>, vss: Seq<Seq<GlobVerdict>>, i: int, k: CoordView)
    requires
        vss.len() <= c.len(),
        deps_given(c, vss) is Ok,
    ensures
        ({
            let r = deps_given(c, vss)->Ok_0;
            &&& sorted::<Pair<ArtifactCoordinates, PomDependency>>(r)
            &&& 0 <= i < vss.len() && goes_on(c[i]) && (forall|j: int|
                i < j < vss.len() && goes_on(#[trigger] c[j]) ==> coordinates(c[j]) != coordinates(c[i])) ==> {
                let found = lookup::<ArtifactCoordinates, PomDependency>(r, coordinates(c[i]));
                found is Some && goes_on_as(c[i], vss[i], found->Some_0)
            }
            &&& lookup::<ArtifactCoordinates, PomDependency>(r, k) is Some ==> exists|j: int|
                0 <= j < vss.len() && goes_on(#[trigger] c[j]) && coordinates(c[j]) == k
        }),
    decreases vss.len(),
{
    if vss.len() > 0 {
        let before = vss.drop_last();
        let n = vss.len() - 1;
        let d = c[n];
        assert(deps_given(c, before) is Ok);
        pom_hands_on_its_dependencies(c, before, i, k);
        assert(forall|j: int| 0 <= j < n ==> before[j] == vss[j]);
        let acc = deps_given(c, before)->Ok_0;
        if goes_on(d) {
            let x = coordinates(d);
            let v = choose|v: PomDependencyView|
                deps_given(c, vss) == Ok::<Deps, PomFault<Seq<char>>>(
                    #[trigger] assign::<ArtifactCoordinates, PomDependency>(acc, x, v),
                ) && goes_on_as(d, vss[n], v);
            dependency_goes_on(c, vss);
            assign_keeps_order::<ArtifactCoordinates, PomDependency>(acc, x, v);
            if i < n && 0 <= i && goes_on(c[i]) {
                if coordinates(c[i]) != x {
                    coord_code_tells(coordinates(c[i]), x);
                }
            }
            if k != x {
                coord_code_tells(k, x);
            } else {
                assert(goes_on(c[n]) && coordinates(c[n]) == k);
            }
        }
    } else {
        assert(deps_given(c, vss)->Ok_0 == Seq::<(CoordView, PomDependencyView)>::empty());
    }
}

proof fn dependency_goes_on(c: Seq<PomDepView>, vss: Seq<Seq<GlobVerdict>>)
    requires
        0 < vss.len() <= c.len(),
        deps_given(c, vss) is Ok,
        goes_on(c[vss.len() - 1]),
    ensures
        ({
            let d = c[vss.len() - 1];
            let acc = deps_given(c, vss.drop_last())->Ok_0;
            exists|v: PomDependencyView|
                deps_given(c, vss) == Ok::<Deps, PomFault<Seq<char>>>(
                    #[trigger] assign::<ArtifactCoordinates, PomDependency>(acc, coordinates(d), v),
                ) && goes_on_as(d, vss.last(), v)
        }),
{
    let d = c[vss.len() - 1];
    let acc = deps_given(c, vss.drop_last())->Ok_0;
    let v = PomDependencyView {
        scope: if d.scope == DependencyScope::Compile { PomScope::Compile } else { PomScope::Runtime },
        artifact_type: d.artifact_type,
        classifier: classifier_or_implied(d.classifier, d.artifact_type),
        exclusions: patterns_given(d.exclusions, vss.last())->Ok_0,
    };
    assert(deps_given(c, vss) == Ok::<Deps, PomFault<Seq<char>>>(
        assign::<ArtifactCoordinates, PomDependency>(acc, coordinates(d), v),
    ));
    assert(goes_on_as(d, vss.last(), v));
}

/// Whether a node says something under a name, once, or does not say it at all.
pub open spec fn says_once(c: Items, name: Seq<char>, t: Option<Seq<char>>) -> bool {
    match t {
        None => forall|j: int| 0 <= j < c.len() ==> (#[trigger] c[j]).0 != name,
        Some(s) => has_once(c, name, XmlView::Text(s)),
    }
}

/// Whether a node has a child of a name, once.
pub open spec fn has_once(c: Items, name: Seq<char>, x: XmlView) -> bool {
    exists|i: int|
        0 <= i < c.len() && #[trigger] c[i] == (name, x) && forall|j: int|
            0 <= j < c.len() && j != i ==> (#[trigger] c[j]).0 != name
}

proof fn child_is_the_only_one(c: Items, name: Seq<char>, x: XmlView)
    ensures
        at_most_one(c, name) && item(c, name) == Some(x) <==> has_once(c, name, x),
        item(c, name) is None <==> forall|j: int| 0 <= j < c.len() ==> (#[trigger] c[j]).0 != name,
        (forall|j: int| 0 <= j < c.len() ==> (#[trigger] c[j]).0 != name) ==> at_most_one(c, name),
{
    item_index_props(c, name, 0);
    let k = item_index(c, name, 0);
    if at_most_one(c, name) && item(c, name) == Some(x) {
        assert(c[k] == (name, x));
        assert forall|j: int| 0 <= j < c.len() && j != k implies (#[trigger] c[j]).0 != name by {
            if j < k {
                assert(c[j].0 != name);
            } else {
                assert(!(c[k].0 == name && c[j].0 == name));
            }
        }
    }
    if has_once(c, name, x) {
        let i = choose|i: int|
            0 <= i < c.len() && #[trigger] c[i] == (name, x) && forall|j: int|
                0 <= j < c.len() && j != i ==> (#[trigger] c[j]).0 != name;
        assert(k <= i);
        if k < i {
            assert(c[k].0 != name);
        }
        assert forall|p: int, q: int| 0 <= p < q < c.len() implies !((#[trigger] c[p]).0 == name && (
        #[trigger] c[q]).0 == name) by {}
    }
    if k < c.len() {
        assert(c[k].0 == name);
    }
}

proof fn field_is_what_is_said(c: Items, name: Seq<char>, t: Option<Seq<char>>)
    ensures
        text_field(c, name) == Some(t) <==> says_once(c, name, t),
        required_field(c, name) == t && t is Some <==> says_once(c, name, t) && t is Some,
{
    let i = item(c, name);
    match t {
        Some(s) => {
            child_is_the_only_one(c, name, XmlView::Text(s));
        },
        None => {
            child_is_the_only_one(c, name, XmlView::Text(Seq::empty()));
        },
    }
}

/// The scope that a word names, where it names one.
pub open spec fn named_scope(word: Seq<char>, scope: DependencyScope) -> bool {
    match scope {
        DependencyScope::Compile => word == "compile"@,
        DependencyScope::Provided => word == "provided"@,
        DependencyScope::Runtime => word == "runtime"@,
        DependencyScope::Test => word == "test"@,
        DependencyScope::System => word == "system"@,
        DependencyScope::Import => word == "import"@,
    }
}

proof fn word_names_one_scope(word: Seq<char>, scope: DependencyScope)
    ensures
        pom_word(word) == Some(scope) <==> named_scope(word, scope),
{
    reveal_strlit("compile");
    reveal_strlit("provided");
    reveal_strlit("runtime");
    reveal_strlit("test");
    reveal_strlit("system");
    reveal_strlit("import");
    assert("compile"@[0] != "runtime"@[0]);
    assert("system"@[0] != "import"@[0]);
    assert("compile"@.len() == 7 && "runtime"@.len() == 7 && "provided"@.len() == 8 && "test"@.len() == 4);
    assert("system"@.len() == 6 && "import"@.len() == 6);
}

/// Whether a node says what an exclusion is.
pub open spec fn is_exclusion(x: XmlView, e: ExclusionView) -> bool {
    &&& x is Children
    &&& says_once(x->Children_0, "groupId"@, Some(e.group))
    &&& says_once(x->Children_0, "artifactId"@, Some(e.artifact))
}

/// Whether a node says what the parent of a POM is.
pub open spec fn is_parent(x: XmlView, p: ParentView) -> bool {
    &&& x is Children
    &&& says_once(x->Children_0, "groupId"@, Some(p.group))
    &&& says_once(x->Children_0, "artifactId"@, Some(p.artifact))
    &&& says_once(x->Children_0, "version"@, p.version)
}

/// Whether a node says what the exclusions of a dependency are: none, or those that the children
/// of its only such child are, in order.
pub open spec fn has_exclusions(c: Items, s: Seq<ExclusionView>) -> bool {
    ||| s.len() == 0 && forall|j: int| 0 <= j < c.len() ==> (#[trigger] c[j]).0 != "exclusions"@
    ||| exists|d: Items| #[trigger]
        has_once(c, "exclusions"@, XmlView::Children(d)) && d.len() == s.len() && forall|i: int|
            0 <= i < d.len() ==> is_exclusion((#[trigger] d[i]).1, s[i])
}

/// Whether a node says what a dependency is. The scope is `compile` and the type `jar` unless it
/// says otherwise.
pub open spec fn is_dependency(x: XmlView, d: PomDepView) -> bool {
    &&& x is Children
    &&& says_once(x->Children_0, "groupId"@, Some(d.group))
    &&& says_once(x->Children_0, "artifactId"@, Some(d.artifact))
    &&& says_once(x->Children_0, "version"@, d.version)
    &&& says_once(x->Children_0, "classifier"@, d.classifier)
    &&& says_once(x->Children_0, "type"@, Some(d.artifact_type)) || (says_once(x->Children_0, "type"@, None)
        && d.artifact_type == "jar"@)
    &&& (exists|w: Seq<char>| #[trigger] says_once(x->Children_0, "scope"@, Some(w)) && named_scope(w, d.scope)) || (
    says_once(x->Children_0, "scope"@, None) && d.scope == DependencyScope::Compile)
    &&& says_once(x->Children_0, "optional"@, None)
    &&& !d.optional
    &&& has_exclusions(x->Children_0, d.exclusions)
}

/// An exclusion, and a parent, is read from a node that says what it is, and only from such a one.
pub proof fn exclusion_and_parent_are_what_the_node_says(x: XmlView, e: ExclusionView, p: ParentView)
    ensures
        read_exclusion(x) == Some(e) <==> is_exclusion(x, e),
        read_parent(x) == Some(p) <==> is_parent(x, p),
{
    if let XmlView::Children(c) = x {
        field_is_what_is_said(c, "groupId"@, Some(e.group));
        field_is_what_is_said(c, "artifactId"@, Some(e.artifact));
        field_is_what_is_said(c, "groupId"@, Some(p.group));
        field_is_what_is_said(c, "artifactId"@, Some(p.artifact));
        field_is_what_is_said(c, "version"@, p.version);
    }
}

proof fn exclusions_are_read_one_by_one(d: Items, s: Seq<ExclusionView>)
    ensures
        read_exclusions(d) == Some(s) <==> d.len() == s.len() && forall|i: int|
            0 <= i < d.len() ==> is_exclusion((#[trigger] d[i]).1, s[i]),
    decreases d.len(),
{
    if d.len() == 0 {
        if s.len() == 0 {
            assert(s =~= Seq::empty());
        }
    } else {
        let n = d.len() - 1;
        let e = d.drop_last();
        let none = ParentView { group: Seq::empty(), artifact: Seq::empty(), version: None };
        if d.len() == s.len() {
            let t = s.drop_last();
            exclusions_are_read_one_by_one(e, t);
            exclusion_and_parent_are_what_the_node_says(d[n].1, s[n], none);
            assert(s =~= t.push(s[n]));
            if forall|i: int| 0 <= i < d.len() ==> is_exclusion((#[trigger] d[i]).1, s[i]) {
                assert forall|i: int| 0 <= i < e.len() implies is_exclusion((#[trigger] e[i]).1, t[i]) by {
                    assert(e[i] == d[i]);
                }
                assert(d[n] == d.last());
            }
            if read_exclusions(d) == Some(s) {
                let u = read_exclusions(e)->Some_0;
                let v = read_exclusion(d.last().1)->Some_0;
                assert(s == u.push(v));
                assert(u =~= t);
                assert(v == s[n]);
                assert forall|i: int| 0 <= i < d.len() implies is_exclusion((#[trigger] d[i]).1, s[i]) by {
                    if i < n {
                        assert(e[i] == d[i]);
                    }
                }
            }
        } else if read_exclusions(d) == Some(s) {
            let u = read_exclusions(e)->Some_0;
            exclusions_are_read_one_by_one(e, u);
        }
    }
}

proof fn exclusions_are_what_is_said(c: Items, s: Seq<ExclusionView>)
    ensures
        exclusions_field(c) == Some(s) <==> has_exclusions(c, s),
{
    let name = "exclusions"@;
    child_is_the_only_one(c, name, XmlView::Text(Seq::empty()));
    if exclusions_field(c) == Some(s) {
        if let Some(XmlView::Children(d)) = item(c, name) {
            child_is_the_only_one(c, name, XmlView::Children(d));
            exclusions_are_read_one_by_one(d, s);
            assert(has_once(c, name, XmlView::Children(d)));
        }
    }
    if has_exclusions(c, s) {
        if s.len() == 0 && forall|j: int| 0 <= j < c.len() ==> (#[trigger] c[j]).0 != name {
            assert(s =~= Seq::empty());
        } else {
            let d = choose|d: Items| #[trigger]
                has_once(c, name, XmlView::Children(d)) && d.len() == s.len() && forall|i: int|
                    0 <= i < d.len() ==> is_exclusion((#[trigger] d[i]).1, s[i]);
            child_is_the_only_one(c, name, XmlView::Children(d));
            exclusions_are_read_one_by_one(d, s);
        }
    }
}

proof fn scope_is_what_is_said(c: Items, scope: DependencyScope)
    ensures
        scope_field(c) == Some(scope) <==> (exists|w: Seq<char>| #[trigger]
            says_once(c, "scope"@, Some(w)) && named_scope(w, scope)) || (says_once(c, "scope"@, None) && scope
            == DependencyScope::Compile),
{
    field_is_what_is_said(c, "scope"@, None);
    if scope_field(c) == Some(scope) {
        if let Some(Some(w)) = text_field(c, "scope"@) {
            field_is_what_is_said(c, "scope"@, Some(w));
            word_names_one_scope(w, scope);
            assert(says_once(c, "scope"@, Some(w)) && named_scope(w, scope));
        }
    }
    if exists|w: Seq<char>| #[trigger] says_once(c, "scope"@, Some(w)) && named_scope(w, scope) {
        let w = choose|w: Seq<char>| #[trigger] says_once(c, "scope"@, Some(w)) && named_scope(w, scope);
        field_is_what_is_said(c, "scope"@, Some(w));
        word_names_one_scope(w, scope);
    }
}

/// A dependency is read from a node that says what it is, and only from such a one.
pub proof fn dependency_is_what_the_node_says(x: XmlView, d: PomDepView)
    ensures
        read_dependency(x) == Some(d) <==> is_dependency(x, d),
{
    if let XmlView::Children(c) = x {
        field_is_what_is_said(c, "groupId"@, Some(d.group));
        field_is_what_is_said(c, "artifactId"@, Some(d.artifact));
        field_is_what_is_said(c, "version"@, d.version);
        field_is_what_is_said(c, "classifier"@, d.classifier);
        field_is_what_is_said(c, "type"@, Some(d.artifact_type));
        field_is_what_is_said(c, "type"@, None);
        child_is_the_only_one(c, "optional"@, x);
        scope_is_what_is_said(c, d.scope);
        exclusions_are_what_is_said(c, d.exclusions);
    }
}

/// The dependencies that a node lists are those that its children are, all of them and in order.
/// Where one is no dependency, none is read.
pub proof fn dependencies_are_read_one_by_one(c: Items, s: Seq<PomDepView>)
    ensures
        read_dependencies(XmlView::Children(c)) == Some(s) <==> c.len() == s.len() && forall|i: int|
            0 <= i < c.len() ==> is_dependency((#[trigger] c[i]).1, s[i]),
    decreases c.len(),
{
    if c.len() == 0 {
        if s.len() == 0 {
            assert(s =~= Seq::empty());
        }
    } else {
        let n = c.len() - 1;
        let e = c.drop_last();
        if c.len() == s.len() {
            let t = s.drop_last();
            dependencies_are_read_one_by_one(e, t);
            dependency_is_what_the_node_says(c[n].1, s[n]);
            assert(s =~= t.push(s[n]));
            if forall|i: int| 0 <= i < c.len() ==> is_dependency((#[trigger] c[i]).1, s[i]) {
                assert forall|i: int| 0 <= i < e.len() implies is_dependency((#[trigger] e[i]).1, t[i]) by {
                    assert(e[i] == c[i]);
                }
                assert(c[n] == c.last());
            }
            if read_items(c) == Some(s) {
                let u = read_items(e)->Some_0;
                let v = read_dependency(c.last().1)->Some_0;
                assert(s == u.push(v));
                assert(u =~= t);
                assert(v == s[n]);
                assert forall|i: int| 0 <= i < c.len() implies is_dependency((#[trigger] c[i]).1, s[i]) by {
                    if i < n {
                        assert(e[i] == c[i]);
                    }
                }
            }
        } else if read_items(c) == Some(s) {
            let u = read_items(e)->Some_0;
            dependencies_are_read_one_by_one(e, u);
        }
    }
}

/// Whether a node lists dependencies: it has one such child, whose children they are.
pub open spec fn lists(c: Items, s: Seq<PomDepView>) -> bool {
    exists|d: Items| #[trigger]
        has_once(c, "dependencies"@, XmlView::Children(d)) && d.len() == s.len() && forall|i: int|
            0 <= i < d.len() ==> is_dependency((#[trigger] d[i]).1, s[i])
}

proof fn listed_dependencies_are_read(c: Items, s: Seq<PomDepView>)
    ensures
        at_most_one(c, "dependencies"@) && item(c, "dependencies"@) is Some && read_dependencies(
            item(c, "dependencies"@)->Some_0,
        ) == Some(s) <==> lists(c, s),
{
    let name = "dependencies"@;
    if at_most_one(c, name) && item(c, name) is Some && read_dependencies(item(c, name)->Some_0) == Some(s) {
        let d = item(c, name)->Some_0->Children_0;
        child_is_the_only_one(c, name, XmlView::Children(d));
        dependencies_are_read_one_by_one(d, s);
        assert(has_once(c, name, XmlView::Children(d)));
    }
    if lists(c, s) {
        let d = choose|d: Items| #[trigger]
            has_once(c, name, XmlView::Children(d)) && d.len() == s.len() && forall|i: int|
                0 <= i < d.len() ==> is_dependency((#[trigger] d[i]).1, s[i]);
        child_is_the_only_one(c, name, XmlView::Children(d));
        dependencies_are_read_one_by_one(d, s);
    }
}

/// Whether a node says what a POM depends on, and what it manages.
pub open spec fn is_pom(c: Items, p: PomView) -> bool {
    &&& lists(c, p.dependencies) || (p.dependencies.len() == 0 && forall|j: int|
        0 <= j < c.len() ==> (#[trigger] c[j]).0 != "dependencies"@)
    &&& match p.managed {
        Some(m) => exists|d: Items| #[trigger] has_once(c, "dependencyManagement"@, XmlView::Children(d)) && lists(d, m),
        None => forall|j: int| 0 <= j < c.len() ==> (#[trigger] c[j]).0 != "dependencyManagement"@,
    }
}

/// A POM is read from a node that says what it depends on and what it manages, and only from such
/// a one.
pub proof fn pom_is_what_the_node_says(c: Items, p: PomView)
    ensures
        read_pom(XmlView::Children(c)) == Some(p) <==> is_pom(c, p),
{
    let managed = "dependencyManagement"@;
    listed_dependencies_are_read(c, p.dependencies);
    child_is_the_only_one(c, "dependencies"@, XmlView::Text(Seq::empty()));
    child_is_the_only_one(c, managed, XmlView::Text(Seq::empty()));
    if p.dependencies.len() == 0 {
        assert(p.dependencies =~= Seq::empty());
    }
    if let Some(m) = p.managed {
        if read_pom(XmlView::Children(c)) == Some(p) {
            let d = item(c, managed)->Some_0->Children_0;
            child_is_the_only_one(c, managed, XmlView::Children(d));
            listed_dependencies_are_read(d, m);
            assert(has_once(c, managed, XmlView::Children(d)) && lists(d, m));
        }
        if is_pom(c, p) {
            let d = choose|d: Items| #[trigger] has_once(c, managed, XmlView::Children(d)) && lists(d, m);
            child_is_the_only_one(c, managed, XmlView::Children(d));
            listed_dependencies_are_read(d, m);
        }
    }
}

/// What a POM imports is what the first list of managed dependencies on the way
/// `dependencyManagement/dependencies` holds of scope `import`, where the list can be read.
pub proof fn imports_are_in_the_managed_list(x: XmlView, c: Items, s: Seq<PomDepView>)
    requires
        get_spec(x, "dependencyManagement/dependencies"@) == Some(XmlView::Children(c)),
        c.len() == s.len(),
        forall|i: int| 0 <= i < c.len() ==> is_dependency((#[trigger] c[i]).1, s[i]),
    ensures
        imports_of(x) == s.filter(|d: PomDepView| d.scope == DependencyScope::Import).map_values(
            |d: PomDepView| ParentView { group: d.group, artifact: d.artifact, version: d.version },
        ),
{
    dependencies_are_read_one_by_one(c, s);
    every_import_is_found(s);
}

/// A POM that names a parent asks for that first, under its coordinates, and then for what the two
/// together import. A POM that names none asks for what it imports itself. Where there is no
/// managed list, that is nothing.
pub proof fn parent_is_asked_for_first(x: XmlView, p: ParentView, node: XmlView, parent: XmlView, system: PropsView)
    ensures
        ({
            let own = templates_spec(x, Map::empty(), system);
            let both = templates_spec(merge_spec(own, parent), Map::empty(), system);
            let a = begin_spec(x, system);
            &&& get_spec(own, "parent"@) == Some(node) && is_parent(node, p) ==> {
                &&& a.xml == own
                &&& need_spec(a) == match p.version {
                    Some(version) => Ok::<Option<CoordView>, PomFault<Seq<char>>>(
                        Some(CoordView { group: p.group, artifact: p.artifact, version }),
                    ),
                    None => Err(PomFault::ParentVersion),
                }
                &&& supply_spec(a, parent, system) == (AssemblyView {
                    xml: both,
                    stage: StageView::Imports(imports_of(both), 0),
                })
            }
            &&& get_spec(own, "parent"@) is None ==> a == (AssemblyView {
                xml: own,
                stage: StageView::Imports(imports_of(own), 0),
            })
            &&& get_spec(own, "dependencyManagement/dependencies"@) is None ==> imports_of(own).len() == 0
        }),
{
    let none = ExclusionView { group: Seq::empty(), artifact: Seq::empty() };
    exclusion_and_parent_are_what_the_node_says(node, none, p);
}

/// What is imported adds what it manages to what the POM manages, where both manage anything: what
/// the POM says itself comes first. All else stays.
pub proof fn import_adds_what_it_manages(
    a: AssemblyView,
    import: XmlView,
    system: PropsView,
    own: XmlView,
    theirs: XmlView,
)
    requires
        a.stage is Imports,
    ensures
        get_spec(a.xml, "dependencyManagement/dependencies"@) == Some(own) && get_spec(
            import,
            "dependencyManagement/dependencies"@,
        ) == Some(theirs) ==> supply_spec(a, import, system).xml == templates_spec(
            set_spec(a.xml, "dependencyManagement/dependencies"@, merge_spec(own, theirs)),
            Map::empty(),
            system,
        ),
        get_spec(a.xml, "dependencyManagement/dependencies"@) is None || get_spec(
            import,
            "dependencyManagement/dependencies"@,
        ) is None ==> supply_spec(a, import, system).xml == a.xml,
        finish_spec(a, import, system) == templates_spec(merge_spec(a.xml, import), Map::empty(), system),
{
}

/// The exclusions of a dependency are patterns where all their globs are accepted, and then they
/// are all there: each group and name as a pattern, and nothing else.
pub proof fn exclusions_become_patterns(c: Seq<ExclusionView>, vs: Seq<GlobVerdict>, p: PatternView)
    requires
        vs.len() == c.len(),
        forall|i: int|
            0 <= i < c.len() ==> !(#[trigger] c[i]).group.contains(':') && !c[i].group.contains('/'),
    ensures
        patterns_given(c, vs) is Ok <==> forall|i: int| 0 <= i < vs.len() ==> #[trigger] vs[i] == (true, true),
        patterns_given(c, vs) matches Ok(s) ==> {
            &&& sorted::<ExclusionPattern>(s)
            &&& s.contains(p) <==> exists|i: int|
                0 <= i < c.len() && (#[trigger] c[i]).group == p.group && c[i].artifact == p.artifact
        },
{
    exclusions_become_patterns_so_far(c, vs, p);
}

proof fn exclusions_become_patterns_so_far(c: Seq<ExclusionView>, vs: Seq<GlobVerdict>, p: PatternView)
    requires
        vs.len() <= c.len(),
        forall|i: int|
            0 <= i < c.len() ==> !(#[trigger] c[i]).group.contains(':') && !c[i].group.contains('/'),
    ensures
        patterns_given(c, vs) is Ok <==> forall|i: int| 0 <= i < vs.len() ==> #[trigger] vs[i] == (true, true),
        patterns_given(c, vs) matches Ok(s) ==> {
            &&& sorted::<ExclusionPattern>(s)
            &&& s.contains(p) <==> exists|i: int|
                0 <= i < vs.len() && (#[trigger] c[i]).group == p.group && c[i].artifact == p.artifact
            &&& forall|q: PatternView| #[trigger] s.contains(q) ==> pattern_wf(q)
        },
    decreases vs.len(),
{
    if vs.len() > 0 {
        let n = vs.len() - 1;
        let before = vs.drop_last();
        let x = PatternView { group: c[n].group, artifact: c[n].artifact };
        exclusions_become_patterns_so_far(c, before, p);
        exclusions_become_patterns_so_far(c, before, x);
        assert(vs[n] == vs.last());
        assert(forall|i: int| 0 <= i < n ==> #[trigger] before[i] == vs[i]);
        assert(pattern_wf(x));
        pattern_round_trip(x);
        assert(exclusion_text(c[n]) == pattern_text(x));
        if patterns_given(c, before) is Ok {
            let q = patterns_given(c, before)->Ok_0;
            if vs.last() == (true, true) {
                assert forall|i: int| 0 <= i < vs.len() implies #[trigger] vs[i] == (true, true) by {
                    if i < n {
                        assert(before[i] == (true, true));
                    }
                }
                let s = patterns_given(c, vs)->Ok_0;
                put_keeps_order::<ExclusionPattern>(q, x);
                assert(s == put::<ExclusionPattern>(q, x));
                let k = choose|k: int|
                    0 <= k < s.len() && ExclusionPattern::code(#[trigger] s[k]) == ExclusionPattern::code(x);
                assert(s.contains(s[k]));
                if s[k] != x {
                    assert(q.contains(s[k]));
                    pattern_code_is_its_own(s[k], x);
                }
                assert(s.contains(x));
                if s.contains(p) && p != x {
                    assert(q.contains(p));
                }
                if p == x {
                    assert(c[n].group == p.group && c[n].artifact == p.artifact);
                }
                if q.contains(p) {
                    assert(s.contains(p));
                }
            } else {
                assert(vs[n] != (true, true));
            }
        } else {
            let i = choose|i: int| 0 <= i < before.len() && #[trigger] before[i] != (true, true);
            assert(vs[i] != (true, true));
        }
    }
}

proof fn pattern_code_is_its_own(p: PatternView, q: PatternView)
    requires
        pattern_wf(p),
        pattern_wf(q),
        ExclusionPattern::code(p) == ExclusionPattern::code(q),
    ensures
        p == q,
{
    let e = Seq::<u64>::empty();
    let a = pattern_text(p);
    let b = pattern_text(q);
    assert(text_code(a) + e =~= text_code(a));
    assert(text_code(b) + e =~= text_code(b));
    text_code_parts(a, b, e, e);
    pattern_round_trip(p);
    pattern_round_trip(q);
}

} // verus!
