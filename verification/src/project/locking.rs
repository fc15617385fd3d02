//! What is downloaded, and what is written down of it.
use vstd::prelude::*;
use crate::manifest::lock::{
    deps_code, numbers_code, patterns_code, Checksum, LocalArtifact, LocalView, Lock, LockArtifact,
    LockArtifactView, LockView,
};
use crate::manifest::{
    dep_coord, scope_rank, DepView, Dependency, DependencySource, PomScope, Scope, SourceView,
};
use crate::maven::loader::{
    from_locked_ranked, lock_serves, locked_deps, locked_deps_are_kept, resolved_key, ticket_spec, url_set,
    BranchView, Deps, Load, LoadView, LoaderBranch, PomDependency, PomDependencyView, RankView, Resolved,
    ResolvedDependencies, ResolvedView,
};
use crate::maven::{sha256_of, Asset};
use crate::order::{
    assign, bytes_code, opt_text_code, put, put_all, sorted, text_code, text_code_parts, views, Duplicate,
    OrdMap, OrdSet, Pair, Ranked,
};
use crate::paths::{join_path, join_path_spec, Path};
use crate::project::scopes::{compute_effective_scopes, scope_in, scopes_of};
use crate::text::{copy_opt, opt_text, push_text, same, same_opt, texts};
use crate::types::{extension_spec, ArtifactCoordinates, ArtifactType, CoordView, ExclusionPattern, PatternView};

verus! {

/// The name of the file of an artifact among the libraries of a project.
pub open spec fn library_name(c: CoordView, classifier: Option<Seq<char>>, artifact_type: Seq<char>) -> Seq<char> {
    let stem = c.group + seq!['-'] + c.artifact + seq!['-'] + c.version;
    let full = match classifier {
        Some(x) => stem + seq!['-'] + x,
        None => stem,
    };
    full + seq!['.'] + extension_spec(artifact_type)
}

/// The name of the file of an artifact among the libraries of a project.
pub fn library_file(coord: &ArtifactCoordinates, classifier: &Option<String>, artifact_type: &ArtifactType) -> (r:
    String)
    ensures
        r@ == library_name(coord@, opt_text(*classifier), artifact_type@),
{
    let mut s = coord.group_id().as_str().to_owned();
    s.push('-');
    push_text(&mut s, coord.artifact_id().as_str());
    s.push('-');
    push_text(&mut s, coord.version().as_str());
    if let Some(c) = classifier {
        s.push('-');
        push_text(&mut s, c.as_str());
    }
    s.push('.');
    push_text(&mut s, artifact_type.extension());
    assert(s@ =~= library_name(coord@, opt_text(*classifier), artifact_type@));
    s
}

/// Whether a file among the libraries belongs to an artifact of the lock.
pub open spec fn is_locked(artifacts: Seq<LockArtifactView>, name: Seq<char>) -> bool {
    exists|i: int| 0 <= i < artifacts.len() && library_name(
        (#[trigger] artifacts[i]).coord,
        artifacts[i].classifier,
        artifacts[i].artifact_type,
    ) == name
}

/// Whether a file among the libraries is to be purged: no artifact of the lock has it.
pub fn is_stale(lock: Option<&Lock>, name: &str) -> (r: bool)
    ensures
        r == match lock {
            Some(l) => !is_locked(l@.artifacts, name@),
            None => true,
        },
{
    let l = match lock {
        None => {
            return true;
        },
        Some(l) => l,
    };
    let mut i: usize = 0;
    while i < l.artifacts.len()
        invariant
            i <= l.artifacts@.len(),
            lock == Some(l),
            forall|k: int|
                0 <= k < i ==> library_name(
                    (#[trigger] l.artifacts@[k]).coord,
                    l.artifacts@[k].classifier,
                    l.artifacts@[k].artifact_type,
                ) != name@,
        decreases l.artifacts@.len() - i,
    {
        let a = l.artifacts.at(i);
        if same(library_file(&a.coord, &a.classifier, &a.artifact_type).as_str(), name) {
            assert(is_locked(l@.artifacts, name@));
            return false;
        }
        i = i + 1;
    }
    true
}

/// What is loaded for the dependencies of a manifest that come from a repository. The place
/// of a dependency counts all of them.
pub open spec fn direct_loads_spec(deps: Seq<DepView>) -> Seq<LoadView>
    decreases deps.len(),
{
    if deps.len() == 0 {
        Seq::empty()
    } else {
        let d = deps.last();
        match dep_coord(d) {
            None => direct_loads_spec(deps.drop_last()),
            Some(coord) => direct_loads_spec(deps.drop_last()).push(
                LoadView {
                    coord,
                    artifact_type: d.artifact_type,
                    classifier: d.classifier,
                    branch: BranchView {
                        depth: 0,
                        effective_scope: d.scope,
                        exclusions: d.exclusions,
                        position: seq![(deps.len() - 1) as usize],
                    },
                },
            ),
        }
    }
}

/// What is loaded for the dependencies of a manifest.
pub fn direct_loads(deps: &Vec<Dependency>) -> (r: Vec<Load>)
    ensures
        views(r@) == direct_loads_spec(views(deps@)),
{
    let ghost dv = views(deps@);
    let mut out: Vec<Load> = Vec::new();
    let mut i: usize = 0;
    assert(dv.take(0) =~= Seq::empty());
    assert(views(out@) =~= Seq::empty());
    while i < deps.len()
        invariant
            i <= deps@.len(),
            dv == views(deps@),
            views(out@) == direct_loads_spec(dv.take(i as int)),
        decreases deps@.len() - i,
    {
        let d = &deps[i];
        assert(dv[i as int] == d@);
        assert(dv.take(i + 1).drop_last() =~= dv.take(i as int));
        if let Some(coord) = d.coord() {
            let ghost before = out@;
            out.push(
                Load {
                    coord: coord.clone(),
                    artifact_type: d.artifact_type.clone(),
                    classifier: copy_opt(&d.classifier),
                    branch: LoaderBranch::new(d.exclusions.duplicate(), i, d.scope),
                },
            );
            assert(views(out@) =~= views(before).push(out@.last()@));
        }
        i = i + 1;
    }
    assert(dv.take(i as int) =~= dv);
    out
}

/// Whether a load is passed over for one of the same key that comes before it.
pub open spec fn passed_over(loads: Seq<LoadView>, i: int) -> bool {
    exists|j: int| 0 <= j < i && ticket_spec(#[trigger] loads[j]).key == ticket_spec(loads[i]).key
}

/// Whether a locked artifact is what a dependency of the manifest came to. The lock keeps the
/// extension of a type only.
pub open spec fn comes_from(a: LockArtifactView, l: LoadView) -> bool {
    &&& a.coord == l.coord
    &&& a.classifier == ticket_spec(l).classifier
    &&& extension_spec(a.artifact_type) == extension_spec(l.artifact_type)
    &&& a.depth == 0
    &&& a.position == l.branch.position
    &&& a.exclusions == l.branch.exclusions
}

/// Whether a locked artifact is what some dependency of the manifest came to.
pub open spec fn is_declared(a: LockArtifactView, loads: Seq<LoadView>) -> bool {
    exists|i: int| 0 <= i < loads.len() && !passed_over(loads, i) && comes_from(a, #[trigger] loads[i])
}

/// Whether a dependency of the manifest is in the lock.
pub open spec fn has_come(locked: Seq<LockArtifactView>, l: LoadView) -> bool {
    exists|k: int| 0 <= k < locked.len() && comes_from(#[trigger] locked[k], l)
}

/// Whether the dependencies of the manifest are those that locked artifacts were resolved for:
/// each is there, but for those that are passed over, and nothing else is that near.
pub open spec fn covers(locked: Seq<LockArtifactView>, loads: Seq<LoadView>) -> bool {
    &&& forall|i: int| 0 <= i < loads.len() ==> passed_over(loads, i) || has_come(locked, #[trigger] loads[i])
    &&& forall|k: int| 0 <= k < locked.len() && (#[trigger] locked[k]).depth == 0 ==> is_declared(locked[k], loads)
}

fn same_patterns(a: &OrdSet<ExclusionPattern>, b: &OrdSet<ExclusionPattern>) -> (r: bool)
    ensures
        r == (a@ == b@),
{
    if a.len() != b.len() {
        return false;
    }
    let mut i: usize = 0;
    while i < a.len()
        invariant
            i <= a@.len(),
            a@.len() == b@.len(),
            forall|k: int| 0 <= k < i ==> a@[k] == b@[k],
        decreases a@.len() - i,
    {
        if !a.at(i).same(b.at(i)) {
            return false;
        }
        i = i + 1;
    }
    assert(a@ =~= b@);
    true
}

fn same_numbers(a: &Vec<usize>, b: &Vec<usize>) -> (r: bool)
    ensures
        r == (a@ == b@),
{
    if a.len() != b.len() {
        return false;
    }
    let mut i: usize = 0;
    while i < a.len()
        invariant
            i <= a@.len(),
            a@.len() == b@.len(),
            forall|k: int| 0 <= k < i ==> a@[k] == b@[k],
        decreases a@.len() - i,
    {
        if a[i] != b[i] {
            return false;
        }
        i = i + 1;
    }
    assert(a@ =~= b@);
    true
}

fn is_from(a: &LockArtifact, l: &Load) -> (r: bool)
    ensures
        r == comes_from(a@, l@),
{
    let ticket = l.ticket();
    a.coord.same(&l.coord) && same_opt(&a.classifier, &ticket.classifier) && same(
        a.artifact_type.extension(),
        l.artifact_type.extension(),
    ) && a.depth == 0 && same_numbers(&a.position, &l.branch.position) && same_patterns(
        &a.exclusions,
        &l.branch.exclusions,
    )
}

fn is_passed_over(loads: &Vec<Load>, i: usize) -> (r: bool)
    requires
        i < loads@.len(),
    ensures
        r == passed_over(views(loads@), i as int),
{
    let ghost lv = views(loads@);
    let key = loads[i].ticket().key;
    let mut j: usize = 0;
    while j < i
        invariant
            j <= i < loads@.len(),
            lv == views(loads@),
            key@ == ticket_spec(lv[i as int]).key,
            forall|k: int| 0 <= k < j ==> ticket_spec(#[trigger] lv[k]).key != key@,
        decreases i - j,
    {
        assert(lv[j as int] == loads@[j as int]@);
        if loads[j].ticket().key.same(&key) {
            return true;
        }
        j = j + 1;
    }
    false
}

fn is_in_lock(lock: &Lock, l: &Load) -> (r: bool)
    ensures
        r == has_come(lock@.artifacts, l@),
{
    let ghost locked = lock@.artifacts;
    let mut k: usize = 0;
    while k < lock.artifacts.len()
        invariant
            k <= locked.len(),
            locked == lock.artifacts@,
            forall|m: int| 0 <= m < k ==> !comes_from(#[trigger] locked[m], l@),
        decreases locked.len() - k,
    {
        if is_from(lock.artifacts.at(k), l) {
            return true;
        }
        k = k + 1;
    }
    false
}

fn is_direct(a: &LockArtifact, loads: &Vec<Load>) -> (r: bool)
    ensures
        r == is_declared(a@, views(loads@)),
{
    let ghost lv = views(loads@);
    let mut j: usize = 0;
    while j < loads.len()
        invariant
            j <= loads@.len(),
            lv == views(loads@),
            forall|m: int| 0 <= m < j ==> passed_over(lv, m) || !comes_from(a@, #[trigger] lv[m]),
        decreases loads@.len() - j,
    {
        assert(lv[j as int] == loads@[j as int]@);
        if is_from(a, &loads[j]) && !is_passed_over(loads, j) {
            return true;
        }
        j = j + 1;
    }
    false
}

/// Whether the dependencies of the manifest are those that the lock was made for.
pub fn lock_covers(lock: &Lock, deps: &Vec<Dependency>) -> (r: bool)
    ensures
        r == covers(lock@.artifacts, direct_loads_spec(views(deps@))),
{
    let loads = direct_loads(deps);
    let ghost lv = views(loads@);
    let ghost locked = lock@.artifacts;
    let mut i: usize = 0;
    while i < loads.len()
        invariant
            i <= loads@.len(),
            lv == views(loads@),
            lv == direct_loads_spec(views(deps@)),
            locked == lock@.artifacts,
            forall|k: int| 0 <= k < i ==> passed_over(lv, k) || has_come(locked, #[trigger] lv[k]),
        decreases loads@.len() - i,
    {
        assert(lv[i as int] == loads@[i as int]@);
        if !is_passed_over(&loads, i) && !is_in_lock(lock, &loads[i]) {
            return false;
        }
        i = i + 1;
    }
    let mut k: usize = 0;
    while k < lock.artifacts.len()
        invariant
            k <= locked.len(),
            lv == views(loads@),
            lv == direct_loads_spec(views(deps@)),
            locked == lock@.artifacts,
            forall|m: int| 0 <= m < k && (#[trigger] locked[m]).depth == 0 ==> is_declared(locked[m], lv),
        decreases locked.len() - k,
    {
        let a = lock.artifacts.at(k);
        assert(locked[k as int] == a@);
        if a.depth == 0 && !is_direct(a, &loads) {
            return false;
        }
        k = k + 1;
    }
    true
}

/// Whether a lock says what is resolved: neither the repositories nor the dependencies have
/// changed since it was made.
pub open spec fn still_holds(lock: LockView, urls: Seq<Seq<char>>, deps: Seq<DepView>) -> bool {
    lock.repositories == put_all::<String>(urls) && covers(lock.artifacts, direct_loads_spec(deps))
}

/// What is resolved, where the lock says so, and nothing where it has to be resolved anew.
pub fn recall(lock: Option<&Lock>, urls: &Vec<String>, deps: &Vec<Dependency>) -> (r: Option<ResolvedDependencies>)
    ensures
        match lock {
            Some(l) if still_holds(l@, texts(urls@), views(deps@)) => r is Some && views(r->Some_0.artifacts@)
                == l@.artifacts.map_values(|a: LockArtifactView| from_locked_ranked(a)),
            _ => r is None,
        },
{
    match lock {
        Some(l) => if lock_serves(l, urls) && lock_covers(l, deps) {
            Some(ResolvedDependencies::from_lock(l))
        } else {
            None
        },
        None => None,
    }
}

/// The class path with the files that dependencies name, given the directory that they are
/// relative to.
pub open spec fn with_local_paths(
    class_path: Seq<(Seq<char>, Scope)>,
    dir: Seq<char>,
    deps: Seq<DepView>,
) -> Seq<(Seq<char>, Scope)>
    decreases deps.len(),
{
    if deps.len() == 0 {
        class_path
    } else {
        let before = with_local_paths(class_path, dir, deps.drop_last());
        match deps.last().source {
            SourceView::Path(p) => assign::<Path, Scope>(before, join_path_spec(dir, p), deps.last().scope),
            SourceView::Id(_) => before,
        }
    }
}

/// The files that dependencies name, in order.
pub open spec fn local_paths_spec(deps: Seq<DepView>) -> Seq<Seq<char>>
    decreases deps.len(),
{
    if deps.len() == 0 {
        Seq::empty()
    } else {
        match deps.last().source {
            SourceView::Path(p) => local_paths_spec(deps.drop_last()).push(p),
            SourceView::Id(_) => local_paths_spec(deps.drop_last()),
        }
    }
}

/// The files that dependencies name, in order.
pub fn local_paths(deps: &Vec<Dependency>) -> (r: Vec<String>)
    ensures
        texts(r@) == local_paths_spec(views(deps@)),
{
    let ghost dv = views(deps@);
    let mut out: Vec<String> = Vec::new();
    let mut i: usize = 0;
    assert(dv.take(0) =~= Seq::empty());
    assert(texts(out@) =~= Seq::empty());
    while i < deps.len()
        invariant
            i <= deps@.len(),
            dv == views(deps@),
            texts(out@) == local_paths_spec(dv.take(i as int)),
        decreases deps@.len() - i,
    {
        assert(dv[i as int] == deps@[i as int]@);
        assert(dv.take(i + 1).drop_last() =~= dv.take(i as int));
        if let DependencySource::Path(p) = &deps[i].source {
            crate::text::add_text(&mut out, p.as_str());
        }
        i = i + 1;
    }
    assert(dv.take(i as int) =~= dv);
    out
}

/// Adds the files that dependencies name to the class path.
pub fn add_local_paths(class_path: &mut OrdMap<Path, Scope>, dir: &str, deps: &Vec<Dependency>)
    ensures
        final(class_path)@ == with_local_paths(old(class_path)@, dir@, views(deps@)),
{
    let ghost start = class_path@;
    let ghost dv = views(deps@);
    let mut i: usize = 0;
    assert(dv.take(0) =~= Seq::empty());
    while i < deps.len()
        invariant
            i <= deps@.len(),
            dv == views(deps@),
            class_path@ == with_local_paths(start, dir@, dv.take(i as int)),
        decreases deps@.len() - i,
    {
        assert(dv[i as int] == deps@[i as int]@);
        assert(dv.take(i + 1).drop_last() =~= dv.take(i as int));
        if let DependencySource::Path(p) = &deps[i].source {
            class_path.insert(Path { text: join_path(dir, p.as_str()) }, deps[i].scope);
        }
        i = i + 1;
    }
    assert(dv.take(i as int) =~= dv);
}

/// What is written down of local files, given what they hold.
pub open spec fn locals_spec(paths: Seq<Seq<char>>, contents: Seq<Seq<u8>>) -> Seq<LocalView>
    decreases paths.len(),
{
    if paths.len() == 0 {
        Seq::empty()
    } else {
        put::<LocalArtifact>(
            locals_spec(paths.drop_last(), contents),
            LocalView { path: paths.last(), checksum: sha256_of(contents[paths.len() - 1]) },
        )
    }
}

/// What is written down of local files, given what they hold.
pub fn lock_locals(paths: &Vec<String>, contents: &Vec<Vec<u8>>) -> (r: OrdSet<LocalArtifact>)
    requires
        paths@.len() == contents@.len(),
    ensures
        r@ == locals_spec(texts(paths@), views(contents@)),
{
    let ghost pv = texts(paths@);
    let ghost cv = views(contents@);
    let mut out: OrdSet<LocalArtifact> = OrdSet::new();
    let mut i: usize = 0;
    assert(pv.take(0) =~= Seq::empty());
    while i < paths.len()
        invariant
            i <= paths@.len(),
            paths@.len() == contents@.len(),
            pv == texts(paths@),
            cv == views(contents@),
            out@ == locals_spec(pv.take(i as int), cv),
        decreases paths@.len() - i,
    {
        assert(pv.take(i + 1).drop_last() =~= pv.take(i as int));
        assert(cv[i as int] == contents@[i as int]@);
        let asset = Asset::of(&contents[i]);
        out.insert(LocalArtifact { path: paths[i].clone(), checksum: Checksum::provided(asset.sha256) });
        i = i + 1;
    }
    assert(pv.take(i as int) =~= pv);
    out
}

/// What is to be done about an artifact.
#[derive(Debug, PartialEq, Eq)]
pub struct Plan {
    /// Where its file is kept.
    pub out: String,
    /// The digest that the lock gives of the file.
    pub expected: Option<Vec<u8>>,
    pub exclusions: OrdSet<ExclusionPattern>,
    pub scope: Scope,
}

/// A plan, its texts as characters.
pub struct PlanView {
    pub out: Seq<char>,
    pub expected: Option<Seq<u8>>,
    pub exclusions: Seq<PatternView>,
    pub scope: Scope,
}

impl View for Plan {
    type V = PlanView;

    open spec fn view(&self) -> PlanView {
        PlanView {
            out: self.out@,
            expected: match self.expected {
                Some(d) => Some(d@),
                None => None,
            },
            exclusions: self.exclusions@,
            scope: self.scope,
        }
    }
}

/// The digest that a lock gives of an artifact: of the first with its coordinates and its
/// classifier.
pub open spec fn locked_digest(artifacts: Seq<LockArtifactView>, c: CoordView, classifier: Option<Seq<char>>) -> Option<
    Seq<u8>,
>
    decreases artifacts.len(),
{
    if artifacts.len() == 0 {
        None
    } else if artifacts[0].coord == c && artifacts[0].classifier == classifier {
        Some(artifacts[0].checksum)
    } else {
        locked_digest(artifacts.drop_first(), c, classifier)
    }
}

/// What the manifest excludes of an artifact: of the first dependency with its coordinates.
pub open spec fn declared_exclusions(deps: Seq<DepView>, c: CoordView) -> Seq<PatternView>
    decreases deps.len(),
{
    if deps.len() == 0 {
        Seq::empty()
    } else if dep_coord(deps[0]) == Some(c) {
        deps[0].exclusions
    } else {
        declared_exclusions(deps.drop_first(), c)
    }
}

/// The scope of an artifact, or `compile`.
pub open spec fn scope_or_compile(scopes: Seq<(CoordView, Scope)>, c: CoordView) -> Scope {
    match scope_in(scopes, c) {
        Some(s) => s,
        None => Scope::Compile,
    }
}

/// What is to be done about an artifact, given the scopes.
pub open spec fn plan_spec(
    a: ResolvedView,
    deps: Seq<DepView>,
    scopes: Seq<(CoordView, Scope)>,
    locked: Seq<LockArtifactView>,
    libraries: Seq<char>,
) -> PlanView {
    PlanView {
        out: join_path_spec(libraries, library_name(a.coord, a.classifier, a.artifact_type)),
        expected: locked_digest(locked, a.coord, a.classifier),
        exclusions: declared_exclusions(deps, a.coord),
        scope: scope_or_compile(scopes, a.coord),
    }
}

/// The artifacts of a lock, where there is one.
pub open spec fn locked_artifacts(lock: Option<&Lock>) -> Seq<LockArtifactView> {
    match lock {
        Some(l) => l@.artifacts,
        None => Seq::empty(),
    }
}

fn find_digest(lock: Option<&Lock>, c: &ArtifactCoordinates, classifier: &Option<String>) -> (r: Option<Vec<u8>>)
    ensures
        match r {
            Some(d) => locked_digest(locked_artifacts(lock), c@, opt_text(*classifier)) == Some(d@),
            None => locked_digest(locked_artifacts(lock), c@, opt_text(*classifier)) is None,
        },
{
    let l = match lock {
        None => {
            return None;
        },
        Some(l) => l,
    };
    let ghost s = l@.artifacts;
    let mut i: usize = 0;
    assert(s.skip(0) =~= s);
    while i < l.artifacts.len()
        invariant
            i <= s.len(),
            s == l.artifacts@,
            locked_artifacts(lock) == s,
            locked_digest(s, c@, opt_text(*classifier)) == locked_digest(s.skip(i as int), c@, opt_text(*classifier)),
        decreases s.len() - i,
    {
        let a = l.artifacts.at(i);
        assert(s.skip(i as int)[0] == a@);
        if a.coord.same(c) && same_opt(&a.classifier, classifier) {
            let d = a.checksum.digest().clone();
            return Some(d);
        }
        assert(s.skip(i as int).drop_first() =~= s.skip(i + 1));
        i = i + 1;
    }
    None
}

fn find_exclusions(deps: &Vec<Dependency>, c: &ArtifactCoordinates) -> (r: OrdSet<ExclusionPattern>)
    ensures
        r@ == declared_exclusions(views(deps@), c@),
{
    let ghost dv = views(deps@);
    let mut i: usize = 0;
    assert(dv.skip(0) =~= dv);
    while i < deps.len()
        invariant
            i <= deps@.len(),
            dv == views(deps@),
            declared_exclusions(dv, c@) == declared_exclusions(dv.skip(i as int), c@),
        decreases deps@.len() - i,
    {
        let d = &deps[i];
        assert(dv.skip(i as int)[0] == d@);
        if let Some(x) = d.coord() {
            if x.same(c) {
                return d.exclusions.duplicate();
            }
        }
        assert(dv.skip(i as int).drop_first() =~= dv.skip(i + 1));
        i = i + 1;
    }
    OrdSet::new()
}

/// What is to be done about each artifact, given the scopes.
pub fn plans_given(
    artifacts: &Vec<Resolved>,
    deps: &Vec<Dependency>,
    scopes: &OrdMap<ArtifactCoordinates, Scope>,
    lock: Option<&Lock>,
    libraries: &str,
) -> (r: Vec<Plan>)
    ensures
        views(r@) == views(artifacts@).map_values(
            |a: (ResolvedView, RankView)|
                plan_spec(a.0, views(deps@), scopes@, locked_artifacts(lock), libraries@),
        ),
{
    let mut out: Vec<Plan> = Vec::new();
    let mut i: usize = 0;
    while i < artifacts.len()
        invariant
            i <= artifacts@.len(),
            out@.len() == i,
            forall|k: int|
                0 <= k < i ==> (#[trigger] out@[k])@ == plan_spec(
                    artifacts@[k].artifact@,
                    views(deps@),
                    scopes@,
                    locked_artifacts(lock),
                    libraries@,
                ),
        decreases artifacts@.len() - i,
    {
        let a = &artifacts[i].artifact;
        let name = library_file(&a.coord, &a.classifier, &a.artifact_type);
        let scope = match scopes.get(&a.coord) {
            Some(s) => *s,
            None => Scope::Compile,
        };
        out.push(
            Plan {
                out: join_path(libraries, name.as_str()),
                expected: find_digest(lock, &a.coord, &a.classifier),
                exclusions: find_exclusions(deps, &a.coord),
                scope,
            },
        );
        i = i + 1;
    }
    assert(views(out@) =~= views(artifacts@).map_values(
        |a: (ResolvedView, RankView)| plan_spec(a.0, views(deps@), scopes@, locked_artifacts(lock), libraries@),
    ));
    out
}

/// Whether the plans are those for the artifacts, in the scopes in which they are needed.
pub open spec fn are_plans(
    plans: Seq<PlanView>,
    artifacts: Seq<(ResolvedView, RankView)>,
    deps: Seq<DepView>,
    locked: Seq<LockArtifactView>,
    libraries: Seq<char>,
    scopes: Seq<(CoordView, Scope)>,
) -> bool {
    &&& scopes_of(deps, artifacts, scopes)
    &&& plans == artifacts.map_values(
        |a: (ResolvedView, RankView)| plan_spec(a.0, deps, scopes, locked, libraries),
    )
}

/// What is to be done about each artifact.
pub fn plans(artifacts: &Vec<Resolved>, deps: &Vec<Dependency>, lock: Option<&Lock>, libraries: &str) -> (r: Vec<Plan>)
    ensures
        exists|scopes: Seq<(CoordView, Scope)>|
            #[trigger] are_plans(
                views(r@),
                views(artifacts@),
                views(deps@),
                locked_artifacts(lock),
                libraries@,
                scopes,
            ),
{
    let scopes = compute_effective_scopes(deps, artifacts);
    let r = plans_given(artifacts, deps, &scopes, lock, libraries);
    assert(are_plans(views(r@), views(artifacts@), views(deps@), locked_artifacts(lock), libraries@, scopes@));
    r
}

/// The scopes of the dependencies of an artifact.
pub open spec fn scopes_only(deps: Deps) -> Seq<(CoordView, PomScope)>
    decreases deps.len(),
{
    if deps.len() == 0 {
        Seq::empty()
    } else {
        assign::<ArtifactCoordinates, PomScope>(
            scopes_only(deps.drop_last()),
            deps.last().0,
            deps.last().1.scope,
        )
    }
}

fn keep_scopes(deps: &OrdMap<ArtifactCoordinates, PomDependency>) -> (r: OrdMap<ArtifactCoordinates, PomScope>)
    ensures
        r@ == scopes_only(deps@),
{
    let ghost s = deps@;
    let mut out: OrdMap<ArtifactCoordinates, PomScope> = OrdMap::new();
    let mut i: usize = 0;
    assert(s.take(0) =~= Seq::empty());
    while i < deps.len()
        invariant
            i <= s.len(),
            s == deps@,
            out@ == scopes_only(s.take(i as int)),
        decreases s.len() - i,
    {
        assert(s.take(i + 1).drop_last() =~= s.take(i as int));
        let (coord, dep) = deps.at(i);
        out.insert(coord.clone(), dep.scope);
        i = i + 1;
    }
    assert(s.take(i as int) =~= s);
    out
}

/// What the lock keeps of the dependencies of an artifact is what it gives back of them.
pub proof fn scopes_survive_the_lock(deps: Deps)
    requires
        sorted::<Pair<ArtifactCoordinates, PomDependency>>(deps),
    ensures
        scopes_only(deps) == deps.map_values(|d: (CoordView, PomDependencyView)| (d.0, d.1.scope)),
        sorted::<Pair<ArtifactCoordinates, PomScope>>(scopes_only(deps)),
    decreases deps.len(),
{
    use_ranked_pairs(deps);
    let p = deps.map_values(|d: (CoordView, PomDependencyView)| (d.0, d.1.scope));
    if deps.len() > 0 {
        crate::order::sorted_drop_last::<Pair<ArtifactCoordinates, PomDependency>>(deps);
        scopes_survive_the_lock(deps.drop_last());
        assert(deps.drop_last().map_values(|d: (CoordView, PomDependencyView)| (d.0, d.1.scope)) =~= p.take(
            p.len() - 1,
        ));
        crate::order::assign_next::<ArtifactCoordinates, PomScope>(p, p.len() - 1);
        assert(p.take(p.len() as int) =~= p);
    } else {
        assert(p =~= Seq::empty());
    }
}

proof fn use_ranked_pairs(deps: Deps)
    requires
        sorted::<Pair<ArtifactCoordinates, PomDependency>>(deps),
    ensures
        sorted::<Pair<ArtifactCoordinates, PomScope>>(
            deps.map_values(|d: (CoordView, PomDependencyView)| (d.0, d.1.scope)),
        ),
{
    let p = deps.map_values(|d: (CoordView, PomDependencyView)| (d.0, d.1.scope));
    assert forall|i: int, j: int| 0 <= i < j < p.len() implies crate::order::less(
        <Pair<ArtifactCoordinates, PomScope> as Ranked>::code(#[trigger] p[i]),
        <Pair<ArtifactCoordinates, PomScope> as Ranked>::code(#[trigger] p[j]),
    ) by {
        crate::order::sorted_at::<Pair<ArtifactCoordinates, PomDependency>>(deps, i, j);
    }
}

/// What is written down of an artifact, given the digest of its file.
pub open spec fn locked_spec(a: ResolvedView, rank: RankView, plan: PlanView, digest: Seq<u8>) -> LockArtifactView {
    LockArtifactView {
        coord: a.coord,
        classifier: a.classifier,
        artifact_type: a.artifact_type,
        source: a.source,
        artifact_path: a.artifact_path,
        checksum: digest,
        effective_scope: plan.scope,
        depth: rank.depth,
        position: rank.position,
        dependencies: scopes_only(a.dependencies),
        exclusions: plan.exclusions,
    }
}

/// What is written down of an artifact, given the digest of its file.
pub fn lock_artifact(resolved: &Resolved, plan: &Plan, digest: &Vec<u8>) -> (r: LockArtifact)
    ensures
        r@ == locked_spec(resolved.artifact@, resolved.rank@, plan@, digest@),
{
    let a = &resolved.artifact;
    let rank = resolved.rank.copy();
    LockArtifact {
        coord: a.coord.clone(),
        classifier: copy_opt(&a.classifier),
        artifact_type: a.artifact_type.clone(),
        source: a.source.clone(),
        artifact_path: a.artifact_path.clone(),
        checksum: Checksum::provided(digest.clone()),
        effective_scope: plan.scope,
        depth: rank.depth,
        position: rank.position,
        dependencies: keep_scopes(&a.dependencies),
        exclusions: plan.exclusions.duplicate(),
    }
}

/// What is written down of artifacts, given the digests of their files.
pub open spec fn locked_all(
    artifacts: Seq<(ResolvedView, RankView)>,
    plans: Seq<PlanView>,
    digests: Seq<Seq<u8>>,
    n: int,
) -> Seq<LockArtifactView>
    decreases n,
{
    if n <= 0 {
        Seq::empty()
    } else {
        put::<LockArtifact>(
            locked_all(artifacts, plans, digests, n - 1),
            locked_spec(artifacts[n - 1].0, artifacts[n - 1].1, plans[n - 1], digests[n - 1]),
        )
    }
}

/// The class path with the files of artifacts.
pub open spec fn with_libraries(
    class_path: Seq<(Seq<char>, Scope)>,
    plans: Seq<PlanView>,
) -> Seq<(Seq<char>, Scope)>
    decreases plans.len(),
{
    if plans.len() == 0 {
        class_path
    } else {
        assign::<Path, Scope>(with_libraries(class_path, plans.drop_last()), plans.last().out, plans.last().scope)
    }
}

/// The lock of all artifacts, once the file of each is there, and their files on the class
/// path.
pub fn finish_lock(
    class_path: &mut OrdMap<Path, Scope>,
    artifacts: &Vec<Resolved>,
    plans: &Vec<Plan>,
    digests: &Vec<Vec<u8>>,
    urls: &Vec<String>,
    local: OrdSet<LocalArtifact>,
) -> (r: Lock)
    requires
        artifacts@.len() == plans@.len(),
        artifacts@.len() == digests@.len(),
    ensures
        r@ == (LockView {
            version: "1"@,
            repositories: put_all::<String>(texts(urls@)),
            artifacts: locked_all(views(artifacts@), views(plans@), views(digests@), artifacts@.len() as int),
            local: local@,
        }),
        final(class_path)@ == with_libraries(old(class_path)@, views(plans@)),
{
    let ghost start = class_path@;
    let ghost av = views(artifacts@);
    let ghost pv = views(plans@);
    let ghost dv = views(digests@);
    let mut locked: OrdSet<LockArtifact> = OrdSet::new();
    let mut i: usize = 0;
    assert(pv.take(0) =~= Seq::empty());
    while i < artifacts.len()
        invariant
            i <= artifacts@.len(),
            artifacts@.len() == plans@.len(),
            artifacts@.len() == digests@.len(),
            av == views(artifacts@),
            pv == views(plans@),
            dv == views(digests@),
            locked@ == locked_all(av, pv, dv, i as int),
            class_path@ == with_libraries(start, pv.take(i as int)),
        decreases artifacts@.len() - i,
    {
        assert(pv.take(i + 1).drop_last() =~= pv.take(i as int));
        assert(av[i as int] == artifacts@[i as int]@);
        assert(pv[i as int] == plans@[i as int]@);
        assert(dv[i as int] == digests@[i as int]@);
        locked.insert(lock_artifact(&artifacts[i], &plans[i], &digests[i]));
        class_path.insert(Path { text: plans[i].out.clone() }, plans[i].scope);
        i = i + 1;
    }
    assert(pv.take(i as int) =~= pv);
    Lock { version: "1".to_owned(), repositories: url_set(urls), artifacts: locked, local }
}

/// Whether the file of an artifact is there as the lock describes it, given the digest of
/// what is there.
pub fn is_cached(plan: &Plan, found: Option<&Asset>) -> (r: bool)
    ensures
        r == match (plan@.expected, found) {
            (Some(d), Some(a)) => a.sha256@ == d,
            _ => false,
        },
{
    match (&plan.expected, found) {
        (Some(d), Some(a)) => a.is(d),
        _ => false,
    }
}

/// An artifact keeps its place, its scope and its digest through the lock.
pub proof fn locked_artifact_is_kept(a: ResolvedView, rank: RankView, plan: PlanView, digest: Seq<u8>)
    ensures
        ({
            let l = locked_spec(a, rank, plan, digest);
            let back = from_locked_ranked(l);
            &&& back.0.coord == a.coord
            &&& back.0.source == a.source
            &&& back.0.artifact_path == a.artifact_path
            &&& back.0.artifact_type == a.artifact_type
            &&& back.0.classifier == a.classifier
            &&& back.0.effective_scope == plan.scope
            &&& back.1 == rank
            &&& locked_digest(seq![l], a.coord, a.classifier) == Some(digest)
        }),
{
}

/// The dependencies of a locked artifact are written down again as they were.
pub proof fn locked_scopes_are_stable(s: Seq<(CoordView, PomScope)>)
    requires
        sorted::<Pair<ArtifactCoordinates, PomScope>>(s),
    ensures
        scopes_only(locked_deps(s)) == s,
{
    let d = locked_deps(s);
    locked_deps_are_kept(s);
    assert forall|i: int, j: int| 0 <= i < j < d.len() implies crate::order::less(
        <Pair<ArtifactCoordinates, PomDependency> as Ranked>::code(#[trigger] d[i]),
        <Pair<ArtifactCoordinates, PomDependency> as Ranked>::code(#[trigger] d[j]),
    ) by {
        crate::order::sorted_at::<Pair<ArtifactCoordinates, PomScope>>(s, i, j);
    }
    scopes_survive_the_lock(d);
    assert(scopes_only(d) =~= s);
}

/// An artifact that was locked, and of which nothing has changed, is locked again as it was.
pub proof fn unchanged_artifact_is_locked_again(a: LockArtifactView, plan: PlanView)
    requires
        sorted::<Pair<ArtifactCoordinates, PomScope>>(a.dependencies),
        plan.scope == a.effective_scope,
        plan.exclusions == a.exclusions,
    ensures
        ({
            let back = from_locked_ranked(a);
            locked_spec(back.0, back.1, plan, a.checksum) == a
        }),
{
    locked_scopes_are_stable(a.dependencies);
}

proof fn regroup(h: Seq<u64>, x: Seq<u64>, y: Seq<u64>)
    ensures
        (h + x) + y == h + (x + y),
{
    assert((h + x) + y =~= h + (x + y));
}

/// The sort code of a locked artifact, from the front.
proof fn lock_code_in_order(v: LockArtifactView)
    ensures
        LockArtifact::code(v) == text_code(v.coord.group) + (text_code(v.coord.artifact) + (text_code(v.coord.version)
            + (opt_text_code(v.classifier) + (text_code(v.artifact_type) + rest_of_code(v))))),
{
    let c = ArtifactCoordinates::code(v.coord);
    let o = opt_text_code(v.classifier);
    let t = text_code(v.artifact_type);
    let h = c + o + t;
    let s = text_code(v.source);
    let p = crate::paths::path_code(v.artifact_path);
    let b = bytes_code(v.checksum);
    let q = seq![scope_rank(v.effective_scope) as u64, v.depth as u64];
    let n = numbers_code(v.position);
    let z = seq![0u64];
    let d = deps_code(v.dependencies);
    let x = patterns_code(v.exclusions);
    regroup(h, s, p);
    regroup(h, s + p, b);
    regroup(h, s + p + b, q);
    regroup(h, s + p + b + q, n);
    regroup(h, s + p + b + q + n, z);
    regroup(h, s + p + b + q + n + z, d);
    regroup(h, s + p + b + q + n + z + d, z);
    regroup(h, s + p + b + q + n + z + d + z, x);
    regroup(h, s + p + b + q + n + z + d + z + x, z);
    let r = rest_of_code(v);
    assert(LockArtifact::code(v) == h + r);
    regroup(c + o, t, r);
    regroup(c, o, t + r);
    let g = text_code(v.coord.group);
    let a = text_code(v.coord.artifact);
    let w = text_code(v.coord.version);
    regroup(g + a, w, o + (t + r));
    regroup(g, a, w + (o + (t + r)));
}

/// Artifacts of one sort code have the same file among the libraries.
proof fn lock_code_tells_the_file(a: LockArtifactView, b: LockArtifactView)
    requires
        LockArtifact::code(a) == LockArtifact::code(b),
    ensures
        a.coord == b.coord,
        a.classifier == b.classifier,
        a.artifact_type == b.artifact_type,
{
    let ra = rest_of_code(a);
    let rb = rest_of_code(b);
    let ta = text_code(a.artifact_type) + ra;
    let tb = text_code(b.artifact_type) + rb;
    let oa = opt_text_code(a.classifier) + ta;
    let ob = opt_text_code(b.classifier) + tb;
    let va = text_code(a.coord.version) + oa;
    let vb = text_code(b.coord.version) + ob;
    let na = text_code(a.coord.artifact) + va;
    let nb = text_code(b.coord.artifact) + vb;
    lock_code_in_order(a);
    lock_code_in_order(b);
    text_code_parts(a.coord.group, b.coord.group, na, nb);
    text_code_parts(a.coord.artifact, b.coord.artifact, va, vb);
    text_code_parts(a.coord.version, b.coord.version, oa, ob);
    opt_code_parts(a.classifier, b.classifier, ta, tb);
    text_code_parts(a.artifact_type, b.artifact_type, ra, rb);
}

/// The sort code of an optional text tells where it ends, and what the text was.
proof fn opt_code_parts(a: Option<Seq<char>>, b: Option<Seq<char>>, x: Seq<u64>, y: Seq<u64>)
    requires
        opt_text_code(a) + x == opt_text_code(b) + y,
    ensures
        a == b,
        x == y,
{
    let l = opt_text_code(a) + x;
    let r = opt_text_code(b) + y;
    assert(l[0] == r[0]);
    match (a, b) {
        (Some(s), Some(t)) => {
            assert(l.drop_first() =~= text_code(s) + x);
            assert(r.drop_first() =~= text_code(t) + y);
            text_code_parts(s, t, x, y);
        },
        (None, None) => {
            assert(l.drop_first() =~= x);
            assert(r.drop_first() =~= y);
        },
        (Some(_), None) => {
            assert(l[0] == 1);
            assert(r[0] == 0);
        },
        (None, Some(_)) => {
            assert(l[0] == 0);
            assert(r[0] == 1);
        },
    }
}

/// What the sort code of a locked artifact holds after its type.
spec fn rest_of_code(v: LockArtifactView) -> Seq<u64> {
    text_code(v.source) + crate::paths::path_code(v.artifact_path) + bytes_code(v.checksum) + seq![
        scope_rank(v.effective_scope) as u64,
        v.depth as u64,
    ] + numbers_code(v.position) + seq![0u64] + deps_code(v.dependencies) + seq![0u64] + patterns_code(
        v.exclusions,
    ) + seq![0u64]
}

/// Whether an artifact, in the way it is planned for, is what a dependency of the manifest
/// came to.
pub open spec fn stands_for(a: (ResolvedView, RankView), plan: PlanView, l: LoadView) -> bool {
    &&& a.0.coord == l.coord
    &&& a.0.artifact_type == l.artifact_type
    &&& a.0.classifier == ticket_spec(l).classifier
    &&& a.1 == ticket_spec(l).rank
    &&& l.branch.depth == 0
    &&& plan.exclusions == l.branch.exclusions
}

/// A lock holds each of the artifacts that were resolved, no two of which have one key, and
/// nothing else.
pub proof fn lock_holds_what_was_resolved(
    artifacts: Seq<(ResolvedView, RankView)>,
    plans: Seq<PlanView>,
    digests: Seq<Seq<u8>>,
    n: int,
)
    requires
        0 <= n <= artifacts.len(),
        forall|i: int, j: int|
            0 <= i < j < artifacts.len() ==> resolved_key((#[trigger] artifacts[i]).0) != resolved_key(
                (#[trigger] artifacts[j]).0,
            ),
    ensures
        sorted::<LockArtifact>(locked_all(artifacts, plans, digests, n)),
        forall|i: int|
            0 <= i < n ==> locked_all(artifacts, plans, digests, n).contains(
                locked_spec((#[trigger] artifacts[i]).0, artifacts[i].1, plans[i], digests[i]),
            ),
        forall|v: LockArtifactView| #[trigger]
            locked_all(artifacts, plans, digests, n).contains(v) ==> exists|i: int|
                0 <= i < n && v == locked_spec((#[trigger] artifacts[i]).0, artifacts[i].1, plans[i], digests[i]),
    decreases n,
{
    if n > 0 {
        let before = locked_all(artifacts, plans, digests, n - 1);
        let all = locked_all(artifacts, plans, digests, n);
        let x = locked_spec(artifacts[n - 1].0, artifacts[n - 1].1, plans[n - 1], digests[n - 1]);
        lock_holds_what_was_resolved(artifacts, plans, digests, n - 1);
        crate::order::put_keeps_order::<LockArtifact>(before, x);
        let k = choose|k: int| 0 <= k < all.len() && LockArtifact::code(#[trigger] all[k]) == LockArtifact::code(x);
        assert(all.contains(all[k]));
        if all[k] != x {
            assert(before.contains(all[k]));
            let i = choose|i: int|
                0 <= i < n - 1 && all[k] == locked_spec(
                    (#[trigger] artifacts[i]).0,
                    artifacts[i].1,
                    plans[i],
                    digests[i],
                );
            lock_code_tells_the_file(all[k], x);
            assert(resolved_key(artifacts[i].0) == resolved_key(artifacts[n - 1].0));
        }
        assert forall|i: int| 0 <= i < n implies all.contains(
            locked_spec((#[trigger] artifacts[i]).0, artifacts[i].1, plans[i], digests[i]),
        ) by {
            if i < n - 1 {
                assert(before.contains(locked_spec(artifacts[i].0, artifacts[i].1, plans[i], digests[i])));
            }
        }
        assert forall|v: LockArtifactView| #[trigger] all.contains(v) implies exists|i: int|
            0 <= i < n && v == locked_spec((#[trigger] artifacts[i]).0, artifacts[i].1, plans[i], digests[i]) by {
            if v == x {
                assert(v == locked_spec(artifacts[n - 1].0, artifacts[n - 1].1, plans[n - 1], digests[n - 1]));
            } else {
                assert(before.contains(v));
            }
        }
    }
}

/// The lock of what was resolved for the dependencies of a manifest lets the next run skip the
/// resolving, as long as neither the dependencies nor the repositories change.
pub proof fn new_lock_still_holds(
    artifacts: Seq<(ResolvedView, RankView)>,
    plans: Seq<PlanView>,
    digests: Seq<Seq<u8>>,
    urls: Seq<Seq<char>>,
    deps: Seq<DepView>,
    local: Seq<LocalView>,
)
    requires
        forall|i: int, j: int|
            0 <= i < j < artifacts.len() ==> resolved_key((#[trigger] artifacts[i]).0) != resolved_key(
                (#[trigger] artifacts[j]).0,
            ),
        forall|i: int|
            0 <= i < direct_loads_spec(deps).len() && !passed_over(direct_loads_spec(deps), i) ==> exists|n: int|
                0 <= n < artifacts.len() && stands_for(
                    #[trigger] artifacts[n],
                    plans[n],
                    #[trigger] direct_loads_spec(deps)[i],
                ),
        forall|n: int|
            0 <= n < artifacts.len() && (#[trigger] artifacts[n]).1.depth == 0 ==> exists|i: int|
                0 <= i < direct_loads_spec(deps).len() && !passed_over(direct_loads_spec(deps), i) && stands_for(
                    artifacts[n],
                    plans[n],
                    #[trigger] direct_loads_spec(deps)[i],
                ),
    ensures
        still_holds(
            LockView {
                version: "1"@,
                repositories: put_all::<String>(urls),
                artifacts: locked_all(artifacts, plans, digests, artifacts.len() as int),
                local,
            },
            urls,
            deps,
        ),
{
    let locked = locked_all(artifacts, plans, digests, artifacts.len() as int);
    let loads = direct_loads_spec(deps);
    lock_holds_what_was_resolved(artifacts, plans, digests, artifacts.len() as int);
    assert forall|i: int| 0 <= i < loads.len() implies passed_over(loads, i) || has_come(
        locked,
        #[trigger] loads[i],
    ) by {
        if !passed_over(loads, i) {
            let n = choose|n: int|
                0 <= n < artifacts.len() && stands_for(#[trigger] artifacts[n], plans[n], loads[i]);
            let v = locked_spec(artifacts[n].0, artifacts[n].1, plans[n], digests[n]);
            assert(locked.contains(v));
            let k = choose|k: int| 0 <= k < locked.len() && locked[k] == v;
            assert(comes_from(locked[k], loads[i]));
        }
    }
    assert forall|k: int| 0 <= k < locked.len() && (#[trigger] locked[k]).depth == 0 implies is_declared(
        locked[k],
        loads,
    ) by {
        assert(locked.contains(locked[k]));
        let n = choose|n: int|
            0 <= n < artifacts.len() && locked[k] == locked_spec(
                (#[trigger] artifacts[n]).0,
                artifacts[n].1,
                plans[n],
                digests[n],
            );
        let i = choose|i: int|
            0 <= i < loads.len() && !passed_over(loads, i) && stands_for(
                artifacts[n],
                plans[n],
                #[trigger] loads[i],
            );
        assert(comes_from(locked[k], loads[i]));
    }
}

/// Where the lock is recalled, and scopes, exclusions and files are as it says, the same
/// artifacts are locked again.
pub proof fn recalled_lock_is_written_again(locked: Seq<LockArtifactView>, plans: Seq<PlanView>, n: int)
    requires
        0 <= n <= locked.len(),
        sorted::<LockArtifact>(locked),
        forall|i: int|
            0 <= i < locked.len() ==> {
                &&& sorted::<Pair<ArtifactCoordinates, PomScope>>((#[trigger] locked[i]).dependencies)
                &&& plans[i].scope == locked[i].effective_scope
                &&& plans[i].exclusions == locked[i].exclusions
            },
    ensures
        locked_all(
            locked.map_values(|a: LockArtifactView| from_locked_ranked(a)),
            plans,
            locked.map_values(|a: LockArtifactView| a.checksum),
            n,
        ) == locked.take(n),
    decreases n,
{
    if n > 0 {
        recalled_lock_is_written_again(locked, plans, n - 1);
        unchanged_artifact_is_locked_again(locked[n - 1], plans[n - 1]);
        crate::order::put_next::<LockArtifact>(locked, n - 1);
    } else {
        assert(locked.take(0) =~= Seq::empty());
    }
}

/// A purge keeps the file of every artifact that was just locked.
pub proof fn purge_keeps_what_was_locked(
    artifacts: Seq<(ResolvedView, RankView)>,
    plans: Seq<PlanView>,
    digests: Seq<Seq<u8>>,
    n: int,
    i: int,
)
    requires
        0 <= i < n,
    ensures
        sorted::<LockArtifact>(locked_all(artifacts, plans, digests, n)),
        is_locked(
            locked_all(artifacts, plans, digests, n),
            library_name(artifacts[i].0.coord, artifacts[i].0.classifier, artifacts[i].0.artifact_type),
        ),
    decreases n,
{
    let before = locked_all(artifacts, plans, digests, n - 1);
    let x = locked_spec(artifacts[n - 1].0, artifacts[n - 1].1, plans[n - 1], digests[n - 1]);
    let all = locked_all(artifacts, plans, digests, n);
    locked_all_is_sorted(artifacts, plans, digests, n - 1);
    crate::order::put_keeps_order::<LockArtifact>(before, x);
    let name = library_name(artifacts[i].0.coord, artifacts[i].0.classifier, artifacts[i].0.artifact_type);
    if i == n - 1 {
        let k = choose|k: int|
            0 <= k < all.len() && LockArtifact::code(#[trigger] all[k]) == LockArtifact::code(x);
        lock_code_tells_the_file(all[k], x);
    } else {
        purge_keeps_what_was_locked(artifacts, plans, digests, n - 1, i);
        let j = choose|j: int|
            0 <= j < before.len() && library_name(
                (#[trigger] before[j]).coord,
                before[j].classifier,
                before[j].artifact_type,
            ) == name;
        assert(before.contains(before[j]));
        assert(all.contains(before[j]));
        let k = choose|k: int| 0 <= k < all.len() && all[k] == before[j];
        assert(library_name(all[k].coord, all[k].classifier, all[k].artifact_type) == name);
    }
}

proof fn locked_all_is_sorted(
    artifacts: Seq<(ResolvedView, RankView)>,
    plans: Seq<PlanView>,
    digests: Seq<Seq<u8>>,
    n: int,
)
    ensures
        sorted::<LockArtifact>(locked_all(artifacts, plans, digests, n)),
    decreases n,
{
    if n > 0 {
        locked_all_is_sorted(artifacts, plans, digests, n - 1);
        crate::order::put_keeps_order::<LockArtifact>(
            locked_all(artifacts, plans, digests, n - 1),
            locked_spec(artifacts[n - 1].0, artifacts[n - 1].1, plans[n - 1], digests[n - 1]),
        );
    }
}

} // verus!
