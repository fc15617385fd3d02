//! How a POM is put together: from its file, its parent, the POMs that it imports, and
//! the POM that all others build upon.
use vstd::prelude::*;
use crate::maven::loader::{copy_version, PomError, PomFault};
use crate::maven::pom::{
    read_dependencies, read_parent, Dependency, DependencyScope, Parent, ParentView, PomDepView,
};
use crate::maven::template::{templates_spec, Props};
use crate::maven::xml::{get_spec, merge_spec, set_spec, XmlFile, XmlView};
use crate::order::views;
use crate::types::{ArtifactCoordinates, CoordView};

verus! {

/// Properties by name.
pub type PropsView = Map<Seq<char>, Seq<char>>;

/// Where a POM lists the dependencies that it manages.
pub const MANAGED: &'static str = "dependencyManagement/dependencies";

/// A POM with its templates replaced by what it, or the system, says they stand for.
pub open spec fn settled(x: XmlView, system: PropsView) -> XmlView {
    templates_spec(x, Map::empty(), system)
}

/// The parent that a POM names. One that cannot be read counts as none.
pub open spec fn parent_of(x: XmlView) -> Option<ParentView> {
    match get_spec(x, "parent"@) {
        Some(p) => read_parent(p),
        None => None,
    }
}

/// Those that are imported, in order.
pub open spec fn imported(deps: Seq<PomDepView>) -> Seq<ParentView>
    decreases deps.len(),
{
    if deps.len() == 0 {
        Seq::empty()
    } else {
        let d = deps.last();
        let before = imported(deps.drop_last());
        if d.scope == DependencyScope::Import {
            before.push(ParentView { group: d.group, artifact: d.artifact, version: d.version })
        } else {
            before
        }
    }
}

/// The POMs that a POM imports. A list that cannot be read counts as empty.
pub open spec fn imports_of(x: XmlView) -> Seq<ParentView> {
    match get_spec(x, MANAGED@) {
        Some(d) => match read_dependencies(d) {
            Some(s) => imported(s),
            None => Seq::empty(),
        },
        None => Seq::empty(),
    }
}

/// A POM with what it takes over from its parent.
pub open spec fn with_parent(x: XmlView, parent: XmlView, system: PropsView) -> XmlView {
    settled(merge_spec(x, parent), system)
}

/// A POM with the managed dependencies of one that it imports.
pub open spec fn with_import(x: XmlView, import: XmlView, system: PropsView) -> XmlView {
    match (get_spec(import, MANAGED@), get_spec(x, MANAGED@)) {
        (Some(theirs), Some(own)) => settled(set_spec(x, MANAGED@, merge_spec(own, theirs)), system),
        _ => x,
    }
}

/// How far a POM is put together.
pub enum StageView {
    /// The parent is to be taken over from.
    Parent(ParentView),
    /// Those from a place on are to be imported.
    Imports(Seq<ParentView>, int),
}

/// A POM that is being put together.
pub struct AssemblyView {
    pub xml: XmlView,
    pub stage: StageView,
}

/// A POM whose parent, if any, has been taken over from.
pub open spec fn parented(x: XmlView) -> AssemblyView {
    AssemblyView { xml: x, stage: StageView::Imports(imports_of(x), 0) }
}

/// A POM of which nothing but its file is there.
pub open spec fn begin_spec(x: XmlView, system: PropsView) -> AssemblyView {
    let s = settled(x, system);
    match parent_of(s) {
        Some(p) => AssemblyView { xml: s, stage: StageView::Parent(p) },
        None => parented(s),
    }
}

/// The coordinates of a POM that is named, where it has a version.
pub open spec fn named_pom(p: ParentView, missing: PomFault<Seq<char>>) -> Result<
    Option<CoordView>,
    PomFault<Seq<char>>,
> {
    match p.version {
        Some(version) => Ok(Some(CoordView { group: p.group, artifact: p.artifact, version })),
        None => Err(missing),
    }
}

/// The POM that is needed next, if any.
pub open spec fn need_spec(a: AssemblyView) -> Result<Option<CoordView>, PomFault<Seq<char>>> {
    match a.stage {
        StageView::Parent(p) => named_pom(p, PomFault::ParentVersion),
        StageView::Imports(list, k) => if 0 <= k < list.len() {
            named_pom(list[k], PomFault::ImportVersion)
        } else {
            Ok(None)
        },
    }
}

/// A POM with what it takes from the one that it needed.
pub open spec fn supply_spec(a: AssemblyView, pom: XmlView, system: PropsView) -> AssemblyView {
    match a.stage {
        StageView::Parent(_) => parented(with_parent(a.xml, pom, system)),
        StageView::Imports(list, k) => AssemblyView {
            xml: with_import(a.xml, pom, system),
            stage: StageView::Imports(list, k + 1),
        },
    }
}

/// A POM that is put together, with what it takes over from the one that all build upon.
pub open spec fn finish_spec(a: AssemblyView, base: XmlView, system: PropsView) -> XmlView {
    settled(merge_spec(a.xml, base), system)
}

enum Stage {
    Parent(Parent),
    Imports(Vec<Parent>, usize),
}

/// A POM that is being put together.
pub struct Assembly {
    xml: XmlFile,
    stage: Stage,
}

impl Assembly {
    pub closed spec fn view(&self) -> AssemblyView {
        AssemblyView {
            xml: self.xml.view(),
            stage: match self.stage {
                Stage::Parent(p) => StageView::Parent(p@),
                Stage::Imports(list, k) => StageView::Imports(views(list@), k as int),
            },
        }
    }
}

fn settle(xml: &mut XmlFile, system: &Props)
    ensures
        final(xml).view() == settled(old(xml).view(), system@),
{
    let none = Props::new();
    xml.replace_templates(&none, system);
}

fn imports(xml: &XmlFile) -> (r: Vec<Parent>)
    ensures
        views(r@) == imports_of(xml.view()),
{
    let mut out: Vec<Parent> = Vec::new();
    assert(views(out@) =~= Seq::empty());
    let node = match xml.root().get(MANAGED) {
        None => {
            return out;
        },
        Some(n) => n,
    };
    let list = match node.read_as::<Vec<Dependency>>() {
        Err(_) => {
            return out;
        },
        Ok(l) => l,
    };
    let ghost all = views(list@);
    let mut i: usize = 0;
    assert(all.take(0) =~= Seq::empty());
    while i < list.len()
        invariant
            i <= list@.len(),
            all == views(list@),
            views(out@) == imported(all.take(i as int)),
        decreases list@.len() - i,
    {
        let d = &list[i];
        assert(all[i as int] == d@);
        assert(all.take(i + 1).drop_last() =~= all.take(i as int));
        if d.scope == DependencyScope::Import {
            let ghost before = out@;
            out.push(
                Parent {
                    group_id: d.group_id.clone(),
                    artifact_id: d.artifact_id.clone(),
                    version: copy_version(&d.version),
                },
            );
            assert(views(out@) =~= views(before).push(out@.last()@));
        }
        i = i + 1;
    }
    assert(all.take(i as int) =~= all);
    out
}

fn coordinates_of(p: &Parent) -> (r: Option<ArtifactCoordinates>)
    ensures
        match r {
            Some(c) => p@.version is Some && c@ == (CoordView {
                group: p@.group,
                artifact: p@.artifact,
                version: p@.version->Some_0,
            }),
            None => p@.version is None,
        },
{
    match &p.version {
        Some(v) => Some(ArtifactCoordinates::new(p.group_id.clone(), p.artifact_id.clone(), v.clone())),
        None => None,
    }
}

fn find_parent(xml: &XmlFile) -> (r: Option<Parent>)
    ensures
        match r {
            Some(p) => parent_of(xml.view()) == Some(p@),
            None => parent_of(xml.view()) is None,
        },
{
    match xml.root().get("parent") {
        None => None,
        Some(n) => match n.read_as::<Parent>() {
            Ok(p) => Some(p),
            Err(_) => None,
        },
    }
}

/// Takes over the managed dependencies of an imported POM.
pub fn take_import(xml: &mut XmlFile, import: &XmlFile, system: &Props)
    ensures
        final(xml).view() == with_import(old(xml).view(), import.view(), system@),
{
    let theirs = match import.root().get(MANAGED) {
        None => {
            return;
        },
        Some(n) => n,
    };
    if xml.root().get(MANAGED).is_none() {
        return;
    }
    match xml.root_mut().get_mut(MANAGED) {
        None => {},
        Some(own) => {
            own.merge_node(theirs);
        },
    }
    settle(xml, system);
}

impl Assembly {
    /// Begins with the file of a POM.
    pub fn begin(file: XmlFile, system: &Props) -> (r: Assembly)
        ensures
            r.view() == begin_spec(file.view(), system@),
    {
        let mut xml = file;
        settle(&mut xml, system);
        match find_parent(&xml) {
            Some(p) => Assembly { xml, stage: Stage::Parent(p) },
            None => {
                let list = imports(&xml);
                Assembly { xml, stage: Stage::Imports(list, 0) }
            },
        }
    }

    /// The POM that is needed next, if any.
    pub fn need(&self) -> (r: Result<Option<ArtifactCoordinates>, PomError>)
        ensures
            match r {
                Ok(Some(c)) => need_spec(self.view()) == Ok::<Option<CoordView>, PomFault<Seq<char>>>(Some(c@)),
                Ok(None) => need_spec(self.view()) == Ok::<Option<CoordView>, PomFault<Seq<char>>>(None),
                Err(e) => need_spec(self.view()) == Err::<Option<CoordView>, PomFault<Seq<char>>>(e@),
            },
    {
        match &self.stage {
            Stage::Parent(p) => match coordinates_of(p) {
                Some(c) => Ok(Some(c)),
                None => Err(PomFault::ParentVersion),
            },
            Stage::Imports(list, k) => if *k < list.len() {
                match coordinates_of(&list[*k]) {
                    Some(c) => Ok(Some(c)),
                    None => Err(PomFault::ImportVersion),
                }
            } else {
                Ok(None)
            },
        }
    }

    /// Takes what it needs from the POM that it needed.
    pub fn supply(self, pom: &XmlFile, system: &Props) -> (r: Assembly)
        requires
            need_spec(self.view()) matches Ok(Some(_)),
        ensures
            r.view() == supply_spec(self.view(), pom.view(), system@),
    {
        let mut xml = self.xml;
        match self.stage {
            Stage::Parent(_) => {
                xml.merge_pom(pom);
                settle(&mut xml, system);
                let list = imports(&xml);
                Assembly { xml, stage: Stage::Imports(list, 0) }
            },
            Stage::Imports(list, k) => {
                take_import(&mut xml, pom, system);
                let next: usize = if k < list.len() { k + 1 } else { k };
                Assembly { xml, stage: Stage::Imports(list, next) }
            },
        }
    }

    /// The POM, once nothing more is needed.
    pub fn finish(self, base: &XmlFile, system: &Props) -> (r: XmlFile)
        ensures
            r.view() == finish_spec(self.view(), base.view(), system@),
    {
        let mut xml = self.xml;
        xml.merge_pom(base);
        settle(&mut xml, system);
        xml
    }
}

/// How many POMs an assembly still takes before it needs no more.
pub open spec fn still_needed(a: AssemblyView) -> int {
    match a.stage {
        StageView::Parent(_) => 1,
        StageView::Imports(list, k) => list.len() - k,
    }
}

/// Each POM that is supplied brings an assembly on: after its parent it needs its imports
/// only, and each import is needed once.
pub proof fn supply_gets_on(a: AssemblyView, pom: XmlView, system: PropsView)
    requires
        need_spec(a) matches Ok(Some(_)),
    ensures
        supply_spec(a, pom, system).stage is Imports,
        a.stage is Imports ==> 0 <= still_needed(supply_spec(a, pom, system)) == still_needed(a) - 1,
        supply_spec(a, pom, system).stage->Imports_1 == supply_spec(a, pom, system).stage->Imports_0.len() ==> need_spec(
            supply_spec(a, pom, system),
        ) == Ok::<Option<CoordView>, PomFault<Seq<char>>>(None),
{
}

} // verus!
