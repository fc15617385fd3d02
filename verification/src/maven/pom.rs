//! POMs: what a Maven artifact says of itself.
use vstd::prelude::*;
use crate::maven::xml::{find_item, item, items_of_view, items_view, Items, XmlNode, XmlView};
use crate::order::views;
use crate::text::{opt_text, push_text, same};
use crate::types::{
    honest_text, pattern_given, pattern_result, pattern_spec, portable_text, ArtifactId, ArtifactVersion,
    ExclusionPattern, GlobVerdict, GroupId, PatternError,
};

verus! {

/// The scope that a POM gives a dependency.
#[derive(Clone, Copy, Debug, PartialEq, Eq, Structural)]
pub enum DependencyScope {
    Compile,
    Provided,
    Runtime,
    Test,
    System,
    Import,
}

impl Default for DependencyScope {
    fn default() -> (r: DependencyScope)
        ensures
            r == DependencyScope::Compile,
    {
        DependencyScope::Compile
    }
}

/// An artifact that is left out of what a dependency brings in.
#[derive(Debug, PartialEq, Eq)]
pub struct Exclusion {
    pub group_id: GroupId,
    pub artifact_id: ArtifactId,
}

/// A dependency as a POM declares it.
#[derive(Debug, PartialEq, Eq)]
pub struct Dependency {
    pub group_id: GroupId,
    pub artifact_id: ArtifactId,
    pub version: Option<ArtifactVersion>,
    pub scope: DependencyScope,
    pub artifact_type: String,
    pub classifier: Option<String>,
    pub optional: bool,
    pub exclusions: Vec<Exclusion>,
}

/// What a POM says of the versions of dependencies.
#[derive(Debug, PartialEq, Eq)]
pub struct DependencyManagement {
    pub dependencies: Vec<Dependency>,
}

/// The POM that a POM takes over from.
#[derive(Debug, PartialEq, Eq)]
pub struct Parent {
    pub group_id: GroupId,
    pub artifact_id: ArtifactId,
    pub version: Option<ArtifactVersion>,
}

/// A POM.
#[derive(Debug, PartialEq, Eq)]
pub struct Pom {
    pub dependency_management: Option<DependencyManagement>,
    pub dependencies: Vec<Dependency>,
}

/// An exclusion, its texts as characters.
pub struct ExclusionView {
    pub group: Seq<char>,
    pub artifact: Seq<char>,
}

/// A dependency, its texts as characters.
pub struct PomDepView {
    pub group: Seq<char>,
    pub artifact: Seq<char>,
    pub version: Option<Seq<char>>,
    pub scope: DependencyScope,
    pub artifact_type: Seq<char>,
    pub classifier: Option<Seq<char>>,
    pub optional: bool,
    pub exclusions: Seq<ExclusionView>,
}

/// A parent, its texts as characters.
pub struct ParentView {
    pub group: Seq<char>,
    pub artifact: Seq<char>,
    pub version: Option<Seq<char>>,
}

/// A POM, its texts as characters.
pub struct PomView {
    pub managed: Option<Seq<PomDepView>>,
    pub dependencies: Seq<PomDepView>,
}

/// The text behind an optional version.
pub open spec fn version_text(v: Option<ArtifactVersion>) -> Option<Seq<char>> {
    match v {
        Some(x) => Some(x@),
        None => None,
    }
}

impl View for Exclusion {
    type V = ExclusionView;

    open spec fn view(&self) -> ExclusionView {
        ExclusionView { group: self.group_id@, artifact: self.artifact_id@ }
    }
}

impl View for Dependency {
    type V = PomDepView;

    open spec fn view(&self) -> PomDepView {
        PomDepView {
            group: self.group_id@,
            artifact: self.artifact_id@,
            version: version_text(self.version),
            scope: self.scope,
            artifact_type: self.artifact_type@,
            classifier: opt_text(self.classifier),
            optional: self.optional,
            exclusions: views(self.exclusions@),
        }
    }
}

impl View for Parent {
    type V = ParentView;

    open spec fn view(&self) -> ParentView {
        ParentView { group: self.group_id@, artifact: self.artifact_id@, version: version_text(self.version) }
    }
}

impl View for Pom {
    type V = PomView;

    open spec fn view(&self) -> PomView {
        PomView {
            managed: match self.dependency_management {
                Some(m) => Some(views(m.dependencies@)),
                None => None,
            },
            dependencies: views(self.dependencies@),
        }
    }
}

impl Exclusion {
    /// The pattern, and which of its globs were accepted.
    pub(crate) fn read_pattern(&self) -> (r: (Result<ExclusionPattern, PatternError>, Ghost<GlobVerdict>))
        ensures
            honest_text(exclusion_text(self@), r.1@),
            pattern_result(r.0) == pattern_given(exclusion_text(self@), r.1@.0, r.1@.1),
    {
        let mut s = self.group_id.as_str().to_owned();
        s.push(':');
        push_text(&mut s, self.artifact_id.as_str());
        assert(s@ =~= exclusion_text(self@));
        ExclusionPattern::read(s.as_str())
    }

    /// The pattern that matches the excluded artifact: `group:artifact`.
    pub fn to_pattern(&self) -> (r: Result<ExclusionPattern, PatternError>)
        ensures
            exists|v: GlobVerdict|
                #[trigger] honest_text(exclusion_text(self@), v) && pattern_result(r) == pattern_given(
                    exclusion_text(self@),
                    v.0,
                    v.1,
                ),
            portable_text(exclusion_text(self@)) ==> pattern_result(r) == pattern_spec(exclusion_text(self@)),
    {
        let (r, v) = self.read_pattern();
        assert(honest_text(exclusion_text(self@), v@));
        r
    }
}

/// The text `group:artifact` of an exclusion.
pub open spec fn exclusion_text(e: ExclusionView) -> Seq<char> {
    e.group + seq![':'] + e.artifact
}

/// Whether there is at most one child of a name.
pub open spec fn at_most_one(c: Items, name: Seq<char>) -> bool {
    forall|i: int, j: int|
        0 <= i < j < c.len() ==> !((#[trigger] c[i]).0 == name && (#[trigger] c[j]).0 == name)
}

/// What a field is that may be missing: a text, nothing, or not to be read.
pub open spec fn text_field(c: Items, name: Seq<char>) -> Option<Option<Seq<char>>> {
    if !at_most_one(c, name) {
        None
    } else {
        match item(c, name) {
            None => Some(None),
            Some(XmlView::Text(t)) => Some(Some(t)),
            Some(XmlView::Children(_)) => None,
        }
    }
}

/// What a field is that must not be missing.
pub open spec fn required_field(c: Items, name: Seq<char>) -> Option<Seq<char>> {
    match text_field(c, name) {
        Some(Some(t)) => Some(t),
        _ => None,
    }
}

/// The exclusion that a node is.
pub open spec fn read_exclusion(x: XmlView) -> Option<ExclusionView> {
    match x {
        XmlView::Text(_) => None,
        XmlView::Children(c) => match (required_field(c, "groupId"@), required_field(c, "artifactId"@)) {
            (Some(group), Some(artifact)) => Some(ExclusionView { group, artifact }),
            _ => None,
        },
    }
}

/// The exclusions that nodes are, where all of them are.
pub open spec fn read_exclusions(c: Items) -> Option<Seq<ExclusionView>>
    decreases c.len(),
{
    if c.len() == 0 {
        Some(Seq::empty())
    } else {
        match (read_exclusions(c.drop_last()), read_exclusion(c.last().1)) {
            (Some(s), Some(e)) => Some(s.push(e)),
            _ => None,
        }
    }
}

/// What the field of the exclusions is.
pub open spec fn exclusions_field(c: Items) -> Option<Seq<ExclusionView>> {
    if !at_most_one(c, "exclusions"@) {
        None
    } else {
        match item(c, "exclusions"@) {
            None => Some(Seq::empty()),
            Some(XmlView::Text(_)) => None,
            Some(XmlView::Children(d)) => read_exclusions(d),
        }
    }
}

/// The scope that a word names.
pub open spec fn pom_word(s: Seq<char>) -> Option<DependencyScope> {
    if s == "compile"@ {
        Some(DependencyScope::Compile)
    } else if s == "provided"@ {
        Some(DependencyScope::Provided)
    } else if s == "runtime"@ {
        Some(DependencyScope::Runtime)
    } else if s == "test"@ {
        Some(DependencyScope::Test)
    } else if s == "system"@ {
        Some(DependencyScope::System)
    } else if s == "import"@ {
        Some(DependencyScope::Import)
    } else {
        None
    }
}

/// What the field of the scope is.
pub open spec fn scope_field(c: Items) -> Option<DependencyScope> {
    match text_field(c, "scope"@) {
        None => None,
        Some(None) => Some(DependencyScope::Compile),
        Some(Some(s)) => pom_word(s),
    }
}

/// The dependency that a node is. A node with an `optional` field is not to be read:
/// the field holds a text, and a text is no truth value.
pub open spec fn read_dependency(x: XmlView) -> Option<PomDepView> {
    match x {
        XmlView::Text(_) => None,
        XmlView::Children(c) => match (
            required_field(c, "groupId"@),
            required_field(c, "artifactId"@),
            text_field(c, "version"@),
            scope_field(c),
            text_field(c, "type"@),
            text_field(c, "classifier"@),
            item(c, "optional"@),
            exclusions_field(c),
        ) {
            (
                Some(group),
                Some(artifact),
                Some(version),
                Some(scope),
                Some(kind),
                Some(classifier),
                None,
                Some(exclusions),
            ) => Some(
                PomDepView {
                    group,
                    artifact,
                    version,
                    scope,
                    artifact_type: match kind {
                        Some(t) => t,
                        None => "jar"@,
                    },
                    classifier,
                    optional: false,
                    exclusions,
                },
            ),
            _ => None,
        },
    }
}

/// The dependencies that nodes are, where all of them are.
pub open spec fn read_items(c: Items) -> Option<Seq<PomDepView>>
    decreases c.len(),
{
    if c.len() == 0 {
        Some(Seq::empty())
    } else {
        match (read_items(c.drop_last()), read_dependency(c.last().1)) {
            (Some(s), Some(d)) => Some(s.push(d)),
            _ => None,
        }
    }
}

/// The dependencies that the children of a node are.
pub open spec fn read_dependencies(x: XmlView) -> Option<Seq<PomDepView>> {
    match x {
        XmlView::Text(_) => None,
        XmlView::Children(c) => read_items(c),
    }
}

/// The managed dependencies that a node lists.
pub open spec fn read_management(x: XmlView) -> Option<Seq<PomDepView>> {
    match x {
        XmlView::Text(_) => None,
        XmlView::Children(c) => if !at_most_one(c, "dependencies"@) {
            None
        } else {
            match item(c, "dependencies"@) {
                None => None,
                Some(y) => read_dependencies(y),
            }
        },
    }
}

/// What the field of the managed dependencies is.
pub open spec fn management_field(c: Items) -> Option<Option<Seq<PomDepView>>> {
    if !at_most_one(c, "dependencyManagement"@) {
        None
    } else {
        match item(c, "dependencyManagement"@) {
            None => Some(None),
            Some(y) => match read_management(y) {
                Some(s) => Some(Some(s)),
                None => None,
            },
        }
    }
}

/// What the field of the dependencies is.
pub open spec fn dependencies_field(c: Items) -> Option<Seq<PomDepView>> {
    if !at_most_one(c, "dependencies"@) {
        None
    } else {
        match item(c, "dependencies"@) {
            None => Some(Seq::empty()),
            Some(y) => read_dependencies(y),
        }
    }
}

/// The POM that a node is.
pub open spec fn read_pom(x: XmlView) -> Option<PomView> {
    match x {
        XmlView::Text(_) => None,
        XmlView::Children(c) => match (management_field(c), dependencies_field(c)) {
            (Some(managed), Some(dependencies)) => Some(PomView { managed, dependencies }),
            _ => None,
        },
    }
}

/// The parent that a node is.
pub open spec fn read_parent(x: XmlView) -> Option<ParentView> {
    match x {
        XmlView::Text(_) => None,
        XmlView::Children(c) => match (
            required_field(c, "groupId"@),
            required_field(c, "artifactId"@),
            text_field(c, "version"@),
        ) {
            (Some(group), Some(artifact), Some(version)) => Some(ParentView { group, artifact, version }),
            _ => None,
        },
    }
}

/// Whether there is at most one child of a name.
fn is_single(c: &Vec<(String, XmlNode)>, name: &str) -> (r: bool)
    ensures
        r == at_most_one(items_view(c@), name@),
{
    let ghost v = items_view(c@);
    let mut found: Option<usize> = None;
    let mut i: usize = 0;
    while i < c.len()
        invariant
            i <= c@.len(),
            v == items_view(c@),
            match found {
                None => forall|k: int| 0 <= k < i ==> (#[trigger] v[k]).0 != name@,
                Some(f) => f < i && v[f as int].0 == name@ && forall|k: int|
                    0 <= k < i && k != f ==> (#[trigger] v[k]).0 != name@,
            },
        decreases c@.len() - i,
    {
        assert(v[i as int].0 == c@[i as int].0@);
        if same(c[i].0.as_str(), name) {
            match found {
                Some(f) => {
                    assert(v[f as int].0 == name@ && v[i as int].0 == name@);
                    return false;
                },
                None => {
                    found = Some(i);
                },
            }
        }
        i = i + 1;
    }
    true
}

/// The first child of a name.
fn child<'a>(c: &'a Vec<(String, XmlNode)>, name: &str) -> (r: Option<&'a XmlNode>)
    ensures
        match r {
            Some(n) => item(items_view(c@), name@) == Some(n.view()),
            None => item(items_view(c@), name@) is None,
        },
{
    let i: usize = find_item(c, name);
    if i < c.len() {
        assert(items_view(c@)[i as int].1 == c@[i as int].1.view());
        Some(&c[i].1)
    } else {
        None
    }
}

/// A field that may be missing.
fn field(c: &Vec<(String, XmlNode)>, name: &str) -> (r: Option<Option<String>>)
    ensures
        match r {
            Some(t) => text_field(items_view(c@), name@) == Some(opt_text(t)),
            None => text_field(items_view(c@), name@) is None,
        },
{
    if !is_single(c, name) {
        return None;
    }
    match child(c, name) {
        None => Some(None),
        Some(XmlNode::Text(t)) => Some(Some(t.clone())),
        Some(XmlNode::Children(_)) => None,
    }
}

/// A field that must not be missing.
fn needed(c: &Vec<(String, XmlNode)>, name: &str) -> (r: Option<String>)
    ensures
        opt_text(r) == required_field(items_view(c@), name@),
{
    match field(c, name) {
        Some(Some(t)) => Some(t),
        _ => None,
    }
}

fn to_version(v: Option<String>) -> (r: Option<ArtifactVersion>)
    ensures
        version_text(r) == opt_text(v),
{
    match v {
        Some(s) => Some(ArtifactVersion::verbatim(s)),
        None => None,
    }
}

fn parse_exclusion(x: &XmlNode) -> (r: Option<Exclusion>)
    ensures
        match r {
            Some(e) => read_exclusion(x.view()) == Some(e@),
            None => read_exclusion(x.view()) is None,
        },
{
    match x {
        XmlNode::Text(_) => None,
        XmlNode::Children(c) => {
            proof {
                items_of_view(*c);
            }
            match (needed(c, "groupId"), needed(c, "artifactId")) {
                (Some(g), Some(a)) => Some(Exclusion { group_id: GroupId::new(g), artifact_id: ArtifactId::new(a) }),
                _ => None,
            }
        },
    }
}

/// Where one node is not to be read, the list is not.
proof fn read_exclusions_none(c: Items, i: int)
    requires
        0 <= i < c.len(),
        read_exclusion(c[i].1) is None,
    ensures
        read_exclusions(c) is None,
    decreases c.len(),
{
    if i < c.len() - 1 {
        assert(c.drop_last()[i] == c[i]);
        read_exclusions_none(c.drop_last(), i);
    }
}

fn parse_exclusions(c: &Vec<(String, XmlNode)>) -> (r: Option<Vec<Exclusion>>)
    ensures
        match r {
            Some(e) => read_exclusions(items_view(c@)) == Some(views(e@)),
            None => read_exclusions(items_view(c@)) is None,
        },
{
    let ghost v = items_view(c@);
    let mut out: Vec<Exclusion> = Vec::new();
    let mut i: usize = 0;
    assert(v.take(0) =~= Seq::empty());
    assert(views(out@) =~= Seq::empty());
    while i < c.len()
        invariant
            i <= c@.len(),
            v == items_view(c@),
            read_exclusions(v.take(i as int)) == Some(views(out@)),
        decreases c@.len() - i,
    {
        assert(v[i as int].1 == c@[i as int].1.view());
        assert(v.take(i + 1).drop_last() =~= v.take(i as int));
        match parse_exclusion(&c[i].1) {
            None => {
                proof {
                    read_exclusions_none(v, i as int);
                }
                return None;
            },
            Some(e) => {
                let ghost before = out@;
                out.push(e);
                assert(views(out@) =~= views(before).push(out@.last()@));
            },
        }
        i = i + 1;
    }
    assert(v.take(i as int) =~= v);
    Some(out)
}

fn parse_exclusions_field(c: &Vec<(String, XmlNode)>) -> (r: Option<Vec<Exclusion>>)
    ensures
        match r {
            Some(e) => exclusions_field(items_view(c@)) == Some(views(e@)),
            None => exclusions_field(items_view(c@)) is None,
        },
{
    if !is_single(c, "exclusions") {
        return None;
    }
    match child(c, "exclusions") {
        None => {
            let none: Vec<Exclusion> = Vec::new();
            assert(views(none@) =~= Seq::empty());
            Some(none)
        },
        Some(XmlNode::Text(_)) => None,
        Some(XmlNode::Children(d)) => {
            proof {
                items_of_view(*d);
            }
            parse_exclusions(d)
        },
    }
}

impl DependencyScope {
    pub fn from_str(s: &str) -> (r: Option<DependencyScope>)
        ensures
            r == pom_word(s@),
    {
        if same(s, "compile") {
            Some(DependencyScope::Compile)
        } else if same(s, "provided") {
            Some(DependencyScope::Provided)
        } else if same(s, "runtime") {
            Some(DependencyScope::Runtime)
        } else if same(s, "test") {
            Some(DependencyScope::Test)
        } else if same(s, "system") {
            Some(DependencyScope::System)
        } else if same(s, "import") {
            Some(DependencyScope::Import)
        } else {
            None
        }
    }
}

fn parse_scope_field(c: &Vec<(String, XmlNode)>) -> (r: Option<DependencyScope>)
    ensures
        r == scope_field(items_view(c@)),
{
    match field(c, "scope") {
        None => None,
        Some(None) => Some(DependencyScope::Compile),
        Some(Some(s)) => DependencyScope::from_str(s.as_str()),
    }
}

/// The dependency that a node is.
pub fn parse_dependency(x: &XmlNode) -> (r: Option<Dependency>)
    ensures
        match r {
            Some(d) => read_dependency(x.view()) == Some(d@),
            None => read_dependency(x.view()) is None,
        },
{
    let c = match x {
        XmlNode::Text(_) => {
            return None;
        },
        XmlNode::Children(c) => c,
    };
    proof {
        items_of_view(*c);
    }
    let group = match needed(c, "groupId") {
        Some(g) => g,
        None => {
            return None;
        },
    };
    let artifact = match needed(c, "artifactId") {
        Some(a) => a,
        None => {
            return None;
        },
    };
    let version = match field(c, "version") {
        Some(v) => v,
        None => {
            return None;
        },
    };
    let scope = match parse_scope_field(c) {
        Some(s) => s,
        None => {
            return None;
        },
    };
    let artifact_type = match field(c, "type") {
        Some(Some(t)) => t,
        Some(None) => "jar".to_owned(),
        None => {
            return None;
        },
    };
    let classifier = match field(c, "classifier") {
        Some(t) => t,
        None => {
            return None;
        },
    };
    if child(c, "optional").is_some() {
        return None;
    }
    let exclusions = match parse_exclusions_field(c) {
        Some(e) => e,
        None => {
            return None;
        },
    };
    Some(
        Dependency {
            group_id: GroupId::new(group),
            artifact_id: ArtifactId::new(artifact),
            version: to_version(version),
            scope,
            artifact_type,
            classifier,
            optional: false,
            exclusions,
        },
    )
}

/// Where one node is not to be read, the list is not.
proof fn read_items_none(c: Items, i: int)
    requires
        0 <= i < c.len(),
        read_dependency(c[i].1) is None,
    ensures
        read_items(c) is None,
    decreases c.len(),
{
    if i < c.len() - 1 {
        assert(c.drop_last()[i] == c[i]);
        read_items_none(c.drop_last(), i);
    }
}

/// The dependencies that the children of a node are.
pub fn parse_dependencies(x: &XmlNode) -> (r: Option<Vec<Dependency>>)
    ensures
        match r {
            Some(d) => read_dependencies(x.view()) == Some(views(d@)),
            None => read_dependencies(x.view()) is None,
        },
{
    let c = match x {
        XmlNode::Text(_) => {
            return None;
        },
        XmlNode::Children(c) => c,
    };
    proof {
        items_of_view(*c);
    }
    let ghost v = items_view(c@);
    let mut out: Vec<Dependency> = Vec::new();
    let mut i: usize = 0;
    assert(v.take(0) =~= Seq::empty());
    assert(views(out@) =~= Seq::empty());
    while i < c.len()
        invariant
            i <= c@.len(),
            v == items_view(c@),
            x.view() == XmlView::Children(v),
            read_items(v.take(i as int)) == Some(views(out@)),
        decreases c@.len() - i,
    {
        assert(v[i as int].1 == c@[i as int].1.view());
        assert(v.take(i + 1).drop_last() =~= v.take(i as int));
        match parse_dependency(&c[i].1) {
            None => {
                proof {
                    read_items_none(v, i as int);
                }
                return None;
            },
            Some(d) => {
                let ghost before = out@;
                out.push(d);
                assert(views(out@) =~= views(before).push(out@.last()@));
            },
        }
        i = i + 1;
    }
    assert(v.take(i as int) =~= v);
    Some(out)
}

/// A node that is not what it was read as.
#[derive(Clone, Copy, Debug, PartialEq, Eq, Structural)]
pub struct Mismatch;

/// A type that nodes can be read as.
pub trait FromXml: Sized {
    /// What a value says.
    type Said;

    /// What a value says.
    spec fn said(&self) -> Self::Said;

    /// What a node says, where it can be read.
    spec fn read_spec(x: XmlView) -> Option<Self::Said>;

    /// Reads a node.
    fn read(x: &XmlNode) -> (r: Result<Self, Mismatch>)
        ensures
            match r {
                Ok(t) => Self::read_spec(x.view()) == Some(t.said()),
                Err(_) => Self::read_spec(x.view()) is None,
            },
    ;
}

impl FromXml for Vec<Dependency> {
    type Said = Seq<PomDepView>;

    open spec fn said(&self) -> Seq<PomDepView> {
        views(self@)
    }

    open spec fn read_spec(x: XmlView) -> Option<Seq<PomDepView>> {
        read_dependencies(x)
    }

    fn read(x: &XmlNode) -> (r: Result<Self, Mismatch>) {
        match parse_dependencies(x) {
            Some(d) => Ok(d),
            None => Err(Mismatch),
        }
    }
}

impl FromXml for Parent {
    type Said = ParentView;

    open spec fn said(&self) -> ParentView {
        self@
    }

    open spec fn read_spec(x: XmlView) -> Option<ParentView> {
        read_parent(x)
    }

    fn read(x: &XmlNode) -> (r: Result<Self, Mismatch>) {
        match x {
            XmlNode::Text(_) => Err(Mismatch),
            XmlNode::Children(c) => {
                proof {
                    items_of_view(*c);
                }
                match (needed(c, "groupId"), needed(c, "artifactId"), field(c, "version")) {
                    (Some(g), Some(a), Some(v)) => Ok(
                        Parent {
                            group_id: GroupId::new(g),
                            artifact_id: ArtifactId::new(a),
                            version: to_version(v),
                        },
                    ),
                    _ => Err(Mismatch),
                }
            },
        }
    }
}

impl FromXml for DependencyManagement {
    type Said = Seq<PomDepView>;

    open spec fn said(&self) -> Seq<PomDepView> {
        views(self.dependencies@)
    }

    open spec fn read_spec(x: XmlView) -> Option<Seq<PomDepView>> {
        read_management(x)
    }

    fn read(x: &XmlNode) -> (r: Result<Self, Mismatch>) {
        match x {
            XmlNode::Text(_) => Err(Mismatch),
            XmlNode::Children(c) => {
                proof {
                    items_of_view(*c);
                }
                if !is_single(c, "dependencies") {
                    return Err(Mismatch);
                }
                match child(c, "dependencies") {
                    None => Err(Mismatch),
                    Some(y) => match parse_dependencies(y) {
                        Some(dependencies) => Ok(DependencyManagement { dependencies }),
                        None => Err(Mismatch),
                    },
                }
            },
        }
    }
}

impl FromXml for Pom {
    type Said = PomView;

    open spec fn said(&self) -> PomView {
        self@
    }

    open spec fn read_spec(x: XmlView) -> Option<PomView> {
        read_pom(x)
    }

    fn read(x: &XmlNode) -> (r: Result<Self, Mismatch>) {
        let c = match x {
            XmlNode::Text(_) => {
                return Err(Mismatch);
            },
            XmlNode::Children(c) => c,
        };
        proof {
            items_of_view(*c);
        }
        if !is_single(c, "dependencyManagement") || !is_single(c, "dependencies") {
            return Err(Mismatch);
        }
        let dependency_management = match child(c, "dependencyManagement") {
            None => None,
            Some(y) => match DependencyManagement::read(y) {
                Ok(m) => Some(m),
                Err(_) => {
                    return Err(Mismatch);
                },
            },
        };
        let dependencies = match child(c, "dependencies") {
            None => {
                let none: Vec<Dependency> = Vec::new();
                assert(views(none@) =~= Seq::empty());
                none
            },
            Some(y) => match parse_dependencies(y) {
                Some(d) => d,
                None => {
                    return Err(Mismatch);
                },
            },
        };
        Ok(Pom { dependency_management, dependencies })
    }
}

impl XmlNode {
    /// Reads the node as a value of a type.
    pub fn read_as<T: FromXml>(&self) -> (r: Result<T, Mismatch>)
        ensures
            match r {
                Ok(t) => T::read_spec(self.view()) == Some(t.said()),
                Err(_) => T::read_spec(self.view()) is None,
            },
    {
        T::read(self)
    }
}

} // verus!
