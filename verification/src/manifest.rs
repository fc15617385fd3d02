//! The manifest of a project, `borneo.kdl`.
use vstd::prelude::*;
use crate::maven::MAVEN_REPO;
use crate::document::{
    args_of, children_view, find_node, first_arg, kdl_parse, node_arg, opt_value, prop_of, text_of,
    text_value, texts_among, Document, Node, NodeView, Value, ValueView,
};
use crate::order::{put, put_all, views, Duplicate, OrdSet};
use crate::paths::{place, placed};
use crate::text::{
    copy_opt, number_spec, opt_text, parse_number, push_texts, same, texts,
};
use crate::types::{
    pattern_given, portable_text, text_verdict, ArtifactCoordinates, ArtifactId, ArtifactType,
    ArtifactVersion, GlobVerdict, CoordError, CoordView, ExclusionPattern, GroupId,
    PatternError, PatternView, coord_spec,
};

pub mod lock;

verus! {

/// What a dependency is for.
#[derive(Clone, Copy, Debug, PartialEq, Eq, Structural, Hash)]
pub enum Scope {
    Compile,
    Runtime,
    Provided,
    Processor,
    Test,
}

/// A scope that a POM hands on to those who depend on it.
#[derive(Clone, Copy, Debug, PartialEq, Eq, Structural, Hash)]
pub enum PomScope {
    Compile,
    Runtime,
}

/// A word that names no scope.
#[derive(Clone, Copy, Debug, PartialEq, Eq, Structural)]
pub struct UnknownScope;

impl View for Scope {
    type V = Scope;

    open spec fn view(&self) -> Scope {
        *self
    }
}

impl View for PomScope {
    type V = PomScope;

    open spec fn view(&self) -> PomScope {
        *self
    }
}

impl Duplicate for Scope {
    fn duplicate(&self) -> (r: Scope) {
        *self
    }
}

impl Duplicate for PomScope {
    fn duplicate(&self) -> (r: PomScope) {
        *self
    }
}

/// How far a scope reaches: the greater, the wider.
pub open spec fn scope_rank(s: Scope) -> u8 {
    match s {
        Scope::Compile => 4,
        Scope::Runtime => 3,
        Scope::Provided | Scope::Processor => 2,
        Scope::Test => 0,
    }
}

/// The word for a scope.
pub open spec fn scope_name(s: Scope) -> Seq<char> {
    match s {
        Scope::Compile => "compile"@,
        Scope::Runtime => "runtime"@,
        Scope::Provided => "provided"@,
        Scope::Processor => "processor"@,
        Scope::Test => "test"@,
    }
}

/// The scope that a word names.
pub open spec fn scope_of(s: Seq<char>) -> Option<Scope> {
    if s == "compile"@ {
        Some(Scope::Compile)
    } else if s == "runtime"@ {
        Some(Scope::Runtime)
    } else if s == "provided"@ {
        Some(Scope::Provided)
    } else if s == "processor"@ {
        Some(Scope::Processor)
    } else if s == "test"@ {
        Some(Scope::Test)
    } else {
        None
    }
}

/// The words for the scopes all differ.
pub proof fn scope_words()
    ensures
        "compile"@ != "runtime"@,
        "compile"@ != "provided"@,
        "compile"@ != "processor"@,
        "compile"@ != "test"@,
        "runtime"@ != "provided"@,
        "runtime"@ != "processor"@,
        "runtime"@ != "test"@,
        "provided"@ != "processor"@,
        "provided"@ != "test"@,
        "processor"@ != "test"@,
        "exclude"@ != "compile"@,
        "exclude"@ != "runtime"@,
{
    reveal_strlit("compile");
    reveal_strlit("runtime");
    reveal_strlit("provided");
    reveal_strlit("processor");
    reveal_strlit("test");
    reveal_strlit("exclude");
    assert("compile"@[0] != "runtime"@[0]);
    assert("provided"@.len() == 8 && "processor"@.len() == 9 && "test"@.len() == 4);
    assert("compile"@.len() == 7 && "runtime"@.len() == 7);
    assert("exclude"@[0] != "compile"@[0]);
    assert("exclude"@[0] != "runtime"@[0]);
}

/// The word for a scope names that scope.
pub proof fn scope_round_trip(s: Scope)
    ensures
        scope_of(scope_name(s)) == Some(s),
{
    scope_words();
}

impl Scope {
    pub fn rank(self) -> (r: u8)
        ensures
            r == scope_rank(self),
    {
        match self {
            Scope::Compile => 4,
            Scope::Runtime => 3,
            Scope::Provided | Scope::Processor => 2,
            Scope::Test => 0,
        }
    }

    pub fn to_string(&self) -> (r: String)
        ensures
            r@ == scope_name(*self),
    {
        match self {
            Scope::Compile => "compile".to_owned(),
            Scope::Runtime => "runtime".to_owned(),
            Scope::Provided => "provided".to_owned(),
            Scope::Processor => "processor".to_owned(),
            Scope::Test => "test".to_owned(),
        }
    }

    pub fn from_str(s: &str) -> (r: Result<Scope, UnknownScope>)
        ensures
            match r {
                Ok(x) => scope_of(s@) == Some(x),
                Err(_) => scope_of(s@) is None,
            },
    {
        if same(s, "compile") {
            Ok(Scope::Compile)
        } else if same(s, "runtime") {
            Ok(Scope::Runtime)
        } else if same(s, "provided") {
            Ok(Scope::Provided)
        } else if same(s, "processor") {
            Ok(Scope::Processor)
        } else if same(s, "test") {
            Ok(Scope::Test)
        } else {
            Err(UnknownScope)
        }
    }
}

impl Default for Scope {
    fn default() -> (r: Scope)
        ensures
            r == Scope::Compile,
    {
        Scope::Compile
    }
}

/// The word for a scope of a POM.
pub open spec fn pom_scope_name(s: PomScope) -> Seq<char> {
    match s {
        PomScope::Compile => "compile"@,
        PomScope::Runtime => "runtime"@,
    }
}

/// The scope of a POM that a word names.
pub open spec fn pom_scope_of(s: Seq<char>) -> Option<PomScope> {
    if s == "compile"@ {
        Some(PomScope::Compile)
    } else if s == "runtime"@ {
        Some(PomScope::Runtime)
    } else {
        None
    }
}

/// The word for a scope of a POM names that scope.
pub proof fn pom_scope_round_trip(s: PomScope)
    ensures
        pom_scope_of(pom_scope_name(s)) == Some(s),
{
    scope_words();
}

impl PomScope {
    pub fn to_string(&self) -> (r: String)
        ensures
            r@ == pom_scope_name(*self),
    {
        match self {
            PomScope::Compile => "compile".to_owned(),
            PomScope::Runtime => "runtime".to_owned(),
        }
    }

    pub fn from_str(s: &str) -> (r: Result<PomScope, UnknownScope>)
        ensures
            match r {
                Ok(x) => pom_scope_of(s@) == Some(x),
                Err(_) => pom_scope_of(s@) is None,
            },
    {
        if same(s, "compile") {
            Ok(PomScope::Compile)
        } else if same(s, "runtime") {
            Ok(PomScope::Runtime)
        } else {
            Err(UnknownScope)
        }
    }
}

/// The scope of what a dependency of a scope depends on.
pub open spec fn mediate_spec(parent: Scope, pom: PomScope) -> Scope {
    if parent == Scope::Compile && pom == PomScope::Runtime {
        Scope::Runtime
    } else {
        parent
    }
}

/// The scope of what a dependency of a scope depends on.
pub fn mediate(parent_scope: Scope, pom_scope: PomScope) -> (r: Scope)
    ensures
        r == mediate_spec(parent_scope, pom_scope),
{
    match (parent_scope, pom_scope) {
        (Scope::Compile, PomScope::Compile) => Scope::Compile,
        (Scope::Compile, PomScope::Runtime) => Scope::Runtime,
        (Scope::Provided, _) => Scope::Provided,
        (Scope::Processor, _) => Scope::Processor,
        (Scope::Runtime, _) => Scope::Runtime,
        (Scope::Test, _) => Scope::Test,
    }
}

/// No dependency reaches farther than what brought it in, a wider parent never
/// gives a narrower child, and only a compile dependency is narrowed.
pub proof fn mediate_never_widens(a: Scope, b: Scope, pom: PomScope)
    ensures
        scope_rank(mediate_spec(a, pom)) <= scope_rank(a),
        scope_rank(a) <= scope_rank(b) ==> scope_rank(mediate_spec(a, pom)) <= scope_rank(mediate_spec(b, pom)),
        a != Scope::Compile ==> mediate_spec(a, pom) == a,
        mediate_spec(mediate_spec(a, pom), pom) == mediate_spec(a, pom),
{
}

/// What a build leaves behind.
#[derive(Clone, Copy, Debug, PartialEq, Eq, Structural)]
pub enum Packaging {
    Dir,
    Jar,
}

impl Default for Packaging {
    fn default() -> (r: Packaging)
        ensures
            r == Packaging::Jar,
    {
        Packaging::Jar
    }
}

/// What is made of a checksum that is missing or does not match.
#[derive(Clone, Copy, Debug, PartialEq, Eq, Structural)]
pub enum ChecksumPolicy {
    Required,
    Fail,
    Warn,
    Ignore,
}

impl Default for ChecksumPolicy {
    fn default() -> (r: ChecksumPolicy)
        ensures
            r == ChecksumPolicy::Fail,
    {
        ChecksumPolicy::Fail
    }
}

/// How repositories are searched.
#[derive(Clone, Copy, Debug, PartialEq, Eq, Structural)]
pub enum RepoStrategy {
    /// All at once.
    Race,
    /// One after the other.
    Sequential,
}

impl Default for RepoStrategy {
    fn default() -> (r: RepoStrategy)
        ensures
            r == RepoStrategy::Race,
    {
        RepoStrategy::Race
    }
}

/// A repository.
#[derive(Debug, PartialEq, Eq)]
pub struct RepoEntry {
    pub url: String,
    pub checksum_policy: ChecksumPolicy,
}

/// A repository, its address as characters.
pub struct RepoView {
    pub url: Seq<char>,
    pub checksum_policy: ChecksumPolicy,
}

impl View for RepoEntry {
    type V = RepoView;

    open spec fn view(&self) -> RepoView {
        RepoView { url: self.url@, checksum_policy: self.checksum_policy }
    }
}

/// The repositories to search, in order.
#[derive(Debug, PartialEq, Eq)]
pub struct Repositories {
    pub strategy: RepoStrategy,
    pub entries: Vec<RepoEntry>,
}

/// Repositories, their addresses as characters.
pub struct ReposView {
    pub strategy: RepoStrategy,
    pub entries: Seq<RepoView>,
}

impl View for Repositories {
    type V = ReposView;

    open spec fn view(&self) -> ReposView {
        ReposView { strategy: self.strategy, entries: views(self.entries@) }
    }
}

/// Maven Central, as it is where the manifest does not name it.
pub open spec fn central() -> RepoView {
    RepoView { url: MAVEN_REPO@, checksum_policy: ChecksumPolicy::Fail }
}

fn central_entry(checksum_policy: ChecksumPolicy) -> (r: RepoEntry)
    ensures
        r@ == (RepoView { url: MAVEN_REPO@, checksum_policy }),
{
    RepoEntry { url: MAVEN_REPO.to_owned(), checksum_policy }
}

impl Default for Repositories {
    fn default() -> (r: Repositories)
        ensures
            r@ == (ReposView { strategy: RepoStrategy::Race, entries: seq![central()] }),
    {
        let mut entries: Vec<RepoEntry> = Vec::new();
        entries.push(central_entry(ChecksumPolicy::Fail));
        assert(views(entries@) =~= seq![central()]);
        Repositories { strategy: RepoStrategy::Race, entries }
    }
}

/// The policy of the first repository with an address, or the default.
pub open spec fn policy_spec(entries: Seq<RepoView>, url: Seq<char>) -> ChecksumPolicy
    decreases entries.len(),
{
    if entries.len() == 0 {
        ChecksumPolicy::Fail
    } else if entries[0].url == url {
        entries[0].checksum_policy
    } else {
        policy_spec(entries.drop_first(), url)
    }
}

impl Repositories {
    /// What is asked of what comes from an address.
    pub fn policy_of(&self, url: &str) -> (r: ChecksumPolicy)
        ensures
            r == policy_spec(self@.entries, url@),
    {
        let ghost e = self@.entries;
        let mut i: usize = 0;
        assert(e.skip(0) =~= e);
        while i < self.entries.len()
            invariant
                i <= e.len(),
                e == views(self.entries@),
                e == self@.entries,
                policy_spec(e, url@) == policy_spec(e.skip(i as int), url@),
            decreases e.len() - i,
        {
            assert(e.skip(i as int)[0] == self.entries@[i as int]@);
            if same(self.entries[i].url.as_str(), url) {
                return self.entries[i].checksum_policy;
            }
            assert(e.skip(i as int).drop_first() =~= e.skip(i + 1));
            i = i + 1;
        }
        ChecksumPolicy::Fail
    }

    pub fn entries(&self) -> (r: &Vec<RepoEntry>)
        ensures
            views(r@) == self@.entries,
    {
        &self.entries
    }

    /// The addresses of the repositories, in order.
    pub fn urls(&self) -> (r: Vec<String>)
        ensures
            texts(r@) == self@.entries.map_values(|e: RepoView| e.url),
    {
        let mut out: Vec<String> = Vec::new();
        let mut i: usize = 0;
        while i < self.entries.len()
            invariant
                i <= self.entries@.len(),
                out@.len() == i,
                forall|k: int| 0 <= k < i ==> (#[trigger] out@[k])@ == self.entries@[k].url@,
            decreases self.entries@.len() - i,
        {
            out.push(self.entries[i].url.clone());
            i = i + 1;
        }
        assert(texts(out@) =~= self@.entries.map_values(|e: RepoView| e.url));
        out
    }
}

/// How Java sources are compiled.
#[derive(Debug, PartialEq, Eq)]
pub struct JavaConfig {
    pub release: Option<u32>,
    pub compiler_args: Vec<String>,
}

/// A Java configuration, its texts as characters.
pub struct JavaView {
    pub release: Option<u32>,
    pub compiler_args: Seq<Seq<char>>,
}

impl View for JavaConfig {
    type V = JavaView;

    open spec fn view(&self) -> JavaView {
        JavaView { release: self.release, compiler_args: texts(self.compiler_args@) }
    }
}

/// The configuration where the manifest has no `java` node.
pub open spec fn no_java() -> JavaView {
    JavaView { release: None, compiler_args: Seq::empty() }
}

impl Default for JavaConfig {
    fn default() -> (r: JavaConfig)
        ensures
            r@ == no_java(),
    {
        let compiler_args: Vec<String> = Vec::new();
        assert(texts(compiler_args@) =~= Seq::empty());
        JavaConfig { release: None, compiler_args }
    }
}

/// Where tests are and how they are run.
#[derive(Debug, PartialEq, Eq)]
pub struct TestConfig {
    pub source: String,
    pub resources: String,
    pub jvm_args: Vec<String>,
}

/// A test configuration, its texts as characters.
pub struct TestView {
    pub source: Seq<char>,
    pub resources: Seq<char>,
    pub jvm_args: Seq<Seq<char>>,
}

impl View for TestConfig {
    type V = TestView;

    open spec fn view(&self) -> TestView {
        TestView { source: self.source@, resources: self.resources@, jvm_args: texts(self.jvm_args@) }
    }
}

/// The configuration where the manifest has no `test` node.
pub open spec fn no_test() -> TestView {
    TestView { source: "src/test/java"@, resources: "src/test/resources"@, jvm_args: Seq::empty() }
}

impl Default for TestConfig {
    fn default() -> (r: TestConfig)
        ensures
            r@ == no_test(),
    {
        let jvm_args: Vec<String> = Vec::new();
        assert(texts(jvm_args@) =~= Seq::empty());
        TestConfig {
            source: "src/test/java".to_owned(),
            resources: "src/test/resources".to_owned(),
            jvm_args,
        }
    }
}

/// What is bundled into the artifact.
#[derive(Debug, PartialEq, Eq)]
pub struct ShadowConfig {
    /// The dependencies that are left out.
    pub exclusions: OrdSet<ExclusionPattern>,
}

/// A text under a key.
#[derive(Debug, PartialEq, Eq)]
pub struct Attribute {
    pub key: String,
    pub value: String,
}

impl View for Attribute {
    type V = (Seq<char>, Seq<char>);

    open spec fn view(&self) -> (Seq<char>, Seq<char>) {
        (self.key@, self.value@)
    }
}

/// How the artifact is built.
#[derive(Debug, PartialEq, Eq)]
pub struct BuildConfig {
    pub packaging: Packaging,
    pub output: Option<String>,
    pub shadow: Option<ShadowConfig>,
    pub post_build: Option<String>,
    /// Entries of `META-INF/MANIFEST.MF`.
    pub manifest: Vec<Attribute>,
}

/// A build configuration, its texts as characters.
pub struct BuildView {
    pub packaging: Packaging,
    pub output: Option<Seq<char>>,
    pub shadow: Option<Seq<PatternView>>,
    pub post_build: Option<Seq<char>>,
    pub manifest: Seq<(Seq<char>, Seq<char>)>,
}

impl View for BuildConfig {
    type V = BuildView;

    open spec fn view(&self) -> BuildView {
        BuildView {
            packaging: self.packaging,
            output: opt_text(self.output),
            shadow: match self.shadow {
                Some(s) => Some(s.exclusions@),
                None => None,
            },
            post_build: opt_text(self.post_build),
            manifest: views(self.manifest@),
        }
    }
}

/// The configuration where the manifest has no `build` node.
pub open spec fn no_build() -> BuildView {
    BuildView {
        packaging: Packaging::Jar,
        output: None,
        shadow: None,
        post_build: None,
        manifest: Seq::empty(),
    }
}

impl Default for BuildConfig {
    fn default() -> (r: BuildConfig)
        ensures
            r@ == no_build(),
    {
        let manifest: Vec<Attribute> = Vec::new();
        assert(views(manifest@) =~= Seq::empty());
        BuildConfig { packaging: Packaging::Jar, output: None, shadow: None, post_build: None, manifest }
    }
}

/// Where a dependency comes from.
#[derive(Debug, PartialEq, Eq)]
pub enum DependencySource {
    Id(ArtifactCoordinates),
    Path(String),
}

/// A source, its texts as characters.
pub enum SourceView {
    Id(CoordView),
    Path(Seq<char>),
}

impl View for DependencySource {
    type V = SourceView;

    open spec fn view(&self) -> SourceView {
        match self {
            DependencySource::Id(c) => SourceView::Id(c@),
            DependencySource::Path(p) => SourceView::Path(p@),
        }
    }
}

/// A dependency of the project.
#[derive(Debug, PartialEq, Eq)]
pub struct Dependency {
    pub scope: Scope,
    pub artifact_type: ArtifactType,
    pub classifier: Option<String>,
    pub source: DependencySource,
    pub exclusions: OrdSet<ExclusionPattern>,
}

/// A dependency, its texts as characters.
pub struct DepView {
    pub scope: Scope,
    pub artifact_type: Seq<char>,
    pub classifier: Option<Seq<char>>,
    pub source: SourceView,
    pub exclusions: Seq<PatternView>,
}

impl View for Dependency {
    type V = DepView;

    open spec fn view(&self) -> DepView {
        DepView {
            scope: self.scope,
            artifact_type: self.artifact_type@,
            classifier: opt_text(self.classifier),
            source: self.source@,
            exclusions: self.exclusions@,
        }
    }
}

/// The coordinates of a dependency that comes from a repository.
pub open spec fn dep_coord(d: DepView) -> Option<CoordView> {
    match d.source {
        SourceView::Id(c) => Some(c),
        SourceView::Path(_) => None,
    }
}

impl Dependency {
    /// The coordinates, where the dependency comes from a repository.
    pub fn coord(&self) -> (r: Option<&ArtifactCoordinates>)
        ensures
            match r {
                Some(c) => dep_coord(self@) == Some(c@),
                None => dep_coord(self@) is None,
            },
    {
        match &self.source {
            DependencySource::Id(c) => Some(c),
            DependencySource::Path(_) => None,
        }
    }
}

/// A manifest.
#[derive(Debug, PartialEq, Eq)]
pub struct Manifest {
    pub group: GroupId,
    pub artifact: ArtifactId,
    pub version: ArtifactVersion,
    pub description: Option<String>,
    pub author: Option<String>,
    pub entry: Option<String>,
    pub source: String,
    pub resources: String,
    pub java: JavaConfig,
    pub build: BuildConfig,
    pub test: TestConfig,
    pub repositories: Repositories,
    pub dependencies: Vec<Dependency>,
}

/// A manifest, its texts as characters.
pub struct ManifestView {
    pub group: Seq<char>,
    pub artifact: Seq<char>,
    pub version: Seq<char>,
    pub description: Option<Seq<char>>,
    pub author: Option<Seq<char>>,
    pub entry: Option<Seq<char>>,
    pub source: Seq<char>,
    pub resources: Seq<char>,
    pub java: JavaView,
    pub build: BuildView,
    pub test: TestView,
    pub repositories: ReposView,
    pub dependencies: Seq<DepView>,
}

impl View for Manifest {
    type V = ManifestView;

    open spec fn view(&self) -> ManifestView {
        ManifestView {
            group: self.group@,
            artifact: self.artifact@,
            version: self.version@,
            description: opt_text(self.description),
            author: opt_text(self.author),
            entry: opt_text(self.entry),
            source: self.source@,
            resources: self.resources@,
            java: self.java@,
            build: self.build@,
            test: self.test@,
            repositories: self.repositories@,
            dependencies: views(self.dependencies@),
        }
    }
}

/// Why a text is no manifest.
#[derive(Debug, PartialEq, Eq)]
pub enum ManifestFault<S> {
    /// It is no KDL document.
    Syntax,
    /// A field that every manifest has is missing.
    MissingField(S),
    /// A field has no value.
    MissingValue(S),
    /// The value of a field is no text.
    NotText(S),
    /// The version holds a colon.
    ColonInVersion,
    /// The Java release is no number.
    InvalidRelease(S),
    /// The packaging is neither `jar` nor `dir`.
    UnknownPackaging(S),
    /// A dependency has a scope that there is not.
    UnknownScope(S),
    /// The path of a dependency is no text.
    PathNotText,
    /// The id of a dependency is no text.
    IdNotText,
    /// A dependency has neither id nor path.
    MissingId,
    /// The id of a dependency is no coordinates.
    Coordinates(CoordError),
    /// A dependency has a child other than `exclude`.
    UnexpectedNode(S),
    /// An exclusion has no value.
    ExcludeMissingValue,
    /// The value of an exclusion is no text.
    ExcludeNotText,
    /// The value of an exclusion is no pattern.
    Exclusion(PatternError),
}

/// Why a text is no manifest.
pub type ManifestError = ManifestFault<String>;

impl View for ManifestFault<String> {
    type V = ManifestFault<Seq<char>>;

    open spec fn view(&self) -> ManifestFault<Seq<char>> {
        match self {
            ManifestFault::Syntax => ManifestFault::Syntax,
            ManifestFault::MissingField(s) => ManifestFault::MissingField(s@),
            ManifestFault::MissingValue(s) => ManifestFault::MissingValue(s@),
            ManifestFault::NotText(s) => ManifestFault::NotText(s@),
            ManifestFault::ColonInVersion => ManifestFault::ColonInVersion,
            ManifestFault::InvalidRelease(s) => ManifestFault::InvalidRelease(s@),
            ManifestFault::UnknownPackaging(s) => ManifestFault::UnknownPackaging(s@),
            ManifestFault::UnknownScope(s) => ManifestFault::UnknownScope(s@),
            ManifestFault::PathNotText => ManifestFault::PathNotText,
            ManifestFault::IdNotText => ManifestFault::IdNotText,
            ManifestFault::MissingId => ManifestFault::MissingId,
            ManifestFault::Coordinates(e) => ManifestFault::Coordinates(*e),
            ManifestFault::UnexpectedNode(s) => ManifestFault::UnexpectedNode(s@),
            ManifestFault::ExcludeMissingValue => ManifestFault::ExcludeMissingValue,
            ManifestFault::ExcludeNotText => ManifestFault::ExcludeNotText,
            ManifestFault::Exclusion(e) => ManifestFault::Exclusion(*e),
        }
    }
}

/// What reading a manifest, or a part of one, comes to.
pub type Read<T> = Result<T, ManifestFault<Seq<char>>>;

/// What a result is, its texts as characters.
pub open spec fn read_view<T: View>(r: Result<T, ManifestError>) -> Read<T::V> {
    match r {
        Ok(x) => Ok(x@),
        Err(e) => Err(e@),
    }
}

/// The text of a field that every manifest has.
pub open spec fn required_text(d: Seq<NodeView>, name: Seq<char>) -> Read<Seq<char>> {
    match find_node(d, name) {
        None => Err(ManifestFault::MissingField(name)),
        Some(n) => match first_arg(n) {
            None => Err(ManifestFault::MissingValue(name)),
            Some(ValueView::Text(s)) => Ok(s),
            Some(_) => Err(ManifestFault::NotText(name)),
        },
    }
}

/// The text of a field, where it has one.
pub open spec fn optional_text(d: Seq<NodeView>, name: Seq<char>) -> Option<Seq<char>> {
    text_of(node_arg(d, name))
}

/// The text of a field inside a node, where it has one.
pub open spec fn child_text(n: NodeView, name: Seq<char>) -> Option<Seq<char>> {
    match n.children {
        None => None,
        Some(c) => optional_text(c, name),
    }
}

/// The text, or else the given one.
pub open spec fn text_or(s: Option<Seq<char>>, default: Seq<char>) -> Seq<char> {
    match s {
        Some(t) => t,
        None => default,
    }
}

/// All texts that are arguments of nodes of a name, in order.
pub open spec fn all_text_args(d: Seq<NodeView>, name: Seq<char>) -> Seq<Seq<char>>
    decreases d.len(),
{
    if d.len() == 0 {
        Seq::empty()
    } else {
        let before = all_text_args(d.drop_last(), name);
        if d.last().name == name {
            before + texts_among(args_of(d.last().entries))
        } else {
            before
        }
    }
}

/// What a value says, where it is a yes or a no.
pub open spec fn bool_of(v: Option<ValueView>) -> Option<bool> {
    match v {
        Some(ValueView::Bool(b)) => Some(b),
        Some(ValueView::Text(s)) => if s == "true"@ {
            Some(true)
        } else if s == "false"@ {
            Some(false)
        } else {
            None
        },
        _ => None,
    }
}

/// The policy that a repository's node names.
pub open spec fn policy_of(n: NodeView) -> ChecksumPolicy {
    match text_of(prop_of(n.entries, "checksum-policy"@)) {
        Some(s) => if s == "required"@ {
            ChecksumPolicy::Required
        } else if s == "warn"@ {
            ChecksumPolicy::Warn
        } else if s == "ignore"@ {
            ChecksumPolicy::Ignore
        } else {
            ChecksumPolicy::Fail
        },
        None => ChecksumPolicy::Fail,
    }
}

/// The strategy that the node of the repositories names.
pub open spec fn strategy_of(n: NodeView) -> RepoStrategy {
    if text_of(prop_of(n.entries, "strategy"@)) == Some("sequential"@) {
        RepoStrategy::Sequential
    } else {
        RepoStrategy::Race
    }
}

/// Whether a repository is to be searched.
pub open spec fn enabled(n: NodeView) -> bool {
    bool_of(prop_of(n.entries, "enabled"@)) != Some(false)
}

/// The repository that a node names: `central` stands for Maven Central.
pub open spec fn repo_of(n: NodeView) -> RepoView {
    RepoView {
        url: if n.name == "central"@ { MAVEN_REPO@ } else { n.name },
        checksum_policy: policy_of(n),
    }
}

/// The repositories that nodes name, without those that are switched off.
pub open spec fn listed_repos(c: Seq<NodeView>) -> Seq<RepoView>
    decreases c.len(),
{
    if c.len() == 0 {
        Seq::empty()
    } else if enabled(c.last()) {
        listed_repos(c.drop_last()).push(repo_of(c.last()))
    } else {
        listed_repos(c.drop_last())
    }
}

/// Whether the nodes name Maven Central, be it to switch it off.
pub open spec fn names_central(c: Seq<NodeView>) -> bool {
    exists|i: int| 0 <= i < c.len() && (#[trigger] c[i]).name == "central"@
}

/// The repositories of a manifest: those listed, in order, with Maven Central
/// before them where the list does not name it.
pub open spec fn repos_spec(d: Seq<NodeView>) -> ReposView {
    match find_node(d, "repositories"@) {
        None => ReposView { strategy: RepoStrategy::Race, entries: seq![central()] },
        Some(n) => ReposView {
            strategy: strategy_of(n),
            entries: match n.children {
                None => seq![central()],
                Some(c) => if names_central(c) {
                    listed_repos(c)
                } else {
                    seq![central()] + listed_repos(c)
                },
            },
        },
    }
}

/// The test configuration of a manifest.
pub open spec fn test_spec(d: Seq<NodeView>) -> TestView {
    match find_node(d, "test"@) {
        None => no_test(),
        Some(n) => TestView {
            source: text_or(child_text(n, "source"@), "src/test/java"@),
            resources: text_or(child_text(n, "resources"@), "src/test/resources"@),
            jvm_args: match n.children {
                None => Seq::empty(),
                Some(c) => all_text_args(c, "jvm-args"@),
            },
        },
    }
}

/// The Java release that a value gives.
pub open spec fn release_of(v: Option<ValueView>) -> Read<Option<u32>> {
    match v {
        Some(ValueView::Integer(n)) => Ok(Some(n as u32)),
        Some(ValueView::Text(s)) => match number_spec(s, u32::MAX as nat) {
            Some(n) => Ok(Some(n as u32)),
            None => Err(ManifestFault::InvalidRelease(s)),
        },
        _ => Ok(None),
    }
}

/// The Java configuration of a manifest.
pub open spec fn java_spec(d: Seq<NodeView>) -> Read<JavaView> {
    match find_node(d, "java"@) {
        None => Ok(no_java()),
        Some(n) => match n.children {
            None => Ok(no_java()),
            Some(c) => match release_of(node_arg(c, "release"@)) {
                Err(e) => Err(e),
                Ok(release) => Ok(
                    JavaView { release, compiler_args: all_text_args(c, "compiler-args"@) },
                ),
            },
        },
    }
}

/// The keys and values that nodes give, without those that have no text.
pub open spec fn attributes_of(c: Seq<NodeView>) -> Seq<(Seq<char>, Seq<char>)>
    decreases c.len(),
{
    if c.len() == 0 {
        Seq::empty()
    } else {
        match text_of(first_arg(c.last())) {
            Some(v) => attributes_of(c.drop_last()).push((c.last().name, v)),
            None => attributes_of(c.drop_last()),
        }
    }
}

/// The entries of `META-INF/MANIFEST.MF` that a `build` node gives.
pub open spec fn manifest_entries(n: NodeView) -> Seq<(Seq<char>, Seq<char>)> {
    match n.children {
        None => Seq::empty(),
        Some(c) => match find_node(c, "manifest"@) {
            None => Seq::empty(),
            Some(m) => match m.children {
                None => Seq::empty(),
                Some(e) => attributes_of(e),
            },
        },
    }
}

/// The build configuration of a manifest.
pub open spec fn build_spec(d: Seq<NodeView>) -> Read<BuildView> {
    match find_node(d, "build"@) {
        None => Ok(no_build()),
        Some(n) => {
            let word = text_or(child_text(n, "packaging"@), "jar"@);
            if word != "jar"@ && word != "dir"@ {
                Err(ManifestFault::UnknownPackaging(word))
            } else {
                Ok(
                    BuildView {
                        packaging: if word == "jar"@ { Packaging::Jar } else { Packaging::Dir },
                        output: child_text(n, "output"@),
                        shadow: if shadow_flag(n) { Some(Seq::empty()) } else { None },
                        post_build: child_text(n, "post-build"@),
                        manifest: manifest_entries(n),
                    },
                )
            }
        },
    }
}

/// Whether a `build` node asks for dependencies to be bundled.
pub open spec fn shadow_flag(n: NodeView) -> bool {
    match n.children {
        None => false,
        Some(c) => bool_of(node_arg(c, "shadow"@)) == Some(true),
    }
}

/// The pattern that a child of a dependency excludes, given which of its globs are accepted.
pub open spec fn exclude_given(n: NodeView, v: GlobVerdict) -> Read<PatternView> {
    if n.name != "exclude"@ {
        Err(ManifestFault::UnexpectedNode(n.name))
    } else {
        match first_arg(n) {
            None => Err(ManifestFault::ExcludeMissingValue),
            Some(ValueView::Text(s)) => match pattern_given(s, v.0, v.1) {
                Ok(p) => Ok(p),
                Err(e) => Err(ManifestFault::Exclusion(e)),
            },
            Some(_) => Err(ManifestFault::ExcludeNotText),
        }
    }
}

/// The text of the pattern of a node, where it has one.
pub open spec fn excluded_text(n: NodeView) -> Option<Seq<char>> {
    if n.name == "exclude"@ {
        text_of(first_arg(n))
    } else {
        None
    }
}

/// Which globs of a node are accepted, where they mean the same on every system.
pub open spec fn node_verdict(n: NodeView) -> GlobVerdict {
    match excluded_text(n) {
        Some(s) => text_verdict(s),
        None => (true, true),
    }
}

/// Which globs of nodes are accepted, where they mean the same on every system.
pub open spec fn node_verdicts(c: Seq<NodeView>) -> Seq<GlobVerdict> {
    c.map_values(|n: NodeView| node_verdict(n))
}

/// Whether the pattern of a node, where it has one, means the same on every system.
pub open spec fn portable_value(n: NodeView) -> bool {
    match excluded_text(n) {
        Some(s) => portable_text(s),
        None => true,
    }
}

/// Whether a verdict on the globs of a node is one that some system comes to.
pub open spec fn honest_node(n: NodeView, v: GlobVerdict) -> bool {
    portable_value(n) ==> v == node_verdict(n)
}

/// Whether verdicts on the globs of nodes are those that some system comes to.
pub open spec fn honest_nodes(c: Seq<NodeView>, vs: Seq<GlobVerdict>) -> bool {
    &&& vs.len() == c.len()
    &&& forall|i: int| 0 <= i < c.len() ==> honest_node(#[trigger] c[i], vs[i])
}

/// Whether the patterns of all children of a node mean the same on every system.
pub open spec fn portable_children(n: NodeView) -> bool {
    forall|i: int| 0 <= i < children_or_none(n).len() ==> portable_value(#[trigger] children_or_none(n)[i])
}

/// Where patterns mean the same on every system, all systems come to one verdict.
pub proof fn portable_verdicts(n: NodeView, vs: Seq<GlobVerdict>)
    requires
        portable_children(n),
        honest_nodes(children_or_none(n), vs),
    ensures
        vs == node_verdicts(children_or_none(n)),
{
    let c = children_or_none(n);
    assert forall|i: int| 0 <= i < c.len() implies vs[i] == node_verdicts(c)[i] by {
        assert(honest_node(c[i], vs[i]));
    }
    assert(vs =~= node_verdicts(c));
}

/// The patterns that the first nodes exclude, given which globs are accepted: as many nodes
/// as there are verdicts.
pub open spec fn excludes_given(c: Seq<NodeView>, vs: Seq<GlobVerdict>) -> Read<Seq<PatternView>>
    decreases vs.len(),
{
    if vs.len() == 0 {
        Ok(Seq::empty())
    } else {
        match excludes_given(c, vs.drop_last()) {
            Err(e) => Err(e),
            Ok(acc) => match exclude_given(c[vs.len() - 1], vs.last()) {
                Err(e) => Err(e),
                Ok(p) => Ok(put::<ExclusionPattern>(acc, p)),
            },
        }
    }
}

/// A fault stays the same, whatever comes after it.
proof fn excludes_fault_stays(c: Seq<NodeView>, vs: Seq<GlobVerdict>, more: Seq<GlobVerdict>)
    requires
        excludes_given(c, vs) is Err,
    ensures
        excludes_given(c, vs + more) == excludes_given(c, vs),
    decreases more.len(),
{
    if more.len() == 0 {
        assert(vs + more =~= vs);
    } else {
        excludes_fault_stays(c, vs, more.drop_last());
        assert((vs + more).drop_last() =~= vs + more.drop_last());
    }
}

/// Verdicts that are not known yet are taken from where there is only one.
pub proof fn honest_rest(c: Seq<NodeView>, vs: Seq<GlobVerdict>)
    requires
        vs.len() <= c.len(),
        forall|i: int| 0 <= i < vs.len() ==> honest_node(#[trigger] c[i], vs[i]),
    ensures
        honest_nodes(c, vs + node_verdicts(c).skip(vs.len() as int)),
{
}

/// Where the dependency that a node declares comes from.
pub open spec fn source_spec(n: NodeView) -> Read<SourceView> {
    match prop_of(n.entries, "path"@) {
        Some(ValueView::Text(s)) => Ok(SourceView::Path(s)),
        Some(_) => Err(ManifestFault::PathNotText),
        None => match first_arg(n) {
            Some(ValueView::Text(s)) => match coord_spec(s) {
                Ok(c) => Ok(SourceView::Id(c)),
                Err(e) => Err(ManifestFault::Coordinates(e)),
            },
            Some(_) => Err(ManifestFault::IdNotText),
            None => Err(ManifestFault::MissingId),
        },
    }
}

/// The dependency that a node declares, given which globs are accepted.
pub open spec fn dependency_given(n: NodeView, vs: Seq<GlobVerdict>) -> Read<DepView> {
    match scope_of(n.name) {
        None => Err(ManifestFault::UnknownScope(n.name)),
        Some(scope) => match source_spec(n) {
            Err(e) => Err(e),
            Ok(source) => match excludes_given(children_or_none(n), vs) {
                Err(e) => Err(e),
                Ok(exclusions) => Ok(
                    DepView {
                        scope,
                        artifact_type: text_or(text_of(prop_of(n.entries, "type"@)), "jar"@),
                        classifier: text_of(prop_of(n.entries, "classifier"@)),
                        source,
                        exclusions,
                    },
                ),
            },
        },
    }
}

/// The dependency that a node declares.
pub open spec fn dependency_spec(n: NodeView) -> Read<DepView> {
    dependency_given(n, node_verdicts(children_or_none(n)))
}

/// The nodes inside a node.
pub open spec fn children_or_none(n: NodeView) -> Seq<NodeView> {
    match n.children {
        None => Seq::empty(),
        Some(c) => c,
    }
}

/// The dependencies that the first nodes declare, given which globs are accepted.
pub open spec fn dependencies_given(c: Seq<NodeView>, vss: Seq<Seq<GlobVerdict>>) -> Read<Seq<DepView>>
    decreases vss.len(),
{
    if vss.len() == 0 {
        Ok(Seq::empty())
    } else {
        match dependencies_given(c, vss.drop_last()) {
            Err(e) => Err(e),
            Ok(acc) => match dependency_given(c[vss.len() - 1], vss.last()) {
                Err(e) => Err(e),
                Ok(x) => Ok(acc.push(x)),
            },
        }
    }
}

/// A fault stays the same, whatever comes after it.
proof fn dependencies_fault_stays(c: Seq<NodeView>, vss: Seq<Seq<GlobVerdict>>, more: Seq<Seq<GlobVerdict>>)
    requires
        dependencies_given(c, vss) is Err,
    ensures
        dependencies_given(c, vss + more) == dependencies_given(c, vss),
    decreases more.len(),
{
    if more.len() == 0 {
        assert(vss + more =~= vss);
    } else {
        dependencies_fault_stays(c, vss, more.drop_last());
        assert((vss + more).drop_last() =~= vss + more.drop_last());
    }
}

/// Which globs of the children of nodes are accepted, where they mean the same on every system.
pub open spec fn child_verdicts(c: Seq<NodeView>) -> Seq<Seq<GlobVerdict>> {
    c.map_values(|n: NodeView| node_verdicts(children_or_none(n)))
}

/// Whether verdicts on the globs of the children of nodes are those that some system comes to.
pub open spec fn honest_children(c: Seq<NodeView>, vss: Seq<Seq<GlobVerdict>>) -> bool {
    &&& vss.len() == c.len()
    &&& forall|i: int| 0 <= i < c.len() ==> honest_nodes(children_or_none(#[trigger] c[i]), vss[i])
}

/// Where patterns mean the same on every system, all systems come to one verdict.
pub proof fn portable_child_verdicts(c: Seq<NodeView>, vss: Seq<Seq<GlobVerdict>>)
    requires
        forall|i: int| 0 <= i < c.len() ==> portable_children(#[trigger] c[i]),
        honest_children(c, vss),
    ensures
        vss == child_verdicts(c),
{
    assert forall|i: int| 0 <= i < c.len() implies vss[i] == child_verdicts(c)[i] by {
        portable_verdicts(c[i], vss[i]);
    }
    assert(vss =~= child_verdicts(c));
}

/// Verdicts that are not known yet are taken from where there is only one.
pub proof fn honest_rest_of_children(c: Seq<NodeView>, vss: Seq<Seq<GlobVerdict>>)
    requires
        vss.len() <= c.len(),
        forall|i: int| 0 <= i < vss.len() ==> honest_nodes(children_or_none(#[trigger] c[i]), vss[i]),
    ensures
        honest_children(c, vss + child_verdicts(c).skip(vss.len() as int)),
{
    let all = vss + child_verdicts(c).skip(vss.len() as int);
    assert forall|i: int| 0 <= i < c.len() implies honest_nodes(children_or_none(#[trigger] c[i]), all[i]) by {
        if i >= vss.len() {
            assert(all[i] == node_verdicts(children_or_none(c[i])));
        }
    }
}

/// The nodes that declare dependencies.
pub open spec fn dependency_nodes(d: Seq<NodeView>) -> Seq<NodeView> {
    match find_node(d, "dependencies"@) {
        None => Seq::empty(),
        Some(n) => children_or_none(n),
    }
}

/// Whether the exclusions of all dependencies mean the same on every system.
pub open spec fn portable_dependencies(d: Seq<NodeView>) -> bool {
    forall|i: int| 0 <= i < dependency_nodes(d).len() ==> portable_children(#[trigger] dependency_nodes(d)[i])
}

/// The manifest that a document is.
pub open spec fn manifest_spec(d: Seq<NodeView>) -> Read<ManifestView> {
    manifest_given(d, child_verdicts(dependency_nodes(d)))
}

/// The manifest that a document is, given which globs of its exclusions are accepted.
pub open spec fn manifest_given(d: Seq<NodeView>, vss: Seq<Seq<GlobVerdict>>) -> Read<ManifestView> {
    match (required_text(d, "group"@), required_text(d, "artifact"@), required_text(d, "version"@)) {
        (Err(e), _, _) => Err(e),
        (_, Err(e), _) => Err(e),
        (_, _, Err(e)) => Err(e),
        (Ok(group), Ok(artifact), Ok(version)) => if version.contains(':') {
            Err(ManifestFault::ColonInVersion)
        } else {
            match (java_spec(d), build_spec(d), dependencies_given(dependency_nodes(d), vss)) {
                (Err(e), _, _) => Err(e),
                (_, Err(e), _) => Err(e),
                (_, _, Err(e)) => Err(e),
                (Ok(java), Ok(build), Ok(dependencies)) => Ok(
                    ManifestView {
                        group,
                        artifact,
                        version,
                        description: optional_text(d, "description"@),
                        author: optional_text(d, "author"@),
                        entry: optional_text(d, "entry"@),
                        source: text_or(optional_text(d, "source"@), "src/main/java"@),
                        resources: text_or(optional_text(d, "resources"@), "src/main/resources"@),
                        java,
                        build,
                        test: test_spec(d),
                        repositories: repos_spec(d),
                        dependencies,
                    },
                ),
            }
        },
    }
}

fn require_string_arg(doc: &Document, name: &str) -> (r: Result<String, ManifestError>)
    ensures
        read_view(r) == required_text(doc.view(), name@),
{
    match doc.get(name) {
        None => Err(ManifestFault::MissingField(name.to_owned())),
        Some(n) => match n.arg() {
            None => Err(ManifestFault::MissingValue(name.to_owned())),
            Some(Value::Text(s)) => Ok(s.clone()),
            Some(_) => Err(ManifestFault::NotText(name.to_owned())),
        },
    }
}

fn optional_string_arg(doc: &Document, name: &str) -> (r: Option<String>)
    ensures
        opt_text(r) == optional_text(doc.view(), name@),
{
    text_value(doc.get_arg(name))
}

fn optional_string_arg_node(node: &Node, name: &str) -> (r: Option<String>)
    ensures
        opt_text(r) == child_text(node.view(), name@),
{
    proof {
        children_view(*node);
    }
    match &node.children {
        None => None,
        Some(c) => optional_string_arg(c, name),
    }
}

fn string_or(s: Option<String>, default: &str) -> (r: String)
    ensures
        r@ == text_or(opt_text(s), default@),
{
    match s {
        Some(t) => t,
        None => default.to_owned(),
    }
}

fn collect_args(doc: &Document, name: &str) -> (r: Vec<String>)
    ensures
        texts(r@) == all_text_args(doc.view(), name@),
{
    let mut out: Vec<String> = Vec::new();
    let ghost d = doc.view();
    let mut i: usize = 0;
    assert(d.take(0) =~= Seq::empty());
    assert(texts(out@) =~= Seq::empty());
    while i < doc.nodes.len()
        invariant
            i <= doc.nodes@.len(),
            d == doc.view(),
            texts(out@) == all_text_args(d.take(i as int), name@),
        decreases doc.nodes@.len() - i,
    {
        let n = &doc.nodes[i];
        assert(d[i as int] == n.view());
        assert(d.take(i + 1).drop_last() =~= d.take(i as int));
        if same(n.name.as_str(), name) {
            let more = n.text_args();
            let ghost before = out@;
            push_texts(&mut out, &more);
            assert(texts(before + more@) =~= texts(before) + texts(more@));
        }
        i = i + 1;
    }
    assert(d.take(i as int) =~= d);
    out
}

fn parse_kdl_bool(val: Option<&Value>) -> (r: Option<bool>)
    ensures
        r == bool_of(opt_value(val)),
{
    match val {
        Some(Value::Bool(b)) => Some(*b),
        Some(Value::Text(s)) => if same(s.as_str(), "true") {
            Some(true)
        } else if same(s.as_str(), "false") {
            Some(false)
        } else {
            None
        },
        _ => None,
    }
}

fn parse_checksum_policy(node: &Node) -> (r: ChecksumPolicy)
    ensures
        r == policy_of(node.view()),
{
    match text_value(node.prop("checksum-policy")) {
        Some(s) => if same(s.as_str(), "required") {
            ChecksumPolicy::Required
        } else if same(s.as_str(), "warn") {
            ChecksumPolicy::Warn
        } else if same(s.as_str(), "ignore") {
            ChecksumPolicy::Ignore
        } else {
            ChecksumPolicy::Fail
        },
        None => ChecksumPolicy::Fail,
    }
}

fn parse_strategy(node: &Node) -> (r: RepoStrategy)
    ensures
        r == strategy_of(node.view()),
{
    match text_value(node.prop("strategy")) {
        Some(s) => if same(s.as_str(), "sequential") {
            RepoStrategy::Sequential
        } else {
            RepoStrategy::Race
        },
        None => RepoStrategy::Race,
    }
}

/// The repositories of a manifest.
pub fn parse_repositories(doc: &Document) -> (r: Repositories)
    ensures
        r@ == repos_spec(doc.view()),
{
    let node = match doc.get("repositories") {
        None => {
            return Repositories::default();
        },
        Some(n) => n,
    };
    proof {
        children_view(*node);
    }
    let strategy = parse_strategy(node);
    let children = match &node.children {
        None => {
            let base = Repositories::default();
            return Repositories { strategy, entries: base.entries };
        },
        Some(c) => c,
    };
    let ghost c = children.view();
    let mut entries: Vec<RepoEntry> = Vec::new();
    let mut has_central = false;
    let mut i: usize = 0;
    assert(c.take(0) =~= Seq::empty());
    assert(views(entries@) =~= Seq::empty());
    while i < children.nodes.len()
        invariant
            i <= children.nodes@.len(),
            c == children.view(),
            views(entries@) == listed_repos(c.take(i as int)),
            has_central == names_central(c.take(i as int)),
        decreases children.nodes@.len() - i,
    {
        let n = &children.nodes[i];
        assert(c[i as int] == n.view());
        let ghost done = c.take(i as int);
        let ghost next = c.take(i + 1);
        assert(next.drop_last() =~= done);
        assert(next.last() == n.view());
        let on = match parse_kdl_bool(n.prop("enabled")) {
            Some(b) => b,
            None => true,
        };
        let is_central = same(n.name.as_str(), "central");
        proof {
            if names_central(done) {
                let k = choose|k: int| 0 <= k < done.len() && (#[trigger] done[k]).name == "central"@;
                assert(next[k] == done[k]);
            }
            if names_central(next) {
                let k = choose|k: int| 0 <= k < next.len() && (#[trigger] next[k]).name == "central"@;
                if k < i {
                    assert(next[k] == done[k]);
                }
            }
            if is_central {
                assert(next[i as int].name == "central"@);
            }
        }
        if is_central {
            has_central = true;
        }
        if on {
            let ghost before = entries@;
            let policy = parse_checksum_policy(n);
            if is_central {
                entries.push(central_entry(policy));
            } else {
                entries.push(RepoEntry { url: n.name.clone(), checksum_policy: policy });
            }
            assert(views(entries@) =~= views(before).push(repo_of(n.view())));
        }
        i = i + 1;
    }
    assert(c.take(i as int) =~= c);
    if !has_central {
        let ghost before = entries@;
        entries.insert(0, central_entry(ChecksumPolicy::Fail));
        assert(views(entries@) =~= seq![central()] + views(before));
    }
    Repositories { strategy, entries }
}

/// The test configuration of a manifest.
pub fn parse_test_config(doc: &Document) -> (r: TestConfig)
    ensures
        r@ == test_spec(doc.view()),
{
    let node = match doc.get("test") {
        None => {
            return TestConfig::default();
        },
        Some(n) => n,
    };
    proof {
        children_view(*node);
    }
    let jvm_args = match &node.children {
        None => Vec::new(),
        Some(c) => collect_args(c, "jvm-args"),
    };
    assert(node.children is None ==> texts(jvm_args@) =~= Seq::empty());
    TestConfig {
        source: string_or(optional_string_arg_node(node, "source"), "src/test/java"),
        resources: string_or(optional_string_arg_node(node, "resources"), "src/test/resources"),
        jvm_args,
    }
}

fn parse_release(v: Option<&Value>) -> (r: Result<Option<u32>, ManifestError>)
    ensures
        match r {
            Ok(x) => release_of(opt_value(v)) == Ok::<Option<u32>, ManifestFault<Seq<char>>>(x),
            Err(e) => release_of(opt_value(v)) == Err::<Option<u32>, ManifestFault<Seq<char>>>(e@),
        },
{
    match v {
        Some(Value::Integer(n)) => Ok(Some(#[verifier::truncate] (*n as u32))),
        Some(Value::Text(s)) => match parse_number(s.as_str(), u32::MAX as u64) {
            Some(n) => Ok(Some(n as u32)),
            None => Err(ManifestFault::InvalidRelease(s.clone())),
        },
        _ => Ok(None),
    }
}

/// The Java configuration of a manifest.
pub fn parse_java_config(doc: &Document) -> (r: Result<JavaConfig, ManifestError>)
    ensures
        read_view(r) == java_spec(doc.view()),
{
    let node = match doc.get("java") {
        None => {
            return Ok(JavaConfig::default());
        },
        Some(n) => n,
    };
    proof {
        children_view(*node);
    }
    match &node.children {
        None => Ok(JavaConfig::default()),
        Some(c) => match parse_release(c.get_arg("release")) {
            Err(e) => Err(e),
            Ok(release) => Ok(JavaConfig { release, compiler_args: collect_args(c, "compiler-args") }),
        },
    }
}

fn collect_attributes(doc: &Document) -> (r: Vec<Attribute>)
    ensures
        views(r@) == attributes_of(doc.view()),
{
    let mut out: Vec<Attribute> = Vec::new();
    let ghost d = doc.view();
    let mut i: usize = 0;
    assert(d.take(0) =~= Seq::empty());
    assert(views(out@) =~= Seq::empty());
    while i < doc.nodes.len()
        invariant
            i <= doc.nodes@.len(),
            d == doc.view(),
            views(out@) == attributes_of(d.take(i as int)),
        decreases doc.nodes@.len() - i,
    {
        let n = &doc.nodes[i];
        assert(d[i as int] == n.view());
        assert(d.take(i + 1).drop_last() =~= d.take(i as int));
        if let Some(value) = text_value(n.arg()) {
            let ghost before = out@;
            out.push(Attribute { key: n.name.clone(), value });
            assert(views(out@) =~= views(before).push(out@.last()@));
        }
        i = i + 1;
    }
    assert(d.take(i as int) =~= d);
    out
}

fn parse_manifest_entries(node: &Node) -> (r: Vec<Attribute>)
    ensures
        views(r@) == manifest_entries(node.view()),
{
    let none: Vec<Attribute> = Vec::new();
    assert(views(none@) =~= Seq::empty());
    proof {
        children_view(*node);
    }
    match &node.children {
        None => none,
        Some(c) => match c.get("manifest") {
            None => none,
            Some(m) => {
                proof {
                    children_view(*m);
                }
                match &m.children {
                    None => none,
                    Some(e) => collect_attributes(e),
                }
            },
        },
    }
}

/// The build configuration of a manifest.
pub fn parse_build_config(doc: &Document) -> (r: Result<BuildConfig, ManifestError>)
    ensures
        read_view(r) == build_spec(doc.view()),
{
    let node = match doc.get("build") {
        None => {
            return Ok(BuildConfig::default());
        },
        Some(n) => n,
    };
    proof {
        children_view(*node);
    }
    let output = optional_string_arg_node(node, "output");
    let flag = match &node.children {
        None => None,
        Some(c) => parse_kdl_bool(c.get_arg("shadow")),
    };
    let shadow = match flag {
        Some(true) => Some(ShadowConfig { exclusions: OrdSet::new() }),
        _ => None,
    };
    let post_build = optional_string_arg_node(node, "post-build");
    let word = string_or(optional_string_arg_node(node, "packaging"), "jar");
    let packaging = if same(word.as_str(), "jar") {
        Packaging::Jar
    } else if same(word.as_str(), "dir") {
        Packaging::Dir
    } else {
        return Err(ManifestFault::UnknownPackaging(word));
    };
    Ok(BuildConfig { packaging, output, shadow, post_build, manifest: parse_manifest_entries(node) })
}

fn parse_exclude(child: &Node) -> (r: (Result<ExclusionPattern, ManifestError>, Ghost<GlobVerdict>))
    ensures
        honest_node(child.view(), r.1@),
        read_view(r.0) == exclude_given(child.view(), r.1@),
{
    let ghost v = node_verdict(child.view());
    if !same(child.name.as_str(), "exclude") {
        return (Err(ManifestFault::UnexpectedNode(child.name.clone())), Ghost(v));
    }
    match child.arg() {
        None => (Err(ManifestFault::ExcludeMissingValue), Ghost(v)),
        Some(Value::Text(s)) => {
            let (p, w) = ExclusionPattern::read(s.as_str());
            match p {
                Ok(q) => (Ok(q), w),
                Err(e) => (Err(ManifestFault::Exclusion(e)), w),
            }
        },
        Some(_) => (Err(ManifestFault::ExcludeNotText), Ghost(v)),
    }
}

fn parse_source(node: &Node) -> (r: Result<DependencySource, ManifestError>)
    ensures
        read_view(r) == source_spec(node.view()),
{
    match node.prop("path") {
        Some(Value::Text(s)) => Ok(DependencySource::Path(s.clone())),
        Some(_) => Err(ManifestFault::PathNotText),
        None => match node.arg() {
            Some(Value::Text(s)) => match ArtifactCoordinates::from_str(s.as_str()) {
                Ok(c) => Ok(DependencySource::Id(c)),
                Err(e) => Err(ManifestFault::Coordinates(e)),
            },
            Some(_) => Err(ManifestFault::IdNotText),
            None => Err(ManifestFault::MissingId),
        },
    }
}

fn read_dependency(node: &Node) -> (r: (Result<Dependency, ManifestError>, Ghost<Seq<GlobVerdict>>))
    ensures
        honest_nodes(children_or_none(node.view()), r.1@),
        read_view(r.0) == dependency_given(node.view(), r.1@),
{
    let ghost n = node.view();
    let ghost c = children_or_none(n);
    let ghost mut vs: Seq<GlobVerdict> = Seq::empty();
    proof {
        honest_rest(c, vs);
        assert(vs + node_verdicts(c).skip(0) =~= node_verdicts(c));
    }
    let scope = match Scope::from_str(node.name.as_str()) {
        Ok(s) => s,
        Err(_) => {
            return (Err(ManifestFault::UnknownScope(node.name.clone())), Ghost(node_verdicts(c)));
        },
    };
    let source = match parse_source(node) {
        Ok(s) => s,
        Err(e) => {
            return (Err(e), Ghost(node_verdicts(c)));
        },
    };
    let mut exclusions: OrdSet<ExclusionPattern> = OrdSet::new();
    proof {
        children_view(*node);
    }
    if let Some(children) = &node.children {
        let mut i: usize = 0;
        while i < children.nodes.len()
            invariant
                i <= children.nodes@.len(),
                n == node.view(),
                c == children.view(),
                c == children_or_none(n),
                scope_of(n.name) == Some(scope),
                source_spec(n) == Ok::<SourceView, ManifestFault<Seq<char>>>(source@),
                vs.len() == i,
                forall|k: int| 0 <= k < i ==> honest_node(#[trigger] c[k], vs[k]),
                excludes_given(c, vs) == Ok::<Seq<PatternView>, ManifestFault<Seq<char>>>(exclusions@),
            decreases children.nodes@.len() - i,
        {
            let child = &children.nodes[i];
            assert(c[i as int] == child.view());
            let (p, v) = parse_exclude(child);
            let ghost ws = vs.push(v@);
            assert(ws.drop_last() =~= vs);
            match p {
                Ok(q) => {
                    exclusions.insert(q);
                },
                Err(e) => {
                    let ghost more = node_verdicts(c).skip(ws.len() as int);
                    proof {
                        excludes_fault_stays(c, ws, more);
                        honest_rest(c, ws);
                    }
                    return (Err(e), Ghost(ws + more));
                },
            }
            proof {
                vs = ws;
            }
            i = i + 1;
        }
    }
    let artifact_type = match text_value(node.prop("type")) {
        Some(t) => ArtifactType::new(t),
        None => ArtifactType::default(),
    };
    let classifier = text_value(node.prop("classifier"));
    (Ok(Dependency { scope, artifact_type, classifier, source, exclusions }), Ghost(vs))
}

/// The dependency that a node declares.
pub fn parse_dependency(node: &Node) -> (r: Result<Dependency, ManifestError>)
    ensures
        exists|vs: Seq<GlobVerdict>|
            #[trigger] honest_nodes(children_or_none(node.view()), vs) && read_view(r) == dependency_given(
                node.view(),
                vs,
            ),
        portable_children(node.view()) ==> read_view(r) == dependency_spec(node.view()),
{
    let (r, vs) = read_dependency(node);
    proof {
        assert(honest_nodes(children_or_none(node.view()), vs@));
        if portable_children(node.view()) {
            portable_verdicts(node.view(), vs@);
        }
    }
    r
}

/// What a list of dependencies is, its texts as characters.
pub open spec fn dependencies_view(r: Result<Vec<Dependency>, ManifestError>) -> Read<Seq<DepView>> {
    match r {
        Ok(v) => Ok(views(v@)),
        Err(e) => Err(e@),
    }
}

fn read_dependencies(doc: &Document) -> (r: (Result<Vec<Dependency>, ManifestError>, Ghost<Seq<Seq<GlobVerdict>>>))
    ensures
        honest_children(dependency_nodes(doc.view()), r.1@),
        dependencies_view(r.0) == dependencies_given(dependency_nodes(doc.view()), r.1@),
{
    let mut deps: Vec<Dependency> = Vec::new();
    assert(views(deps@) =~= Seq::empty());
    let ghost c = dependency_nodes(doc.view());
    let ghost mut vss: Seq<Seq<GlobVerdict>> = Seq::empty();
    let node = match doc.get("dependencies") {
        None => {
            return (Ok(deps), Ghost(vss));
        },
        Some(n) => n,
    };
    proof {
        children_view(*node);
    }
    let children = match &node.children {
        None => {
            return (Ok(deps), Ghost(vss));
        },
        Some(c) => c,
    };
    let mut i: usize = 0;
    while i < children.nodes.len()
        invariant
            i <= children.nodes@.len(),
            c == children.view(),
            c == dependency_nodes(doc.view()),
            vss.len() == i,
            forall|k: int| 0 <= k < i ==> honest_nodes(children_or_none(#[trigger] c[k]), vss[k]),
            dependencies_given(c, vss) == Ok::<Seq<DepView>, ManifestFault<Seq<char>>>(views(deps@)),
        decreases children.nodes@.len() - i,
    {
        let n = &children.nodes[i];
        assert(c[i as int] == n.view());
        let (d, vs) = read_dependency(n);
        let ghost wss = vss.push(vs@);
        assert(wss.drop_last() =~= vss);
        match d {
            Ok(x) => {
                let ghost before = deps@;
                deps.push(x);
                assert(views(deps@) =~= views(before).push(deps@.last()@));
            },
            Err(e) => {
                let ghost more = child_verdicts(c).skip(wss.len() as int);
                proof {
                    dependencies_fault_stays(c, wss, more);
                    honest_rest_of_children(c, wss);
                }
                return (Err(e), Ghost(wss + more));
            },
        }
        proof {
            vss = wss;
        }
        i = i + 1;
    }
    (Ok(deps), Ghost(vss))
}

/// The dependencies of a manifest.
pub fn parse_dependencies(doc: &Document) -> (r: Result<Vec<Dependency>, ManifestError>)
    ensures
        exists|vss: Seq<Seq<GlobVerdict>>|
            #[trigger] honest_children(dependency_nodes(doc.view()), vss) && dependencies_view(r)
                == dependencies_given(dependency_nodes(doc.view()), vss),
        portable_dependencies(doc.view()) ==> dependencies_view(r) == dependencies_given(
            dependency_nodes(doc.view()),
            child_verdicts(dependency_nodes(doc.view())),
        ),
{
    let (r, vss) = read_dependencies(doc);
    proof {
        assert(honest_children(dependency_nodes(doc.view()), vss@));
        if portable_dependencies(doc.view()) {
            portable_child_verdicts(dependency_nodes(doc.view()), vss@);
        }
    }
    r
}

/// The coordinates of those dependencies that come from a repository.
pub open spec fn coords_of(deps: Seq<DepView>) -> Seq<CoordView>
    decreases deps.len(),
{
    if deps.len() == 0 {
        Seq::empty()
    } else {
        match dep_coord(deps.last()) {
            Some(c) => coords_of(deps.drop_last()).push(c),
            None => coords_of(deps.drop_last()),
        }
    }
}

/// A dependency, its path as it is meant inside a directory.
pub open spec fn placed_dep(d: DepView, base: Seq<char>, windows: bool) -> DepView {
    match d.source {
        SourceView::Path(p) => DepView { source: SourceView::Path(placed(base, p, windows)), ..d },
        SourceView::Id(_) => d,
    }
}

/// A manifest, its paths as they are meant inside a directory.
pub open spec fn placed_manifest(m: ManifestView, base: Seq<char>, windows: bool) -> ManifestView {
    ManifestView {
        source: placed(base, m.source, windows),
        resources: placed(base, m.resources, windows),
        test: TestView {
            source: placed(base, m.test.source, windows),
            resources: placed(base, m.test.resources, windows),
            ..m.test
        },
        build: BuildView {
            output: match m.build.output {
                Some(p) => Some(placed(base, p, windows)),
                None => None,
            },
            ..m.build
        },
        dependencies: m.dependencies.map_values(|d: DepView| placed_dep(d, base, windows)),
        ..m
    }
}

/// On a system without drives a manifest stays as it is.
pub proof fn placing_changes_nothing_without_drives(m: ManifestView, base: Seq<char>)
    ensures
        placed_manifest(m, base, false) == m,
{
    assert(m.dependencies.map_values(|d: DepView| placed_dep(d, base, false)) =~= m.dependencies);
}

fn place_dependencies(deps: &Vec<Dependency>, base: &str, windows: bool) -> (r: Vec<Dependency>)
    ensures
        views(r@) == views(deps@).map_values(|d: DepView| placed_dep(d, base@, windows)),
{
    let mut out: Vec<Dependency> = Vec::new();
    let mut i: usize = 0;
    while i < deps.len()
        invariant
            i <= deps@.len(),
            out@.len() == i,
            forall|k: int| 0 <= k < i ==> (#[trigger] out@[k])@ == placed_dep(deps@[k]@, base@, windows),
        decreases deps@.len() - i,
    {
        let d = &deps[i];
        let source = match &d.source {
            DependencySource::Path(p) => DependencySource::Path(place(base, p.as_str(), windows)),
            DependencySource::Id(c) => DependencySource::Id(c.clone()),
        };
        out.push(
            Dependency {
                scope: d.scope,
                artifact_type: d.artifact_type.clone(),
                classifier: copy_opt(&d.classifier),
                source,
                exclusions: d.exclusions.duplicate(),
            },
        );
        i = i + 1;
    }
    assert(views(out@) =~= views(deps@).map_values(|d: DepView| placed_dep(d, base@, windows)));
    out
}

impl Manifest {
    /// The manifest that a document is.
    pub fn from_document(doc: &Document) -> (r: Result<Manifest, ManifestError>)
        ensures
            exists|vss: Seq<Seq<GlobVerdict>>|
                #[trigger] honest_children(dependency_nodes(doc.view()), vss) && read_view(r) == manifest_given(
                    doc.view(),
                    vss,
                ),
            portable_dependencies(doc.view()) ==> read_view(r) == manifest_spec(doc.view()),
    {
        let (dependencies, vss) = read_dependencies(doc);
        proof {
            assert(honest_children(dependency_nodes(doc.view()), vss@));
            if portable_dependencies(doc.view()) {
                portable_child_verdicts(dependency_nodes(doc.view()), vss@);
            }
        }
        let group = match require_string_arg(doc, "group") {
            Ok(s) => GroupId::new(s),
            Err(e) => {
                return Err(e);
            },
        };
        let artifact = match require_string_arg(doc, "artifact") {
            Ok(s) => ArtifactId::new(s),
            Err(e) => {
                return Err(e);
            },
        };
        let text = match require_string_arg(doc, "version") {
            Ok(s) => s,
            Err(e) => {
                return Err(e);
            },
        };
        let version = match ArtifactVersion::new(text) {
            Ok(v) => v,
            Err(_) => {
                return Err(ManifestFault::ColonInVersion);
            },
        };
        let description = optional_string_arg(doc, "description");
        let author = optional_string_arg(doc, "author");
        let entry = optional_string_arg(doc, "entry");
        let source = string_or(optional_string_arg(doc, "source"), "src/main/java");
        let resources = string_or(optional_string_arg(doc, "resources"), "src/main/resources");
        let java = match parse_java_config(doc) {
            Ok(j) => j,
            Err(e) => {
                return Err(e);
            },
        };
        let test = parse_test_config(doc);
        let build = match parse_build_config(doc) {
            Ok(b) => b,
            Err(e) => {
                return Err(e);
            },
        };
        let repositories = parse_repositories(doc);
        let dependencies = match dependencies {
            Ok(d) => d,
            Err(e) => {
                return Err(e);
            },
        };
        Ok(
            Manifest {
                group,
                artifact,
                version,
                description,
                author,
                entry,
                source,
                resources,
                java,
                build,
                test,
                repositories,
                dependencies,
            },
        )
    }

    /// Reads a manifest.
    pub fn parse(source: &str) -> (r: Result<Manifest, ManifestError>)
        ensures
            match kdl_parse(source@) {
                None => read_view(r) == Err::<ManifestView, ManifestFault<Seq<char>>>(ManifestFault::Syntax),
                Some(d) => {
                    &&& exists|vss: Seq<Seq<GlobVerdict>>|
                        #[trigger] honest_children(dependency_nodes(d), vss) && read_view(r) == manifest_given(d, vss)
                    &&& portable_dependencies(d) ==> read_view(r) == manifest_spec(d)
                },
            },
    {
        match Document::parse(source) {
            Err(_) => Err(ManifestFault::Syntax),
            Ok(doc) => Manifest::from_document(&doc),
        }
    }

    /// Takes the paths of the manifest as they are meant inside a directory.
    pub fn place(&mut self, base: &str, windows: bool)
        ensures
            final(self)@ == placed_manifest(old(self)@, base@, windows),
    {
        let dependencies = place_dependencies(&self.dependencies, base, windows);
        self.source = place(base, self.source.as_str(), windows);
        self.resources = place(base, self.resources.as_str(), windows);
        self.test.source = place(base, self.test.source.as_str(), windows);
        self.test.resources = place(base, self.test.resources.as_str(), windows);
        self.build.output = match &self.build.output {
            Some(p) => Some(place(base, p.as_str(), windows)),
            None => None,
        };
        self.dependencies = dependencies;
    }

    /// The coordinates of the dependencies that come from a repository.
    pub fn dependency_coords(&self) -> (r: OrdSet<ArtifactCoordinates>)
        ensures
            r@ == put_all::<ArtifactCoordinates>(coords_of(self@.dependencies)),
    {
        let ghost deps = self@.dependencies;
        let mut out: OrdSet<ArtifactCoordinates> = OrdSet::new();
        let mut i: usize = 0;
        assert(deps.take(0) =~= Seq::empty());
        while i < self.dependencies.len()
            invariant
                i <= self.dependencies@.len(),
                deps == self@.dependencies,
                out@ == put_all::<ArtifactCoordinates>(coords_of(deps.take(i as int))),
            decreases self.dependencies@.len() - i,
        {
            assert(deps[i as int] == self.dependencies@[i as int]@);
            assert(deps.take(i + 1).drop_last() =~= deps.take(i as int));
            if let Some(c) = self.dependencies[i].coord() {
                assert(coords_of(deps.take(i + 1)).drop_last() =~= coords_of(deps.take(i as int)));
                out.insert(c.clone());
            }
            i = i + 1;
        }
        assert(deps.take(i as int) =~= deps);
        out
    }
}

/// Maven Central comes first, with the default policy, unless the manifest names it.
pub proof fn central_is_first(d: Seq<NodeView>)
    requires
        match find_node(d, "repositories"@) {
            Some(n) => !names_central(children_or_none(n)),
            None => true,
        },
    ensures
        repos_spec(d).entries.len() > 0,
        repos_spec(d).entries[0] == central(),
{
}

/// Repositories are searched in the order in which they are declared: one that is not
/// switched off comes right after those that are declared before it.
pub proof fn declared_order_is_kept(c: Seq<NodeView>, i: int)
    requires
        0 <= i < c.len(),
        enabled(c[i]),
    ensures
        listed_repos(c.take(i)).len() < listed_repos(c).len(),
        listed_repos(c)[listed_repos(c.take(i)).len() as int] == repo_of(c[i]),
        forall|k: int| 0 <= k < listed_repos(c.take(i)).len() ==> listed_repos(c)[k] == listed_repos(c.take(i))[k],
    decreases c.len(),
{
    if i == c.len() - 1 {
        assert(c.take(i) =~= c.drop_last());
    } else {
        declared_order_is_kept(c.drop_last(), i);
        assert(c.drop_last().take(i) =~= c.take(i));
    }
}

/// A repository that is switched off is not searched.
pub proof fn disabled_is_left_out(c: Seq<NodeView>)
    requires
        forall|i: int| 0 <= i < c.len() ==> !enabled(#[trigger] c[i]),
    ensures
        listed_repos(c) == Seq::<RepoView>::empty(),
    decreases c.len(),
{
    if c.len() > 0 {
        assert(c.last() == c[c.len() - 1]);
        assert forall|i: int| 0 <= i < c.drop_last().len() implies !enabled(#[trigger] c.drop_last()[i]) by {
            assert(c.drop_last()[i] == c[i]);
        }
        disabled_is_left_out(c.drop_last());
    }
}

/// A manifest has a group, a name and a version, each of them a text, and the version
/// holds no colon.
pub proof fn three_fields_are_required(d: Seq<NodeView>)
    requires
        manifest_spec(d) is Ok,
    ensures
        optional_text(d, "group"@) == Some(manifest_spec(d)->Ok_0.group),
        optional_text(d, "artifact"@) == Some(manifest_spec(d)->Ok_0.artifact),
        optional_text(d, "version"@) == Some(manifest_spec(d)->Ok_0.version),
        !manifest_spec(d)->Ok_0.version.contains(':'),
{
}

/// A document with nothing but group, name and version is a manifest, and everything
/// else has its default.
pub proof fn nothing_else_is_required(d: Seq<NodeView>)
    requires
        optional_text(d, "group"@) is Some,
        optional_text(d, "artifact"@) is Some,
        optional_text(d, "version"@) is Some,
        !optional_text(d, "version"@)->Some_0.contains(':'),
        find_node(d, "description"@) is None,
        find_node(d, "author"@) is None,
        find_node(d, "entry"@) is None,
        find_node(d, "source"@) is None,
        find_node(d, "resources"@) is None,
        find_node(d, "java"@) is None,
        find_node(d, "build"@) is None,
        find_node(d, "test"@) is None,
        find_node(d, "repositories"@) is None,
        find_node(d, "dependencies"@) is None,
    ensures
        manifest_spec(d) == Ok::<ManifestView, ManifestFault<Seq<char>>>(
            ManifestView {
                group: optional_text(d, "group"@)->Some_0,
                artifact: optional_text(d, "artifact"@)->Some_0,
                version: optional_text(d, "version"@)->Some_0,
                description: None,
                author: None,
                entry: None,
                source: "src/main/java"@,
                resources: "src/main/resources"@,
                java: no_java(),
                build: no_build(),
                test: no_test(),
                repositories: ReposView { strategy: RepoStrategy::Race, entries: seq![central()] },
                dependencies: Seq::empty(),
            },
        ),
{
}

} // verus!
