//! A project: where its files are, what it depends on, and what is run to build it.
use vstd::prelude::*;
use crate::java::{CommandLine, CommandView, Java};
use crate::manifest::{Attribute, Manifest, ManifestView, Packaging, Scope};
use crate::order::{assign, put, OrdMap, OrdSet};
use crate::paths::{
    extension, extension_of, file_name, file_name_spec, file_stem, file_stem_spec, join_path,
    join_path_spec, native, parent, parent_spec, parts_spec, same_path, to_native, Path,
};
use crate::text::{
    add_text, begins, copy_opt, joined, number_spec, opt_text, parse_number, push_text, same, split_all,
    split_spec, starts_with, strip_prefix, texts,
};

pub mod locking;
pub mod scopes;

verus! {

/// The name of the manifest.
pub const MANIFEST_FILE: &'static str = "borneo.kdl";

/// The name of the lock.
pub const LOCK_FILE: &'static str = "borneo.lock";

/// Where resources are where the manifest does not say.
pub const DEFAULT_RESOURCES: &'static str = "src/main/resources";

/// Where Java sources are where there is no manifest.
pub const DEFAULT_SOURCE: &'static str = "src/main/java";

/// Where Kotlin sources would be.
pub const DEFAULT_KOTLIN: &'static str = "src/main/kotlin";

/// What the file of the JUnit console begins with.
pub const STANDALONE_PREFIX: &'static str = "org.junit.platform-junit-platform-console-standalone-";

/// The class path: files and directories, each with its scope.
pub type ClassPath = Seq<(Seq<char>, Scope)>;

/// The path that the user gives, or a default one, in a directory. An absolute path stands
/// for itself.
pub fn resolve_path(base: &str, user: Option<&str>, default: &str) -> (r: String)
    ensures
        r@ == join_path_spec(
            base@,
            match user {
                Some(p) => p@,
                None => default@,
            },
        ),
{
    match user {
        Some(p) => join_path(base, p),
        None => join_path(base, default),
    }
}

/// Where the manifest is, given whether the path that the user gives, or the default one,
/// leads to a directory.
pub fn manifest_path(candidate: String, is_dir: bool) -> (r: String)
    ensures
        r@ == if is_dir {
            join_path_spec(candidate@, MANIFEST_FILE@)
        } else {
            candidate@
        },
{
    if is_dir {
        join_path(candidate.as_str(), MANIFEST_FILE)
    } else {
        candidate
    }
}

/// Why a project cannot be built.
#[derive(Debug, PartialEq, Eq)]
pub enum ProjectFault<S> {
    /// The manifest names a directory for resources that there is not.
    MissingResources(S),
    /// There is no directory of Java sources.
    MissingSource(S),
    /// There is no directory of Kotlin sources.
    MissingKotlinSource(S),
    /// The project asks for a later Java release: what it asks for, and what there is.
    OldJava(u32, Option<u32>),
    /// Tests need a manifest.
    NoManifest,
    /// Tests need the JUnit console among the dependencies.
    NoConsole,
}

/// Why a project cannot be built.
pub type ProjectError = ProjectFault<String>;

impl View for ProjectFault<String> {
    type V = ProjectFault<Seq<char>>;

    open spec fn view(&self) -> ProjectFault<Seq<char>> {
        match self {
            ProjectFault::MissingResources(s) => ProjectFault::MissingResources(s@),
            ProjectFault::MissingSource(s) => ProjectFault::MissingSource(s@),
            ProjectFault::MissingKotlinSource(s) => ProjectFault::MissingKotlinSource(s@),
            ProjectFault::OldJava(n, a) => ProjectFault::OldJava(*n, *a),
            ProjectFault::NoManifest => ProjectFault::NoManifest,
            ProjectFault::NoConsole => ProjectFault::NoConsole,
        }
    }
}

/// What a manifest is, where there is one.
pub open spec fn opt_manifest(m: Option<Manifest>) -> Option<ManifestView> {
    match m {
        Some(x) => Some(x@),
        None => None,
    }
}

/// Where resources are looked for.
pub open spec fn resources_dir_spec(m: Option<ManifestView>, dir: Seq<char>) -> Seq<char> {
    join_path_spec(
        dir,
        match m {
            Some(x) => x.resources,
            None => DEFAULT_RESOURCES@,
        },
    )
}

/// Where resources are looked for.
pub fn resources_dir(manifest: &Option<Manifest>, dir: &str) -> (r: String)
    ensures
        r@ == resources_dir_spec(opt_manifest(*manifest), dir@),
{
    match manifest {
        Some(m) => join_path(dir, m.resources.as_str()),
        None => join_path(dir, DEFAULT_RESOURCES),
    }
}

/// Where resources are, given whether the directory is there. One that the manifest names
/// has to be there.
pub open spec fn resources_spec(m: Option<ManifestView>, dir: Seq<char>, is_dir: bool) -> Result<
    Option<Seq<char>>,
    ProjectFault<Seq<char>>,
> {
    if is_dir {
        Ok(Some(resources_dir_spec(m, dir)))
    } else if m is Some && parts_spec(m->Some_0.resources) != parts_spec(DEFAULT_RESOURCES@) {
        Err(ProjectFault::MissingResources(resources_dir_spec(m, dir)))
    } else {
        Ok(None)
    }
}

/// Where resources are, given whether the directory is there.
pub fn resolve_resources(manifest: &Option<Manifest>, dir: &str, is_dir: bool) -> (r: Result<
    Option<String>,
    ProjectError,
>)
    ensures
        match r {
            Ok(p) => resources_spec(opt_manifest(*manifest), dir@, is_dir) == Ok::<
                Option<Seq<char>>,
                ProjectFault<Seq<char>>,
            >(opt_text(p)),
            Err(e) => resources_spec(opt_manifest(*manifest), dir@, is_dir) == Err::<
                Option<Seq<char>>,
                ProjectFault<Seq<char>>,
            >(e@),
        },
{
    let path = resources_dir(manifest, dir);
    if is_dir {
        return Ok(Some(path));
    }
    match manifest {
        Some(m) => if same_path(m.resources.as_str(), DEFAULT_RESOURCES) {
            Ok(None)
        } else {
            Err(ProjectFault::MissingResources(path))
        },
        None => Ok(None),
    }
}

/// What the user asks for on the command line.
#[derive(Debug, PartialEq, Eq)]
pub struct Requested {
    pub out: Option<String>,
    pub packaging: Option<Packaging>,
    pub entry: Option<String>,
}

/// A project.
#[derive(Debug, PartialEq, Eq)]
pub struct Project {
    pub dir: String,
    pub build_dir: String,
    pub out: Option<String>,
    pub entry: Option<String>,
    pub java: Option<Java>,
    pub resources: Option<String>,
    pub packaging: Packaging,
    pub class_path: OrdMap<Path, Scope>,
    pub manifest: Option<Manifest>,
}

/// A project, its texts as characters.
pub struct ProjectView {
    pub dir: Seq<char>,
    pub build_dir: Seq<char>,
    pub out: Option<Seq<char>>,
    pub entry: Option<Seq<char>>,
    pub resources: Option<Seq<char>>,
    pub packaging: Packaging,
    pub class_path: ClassPath,
    pub manifest: Option<ManifestView>,
}

impl View for Project {
    type V = ProjectView;

    open spec fn view(&self) -> ProjectView {
        ProjectView {
            dir: self.dir@,
            build_dir: self.build_dir@,
            out: opt_text(self.out),
            entry: opt_text(self.entry),
            resources: opt_text(self.resources),
            packaging: self.packaging,
            class_path: self.class_path@,
            manifest: opt_manifest(self.manifest),
        }
    }
}

/// Where the artifact goes: where the user says, or else where the manifest says.
pub open spec fn out_spec(dir: Seq<char>, asked: Option<Seq<char>>, m: Option<ManifestView>) -> Option<Seq<char>> {
    match asked {
        Some(o) => Some(join_path_spec(dir, o)),
        None => match m {
            Some(x) => match x.build.output {
                Some(o) => Some(join_path_spec(dir, o)),
                None => None,
            },
            None => None,
        },
    }
}

/// A project in a directory, given its manifest, if any, and whether its resources are there.
pub open spec fn project_spec(dir: Seq<char>, asked: Requested, m: Option<ManifestView>, resources_there: bool) -> Result<
    ProjectView,
    ProjectFault<Seq<char>>,
> {
    match resources_spec(m, dir, resources_there) {
        Err(e) => Err(e),
        Ok(resources) => Ok(
            ProjectView {
                dir,
                build_dir: join_path_spec(dir, "build"@),
                out: out_spec(dir, opt_text(asked.out), m),
                entry: opt_text(asked.entry),
                resources,
                packaging: match asked.packaging {
                    Some(p) => p,
                    None => match m {
                        Some(x) => x.build.packaging,
                        None => Packaging::Jar,
                    },
                },
                class_path: seq![(dir, Scope::Compile)],
                manifest: m,
            },
        ),
    }
}

/// The paths of a class path whose scope is one of those wanted.
pub open spec fn paths_in(cp: ClassPath, wanted: spec_fn(Scope) -> bool) -> Seq<Seq<char>>
    decreases cp.len(),
{
    if cp.len() == 0 {
        Seq::empty()
    } else if wanted(cp.last().1) {
        paths_in(cp.drop_last(), wanted).push(cp.last().0)
    } else {
        paths_in(cp.drop_last(), wanted)
    }
}

/// What a path on the class path is for.
#[derive(Clone, Copy, Debug, PartialEq, Eq, Structural)]
pub enum Purpose {
    /// Everything.
    Any,
    /// What sources are compiled against.
    Compile,
    /// What processes annotations.
    Process,
    /// What a program is run with.
    Run,
    /// What is bundled with the artifact.
    Bundle,
}

/// Whether a scope serves a purpose.
pub open spec fn serves(scope: Scope, purpose: Purpose) -> bool {
    match purpose {
        Purpose::Any => true,
        Purpose::Compile => scope == Scope::Compile || scope == Scope::Provided,
        Purpose::Process => scope == Scope::Processor,
        Purpose::Run => scope == Scope::Compile || scope == Scope::Runtime || scope == Scope::Provided,
        Purpose::Bundle => scope == Scope::Compile || scope == Scope::Runtime,
    }
}

/// Whether a scope serves a purpose.
pub fn scope_serves(scope: Scope, purpose: Purpose) -> (r: bool)
    ensures
        r == serves(scope, purpose),
{
    match purpose {
        Purpose::Any => true,
        Purpose::Compile => scope == Scope::Compile || scope == Scope::Provided,
        Purpose::Process => scope == Scope::Processor,
        Purpose::Run => scope == Scope::Compile || scope == Scope::Runtime || scope == Scope::Provided,
        Purpose::Bundle => scope == Scope::Compile || scope == Scope::Runtime,
    }
}

/// What each scope serves: sources are compiled against `compile` and `provided`, annotations
/// are processed by `processor` alone, `compile` and `runtime` are bundled, and `test` is for
/// tests only.
pub proof fn scopes_serve_their_purposes(scope: Scope)
    ensures
        serves(scope, Purpose::Compile) <==> scope == Scope::Compile || scope == Scope::Provided,
        serves(scope, Purpose::Process) <==> scope == Scope::Processor,
        serves(scope, Purpose::Bundle) <==> scope == Scope::Compile || scope == Scope::Runtime,
        scope == Scope::Test ==> !serves(scope, Purpose::Compile) && !serves(scope, Purpose::Process) && !serves(
            scope,
            Purpose::Run,
        ) && !serves(scope, Purpose::Bundle),
        serves(scope, Purpose::Bundle) ==> serves(scope, Purpose::Run),
{
}

/// The paths of a class path that serve a purpose, in order.
pub open spec fn paths_for(cp: ClassPath, purpose: Purpose) -> Seq<Seq<char>> {
    paths_in(cp, |s: Scope| serves(s, purpose))
}

fn collect_paths(cp: &OrdMap<Path, Scope>, purpose: Purpose) -> (r: Vec<String>)
    ensures
        texts(r@) == paths_for(cp@, purpose),
{
    let ghost c = cp@;
    let ghost wanted = |s: Scope| serves(s, purpose);
    let mut out: Vec<String> = Vec::new();
    let mut i: usize = 0;
    assert(c.take(0) =~= Seq::empty());
    assert(texts(out@) =~= Seq::empty());
    while i < cp.len()
        invariant
            i <= c.len(),
            c == cp@,
            wanted == (|s: Scope| serves(s, purpose)),
            texts(out@) == paths_in(c.take(i as int), wanted),
        decreases c.len() - i,
    {
        assert(c.take(i + 1).drop_last() =~= c.take(i as int));
        let (path, scope) = cp.at(i);
        if scope_serves(*scope, purpose) {
            add_text(&mut out, path.text.as_str());
        }
        i = i + 1;
    }
    assert(c.take(i as int) =~= c);
    out
}

/// Whether a file is a native library.
pub open spec fn is_native(path: Seq<char>) -> bool {
    extension_of(path) == Some("dll"@) || extension_of(path) == Some("so"@) || extension_of(path) == Some("dylib"@)
}

fn native_library(path: &str) -> (r: bool)
    ensures
        r == is_native(path@),
{
    match extension(path) {
        Some(e) => same(e.as_str(), "dll") || same(e.as_str(), "so") || same(e.as_str(), "dylib"),
        None => false,
    }
}

/// The directories of native libraries on a class path.
pub open spec fn native_dirs_spec(cp: ClassPath) -> Seq<Seq<char>>
    decreases cp.len(),
{
    if cp.len() == 0 {
        Seq::empty()
    } else {
        let before = native_dirs_spec(cp.drop_last());
        let p = cp.last().0;
        if is_native(p) && parent_spec(p) is Some {
            put::<Path>(before, parent_spec(p)->Some_0)
        } else {
            before
        }
    }
}

/// Whether a file is an archive.
pub open spec fn is_jar(path: Seq<char>) -> bool {
    extension_of(path) == Some("jar"@)
}

fn jar_file(path: &str) -> (r: bool)
    ensures
        r == is_jar(path@),
{
    match extension(path) {
        Some(e) => same(e.as_str(), "jar"),
        None => false,
    }
}

impl Project {
    /// The Java installation.
    pub fn java(&self) -> (r: &Java)
        requires
            self.java is Some,
        ensures
            *r == self.java->Some_0,
    {
        self.java.as_ref().unwrap()
    }

    /// Takes the Java installation, unless there is one already.
    pub fn ensure_java(&mut self, java: Java)
        ensures
            final(self)@ == old(self)@,
            final(self).java == Some(
                match old(self).java {
                    Some(j) => j,
                    None => java,
                },
            ),
    {
        if self.java.is_none() {
            self.java = Some(java);
        }
    }

    /// A project in a directory, given its manifest, if any, and whether its resources are
    /// there.
    pub fn new(dir: String, asked: Requested, manifest: Option<Manifest>, resources_there: bool) -> (r: Result<
        Project,
        ProjectError,
    >)
        ensures
            match r {
                Ok(p) => project_spec(dir@, asked, opt_manifest(manifest), resources_there) == Ok::<
                    ProjectView,
                    ProjectFault<Seq<char>>,
                >(p@) && p.java is None,
                Err(e) => project_spec(dir@, asked, opt_manifest(manifest), resources_there) == Err::<
                    ProjectView,
                    ProjectFault<Seq<char>>,
                >(e@),
            },
    {
        let build_dir = join_path(dir.as_str(), "build");
        let out = match &asked.out {
            Some(o) => Some(join_path(dir.as_str(), o.as_str())),
            None => match &manifest {
                Some(m) => match &m.build.output {
                    Some(o) => Some(join_path(dir.as_str(), o.as_str())),
                    None => None,
                },
                None => None,
            },
        };
        let packaging = match asked.packaging {
            Some(p) => p,
            None => match &manifest {
                Some(m) => m.build.packaging,
                None => Packaging::Jar,
            },
        };
        let resources = match resolve_resources(&manifest, dir.as_str(), resources_there) {
            Ok(p) => p,
            Err(e) => {
                return Err(e);
            },
        };
        let mut class_path: OrdMap<Path, Scope> = OrdMap::new();
        class_path.insert(Path { text: dir.clone() }, Scope::Compile);
        assert(class_path@ =~= seq![(dir@, Scope::Compile)]);
        Ok(
            Project {
                dir,
                build_dir,
                out,
                entry: copy_opt(&asked.entry),
                java: None,
                resources,
                packaging,
                class_path,
                manifest,
            },
        )
    }

    /// The paths on the class path, in order.
    pub fn class_path_iter(&self) -> (r: Vec<String>)
        ensures
            texts(r@) == paths_for(self@.class_path, Purpose::Any),
    {
        collect_paths(&self.class_path, Purpose::Any)
    }

    /// The paths that sources are compiled against, in order.
    pub fn compile_path(&self) -> (r: Vec<String>)
        ensures
            texts(r@) == paths_for(self@.class_path, Purpose::Compile),
    {
        collect_paths(&self.class_path, Purpose::Compile)
    }

    /// The paths that a program is run with, in order.
    pub fn runtime_path(&self) -> (r: Vec<String>)
        ensures
            texts(r@) == paths_for(self@.class_path, Purpose::Run),
    {
        collect_paths(&self.class_path, Purpose::Run)
    }

    /// The paths that process annotations, in order.
    pub fn processor_path_iter(&self) -> (r: Vec<String>)
        ensures
            texts(r@) == paths_for(self@.class_path, Purpose::Process),
    {
        collect_paths(&self.class_path, Purpose::Process)
    }

    /// The directories of native libraries on the class path.
    pub fn native_library_dirs(&self) -> (r: OrdSet<Path>)
        ensures
            r@ == native_dirs_spec(self@.class_path),
    {
        let ghost c = self.class_path@;
        let mut out: OrdSet<Path> = OrdSet::new();
        let mut i: usize = 0;
        assert(c.take(0) =~= Seq::empty());
        while i < self.class_path.len()
            invariant
                i <= c.len(),
                c == self.class_path@,
                out@ == native_dirs_spec(c.take(i as int)),
            decreases c.len() - i,
        {
            assert(c.take(i + 1).drop_last() =~= c.take(i as int));
            let (path, _) = self.class_path.at(i);
            if native_library(path.text.as_str()) {
                if let Some(d) = parent(path.text.as_str()) {
                    out.insert(Path { text: d });
                }
            }
            i = i + 1;
        }
        assert(c.take(i as int) =~= c);
        out
    }
}

/// Whether a Java release will do.
pub open spec fn release_will_do(required: Option<u32>, actual: Option<u32>) -> bool {
    required is None || (actual is Some && actual->Some_0 >= required->Some_0)
}

/// Whether the Java release that is there will do for the project.
pub fn check_release(manifest: &Option<Manifest>, actual: Option<u32>) -> (r: Result<(), ProjectError>)
    ensures
        ({
            let required = match opt_manifest(*manifest) {
                Some(m) => m.java.release,
                None => None,
            };
            match r {
                Ok(_) => release_will_do(required, actual),
                Err(e) => !release_will_do(required, actual) && e@ == ProjectFault::<Seq<char>>::OldJava(
                    required->Some_0,
                    actual,
                ),
            }
        }),
{
    let required = match manifest {
        Some(m) => m.java.release,
        None => None,
    };
    match required {
        None => Ok(()),
        Some(n) => match actual {
            Some(v) => if v >= n {
                Ok(())
            } else {
                Err(ProjectFault::OldJava(n, actual))
            },
            None => Err(ProjectFault::OldJava(n, actual)),
        },
    }
}

/// How Kotlin sources are compiled.
#[derive(Debug, PartialEq, Eq)]
pub struct KotlinConfig {
    pub version: Option<String>,
    pub source: String,
    pub compiler_args: Vec<String>,
}

/// A language that sources are in.
#[derive(Clone, Copy, Debug, PartialEq, Eq, Structural)]
pub enum Language {
    Kotlin,
    Java,
}

/// Sources to be compiled.
#[derive(Debug, PartialEq, Eq)]
pub struct Compilation {
    pub language: Language,
    pub source: String,
    pub args: Vec<String>,
}

/// Sources to be compiled, their texts as characters.
pub struct CompilationView {
    pub language: Language,
    pub source: Seq<char>,
    pub args: Seq<Seq<char>>,
}

impl View for Compilation {
    type V = CompilationView;

    open spec fn view(&self) -> CompilationView {
        CompilationView { language: self.language, source: self.source@, args: texts(self.args@) }
    }
}

/// Which directories of sources are there.
#[derive(Clone, Copy, Debug, PartialEq, Eq, Structural)]
pub struct SourceDirs {
    pub java: bool,
    pub kotlin: bool,
}

/// The Java sources of a project with a manifest.
pub open spec fn java_compilation(dir: Seq<char>, m: ManifestView) -> CompilationView {
    CompilationView {
        language: Language::Java,
        source: join_path_spec(dir, m.source),
        args: m.java.compiler_args,
    }
}

/// The Kotlin sources of a project.
pub open spec fn kotlin_compilation(dir: Seq<char>, k: KotlinConfig) -> CompilationView {
    CompilationView {
        language: Language::Kotlin,
        source: join_path_spec(dir, k.source@),
        args: texts(k.compiler_args@),
    }
}

/// What is compiled, in order: Kotlin before Java. Without a manifest the default directory
/// is; with Kotlin, Java sources may be missing.
pub open spec fn compilations_spec(
    dir: Seq<char>,
    m: Option<ManifestView>,
    kotlin: Option<KotlinConfig>,
    there: SourceDirs,
) -> Result<Seq<CompilationView>, ProjectFault<Seq<char>>> {
    match m {
        None => Ok(
            seq![
                CompilationView {
                    language: Language::Java,
                    source: join_path_spec(dir, DEFAULT_SOURCE@),
                    args: Seq::empty(),
                },
            ],
        ),
        Some(x) => match kotlin {
            Some(k) => if !there.kotlin {
                Err(ProjectFault::MissingKotlinSource(join_path_spec(dir, k.source@)))
            } else if there.java {
                Ok(seq![kotlin_compilation(dir, k), java_compilation(dir, x)])
            } else {
                Ok(seq![kotlin_compilation(dir, k)])
            },
            None => if there.java {
                Ok(seq![java_compilation(dir, x)])
            } else {
                Err(ProjectFault::MissingSource(join_path_spec(dir, x.source)))
            },
        },
    }
}

/// What is compiled, in order.
pub fn build_compilers(dir: &str, manifest: &Option<Manifest>, kotlin: &Option<KotlinConfig>, there: SourceDirs) -> (r:
    Result<Vec<Compilation>, ProjectError>)
    ensures
        match r {
            Ok(c) => compilations_spec(dir@, opt_manifest(*manifest), *kotlin, there) == Ok::<
                Seq<CompilationView>,
                ProjectFault<Seq<char>>,
            >(crate::order::views(c@)),
            Err(e) => compilations_spec(dir@, opt_manifest(*manifest), *kotlin, there) == Err::<
                Seq<CompilationView>,
                ProjectFault<Seq<char>>,
            >(e@),
        },
{
    let mut out: Vec<Compilation> = Vec::new();
    let m = match manifest {
        None => {
            let none: Vec<String> = Vec::new();
            assert(texts(none@) =~= Seq::empty());
            out.push(Compilation { language: Language::Java, source: join_path(dir, DEFAULT_SOURCE), args: none });
            assert(crate::order::views(out@) =~= compilations_spec(dir@, None, *kotlin, there)->Ok_0);
            return Ok(out);
        },
        Some(m) => m,
    };
    let java_source = join_path(dir, m.source.as_str());
    let java_args = crate::text::copy_texts(&m.java.compiler_args);
    let ghost whole = compilations_spec(dir@, opt_manifest(*manifest), *kotlin, there);
    match kotlin {
        Some(k) => {
            let kotlin_source = join_path(dir, k.source.as_str());
            if !there.kotlin {
                return Err(ProjectFault::MissingKotlinSource(kotlin_source));
            }
            out.push(
                Compilation {
                    language: Language::Kotlin,
                    source: kotlin_source,
                    args: crate::text::copy_texts(&k.compiler_args),
                },
            );
            if there.java {
                out.push(Compilation { language: Language::Java, source: java_source, args: java_args });
            }
            assert(crate::order::views(out@) =~= whole->Ok_0);
            Ok(out)
        },
        None => {
            if !there.java {
                return Err(ProjectFault::MissingSource(java_source));
            }
            out.push(Compilation { language: Language::Java, source: java_source, args: java_args });
            assert(crate::order::views(out@) =~= whole->Ok_0);
            Ok(out)
        },
    }
}

/// Whether the user is to be told that Kotlin sources are passed over: their directory is
/// there, and the project does not say that it has any.
pub fn warns_of_kotlin(manifest: &Option<Manifest>, kotlin: &Option<KotlinConfig>, default_there: bool) -> (r: bool)
    ensures
        r == (manifest is Some && kotlin is None && default_there),
{
    manifest.is_some() && kotlin.is_none() && default_there
}

/// The class path with the directories of sources.
pub open spec fn with_sources(cp: ClassPath, c: Seq<CompilationView>) -> ClassPath
    decreases c.len(),
{
    if c.len() == 0 {
        cp
    } else {
        assign::<Path, Scope>(with_sources(cp, c.drop_last()), c.last().source, Scope::Compile)
    }
}

/// What the artifact is called, without an extension.
pub open spec fn base_name_spec(m: Option<ManifestView>) -> Seq<char> {
    match m {
        Some(x) => x.artifact + seq!['-'] + x.version,
        None => "output"@,
    }
}

/// Where a file of the build goes: to the path asked for where it names an archive, else into
/// the directory asked for, or into the build directory.
pub open spec fn resolve_out_spec(out: Option<Seq<char>>, build_dir: Seq<char>, name: Seq<char>) -> Seq<char> {
    match out {
        Some(o) => if is_jar(o) {
            o
        } else {
            join_path_spec(o, name)
        },
        None => join_path_spec(build_dir, name),
    }
}

/// Lines of keys and values.
pub open spec fn entry_lines(entries: Seq<(Seq<char>, Seq<char>)>) -> Seq<char>
    decreases entries.len(),
{
    if entries.len() == 0 {
        Seq::empty()
    } else {
        entry_lines(entries.drop_last()) + entries.last().0 + ": "@ + entries.last().1 + seq!['\n']
    }
}

/// What is written for the manifest of an archive.
pub open spec fn manifest_text_spec(entries: Seq<(Seq<char>, Seq<char>)>) -> Seq<char> {
    "Manifest-Version: 1.0\n"@ + entry_lines(entries) + seq!['\n']
}

/// What is written for the manifest of an archive.
pub fn manifest_text(entries: &Vec<Attribute>) -> (r: String)
    ensures
        r@ == manifest_text_spec(crate::order::views(entries@)),
{
    let ghost e = crate::order::views(entries@);
    let mut s = "Manifest-Version: 1.0\n".to_owned();
    let mut i: usize = 0;
    assert(e.take(0) =~= Seq::empty());
    assert(s@ =~= "Manifest-Version: 1.0\n"@ + entry_lines(e.take(0)));
    while i < entries.len()
        invariant
            i <= entries@.len(),
            e == crate::order::views(entries@),
            s@ == "Manifest-Version: 1.0\n"@ + entry_lines(e.take(i as int)),
        decreases entries@.len() - i,
    {
        assert(e[i as int] == entries@[i as int]@);
        assert(e.take(i + 1).drop_last() =~= e.take(i as int));
        push_text(&mut s, entries[i].key.as_str());
        push_text(&mut s, ": ");
        push_text(&mut s, entries[i].value.as_str());
        s.push('\n');
        i = i + 1;
        assert(s@ =~= "Manifest-Version: 1.0\n"@ + entry_lines(e.take(i as int)));
    }
    assert(e.take(i as int) =~= e);
    s.push('\n');
    assert(s@ =~= manifest_text_spec(e));
    s
}

/// How the artifact is packed.
#[derive(Debug, PartialEq, Eq)]
pub struct BuildPlan {
    /// The archive of the project's own classes.
    pub slim_jar: String,
    /// The archive that the build leaves behind.
    pub final_jar: String,
    pub entry: Option<String>,
    /// What is written for the manifest of the archive, where there is anything to write.
    pub manifest: Option<String>,
    /// The archives that are bundled, where any are to be.
    pub bundled: Option<Vec<String>>,
    pub post_build: Option<String>,
}

/// How the artifact is packed, its texts as characters.
pub struct BuildPlanView {
    pub slim_jar: Seq<char>,
    pub final_jar: Seq<char>,
    pub entry: Option<Seq<char>>,
    pub manifest: Option<Seq<char>>,
    pub bundled: Option<Seq<Seq<char>>>,
    pub post_build: Option<Seq<char>>,
}

impl View for BuildPlan {
    type V = BuildPlanView;

    open spec fn view(&self) -> BuildPlanView {
        BuildPlanView {
            slim_jar: self.slim_jar@,
            final_jar: self.final_jar@,
            entry: opt_text(self.entry),
            manifest: opt_text(self.manifest),
            bundled: match self.bundled {
                Some(v) => Some(texts(v@)),
                None => None,
            },
            post_build: opt_text(self.post_build),
        }
    }
}

impl BuildPlan {
    /// Whether the archive of the project's own classes is copied to where the build leaves its
    /// archive: nothing is bundled, and the two paths have different parts.
    pub fn copies(&self) -> (r: bool)
        ensures
            r == (self@.bundled is None && parts_spec(self@.final_jar) != parts_spec(self@.slim_jar)),
    {
        self.bundled.is_none() && !same_path(self.final_jar.as_str(), self.slim_jar.as_str())
    }
}

/// The archives on a class path that are bundled, in order.
pub open spec fn bundled_spec(cp: ClassPath) -> Seq<Seq<char>>
    decreases cp.len(),
{
    if cp.len() == 0 {
        Seq::empty()
    } else if serves(cp.last().1, Purpose::Bundle) && is_jar(cp.last().0) {
        bundled_spec(cp.drop_last()).push(cp.last().0)
    } else {
        bundled_spec(cp.drop_last())
    }
}

/// Whether dependencies are bundled with the artifact.
pub open spec fn shadows(m: Option<ManifestView>) -> bool {
    m is Some && m->Some_0.build.shadow is Some
}

/// How the artifact of a project is packed.
pub open spec fn build_plan_spec(p: ProjectView) -> BuildPlanView {
    let base = base_name_spec(p.manifest);
    BuildPlanView {
        slim_jar: join_path_spec(p.build_dir, base + ".jar"@),
        final_jar: resolve_out_spec(
            p.out,
            p.build_dir,
            if shadows(p.manifest) {
                base + "-all.jar"@
            } else {
                base + ".jar"@
            },
        ),
        entry: match p.entry {
            Some(e) => Some(e),
            None => match p.manifest {
                Some(m) => m.entry,
                None => None,
            },
        },
        manifest: match p.manifest {
            Some(m) => if m.build.manifest.len() > 0 {
                Some(manifest_text_spec(m.build.manifest))
            } else {
                None
            },
            None => None,
        },
        bundled: if shadows(p.manifest) {
            Some(bundled_spec(p.class_path))
        } else {
            None
        },
        post_build: match p.manifest {
            Some(m) => m.build.post_build,
            None => None,
        },
    }
}

/// How tests are run.
#[derive(Debug, PartialEq, Eq)]
pub struct TestPlan {
    /// The archive of the JUnit console.
    pub console: String,
    /// The number that the version of the console begins with, or zero.
    pub console_major: u32,
    /// What tests are compiled against.
    pub compile_path: Vec<String>,
    /// What tests are run with.
    pub run_path: Vec<String>,
    /// Where the classes of the tests go.
    pub classes: String,
    pub filters: Vec<String>,
}

/// How tests are run, its texts as characters.
pub struct TestPlanView {
    pub console: Seq<char>,
    pub console_major: u32,
    pub compile_path: Seq<Seq<char>>,
    pub run_path: Seq<Seq<char>>,
    pub classes: Seq<char>,
    pub filters: Seq<Seq<char>>,
}

impl View for TestPlan {
    type V = TestPlanView;

    open spec fn view(&self) -> TestPlanView {
        TestPlanView {
            console: self.console@,
            console_major: self.console_major,
            compile_path: texts(self.compile_path@),
            run_path: texts(self.run_path@),
            classes: self.classes@,
            filters: texts(self.filters@),
        }
    }
}

/// Which tests are run.
#[derive(Debug, PartialEq, Eq)]
pub struct TestFilter {
    pub class: Option<String>,
    pub method: Option<String>,
    pub tag: Option<String>,
    pub exclude_tag: Option<String>,
}

/// A flag with its value, where there is one.
pub open spec fn filter_flag(flag: Seq<char>, value: Option<Seq<char>>) -> Seq<Seq<char>> {
    match value {
        Some(v) => seq![flag + v],
        None => Seq::empty(),
    }
}

/// The flags that say which tests are run.
pub open spec fn filters_spec(f: TestFilter) -> Seq<Seq<char>> {
    filter_flag("--select-class="@, opt_text(f.class)) + filter_flag("--select-method="@, opt_text(f.method))
        + filter_flag("--include-tag="@, opt_text(f.tag)) + filter_flag("--exclude-tag="@, opt_text(f.exclude_tag))
}

fn add_filter(out: &mut Vec<String>, flag: &str, value: &Option<String>)
    ensures
        texts(final(out)@) == texts(old(out)@) + filter_flag(flag@, opt_text(*value)),
{
    let ghost before = texts(out@);
    if let Some(v) = value {
        add_text(out, joined(flag, v.as_str()).as_str());
    }
    assert(texts(out@) =~= before + filter_flag(flag@, opt_text(*value)));
}

impl TestFilter {
    /// The flags that say which tests are run.
    pub fn args(&self) -> (r: Vec<String>)
        ensures
            texts(r@) == filters_spec(*self),
    {
        let mut out: Vec<String> = Vec::new();
        assert(texts(out@) =~= Seq::empty());
        add_filter(&mut out, "--select-class=", &self.class);
        assert(texts(out@) =~= filter_flag("--select-class="@, opt_text(self.class)));
        add_filter(&mut out, "--select-method=", &self.method);
        add_filter(&mut out, "--include-tag=", &self.tag);
        add_filter(&mut out, "--exclude-tag=", &self.exclude_tag);
        out
    }
}

/// Whether an entry of a class path is the JUnit console.
pub open spec fn is_console(e: (Seq<char>, Scope)) -> bool {
    e.1 == Scope::Test && file_name_spec(e.0) is Some && begins(file_name_spec(e.0)->Some_0, STANDALONE_PREFIX@)
}

/// The JUnit console on a class path: the first, where there are several.
pub open spec fn console_spec(cp: ClassPath) -> Option<Seq<char>>
    decreases cp.len(),
{
    if cp.len() == 0 {
        None
    } else if is_console(cp[0]) {
        Some(cp[0].0)
    } else {
        console_spec(cp.drop_first())
    }
}

/// The number that the version of a console begins with, or zero.
pub open spec fn console_major_spec(path: Seq<char>) -> u32 {
    match file_stem_spec(path) {
        Some(stem) => if begins(stem, STANDALONE_PREFIX@) {
            match number_spec(
                split_spec(stem.skip(STANDALONE_PREFIX@.len() as int), '.')[0],
                u32::MAX as nat,
            ) {
                Some(n) => n as u32,
                None => 0,
            }
        } else {
            0
        },
        None => 0,
    }
}

/// The paths of a class path without one of them.
pub open spec fn paths_without(cp: ClassPath, path: Seq<char>) -> Seq<Seq<char>>
    decreases cp.len(),
{
    if cp.len() == 0 {
        Seq::empty()
    } else if parts_spec(cp.last().0) != parts_spec(path) {
        paths_without(cp.drop_last(), path).push(cp.last().0)
    } else {
        paths_without(cp.drop_last(), path)
    }
}

/// How the tests of a project are run, given where its classes are.
pub open spec fn test_plan_spec(p: ProjectView, classes: Seq<char>, f: TestFilter) -> Result<
    TestPlanView,
    ProjectFault<Seq<char>>,
> {
    if p.manifest is None {
        Err(ProjectFault::NoManifest)
    } else {
        match console_spec(p.class_path) {
            None => Err(ProjectFault::NoConsole),
            Some(console) => {
                let test_classes = join_path_spec(p.build_dir, "test-classes"@);
                Ok(
                    TestPlanView {
                        console,
                        console_major: console_major_spec(console),
                        compile_path: paths_for(p.class_path, Purpose::Any).push(classes),
                        run_path: seq![classes, test_classes] + paths_without(p.class_path, console),
                        classes: test_classes,
                        filters: filters_spec(f),
                    },
                )
            },
        }
    }
}

fn find_console(cp: &OrdMap<Path, Scope>) -> (r: Option<String>)
    ensures
        opt_text(r) == console_spec(cp@),
{
    let ghost c = cp@;
    let mut i: usize = 0;
    assert(c.skip(0) =~= c);
    while i < cp.len()
        invariant
            i <= c.len(),
            c == cp@,
            console_spec(c) == console_spec(c.skip(i as int)),
        decreases c.len() - i,
    {
        let (path, scope) = cp.at(i);
        assert(c.skip(i as int)[0] == c[i as int]);
        if *scope == Scope::Test {
            if let Some(n) = file_name(path.text.as_str()) {
                if starts_with(n.as_str(), STANDALONE_PREFIX) {
                    return Some(path.text.clone());
                }
            }
        }
        assert(c.skip(i as int).drop_first() =~= c.skip(i + 1));
        i = i + 1;
    }
    None
}

fn console_major(path: &str) -> (r: u32)
    ensures
        r == console_major_spec(path@),
{
    match file_stem(path) {
        None => 0,
        Some(stem) => match strip_prefix(stem.as_str(), STANDALONE_PREFIX) {
            None => 0,
            Some(v) => {
                let parts = split_all(v.as_str(), '.');
                assert(texts(parts@)[0] == parts@[0]@);
                match parse_number(parts[0].as_str(), u32::MAX as u64) {
                    Some(n) => n as u32,
                    None => 0,
                }
            },
        },
    }
}

fn collect_without(cp: &OrdMap<Path, Scope>, path: &str) -> (r: Vec<String>)
    ensures
        texts(r@) == paths_without(cp@, path@),
{
    let ghost c = cp@;
    let mut out: Vec<String> = Vec::new();
    let mut i: usize = 0;
    assert(c.take(0) =~= Seq::empty());
    assert(texts(out@) =~= Seq::empty());
    while i < cp.len()
        invariant
            i <= c.len(),
            c == cp@,
            texts(out@) == paths_without(c.take(i as int), path@),
        decreases c.len() - i,
    {
        assert(c.take(i + 1).drop_last() =~= c.take(i as int));
        let (p, _) = cp.at(i);
        if !same_path(p.text.as_str(), path) {
            add_text(&mut out, p.text.as_str());
        }
        i = i + 1;
    }
    assert(c.take(i as int) =~= c);
    out
}

fn collect_bundled(cp: &OrdMap<Path, Scope>) -> (r: Vec<String>)
    ensures
        texts(r@) == bundled_spec(cp@),
{
    let ghost c = cp@;
    let mut out: Vec<String> = Vec::new();
    let mut i: usize = 0;
    assert(c.take(0) =~= Seq::empty());
    assert(texts(out@) =~= Seq::empty());
    while i < cp.len()
        invariant
            i <= c.len(),
            c == cp@,
            texts(out@) == bundled_spec(c.take(i as int)),
        decreases c.len() - i,
    {
        assert(c.take(i + 1).drop_last() =~= c.take(i as int));
        let (path, scope) = cp.at(i);
        if scope_serves(*scope, Purpose::Bundle) && jar_file(path.text.as_str()) {
            add_text(&mut out, path.text.as_str());
        }
        i = i + 1;
    }
    assert(c.take(i as int) =~= c);
    out
}

impl Project {
    /// Where compiled classes go.
    pub fn classes_dir(&self) -> (r: String)
        ensures
            r@ == join_path_spec(self@.build_dir, "classes"@),
    {
        join_path(self.build_dir.as_str(), "classes")
    }

    /// Whether the build leaves an archive behind.
    pub fn packs(&self) -> (r: bool)
        ensures
            r == (self@.packaging == Packaging::Jar),
    {
        self.packaging == Packaging::Jar
    }

    /// Adds the directories of sources to the class path.
    pub fn add_sources(&mut self, compilations: &Vec<Compilation>)
        ensures
            final(self)@ == (ProjectView {
                class_path: with_sources(old(self)@.class_path, crate::order::views(compilations@)),
                ..old(self)@
            }),
            final(self).java == old(self).java,
    {
        let ghost start = self.class_path@;
        let ghost cv = crate::order::views(compilations@);
        let mut i: usize = 0;
        assert(cv.take(0) =~= Seq::empty());
        while i < compilations.len()
            invariant
                i <= compilations@.len(),
                cv == crate::order::views(compilations@),
                self@ == (ProjectView { class_path: with_sources(start, cv.take(i as int)), ..old(self)@ }),
                self.java == old(self).java,
            decreases compilations@.len() - i,
        {
            assert(cv[i as int] == compilations@[i as int]@);
            assert(cv.take(i + 1).drop_last() =~= cv.take(i as int));
            self.class_path.insert(Path { text: compilations[i].source.clone() }, Scope::Compile);
            i = i + 1;
        }
        assert(cv.take(i as int) =~= cv);
    }

    /// Adds the resources to the class path, where nothing is packed.
    pub fn add_resources(&mut self)
        ensures
            final(self)@ == (ProjectView {
                class_path: match old(self)@.resources {
                    Some(r) => assign::<Path, Scope>(old(self)@.class_path, r, Scope::Compile),
                    None => old(self)@.class_path,
                },
                ..old(self)@
            }),
            final(self).java == old(self).java,
    {
        if let Some(r) = &self.resources {
            let path = Path { text: r.clone() };
            self.class_path.insert(path, Scope::Compile);
        }
    }

    /// How the artifact is packed.
    pub fn build_plan(&self) -> (r: BuildPlan)
        ensures
            r@ == build_plan_spec(self@),
    {
        let base = match &self.manifest {
            Some(m) => {
                let mut s = m.artifact.as_str().to_owned();
                s.push('-');
                push_text(&mut s, m.version.as_str());
                assert(s@ =~= base_name_spec(self@.manifest));
                s
            },
            None => "output".to_owned(),
        };
        let shadow = match &self.manifest {
            Some(m) => m.build.shadow.is_some(),
            None => false,
        };
        let slim_name = joined(base.as_str(), ".jar");
        let name = if shadow {
            joined(base.as_str(), "-all.jar")
        } else {
            slim_name.clone()
        };
        let final_jar = match &self.out {
            Some(o) => if jar_file(o.as_str()) {
                o.clone()
            } else {
                join_path(o.as_str(), name.as_str())
            },
            None => join_path(self.build_dir.as_str(), name.as_str()),
        };
        let entry = match &self.entry {
            Some(e) => Some(e.clone()),
            None => match &self.manifest {
                Some(m) => copy_opt(&m.entry),
                None => None,
            },
        };
        let manifest = match &self.manifest {
            Some(m) => if m.build.manifest.len() > 0 {
                Some(manifest_text(&m.build.manifest))
            } else {
                None
            },
            None => None,
        };
        let bundled = if shadow {
            Some(collect_bundled(&self.class_path))
        } else {
            None
        };
        let post_build = match &self.manifest {
            Some(m) => copy_opt(&m.build.post_build),
            None => None,
        };
        BuildPlan {
            slim_jar: join_path(self.build_dir.as_str(), slim_name.as_str()),
            final_jar,
            entry,
            manifest,
            bundled,
            post_build,
        }
    }

    /// How tests are run, given where the classes of the project are.
    pub fn test_plan(&self, classes_dir: &str, filter: &TestFilter) -> (r: Result<TestPlan, ProjectError>)
        ensures
            match r {
                Ok(p) => test_plan_spec(self@, classes_dir@, *filter) == Ok::<TestPlanView, ProjectFault<Seq<char>>>(
                    p@,
                ),
                Err(e) => test_plan_spec(self@, classes_dir@, *filter) == Err::<
                    TestPlanView,
                    ProjectFault<Seq<char>>,
                >(e@),
            },
    {
        if self.manifest.is_none() {
            return Err(ProjectFault::NoManifest);
        }
        let console = match find_console(&self.class_path) {
            None => {
                return Err(ProjectFault::NoConsole);
            },
            Some(c) => c,
        };
        let classes = join_path(self.build_dir.as_str(), "test-classes");
        let mut compile_path = self.class_path_iter();
        add_text(&mut compile_path, classes_dir);
        let mut run_path: Vec<String> = Vec::new();
        add_text(&mut run_path, classes_dir);
        add_text(&mut run_path, classes.as_str());
        assert(texts(run_path@) =~= seq![classes_dir@, classes@]);
        let rest = collect_without(&self.class_path, console.as_str());
        crate::text::add_texts(&mut run_path, &rest);
        Ok(
            TestPlan {
                console_major: console_major(console.as_str()),
                console,
                compile_path,
                run_path,
                classes,
                filters: filter.args(),
            },
        )
    }
}

/// The command that runs a line of the shell.
pub open spec fn shell_spec(dir: Seq<char>, command: Seq<char>, windows: bool) -> CommandView {
    CommandView {
        program: if windows { "cmd"@ } else { "sh"@ },
        dir: native(dir, windows),
        args: seq![if windows { "/C"@ } else { "-c"@ }, command],
    }
}

/// The command that runs a line of the shell.
pub fn shell_command(dir: &str, command: &str, windows: bool) -> (r: CommandLine)
    ensures
        r@ == shell_spec(dir@, command@, windows),
{
    let mut args: Vec<String> = Vec::new();
    add_text(&mut args, if windows { "/C" } else { "-c" });
    add_text(&mut args, command);
    assert(texts(args@) =~= shell_spec(dir@, command@, windows).args);
    let program = if windows { "cmd".to_owned() } else { "sh".to_owned() };
    CommandLine { program, dir: to_native(dir, windows), args }
}

/// Where neither an output nor bundling is asked for, the archive is left where it was made, and
/// nothing is copied.
pub proof fn plain_archive_is_not_copied(p: ProjectView)
    requires
        !shadows(p.manifest),
        p.out is None,
    ensures
        build_plan_spec(p).final_jar == build_plan_spec(p).slim_jar,
{
}

/// With dependencies bundled, the artifact has another name than without, where no name was
/// asked for: neither overwrites the other.
pub proof fn bundled_artifact_has_its_own_name(p: ProjectView)
    requires
        shadows(p.manifest),
        p.out is None,
    ensures
        build_plan_spec(p).final_jar == join_path_spec(p.build_dir, base_name_spec(p.manifest) + "-all.jar"@),
        build_plan_spec(p).slim_jar == join_path_spec(p.build_dir, base_name_spec(p.manifest) + ".jar"@),
        base_name_spec(p.manifest) + "-all.jar"@ != base_name_spec(p.manifest) + ".jar"@,
{
    reveal_strlit("-all.jar");
    reveal_strlit(".jar");
    let b = base_name_spec(p.manifest);
    assert((b + "-all.jar"@).len() != (b + ".jar"@).len());
}

/// A path serves a purpose where the class path has it in a scope that does, and only there.
pub proof fn path_serves_by_its_scope(cp: ClassPath, purpose: Purpose, path: Seq<char>)
    ensures
        paths_for(cp, purpose).contains(path) <==> exists|k: int|
            0 <= k < cp.len() && (#[trigger] cp[k]).0 == path && serves(cp[k].1, purpose),
    decreases cp.len(),
{
    let r = paths_for(cp, purpose);
    if cp.len() > 0 {
        let d = cp.drop_last();
        let q = paths_for(d, purpose);
        path_serves_by_its_scope(d, purpose, path);
        let l = cp.last();
        assert(cp[cp.len() - 1] == l);
        if r.contains(path) {
            let i = choose|i: int| 0 <= i < r.len() && r[i] == path;
            if i < q.len() {
                assert(q[i] == path);
                assert(q.contains(path));
                let k = choose|k: int| 0 <= k < d.len() && (#[trigger] d[k]).0 == path && serves(d[k].1, purpose);
                assert(cp[k] == d[k]);
            }
        }
        if exists|k: int| 0 <= k < cp.len() && (#[trigger] cp[k]).0 == path && serves(cp[k].1, purpose) {
            let k = choose|k: int| 0 <= k < cp.len() && (#[trigger] cp[k]).0 == path && serves(cp[k].1, purpose);
            if k < d.len() {
                assert(d[k] == cp[k]);
                assert(q.contains(path));
                let i = choose|i: int| 0 <= i < q.len() && q[i] == path;
                assert(r[i] == path);
            } else {
                assert(r[q.len() as int] == path);
            }
        }
    }
}

/// An archive is bundled where the class path has it in a scope that is bundled, and only
/// there.
pub proof fn archive_is_bundled_by_its_scope(cp: ClassPath, path: Seq<char>)
    ensures
        bundled_spec(cp).contains(path) <==> is_jar(path) && exists|k: int|
            0 <= k < cp.len() && (#[trigger] cp[k]).0 == path && serves(cp[k].1, Purpose::Bundle),
    decreases cp.len(),
{
    let r = bundled_spec(cp);
    if cp.len() > 0 {
        let d = cp.drop_last();
        let q = bundled_spec(d);
        archive_is_bundled_by_its_scope(d, path);
        let l = cp.last();
        assert(cp[cp.len() - 1] == l);
        if r.contains(path) {
            let i = choose|i: int| 0 <= i < r.len() && r[i] == path;
            if i < q.len() {
                assert(q[i] == path);
                assert(q.contains(path));
                let k = choose|k: int|
                    0 <= k < d.len() && (#[trigger] d[k]).0 == path && serves(d[k].1, Purpose::Bundle);
                assert(cp[k] == d[k]);
            }
        }
        if is_jar(path) && exists|k: int|
            0 <= k < cp.len() && (#[trigger] cp[k]).0 == path && serves(cp[k].1, Purpose::Bundle) {
            let k = choose|k: int|
                0 <= k < cp.len() && (#[trigger] cp[k]).0 == path && serves(cp[k].1, Purpose::Bundle);
            if k < d.len() {
                assert(d[k] == cp[k]);
                assert(q.contains(path));
                let i = choose|i: int| 0 <= i < q.len() && q[i] == path;
                assert(r[i] == path);
            } else {
                assert(r[q.len() as int] == path);
            }
        }
    }
}

} // verus!
