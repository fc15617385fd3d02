//! Laws of how a project is compiled, packed and tested.
use vstd::prelude::*;
use crate::manifest::{ManifestView, Packaging, Scope};
use crate::order::{assign_keeps_order, holds, lookup, put_keeps_order, sorted, Pair, Ranked};
use crate::paths::{extension_of, file_name_spec, join_path_spec, parent_spec, parts_spec, Path};
use crate::project::{
    build_plan_spec, bundled_spec, compilations_spec, console_spec, entry_lines, filters_spec, manifest_text_spec,
    native_dirs_spec, paths_for, paths_in, paths_without, project_spec, resources_spec, release_will_do,
    test_plan_spec, with_sources, BuildPlanView, ClassPath, CompilationView, KotlinConfig, Language, ProjectFault,
    ProjectView, Purpose, Requested, SourceDirs, TestFilter, TestPlanView,
};
use crate::text::{begins, opt_text, texts};

verus! {

/// Whether what is needed in a scope is there for a purpose.
pub open spec fn is_there_for(scope: Scope, purpose: Purpose) -> bool {
    ||| purpose == Purpose::Any
    ||| scope == Scope::Compile && purpose != Purpose::Process
    ||| scope == Scope::Runtime && (purpose == Purpose::Run || purpose == Purpose::Bundle)
    ||| scope == Scope::Provided && (purpose == Purpose::Compile || purpose == Purpose::Run)
    ||| scope == Scope::Processor && purpose == Purpose::Process
}

/// For each purpose there are all the paths of the class path whose scope is there for it, and no
/// others, in the order of the class path.
pub proof fn each_purpose_has_its_paths(cp: ClassPath, purpose: Purpose)
    ensures
        paths_for(cp, purpose) == cp.filter(|e: (Seq<char>, Scope)| is_there_for(e.1, purpose)).map_values(
            |e: (Seq<char>, Scope)| e.0,
        ),
        purpose == Purpose::Any ==> paths_for(cp, purpose) == cp.map_values(|e: (Seq<char>, Scope)| e.0),
    decreases cp.len(),
{
    reveal(Seq::filter);
    if cp.len() > 0 {
        each_purpose_has_its_paths(cp.drop_last(), purpose);
    }
    assert(paths_for(cp, purpose) =~= cp.filter(|e: (Seq<char>, Scope)| is_there_for(e.1, purpose)).map_values(
        |e: (Seq<char>, Scope)| e.0,
    ));
    if purpose == Purpose::Any {
        assert(paths_for(cp, purpose) =~= cp.map_values(|e: (Seq<char>, Scope)| e.0));
    }
}

/// All archives of the class path that are needed to compile or to run are bundled, and nothing
/// else, in the order of the class path.
pub proof fn all_that_runs_is_bundled(cp: ClassPath)
    ensures
        bundled_spec(cp) == cp.filter(
            |e: (Seq<char>, Scope)|
                (e.1 == Scope::Compile || e.1 == Scope::Runtime) && extension_of(e.0) == Some("jar"@),
        ).map_values(|e: (Seq<char>, Scope)| e.0),
    decreases cp.len(),
{
    reveal(Seq::filter);
    if cp.len() > 0 {
        all_that_runs_is_bundled(cp.drop_last());
    }
    assert(bundled_spec(cp) =~= cp.filter(
        |e: (Seq<char>, Scope)|
            (e.1 == Scope::Compile || e.1 == Scope::Runtime) && extension_of(e.0) == Some("jar"@),
    ).map_values(|e: (Seq<char>, Scope)| e.0));
}

proof fn all_but_one_path(cp: ClassPath, path: Seq<char>, p: Seq<char>)
    ensures
        paths_without(cp, path) == cp.filter(|e: (Seq<char>, Scope)| parts_spec(e.0) != parts_spec(path)).map_values(
            |e: (Seq<char>, Scope)| e.0,
        ),
        paths_without(cp, path).contains(p) <==> parts_spec(p) != parts_spec(path) && exists|k: int|
            0 <= k < cp.len() && (#[trigger] cp[k]).0 == p,
    decreases cp.len(),
{
    reveal(Seq::filter);
    let r = paths_without(cp, path);
    if cp.len() > 0 {
        let d = cp.drop_last();
        let q = paths_without(d, path);
        all_but_one_path(d, path, p);
        assert(cp[cp.len() - 1] == cp.last());
        if q.contains(p) {
            let i = choose|i: int| 0 <= i < q.len() && q[i] == p;
            assert(r[i] == p);
            let k = choose|k: int| 0 <= k < d.len() && (#[trigger] d[k]).0 == p;
            assert(cp[k].0 == p);
        }
        if r.contains(p) && !q.contains(p) {
            let i = choose|i: int| 0 <= i < r.len() && r[i] == p;
            if i < q.len() {
                assert(q[i] == p);
            }
            assert(cp[cp.len() - 1].0 == p);
        }
        if parts_spec(p) != parts_spec(path) && exists|k: int| 0 <= k < cp.len() && (#[trigger] cp[k]).0 == p {
            let k = choose|k: int| 0 <= k < cp.len() && (#[trigger] cp[k]).0 == p;
            if k < d.len() {
                assert(d[k] == cp[k]);
            } else {
                assert(r[r.len() - 1] == p);
            }
        }
    }
    assert(r =~= cp.filter(|e: (Seq<char>, Scope)| parts_spec(e.0) != parts_spec(path)).map_values(
        |e: (Seq<char>, Scope)| e.0,
    ));
}

/// Tests are compiled against all of the class path and the classes of the project. They are run
/// with the classes of the project, those of the tests, and every path of the class path, in
/// whatever scope, but the one of the console: a path is there exactly where the class path has
/// it and its parts are not those of the console.
pub proof fn tests_run_with_all_but_the_console(p: ProjectView, classes: Seq<char>, f: TestFilter, path: Seq<char>)
    requires
        test_plan_spec(p, classes, f) is Ok,
    ensures
        ({
            let plan = test_plan_spec(p, classes, f)->Ok_0;
            &&& plan.classes == join_path_spec(p.build_dir, "test-classes"@)
            &&& plan.compile_path == p.class_path.map_values(|e: (Seq<char>, Scope)| e.0).push(classes)
            &&& plan.run_path.len() >= 2
            &&& plan.run_path[0] == classes
            &&& plan.run_path[1] == plan.classes
            &&& plan.run_path.skip(2) == p.class_path.filter(
                |e: (Seq<char>, Scope)| parts_spec(e.0) != parts_spec(plan.console),
            ).map_values(|e: (Seq<char>, Scope)| e.0)
            &&& plan.run_path.skip(2).contains(path) <==> parts_spec(path) != parts_spec(plan.console)
                && exists|k: int| 0 <= k < p.class_path.len() && (#[trigger] p.class_path[k]).0 == path
        }),
{
    let plan = test_plan_spec(p, classes, f)->Ok_0;
    all_but_one_path(p.class_path, plan.console, path);
    each_purpose_has_its_paths(p.class_path, Purpose::Any);
    assert(plan.run_path.skip(2) =~= paths_without(p.class_path, plan.console));
}

/// Whether an entry of the class path is the JUnit console: a test dependency whose file is named
/// like it.
pub open spec fn is_junit_console(e: (Seq<char>, Scope)) -> bool {
    e.1 == Scope::Test && file_name_spec(e.0) is Some && begins(
        file_name_spec(e.0)->Some_0,
        "org.junit.platform-junit-platform-console-standalone-"@,
    )
}

proof fn console_is_the_first(cp: ClassPath)
    ensures
        match console_spec(cp) {
            Some(c) => exists|k: int|
                0 <= k < cp.len() && is_junit_console(#[trigger] cp[k]) && cp[k].0 == c && forall|l: int|
                    0 <= l < k ==> !is_junit_console(#[trigger] cp[l]),
            None => forall|l: int| 0 <= l < cp.len() ==> !is_junit_console(#[trigger] cp[l]),
        },
    decreases cp.len(),
{
    if cp.len() > 0 {
        let d = cp.drop_first();
        console_is_the_first(d);
        if is_junit_console(cp[0]) {
            assert(console_spec(cp) == Some(cp[0].0));
        } else {
            match console_spec(d) {
                Some(c) => {
                    let k = choose|k: int|
                        0 <= k < d.len() && is_junit_console(#[trigger] d[k]) && d[k].0 == c && forall|l: int|
                            0 <= l < k ==> !is_junit_console(#[trigger] d[l]);
                    assert(cp[k + 1] == d[k]);
                    assert forall|l: int| 0 <= l < k + 1 implies !is_junit_console(#[trigger] cp[l]) by {
                        if l > 0 {
                            assert(d[l - 1] == cp[l]);
                        }
                    }
                },
                None => {
                    assert forall|l: int| 0 <= l < cp.len() implies !is_junit_console(#[trigger] cp[l]) by {
                        if l > 0 {
                            assert(d[l - 1] == cp[l]);
                        }
                    }
                },
            }
        }
    }
}

/// Tests can be run where there is a manifest and a console among the test dependencies: the first
/// that there is. Without a manifest that is what is wrong, and else that there is no console.
pub proof fn tests_need_a_manifest_and_a_console(p: ProjectView, classes: Seq<char>, f: TestFilter)
    ensures
        match test_plan_spec(p, classes, f) {
            Ok(plan) => p.manifest is Some && exists|k: int|
                0 <= k < p.class_path.len() && is_junit_console(#[trigger] p.class_path[k]) && p.class_path[k].0
                    == plan.console && forall|l: int| 0 <= l < k ==> !is_junit_console(#[trigger] p.class_path[l]),
            Err(e) => if p.manifest is None {
                e == ProjectFault::<Seq<char>>::NoManifest
            } else {
                e == ProjectFault::<Seq<char>>::NoConsole && forall|l: int|
                    0 <= l < p.class_path.len() ==> !is_junit_console(#[trigger] p.class_path[l])
            },
        },
{
    console_is_the_first(p.class_path);
}

/// What filters there are: one flag for each that is asked for.
pub proof fn each_filter_is_a_flag(f: TestFilter)
    ensures
        filters_spec(f).len() == (if f.class is Some { 1int } else { 0 }) + (if f.method is Some { 1int } else { 0 })
            + (if f.tag is Some { 1int } else { 0 }) + (if f.exclude_tag is Some { 1int } else { 0 }),
        f.class is Some ==> filters_spec(f).contains("--select-class="@ + f.class->Some_0@),
        f.method is Some ==> filters_spec(f).contains("--select-method="@ + f.method->Some_0@),
        f.tag is Some ==> filters_spec(f).contains("--include-tag="@ + f.tag->Some_0@),
        f.exclude_tag is Some ==> filters_spec(f).contains("--exclude-tag="@ + f.exclude_tag->Some_0@),
{
    let r = filters_spec(f);
    let a = if f.class is Some { 1int } else { 0 };
    let b = a + if f.method is Some { 1int } else { 0 };
    let c = b + if f.tag is Some { 1int } else { 0 };
    if f.class is Some {
        assert(r[0] == "--select-class="@ + f.class->Some_0@);
    }
    if f.method is Some {
        assert(r[a] == "--select-method="@ + f.method->Some_0@);
    }
    if f.tag is Some {
        assert(r[b] == "--include-tag="@ + f.tag->Some_0@);
    }
    if f.exclude_tag is Some {
        assert(r[c] == "--exclude-tag="@ + f.exclude_tag->Some_0@);
    }
}

/// Whether a path leads to a native library.
pub open spec fn is_native_library(path: Seq<char>) -> bool {
    extension_of(path) == Some("dll"@) || extension_of(path) == Some("so"@) || extension_of(path) == Some("dylib"@)
}

/// The directory of every native library on the class path, in whatever scope, is searched for
/// them, and no other directory.
pub proof fn native_libraries_are_found(cp: ClassPath)
    ensures
        sorted::<Path>(native_dirs_spec(cp)),
        forall|k: int|
            0 <= k < cp.len() && is_native_library((#[trigger] cp[k]).0) && parent_spec(cp[k].0) is Some ==> holds::<
                Path,
            >(native_dirs_spec(cp), parent_spec(cp[k].0)->Some_0),
        forall|d: Seq<char>| #[trigger] native_dirs_spec(cp).contains(d) ==> exists|k: int|
            0 <= k < cp.len() && is_native_library((#[trigger] cp[k]).0) && parent_spec(cp[k].0) == Some(d),
    decreases cp.len(),
{
    let r = native_dirs_spec(cp);
    if cp.len() > 0 {
        let c = cp.drop_last();
        let q = native_dirs_spec(c);
        let l = cp.last();
        native_libraries_are_found(c);
        let adds = is_native_library(l.0) && parent_spec(l.0) is Some;
        if adds {
            put_keeps_order::<Path>(q, parent_spec(l.0)->Some_0);
        }
        assert forall|k: int|
            0 <= k < cp.len() && is_native_library((#[trigger] cp[k]).0) && parent_spec(cp[k].0)
                is Some implies holds::<Path>(r, parent_spec(cp[k].0)->Some_0) by {
            if k < c.len() {
                assert(c[k] == cp[k]);
                let x = parent_spec(cp[k].0)->Some_0;
                let i = choose|i: int| 0 <= i < q.len() && Path::code(#[trigger] q[i]) == Path::code(x);
                assert(q.contains(q[i]));
                assert(r.contains(q[i]));
                let j = choose|j: int| 0 <= j < r.len() && r[j] == q[i];
                assert(Path::code(r[j]) == Path::code(x));
            }
        }
        assert forall|d: Seq<char>| #[trigger] r.contains(d) implies exists|k: int|
            0 <= k < cp.len() && is_native_library((#[trigger] cp[k]).0) && parent_spec(cp[k].0) == Some(d) by {
            if q.contains(d) {
                let k = choose|k: int|
                    0 <= k < c.len() && is_native_library((#[trigger] c[k]).0) && parent_spec(c[k].0) == Some(d);
                assert(cp[k] == c[k]);
            } else {
                assert(cp[cp.len() - 1] == l);
            }
        }
    }
}

/// The directories of sources are on the class path, to compile with, and all else is there as
/// before.
pub proof fn sources_are_on_the_class_path(cp: ClassPath, c: Seq<CompilationView>, path: Seq<char>)
    requires
        sorted::<Pair<Path, Scope>>(cp),
    ensures
        sorted::<Pair<Path, Scope>>(with_sources(cp, c)),
        forall|k: int|
            0 <= k < c.len() ==> lookup::<Path, Scope>(with_sources(cp, c), (#[trigger] c[k]).source) == Some(
                Scope::Compile,
            ),
        (forall|k: int| 0 <= k < c.len() ==> Path::code((#[trigger] c[k]).source) != Path::code(path)) ==> lookup::<
            Path,
            Scope,
        >(with_sources(cp, c), path) == lookup::<Path, Scope>(cp, path),
    decreases c.len(),
{
    if c.len() > 0 {
        let d = c.drop_last();
        sources_are_on_the_class_path(cp, d, path);
        let before = with_sources(cp, d);
        let x = c.last().source;
        assert(c[c.len() - 1] == c.last());
        assign_keeps_order::<Path, Scope>(before, x, Scope::Compile);
        assert forall|k: int| 0 <= k < c.len() implies lookup::<Path, Scope>(
            with_sources(cp, c),
            (#[trigger] c[k]).source,
        ) == Some(Scope::Compile) by {
            if k < d.len() {
                assert(d[k] == c[k]);
                if Path::code(c[k].source) == Path::code(x) {
                    assert(lookup::<Path, Scope>(with_sources(cp, c), c[k].source) == lookup::<Path, Scope>(
                        with_sources(cp, c),
                        x,
                    ));
                }
            }
        }
        if forall|k: int| 0 <= k < c.len() ==> Path::code((#[trigger] c[k]).source) != Path::code(path) {
            assert forall|k: int| 0 <= k < d.len() implies Path::code((#[trigger] d[k]).source) != Path::code(path) by {
                assert(d[k] == c[k]);
            }
        }
    }
}

/// What the user asks for comes before what the manifest says, and that before the default. Paths
/// are in the directory of the project, unless they are absolute. The class path begins with the
/// directory itself.
pub proof fn project_takes_what_is_asked_for(
    dir: Seq<char>,
    asked: Requested,
    m: Option<ManifestView>,
    resources_there: bool,
)
    ensures
        match project_spec(dir, asked, m, resources_there) {
            Err(e) => e == ProjectFault::MissingResources(join_path_spec(dir, m->Some_0.resources))
                && !resources_there && m is Some && parts_spec(m->Some_0.resources) != parts_spec(
                "src/main/resources"@,
            ),
            Ok(p) => {
                &&& p.dir == dir
                &&& p.build_dir == join_path_spec(dir, "build"@)
                &&& p.manifest == m
                &&& p.class_path == seq![(dir, Scope::Compile)]
                &&& p.entry == opt_text(asked.entry)
                &&& asked.out is Some ==> p.out == Some(join_path_spec(dir, asked.out->Some_0@))
                &&& asked.out is None && m is Some && m->Some_0.build.output is Some ==> p.out == Some(
                    join_path_spec(dir, m->Some_0.build.output->Some_0),
                )
                &&& asked.out is None && (m is None || m->Some_0.build.output is None) ==> p.out is None
                &&& asked.packaging is Some ==> p.packaging == asked.packaging->Some_0
                &&& asked.packaging is None && m is Some ==> p.packaging == m->Some_0.build.packaging
                &&& asked.packaging is None && m is None ==> p.packaging == Packaging::Jar
                &&& resources_there && m is Some ==> p.resources == Some(join_path_spec(dir, m->Some_0.resources))
                &&& resources_there && m is None ==> p.resources == Some(join_path_spec(dir, "src/main/resources"@))
                &&& !resources_there ==> p.resources is None && (m is Some ==> parts_spec(m->Some_0.resources)
                    == parts_spec("src/main/resources"@))
            },
        },
{
}

/// A Java installation will do unless the manifest asks for a release, and then where it is known
/// to be that or a later one.
pub proof fn later_java_will_do(required: Option<u32>, a: u32, b: u32)
    ensures
        release_will_do(None, Some(a)),
        release_will_do(None, None),
        required is Some ==> !release_will_do(required, None),
        release_will_do(Some(a), Some(a)),
        release_will_do(Some(a), Some(b)) <==> a <= b,
{
}

/// Kotlin is compiled before Java, each from its directory with its own arguments. A directory
/// that the manifest names has to be there, but for that of Java beside Kotlin.
pub proof fn languages_are_compiled_in_order(
    dir: Seq<char>,
    m: ManifestView,
    kotlin: Option<KotlinConfig>,
    there: SourceDirs,
)
    ensures
        match compilations_spec(dir, Some(m), kotlin, there) {
            Err(e) => if kotlin is Some {
                !there.kotlin && e == ProjectFault::MissingKotlinSource(
                    join_path_spec(dir, kotlin->Some_0.source@),
                )
            } else {
                !there.java && e == ProjectFault::MissingSource(join_path_spec(dir, m.source))
            },
            Ok(c) => {
                &&& c.len() == (if kotlin is Some { 1int } else { 0 }) + if there.java { 1int } else { 0 }
                &&& c.len() > 0
                &&& kotlin is Some ==> there.kotlin && c[0].language == Language::Kotlin && c[0].source
                    == join_path_spec(dir, kotlin->Some_0.source@) && c[0].args == texts(
                    kotlin->Some_0.compiler_args@,
                )
                &&& there.java ==> c.last().language == Language::Java && c.last().source == join_path_spec(
                    dir,
                    m.source,
                ) && c.last().args == m.java.compiler_args
            },
        },
        ({
            let c = compilations_spec(dir, None, kotlin, there);
            &&& c is Ok
            &&& c->Ok_0.len() == 1
            &&& c->Ok_0[0].language == Language::Java
            &&& c->Ok_0[0].source == join_path_spec(dir, "src/main/java"@)
            &&& c->Ok_0[0].args.len() == 0
        }),
{
}

/// The archive is named after the artifact and its version, with `-all` where dependencies are
/// bundled. It is left in the build directory, or where an output says: in it, where that is no
/// archive itself. The entry class that is asked for comes before that of the manifest.
pub proof fn archive_is_left_where_it_is_asked_for(p: ProjectView)
    ensures
        ({
            let plan = build_plan_spec(p);
            let shadow = p.manifest is Some && p.manifest->Some_0.build.shadow is Some;
            let base = if p.manifest is Some {
                p.manifest->Some_0.artifact + "-"@ + p.manifest->Some_0.version
            } else {
                "output"@
            };
            let name = if shadow { base + "-all.jar"@ } else { base + ".jar"@ };
            &&& plan.slim_jar == join_path_spec(p.build_dir, base + ".jar"@)
            &&& p.out is None ==> plan.final_jar == join_path_spec(p.build_dir, name)
            &&& p.out is Some && extension_of(p.out->Some_0) == Some("jar"@) ==> plan.final_jar == p.out->Some_0
            &&& p.out is Some && extension_of(p.out->Some_0) != Some("jar"@) ==> plan.final_jar == join_path_spec(
                p.out->Some_0,
                name,
            )
            &&& p.entry is Some ==> plan.entry == p.entry
            &&& p.entry is None && p.manifest is Some ==> plan.entry == p.manifest->Some_0.entry
            &&& p.entry is None && p.manifest is None ==> plan.entry is None
            &&& plan.bundled is Some <==> shadow
            &&& shadow ==> plan.bundled == Some(
                p.class_path.filter(
                    |e: (Seq<char>, Scope)|
                        (e.1 == Scope::Compile || e.1 == Scope::Runtime) && extension_of(e.0) == Some("jar"@),
                ).map_values(|e: (Seq<char>, Scope)| e.0),
            )
            &&& plan.post_build == if p.manifest is Some { p.manifest->Some_0.build.post_build } else { None }
            &&& plan.manifest is Some <==> p.manifest is Some && p.manifest->Some_0.build.manifest.len() > 0
            &&& plan.manifest is Some ==> begins(plan.manifest->Some_0, "Manifest-Version: 1.0\n"@)
        }),
{
    reveal_strlit("-");
    assert("-"@ =~= seq!['-']);
    all_that_runs_is_bundled(p.class_path);
    if p.manifest is Some && p.manifest->Some_0.build.manifest.len() > 0 {
        let t = manifest_text_spec(p.manifest->Some_0.build.manifest);
        let v = "Manifest-Version: 1.0\n"@;
        assert(t.take(v.len() as int) =~= v);
    }
}

/// The entries of an archive's manifest stand one below the other, in order: those of two lists
/// are those of the first and then those of the second, and one entry is its name, a colon, a
/// blank, its value and the end of the line.
pub proof fn entries_stand_in_order(a: Seq<(Seq<char>, Seq<char>)>, b: Seq<(Seq<char>, Seq<char>)>, k: Seq<char>, v: Seq<char>)
    ensures
        entry_lines(a + b) == entry_lines(a) + entry_lines(b),
        entry_lines(seq![(k, v)]) == k + ": "@ + v + "\n"@,
        entry_lines(Seq::empty()) == Seq::<char>::empty(),
        manifest_text_spec(a) == "Manifest-Version: 1.0\n"@ + entry_lines(a) + "\n"@,
    decreases b.len(),
{
    reveal_strlit("\n");
    assert("\n"@ =~= seq!['\n']);
    let one = seq![(k, v)];
    assert(one.drop_last() =~= Seq::empty());
    assert(entry_lines(one.drop_last()) == Seq::<char>::empty());
    assert(entry_lines(one) =~= k + ": "@ + v + "\n"@);
    if b.len() == 0 {
        assert(a + b =~= a);
        assert(entry_lines(b) == Seq::<char>::empty());
        assert(entry_lines(a) + entry_lines(b) =~= entry_lines(a));
    } else {
        entries_stand_in_order(a, b.drop_last(), k, v);
        assert((a + b).drop_last() =~= a + b.drop_last());
        assert(entry_lines(a + b) =~= entry_lines(a) + entry_lines(b));
    }
}

} // verus!
