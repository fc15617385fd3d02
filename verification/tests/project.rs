use borneo::cli::{BuildArgs, OutputFormat, ProjectArgs, TestCommand};
use borneo::java::jar::{clean, is_excluded, Seen};
use borneo::java::{parse_major_version, read_java_version, Java};
use borneo::manifest::lock::{Checksum, Lock, LockArtifact};
use borneo::manifest::{ChecksumPolicy, DependencySource, Manifest, Packaging, PomScope, Scope};
use borneo::maven::loader::{PomDependency, Rank, Resolved, ResolvedArtifact};
use borneo::maven::Asset;
use borneo::order::{OrdMap, OrdSet};
use borneo::paths::{
    extension, file_name, file_stem, is_absolute, join_path, natives, parent, parts_of, place, same_path,
    to_native, to_slashes, with_added_extension, Part, Path,
};
use borneo::project::locking::{
    add_local_paths, direct_loads, finish_lock, is_cached, is_stale, library_file, local_paths, lock_artifact,
    lock_covers, lock_locals, plans, plans_given, recall,
};
use borneo::project::scopes::compute_effective_scopes;
use borneo::project::{
    build_compilers, check_release, manifest_path, manifest_text, resolve_path, resolve_resources,
    resources_dir, shell_command, warns_of_kotlin, Compilation, KotlinConfig, Language, Project, ProjectFault, Requested, SourceDirs,
    TestFilter,
};
use borneo::status::{downloaded, downloading, resolved as told_resolved, resolving, Progress, Status};
use borneo::text::{lines_of, parse_number};
use borneo::types::{ArtifactCoordinates, ArtifactType, ExclusionPattern};

fn coord(s: &str) -> ArtifactCoordinates {
    ArtifactCoordinates::from_str(s).unwrap()
}

fn manifest(rest: &str) -> Manifest {
    Manifest::parse(&format!("group \"g\"\nartifact \"app\"\nversion \"2\"\n{rest}")).unwrap()
}

fn strings(list: &[&str]) -> Vec<String> {
    list.iter().map(|s| s.to_string()).collect()
}

fn nothing() -> Requested {
    Requested { out: None, packaging: None, entry: None }
}

fn project(m: Option<Manifest>) -> Project {
    Project::new("/p".to_string(), nothing(), m, false).unwrap()
}

fn resolved(c: &str, deps: &[(&str, PomScope)]) -> Resolved {
    let mut dependencies = OrdMap::new();
    for (d, s) in deps {
        dependencies.insert(
            coord(d),
            PomDependency {
                scope: *s,
                artifact_type: ArtifactType::default(),
                classifier: None,
                exclusions: OrdSet::new(),
            },
        );
    }
    Resolved {
        artifact: ResolvedArtifact {
            coord: coord(c),
            source: "https://r".to_string(),
            artifact_path: "path".to_string(),
            artifact_type: ArtifactType::default(),
            classifier: None,
            effective_scope: Scope::Compile,
            dependencies,
        },
        rank: Rank { depth: 1, position: vec![0, 4] },
    }
}

#[test]
fn path_parts() {
    assert_eq!(
        parts_of("./a//b/./../c/"),
        vec![
            Part::Here,
            Part::Name("a".to_string()),
            Part::Name("b".to_string()),
            Part::Up,
            Part::Name("c".to_string())
        ]
    );
    assert_eq!(parts_of("/"), vec![Part::Root]);
    assert_eq!(parts_of(""), vec![]);
    assert!(same_path("a/b", "a//b/."));
    assert!(!same_path("a", "./a"));
    assert!(is_absolute("/a") && !is_absolute("a"));
}

#[test]
fn joined_paths() {
    assert_eq!(join_path("/p", "a"), "/p/a");
    assert_eq!(join_path("/p/", "a"), "/p/a");
    assert_eq!(join_path("/p", "/a"), "/a");
    assert_eq!(join_path("", "a"), "a");
    assert_eq!(join_path("p", ""), "p/");
}

#[test]
fn paths_of_a_system_with_drives() {
    for (path, slashed) in [
        ("C:\\p\\x.jar", "/C:/p/x.jar"),
        ("C:/p", "/C:/p"),
        ("c:x", "/c:x"),
        ("lib\\x.jar", "lib/x.jar"),
        ("\\x", "/x"),
        ("\\\\host\\share\\x", "//host/share/x"),
        ("\\\\?\\C:\\p", "/C:/p"),
        ("\\\\?\\UNC\\host\\share", "//host/share"),
        ("\\\\?\\Volume{1}\\x", "//?/Volume{1}/x"),
        ("1:x", "1:x"),
        ("C:", "/C:."),
        ("C:\\", "/C:/"),
        ("", ""),
    ] {
        assert_eq!(to_slashes(path, true), slashed);
        assert_eq!(to_slashes(path, false), path);
    }
    assert_eq!(to_native("/C:/p/x.jar", true), "C:\\p\\x.jar");
    assert_eq!(to_native("//host/share/x", true), "\\\\host\\share\\x");
    assert_eq!(to_native("lib/x", true), "lib\\x");
    assert_eq!(parent("/C:/x.dll").map(|p| to_native(&p, true)).as_deref(), Some("C:\\"));
    assert_eq!(to_native("/C:/p", false), "/C:/p");
    assert_eq!(natives(&strings(&["/C:/a", "b/c"]), true), strings(&["C:\\a", "b\\c"]));
    let at = |a: &str, b: &str| to_native(&join_path(&to_slashes(a, true), &place(&to_slashes(a, true), b, true)), true);
    assert_eq!(at("C:\\p", "D:\\x.jar"), "D:\\x.jar");
    assert_eq!(at("C:\\p", "lib\\x.jar"), "C:\\p\\lib\\x.jar");
    assert_eq!(at("C:\\p", "\\x.jar"), "C:\\x.jar");
    assert_eq!(at("C:\\p", "\\\\host\\share\\x"), "\\\\host\\share\\x");
    assert_eq!(place("/C:/p", "/x", false), "/x");
    assert_eq!(file_name(&to_slashes("C:\\p\\x.jar", true)).as_deref(), Some("x.jar"));
    assert_eq!(extension(&to_slashes("C:\\p.d\\x", true)), None);
}

#[test]
fn manifest_is_placed() {
    let mut m = manifest(
        "source \"s\\\\j\"\nresources \"D:\\\\r\"\nbuild { output \"\\\\o.jar\"; }\ntest { source \"t\\\\j\"; resources \"t/r\"; }\ndependencies {\n    compile path=\"l\\\\x.jar\"\n    compile \"g:a:1\"\n}\n",
    );
    let raw = local_paths(&m.dependencies);
    m.place("/C:/p", true);
    assert_eq!(raw, strings(&["l\\x.jar"]));
    assert_eq!(m.source, "s/j");
    assert_eq!(m.resources, "/D:/r");
    assert_eq!(m.build.output.as_deref(), Some("/C:/o.jar"));
    assert_eq!((m.test.source.as_str(), m.test.resources.as_str()), ("t/j", "t/r"));
    assert_eq!(m.dependencies[0].source, DependencySource::Path("l/x.jar".to_string()));
    assert_eq!(m.dependencies[1].source, DependencySource::Id(coord("g:a:1")));
    let mut same = manifest("source \"s\\\\j\"\n");
    same.place("/C:/p", false);
    assert_eq!(same, manifest("source \"s\\\\j\"\n"));
}

#[test]
fn commands_name_paths_as_the_system_does() {
    let j = Java::new("/C:/j".to_string(), None);
    let c = j.javac(
        "/C:/p",
        "/C:/o",
        &strings(&["/C:/a.jar", "/D:/b.jar"]),
        &strings(&["/C:/x.jar"]),
        &strings(&["/C:/p/F.java"]),
        &strings(&["-Ak=a/b"]),
        true,
    );
    assert_eq!(c.program, "C:\\j\\bin\\javac");
    assert_eq!(c.dir, "C:\\p");
    assert_eq!(
        c.args,
        strings(&[
            "-encoding",
            "UTF-8",
            "-d",
            "C:\\o",
            "-cp",
            "C:\\a.jar;D:\\b.jar",
            "-processorpath",
            "C:\\x.jar",
            "-Ak=a/b",
            "C:\\p\\F.java"
        ])
    );
    assert_eq!(
        j.jar("/C:/p", "/C:/o", "/C:/x.jar", Some("M"), Some("/C:/F"), true).args,
        strings(&["cfme", "C:\\x.jar", "C:\\F", "M", "-C", "C:\\o", "."])
    );
    let mut dirs = OrdSet::new();
    dirs.insert(Path { text: "/C:/n".to_string() });
    assert_eq!(
        j.run("/C:/p", "/C:/o", &strings(&["/C:/a"]), "M", &dirs, &vec![], true).args,
        strings(&["-Dfile.encoding=UTF-8", "-Djava.library.path=C:\\n", "-cp", "C:\\o;C:\\a", "M"])
    );
    assert_eq!(
        j.run_jar("/C:/p", "/C:/x.jar", &OrdSet::new(), &vec![], true).args,
        strings(&["-Dfile.encoding=UTF-8", "-jar", "C:\\x.jar"])
    );
    let t = j.run_tests("/C:/p", "/C:/c.jar", &strings(&["/C:/a"]), "/C:/t", &vec![], &vec![], true);
    assert_eq!(
        t.args[1..],
        strings(&["-jar", "C:\\c.jar", "execute", "--class-path", "C:\\a", "--scan-class-path", "C:\\t"])[..]
    );
    assert_eq!(j.extract_jar("/C:/x.jar", "/C:/d", true).args, strings(&["xf", "C:\\x.jar"]));
}

#[test]
fn names_and_extensions() {
    assert_eq!(file_name("a/b.tar.gz/").as_deref(), Some("b.tar.gz"));
    assert_eq!(extension("a/b.tar.gz").as_deref(), Some("gz"));
    assert_eq!(file_stem("a/b.tar.gz").as_deref(), Some("b.tar"));
    assert_eq!(extension(".hidden"), None);
    assert_eq!(file_stem(".hidden").as_deref(), Some(".hidden"));
    assert_eq!(file_name(".."), None);
    assert_eq!(file_name("/"), None);
    assert_eq!(extension("a."), Some(String::new()));
    assert_eq!(with_added_extension("a/b-1.0/", "pom"), "a/b-1.0.pom");
    assert_eq!(with_added_extension("..", "pom"), "..");
    assert_eq!(with_added_extension("a", ""), "a");
    assert_eq!(parent("/a/b").as_deref(), Some("/a"));
    assert_eq!(parent("/a").as_deref(), Some("/"));
    assert_eq!(parent("a").as_deref(), Some(""));
    assert_eq!(parent("/"), None);
    assert_eq!(parent(""), None);
}

#[test]
fn numbers_and_lines() {
    assert_eq!(parse_number("+007", 10), Some(7));
    assert_eq!(parse_number("11", 10), None);
    assert_eq!(parse_number("", 10), None);
    assert_eq!(parse_number("+", 10), None);
    assert_eq!(parse_number("-1", 10), None);
    assert_eq!(parse_number("18446744073709551615", u64::MAX), Some(u64::MAX));
    assert_eq!(parse_number("18446744073709551616", u64::MAX), None);
    assert_eq!(lines_of("a\r\nb\n\nc\r"), strings(&["a", "b", "", "c\r"]));
    assert_eq!(lines_of("a\n"), strings(&["a"]));
    assert!(lines_of("").is_empty());
}

#[test]
fn paths_of_the_user() {
    assert_eq!(resolve_path("/p", None, "borneo.kdl"), "/p/borneo.kdl");
    assert_eq!(resolve_path("/p", Some("x.kdl"), "borneo.kdl"), "/p/x.kdl");
    assert_eq!(resolve_path("/p", Some("/q/x.kdl"), "borneo.kdl"), "/q/x.kdl");
    assert_eq!(manifest_path("/p/sub".to_string(), true), "/p/sub/borneo.kdl");
    assert_eq!(manifest_path("/p/x.kdl".to_string(), false), "/p/x.kdl");
}

#[test]
fn resources_that_are_named_must_be_there() {
    assert_eq!(resolve_resources(&None, "/p", true).unwrap().as_deref(), Some("/p/src/main/resources"));
    assert_eq!(resolve_resources(&None, "/p", false).unwrap(), None);
    let default = Some(manifest("resources \"src/main/resources/\"\n"));
    assert_eq!(resolve_resources(&default, "/p", false).unwrap(), None);
    let other = Some(manifest("resources \"assets\"\n"));
    assert_eq!(
        resolve_resources(&other, "/p", false).unwrap_err(),
        ProjectFault::MissingResources("/p/assets".to_string())
    );
}

#[test]
fn project_takes_the_users_word_first() {
    let m = || Some(manifest("build {\n    output \"o\"\n    packaging \"dir\"\n}\n"));
    let p = project(m());
    assert_eq!(p.build_dir, "/p/build");
    assert_eq!(p.out.as_deref(), Some("/p/o"));
    assert_eq!(p.packaging, Packaging::Dir);
    assert_eq!(p.class_path_iter(), strings(&["/p"]));
    let asked = Requested {
        out: Some("/x/y.jar".to_string()),
        packaging: Some(Packaging::Jar),
        entry: Some("E".to_string()),
    };
    let q = Project::new("/p".to_string(), asked, m(), true).unwrap();
    assert_eq!(q.out.as_deref(), Some("/x/y.jar"));
    assert_eq!(q.packaging, Packaging::Jar);
    assert_eq!(q.entry.as_deref(), Some("E"));
    assert_eq!(q.resources.as_deref(), Some("/p/src/main/resources"));
}

fn with_class_path(p: &mut Project, list: &[(&str, Scope)]) {
    for (path, scope) in list {
        p.class_path.insert(Path { text: path.to_string() }, *scope);
    }
}

#[test]
fn scopes_decide_what_paths_are_for() {
    let mut p = project(None);
    with_class_path(
        &mut p,
        &[
            ("c.jar", Scope::Compile),
            ("r.jar", Scope::Runtime),
            ("v.jar", Scope::Provided),
            ("x.jar", Scope::Processor),
            ("t.jar", Scope::Test),
        ],
    );
    assert_eq!(p.class_path_iter(), strings(&["/p", "c.jar", "r.jar", "t.jar", "v.jar", "x.jar"]));
    assert_eq!(p.compile_path(), strings(&["/p", "c.jar", "v.jar"]));
    assert_eq!(p.runtime_path(), strings(&["/p", "c.jar", "r.jar", "v.jar"]));
    assert_eq!(p.processor_path_iter(), strings(&["x.jar"]));
}

#[test]
fn native_libraries_by_directory() {
    let mut p = project(None);
    with_class_path(
        &mut p,
        &[("/n/a.so", Scope::Runtime), ("/n/b.dll", Scope::Runtime), ("m/c.dylib", Scope::Runtime), ("/k/d.jar", Scope::Runtime)],
    );
    let dirs = p.native_library_dirs();
    assert_eq!(dirs.len(), 2);
    assert_eq!(dirs.at(0).text, "/n");
    assert_eq!(dirs.at(1).text, "m");
}

#[test]
fn java_release_is_checked() {
    let m = Some(manifest("java { release \"21\"; }\n"));
    assert!(check_release(&m, Some(21)).is_ok());
    assert_eq!(check_release(&m, Some(17)).unwrap_err(), ProjectFault::OldJava(21, Some(17)));
    assert_eq!(check_release(&m, None).unwrap_err(), ProjectFault::OldJava(21, None));
    assert!(check_release(&Some(manifest("")), None).is_ok());
    assert!(check_release(&None, None).is_ok());
}

#[test]
fn compilers_in_order() {
    let m = Some(manifest("source \"s\"\njava { compiler-args \"-g\"; }\n"));
    let k = Some(KotlinConfig { version: None, source: "k".to_string(), compiler_args: strings(&["-x"]) });
    let dirs = |java: bool, kotlin: bool| SourceDirs { java, kotlin };
    let java = Compilation { language: Language::Java, source: "/p/s".to_string(), args: strings(&["-g"]) };
    let kotlin = Compilation { language: Language::Kotlin, source: "/p/k".to_string(), args: strings(&["-x"]) };
    assert_eq!(build_compilers("/p", &m, &None, dirs(true, false)).unwrap(), vec![java]);
    assert_eq!(
        build_compilers("/p", &m, &None, dirs(false, false)).unwrap_err(),
        ProjectFault::MissingSource("/p/s".to_string())
    );
    assert_eq!(
        build_compilers("/p", &m, &k, dirs(true, false)).unwrap_err(),
        ProjectFault::MissingKotlinSource("/p/k".to_string())
    );
    let both = build_compilers("/p", &m, &k, dirs(true, true)).unwrap();
    assert_eq!(both.len(), 2);
    assert_eq!(both[0], kotlin);
    assert_eq!(build_compilers("/p", &m, &k, dirs(false, true)).unwrap(), vec![kotlin]);
    let bare = build_compilers("/p", &None, &None, dirs(false, false)).unwrap();
    assert_eq!(bare[0].source, "/p/src/main/java");
    assert!(warns_of_kotlin(&m, &None, true));
    assert!(!warns_of_kotlin(&m, &k, true));
    assert!(!warns_of_kotlin(&None, &None, true));
    let mut p = project(None);
    p.add_sources(&both);
    assert_eq!(p.class_path_iter(), strings(&["/p", "/p/k", "/p/s"]));
    p.resources = Some("/p/res".to_string());
    p.add_resources();
    assert_eq!(p.class_path_iter(), strings(&["/p", "/p/k", "/p/res", "/p/s"]));
    assert_eq!(p.classes_dir(), "/p/build/classes");
}

#[test]
fn plain_build() {
    let b = project(None).build_plan();
    assert_eq!(b.slim_jar, "/p/build/output.jar");
    assert_eq!(b.final_jar, "/p/build/output.jar");
    assert_eq!(b.entry, None);
    assert_eq!(b.manifest, None);
    assert_eq!(b.bundled, None);
    let m = project(Some(manifest("entry \"M\"\nbuild { output \"dist\"; }\n"))).build_plan();
    assert_eq!(m.final_jar, "/p/dist/app-2.jar");
    assert_eq!(m.entry.as_deref(), Some("M"));
}

#[test]
fn archive_is_copied_to_another_place_only() {
    let plan = |out: &str| project(Some(manifest(&format!("build {{ output \"{out}\"; }}\n")))).build_plan();
    assert!(!project(None).build_plan().copies());
    assert!(!plan("./build/app-2.jar").copies());
    assert!(!plan("build//app-2.jar").copies());
    assert!(!plan("build").copies());
    assert!(plan("dist").copies());
    assert!(plan("app-2.jar").copies());
    let shadow = project(Some(manifest("build { output \"dist\"; shadow \"true\"; }\n"))).build_plan();
    assert!(!shadow.copies());
    assert!(project(None).packs());
    assert!(!project(Some(manifest("build { packaging \"dir\"; }\n"))).packs());
}

#[test]
fn bundled_build() {
    let mut p = project(Some(manifest(
        "build {\n    shadow \"true\"\n    post-build \"echo\"\n    manifest {\n        A \"1\"\n        B \"2\"\n    }\n}\n",
    )));
    with_class_path(
        &mut p,
        &[
            ("b.jar", Scope::Runtime),
            ("a.jar", Scope::Compile),
            ("classes", Scope::Compile),
            ("v.jar", Scope::Provided),
            ("t.jar", Scope::Test),
        ],
    );
    let b = p.build_plan();
    assert_eq!(b.slim_jar, "/p/build/app-2.jar");
    assert_eq!(b.final_jar, "/p/build/app-2-all.jar");
    assert_eq!(b.bundled, Some(strings(&["a.jar", "b.jar"])));
    assert_eq!(b.manifest.as_deref(), Some("Manifest-Version: 1.0\nA: 1\nB: 2\n\n"));
    assert_eq!(b.post_build.as_deref(), Some("echo"));
    p.out = Some("/o/my.jar".to_string());
    p.entry = Some("E".to_string());
    assert_eq!(p.build_plan().final_jar, "/o/my.jar");
    assert_eq!(p.build_plan().entry.as_deref(), Some("E"));
    assert_eq!(manifest_text(&vec![]), "Manifest-Version: 1.0\n\n");
}

fn filter() -> TestFilter {
    TestFilter {
        class: Some("C".to_string()),
        method: Some("C#m".to_string()),
        tag: Some("fast".to_string()),
        exclude_tag: Some("slow".to_string()),
    }
}

#[test]
fn tests_need_the_console() {
    assert_eq!(project(None).test_plan("/c", &filter()).unwrap_err(), ProjectFault::NoManifest);
    let mut p = project(Some(manifest("")));
    let name = "/l/org.junit.platform-junit-platform-console-standalone-6.0.1.jar";
    with_class_path(&mut p, &[(name, Scope::Compile)]);
    assert_eq!(p.test_plan("/c", &filter()).unwrap_err(), ProjectFault::NoConsole);
    with_class_path(&mut p, &[(name, Scope::Test)]);
    let t = p.test_plan("/c", &filter()).unwrap();
    assert_eq!(t.console, name);
    assert_eq!(t.console_major, 6);
    assert_eq!(t.compile_path, strings(&[name, "/p", "/c"]));
    assert_eq!(t.run_path, strings(&["/c", "/p/build/test-classes", "/p"]));
    assert_eq!(t.classes, "/p/build/test-classes");
    assert_eq!(
        t.filters,
        strings(&["--select-class=C", "--select-method=C#m", "--include-tag=fast", "--exclude-tag=slow"])
    );
    let none = TestFilter { class: None, method: None, tag: None, exclude_tag: None };
    assert!(none.args().is_empty());
}

#[test]
fn console_without_a_number() {
    let mut p = project(Some(manifest("")));
    with_class_path(&mut p, &[("org.junit.platform-junit-platform-console-standalone-x.jar", Scope::Test)]);
    assert_eq!(p.test_plan("/c", &filter()).unwrap().console_major, 0);
}

#[test]
fn widest_scope_wins() {
    let m = manifest("dependencies {\n    test \"g:t:1\"\n    compile \"g:c:1\"\n    compile path=\"x.jar\"\n}\n");
    let arts = vec![
        resolved("g:t:1", &[("g:x:1", PomScope::Compile)]),
        resolved("g:c:1", &[("g:y:1", PomScope::Runtime)]),
        resolved("g:y:1", &[("g:x:1", PomScope::Compile), ("g:c:1", PomScope::Compile)]),
        resolved("g:x:1", &[]),
    ];
    let s = compute_effective_scopes(&m.dependencies, &arts);
    assert_eq!(s.len(), 4);
    assert_eq!(s.get(&coord("g:t:1")), Some(&Scope::Test));
    assert_eq!(s.get(&coord("g:c:1")), Some(&Scope::Compile));
    assert_eq!(s.get(&coord("g:y:1")), Some(&Scope::Runtime));
    assert_eq!(s.get(&coord("g:x:1")), Some(&Scope::Runtime));
    assert_eq!(s.get(&coord("g:z:1")), None);
}

#[test]
fn equally_wide_scopes_keep_the_first() {
    let m = manifest("dependencies {\n    processor \"g:a:1\"\n    provided \"g:a:1\"\n}\n");
    let s = compute_effective_scopes(&m.dependencies, &vec![]);
    assert_eq!(s.get(&coord("g:a:1")), Some(&Scope::Processor));
}

#[test]
fn library_names() {
    let t = ArtifactType::new("test-jar".to_string());
    assert_eq!(library_file(&coord("g.h:a:1"), &Some("tests".to_string()), &t), "g.h-a-1-tests.jar");
    assert_eq!(library_file(&coord("g:a:1"), &None, &ArtifactType::new("so".to_string())), "g-a-1.so");
}

fn locked(c: &str, digest: Vec<u8>) -> Lock {
    let mut artifacts = OrdSet::new();
    artifacts.insert(LockArtifact {
        coord: coord(c),
        classifier: None,
        artifact_type: ArtifactType::default(),
        source: "s".to_string(),
        artifact_path: "p".to_string(),
        checksum: Checksum::provided(digest),
        effective_scope: Scope::Compile,
        depth: 0,
        position: vec![0],
        dependencies: OrdMap::new(),
        exclusions: OrdSet::new(),
    });
    Lock { version: "1".to_string(), repositories: OrdSet::new(), artifacts, local: OrdSet::new() }
}

#[test]
fn stale_libraries() {
    let l = locked("g:a:1", vec![]);
    assert!(!is_stale(Some(&l), "g-a-1.jar"));
    assert!(is_stale(Some(&l), "g-a-2.jar"));
    assert!(is_stale(None, "g-a-1.jar"));
}

#[test]
fn direct_dependencies_are_loaded() {
    let m = manifest("dependencies {\n    compile path=\"x.jar\"\n    runtime \"g:a:1\" { exclude \"x:y\"; }\n}\n");
    let l = direct_loads(&m.dependencies);
    assert_eq!(l.len(), 1);
    assert_eq!(l[0].branch.position, vec![1]);
    assert_eq!(l[0].branch.effective_scope, Scope::Runtime);
    assert_eq!(l[0].branch.exclusions.len(), 1);
    assert_eq!(local_paths(&m.dependencies), strings(&["x.jar"]));
    let mut cp = OrdMap::new();
    add_local_paths(&mut cp, "/p", &m.dependencies);
    assert_eq!(cp.at(0).0.text, "/p/x.jar");
    assert_eq!(cp.at(0).1, &Scope::Compile);
}

#[test]
fn local_files_are_locked_by_digest() {
    let l = lock_locals(&strings(&["b.jar", "a.jar"]), &vec![b"abc".to_vec(), vec![]]);
    assert_eq!(l.at(0).path, "a.jar");
    assert_eq!(
        l.at(1).checksum.to_string(),
        "ba7816bf8f01cfea414140de5dae2223b00361a396177a9cb410ff61f20015ad"
    );
}

#[test]
fn artifacts_are_planned_and_locked() {
    let m = manifest("dependencies {\n    provided \"g:a:1\" { exclude \"x:y\"; }\n}\n");
    let arts = vec![resolved("g:a:1", &[("g:b:1", PomScope::Runtime)]), resolved("g:c:1", &[])];
    let old = locked("g:a:1", Asset::of(&b"abc".to_vec()).sha256);
    let p = plans(&arts, &m.dependencies, Some(&old), "/p/build/libraries");
    assert_eq!(p[0].out, "/p/build/libraries/g-a-1.jar");
    assert_eq!(p[0].scope, Scope::Provided);
    assert_eq!(p[0].exclusions.len(), 1);
    assert_eq!(p[1].scope, Scope::Compile);
    assert_eq!(p[1].expected, None);
    assert!(is_cached(&p[0], Some(&Asset::of(&b"abc".to_vec()))));
    assert!(!is_cached(&p[0], Some(&Asset::of(&b"abd".to_vec()))));
    assert!(!is_cached(&p[0], None));
    assert!(!is_cached(&p[1], Some(&Asset::of(&b"abc".to_vec()))));
    let mut cp = OrdMap::new();
    let lock = finish_lock(
        &mut cp,
        &arts,
        &p,
        &vec![vec![1], vec![2]],
        &strings(&["z", "a"]),
        OrdSet::new(),
    );
    assert_eq!(lock.version, "1");
    assert_eq!(lock.repositories.at(0), "a");
    assert_eq!(lock.artifacts.len(), 2);
    let a = lock.artifacts.at(0);
    assert_eq!(a.checksum.digest(), &vec![1]);
    assert_eq!(a.effective_scope, Scope::Provided);
    assert_eq!(a.position, vec![0, 4]);
    assert_eq!(a.dependencies.at(0).1, &PomScope::Runtime);
    assert_eq!(cp.len(), 2);
    assert_eq!(cp.at(0).0.text, "/p/build/libraries/g-a-1.jar");
    assert_eq!(Lock::parse(&lock.to_kdl()).unwrap(), lock);
    let none = plans_given(&arts, &m.dependencies, &OrdMap::new(), None, "l");
    assert_eq!(none[0].scope, Scope::Compile);
    assert_eq!(lock_artifact(&arts[1], &none[1], &vec![9]).checksum.digest(), &vec![9]);
}

fn direct(c: &str, place: usize) -> Resolved {
    let mut r = resolved(c, &[]);
    r.rank = Rank { depth: 0, position: vec![place] };
    r
}

#[test]
fn lock_is_recalled_where_nothing_changed() {
    let m = manifest(
        "dependencies {\n    compile \"g:a:1\" { exclude \"x:y\"; }\n    compile path=\"l.jar\"\n    test \"g:b:1\"\n    test \"g:b:2\"\n}\n",
    );
    let arts = vec![direct("g:a:1", 0), resolved("g:c:1", &[]), direct("g:b:1", 2)];
    let urls = strings(&["https://r", "https://q"]);
    let p = plans(&arts, &m.dependencies, None, "/l");
    let digests = vec![vec![1], vec![2], vec![3]];
    let lock = finish_lock(&mut OrdMap::new(), &arts, &p, &digests, &urls, OrdSet::new());
    let back = Lock::parse(&lock.to_kdl()).unwrap();
    assert!(lock_covers(&back, &m.dependencies));
    let again = recall(Some(&back), &urls, &m.dependencies).unwrap();
    assert_eq!(again.artifacts.len(), 3);
    let p = plans(&again.artifacts, &m.dependencies, Some(&back), "/l");
    let digests: Vec<Vec<u8>> = p.iter().map(|x| x.expected.clone().unwrap()).collect();
    let next = finish_lock(&mut OrdMap::new(), &again.artifacts, &p, &digests, &urls, OrdSet::new());
    assert_eq!(next, back);

    assert!(recall(None, &urls, &m.dependencies).is_none());
    assert!(recall(Some(&back), &strings(&["https://r"]), &m.dependencies).is_none());
    let other = |deps: &str| lock_covers(&back, &manifest(&format!("dependencies {{\n{deps}}}\n")).dependencies);
    let a = "compile \"g:a:1\" { exclude \"x:y\"; }\n";
    assert!(other(&format!("{a}compile path=\"z.jar\"\ncompile \"g:b:1\"\n")));
    assert!(!other(&format!("{a}compile path=\"l.jar\"\n")));
    assert!(!other(&format!("{a}compile path=\"l.jar\"\ntest \"g:b:1\"\ntest \"g:d:1\"\n")));
    assert!(!other(&format!("{a}compile path=\"l.jar\"\ntest \"g:b:2\"\n")));
    assert!(!other(&format!("{a}test \"g:b:1\"\n")));
    assert!(!other("compile \"g:a:1\"\ncompile path=\"l.jar\"\ntest \"g:b:1\"\n"));
    assert!(!other(""));
}

#[test]
fn policy_of_a_repository() {
    let m = manifest("repositories {\n    \"https://r\" checksum-policy=\"warn\"\n    \"https://r\" checksum-policy=\"ignore\"\n}\n");
    assert_eq!(m.repositories.policy_of("https://r"), ChecksumPolicy::Warn);
    assert_eq!(m.repositories.policy_of("https://s"), ChecksumPolicy::Fail);
}

#[test]
fn java_versions() {
    assert_eq!(read_java_version("A=1\nJAVA_VERSION=\"21.0.2\"\r\nJAVA_VERSION=3").as_deref(), Some("21.0.2"));
    assert_eq!(read_java_version("OTHER=1"), None);
    assert_eq!(parse_major_version("21.0.2"), Some(21));
    assert_eq!(parse_major_version("8"), Some(8));
    assert_eq!(parse_major_version("x.1"), None);
    assert_eq!(Java::new("/j".to_string(), Some("JAVA_VERSION=\"17\"")).major_version(), Some(17));
    assert_eq!(Java::new("/j".to_string(), Some("")).major_version(), None);
    assert_eq!(Java::new("/j".to_string(), None).major_version(), None);
}

fn java(v: &str) -> Java {
    Java::new("/j".to_string(), Some(&format!("JAVA_VERSION=\"{v}\"")))
}

#[test]
fn compiler_command() {
    let c = java("21").javac(
        "/p",
        "/o",
        &strings(&["a", "b"]),
        &strings(&["x"]),
        &strings(&["F.java"]),
        &strings(&["-g"]),
        false,
    );
    assert_eq!(c.program, "/j/bin/javac");
    assert_eq!(c.dir, "/p");
    assert_eq!(
        c.args,
        strings(&["-encoding", "UTF-8", "-d", "/o", "-cp", "a:b", "-processorpath", "x", "-g", "F.java"])
    );
    let bare = java("21").javac("/p", "/o", &vec![], &strings(&[""]), &vec![], &vec![], false);
    assert_eq!(bare.args, strings(&["-encoding", "UTF-8", "-d", "/o"]));
}

#[test]
fn archive_commands() {
    let j = java("21");
    assert_eq!(j.jar("/p", "/o", "x.jar", None, None, false).args, strings(&["cf", "x.jar", "-C", "/o", "."]));
    assert_eq!(j.jar("/p", "/o", "x.jar", Some("M"), None, false).args, strings(&["cfe", "x.jar", "M", "-C", "/o", "."]));
    assert_eq!(j.jar("/p", "/o", "x.jar", None, Some("F"), false).args, strings(&["cfm", "x.jar", "F", "-C", "/o", "."]));
    assert_eq!(
        j.jar("/p", "/o", "x.jar", Some("M"), Some("F"), false).args,
        strings(&["cfme", "x.jar", "F", "M", "-C", "/o", "."])
    );
    let x = j.extract_jar("x.jar", "/d", false);
    assert_eq!((x.program.as_str(), x.dir.as_str()), ("/j/bin/jar", "/d"));
    assert_eq!(x.args, strings(&["xf", "x.jar"]));
}

#[test]
fn run_commands() {
    let mut dirs = OrdSet::new();
    dirs.insert(Path { text: "/n".to_string() });
    dirs.insert(Path { text: "/m".to_string() });
    let old = java("17");
    assert_eq!(
        old.run("/p", "/o", &strings(&["a", "b"]), "M", &dirs, &strings(&["1"]), false).args,
        strings(&["-Dfile.encoding=UTF-8", "-Djava.library.path=/m:/n", "-cp", "/o:a:b", "M", "1"])
    );
    let new = java("18");
    assert_eq!(
        new.run_jar("/p", "x.jar", &OrdSet::new(), &strings(&["1"]), false).args,
        strings(&[
            "-Dfile.encoding=UTF-8",
            "-Dstdout.encoding=UTF-8",
            "-Dstderr.encoding=UTF-8",
            "-jar",
            "x.jar",
            "1"
        ])
    );
    assert_eq!(
        old.run_tests("/p", "c.jar", &strings(&["a"]), "/t", &strings(&["-ea"]), &strings(&["-f"]), false).args,
        strings(&[
            "-Dfile.encoding=UTF-8",
            "-ea",
            "-jar",
            "c.jar",
            "execute",
            "--class-path",
            "a",
            "--scan-class-path",
            "/t",
            "-f"
        ])
    );
    assert_eq!(
        old.run("/p", "/o", &vec![], "M", &OrdSet::new(), &vec![], false).args,
        strings(&["-Dfile.encoding=UTF-8", "-cp", "/o", "M"])
    );
}

#[test]
fn clean_paths() {
    assert_eq!(clean("a/./b/../c"), "a/c");
    assert_eq!(clean("../../x"), "x");
    assert_eq!(clean("/a/../.."), "/");
    assert_eq!(clean("./"), "");
    assert_eq!(clean(&clean("/a/./b/../c")), clean("/a/./b/../c"));
}

#[test]
fn first_entry_of_a_name_is_kept() {
    let mut seen = Seen::new();
    assert_eq!(seen.add("META-INF/./A").as_deref(), Some("META-INF/A"));
    assert_eq!(seen.add("META-INF/A"), None);
    assert_eq!(seen.add("META-INF//A/"), None);
    assert_eq!(seen.add("META-INF/B").as_deref(), Some("META-INF/B"));
}

#[test]
fn excluded_artifacts_are_not_bundled() {
    let mut e = OrdSet::new();
    e.insert(ExclusionPattern::from_str("g:*").unwrap());
    assert!(is_excluded(Some(&coord("g:a:1")), &e));
    assert!(!is_excluded(Some(&coord("h:a:1")), &e));
    assert!(!is_excluded(None, &e));
    assert!(!is_excluded(Some(&coord("g:a:1")), &OrdSet::new()));
}

#[test]
fn command_line_is_handed_on() {
    assert_eq!(OutputFormat::default(), OutputFormat::Text);
    let build_args = BuildArgs {
        project_args: ProjectArgs { base: None, manifest: None },
        out: Some("o".to_string()),
        packaging: Some(Packaging::Dir),
        entry: None,
    };
    assert_eq!(
        build_args.requested(),
        Requested { out: Some("o".to_string()), packaging: Some(Packaging::Dir), entry: None }
    );
    let t = TestCommand {
        build_args,
        class: Some("C".to_string()),
        method: Some("C#m".to_string()),
        tag: Some("fast".to_string()),
        exclude_tag: Some("slow".to_string()),
    };
    assert_eq!(t.filter(), filter());
}

#[test]
fn tasks_begin_and_end() {
    let mut p = Progress::new();
    let c = coord("g:a:1");
    assert!(p.handle(resolving(&c)).is_empty());
    assert_eq!(p.visible(0).map(|s| s.as_str()), Some("resolving g:a:1"));
    p.handle(downloading(&c));
    assert_eq!(p.visible(1).map(|s| s.as_str()), Some("downloading g:a:1"));
    p.handle(told_resolved(&c));
    assert_eq!(p.visible(0).map(|s| s.as_str()), Some("downloading g:a:1"));
    p.handle(downloaded(&c));
    assert_eq!(p, Progress::new());
}

#[test]
fn only_so_many_tasks_are_shown() {
    let mut p = Progress::new();
    for i in 0..4 {
        p.handle(Status::Begin(format!("k{i}"), format!("m{i}")));
    }
    assert_eq!(p.overflow(), None);
    for i in 4..16 {
        p.handle(Status::Begin(format!("k{i}"), format!("m{i}")));
    }
    assert_eq!(p.overflow().as_deref(), Some("and 12 more..."));
    assert_eq!(p.visible(4), None);
    assert_eq!(p.visible(3).map(|s| s.as_str()), Some("m3"));
}

#[test]
fn nothing_happens_after_a_failure() {
    let s = |t: &str| t.to_string();
    let mut p = Progress::new();
    assert_eq!(p.handle(Status::Log(s("hello"))), strings(&["hello"]));
    assert_eq!(p.handle(Status::Output(s("a\nb\n"))), strings(&["a", "b"]));
    p.handle(Status::Begin(s("k"), s("m")));
    assert_eq!(p.handle(Status::Error(s("k"), s("broken"))), strings(&["\u{2717} k: broken"]));
    assert_eq!(p.fatal().map(|e| e.as_str()), Some("broken"));
    assert_eq!(p.visible(0), None);
    assert!(p.handle(Status::Log(s("late"))).is_empty());
    p.handle(Status::Begin(s("k"), s("m")));
    assert_eq!(p.visible(0), None);
    let mut q = Progress::new();
    assert_eq!(q.handle(Status::Fatal(s("bad"))), strings(&["bad"]));
    assert_eq!(q.fatal().map(|e| e.as_str()), Some(""));
}

#[test]
fn shells_differ() {
    let unix = shell_command("/p", "echo hi", false);
    assert_eq!((unix.program.as_str(), unix.dir.as_str()), ("sh", "/p"));
    assert_eq!(unix.args, strings(&["-c", "echo hi"]));
    let windows = shell_command("/C:/p", "echo hi", true);
    assert_eq!(windows.dir, "C:\\p");
    assert_eq!(windows.program, "cmd");
    assert_eq!(windows.args, strings(&["/C", "echo hi"]));
}

#[test]
fn first_java_installation_stays() {
    let mut p = project(None);
    p.ensure_java(java("17"));
    p.ensure_java(java("21"));
    assert_eq!(p.java().major_version(), Some(17));
    assert_eq!(resources_dir(&None, "/p"), "/p/src/main/resources");
}

#[test]
fn locked_artifacts_are_locked_again_as_they_were() {
    let arts = vec![resolved("g:a:1", &[("g:b:1", PomScope::Runtime), ("g:a:0", PomScope::Compile)])];
    let none = plans_given(&arts, &vec![], &OrdMap::new(), None, "l");
    let first = lock_artifact(&arts[0], &none[0], &vec![7]);
    let mut cp = OrdMap::new();
    let lock = finish_lock(&mut cp, &arts, &none, &vec![vec![7]], &vec![], OrdSet::new());
    assert_eq!(lock.artifacts.at(0), &first);
    let back = borneo::maven::loader::ResolvedDependencies::from_lock(&lock).artifacts;
    let again = plans_given(&back, &vec![], &OrdMap::new(), Some(&lock), "l");
    assert_eq!(again[0].expected, Some(vec![7]));
    assert_eq!(&lock_artifact(&back[0], &again[0], &vec![7]), &first);
    assert!(!is_stale(Some(&lock), "g-a-1.jar"));
}
