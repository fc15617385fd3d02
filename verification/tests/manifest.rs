use borneo::document::{Document, Entry, Node, Value};
use borneo::manifest::{
    mediate, ChecksumPolicy, DependencySource, Manifest, ManifestError, ManifestFault, Packaging,
    PomScope, RepoStrategy, Repositories, Scope,
};
use borneo::types::{CoordError, PatternError};

const HEAD: &str = "group \"com.example\"\nartifact \"my-app\"\nversion \"1.0.0\"\n";

fn parse(rest: &str) -> Result<Manifest, ManifestError> {
    Manifest::parse(&format!("{HEAD}{rest}"))
}

fn fault(rest: &str) -> ManifestError {
    parse(rest).unwrap_err()
}

#[test]
fn three_fields_make_a_manifest() {
    let m = parse("").unwrap();
    assert_eq!(m.group.as_str(), "com.example");
    assert_eq!(m.artifact.as_str(), "my-app");
    assert_eq!(m.version.as_str(), "1.0.0");
    assert_eq!(m.entry, None);
    assert_eq!(m.source, "src/main/java");
    assert_eq!(m.resources, "src/main/resources");
    assert_eq!(m.java.release, None);
    assert!(m.java.compiler_args.is_empty());
    assert_eq!(m.build.packaging, Packaging::Jar);
    assert_eq!(m.build.output, None);
    assert!(m.build.shadow.is_none());
    assert_eq!(m.test.source, "src/test/java");
    assert_eq!(m.test.resources, "src/test/resources");
    assert_eq!(m.repositories, Repositories::default());
    assert!(m.dependencies.is_empty());
}

#[test]
fn overridden_fields() {
    let m = parse("entry \"com.example.Main\"\nsource \"src/\"\nresources \"assets/\"\nauthor \"me\"\ndescription \"d\"\n")
        .unwrap();
    assert_eq!(m.entry.as_deref(), Some("com.example.Main"));
    assert_eq!(m.source, "src/");
    assert_eq!(m.resources, "assets/");
    assert_eq!(m.author.as_deref(), Some("me"));
    assert_eq!(m.description.as_deref(), Some("d"));
}

#[test]
fn missing_fields_are_named() {
    assert_eq!(Manifest::parse("").unwrap_err(), ManifestFault::MissingField("group".to_string()));
    assert_eq!(
        Manifest::parse("group \"g\"\nartifact \"a\"\n").unwrap_err(),
        ManifestFault::MissingField("version".to_string())
    );
    assert_eq!(
        Manifest::parse("group\nartifact \"a\"\nversion \"1\"\n").unwrap_err(),
        ManifestFault::MissingValue("group".to_string())
    );
    assert_eq!(
        Manifest::parse("group \"g\"\nartifact 5\nversion \"1\"\n").unwrap_err(),
        ManifestFault::NotText("artifact".to_string())
    );
    assert_eq!(
        Manifest::parse("group \"g\"\nartifact \"a\"\nversion \"1:2\"\n").unwrap_err(),
        ManifestFault::ColonInVersion
    );
    assert_eq!(Manifest::parse("group \"g").unwrap_err(), ManifestFault::Syntax);
}

#[test]
fn dependencies_of_every_scope() {
    let m = parse(
        "dependencies {\n    compile \"com.google.guava:guava:33.3.1-jre\" {\n        exclude \"com.google.code.findbugs:jsr305\"\n        exclude \"com.google.errorprone:error_prone_annotations\"\n    }\n    runtime \"org.slf4j:slf4j-simple:2.0.16\"\n    provided \"a:b:1\" type=\"test-jar\" classifier=\"x\"\n    processor \"org.projectlombok:lombok:1.18.44\"\n    test \"j:k:2\"\n    compile path=\"libs/my-custom.jar\"\n}\n",
    )
    .unwrap();
    let d = &m.dependencies;
    assert_eq!(d.len(), 6);
    let scopes: Vec<Scope> = d.iter().map(|x| x.scope).collect();
    assert_eq!(
        scopes,
        vec![Scope::Compile, Scope::Runtime, Scope::Provided, Scope::Processor, Scope::Test, Scope::Compile]
    );
    assert_eq!(d[0].coord().unwrap().to_string(), "com.google.guava:guava:33.3.1-jre");
    assert_eq!(d[0].exclusions.len(), 2);
    assert_eq!(d[0].exclusions.at(0).to_string(), "com.google.code.findbugs:jsr305");
    assert_eq!(d[0].artifact_type.as_str(), "jar");
    assert_eq!(d[2].artifact_type.as_str(), "test-jar");
    assert_eq!(d[2].classifier.as_deref(), Some("x"));
    assert!(d[5].coord().is_none());
    assert_eq!(d[5].source, DependencySource::Path("libs/my-custom.jar".to_string()));
    let coords = m.dependency_coords();
    assert_eq!(coords.len(), 5);
    assert_eq!(coords.at(0).to_string(), "a:b:1");
    assert_eq!(coords.at(4).to_string(), "org.slf4j:slf4j-simple:2.0.16");
}

#[test]
fn faulty_dependencies() {
    let dep = |s: &str| fault(&format!("dependencies {{\n{s}\n}}\n"));
    assert_eq!(dep("system \"a:b:c\""), ManifestFault::UnknownScope("system".to_string()));
    assert_eq!(dep("compile path=5"), ManifestFault::PathNotText);
    assert_eq!(dep("compile 5"), ManifestFault::IdNotText);
    assert_eq!(dep("compile"), ManifestFault::MissingId);
    assert_eq!(dep("compile \"a\""), ManifestFault::Coordinates(CoordError::MissingColon));
    assert_eq!(dep("compile \"a:b\""), ManifestFault::Coordinates(CoordError::MissingSecondColon));
    assert_eq!(dep("compile \"a:b:c\" { include \"x:y\"; }"), ManifestFault::UnexpectedNode("include".to_string()));
    assert_eq!(dep("compile \"a:b:c\" { exclude; }"), ManifestFault::ExcludeMissingValue);
    assert_eq!(dep("compile \"a:b:c\" { exclude 5; }"), ManifestFault::ExcludeNotText);
    assert_eq!(
        dep("compile \"a:b:c\" { exclude \"x\"; }"),
        ManifestFault::Exclusion(PatternError::MissingColon)
    );
    assert_eq!(
        dep("compile \"a:b:c\" { exclude \"[:x\"; }"),
        ManifestFault::Exclusion(PatternError::InvalidGroup)
    );
}

#[test]
fn central_is_implicit_and_first() {
    let m = parse("repositories {\n    \"https://r.example\" checksum-policy=\"warn\"\n}\n").unwrap();
    assert_eq!(
        m.repositories.urls(),
        vec!["https://repo1.maven.org/maven2".to_string(), "https://r.example".to_string()]
    );
    assert_eq!(m.repositories.entries()[0].checksum_policy, ChecksumPolicy::Fail);
    assert_eq!(m.repositories.entries()[1].checksum_policy, ChecksumPolicy::Warn);
    assert_eq!(m.repositories.strategy, RepoStrategy::Race);
}

#[test]
fn central_can_be_moved_or_switched_off() {
    let m = parse("repositories {\n    \"central.sonatype.com/x\"\n    central checksum-policy=\"ignore\"\n}\n").unwrap();
    assert_eq!(
        m.repositories.urls(),
        vec!["central.sonatype.com/x".to_string(), "https://repo1.maven.org/maven2".to_string()]
    );
    assert_eq!(m.repositories.entries()[1].checksum_policy, ChecksumPolicy::Ignore);
    let off = parse("repositories {\n    central enabled=\"false\"\n    \"x\" enabled=#false\n    \"y\" enabled=\"no\"\n}\n")
        .unwrap();
    assert_eq!(off.repositories.urls(), vec!["y".to_string()]);
}

#[test]
fn policies_and_strategies() {
    let m = parse(
        "repositories strategy=\"sequential\" {\n    \"a\" checksum-policy=\"required\"\n    \"b\" checksum-policy=\"fail\"\n    \"c\" checksum-policy=\"odd\"\n    \"d\"\n}\n",
    )
    .unwrap();
    assert_eq!(m.repositories.strategy, RepoStrategy::Sequential);
    let p: Vec<ChecksumPolicy> = m.repositories.entries().iter().map(|e| e.checksum_policy).collect();
    assert_eq!(
        p,
        vec![
            ChecksumPolicy::Fail,
            ChecksumPolicy::Required,
            ChecksumPolicy::Fail,
            ChecksumPolicy::Fail,
            ChecksumPolicy::Fail
        ]
    );
    let bare = parse("repositories strategy=\"sequential\"\n").unwrap();
    assert_eq!(bare.repositories.strategy, RepoStrategy::Sequential);
    assert_eq!(bare.repositories.urls().len(), 1);
}

#[test]
fn java_node() {
    let m = parse("java {\n    release \"21\"\n    compiler-args \"-Xlint:deprecation\" \"-Xlint:unchecked\"\n    compiler-args \"-g\" 5\n}\n")
        .unwrap();
    assert_eq!(m.java.release, Some(21));
    assert_eq!(
        m.java.compiler_args,
        vec!["-Xlint:deprecation".to_string(), "-Xlint:unchecked".to_string(), "-g".to_string()]
    );
    assert_eq!(parse("java { release 17; }\n").unwrap().java.release, Some(17));
    assert_eq!(parse("java { release 4294967297; }\n").unwrap().java.release, Some(1));
    assert_eq!(parse("java { release \"+8\"; }\n").unwrap().java.release, Some(8));
    assert_eq!(parse("java { release #true; }\n").unwrap().java.release, None);
    assert_eq!(fault("java { release \"x\"; }\n"), ManifestFault::InvalidRelease("x".to_string()));
    assert_eq!(
        fault("java { release \"4294967296\"; }\n"),
        ManifestFault::InvalidRelease("4294967296".to_string())
    );
}

#[test]
fn build_node() {
    let m = parse(
        "build {\n    output \"./path/to/my.jar\"\n    shadow \"true\"\n    post-build \"echo $BORNEO_BUILD_OUTPUT\"\n    packaging \"dir\"\n    manifest {\n        Implementation-Title \"My App\"\n        Skipped 5\n        Built-By \"borneo\"\n    }\n}\n",
    )
    .unwrap();
    assert_eq!(m.build.output.as_deref(), Some("./path/to/my.jar"));
    assert_eq!(m.build.shadow.as_ref().unwrap().exclusions.len(), 0);
    assert_eq!(m.build.post_build.as_deref(), Some("echo $BORNEO_BUILD_OUTPUT"));
    assert_eq!(m.build.packaging, Packaging::Dir);
    let e: Vec<(&str, &str)> = m.build.manifest.iter().map(|a| (a.key.as_str(), a.value.as_str())).collect();
    assert_eq!(e, vec![("Implementation-Title", "My App"), ("Built-By", "borneo")]);
    assert!(parse("build { shadow #true; }\n").unwrap().build.shadow.is_some());
    assert!(parse("build { shadow \"false\"; }\n").unwrap().build.shadow.is_none());
    assert_eq!(fault("build { packaging \"zip\"; }\n"), ManifestFault::UnknownPackaging("zip".to_string()));
}

#[test]
fn test_node() {
    let m = parse("test {\n    source \"t\"\n    jvm-args \"-Xmx512m\" \"-ea\"\n}\n").unwrap();
    assert_eq!(m.test.source, "t");
    assert_eq!(m.test.resources, "src/test/resources");
    assert_eq!(m.test.jvm_args, vec!["-Xmx512m".to_string(), "-ea".to_string()]);
}

#[test]
fn scopes_have_names() {
    for s in [Scope::Compile, Scope::Runtime, Scope::Provided, Scope::Processor, Scope::Test] {
        assert_eq!(Scope::from_str(&s.to_string()), Ok(s));
    }
    assert!(Scope::from_str("system").is_err());
    for s in [PomScope::Compile, PomScope::Runtime] {
        assert_eq!(PomScope::from_str(&s.to_string()), Ok(s));
    }
    assert!(PomScope::from_str("test").is_err());
    assert_eq!(Scope::Compile.rank(), 4);
    assert_eq!(Scope::Provided.rank(), Scope::Processor.rank());
}

#[test]
fn mediation_narrows_compile_only() {
    assert_eq!(mediate(Scope::Compile, PomScope::Compile), Scope::Compile);
    assert_eq!(mediate(Scope::Compile, PomScope::Runtime), Scope::Runtime);
    for s in [Scope::Runtime, Scope::Provided, Scope::Processor, Scope::Test] {
        assert_eq!(mediate(s, PomScope::Compile), s);
        assert_eq!(mediate(s, PomScope::Runtime), s);
    }
}

fn node(name: &str, arg: &str) -> Node {
    Node {
        name: name.to_string(),
        entries: vec![Entry { name: None, value: Value::Text(arg.to_string()) }],
        children: None,
    }
}

#[test]
fn manifest_of_a_document() {
    let doc = Document { nodes: vec![node("group", "g"), node("artifact", "a"), node("version", "1"), node("group", "h")] };
    let m = Manifest::from_document(&doc).unwrap();
    assert_eq!(m.group.as_str(), "g");
    assert_eq!(doc.get("version").unwrap().arg(), Some(&Value::Text("1".to_string())));
    assert!(doc.get("none").is_none());
}

#[test]
fn last_property_and_first_argument_count() {
    let doc = Document::parse("n \"first\" k=\"1\" \"second\" k=\"2\"\n").unwrap();
    let n = doc.get("n").unwrap();
    assert_eq!(n.arg(), Some(&Value::Text("first".to_string())));
    assert_eq!(n.prop("k"), Some(&Value::Text("2".to_string())));
    assert_eq!(n.prop("j"), None);
    assert_eq!(n.text_args(), vec!["first".to_string(), "second".to_string()]);
    assert_eq!(doc.get_arg("n"), n.arg());
}

#[test]
fn values_of_every_kind() {
    let doc = Document::parse("n 1 -2 #true #null 1.5 \"t\"\n").unwrap();
    let v: Vec<&Value> = doc.nodes[0].entries.iter().map(|e| &e.value).collect();
    assert_eq!(
        v,
        vec![
            &Value::Integer(1),
            &Value::Integer(-2),
            &Value::Bool(true),
            &Value::Other,
            &Value::Other,
            &Value::Text("t".to_string())
        ]
    );
}

#[test]
fn documents_read_back() {
    let odd = [
        "", "plain", "two words", "a\"b", "back\\slash", "new\nline", "tab\tand\r", "true", "null", "-inf", "5", "-5x", "-",
        "+", ".", "..", "-.", "-.a", "=", "{}", "//", "#", "\u{8}\u{c}", "\u{7f}", "\u{a0}\u{2003}", "\u{1F600}", "é", "(t)a", ".5", "+inf", "nan", "\"\"\"", "a\\", "/-x", "a;b", "r\"x\"", "0x1f", "+1", "-.", "+.a", "'", ",", "a=b", "\r\n",
    ];
    let mut nodes = Vec::new();
    for s in odd {
        nodes.push(Node {
            name: s.to_string(),
            entries: vec![
                Entry { name: None, value: Value::Text(s.to_string()) },
                Entry { name: Some(s.to_string()), value: Value::Text(s.to_string()) },
                Entry { name: Some("i".to_string()), value: Value::Integer(i128::MAX) },
                Entry { name: Some("j".to_string()), value: Value::Integer(-i128::MAX) },
                Entry { name: None, value: Value::Bool(false) },
                Entry { name: None, value: Value::Other },
            ],
            children: Some(Document { nodes: vec![node(s, s)] }),
        });
    }
    nodes.push(Node { name: "empty".to_string(), entries: vec![], children: Some(Document { nodes: vec![] }) });
    nodes.push(Node { name: "bare".to_string(), entries: vec![], children: None });
    let doc = Document { nodes };
    let text = doc.format();
    assert_eq!(Document::parse(&text).unwrap(), doc);
    let nothing = Document { nodes: vec![] };
    assert_eq!(Document::parse(&nothing.format()).unwrap(), nothing);
}

#[test]
fn texts_that_kdl_does_not_carry() {
    let mut odd: Vec<String> = ["-.5", "+.5x", "-.0.1"].iter().map(|s| s.to_string()).collect();
    let ranges = [
        ('\u{0}', '\u{7}'),
        ('\u{b}', '\u{b}'),
        ('\u{e}', '\u{1f}'),
        ('\u{85}', '\u{85}'),
        ('\u{200e}', '\u{200f}'),
        ('\u{2028}', '\u{202e}'),
        ('\u{2066}', '\u{2069}'),
        ('\u{feff}', '\u{feff}'),
    ];
    for (from, to) in ranges {
        for c in from..=to {
            odd.push(format!("a{c}b"));
        }
    }
    for s in odd {
        let doc = Document { nodes: vec![node("n", &s)] };
        assert_ne!(Document::parse(&doc.format()), Ok(doc));
    }
    let least = Document {
        nodes: vec![Node {
            name: "n".to_string(),
            entries: vec![Entry { name: None, value: Value::Integer(i128::MIN) }],
            children: None,
        }],
    };
    assert_ne!(Document::parse(&least.format()), Ok(least));
}
