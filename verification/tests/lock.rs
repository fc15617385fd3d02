use borneo::manifest::lock::{Checksum, InvalidHex, LocalArtifact, Lock, LockArtifact, LockFault};
use borneo::manifest::{PomScope, Scope};
use borneo::order::{OrdMap, OrdSet};
use borneo::types::{ArtifactCoordinates, ArtifactType, CoordError, ExclusionPattern, PatternError};

fn coord(s: &str) -> ArtifactCoordinates {
    ArtifactCoordinates::from_str(s).unwrap()
}

fn artifact(c: &str) -> LockArtifact {
    let mut dependencies = OrdMap::new();
    dependencies.insert(coord("z:z:1"), PomScope::Runtime);
    dependencies.insert(coord("a:b:2"), PomScope::Compile);
    let mut exclusions = OrdSet::new();
    exclusions.insert(ExclusionPattern::from_str("x.*:y").unwrap());
    exclusions.insert(ExclusionPattern::from_str("a/b:c").unwrap());
    LockArtifact {
        coord: coord(c),
        classifier: Some("tests".to_string()),
        artifact_type: ArtifactType::new("war".to_string()),
        source: "https://r.example/maven".to_string(),
        artifact_path: "g/a/1/a-1".to_string(),
        checksum: Checksum::provided(vec![0, 171, 255]),
        effective_scope: Scope::Processor,
        depth: 3,
        position: vec![2, 0, 11],
        dependencies,
        exclusions,
    }
}

fn plain(c: &str) -> LockArtifact {
    LockArtifact {
        coord: coord(c),
        classifier: None,
        artifact_type: ArtifactType::default(),
        source: "s".to_string(),
        artifact_path: "p".to_string(),
        checksum: Checksum::provided(vec![]),
        effective_scope: Scope::Compile,
        depth: 0,
        position: vec![],
        dependencies: OrdMap::new(),
        exclusions: OrdSet::new(),
    }
}

fn sample() -> Lock {
    let mut repositories = OrdSet::new();
    repositories.insert("https://z.example".to_string());
    repositories.insert("https://repo1.maven.org/maven2".to_string());
    let mut artifacts = OrdSet::new();
    artifacts.insert(artifact("g:b:1"));
    artifacts.insert(plain("g:a:1"));
    let mut local = OrdSet::new();
    local.insert(LocalArtifact { path: "libs/x.jar".to_string(), checksum: Checksum::provided(vec![1]) });
    Lock { version: "1".to_string(), repositories, artifacts, local }
}

#[test]
fn lock_reads_back() {
    let lock = sample();
    assert_eq!(Lock::parse(&lock.to_kdl()).unwrap(), lock);
    let empty =
        Lock { version: "2".to_string(), repositories: OrdSet::new(), artifacts: OrdSet::new(), local: OrdSet::new() };
    assert_eq!(Lock::parse(&empty.to_kdl()).unwrap(), empty);
}

#[test]
fn lock_with_a_backslash_in_an_exclusion_reads_back() {
    let mut lock = sample();
    let mut a = artifact("g:d:1");
    a.exclusions.insert(ExclusionPattern::from_str("a\\*b:c\\?").unwrap());
    lock.artifacts.insert(a);
    let back = Lock::parse(&lock.to_kdl()).unwrap();
    assert_eq!(back, lock);
    assert_eq!(back.artifacts.at(2).exclusions.len(), 3);
}

#[test]
fn lock_keeps_its_items_in_order() {
    let lock = sample();
    assert_eq!(lock.artifacts.at(0).coord.to_string(), "g:a:1");
    assert_eq!(lock.artifacts.at(1).coord.to_string(), "g:b:1");
    assert_eq!(lock.repositories.at(0), "https://repo1.maven.org/maven2");
    let a = lock.artifacts.at(1);
    assert_eq!(a.dependencies.at(0).0.to_string(), "a:b:2");
    assert_eq!(a.exclusions.at(0).to_string(), "a.b:c");
}

#[test]
fn written_lock_has_this_form() {
    let text = sample().to_kdl();
    let first = text.lines().next().unwrap();
    assert_eq!(first, "version \"1\"");
    assert!(text.contains("artifact g:a:1 source=s path=p checksum=\"\" scope=compile depth=0"));
    assert!(text.contains("checksum=\"00abff\""));
    assert!(text.contains("position=\"2.0.11\""));
    assert!(text.contains("type=war"));
}

#[test]
fn type_that_is_packed_as_jar_is_lost() {
    let mut lock = sample();
    let mut a = plain("g:c:1");
    a.artifact_type = ArtifactType::new("test-jar".to_string());
    lock.artifacts.insert(a);
    let back = Lock::parse(&lock.to_kdl()).unwrap();
    assert_eq!(back.artifacts.at(2).artifact_type.as_str(), "jar");
}

#[test]
fn defaults_of_a_lock() {
    let lock = Lock::parse("artifact \"g:a:1\" source=\"s\" path=\"p\" checksum=\"\"\n").unwrap();
    assert_eq!(lock.version, "1");
    assert_eq!(lock.artifacts.at(0), &plain("g:a:1"));
    let odd = Lock::parse(
        "artifact \"g:a:1\" source=\"s\" path=\"p\" checksum=\"\" scope=\"odd\" depth=\"x\" position=\"1..x.+2\"\n",
    )
    .unwrap();
    let a = odd.artifacts.at(0);
    assert_eq!(a.effective_scope, Scope::Compile);
    assert_eq!(a.depth, 0);
    assert_eq!(a.position, vec![1, 2]);
}

#[test]
fn faulty_locks() {
    let cases = [
        ("version \"", LockFault::Syntax),
        ("artifact\n", LockFault::MissingCoord),
        ("artifact 5\n", LockFault::MissingCoord),
        ("artifact \"g:a\"\n", LockFault::Coordinates(CoordError::MissingSecondColon)),
        ("artifact \"g:a:1\"\n", LockFault::MissingSource),
        ("artifact \"g:a:1\" source=\"s\"\n", LockFault::MissingPath),
        ("artifact \"g:a:1\" source=\"s\" path=\"p\"\n", LockFault::MissingChecksum),
        ("artifact \"g:a:1\" source=\"s\" path=\"p\" checksum=\"0\"\n", LockFault::InvalidHex),
        (
            "artifact \"g:a:1\" source=\"s\" path=\"p\" checksum=\"00\" { odd; }\n",
            LockFault::MissingValue("odd".to_string()),
        ),
        (
            "artifact \"g:a:1\" source=\"s\" path=\"p\" checksum=\"00\" { odd \"x\"; }\n",
            LockFault::UnexpectedNode("odd".to_string()),
        ),
        (
            "artifact \"g:a:1\" source=\"s\" path=\"p\" checksum=\"00\" { compile \"x\"; }\n",
            LockFault::Coordinates(CoordError::MissingColon),
        ),
        (
            "artifact \"g:a:1\" source=\"s\" path=\"p\" checksum=\"00\" { exclude \"a:[\"; }\n",
            LockFault::Exclusion(PatternError::InvalidArtifact),
        ),
        ("local\n", LockFault::LocalMissingPath),
        ("local path=\"p\"\n", LockFault::LocalMissingChecksum),
        ("local path=\"p\" checksum=\"zz\"\n", LockFault::InvalidHex),
    ];
    for (text, fault) in cases {
        assert_eq!(Lock::parse(text).unwrap_err(), fault);
    }
}

#[test]
fn checksums_are_hexadecimal() {
    let c = Checksum::provided(vec![0, 15, 16, 255]);
    assert_eq!(c.to_string(), "000f10ff");
    assert_eq!(Checksum::from_str("000F10fF").unwrap(), c);
    assert_eq!(Checksum::from_str(&c.to_string()).unwrap().digest(), c.digest());
    assert_eq!(Checksum::from_str("0"), Err(InvalidHex));
    assert_eq!(Checksum::from_str("0g"), Err(InvalidHex));
    assert_eq!(Checksum::from_str("éé"), Err(InvalidHex));
    assert_eq!(Checksum::from_str("").unwrap().digest().len(), 0);
}

#[test]
fn sets_and_maps_keep_order() {
    let mut s: OrdSet<String> = OrdSet::new();
    assert!(s.insert("b".to_string()));
    assert!(s.insert("a".to_string()));
    assert!(s.insert("ab".to_string()));
    assert!(!s.insert("b".to_string()));
    let items: Vec<&String> = (0..s.len()).map(|i| s.at(i)).collect();
    assert_eq!(items, vec!["a", "ab", "b"]);
    let mut m: OrdMap<String, PomScope> = OrdMap::new();
    m.insert("k".to_string(), PomScope::Compile);
    m.insert("k".to_string(), PomScope::Runtime);
    m.insert("j".to_string(), PomScope::Compile);
    assert_eq!(m.len(), 2);
    assert_eq!(m.get(&"k".to_string()), Some(&PomScope::Runtime));
    assert_eq!(m.get(&"x".to_string()), None);
    assert_eq!(m.at(0), (&"j".to_string(), &PomScope::Compile));
}
