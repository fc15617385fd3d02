use borneo::types::{
    ArtifactCoordinates, ArtifactId, ArtifactType, ArtifactVersion, ColonInVersion, CoordError,
    ExclusionPattern, GroupId, PatternError,
};

fn coord(s: &str) -> ArtifactCoordinates {
    ArtifactCoordinates::from_str(s).unwrap()
}

#[test]
fn group_becomes_a_path_and_back() {
    let g = GroupId::new("com.example.app".to_string());
    assert_eq!(g.to_path(), "com/example/app");
    assert_eq!(GroupId::from_str("com/example/app").as_str(), "com.example.app");
    assert_eq!(GroupId::from_str(&g.to_path()), g);
}

#[test]
fn version_holds_no_colon() {
    assert_eq!(ArtifactVersion::new("1.0".to_string()).unwrap().as_str(), "1.0");
    assert_eq!(ArtifactVersion::new("1:0".to_string()), Err(ColonInVersion));
    assert_eq!(ArtifactVersion::verbatim("1:0".to_string()).as_str(), "1:0");
}

#[test]
fn coordinates_split_at_first_and_last_colon() {
    let c = coord("com/google:guava:x:33.3.1-jre");
    assert_eq!(c.group_id().as_str(), "com.google");
    assert_eq!(c.artifact_id().as_str(), "guava:x");
    assert_eq!(c.version().as_str(), "33.3.1-jre");
    assert_eq!(c.to_string(), "com.google:guava:x:33.3.1-jre");
}

#[test]
fn coordinates_need_two_colons() {
    assert_eq!(ArtifactCoordinates::from_str("guava"), Err(CoordError::MissingColon));
    assert_eq!(ArtifactCoordinates::from_str(""), Err(CoordError::MissingColon));
    assert_eq!(ArtifactCoordinates::from_str("a:b"), Err(CoordError::MissingSecondColon));
    assert_eq!(coord("::").to_string(), "::");
}

#[test]
fn coordinates_read_back() {
    for s in ["a:b:c", "org.slf4j:slf4j-simple:2.0.16", "g:a:b:c:d"] {
        let c = coord(s);
        assert_eq!(coord(&c.to_string()), c);
        assert!(coord(s).same(&c));
    }
    assert!(!coord("a:b:c").same(&coord("a:b:d")));
}

#[test]
fn types_have_extensions_and_classifiers() {
    let cases = [
        ("jar", "jar", None),
        ("test-jar", "jar", Some("tests")),
        ("maven-plugin", "jar", None),
        ("ejb", "jar", None),
        ("ejb-client", "jar", Some("client")),
        ("java-source", "jar", Some("sources")),
        ("javadoc", "jar", Some("javadoc")),
        ("war", "war", None),
        ("", "", None),
    ];
    for (t, ext, classifier) in cases {
        let t = ArtifactType::new(t.to_string());
        assert_eq!(t.extension(), ext);
        assert_eq!(t.implied_classifier(), classifier);
    }
    assert_eq!(ArtifactType::default().as_str(), "jar");
}

#[test]
fn keys_leave_the_version_out() {
    let t = ArtifactType::new("test-jar".to_string());
    let k = coord("g:a:1").key(&t, &None);
    assert!(k.same(&coord("g:a:2").key(&t, &None)));
    assert_eq!(k.to_string(), "g:a:test-jar");
    let c = coord("g:a:1").key(&t, &Some("tests".to_string()));
    assert_eq!(c.to_string(), "g:a:test-jar:tests");
    assert!(!k.same(&c));
}

#[test]
fn pattern_matches_by_glob() {
    let p = ExclusionPattern::from_str("com/google.*:err?r_{prone,free}").unwrap();
    assert_eq!(p.to_string(), "com.google.*:err?r_{prone,free}");
    assert!(p.matches(&coord("com.google.errorprone:error_prone:1")));
    assert!(p.matches(&coord("com.google.x:error_free:2")));
    assert!(!p.matches(&coord("com.google.x:error_full:2")));
    assert!(!p.matches(&coord("org.google.x:error_free:2")));
    let all = ExclusionPattern::from_str("*:*").unwrap();
    assert!(all.matches(&coord("any.group:any-name:1")));
    let one = ExclusionPattern::from_str("g:a").unwrap();
    assert!(one.matches(&coord("g:a:1")));
    assert!(!one.matches(&coord("g:ab:1")));
    assert!(!one.matches(&coord("gx:a:1")));
}

#[test]
fn plain_patterns_match_what_they_spell() {
    let one = ExclusionPattern::from_str("org.slf4j:slf4j-api").unwrap();
    for (c, matches) in [
        ("org.slf4j:slf4j-api:1", true),
        ("org.slf4j:slf4j-api:2", true),
        ("org.slf4j:slf4j-ap:1", false),
        ("org.slf4j:slf4j-api2:1", false),
        ("orgxslf4j:slf4j-api:1", false),
        ("org.slf4j.x:slf4j-api:1", false),
    ] {
        assert_eq!(one.matches(&coord(c)), matches);
    }
    let all = ExclusionPattern::from_str("*:*").unwrap();
    for c in ["a:b:1", "::", "..:x/y\\z:1", "a.b:\n:1"] {
        assert!(all.matches(&coord(c)));
    }
    assert!(one.same(&ExclusionPattern::from_str("org/slf4j:slf4j-api").unwrap()));
    assert!(!one.same(&all));
}

#[test]
fn pattern_asks_the_glob_itself() {
    let dots = ExclusionPattern::from_str("*.:*").unwrap();
    assert!(dots.matches(&coord("..:a:1")));
    assert!(dots.matches(&coord("a.:a:1")));
    assert!(!dots.matches(&coord("a.b:a:1")));
}

#[test]
fn patterns_are_refused() {
    assert_eq!(ExclusionPattern::from_str("no-colon"), Err(PatternError::MissingColon));
    assert_eq!(ExclusionPattern::from_str("a[:b"), Err(PatternError::InvalidGroup));
    assert_eq!(ExclusionPattern::from_str("a:b{"), Err(PatternError::InvalidArtifact));
    let deep = format!("{}a{}:b", "{a,".repeat(400), "}".repeat(400));
    assert_eq!(ExclusionPattern::from_str(&deep), Err(PatternError::InvalidGroup));
}

#[test]
fn pattern_is_assembled_from_verdicts() {
    assert_eq!(ExclusionPattern::given("x", true, true), Err(PatternError::MissingColon));
    assert_eq!(ExclusionPattern::given("a:b", false, false), Err(PatternError::InvalidGroup));
    assert_eq!(ExclusionPattern::given("a:b", true, false), Err(PatternError::InvalidArtifact));
    assert_eq!(ExclusionPattern::given("a/b:c", true, true).unwrap().to_string(), "a.b:c");
}

#[test]
fn artifact_id_is_taken_as_it_stands() {
    assert_eq!(ArtifactId::from_str("a/b.c").as_str(), "a/b.c");
    assert_eq!(ArtifactId::new("x".to_string()), ArtifactId::from_str("x"));
}
