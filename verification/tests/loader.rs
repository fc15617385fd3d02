use borneo::manifest::lock::{Checksum, Lock, LockArtifact};
use borneo::manifest::{PomScope, Scope};
use borneo::maven::loader::{
    artifact_path, claim, effective_classifier, excluded_deps, fail, into_resolved, lock_serves, loads,
    loads_given, locate, pom_path, seeds, snapshot_path, snapshot_version, store, Claim, Load, Loaded,
    LoaderBranch, Location, PomDependency, Rank, Resolved, ResolvedArtifact, ResolvedDependencies, Slot, SlotState, Unresolved,
};
use borneo::maven::search::{first_turn, next_turn, Outcome, Race, Turn};
use borneo::maven::{
    accepts, asset_url, attempt_timeout, check_header, checksum_url, choose_digest, download_key, judge,
    metadata_url, receive, verdict, verify_bytes, Asset, ClientError, Digest, DigestMethod, DigestState, Verdict, Wanted,
};
use borneo::manifest::ChecksumPolicy;
use borneo::order::{OrdMap, OrdSet};
use borneo::types::{ArtifactCoordinates, ArtifactId, ArtifactType, ArtifactVersion, ExclusionPattern, GroupId};

fn coord(s: &str) -> ArtifactCoordinates {
    ArtifactCoordinates::from_str(s).unwrap()
}

fn rank(depth: usize, position: &[usize]) -> Rank {
    Rank { depth, position: position.to_vec() }
}

fn slot(c: &str, r: Rank, state: SlotState) -> Slot {
    Slot { rank: r, coord: coord(c), state }
}

fn patterns(list: &[&str]) -> OrdSet<ExclusionPattern> {
    let mut s = OrdSet::new();
    for p in list {
        s.insert(ExclusionPattern::from_str(p).unwrap());
    }
    s
}

fn dep(scope: PomScope, exclusions: &[&str]) -> PomDependency {
    PomDependency { scope, artifact_type: ArtifactType::default(), classifier: None, exclusions: patterns(exclusions) }
}

fn resolved(c: &str, deps: &[(&str, PomScope)]) -> Resolved {
    let mut dependencies = OrdMap::new();
    for (d, s) in deps {
        dependencies.insert(coord(d), dep(*s, &[]));
    }
    Resolved {
        artifact: ResolvedArtifact {
            coord: coord(c),
            source: "r".to_string(),
            artifact_path: "p/a-1".to_string(),
            artifact_type: ArtifactType::default(),
            classifier: None,
            effective_scope: Scope::Compile,
            dependencies,
        },
        rank: rank(1, &[2, 3]),
    }
}

#[test]
fn ranks_compare_depth_then_places() {
    assert!(rank(0, &[9]).is_nearer(&rank(1, &[0, 0])));
    assert!(rank(1, &[0, 9]).is_nearer(&rank(1, &[1, 0])));
    assert!(!rank(1, &[1, 0]).is_nearer(&rank(1, &[1, 0])));
    assert!(rank(1, &[1]).is_nearer(&rank(1, &[1, 0])));
}

#[test]
fn nearest_version_takes_the_slot() {
    let first = slot("g:a:1", rank(2, &[0, 0, 0]), SlotState::Loading);
    assert_eq!(claim(None, &coord("g:a:1"), &rank(2, &[0, 0, 0])), Claim::Load(first));
    let first = slot("g:a:1", rank(2, &[0, 0, 0]), SlotState::Ready);
    let second = slot("g:a:2", rank(1, &[5, 5]), SlotState::Loading);
    assert_eq!(
        claim(Some(&first), &coord("g:a:2"), &rank(1, &[5, 5])),
        Claim::Load(slot("g:a:2", rank(1, &[5, 5]), SlotState::Loading))
    );
    assert_eq!(claim(Some(&second), &coord("g:a:3"), &rank(1, &[5, 5])), Claim::Pass);
    assert_eq!(claim(Some(&second), &coord("g:a:3"), &rank(2, &[0, 0, 0])), Claim::Pass);
    assert_eq!(claim(Some(&second), &coord("g:a:2"), &rank(1, &[5, 5])), Claim::Pass);
}

#[test]
fn nearer_repeat_moves_the_slot() {
    for state in [SlotState::Loading, SlotState::Ready, SlotState::Failed] {
        let far = slot("g:a:1", rank(2, &[0, 0, 0]), state);
        let Claim::Nearer(near) = claim(Some(&far), &coord("g:a:1"), &rank(0, &[1])) else {
            panic!();
        };
        assert_eq!(near, slot("g:a:1", rank(0, &[1]), state));
        assert_eq!(claim(Some(&near), &coord("g:a:2"), &rank(1, &[0, 0])), Claim::Pass);
    }
}

#[test]
fn least_distant_version_wins_in_every_order() {
    let arrivals = [("g:a:1", rank(2, &[0, 0, 0])), ("g:a:1", rank(0, &[1])), ("g:a:2", rank(1, &[0, 0]))];
    for order in [[0, 1, 2], [0, 2, 1], [1, 0, 2], [1, 2, 0], [2, 0, 1], [2, 1, 0]] {
        let mut held: Option<Slot> = None;
        for i in order {
            let (c, r) = &arrivals[i];
            match claim(held.as_ref(), &coord(c), r) {
                Claim::Load(s) | Claim::Nearer(s) => held = Some(s),
                Claim::Pass => {}
            }
        }
        for i in order {
            let (c, r) = &arrivals[i];
            if let Some(s) = store(held.as_ref(), &coord(c), r) {
                held = Some(s);
            }
        }
        assert_eq!(held, Some(slot("g:a:1", rank(0, &[1]), SlotState::Ready)));
    }
}

#[test]
fn late_results_do_not_displace_nearer_ones() {
    let near = slot("g:a:2", rank(0, &[0]), SlotState::Ready);
    let far = rank(1, &[0, 0]);
    assert_eq!(store(Some(&near), &coord("g:a:1"), &far), None);
    assert_eq!(
        store(Some(&near), &coord("g:a:1"), &rank(0, &[0])),
        Some(slot("g:a:1", rank(0, &[0]), SlotState::Ready))
    );
    assert_eq!(store(None, &coord("g:a:1"), &far), Some(slot("g:a:1", rank(1, &[0, 0]), SlotState::Ready)));
    assert_eq!(fail(Some(&near), &coord("g:a:1"), &far), None);
    assert_eq!(fail(Some(&near), &coord("g:a:1"), &rank(0, &[0])), None);
    let loading = slot("g:a:2", rank(0, &[0]), SlotState::Loading);
    let failed = || Some(slot("g:a:1", rank(1, &[0, 0]), SlotState::Failed));
    assert_eq!(fail(Some(&loading), &coord("g:a:1"), &far), failed());
    assert_eq!(fail(None, &coord("g:a:1"), &far), failed());
}

#[test]
fn load_that_began_farther_away_is_stored_where_its_version_came_nearer() {
    let moved = slot("g:a:1", rank(0, &[1]), SlotState::Loading);
    let far = rank(2, &[0, 0, 0]);
    assert_eq!(store(Some(&moved), &coord("g:a:1"), &far), Some(slot("g:a:1", rank(0, &[1]), SlotState::Ready)));
    assert_eq!(fail(Some(&moved), &coord("g:a:1"), &far), Some(slot("g:a:1", rank(0, &[1]), SlotState::Failed)));
}

#[test]
fn branches_grow_and_narrow() {
    let root = LoaderBranch::new(patterns(&["x:y"]), 4, Scope::Compile);
    assert_eq!(root.rank(), rank(0, &[4]));
    let child = root.child(2, &patterns(&["a:b"]), PomScope::Runtime);
    assert_eq!(child.depth, 1);
    assert_eq!(child.position, vec![4, 2]);
    assert_eq!(child.effective_scope, Scope::Runtime);
    assert_eq!(child.exclusions.len(), 2);
    assert!(child.is_excluded(&coord("x:y:1")));
    assert!(child.is_excluded(&coord("a:b:1")));
    assert!(!root.is_excluded(&coord("a:b:1")));
    let grandchild = child.child(7, &patterns(&["a:b"]), PomScope::Compile);
    assert_eq!(grandchild.position.len(), grandchild.depth + 1);
    assert_eq!(grandchild.exclusions.len(), 2);
    assert!(grandchild.is_excluded(&coord("x:y:1")));
}

#[test]
fn excluded_dependencies_keep_their_place() {
    let branch = LoaderBranch::new(patterns(&["g:b"]), 0, Scope::Compile);
    let mut deps = OrdMap::new();
    deps.insert(coord("g:c:1"), dep(PomScope::Compile, &["z:z"]));
    deps.insert(coord("g:b:1"), dep(PomScope::Compile, &[]));
    deps.insert(coord("g:a:1"), dep(PomScope::Runtime, &[]));
    assert_eq!(excluded_deps(&branch, &deps), vec![false, true, false]);
    let l = loads(&branch, &deps);
    assert_eq!(l.len(), 2);
    assert_eq!(l[0].coord.to_string(), "g:a:1");
    assert_eq!(l[0].branch.position, vec![0, 0]);
    assert_eq!(l[0].branch.effective_scope, Scope::Runtime);
    assert_eq!(l[1].coord.to_string(), "g:c:1");
    assert_eq!(l[1].branch.position, vec![0, 2]);
    assert_eq!(l[1].branch.exclusions.len(), 2);
    assert_eq!(loads_given(&branch, &deps, &vec![true, true, true]).len(), 0);
}

#[test]
fn paths_of_artifacts() {
    let c = coord("com.example:lib:1.0-SNAPSHOT");
    assert_eq!(locate(&c), Location::Snapshot("1.0".to_string()));
    assert_eq!(locate(&coord("g.h:a:1.0")), Location::Path("g/h/a/1.0/a-1.0".to_string()));
    assert_eq!(
        snapshot_path(&c, "1.0", "20240101.120000", "7"),
        "com/example/lib/1.0-SNAPSHOT/lib-1.0-20240101.120000-7"
    );
    assert_eq!(pom_path("g/a/1.0/a-1.0"), "g/a/1.0/a-1.0.pom");
    let v = snapshot_version("1.0", "20240101.120000", "7");
    assert_eq!(v, "1.0-20240101.120000-7");
    assert_eq!(artifact_path(&c, &v), "com/example/lib/1.0-SNAPSHOT/lib-1.0-20240101.120000-7");
    let mut r = resolved("g:a:1", &[]).artifact;
    assert_eq!(r.asset_path(), "p/a-1.jar");
    r.classifier = Some("tests".to_string());
    assert_eq!(r.asset_path(), "p/a-1-tests.jar");
    assert_eq!(r.key().to_string(), "g:a:jar:tests");
}

#[test]
fn classifier_or_the_implied_one() {
    let t = ArtifactType::new("java-source".to_string());
    assert_eq!(effective_classifier(&None, &t).as_deref(), Some("sources"));
    assert_eq!(effective_classifier(&Some("x".to_string()), &t).as_deref(), Some("x"));
    assert_eq!(effective_classifier(&None, &ArtifactType::default()), None);
}

fn lock() -> Lock {
    let mut dependencies = OrdMap::new();
    dependencies.insert(coord("g:b:1"), PomScope::Runtime);
    let mut artifacts = OrdSet::new();
    artifacts.insert(LockArtifact {
        coord: coord("g:a:1"),
        classifier: None,
        artifact_type: ArtifactType::default(),
        source: "https://r".to_string(),
        artifact_path: "p".to_string(),
        checksum: Checksum::provided(vec![1]),
        effective_scope: Scope::Test,
        depth: 2,
        position: vec![1, 2, 3],
        dependencies,
        exclusions: OrdSet::new(),
    });
    Lock { version: "1".to_string(), repositories: OrdSet::new(), artifacts, local: OrdSet::new() }
}

#[test]
fn locked_artifacts_are_resolved() {
    let r = ResolvedDependencies::from_lock(&lock());
    assert_eq!(r.artifacts.len(), 1);
    let a = &r.artifacts[0];
    assert_eq!(a.rank, rank(2, &[1, 2, 3]));
    assert_eq!(a.artifact.effective_scope, Scope::Test);
    let (c, d) = a.artifact.dependencies.at(0);
    assert_eq!(c.to_string(), "g:b:1");
    assert_eq!(d.scope, PomScope::Runtime);
    assert_eq!(d.artifact_type.as_str(), "jar");
    let s = seeds(&lock(), &vec![]);
    assert_eq!(s.len(), 1);
    assert_eq!(s[0].coord.to_string(), "g:a:1");
    assert_eq!(s[0].source, "https://r");
    assert_eq!(s[0].artifact_path, "p");
    assert_eq!(s[0].dependencies.at(0), (&coord("g:b:1"), &PomScope::Runtime));
}

#[test]
fn lock_is_of_no_use_with_other_repositories() {
    let mut l = lock();
    l.repositories.insert("https://r".to_string());
    l.repositories.insert("https://q".to_string());
    let urls = |list: &[&str]| list.iter().map(|u| u.to_string()).collect::<Vec<_>>();
    assert!(lock_serves(&l, &urls(&["https://r", "https://q"])));
    assert!(lock_serves(&l, &urls(&["https://q", "https://r", "https://q"])));
    assert!(!lock_serves(&l, &urls(&["https://q"])));
    assert!(!lock_serves(&l, &urls(&["https://q", "https://r", "https://s"])));
    assert!(!lock_serves(&l, &urls(&["https://q", "https://s"])));
    assert_eq!(seeds(&l, &urls(&["https://r", "https://q"])).len(), 1);
    assert_eq!(seeds(&l, &urls(&["https://q"])).len(), 0);
}

#[test]
fn all_or_the_first_that_is_missing() {
    let ready = || Loaded::Ready(resolved("g:a:1", &[]), true);
    assert_eq!(into_resolved(vec![ready(), ready()]).unwrap().artifacts.len(), 2);
    assert_eq!(into_resolved(vec![ready(), Loaded::Failed, Loaded::Loading]), Err(Unresolved::Failed(1)));
    assert_eq!(into_resolved(vec![Loaded::Loading]), Err(Unresolved::Unfinished(0)));
    assert_eq!(into_resolved(vec![Loaded::Ready(resolved("g:a:1", &[]), false)]), Err(Unresolved::NoSource(0)));
    assert_eq!(into_resolved(vec![]).unwrap().artifacts.len(), 0);
}

#[test]
fn first_declared_repository_wins_a_race() {
    let mut r = Race::new(3);
    assert!(!r.observe(2, true));
    assert!(!r.observe(0, false));
    assert!(r.observe(1, true));
    assert_eq!(r.outcome(), Outcome::Found(1));
    let mut early = Race::new(3);
    assert!(early.observe(0, true));
    assert_eq!(early.outcome(), Outcome::Found(0));
}

#[test]
fn race_without_a_winner() {
    let mut r = Race::new(2);
    assert!(!r.observe(1, false));
    assert!(!r.observe(0, false));
    assert_eq!(r.outcome(), Outcome::NotFound(0));
    assert_eq!(Race::new(0).outcome(), Outcome::NoRepositories);
}

#[test]
fn repositories_in_turn() {
    assert_eq!(first_turn(0), Turn::Done(Outcome::NoRepositories));
    assert_eq!(first_turn(2), Turn::Ask(0));
    assert_eq!(next_turn(2, 0, false), Turn::Ask(1));
    assert_eq!(next_turn(2, 0, true), Turn::Done(Outcome::Found(0)));
    assert_eq!(next_turn(2, 1, false), Turn::Done(Outcome::NotFound(1)));
}

#[test]
fn both_ways_of_searching_find_the_same() {
    let owns = [false, true, false, true];
    let mut race = Race::new(4);
    for i in [3, 2, 0, 1] {
        race.observe(i, owns[i]);
    }
    let mut turn = first_turn(4);
    while let Turn::Ask(i) = turn {
        turn = next_turn(4, i, owns[i]);
    }
    assert_eq!(turn, Turn::Done(race.outcome()));
}

fn hex(bytes: Vec<u8>) -> String {
    Checksum::provided(bytes).to_string()
}

#[test]
fn digests_of_every_method() {
    let of = |m: DigestMethod| {
        let mut s = DigestState::new(m);
        s.update(&b"a".to_vec());
        s.update(&b"bc".to_vec());
        hex(s.finish())
    };
    assert_eq!(of(DigestMethod::Md5), "900150983cd24fb0d6963f7d28e17f72");
    assert_eq!(of(DigestMethod::Sha1), "a9993e364706816aba3e25717850c26c9cd0d89d");
    assert_eq!(
        of(DigestMethod::Sha256),
        "ba7816bf8f01cfea414140de5dae2223b00361a396177a9cb410ff61f20015ad"
    );
    assert_eq!(
        of(DigestMethod::Sha512),
        "ddaf35a193617abacc417349ae20413112e6fa4e89a97ea20a9eeee64b55d39a2192992a274fc1a836ba3c23a3feebbd454d4423643ce80e2a9ac94fa54ca49f"
    );
}

#[test]
fn assets_are_held_against_their_digest() {
    let abc = b"abc".to_vec();
    let a = Asset::of(&abc);
    assert!(verify_bytes(&abc, &a.sha256));
    assert!(!verify_bytes(&b"abd".to_vec(), &a.sha256));
    assert!(a.is(&a.sha256));
}

#[test]
fn best_digest_that_can_be_read() {
    let some = |s: &str| Some(s.to_string());
    let d = choose_digest(&vec![None, some("not hex"), some("00ff"), some("01")]).unwrap();
    assert_eq!(d, Digest { method: DigestMethod::Sha1, reference: vec![0, 255] });
    assert_eq!(choose_digest(&vec![some("aa"), some("bb"), None, None]).unwrap().method, DigestMethod::Sha512);
    assert_eq!(choose_digest(&vec![None, None, None, None]), None);
    assert_eq!(choose_digest(&vec![]), None);
}

#[test]
fn verdicts_follow_the_policies() {
    let policies = [ChecksumPolicy::Required, ChecksumPolicy::Fail, ChecksumPolicy::Warn, ChecksumPolicy::Ignore];
    let missing: Vec<Verdict> = policies.iter().map(|p| verdict(*p, None)).collect();
    assert_eq!(missing, vec![Verdict::Missing, Verdict::Accept, Verdict::Accept, Verdict::Accept]);
    let wrong: Vec<Verdict> = policies.iter().map(|p| verdict(*p, Some(false))).collect();
    assert_eq!(wrong, vec![Verdict::Mismatch, Verdict::Mismatch, Verdict::Warn, Verdict::Accept]);
    for p in policies {
        assert_eq!(verdict(p, Some(true)), Verdict::Accept);
    }
    let abc = b"abc".to_vec();
    let good = Some(Digest { method: DigestMethod::Sha256, reference: Asset::of(&abc).sha256 });
    assert_eq!(judge(ChecksumPolicy::Required, &good, &abc), Verdict::Accept);
    assert_eq!(judge(ChecksumPolicy::Fail, &good, &b"x".to_vec()), Verdict::Mismatch);
    assert_eq!(judge(ChecksumPolicy::Required, &None, &abc), Verdict::Missing);
    let d = good.unwrap();
    assert_eq!(d.check(&abc), Some(d.reference.clone()));
    assert_eq!(d.check_given(vec![1]), None);
}

#[test]
fn content_types() {
    assert!(accepts(Wanted::Metadata, "text/xml"));
    assert!(accepts(Wanted::Metadata, "application/xml"));
    assert!(!accepts(Wanted::Metadata, "application/x-maven-pom+xml"));
    assert!(accepts(Wanted::Pom, "application/x-maven-pom+xml"));
    assert!(!accepts(Wanted::Pom, "text/html"));
    assert!(accepts(Wanted::Asset, "anything"));
}

#[test]
fn attempts_get_more_time() {
    assert_eq!(attempt_timeout(0), 5);
    assert_eq!(attempt_timeout(1), 10);
    assert_eq!(attempt_timeout(2), 20);
    assert_eq!(attempt_timeout(9), 20);
}

#[test]
fn transient_errors() {
    let s = || "x".to_string();
    assert!(ClientError::Request(s()).is_transient());
    assert!(ClientError::Io(s()).is_transient());
    for e in [
        ClientError::MissingHeader(s()),
        ClientError::InvalidContentType(s(), s()),
        ClientError::ChecksumNotFound(s()),
        ClientError::ChecksumFailed(s(), DigestMethod::Md5),
        ClientError::Parse(s()),
    ] {
        assert!(!e.is_transient());
    }
}

#[test]
fn addresses() {
    let g = GroupId::new("com.example".to_string());
    let a = ArtifactId::new("lib".to_string());
    let v = ArtifactVersion::verbatim("1-SNAPSHOT".to_string());
    assert_eq!(metadata_url("https://r", &g, &a, None), "https://r/com/example/lib/maven-metadata.xml");
    assert_eq!(
        metadata_url("https://r", &g, &a, Some(&v)),
        "https://r/com/example/lib/1-SNAPSHOT/maven-metadata.xml"
    );
    let url = asset_url("https://r", "a/b.jar");
    assert_eq!(url, "https://r/a/b.jar");
    assert_eq!(checksum_url(&url, DigestMethod::Sha256), "https://r/a/b.jar.sha256");
}

#[test]
fn headers_are_checked() {
    let s = |t: &str| t.to_string();
    assert_eq!(check_header(Wanted::Pom, "p", None), Err(ClientError::MissingHeader(s("content-type"))));
    assert_eq!(
        check_header(Wanted::Pom, "p", Some("text/html")),
        Err(ClientError::InvalidContentType(s("p"), s("text/html")))
    );
    assert_eq!(
        check_header(Wanted::Metadata, "p", Some("text/html")),
        Err(ClientError::InvalidContentType(s("text/xml or application/xml"), s("text/html")))
    );
    assert_eq!(check_header(Wanted::Asset, "p", Some("text/html")), Ok(()));
}

#[test]
fn what_is_received_is_judged() {
    let abc = b"abc".to_vec();
    let wrong = Some(Digest { method: DigestMethod::Md5, reference: vec![0] });
    let u = || "u".to_string();
    assert_eq!(receive(ChecksumPolicy::Fail, "u", &None, &abc), Ok(false));
    assert_eq!(receive(ChecksumPolicy::Required, "u", &None, &abc), Err(ClientError::ChecksumNotFound(u())));
    assert_eq!(
        receive(ChecksumPolicy::Fail, "u", &wrong, &abc),
        Err(ClientError::ChecksumFailed(u(), DigestMethod::Md5))
    );
    assert_eq!(receive(ChecksumPolicy::Warn, "u", &wrong, &abc), Ok(true));
    assert_eq!(receive(ChecksumPolicy::Ignore, "u", &wrong, &abc), Ok(false));
    assert_eq!(download_key(&coord("g:a:1")), "dl:g:a:1");
}

#[test]
fn loads_keep_their_key() {
    let load = Load {
        coord: coord("g:a:1"),
        artifact_type: ArtifactType::new("test-jar".to_string()),
        classifier: None,
        branch: LoaderBranch::new(OrdSet::new(), 3, Scope::Test),
    };
    let ticket = load.ticket();
    assert_eq!(ticket.key.to_string(), "g:a:test-jar:tests");
    assert_eq!(ticket.classifier.as_deref(), Some("tests"));
    assert_eq!(ticket.rank, rank(0, &[3]));
    assert_eq!(load.failure_key().to_string(), "g:a:test-jar");
    let done = load.loaded("r", "p", &OrdMap::new());
    assert_eq!(done.artifact.key(), ticket.key);
    assert_eq!(done.artifact.effective_scope, Scope::Test);
    assert_eq!(done.rank, ticket.rank);
}
