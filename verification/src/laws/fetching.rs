//! Laws of what is asked of repositories, of what comes back, and of what is told of it.
use vstd::prelude::*;
use crate::manifest::lock::unhex_spec;
use crate::manifest::ChecksumPolicy;
use crate::maven::loader::{
    asset_path_spec, location_spec, path_spec, snapshot_version_spec, Location, ResolvedView,
};
use crate::maven::search::{
    answered, best_of, best_of_props, decided, found_at, last_failure, next_turn_spec, first_turn_spec, outcome_of,
    Answer, Outcome, Turn,
};
use crate::maven::{
    accepts_spec, digest_spec, first_digest, header_fault, md5_of, metadata_url_spec, method_name, receive_spec,
    sha1_of, sha256_of, sha512_of, url_spec, ClientErrorView, Digest, DigestMethod, Wanted, MAVEN_POM_SUFFIX,
};
use crate::laws::texts::{joining_goes_on, joining_undoes_splitting, replacing_is_joining_otherwise};
use crate::laws::ways::{extension_is_added_at_the_end, is_file_name};
use crate::paths::{added_extension_spec, join_path_spec};
use crate::status::{handle_spec, overflow_spec, printed_spec, without_key, ProgressView, Status, StatusView};
use crate::text::{decimal_spec, ends, join_spec, lines_spec, split_spec};
use crate::types::{extension_spec, CoordView};

verus! {

/// The methods of digests, from the strongest to the weakest.
pub open spec fn by_strength(i: int) -> DigestMethod {
    if i == 0 {
        DigestMethod::Sha512
    } else if i == 1 {
        DigestMethod::Sha256
    } else if i == 2 {
        DigestMethod::Sha1
    } else {
        DigestMethod::Md5
    }
}

/// Whether an answer is a digest.
pub open spec fn is_digest(answer: Option<Seq<char>>) -> bool {
    answer is Some && unhex_spec(answer->Some_0) is Some
}

/// Of the digests that a repository gives, the strongest that can be read counts.
pub proof fn strongest_digest_counts(answers: Seq<Option<Seq<char>>>, i: int)
    requires
        answers.len() == 4,
        0 <= i <= 4,
    ensures
        match first_digest(answers, i) {
            Some((m, b)) => exists|k: int|
                i <= k < 4 && m == by_strength(k) && is_digest(#[trigger] answers[k]) && unhex_spec(
                    answers[k]->Some_0,
                ) == Some(b) && forall|l: int| i <= l < k ==> !is_digest(#[trigger] answers[l]),
            None => forall|l: int| i <= l < 4 ==> !is_digest(#[trigger] answers[l]),
        },
    decreases 4 - i,
{
    if i < 4 {
        strongest_digest_counts(answers, i + 1);
        if is_digest(answers[i]) {
            assert(first_digest(answers, i) == Some((by_strength(i), unhex_spec(answers[i]->Some_0)->Some_0)));
        } else {
            assert(first_digest(answers, i) == first_digest(answers, i + 1));
            if let Some((m, b)) = first_digest(answers, i + 1) {
                let k = choose|k: int|
                    i + 1 <= k < 4 && m == by_strength(k) && is_digest(#[trigger] answers[k]) && unhex_spec(
                        answers[k]->Some_0,
                    ) == Some(b) && forall|l: int| i + 1 <= l < k ==> !is_digest(#[trigger] answers[l]);
                assert(forall|l: int| i <= l < k ==> !is_digest(#[trigger] answers[l]));
            }
        }
    }
}

/// Each method has its own digest and its own name.
pub proof fn each_method_has_its_digest(data: Seq<u8>)
    ensures
        digest_spec(DigestMethod::Sha512, data) == sha512_of(data),
        digest_spec(DigestMethod::Sha256, data) == sha256_of(data),
        digest_spec(DigestMethod::Sha1, data) == sha1_of(data),
        digest_spec(DigestMethod::Md5, data) == md5_of(data),
        method_name(DigestMethod::Sha512) == "sha512"@,
        method_name(DigestMethod::Sha256) == "sha256"@,
        method_name(DigestMethod::Sha1) == "sha1"@,
        method_name(DigestMethod::Md5) == "md5"@,
{
}

/// What has the digest that the repository gives is taken, whatever the policy. What has another
/// is refused, unless the policy is to warn, and then it is taken with a warning, or to ignore
/// it. What the repository gives no digest for is refused only where one is required.
pub proof fn wrong_content_is_refused(policy: ChecksumPolicy, url: Seq<char>, d: Digest, content: Seq<u8>)
    ensures
        digest_spec(d.method, content) == d.reference@ ==> receive_spec(policy, url, Some(d), content) == Ok::<
            bool,
            ClientErrorView,
        >(false),
        digest_spec(d.method, content) != d.reference@ && (policy == ChecksumPolicy::Fail || policy
            == ChecksumPolicy::Required) ==> receive_spec(policy, url, Some(d), content) == Err::<
            bool,
            ClientErrorView,
        >(ClientErrorView::ChecksumFailed(url, d.method)),
        digest_spec(d.method, content) != d.reference@ && policy == ChecksumPolicy::Warn ==> receive_spec(
            policy,
            url,
            Some(d),
            content,
        ) == Ok::<bool, ClientErrorView>(true),
        digest_spec(d.method, content) != d.reference@ && policy == ChecksumPolicy::Ignore ==> receive_spec(
            policy,
            url,
            Some(d),
            content,
        ) == Ok::<bool, ClientErrorView>(false),
        policy == ChecksumPolicy::Required ==> receive_spec(policy, url, None, content) == Err::<bool, ClientErrorView>(
            ClientErrorView::ChecksumNotFound(url),
        ),
        policy != ChecksumPolicy::Required ==> receive_spec(policy, url, None, content) == Ok::<bool, ClientErrorView>(
            false,
        ),
{
}

/// Metadata and POMs come as XML, POMs as Maven's own kind of it, too. Anything is taken as an
/// asset. An answer that does not say what it is, is refused.
pub proof fn answers_say_what_they_are(wanted: Wanted, path: Seq<char>, t: Seq<char>)
    ensures
        header_fault(wanted, path, None) == Some(ClientErrorView::MissingHeader("content-type"@)),
        header_fault(Wanted::Asset, path, Some(t)) is None,
        t == "text/xml"@ || t == "application/xml"@ ==> header_fault(wanted, path, Some(t)) is None,
        t == "application/x-maven-pom+xml"@ ==> header_fault(Wanted::Pom, path, Some(t)) is None,
        t != "text/xml"@ && t != "application/xml"@ ==> header_fault(Wanted::Metadata, path, Some(t)) == Some(
            ClientErrorView::InvalidContentType("text/xml or application/xml"@, t),
        ),
        t != "text/xml"@ && t != "application/xml"@ && t != "application/x-maven-pom+xml"@ ==> header_fault(
            Wanted::Pom,
            path,
            Some(t),
        ) == Some(ClientErrorView::InvalidContentType(path, t)),
{
}

/// The directories of an artifact in a repository: those of its group, part by part, that of its
/// name, and that of its version.
pub open spec fn directories(c: CoordView) -> Seq<Seq<char>> {
    split_spec(c.group, '.').push(c.artifact).push(c.version)
}

proof fn join_more(parts: Seq<Seq<char>>, last: Seq<char>)
    requires
        parts.len() > 0,
    ensures
        join_spec(parts.push(last), "/"@) == join_spec(parts, "/"@) + seq!['/'] + last,
{
    reveal_strlit("/");
    assert("/"@ =~= seq!['/']);
    joining_goes_on(parts, seq![last], "/"@, last);
    assert(parts + seq![last] =~= parts.push(last));
}

/// An artifact is in the directories of its group, its name and its version, in a file that is
/// named after its name and the version that its files carry.
pub proof fn artifact_is_in_its_directories(c: CoordView, version: Seq<char>)
    ensures
        path_spec(c, version) == join_spec(directories(c).push(c.artifact + "-"@ + version), "/"@),
{
    reveal_strlit("/");
    reveal_strlit("-");
    assert("/"@ =~= seq!['/']);
    assert("-"@ =~= seq!['-']);
    let g = split_spec(c.group, '.');
    joining_undoes_splitting(c.group, '.');
    replacing_is_joining_otherwise(c.group, '.', '/');
    join_more(g, c.artifact);
    join_more(g.push(c.artifact), c.version);
    join_more(directories(c), c.artifact + "-"@ + version);
    assert(path_spec(c, version) =~= join_spec(directories(c).push(c.artifact + "-"@ + version), "/"@));
}

/// The metadata of an artifact are in the directory of its name, and those of a version in that
/// of the version.
pub proof fn metadata_are_in_their_directory(base: Seq<char>, c: CoordView)
    ensures
        metadata_url_spec(base, c.group, c.artifact, Some(c.version)) == base + "/"@ + join_spec(
            directories(c).push("maven-metadata.xml"@),
            "/"@,
        ),
        metadata_url_spec(base, c.group, c.artifact, None) == base + "/"@ + join_spec(
            split_spec(c.group, '.').push(c.artifact).push("maven-metadata.xml"@),
            "/"@,
        ),
{
    reveal_strlit("/");
    assert("/"@ =~= seq!['/']);
    let g = split_spec(c.group, '.');
    joining_undoes_splitting(c.group, '.');
    replacing_is_joining_otherwise(c.group, '.', '/');
    join_more(g, c.artifact);
    join_more(g.push(c.artifact), c.version);
    join_more(directories(c), "maven-metadata.xml"@);
    join_more(g.push(c.artifact), "maven-metadata.xml"@);
    assert(metadata_url_spec(base, c.group, c.artifact, Some(c.version)) =~= base + "/"@ + join_spec(
        directories(c).push("maven-metadata.xml"@),
        "/"@,
    ));
    assert(metadata_url_spec(base, c.group, c.artifact, None) =~= base + "/"@ + join_spec(
        g.push(c.artifact).push("maven-metadata.xml"@),
        "/"@,
    ));
}

/// What a repository has is at its address, with a slash between them.
pub proof fn asset_is_below_the_address(base: Seq<char>, path: Seq<char>)
    ensures
        url_spec(base, path) == base + "/"@ + path,
{
    reveal_strlit("/");
    assert("/"@ =~= seq!['/']);
}

/// A version that ends in `-SNAPSHOT` stands for its latest build, and is looked for under what
/// stands before that. Any other is looked for under its own path.
pub proof fn snapshots_are_looked_up(c: CoordView, base: Seq<char>, time: Seq<char>, build: Seq<char>)
    ensures
        c.version == base + "-SNAPSHOT"@ ==> location_spec(c) == Location::Snapshot(base),
        !ends(c.version, "-SNAPSHOT"@) ==> location_spec(c) == Location::Path(path_spec(c, c.version)),
        snapshot_version_spec(base, time, build) == base + "-"@ + time + "-"@ + build,
{
    reveal_strlit("-");
    assert("-"@ =~= seq!['-']);
    if c.version == base + "-SNAPSHOT"@ {
        let n = c.version.len() - "-SNAPSHOT"@.len();
        assert(c.version.skip(n) =~= "-SNAPSHOT"@);
        assert(c.version.take(n) =~= base);
    }
}

/// The file of an artifact with a classifier has the classifier and the extension of its type
/// after its path.
pub proof fn classified_file_is_named_so(a: ResolvedView)
    requires
        a.classifier is Some,
    ensures
        asset_path_spec(a) == a.artifact_path + "-"@ + a.classifier->Some_0 + "."@ + if a.artifact_type == "test-jar"@
            || a.artifact_type == "maven-plugin"@ || a.artifact_type == "ejb"@ || a.artifact_type == "ejb-client"@
            || a.artifact_type == "java-source"@ || a.artifact_type == "javadoc"@ {
            "jar"@
        } else {
            a.artifact_type
        },
{
    reveal_strlit("-");
    reveal_strlit(".");
    assert("-"@ =~= seq!['-']);
    assert("."@ =~= seq!['.']);
}

/// The file of an artifact without a classifier has the extension of its type after its path, and
/// its POM the extension `pom`.
pub proof fn plain_file_is_named_so(a: ResolvedView, dir: Seq<char>, name: Seq<char>)
    requires
        a.classifier is None,
        a.artifact_path == join_path_spec(dir, name),
        dir.len() > 0,
        is_file_name(name),
        a.artifact_type.len() > 0,
    ensures
        asset_path_spec(a) == a.artifact_path + "."@ + if a.artifact_type == "test-jar"@ || a.artifact_type
            == "maven-plugin"@ || a.artifact_type == "ejb"@ || a.artifact_type == "ejb-client"@ || a.artifact_type
            == "java-source"@ || a.artifact_type == "javadoc"@ {
            "jar"@
        } else {
            a.artifact_type
        },
        added_extension_spec(a.artifact_path, MAVEN_POM_SUFFIX@) == a.artifact_path + ".pom"@,
{
    reveal_strlit("jar");
    reveal_strlit("pom");
    reveal_strlit(".");
    reveal_strlit(".pom");
    extension_is_added_at_the_end(dir, name, extension_spec(a.artifact_type));
    extension_is_added_at_the_end(dir, name, "pom"@);
    assert(".pom"@ =~= "."@ + "pom"@);
    assert(a.artifact_path + ".pom"@ =~= a.artifact_path + "."@ + "pom"@);
}

/// A race is decided once a repository has it and all that are declared before that one have
/// answered, and not before. Whatever the others answer then, the outcome stays.
pub proof fn decided_race_stays_decided(answers: Seq<Answer>, more: Seq<Answer>)
    requires
        forall|i: int, j: int|
            0 <= i < (answers + more).len() && 0 <= j < (answers + more).len() && (#[trigger] (answers + more)[i]).0
                == (#[trigger] (answers + more)[j]).0 ==> (answers + more)[i].1 == (answers + more)[j].1,
        forall|i: int| 0 <= i < (answers + more).len() ==> (#[trigger] (answers + more)[i]).0 >= 0,
    ensures
        decided(answers) <==> exists|b: int| #[trigger] found_at(answers, b) && forall|i: int|
            0 <= i <= b ==> #[trigger] answered(answers, i),
        decided(answers) ==> outcome_of(answers + more) == outcome_of(answers),
        decided(answers) ==> outcome_of(answers) is Found,
{
    best_of_props(answers);
    best_of_props(answers + more);
    let all = answers + more;
    if exists|b: int| #[trigger] found_at(answers, b) && forall|i: int| 0 <= i <= b ==> #[trigger] answered(answers, i) {
        let b = choose|b: int| #[trigger] found_at(answers, b) && forall|i: int|
            0 <= i <= b ==> #[trigger] answered(answers, i);
        let a = best_of(answers)->Some_0;
        assert(a <= b);
    }
    if decided(answers) {
        let a = best_of(answers)->Some_0;
        let k = choose|k: int| 0 <= k < answers.len() && #[trigger] answers[k] == (a, true);
        assert(all[k] == (a, true));
        assert(found_at(all, a));
        let b = best_of(all)->Some_0;
        assert(b <= a);
        if b < a {
            let m = choose|m: int| 0 <= m < all.len() && #[trigger] all[m] == (b, true);
            assert(all[m].0 >= 0);
            assert(answered(answers, b));
            let l = choose|l: int| 0 <= l < answers.len() && (#[trigger] answers[l]).0 == b;
            assert(all[l] == answers[l]);
            assert(all[l].0 == all[m].0);
            assert(answers[l] == (b, true));
            assert(found_at(answers, b));
        }
    }
}

/// Where no repository has it, the last that answered is named, and where none was asked, that.
pub proof fn failed_race_names_the_last(answers: Seq<Answer>)
    requires
        forall|i: int| 0 <= i < answers.len() ==> !(#[trigger] answers[i]).1,
    ensures
        answers.len() == 0 ==> outcome_of(answers) == Outcome::NoRepositories,
        answers.len() > 0 ==> outcome_of(answers) == Outcome::NotFound(answers.last().0 as usize),
{
    best_of_props(answers);
    if best_of(answers) is Some {
        let b = best_of(answers)->Some_0;
        let k = choose|k: int| 0 <= k < answers.len() && #[trigger] answers[k] == (b, true);
        assert(!answers[k].1);
    }
    if answers.len() > 0 {
        assert(!answers[answers.len() - 1].1);
    }
}

/// Repositories are asked one by one, from the first on, until one has it or there are no more.
pub proof fn repositories_are_asked_in_turn(n: usize, i: usize)
    requires
        i < n,
    ensures
        first_turn_spec(0) == Turn::Done(Outcome::NoRepositories),
        first_turn_spec(n) == Turn::Ask(0),
        next_turn_spec(n, i, true) == Turn::Done(Outcome::Found(i)),
        i < n - 1 ==> next_turn_spec(n, i, false) == Turn::Ask((i + 1) as usize),
        i == n - 1 ==> next_turn_spec(n, i, false) == Turn::Done(Outcome::NotFound(i)),
{
}

proof fn ended_work_is_not_shown(queue: Seq<(Seq<char>, Seq<char>)>, key: Seq<char>)
    ensures
        without_key(queue, key) == queue.filter(|e: (Seq<char>, Seq<char>)| e.0 != key),
    decreases queue.len(),
{
    reveal(Seq::filter);
    if queue.len() > 0 {
        ended_work_is_not_shown(queue.drop_last(), key);
    }
    assert(without_key(queue, key) =~= queue.filter(|e: (Seq<char>, Seq<char>)| e.0 != key));
}

/// Work that begins is shown after all else; work that ends, or fails, is no longer shown, and all
/// else stays, in order. A failure is final, and is printed with what failed.
pub proof fn work_is_shown_while_it_goes_on(p: ProgressView, k: Seq<char>, m: Seq<char>)
    requires
        p.fatal is None,
    ensures
        handle_spec(p, Status::Begin(k, m)) == (ProgressView { queue: p.queue.push((k, m)), fatal: None }),
        handle_spec(p, Status::End(k)) == (ProgressView {
            queue: p.queue.filter(|e: (Seq<char>, Seq<char>)| e.0 != k),
            fatal: None,
        }),
        handle_spec(p, Status::Error(k, m)) == (ProgressView {
            queue: p.queue.filter(|e: (Seq<char>, Seq<char>)| e.0 != k),
            fatal: Some(m),
        }),
        handle_spec(p, Status::Fatal(m)).queue == p.queue,
        handle_spec(p, Status::Fatal(m)).fatal is Some,
        handle_spec(p, Status::Log(m)) == p,
        handle_spec(p, Status::Output(m)) == p,
        printed_spec(p, Status::Begin(k, m)).len() == 0,
        printed_spec(p, Status::End(k)).len() == 0,
        printed_spec(p, Status::Error(k, m)) == seq!["\u{2717} "@ + k + ": "@ + m],
        printed_spec(p, Status::Fatal(m)) == seq![m],
        printed_spec(p, Status::Log(m)) == seq![m],
        printed_spec(p, Status::Output(m)) == lines_spec(m),
{
    ended_work_is_not_shown(p.queue, k);
}

/// Four are shown, and the number of the others.
pub proof fn others_are_counted(queue: Seq<(Seq<char>, Seq<char>)>)
    ensures
        queue.len() <= 4 ==> overflow_spec(queue) is None,
        queue.len() > 4 ==> overflow_spec(queue) == Some(
            "and "@ + decimal_spec((queue.len() - 4) as nat) + " more..."@,
        ),
{
}

} // verus!
