//! Maven repositories: what is asked of them, and what is made of the answers.
use vstd::prelude::*;
use crate::manifest::lock::{decode_hex, unhex_spec};
use crate::manifest::ChecksumPolicy;
use crate::text::{joined, push_text, replace_char_spec, same};
use crate::types::{ArtifactId, ArtifactVersion, GroupId};

pub mod assembly;
pub mod loader;
pub mod metadata;
pub mod pom;
pub mod search;
pub mod template;
pub mod xml;

verus! {

/// Maven Central.
pub const MAVEN_REPO: &'static str = "https://repo1.maven.org/maven2";

/// The name of the file that lists the versions of an artifact.
pub const MAVEN_METADATA_FILE: &'static str = "maven-metadata.xml";

/// The extension of a POM.
pub const MAVEN_POM_SUFFIX: &'static str = "pom";

/// The SHA-512 digest of bytes.
pub uninterp spec fn sha512_of(data: Seq<u8>) -> Seq<u8>;

/// The SHA-256 digest of bytes.
pub uninterp spec fn sha256_of(data: Seq<u8>) -> Seq<u8>;

/// The SHA-1 digest of bytes.
pub uninterp spec fn sha1_of(data: Seq<u8>) -> Seq<u8>;

/// The MD5 digest of bytes.
pub uninterp spec fn md5_of(data: Seq<u8>) -> Seq<u8>;

/// Calls `sha2::Sha512::digest`. Claims that the digest depends on the bytes alone.
#[verifier::external_body]
fn sha512(data: &Vec<u8>) -> (r: Vec<u8>)
    ensures
        r@ == sha512_of(data@),
{
    <sha2::Sha512 as sha2::Digest>::digest(data).to_vec()
}

/// Calls `sha2::Sha256::digest`. Claims that the digest depends on the bytes alone.
#[verifier::external_body]
fn sha256(data: &Vec<u8>) -> (r: Vec<u8>)
    ensures
        r@ == sha256_of(data@),
{
    <sha2::Sha256 as sha2::Digest>::digest(data).to_vec()
}

/// Calls `sha1::Sha1::digest`. Claims that the digest depends on the bytes alone.
#[verifier::external_body]
fn sha1(data: &Vec<u8>) -> (r: Vec<u8>)
    ensures
        r@ == sha1_of(data@),
{
    <sha1::Sha1 as sha1::Digest>::digest(data).to_vec()
}

/// Calls `md5::Md5::digest`. Claims that the digest depends on the bytes alone.
#[verifier::external_body]
fn md5(data: &Vec<u8>) -> (r: Vec<u8>)
    ensures
        r@ == md5_of(data@),
{
    <md5::Md5 as md5::Digest>::digest(data).to_vec()
}

/// How a digest is computed.
#[derive(Clone, Copy, Debug, PartialEq, Eq, Structural)]
pub enum DigestMethod {
    Sha512,
    Sha256,
    Sha1,
    Md5,
}

/// The name of a method, which is also the extension of a file with such a digest.
pub open spec fn method_name(m: DigestMethod) -> Seq<char> {
    match m {
        DigestMethod::Sha512 => "sha512"@,
        DigestMethod::Sha256 => "sha256"@,
        DigestMethod::Sha1 => "sha1"@,
        DigestMethod::Md5 => "md5"@,
    }
}

/// The methods, from the one that is trusted most.
pub open spec fn method_order() -> Seq<DigestMethod> {
    seq![DigestMethod::Sha512, DigestMethod::Sha256, DigestMethod::Sha1, DigestMethod::Md5]
}

/// The digest of bytes by a method.
pub open spec fn digest_spec(m: DigestMethod, data: Seq<u8>) -> Seq<u8> {
    match m {
        DigestMethod::Sha512 => sha512_of(data),
        DigestMethod::Sha256 => sha256_of(data),
        DigestMethod::Sha1 => sha1_of(data),
        DigestMethod::Md5 => md5_of(data),
    }
}

impl DigestMethod {
    pub fn name(self) -> (r: &'static str)
        ensures
            r@ == method_name(self),
    {
        match self {
            DigestMethod::Sha512 => "sha512",
            DigestMethod::Sha256 => "sha256",
            DigestMethod::Sha1 => "sha1",
            DigestMethod::Md5 => "md5",
        }
    }

    /// The methods, from the one that is trusted most.
    pub fn all() -> (r: Vec<DigestMethod>)
        ensures
            r@ == method_order(),
    {
        let mut v: Vec<DigestMethod> = Vec::new();
        v.push(DigestMethod::Sha512);
        v.push(DigestMethod::Sha256);
        v.push(DigestMethod::Sha1);
        v.push(DigestMethod::Md5);
        assert(v@ =~= method_order());
        v
    }
}

/// A digest that is being computed.
#[derive(Debug, PartialEq, Eq)]
pub struct DigestState {
    method: DigestMethod,
    data: Vec<u8>,
}

impl DigestState {
    pub closed spec fn method(self) -> DigestMethod {
        self.method
    }

    pub closed spec fn data(self) -> Seq<u8> {
        self.data@
    }

    pub fn new(method: DigestMethod) -> (r: Self)
        ensures
            r.method() == method,
            r.data() == Seq::<u8>::empty(),
    {
        DigestState { method, data: Vec::new() }
    }

    /// Takes in more bytes.
    pub fn update(&mut self, data: &Vec<u8>)
        ensures
            final(self).method() == old(self).method(),
            final(self).data() == old(self).data() + data@,
    {
        let mut i: usize = 0;
        assert(self.data@ =~= old(self).data@ + data@.take(0));
        while i < data.len()
            invariant
                i <= data@.len(),
                self.method == old(self).method,
                self.data@ == old(self).data@ + data@.take(i as int),
            decreases data@.len() - i,
        {
            self.data.push(data[i]);
            i = i + 1;
            assert(self.data@ =~= old(self).data@ + data@.take(i as int));
        }
        assert(data@.take(i as int) =~= data@);
    }

    /// The digest of all bytes taken in.
    pub fn finish(self) -> (r: Vec<u8>)
        ensures
            r@ == digest_spec(self.method(), self.data()),
    {
        match self.method {
            DigestMethod::Sha512 => sha512(&self.data),
            DigestMethod::Sha256 => sha256(&self.data),
            DigestMethod::Sha1 => sha1(&self.data),
            DigestMethod::Md5 => md5(&self.data),
        }
    }
}

/// Whether two sequences of bytes are the same.
pub fn same_bytes(a: &Vec<u8>, b: &Vec<u8>) -> (r: bool)
    ensures
        r == (a@ == b@),
{
    if a.len() != b.len() {
        return false;
    }
    let mut i: usize = 0;
    while i < a.len()
        invariant
            i <= a@.len(),
            a@.len() == b@.len(),
            forall|k: int| 0 <= k < i ==> a@[k] == b@[k],
        decreases a@.len() - i,
    {
        if a[i] != b[i] {
            return false;
        }
        i = i + 1;
    }
    assert(a@ =~= b@);
    true
}

/// A digest that a repository gives of a file.
#[derive(Debug, PartialEq, Eq)]
pub struct Digest {
    pub method: DigestMethod,
    pub reference: Vec<u8>,
}

impl Digest {
    /// The digest of bytes, where it is the one that the repository gives.
    pub fn check(&self, data: &Vec<u8>) -> (r: Option<Vec<u8>>)
        ensures
            match r {
                Some(d) => d@ == digest_spec(self.method, data@) && d@ == self.reference@,
                None => digest_spec(self.method, data@) != self.reference@,
            },
    {
        let mut state = DigestState::new(self.method);
        state.update(data);
        assert(state.data() =~= data@);
        self.check_given(state.finish())
    }

    /// The digest, where it is the one that the repository gives.
    pub fn check_given(&self, digest: Vec<u8>) -> (r: Option<Vec<u8>>)
        ensures
            match r {
                Some(d) => d@ == digest@ && d@ == self.reference@,
                None => digest@ != self.reference@,
            },
    {
        if same_bytes(&digest, &self.reference) {
            Some(digest)
        } else {
            None
        }
    }
}

/// The first method, from a place on, for which the repository gave hexadecimal.
pub open spec fn first_digest(answers: Seq<Option<Seq<char>>>, i: int) -> Option<(DigestMethod, Seq<u8>)>
    decreases answers.len() - i,
{
    if i < 0 || i >= answers.len() || i >= method_order().len() {
        None
    } else {
        match answers[i] {
            Some(t) => match unhex_spec(t) {
                Some(b) => Some((method_order()[i], b)),
                None => first_digest(answers, i + 1),
            },
            None => first_digest(answers, i + 1),
        }
    }
}

/// The digest to hold a file against, given what the repository answered for each method,
/// from the one that is trusted most. An answer that is no hexadecimal counts as none.
pub fn choose_digest(answers: &Vec<Option<String>>) -> (r: Option<Digest>)
    ensures
        match r {
            Some(d) => first_digest(answers@.map_values(|a: Option<String>| crate::text::opt_text(a)), 0) == Some(
                (d.method, d.reference@),
            ),
            None => first_digest(answers@.map_values(|a: Option<String>| crate::text::opt_text(a)), 0) is None,
        },
{
    let ghost av = answers@.map_values(|a: Option<String>| crate::text::opt_text(a));
    let methods = DigestMethod::all();
    let mut i: usize = 0;
    while i < answers.len() && i < methods.len()
        invariant
            i <= answers@.len(),
            i <= methods@.len(),
            methods@ == method_order(),
            av == answers@.map_values(|a: Option<String>| crate::text::opt_text(a)),
            first_digest(av, 0) == first_digest(av, i as int),
        decreases answers@.len() - i,
    {
        assert(av[i as int] == crate::text::opt_text(answers@[i as int]));
        if let Some(t) = &answers[i] {
            if let Ok(reference) = decode_hex(t.as_str()) {
                return Some(Digest { method: methods[i], reference });
            }
        }
        i = i + 1;
    }
    None
}

/// What is made of a file.
#[derive(Clone, Copy, Debug, PartialEq, Eq, Structural)]
pub enum Verdict {
    /// It is taken.
    Accept,
    /// It is taken, with a warning that its checksum does not match.
    Warn,
    /// It is refused: it has no checksum.
    Missing,
    /// It is refused: its checksum does not match.
    Mismatch,
}

/// What is made of a file, given whether its checksum matches, where it has one.
pub open spec fn verdict_spec(policy: ChecksumPolicy, matches: Option<bool>) -> Verdict {
    match (matches, policy) {
        (None, ChecksumPolicy::Required) => Verdict::Missing,
        (None, _) => Verdict::Accept,
        (Some(true), _) => Verdict::Accept,
        (Some(false), ChecksumPolicy::Required) => Verdict::Mismatch,
        (Some(false), ChecksumPolicy::Fail) => Verdict::Mismatch,
        (Some(false), ChecksumPolicy::Warn) => Verdict::Warn,
        (Some(false), ChecksumPolicy::Ignore) => Verdict::Accept,
    }
}

/// What is made of a file, given whether its checksum matches, where it has one.
pub fn verdict(policy: ChecksumPolicy, matches: Option<bool>) -> (r: Verdict)
    ensures
        r == verdict_spec(policy, matches),
{
    match (matches, policy) {
        (None, ChecksumPolicy::Required) => Verdict::Missing,
        (None, _) => Verdict::Accept,
        (Some(true), _) => Verdict::Accept,
        (Some(false), ChecksumPolicy::Required) => Verdict::Mismatch,
        (Some(false), ChecksumPolicy::Fail) => Verdict::Mismatch,
        (Some(false), ChecksumPolicy::Warn) => Verdict::Warn,
        (Some(false), ChecksumPolicy::Ignore) => Verdict::Accept,
    }
}

/// Whether a file's checksum matches, where it has one.
pub open spec fn matched(digest: Option<Digest>, content: Seq<u8>) -> Option<bool> {
    match digest {
        Some(d) => Some(digest_spec(d.method, content) == d.reference@),
        None => None,
    }
}

/// What is made of a file.
pub fn judge(policy: ChecksumPolicy, digest: &Option<Digest>, content: &Vec<u8>) -> (r: Verdict)
    ensures
        r == verdict_spec(policy, matched(*digest, content@)),
{
    match digest {
        Some(d) => verdict(policy, Some(d.check(content).is_some())),
        None => verdict(policy, None),
    }
}

/// A file whose checksum matches is taken under every policy. One whose checksum does not
/// match is refused under the two strict ones only, and one without a checksum only where
/// it is required to have one.
pub proof fn policies_are_as_strict_as_they_say(policy: ChecksumPolicy)
    ensures
        verdict_spec(policy, Some(true)) == Verdict::Accept,
        verdict_spec(policy, Some(false)) == Verdict::Mismatch <==> policy == ChecksumPolicy::Required || policy
            == ChecksumPolicy::Fail,
        verdict_spec(policy, Some(false)) == Verdict::Warn <==> policy == ChecksumPolicy::Warn,
        verdict_spec(policy, None) == Verdict::Missing <==> policy == ChecksumPolicy::Required,
        verdict_spec(policy, None) != Verdict::Warn,
{
}

/// What is asked for.
#[derive(Clone, Copy, Debug, PartialEq, Eq, Structural)]
pub enum Wanted {
    Metadata,
    Pom,
    Asset,
}

/// Whether a content type is one that is taken for what was asked for.
pub open spec fn accepts_spec(wanted: Wanted, content_type: Seq<char>) -> bool {
    match wanted {
        Wanted::Metadata => content_type == "text/xml"@ || content_type == "application/xml"@,
        Wanted::Pom => content_type == "text/xml"@ || content_type == "application/xml"@ || content_type
            == "application/x-maven-pom+xml"@,
        Wanted::Asset => true,
    }
}

/// Whether a content type is one that is taken for what was asked for.
pub fn accepts(wanted: Wanted, content_type: &str) -> (r: bool)
    ensures
        r == accepts_spec(wanted, content_type@),
{
    match wanted {
        Wanted::Metadata => same(content_type, "text/xml") || same(content_type, "application/xml"),
        Wanted::Pom => same(content_type, "text/xml") || same(content_type, "application/xml") || same(
            content_type,
            "application/x-maven-pom+xml",
        ),
        Wanted::Asset => true,
    }
}

/// How many seconds an attempt is given, counted from zero.
pub fn attempt_timeout(attempt: u32) -> (r: u64)
    ensures
        r == if attempt == 0 {
            5u64
        } else if attempt == 1 {
            10u64
        } else {
            20u64
        },
{
    if attempt == 0 {
        5
    } else if attempt == 1 {
        10
    } else {
        20
    }
}

/// Why a request came to nothing.
#[derive(Debug, PartialEq, Eq)]
pub enum ClientError {
    /// The request failed.
    Request(String),
    /// The answer lacks a header.
    MissingHeader(String),
    /// The answer has another content type: what was asked for, and the type.
    InvalidContentType(String, String),
    /// There is no checksum for the address.
    ChecksumNotFound(String),
    /// The checksum for the address does not match, by this method.
    ChecksumFailed(String, DigestMethod),
    /// The answer does not have the form that it should have.
    Parse(String),
    /// Reading or writing failed.
    Io(String),
}

impl ClientError {
    /// Whether another attempt may do better.
    pub fn is_transient(&self) -> (r: bool)
        ensures
            r == (*self is Request || *self is Io),
    {
        match self {
            ClientError::Request(_) => true,
            ClientError::Io(_) => true,
            _ => false,
        }
    }
}

/// An error, its texts as characters.
pub enum ClientErrorView {
    Request(Seq<char>),
    MissingHeader(Seq<char>),
    InvalidContentType(Seq<char>, Seq<char>),
    ChecksumNotFound(Seq<char>),
    ChecksumFailed(Seq<char>, DigestMethod),
    Parse(Seq<char>),
    Io(Seq<char>),
}

impl View for ClientError {
    type V = ClientErrorView;

    open spec fn view(&self) -> ClientErrorView {
        match self {
            ClientError::Request(s) => ClientErrorView::Request(s@),
            ClientError::MissingHeader(s) => ClientErrorView::MissingHeader(s@),
            ClientError::InvalidContentType(p, t) => ClientErrorView::InvalidContentType(p@, t@),
            ClientError::ChecksumNotFound(u) => ClientErrorView::ChecksumNotFound(u@),
            ClientError::ChecksumFailed(u, m) => ClientErrorView::ChecksumFailed(u@, *m),
            ClientError::Parse(s) => ClientErrorView::Parse(s@),
            ClientError::Io(s) => ClientErrorView::Io(s@),
        }
    }
}

/// What is said to be wanted when the content type is another.
pub open spec fn wanted_text(wanted: Wanted, path: Seq<char>) -> Seq<char> {
    match wanted {
        Wanted::Metadata => "text/xml or application/xml"@,
        _ => path,
    }
}

/// What the header of an answer is found wanting in, if anything.
pub open spec fn header_fault(wanted: Wanted, path: Seq<char>, content_type: Option<Seq<char>>) -> Option<
    ClientErrorView,
> {
    match content_type {
        None => Some(ClientErrorView::MissingHeader("content-type"@)),
        Some(t) => if accepts_spec(wanted, t) {
            None
        } else {
            Some(ClientErrorView::InvalidContentType(wanted_text(wanted, path), t))
        },
    }
}

/// Whether the header of an answer is as it should be.
pub fn check_header(wanted: Wanted, path: &str, content_type: Option<&str>) -> (r: Result<(), ClientError>)
    ensures
        ({
            let ct = match content_type {
                Some(t) => Some(t@),
                None => None,
            };
            match r {
                Ok(_) => header_fault(wanted, path@, ct) is None,
                Err(e) => header_fault(wanted, path@, ct) == Some(e@),
            }
        }),
{
    match content_type {
        None => Err(ClientError::MissingHeader("content-type".to_owned())),
        Some(t) => if accepts(wanted, t) {
            Ok(())
        } else {
            let text = match wanted {
                Wanted::Metadata => "text/xml or application/xml".to_owned(),
                _ => path.to_owned(),
            };
            Err(ClientError::InvalidContentType(text, t.to_owned()))
        },
    }
}

/// Whether what was received is taken, and whether with a warning.
pub open spec fn receive_spec(
    policy: ChecksumPolicy,
    url: Seq<char>,
    digest: Option<Digest>,
    content: Seq<u8>,
) -> Result<bool, ClientErrorView> {
    match verdict_spec(policy, matched(digest, content)) {
        Verdict::Accept => Ok(false),
        Verdict::Warn => Ok(true),
        Verdict::Missing => Err(ClientErrorView::ChecksumNotFound(url)),
        Verdict::Mismatch => Err(ClientErrorView::ChecksumFailed(url, digest->Some_0.method)),
    }
}

/// Whether what was received is taken, and whether with a warning.
pub fn receive(policy: ChecksumPolicy, url: &str, digest: &Option<Digest>, content: &Vec<u8>) -> (r: Result<
    bool,
    ClientError,
>)
    ensures
        match r {
            Ok(warn) => receive_spec(policy, url@, *digest, content@) == Ok::<bool, ClientErrorView>(warn),
            Err(e) => receive_spec(policy, url@, *digest, content@) == Err::<bool, ClientErrorView>(e@),
        },
{
    match judge(policy, digest, content) {
        Verdict::Accept => Ok(false),
        Verdict::Warn => Ok(true),
        Verdict::Missing => Err(ClientError::ChecksumNotFound(url.to_owned())),
        Verdict::Mismatch => match digest {
            Some(d) => Err(ClientError::ChecksumFailed(url.to_owned(), d.method)),
            None => Err(ClientError::ChecksumNotFound(url.to_owned())),
        },
    }
}

/// The address of a path in a repository.
pub open spec fn url_spec(base: Seq<char>, path: Seq<char>) -> Seq<char> {
    base + seq!['/'] + path
}

/// The address of a path in a repository.
pub fn asset_url(base: &str, path: &str) -> (r: String)
    ensures
        r@ == url_spec(base@, path@),
{
    let mut s = base.to_owned();
    s.push('/');
    push_text(&mut s, path);
    s
}

/// The address of the checksum of what is at an address.
pub fn checksum_url(url: &str, method: DigestMethod) -> (r: String)
    ensures
        r@ == url@ + seq!['.'] + method_name(method),
{
    let mut s = url.to_owned();
    s.push('.');
    push_text(&mut s, method.name());
    assert(s@ =~= url@ + seq!['.'] + method_name(method));
    s
}

/// The address of the list of the versions of an artifact, or of the builds of a version.
pub open spec fn metadata_url_spec(
    base: Seq<char>,
    group: Seq<char>,
    artifact: Seq<char>,
    version: Option<Seq<char>>,
) -> Seq<char> {
    let dir = base + seq!['/'] + replace_char_spec(group, '.', '/') + seq!['/'] + artifact + seq!['/'];
    match version {
        Some(v) => dir + v + seq!['/'] + MAVEN_METADATA_FILE@,
        None => dir + MAVEN_METADATA_FILE@,
    }
}

/// The address of the list of the versions of an artifact, or of the builds of a version.
pub fn metadata_url(base: &str, gid: &GroupId, aid: &ArtifactId, version: Option<&ArtifactVersion>) -> (r: String)
    ensures
        r@ == metadata_url_spec(
            base@,
            gid@,
            aid@,
            match version {
                Some(v) => Some(v@),
                None => None,
            },
        ),
{
    let mut s = base.to_owned();
    s.push('/');
    push_text(&mut s, gid.to_path().as_str());
    s.push('/');
    push_text(&mut s, aid.as_str());
    s.push('/');
    if let Some(v) = version {
        push_text(&mut s, v.as_str());
        s.push('/');
    }
    push_text(&mut s, MAVEN_METADATA_FILE);
    proof {
        let vt = match version {
            Some(v) => Some(v@),
            None => None,
        };
        assert(s@ =~= metadata_url_spec(base@, gid@, aid@, vt));
    }
    s
}

/// A file that was downloaded.
#[derive(Debug, PartialEq, Eq)]
pub struct Asset {
    pub sha256: Vec<u8>,
}

impl Asset {
    /// What is kept of a file that was downloaded.
    pub fn of(content: &Vec<u8>) -> (r: Asset)
        ensures
            r.sha256@ == sha256_of(content@),
    {
        Asset { sha256: sha256(content) }
    }

    /// Whether the file is the one expected.
    pub fn is(&self, expected: &Vec<u8>) -> (r: bool)
        ensures
            r == (self.sha256@ == expected@),
    {
        same_bytes(&self.sha256, expected)
    }
}

/// Whether bytes have the SHA-256 digest that is expected of them.
pub fn verify_bytes(content: &Vec<u8>, expected: &Vec<u8>) -> (r: bool)
    ensures
        r == (sha256_of(content@) == expected@),
{
    Asset::of(content).is(expected)
}

/// The key under which the progress of a download is shown.
pub fn download_key(coord: &crate::types::ArtifactCoordinates) -> (r: String)
    ensures
        r@ == "dl:"@ + crate::types::coord_text(coord@),
{
    joined("dl:", coord.to_string().as_str())
}

} // verus!
