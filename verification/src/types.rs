//! Names of artifacts: groups, coordinates, types, and patterns over them.
use globset::Glob;
use regex::bytes::RegexBuilder;
use vstd::prelude::*;
use crate::order::{push_text_code, text_code, text_code_parts, Duplicate, Ranked};
use crate::text::{
    contains_char, copy_opt, find_char_at, opt_text, push_text, replace_char,
    replace_char_spec, rfind_char_at, rsplit_once, rsplit_once_spec, same, same_opt, split_once,
    split_once_spec,
};

verus! {

/// The group that an artifact belongs to, such as `com.example`.
#[derive(Debug, PartialEq, Eq, Hash)]
pub struct GroupId(String);

impl View for GroupId {
    type V = Seq<char>;

    closed spec fn view(&self) -> Seq<char> {
        self.0@
    }
}

impl GroupId {
    pub fn new(s: String) -> (r: Self)
        ensures
            r@ == s@,
    {
        GroupId(s)
    }

    /// The directory of the group in a repository.
    pub fn to_path(&self) -> (r: String)
        ensures
            r@ == replace_char_spec(self@, '.', '/'),
    {
        replace_char(self.0.as_str(), '.', '/')
    }

    pub fn as_str(&self) -> (r: &str)
        ensures
            r@ == self@,
    {
        self.0.as_str()
    }

    /// Reads a group: a `/` in it counts as a dot.
    pub fn from_str(s: &str) -> (r: Self)
        ensures
            r@ == replace_char_spec(s@, '/', '.'),
    {
        GroupId(replace_char(s, '/', '.'))
    }
}

impl Clone for GroupId {
    fn clone(&self) -> (r: Self)
        ensures
            r == *self,
    {
        GroupId(self.0.clone())
    }
}

/// The directory of a group reads back as the group, where the group holds no `/`.
pub proof fn group_path_reads_back(g: Seq<char>)
    requires
        !g.contains('/'),
    ensures
        replace_char_spec(replace_char_spec(g, '.', '/'), '/', '.') == g,
{
    assert forall|i: int| 0 <= i < g.len() implies g[i] != '/' by {
        assert(g.contains(g[i]));
    }
    assert(replace_char_spec(replace_char_spec(g, '.', '/'), '/', '.') =~= g);
}

/// The name of an artifact within its group.
#[derive(Debug, PartialEq, Eq, Hash)]
pub struct ArtifactId(String);

impl View for ArtifactId {
    type V = Seq<char>;

    closed spec fn view(&self) -> Seq<char> {
        self.0@
    }
}

impl ArtifactId {
    pub fn new(s: String) -> (r: Self)
        ensures
            r@ == s@,
    {
        ArtifactId(s)
    }

    pub fn as_str(&self) -> (r: &str)
        ensures
            r@ == self@,
    {
        self.0.as_str()
    }

    pub fn from_str(s: &str) -> (r: Self)
        ensures
            r@ == s@,
    {
        ArtifactId(s.to_owned())
    }
}

impl Clone for ArtifactId {
    fn clone(&self) -> (r: Self)
        ensures
            r == *self,
    {
        ArtifactId(self.0.clone())
    }
}

/// The version of an artifact.
#[derive(Debug, PartialEq, Eq, Hash)]
pub struct ArtifactVersion(String);

/// A version that is refused because it holds a colon.
#[derive(Clone, Copy, Debug, PartialEq, Eq, Structural)]
pub struct ColonInVersion;

impl View for ArtifactVersion {
    type V = Seq<char>;

    closed spec fn view(&self) -> Seq<char> {
        self.0@
    }
}

impl ArtifactVersion {
    /// A version holds no colon.
    pub fn new(version: String) -> (r: Result<Self, ColonInVersion>)
        ensures
            match r {
                Ok(v) => v@ == version@ && !version@.contains(':'),
                Err(_) => version@.contains(':'),
            },
    {
        if contains_char(version.as_str(), ':') {
            Err(ColonInVersion)
        } else {
            Ok(ArtifactVersion(version))
        }
    }

    /// A version as a POM or a snapshot list gives it, taken as it stands.
    pub fn verbatim(version: String) -> (r: Self)
        ensures
            r@ == version@,
    {
        ArtifactVersion(version)
    }

    pub fn as_str(&self) -> (r: &str)
        ensures
            r@ == self@,
    {
        self.0.as_str()
    }
}

impl Clone for ArtifactVersion {
    fn clone(&self) -> (r: Self)
        ensures
            r == *self,
    {
        ArtifactVersion(self.0.clone())
    }
}

/// What tells one artifact from another: group, name and version.
#[derive(Debug, PartialEq, Eq, Hash)]
pub struct ArtifactCoordinates(GroupId, ArtifactId, ArtifactVersion);

/// Coordinates as texts.
pub struct CoordView {
    pub group: Seq<char>,
    pub artifact: Seq<char>,
    pub version: Seq<char>,
}

/// Why a text is no coordinates.
#[derive(Clone, Copy, Debug, PartialEq, Eq, Structural)]
pub enum CoordError {
    /// There is no `:` in it.
    MissingColon,
    /// There is only one `:` in it.
    MissingSecondColon,
}

impl View for ArtifactCoordinates {
    type V = CoordView;

    closed spec fn view(&self) -> CoordView {
        CoordView { group: self.0@, artifact: self.1@, version: self.2@ }
    }
}

/// The text `group:artifact:version`.
pub open spec fn coord_text(c: CoordView) -> Seq<char> {
    c.group + seq![':'] + c.artifact + seq![':'] + c.version
}

/// Reads coordinates: the group ends at the first `:`, the version begins after
/// the last one, and a `/` in the group counts as a dot.
pub open spec fn coord_spec(s: Seq<char>) -> Result<CoordView, CoordError> {
    match split_once_spec(s, ':') {
        None => Err(CoordError::MissingColon),
        Some((group, rest)) => match rsplit_once_spec(rest, ':') {
            None => Err(CoordError::MissingSecondColon),
            Some((artifact, version)) => Ok(
                CoordView { group: replace_char_spec(group, '/', '.'), artifact, version },
            ),
        },
    }
}

/// Coordinates whose text reads back as the same coordinates.
pub open spec fn coord_reads_back(c: CoordView) -> bool {
    !c.group.contains(':') && !c.group.contains('/') && !c.version.contains(':')
}

/// The text of coordinates reads back as the coordinates.
pub proof fn coord_round_trip(c: CoordView)
    requires
        coord_reads_back(c),
    ensures
        coord_spec(coord_text(c)) == Ok::<CoordView, CoordError>(c),
{
    let s = coord_text(c);
    let n = c.group.len() as int;
    let m = c.artifact.len() as int;
    assert(s[n] == ':');
    assert forall|k: int| 0 <= k < n implies s[k] != ':' by {
        assert(s[k] == c.group[k]);
        assert(c.group.contains(c.group[k]));
    }
    find_char_at(s, ':', 0, n);
    let rest = s.skip(n + 1);
    assert(rest =~= c.artifact + seq![':'] + c.version);
    assert(rest[m] == ':');
    assert forall|k: int| m < k < rest.len() implies rest[k] != ':' by {
        assert(rest[k] == c.version[k - m - 1]);
        assert(c.version.contains(c.version[k - m - 1]));
    }
    rfind_char_at(rest, ':', rest.len() as int, m);
    assert(s.take(n) =~= c.group);
    assert(rest.take(m) =~= c.artifact);
    assert(rest.skip(m + 1) =~= c.version);
    assert(replace_char_spec(c.group, '/', '.') =~= c.group) by {
        assert forall|k: int| 0 <= k < n implies c.group[k] != '/' by {
            assert(c.group.contains(c.group[k]));
        }
    }
}

/// What is read as coordinates is written and read back as the same coordinates.
pub proof fn coord_read_is_stable(s: Seq<char>)
    requires
        coord_spec(s) is Ok,
    ensures
        coord_spec(coord_text(coord_spec(s)->Ok_0)) == coord_spec(s),
{
    let c = coord_spec(s)->Ok_0;
    let i = crate::text::find_char(s, ':', 0);
    crate::text::find_char_props(s, ':', 0);
    let rest = s.skip(i + 1);
    let j = crate::text::rfind_char(rest, ':', rest.len() as int);
    crate::text::rfind_char_props(rest, ':', rest.len() as int);
    assert forall|k: int| 0 <= k < c.group.len() implies c.group[k] != ':' && c.group[k] != '/' by {
        assert(s.take(i)[k] == s[k]);
    }
    assert forall|k: int| 0 <= k < c.version.len() implies c.version[k] != ':' by {
        assert(c.version[k] == rest[j + 1 + k]);
    }
    coord_round_trip(c);
}

impl ArtifactCoordinates {
    pub fn new(group_id: GroupId, artifact_id: ArtifactId, version: ArtifactVersion) -> (r: Self)
        ensures
            r@ == (CoordView { group: group_id@, artifact: artifact_id@, version: version@ }),
    {
        ArtifactCoordinates(group_id, artifact_id, version)
    }

    pub fn group_id(&self) -> (r: &GroupId)
        ensures
            r@ == self@.group,
    {
        &self.0
    }

    pub fn artifact_id(&self) -> (r: &ArtifactId)
        ensures
            r@ == self@.artifact,
    {
        &self.1
    }

    pub fn version(&self) -> (r: &ArtifactVersion)
        ensures
            r@ == self@.version,
    {
        &self.2
    }

    /// What two versions of one artifact have in common.
    pub fn key(&self, artifact_type: &ArtifactType, classifier: &Option<String>) -> (r: ArtifactKey)
        ensures
            r@ == (KeyView {
                group: self@.group,
                artifact: self@.artifact,
                artifact_type: artifact_type@,
                classifier: opt_text(*classifier),
            }),
    {
        ArtifactKey {
            group_id: self.0.clone(),
            artifact_id: self.1.clone(),
            artifact_type: artifact_type.clone(),
            classifier: copy_opt(classifier),
        }
    }

    pub fn from_str(s: &str) -> (r: Result<Self, CoordError>)
        ensures
            match r {
                Ok(c) => coord_spec(s@) == Ok::<CoordView, CoordError>(c@),
                Err(e) => coord_spec(s@) == Err::<CoordView, CoordError>(e),
            },
    {
        match split_once(s, ':') {
            None => Err(CoordError::MissingColon),
            Some((group, rest)) => match rsplit_once(rest.as_str(), ':') {
                None => Err(CoordError::MissingSecondColon),
                Some((artifact, version)) => Ok(
                    ArtifactCoordinates(
                        GroupId::from_str(group.as_str()),
                        ArtifactId(artifact),
                        ArtifactVersion(version),
                    ),
                ),
            },
        }
    }

    /// `group:artifact:version`.
    pub fn to_string(&self) -> (r: String)
        ensures
            r@ == coord_text(self@),
    {
        let mut s = self.0.0.clone();
        s.push(':');
        push_text(&mut s, self.1.0.as_str());
        s.push(':');
        push_text(&mut s, self.2.0.as_str());
        assert(s@ =~= coord_text(self@));
        s
    }

    /// Whether two coordinates are the same.
    pub fn same(&self, other: &ArtifactCoordinates) -> (r: bool)
        ensures
            r == (self@ == other@),
    {
        same(self.0.0.as_str(), other.0.0.as_str()) && same(self.1.0.as_str(), other.1.0.as_str())
            && same(self.2.0.as_str(), other.2.0.as_str())
    }
}

impl Clone for ArtifactCoordinates {
    fn clone(&self) -> (r: Self)
        ensures
            r == *self,
    {
        ArtifactCoordinates(self.0.clone(), self.1.clone(), self.2.clone())
    }
}

impl Duplicate for ArtifactCoordinates {
    fn duplicate(&self) -> (r: Self) {
        self.clone()
    }
}

/// Coordinates are ordered by group, then by name, then by version.
impl Ranked for ArtifactCoordinates {
    open spec fn code(v: CoordView) -> Seq<u64> {
        text_code(v.group) + text_code(v.artifact) + text_code(v.version)
    }

    fn sort_code(&self) -> (r: Vec<u64>) {
        let mut out: Vec<u64> = Vec::new();
        push_text_code(&mut out, self.0.0.as_str());
        push_text_code(&mut out, self.1.0.as_str());
        push_text_code(&mut out, self.2.0.as_str());
        assert(out@ =~= Self::code(self@));
        out
    }
}

/// Different coordinates have different sort codes.
pub proof fn coord_code_tells(a: CoordView, b: CoordView)
    ensures
        ArtifactCoordinates::code(a) == ArtifactCoordinates::code(b) <==> a == b,
{
    if ArtifactCoordinates::code(a) == ArtifactCoordinates::code(b) {
        let x = text_code(a.artifact) + text_code(a.version);
        let y = text_code(b.artifact) + text_code(b.version);
        assert(text_code(a.group) + x =~= ArtifactCoordinates::code(a));
        assert(text_code(b.group) + y =~= ArtifactCoordinates::code(b));
        text_code_parts(a.group, b.group, x, y);
        text_code_parts(a.artifact, b.artifact, text_code(a.version), text_code(b.version));
        let e = Seq::<u64>::empty();
        assert(text_code(a.version) + e =~= text_code(a.version));
        assert(text_code(b.version) + e =~= text_code(b.version));
        text_code_parts(a.version, b.version, e, e);
    }
}

/// The type of an artifact, such as `jar` or `test-jar`.
#[derive(Debug, PartialEq, Eq, Hash)]
pub struct ArtifactType(String);

impl View for ArtifactType {
    type V = Seq<char>;

    closed spec fn view(&self) -> Seq<char> {
        self.0@
    }
}

/// Whether artifacts of the type are packed as `jar` files under another name.
pub open spec fn packed_as_jar(t: Seq<char>) -> bool {
    t == "test-jar"@ || t == "maven-plugin"@ || t == "ejb"@ || t == "ejb-client"@
        || t == "java-source"@ || t == "javadoc"@
}

/// The file extension of artifacts of the type.
pub open spec fn extension_spec(t: Seq<char>) -> Seq<char> {
    if packed_as_jar(t) {
        "jar"@
    } else {
        t
    }
}

/// The classifier that the type brings with it.
pub open spec fn implied_spec(t: Seq<char>) -> Option<Seq<char>> {
    if t == "test-jar"@ {
        Some("tests"@)
    } else if t == "ejb-client"@ {
        Some("client"@)
    } else if t == "java-source"@ {
        Some("sources"@)
    } else if t == "javadoc"@ {
        Some("javadoc"@)
    } else {
        None
    }
}

impl ArtifactType {
    pub fn new(s: String) -> (r: Self)
        ensures
            r@ == s@,
    {
        ArtifactType(s)
    }

    /// The file extension of artifacts of the type.
    pub fn extension(&self) -> (r: &str)
        ensures
            r@ == extension_spec(self@),
    {
        let t = self.0.as_str();
        if same(t, "test-jar") || same(t, "maven-plugin") || same(t, "ejb") || same(t, "ejb-client")
            || same(t, "java-source") || same(t, "javadoc") {
            "jar"
        } else {
            t
        }
    }

    /// The classifier that the type brings with it.
    pub fn implied_classifier(&self) -> (r: Option<&str>)
        ensures
            match r {
                Some(c) => implied_spec(self@) == Some(c@),
                None => implied_spec(self@) is None,
            },
    {
        let t = self.0.as_str();
        if same(t, "test-jar") {
            Some("tests")
        } else if same(t, "ejb-client") {
            Some("client")
        } else if same(t, "java-source") {
            Some("sources")
        } else if same(t, "javadoc") {
            Some("javadoc")
        } else {
            None
        }
    }

    pub fn as_str(&self) -> (r: &str)
        ensures
            r@ == self@,
    {
        self.0.as_str()
    }
}

impl Default for ArtifactType {
    fn default() -> (r: Self)
        ensures
            r@ == "jar"@,
    {
        ArtifactType("jar".to_owned())
    }
}

impl Clone for ArtifactType {
    fn clone(&self) -> (r: Self)
        ensures
            r == *self,
    {
        ArtifactType(self.0.clone())
    }
}

/// What two versions of one artifact have in common.
#[derive(Debug, PartialEq, Eq, Hash)]
pub struct ArtifactKey {
    group_id: GroupId,
    artifact_id: ArtifactId,
    artifact_type: ArtifactType,
    classifier: Option<String>,
}

/// A key as texts.
pub struct KeyView {
    pub group: Seq<char>,
    pub artifact: Seq<char>,
    pub artifact_type: Seq<char>,
    pub classifier: Option<Seq<char>>,
}

impl View for ArtifactKey {
    type V = KeyView;

    closed spec fn view(&self) -> KeyView {
        KeyView {
            group: self.group_id@,
            artifact: self.artifact_id@,
            artifact_type: self.artifact_type@,
            classifier: opt_text(self.classifier),
        }
    }
}

/// `group:artifact:type`, and `:classifier` where there is one.
pub open spec fn key_text(k: KeyView) -> Seq<char> {
    let s = k.group + seq![':'] + k.artifact + seq![':'] + k.artifact_type;
    match k.classifier {
        Some(c) => s + seq![':'] + c,
        None => s,
    }
}

impl ArtifactKey {
    pub fn to_string(&self) -> (r: String)
        ensures
            r@ == key_text(self@),
    {
        let mut s = self.group_id.0.clone();
        s.push(':');
        push_text(&mut s, self.artifact_id.0.as_str());
        s.push(':');
        push_text(&mut s, self.artifact_type.0.as_str());
        if let Some(c) = &self.classifier {
            s.push(':');
            push_text(&mut s, c.as_str());
        }
        assert(s@ =~= key_text(self@));
        s
    }

    /// Whether two keys are the same.
    pub fn same(&self, other: &ArtifactKey) -> (r: bool)
        ensures
            r == (self@ == other@),
    {
        same(self.group_id.0.as_str(), other.group_id.0.as_str())
            && same(self.artifact_id.0.as_str(), other.artifact_id.0.as_str())
            && same(self.artifact_type.0.as_str(), other.artifact_type.0.as_str())
            && same_opt(&self.classifier, &other.classifier)
    }
}

impl Clone for ArtifactKey {
    fn clone(&self) -> (r: Self)
        ensures
            r == *self,
    {
        ArtifactKey {
            group_id: self.group_id.clone(),
            artifact_id: self.artifact_id.clone(),
            artifact_type: self.artifact_type.clone(),
            classifier: copy_opt(&self.classifier),
        }
    }
}

/// What globset makes of a glob and a text: nothing where it refuses the glob,
/// else whether the glob matches the whole text.
pub uninterp spec fn glob_match(pattern: Seq<char>, text: Seq<char>) -> Option<bool>;

/// Whether globset accepts a glob.
pub open spec fn glob_valid(pattern: Seq<char>) -> bool {
    glob_match(pattern, Seq::empty()) is Some
}

/// A glob that means the same on every system. A backslash separates paths on some systems and
/// escapes on others.
pub open spec fn portable(s: Seq<char>) -> bool {
    !s.contains('\\')
}

/// A glob without any character that stands for more than itself.
pub open spec fn plain_glob(s: Seq<char>) -> bool {
    forall|i: int|
        0 <= i < s.len() ==> {
            let c = #[trigger] s[i];
            c != '?' && c != '*' && c != '[' && c != '{' && c != '}' && c != '\\'
        }
}

/// Calls `globset::Glob::new`, and matches the regular expression that `globset::Glob::regex`
/// gives with `regex::bytes::Regex::is_match`, the dot standing for line breaks, too. Claims
/// that the answer depends on the glob and the text alone, and that whether there is one
/// depends on the glob alone, where the glob holds no backslash; that a glob without special
/// characters matches itself and nothing else, where it is accepted; and that `*` is accepted
/// and matches every text. What comes of a backslash in a glob is left unsaid: it depends on
/// the system's path separator.
#[verifier::external_body]
fn try_glob(pattern: &str, text: &str) -> (r: Option<bool>)
    ensures
        portable(pattern@) ==> r == glob_match(pattern@, text@),
        portable(pattern@) ==> (r is Some) == glob_valid(pattern@),
        plain_glob(pattern@) && r is Some ==> r == Some(pattern@ == text@),
        pattern@ == "*"@ ==> r == Some(true),
{
    let glob = Glob::new(pattern).ok()?;
    let regex = RegexBuilder::new(glob.regex()).dot_matches_new_line(true).build().ok()?;
    Some(regex.is_match(text.as_bytes()))
}

/// A pattern that matches coordinates by group and name.
#[derive(Debug, PartialEq, Eq)]
pub struct ExclusionPattern {
    group: String,
    artifact: String,
}

/// The two globs of a pattern.
pub struct PatternView {
    pub group: Seq<char>,
    pub artifact: Seq<char>,
}

/// Why a text is no pattern.
#[derive(Clone, Copy, Debug, PartialEq, Eq, Structural)]
pub enum PatternError {
    /// There is no `:` in it.
    MissingColon,
    /// What stands before the `:` is no glob.
    InvalidGroup,
    /// What stands after the `:` is no glob.
    InvalidArtifact,
}

impl View for ExclusionPattern {
    type V = PatternView;

    closed spec fn view(&self) -> PatternView {
        PatternView { group: self.group@, artifact: self.artifact@ }
    }
}

/// The text `group:artifact`.
pub open spec fn pattern_text(p: PatternView) -> Seq<char> {
    p.group + seq![':'] + p.artifact
}

/// What every pattern keeps to: the group has neither `:` nor `/`.
pub open spec fn pattern_wf(p: PatternView) -> bool {
    !p.group.contains(':') && !p.group.contains('/')
}

/// The two globs of the text of a pattern. A `/` in the group counts as a dot.
pub open spec fn pattern_parts(s: Seq<char>) -> Option<PatternView> {
    match split_once_spec(s, ':') {
        None => None,
        Some((group, artifact)) => Some(PatternView { group: replace_char_spec(group, '/', '.'), artifact }),
    }
}

/// Reads a pattern, given which of its two globs are accepted.
pub open spec fn pattern_given(s: Seq<char>, group_ok: bool, artifact_ok: bool) -> Result<PatternView, PatternError> {
    match pattern_parts(s) {
        None => Err(PatternError::MissingColon),
        Some(p) => if !group_ok {
            Err(PatternError::InvalidGroup)
        } else if !artifact_ok {
            Err(PatternError::InvalidArtifact)
        } else {
            Ok(p)
        },
    }
}

/// Reads a pattern.
pub open spec fn pattern_spec(s: Seq<char>) -> Result<PatternView, PatternError> {
    match pattern_parts(s) {
        None => Err(PatternError::MissingColon),
        Some(p) => pattern_given(s, glob_valid(p.group), glob_valid(p.artifact)),
    }
}

/// Which of the two globs of a pattern are accepted.
pub type GlobVerdict = (bool, bool);

/// Which of the two globs in a text are accepted, where the text means the same on every
/// system.
pub open spec fn text_verdict(s: Seq<char>) -> GlobVerdict {
    match pattern_parts(s) {
        Some(p) => (glob_valid(p.group), glob_valid(p.artifact)),
        None => (true, true),
    }
}

/// Whether the globs in a text mean the same on every system.
pub open spec fn portable_text(s: Seq<char>) -> bool {
    match pattern_parts(s) {
        Some(p) => portable_pattern(p),
        None => true,
    }
}

/// Whether a verdict on the globs in a text is one that some system comes to: where they mean
/// the same on every system, there is only one.
pub open spec fn honest_text(s: Seq<char>, v: GlobVerdict) -> bool {
    portable_text(s) ==> v == text_verdict(s)
}

/// What a result is, its texts as characters.
pub open spec fn pattern_result(r: Result<ExclusionPattern, PatternError>) -> Result<PatternView, PatternError> {
    match r {
        Ok(p) => Ok(p@),
        Err(e) => Err(e),
    }
}

/// Whether coordinates match a pattern: the group the one glob, the name the other.
pub open spec fn pattern_matches(p: PatternView, c: CoordView) -> bool {
    glob_match(p.group, c.group) == Some(true) && glob_match(p.artifact, c.artifact) == Some(true)
}

/// A pattern that means the same on every system.
pub open spec fn portable_pattern(p: PatternView) -> bool {
    portable(p.group) && portable(p.artifact)
}

/// The version plays no part in whether coordinates match.
pub proof fn version_plays_no_part(p: PatternView, a: CoordView, b: CoordView)
    requires
        a.group == b.group,
        a.artifact == b.artifact,
    ensures
        pattern_matches(p, a) == pattern_matches(p, b),
{
}

impl ExclusionPattern {
    #[verifier::type_invariant]
    pub open spec fn group_is_plain(self) -> bool {
        pattern_wf(self@)
    }

    pub fn same(&self, other: &ExclusionPattern) -> (r: bool)
        ensures
            r == (self@ == other@),
    {
        same(self.group.as_str(), other.group.as_str()) && same(self.artifact.as_str(), other.artifact.as_str())
    }

    /// Whether the coordinates match. A pattern without special characters matches the group
    /// and the name that it spells and no others, and `*:*` matches everything.
    pub fn matches(&self, coord: &ArtifactCoordinates) -> (r: bool)
        ensures
            portable_pattern(self@) ==> r == pattern_matches(self@, coord@),
            plain_glob(self@.group) && glob_valid(self@.group) && r ==> coord@.group == self@.group,
            plain_glob(self@.artifact) && glob_valid(self@.artifact) && r ==> coord@.artifact == self@.artifact,
            plain_glob(self@.group) && glob_valid(self@.group) && plain_glob(self@.artifact) && glob_valid(
                self@.artifact,
            ) ==> r == (coord@.group == self@.group && coord@.artifact == self@.artifact),
            self@.group == "*"@ && self@.artifact == "*"@ ==> r,
    {
        proof {
            plain_is_portable(self@.group);
            plain_is_portable(self@.artifact);
        }
        both_match(
            try_glob(self.group.as_str(), coord.group_id().as_str()),
            try_glob(self.artifact.as_str(), coord.artifact_id().as_str()),
        )
    }

    /// Reads a pattern, given which of its two globs are accepted.
    pub fn given(s: &str, group_ok: bool, artifact_ok: bool) -> (r: Result<Self, PatternError>)
        ensures
            match r {
                Ok(p) => pattern_given(s@, group_ok, artifact_ok) == Ok::<PatternView, PatternError>(p@)
                    && pattern_wf(p@),
                Err(e) => pattern_given(s@, group_ok, artifact_ok) == Err::<PatternView, PatternError>(e),
            },
    {
        match split_once(s, ':') {
            None => Err(PatternError::MissingColon),
            Some((before, artifact)) => {
                let group = replace_char(before.as_str(), '/', '.');
                proof {
                    let i = crate::text::find_char(s@, ':', 0);
                    crate::text::find_char_props(s@, ':', 0);
                    assert forall|k: int| 0 <= k < group@.len() implies group@[k] != ':' && group@[k] != '/' by {
                        assert(s@.take(i)[k] == s@[k]);
                    }
                }
                if !group_ok {
                    Err(PatternError::InvalidGroup)
                } else if !artifact_ok {
                    Err(PatternError::InvalidArtifact)
                } else {
                    Ok(ExclusionPattern { group, artifact })
                }
            },
        }
    }

    /// Reads a pattern, and keeps track of which of its globs were accepted.
    pub(crate) fn read(s: &str) -> (r: (Result<Self, PatternError>, Ghost<GlobVerdict>))
        ensures
            honest_text(s@, r.1@),
            pattern_result(r.0) == pattern_given(s@, r.1@.0, r.1@.1),
    {
        match split_once(s, ':') {
            None => (Err(PatternError::MissingColon), Ghost((true, true))),
            Some((before, artifact)) => {
                let group = replace_char(before.as_str(), '/', '.');
                proof {
                    reveal_strlit("");
                    assert(""@ =~= Seq::<char>::empty());
                }
                let group_ok = try_glob(group.as_str(), "").is_some();
                let artifact_ok = try_glob(artifact.as_str(), "").is_some();
                (Self::given(s, group_ok, artifact_ok), Ghost((group_ok, artifact_ok)))
            },
        }
    }

    /// Reads a pattern: a glob for the group, a colon, and a glob for the name.
    pub fn from_str(s: &str) -> (r: Result<Self, PatternError>)
        ensures
            exists|v: GlobVerdict| #[trigger] honest_text(s@, v) && pattern_result(r) == pattern_given(s@, v.0, v.1),
            portable_text(s@) ==> pattern_result(r) == pattern_spec(s@),
    {
        let (r, v) = Self::read(s);
        assert(honest_text(s@, v@));
        r
    }

    /// `group:artifact`.
    pub fn to_string(&self) -> (r: String)
        ensures
            r@ == pattern_text(self@),
    {
        let mut s = self.group.clone();
        s.push(':');
        push_text(&mut s, self.artifact.as_str());
        assert(s@ =~= pattern_text(self@));
        s
    }
}

proof fn plain_is_portable(s: Seq<char>)
    ensures
        plain_glob(s) ==> portable(s),
{
    if plain_glob(s) && s.contains('\\') {
        let i = choose|i: int| 0 <= i < s.len() && s[i] == '\\';
        assert(s[i] != '\\');
    }
}

/// Whether both globs were accepted and matched.
pub fn both_match(group: Option<bool>, artifact: Option<bool>) -> (r: bool)
    ensures
        r == (group == Some(true) && artifact == Some(true)),
{
    match (group, artifact) {
        (Some(g), Some(a)) => g && a,
        _ => false,
    }
}

/// The text of a pattern splits into its two globs.
pub proof fn pattern_round_trip(p: PatternView)
    requires
        pattern_wf(p),
    ensures
        pattern_parts(pattern_text(p)) == Some(p),
{
    let s = pattern_text(p);
    let n = p.group.len() as int;
    assert(s[n] == ':');
    assert forall|k: int| 0 <= k < n implies s[k] != ':' && p.group[k] != '/' by {
        assert(s[k] == p.group[k]);
        assert(p.group.contains(p.group[k]));
    }
    find_char_at(s, ':', 0, n);
    assert(s.take(n) =~= p.group);
    assert(s.skip(n + 1) =~= p.artifact);
    assert(replace_char_spec(p.group, '/', '.') =~= p.group);
}

impl Clone for ExclusionPattern {
    fn clone(&self) -> (r: Self)
        ensures
            r == *self,
    {
        proof {
            use_type_invariant(self);
        }
        ExclusionPattern { group: self.group.clone(), artifact: self.artifact.clone() }
    }
}

impl Duplicate for ExclusionPattern {
    fn duplicate(&self) -> (r: Self) {
        self.clone()
    }
}

/// Patterns are ordered by their text.
impl Ranked for ExclusionPattern {
    open spec fn code(v: PatternView) -> Seq<u64> {
        text_code(pattern_text(v))
    }

    fn sort_code(&self) -> (r: Vec<u64>) {
        self.to_string().sort_code()
    }
}

} // verus!
