//! The lock file, `borneo.lock`: what was resolved, and where it came from.
use vstd::prelude::*;
use crate::document::{
    args_of, children_view, find_node, first_arg, kdl_nodes, kdl_parse, node_arg, prop_of, text_of,
    text_value, Document, Entry, EntryView, Node, NodeView, Value, ValueView,
};
use crate::manifest::{
    child_verdicts, children_or_none, honest_children, honest_node, honest_nodes, honest_rest,
    honest_rest_of_children, node_verdict, node_verdicts, pom_scope_name, pom_scope_of,
    pom_scope_round_trip, portable_child_verdicts, portable_children, portable_verdicts, scope_name,
    scope_of, scope_rank, scope_round_trip, scope_words, text_or, PomScope, Scope,
};
use crate::order::{
    assign, bytes_code, opt_text_code, push_bytes_code, push_opt_text_code, push_text_code, put,
    sorted, text_code, views, Duplicate, OrdMap, OrdSet, Pair, Ranked,
};
use crate::paths::{path_code, push_path_code};
use crate::text::{
    decimal, decimal_spec, join, join_spec, number_of_decimal, number_spec, opt_text, parse_number,
    same, split_all, split_of_join, split_spec, texts,
};
use crate::types::{
    coord_reads_back, coord_round_trip, coord_spec, coord_text, extension_spec, glob_valid,
    pattern_given, pattern_round_trip, pattern_text, pattern_wf, portable_pattern, ArtifactCoordinates,
    ArtifactType, CoordError, CoordView, ExclusionPattern, GlobVerdict, PatternError, PatternView,
};

verus! {

/// The value of a hexadecimal digit, in either case.
pub open spec fn hex_value(c: char) -> Option<u8> {
    if '0' <= c <= '9' {
        Some((c as u32 - '0' as u32) as u8)
    } else if 'a' <= c <= 'f' {
        Some((c as u32 - 'a' as u32 + 10) as u8)
    } else if 'A' <= c <= 'F' {
        Some((c as u32 - 'A' as u32 + 10) as u8)
    } else {
        None
    }
}

/// The hexadecimal digit of a value below sixteen, in lower case.
pub open spec fn hex_digit(n: u8) -> char {
    if n < 10 {
        ('0' as u32 + n as u32) as char
    } else {
        ('a' as u32 + (n - 10)) as char
    }
}

/// Bytes in hexadecimal: two lower-case digits each.
pub open spec fn hex_spec(b: Seq<u8>) -> Seq<char>
    decreases b.len(),
{
    if b.len() == 0 {
        Seq::empty()
    } else {
        hex_spec(b.drop_last()) + seq![hex_digit(b.last() / 16), hex_digit(b.last() % 16)]
    }
}

/// The bytes that a text writes in hexadecimal: two digits for each byte.
pub open spec fn unhex_spec(s: Seq<char>) -> Option<Seq<u8>>
    decreases s.len(),
{
    if s.len() == 0 {
        Some(Seq::empty())
    } else if s.len() == 1 {
        None
    } else {
        match (unhex_spec(s.take(s.len() - 2)), hex_value(s[s.len() - 2]), hex_value(s[s.len() - 1])) {
            (Some(b), Some(hi), Some(lo)) => Some(b.push((hi * 16 + lo) as u8)),
            _ => None,
        }
    }
}

/// Bytes in hexadecimal read back as the bytes.
pub proof fn hex_round_trip(b: Seq<u8>)
    ensures
        unhex_spec(hex_spec(b)) == Some(b),
    decreases b.len(),
{
    if b.len() > 0 {
        hex_round_trip(b.drop_last());
        let s = hex_spec(b);
        let hi = b.last() / 16;
        let lo = b.last() % 16;
        assert(s.take(s.len() - 2) =~= hex_spec(b.drop_last()));
        assert(hex_value(hex_digit(hi)) == Some(hi));
        assert(hex_value(hex_digit(lo)) == Some(lo));
        assert(s[s.len() - 2] == hex_digit(hi));
        assert(s[s.len() - 1] == hex_digit(lo));
        assert(b.drop_last().push(b.last()) =~= b);
    } else {
        assert(b =~= Seq::empty());
    }
}

/// What the hex crate says of a text that is no hexadecimal.
#[verifier::external_type_specification]
#[verifier::external_body]
pub struct ExFromHexError(hex::FromHexError);

/// Calls `hex::encode`. Claims that it writes two lower-case digits for each byte.
#[verifier::external_body]
pub(crate) fn encode_hex(bytes: &Vec<u8>) -> (r: String)
    ensures
        r@ == hex_spec(bytes@),
{
    hex::encode(bytes)
}

/// Calls `hex::decode`. Claims that it reads two digits for each byte, in either
/// case, and refuses everything else.
#[verifier::external_body]
pub(crate) fn decode_hex(s: &str) -> (r: Result<Vec<u8>, hex::FromHexError>)
    ensures
        match r {
            Ok(b) => unhex_spec(s@) == Some(b@),
            Err(_) => unhex_spec(s@) is None,
        },
{
    hex::decode(s)
}

/// The digest of a file.
#[derive(Debug, PartialEq, Eq)]
pub struct Checksum(Vec<u8>);

/// A text that is no checksum.
#[derive(Clone, Copy, Debug, PartialEq, Eq, Structural)]
pub struct InvalidHex;

impl View for Checksum {
    type V = Seq<u8>;

    closed spec fn view(&self) -> Seq<u8> {
        self.0@
    }
}

impl Checksum {
    pub fn provided(digest: Vec<u8>) -> (r: Self)
        ensures
            r@ == digest@,
    {
        Checksum(digest)
    }

    pub fn digest(&self) -> (r: &Vec<u8>)
        ensures
            r@ == self@,
    {
        &self.0
    }

    pub fn to_string(&self) -> (r: String)
        ensures
            r@ == hex_spec(self@),
    {
        encode_hex(&self.0)
    }

    pub fn from_str(s: &str) -> (r: Result<Self, InvalidHex>)
        ensures
            match r {
                Ok(c) => unhex_spec(s@) == Some(c@),
                Err(_) => unhex_spec(s@) is None,
            },
    {
        match decode_hex(s) {
            Ok(b) => Ok(Checksum(b)),
            Err(_) => Err(InvalidHex),
        }
    }
}

impl Clone for Checksum {
    fn clone(&self) -> (r: Self)
        ensures
            r@ == self@,
    {
        Checksum(self.0.clone())
    }
}

/// A file of the project that stands in for an artifact.
#[derive(Debug, PartialEq, Eq)]
pub struct LocalArtifact {
    pub path: String,
    pub checksum: Checksum,
}

/// A local artifact, its path as characters.
pub struct LocalView {
    pub path: Seq<char>,
    pub checksum: Seq<u8>,
}

impl View for LocalArtifact {
    type V = LocalView;

    open spec fn view(&self) -> LocalView {
        LocalView { path: self.path@, checksum: self.checksum@ }
    }
}

/// Local artifacts are ordered by path, then by checksum.
impl Ranked for LocalArtifact {
    open spec fn code(v: LocalView) -> Seq<u64> {
        text_code(v.path) + bytes_code(v.checksum)
    }

    fn sort_code(&self) -> (r: Vec<u64>) {
        let mut out: Vec<u64> = Vec::new();
        push_text_code(&mut out, self.path.as_str());
        push_bytes_code(&mut out, self.checksum.digest());
        assert(out@ =~= <LocalArtifact as Ranked>::code(self@));
        out
    }
}

impl Duplicate for LocalArtifact {
    fn duplicate(&self) -> (r: Self) {
        LocalArtifact { path: self.path.clone(), checksum: self.checksum.clone() }
    }
}

/// An artifact that was resolved.
#[derive(Debug, PartialEq, Eq)]
pub struct LockArtifact {
    pub coord: ArtifactCoordinates,
    pub classifier: Option<String>,
    pub artifact_type: ArtifactType,
    /// The repository that it came from.
    pub source: String,
    /// Where it is in the repository.
    pub artifact_path: String,
    pub checksum: Checksum,
    pub effective_scope: Scope,
    /// How far it is from the manifest.
    pub depth: usize,
    /// The place of each step on the way to it.
    pub position: Vec<usize>,
    pub dependencies: OrdMap<ArtifactCoordinates, PomScope>,
    pub exclusions: OrdSet<ExclusionPattern>,
}

/// A resolved artifact, its texts as characters.
pub struct LockArtifactView {
    pub coord: CoordView,
    pub classifier: Option<Seq<char>>,
    pub artifact_type: Seq<char>,
    pub source: Seq<char>,
    pub artifact_path: Seq<char>,
    pub checksum: Seq<u8>,
    pub effective_scope: Scope,
    pub depth: usize,
    pub position: Seq<usize>,
    pub dependencies: Seq<(CoordView, PomScope)>,
    pub exclusions: Seq<PatternView>,
}

impl View for LockArtifact {
    type V = LockArtifactView;

    open spec fn view(&self) -> LockArtifactView {
        LockArtifactView {
            coord: self.coord@,
            classifier: opt_text(self.classifier),
            artifact_type: self.artifact_type@,
            source: self.source@,
            artifact_path: self.artifact_path@,
            checksum: self.checksum@,
            effective_scope: self.effective_scope,
            depth: self.depth,
            position: self.position@,
            dependencies: self.dependencies@,
            exclusions: self.exclusions@,
        }
    }
}

/// The sort code of numbers: they are compared one by one.
pub open spec fn numbers_code(s: Seq<usize>) -> Seq<u64>
    decreases s.len(),
{
    if s.len() == 0 {
        Seq::empty()
    } else {
        numbers_code(s.drop_last()) + seq![1u64, s.last() as u64]
    }
}

/// The sort code of dependencies: they are compared one by one.
pub open spec fn deps_code(s: Seq<(CoordView, PomScope)>) -> Seq<u64>
    decreases s.len(),
{
    if s.len() == 0 {
        Seq::empty()
    } else {
        deps_code(s.drop_last()) + seq![1u64] + ArtifactCoordinates::code(s.last().0) + seq![
            if s.last().1 == PomScope::Compile { 0u64 } else { 1u64 },
        ]
    }
}

/// The sort code of patterns: they are compared one by one.
pub open spec fn patterns_code(s: Seq<PatternView>) -> Seq<u64>
    decreases s.len(),
{
    if s.len() == 0 {
        Seq::empty()
    } else {
        patterns_code(s.drop_last()) + seq![1u64] + ExclusionPattern::code(s.last())
    }
}

fn push_numbers_code(out: &mut Vec<u64>, s: &Vec<usize>)
    ensures
        final(out)@ == old(out)@ + numbers_code(s@),
{
    let mut i: usize = 0;
    assert(s@.take(0) =~= Seq::empty());
    assert(out@ =~= old(out)@ + numbers_code(s@.take(0)));
    while i < s.len()
        invariant
            i <= s@.len(),
            out@ == old(out)@ + numbers_code(s@.take(i as int)),
        decreases s@.len() - i,
    {
        assert(s@.take(i + 1).drop_last() =~= s@.take(i as int));
        out.push(1);
        out.push(s[i] as u64);
        i = i + 1;
        assert(out@ =~= old(out)@ + numbers_code(s@.take(i as int)));
    }
    assert(s@.take(i as int) =~= s@);
}

/// Appends numbers to others.
fn push_all(out: &mut Vec<u64>, more: &Vec<u64>)
    ensures
        final(out)@ == old(out)@ + more@,
{
    let mut i: usize = 0;
    assert(out@ =~= old(out)@ + more@.take(0));
    while i < more.len()
        invariant
            i <= more@.len(),
            out@ == old(out)@ + more@.take(i as int),
        decreases more@.len() - i,
    {
        out.push(more[i]);
        i = i + 1;
        assert(out@ =~= old(out)@ + more@.take(i as int));
    }
    assert(more@.take(i as int) =~= more@);
}

fn push_deps_code(out: &mut Vec<u64>, m: &OrdMap<ArtifactCoordinates, PomScope>)
    ensures
        final(out)@ == old(out)@ + deps_code(m@),
{
    let ghost s = m@;
    let mut i: usize = 0;
    assert(s.take(0) =~= Seq::empty());
    assert(out@ =~= old(out)@ + deps_code(s.take(0)));
    while i < m.len()
        invariant
            i <= s.len(),
            s == m@,
            out@ == old(out)@ + deps_code(s.take(i as int)),
        decreases s.len() - i,
    {
        assert(s.take(i + 1).drop_last() =~= s.take(i as int));
        let (coord, scope) = m.at(i);
        out.push(1);
        push_all(out, &coord.sort_code());
        out.push(match scope {
            PomScope::Compile => 0,
            PomScope::Runtime => 1,
        });
        i = i + 1;
        assert(out@ =~= old(out)@ + deps_code(s.take(i as int)));
    }
    assert(s.take(i as int) =~= s);
}

fn push_patterns_code(out: &mut Vec<u64>, m: &OrdSet<ExclusionPattern>)
    ensures
        final(out)@ == old(out)@ + patterns_code(m@),
{
    let ghost s = m@;
    let mut i: usize = 0;
    assert(s.take(0) =~= Seq::empty());
    assert(out@ =~= old(out)@ + patterns_code(s.take(0)));
    while i < m.len()
        invariant
            i <= s.len(),
            s == m@,
            out@ == old(out)@ + patterns_code(s.take(i as int)),
        decreases s.len() - i,
    {
        assert(s.take(i + 1).drop_last() =~= s.take(i as int));
        out.push(1);
        push_all(out, &m.at(i).sort_code());
        i = i + 1;
        assert(out@ =~= old(out)@ + patterns_code(s.take(i as int)));
    }
    assert(s.take(i as int) =~= s);
}

/// Resolved artifacts are ordered by their fields, from the coordinates on.
impl Ranked for LockArtifact {
    open spec fn code(v: LockArtifactView) -> Seq<u64> {
        ArtifactCoordinates::code(v.coord) + opt_text_code(v.classifier) + text_code(v.artifact_type)
            + text_code(v.source) + path_code(v.artifact_path) + bytes_code(v.checksum) + seq![
            scope_rank(v.effective_scope) as u64,
            v.depth as u64,
        ] + numbers_code(v.position) + seq![0u64] + deps_code(v.dependencies) + seq![0u64] + patterns_code(
            v.exclusions,
        ) + seq![0u64]
    }

    fn sort_code(&self) -> (r: Vec<u64>) {
        let mut out = self.coord.sort_code();
        push_opt_text_code(&mut out, &self.classifier);
        push_text_code(&mut out, self.artifact_type.as_str());
        push_text_code(&mut out, self.source.as_str());
        push_path_code(&mut out, self.artifact_path.as_str());
        push_bytes_code(&mut out, self.checksum.digest());
        out.push(self.effective_scope.rank() as u64);
        out.push(self.depth as u64);
        push_numbers_code(&mut out, &self.position);
        out.push(0);
        push_deps_code(&mut out, &self.dependencies);
        out.push(0);
        push_patterns_code(&mut out, &self.exclusions);
        out.push(0);
        assert(out@ =~= <LockArtifact as Ranked>::code(self@));
        out
    }
}

/// What was resolved.
#[derive(Debug, PartialEq, Eq)]
pub struct Lock {
    pub version: String,
    pub repositories: OrdSet<String>,
    pub artifacts: OrdSet<LockArtifact>,
    pub local: OrdSet<LocalArtifact>,
}

/// A lock, its texts as characters.
pub struct LockView {
    pub version: Seq<char>,
    pub repositories: Seq<Seq<char>>,
    pub artifacts: Seq<LockArtifactView>,
    pub local: Seq<LocalView>,
}

impl View for Lock {
    type V = LockView;

    open spec fn view(&self) -> LockView {
        LockView {
            version: self.version@,
            repositories: self.repositories@,
            artifacts: self.artifacts@,
            local: self.local@,
        }
    }
}

/// Why a text is no lock.
#[derive(Debug, PartialEq, Eq)]
pub enum LockFault<S> {
    /// It is no KDL document.
    Syntax,
    /// An artifact has no coordinates.
    MissingCoord,
    /// Something is given as coordinates that is none.
    Coordinates(CoordError),
    /// An artifact does not say where it came from.
    MissingSource,
    /// An artifact has no path.
    MissingPath,
    /// An artifact has no checksum.
    MissingChecksum,
    /// A checksum is no hexadecimal.
    InvalidHex,
    /// A child of an artifact has no value.
    MissingValue(S),
    /// An exclusion is no pattern.
    Exclusion(PatternError),
    /// An artifact has a child that is neither a dependency nor an exclusion.
    UnexpectedNode(S),
    /// A local artifact has no path.
    LocalMissingPath,
    /// A local artifact has no checksum.
    LocalMissingChecksum,
}

/// Why a text is no lock.
pub type LockError = LockFault<String>;

impl View for LockFault<String> {
    type V = LockFault<Seq<char>>;

    open spec fn view(&self) -> LockFault<Seq<char>> {
        match self {
            LockFault::Syntax => LockFault::Syntax,
            LockFault::MissingCoord => LockFault::MissingCoord,
            LockFault::Coordinates(e) => LockFault::Coordinates(*e),
            LockFault::MissingSource => LockFault::MissingSource,
            LockFault::MissingPath => LockFault::MissingPath,
            LockFault::MissingChecksum => LockFault::MissingChecksum,
            LockFault::InvalidHex => LockFault::InvalidHex,
            LockFault::MissingValue(s) => LockFault::MissingValue(s@),
            LockFault::Exclusion(e) => LockFault::Exclusion(*e),
            LockFault::UnexpectedNode(s) => LockFault::UnexpectedNode(s@),
            LockFault::LocalMissingPath => LockFault::LocalMissingPath,
            LockFault::LocalMissingChecksum => LockFault::LocalMissingChecksum,
        }
    }
}

/// What reading a lock, or a part of one, comes to.
pub type LockRead<T> = Result<T, LockFault<Seq<char>>>;

/// What a result is, its texts as characters.
pub open spec fn lock_view<T: View>(r: Result<T, LockError>) -> LockRead<T::V> {
    match r {
        Ok(x) => Ok(x@),
        Err(e) => Err(e@),
    }
}

/// The text of a property.
pub open spec fn prop_text(n: NodeView, key: Seq<char>) -> Option<Seq<char>> {
    text_of(prop_of(n.entries, key))
}

/// The numbers among texts, in order.
pub open spec fn numbers_among(parts: Seq<Seq<char>>) -> Seq<usize>
    decreases parts.len(),
{
    if parts.len() == 0 {
        Seq::empty()
    } else {
        match number_spec(parts.last(), usize::MAX as nat) {
            Some(n) => numbers_among(parts.drop_last()).push(n as usize),
            None => numbers_among(parts.drop_last()),
        }
    }
}

/// The numbers of a position, which stand between dots.
pub open spec fn position_of(s: Option<Seq<char>>) -> Seq<usize> {
    match s {
        Some(t) => numbers_among(split_spec(t, '.')),
        None => Seq::empty(),
    }
}

/// The depth that a value gives.
pub open spec fn depth_of(v: Option<ValueView>) -> usize {
    match v {
        Some(ValueView::Integer(n)) => n as usize,
        _ => 0,
    }
}

/// What the children of an artifact come to: its dependencies and its exclusions.
pub type LockChildren = (Seq<(CoordView, PomScope)>, Seq<PatternView>);

/// What one more child of an artifact comes to, given which of its globs are accepted.
pub open spec fn lock_child_given(n: NodeView, v: GlobVerdict, acc: LockChildren) -> LockRead<LockChildren> {
    match text_of(first_arg(n)) {
        None => Err(LockFault::MissingValue(n.name)),
        Some(s) => match pom_scope_of(n.name) {
            Some(scope) => match coord_spec(s) {
                Err(e) => Err(LockFault::Coordinates(e)),
                Ok(coord) => Ok((assign::<ArtifactCoordinates, PomScope>(acc.0, coord, scope), acc.1)),
            },
            None => if n.name == "exclude"@ {
                match pattern_given(s, v.0, v.1) {
                    Err(e) => Err(LockFault::Exclusion(e)),
                    Ok(p) => Ok((acc.0, put::<ExclusionPattern>(acc.1, p))),
                }
            } else {
                Err(LockFault::UnexpectedNode(n.name))
            },
        },
    }
}

/// What the first children of an artifact come to, given which globs are accepted: as many
/// children as there are verdicts.
pub open spec fn lock_children_given(c: Seq<NodeView>, vs: Seq<GlobVerdict>) -> LockRead<LockChildren>
    decreases vs.len(),
{
    if vs.len() == 0 {
        Ok((Seq::empty(), Seq::empty()))
    } else {
        match lock_children_given(c, vs.drop_last()) {
            Err(e) => Err(e),
            Ok(acc) => lock_child_given(c[vs.len() - 1], vs.last(), acc),
        }
    }
}

/// A fault stays the same, whatever comes after it.
proof fn lock_children_fault_stays(c: Seq<NodeView>, vs: Seq<GlobVerdict>, more: Seq<GlobVerdict>)
    requires
        lock_children_given(c, vs) is Err,
    ensures
        lock_children_given(c, vs + more) == lock_children_given(c, vs),
    decreases more.len(),
{
    if more.len() == 0 {
        assert(vs + more =~= vs);
    } else {
        lock_children_fault_stays(c, vs, more.drop_last());
        assert((vs + more).drop_last() =~= vs + more.drop_last());
    }
}

/// The checksum that a property gives.
pub open spec fn checksum_of(s: Option<Seq<char>>, missing: LockFault<Seq<char>>) -> LockRead<Seq<u8>> {
    match s {
        None => Err(missing),
        Some(t) => match unhex_spec(t) {
            Some(b) => Ok(b),
            None => Err(LockFault::InvalidHex),
        },
    }
}

/// The artifact that a node gives.
pub open spec fn lock_artifact_spec(n: NodeView) -> LockRead<LockArtifactView> {
    lock_artifact_given(n, node_verdicts(children_or_none(n)))
}

/// The artifact that a node gives, given which globs are accepted.
pub open spec fn lock_artifact_given(n: NodeView, vs: Seq<GlobVerdict>) -> LockRead<LockArtifactView> {
    match text_of(first_arg(n)) {
        None => Err(LockFault::MissingCoord),
        Some(s) => match coord_spec(s) {
            Err(e) => Err(LockFault::Coordinates(e)),
            Ok(coord) => match (prop_text(n, "source"@), prop_text(n, "path"@)) {
                (None, _) => Err(LockFault::MissingSource),
                (_, None) => Err(LockFault::MissingPath),
                (Some(source), Some(artifact_path)) => match checksum_of(
                    prop_text(n, "checksum"@),
                    LockFault::MissingChecksum,
                ) {
                    Err(e) => Err(e),
                    Ok(checksum) => match lock_children_given(children_or_none(n), vs) {
                        Err(e) => Err(e),
                        Ok((dependencies, exclusions)) => Ok(
                            LockArtifactView {
                                coord,
                                classifier: prop_text(n, "classifier"@),
                                artifact_type: text_or(prop_text(n, "type"@), "jar"@),
                                source,
                                artifact_path,
                                checksum,
                                effective_scope: lock_scope(prop_text(n, "scope"@)),
                                depth: depth_of(prop_of(n.entries, "depth"@)),
                                position: position_of(prop_text(n, "position"@)),
                                dependencies,
                                exclusions,
                            },
                        ),
                    },
                },
            },
        },
    }
}

/// The scope that a word names, or `compile`.
pub open spec fn lock_scope(s: Option<Seq<char>>) -> Scope {
    match s {
        Some(t) => match scope_of(t) {
            Some(x) => x,
            None => Scope::Compile,
        },
        None => Scope::Compile,
    }
}

/// The local artifact that a node gives.
pub open spec fn local_artifact_spec(n: NodeView) -> LockRead<LocalView> {
    match prop_text(n, "path"@) {
        None => Err(LockFault::LocalMissingPath),
        Some(path) => match checksum_of(prop_text(n, "checksum"@), LockFault::LocalMissingChecksum) {
            Err(e) => Err(e),
            Ok(checksum) => Ok(LocalView { path, checksum }),
        },
    }
}

/// What nodes come to: artifacts and local artifacts.
pub type LockItems = (Seq<LockArtifactView>, Seq<LocalView>);

/// What one more node comes to, given which globs are accepted.
pub open spec fn lock_node_given(n: NodeView, vs: Seq<GlobVerdict>, acc: LockItems) -> LockRead<LockItems> {
    if n.name == "artifact"@ {
        match lock_artifact_given(n, vs) {
            Err(e) => Err(e),
            Ok(a) => Ok((put::<LockArtifact>(acc.0, a), acc.1)),
        }
    } else if n.name == "local"@ {
        match local_artifact_spec(n) {
            Err(e) => Err(e),
            Ok(l) => Ok((acc.0, put::<LocalArtifact>(acc.1, l))),
        }
    } else {
        Ok(acc)
    }
}

/// What the first nodes come to, given which globs are accepted.
pub open spec fn lock_nodes_given(d: Seq<NodeView>, vss: Seq<Seq<GlobVerdict>>) -> LockRead<LockItems>
    decreases vss.len(),
{
    if vss.len() == 0 {
        Ok((Seq::empty(), Seq::empty()))
    } else {
        match lock_nodes_given(d, vss.drop_last()) {
            Err(e) => Err(e),
            Ok(acc) => lock_node_given(d[vss.len() - 1], vss.last(), acc),
        }
    }
}

/// A fault stays the same, whatever comes after it.
proof fn lock_nodes_fault_stays(d: Seq<NodeView>, vss: Seq<Seq<GlobVerdict>>, more: Seq<Seq<GlobVerdict>>)
    requires
        lock_nodes_given(d, vss) is Err,
    ensures
        lock_nodes_given(d, vss + more) == lock_nodes_given(d, vss),
    decreases more.len(),
{
    if more.len() == 0 {
        assert(vss + more =~= vss);
    } else {
        lock_nodes_fault_stays(d, vss, more.drop_last());
        assert((vss + more).drop_last() =~= vss + more.drop_last());
    }
}

/// The names of nodes, as a set of texts.
pub open spec fn names_from(c: Seq<NodeView>) -> Seq<Seq<char>>
    decreases c.len(),
{
    if c.len() == 0 {
        Seq::empty()
    } else {
        put::<String>(names_from(c.drop_last()), c.last().name)
    }
}

/// The repositories that a document names.
pub open spec fn lock_repositories(d: Seq<NodeView>) -> Seq<Seq<char>> {
    match find_node(d, "repositories"@) {
        None => Seq::empty(),
        Some(n) => names_from(children_or_none(n)),
    }
}

/// The lock that a document is.
pub open spec fn lock_spec(d: Seq<NodeView>) -> LockRead<LockView> {
    lock_given(d, child_verdicts(d))
}

/// The lock that a document is, given which globs of its exclusions are accepted.
pub open spec fn lock_given(d: Seq<NodeView>, vss: Seq<Seq<GlobVerdict>>) -> LockRead<LockView> {
    match lock_nodes_given(d, vss) {
        Err(e) => Err(e),
        Ok((artifacts, local)) => Ok(
            LockView {
                version: text_or(text_of(node_arg(d, "version"@)), "1"@),
                repositories: lock_repositories(d),
                artifacts,
                local,
            },
        ),
    }
}

/// Whether the exclusions of all artifacts mean the same on every system.
pub open spec fn portable_lock(d: Seq<NodeView>) -> bool {
    forall|i: int| 0 <= i < d.len() ==> portable_children(#[trigger] d[i])
}

/// The lock that a text is.
pub open spec fn lock_text_spec(s: Seq<char>) -> LockRead<LockView> {
    match kdl_parse(s) {
        None => Err(LockFault::Syntax),
        Some(d) => lock_spec(d),
    }
}

fn parse_checksum(s: Option<String>, missing: LockError) -> (r: Result<Checksum, LockError>)
    ensures
        lock_view(r) == checksum_of(opt_text(s), missing@),
{
    match s {
        None => Err(missing),
        Some(t) => match Checksum::from_str(t.as_str()) {
            Ok(c) => Ok(c),
            Err(_) => Err(LockFault::InvalidHex),
        },
    }
}

fn parse_position(s: Option<String>) -> (r: Vec<usize>)
    ensures
        r@ == position_of(opt_text(s)),
{
    let mut out: Vec<usize> = Vec::new();
    let t = match s {
        None => {
            return out;
        },
        Some(t) => t,
    };
    let pieces = split_all(t.as_str(), '.');
    let ghost ps = texts(pieces@);
    let mut i: usize = 0;
    assert(ps.take(0) =~= Seq::empty());
    while i < pieces.len()
        invariant
            i <= pieces@.len(),
            ps == texts(pieces@),
            out@ == numbers_among(ps.take(i as int)),
        decreases pieces@.len() - i,
    {
        assert(ps[i as int] == pieces@[i as int]@);
        assert(ps.take(i + 1).drop_last() =~= ps.take(i as int));
        if let Some(n) = parse_number(pieces[i].as_str(), usize::MAX as u64) {
            out.push(n as usize);
        }
        i = i + 1;
    }
    assert(ps.take(i as int) =~= ps);
    out
}

fn read_lock_children(node: &Node) -> (r: (
    Result<(OrdMap<ArtifactCoordinates, PomScope>, OrdSet<ExclusionPattern>), LockError>,
    Ghost<Seq<GlobVerdict>>,
))
    ensures
        honest_nodes(children_or_none(node.view()), r.1@),
        match r.0 {
            Ok((d, e)) => lock_children_given(children_or_none(node.view()), r.1@) == Ok::<
                LockChildren,
                LockFault<Seq<char>>,
            >((d@, e@)),
            Err(e) => lock_children_given(children_or_none(node.view()), r.1@) == Err::<
                LockChildren,
                LockFault<Seq<char>>,
            >(e@),
        },
{
    let ghost c = children_or_none(node.view());
    let ghost mut vs: Seq<GlobVerdict> = Seq::empty();
    let mut dependencies: OrdMap<ArtifactCoordinates, PomScope> = OrdMap::new();
    let mut exclusions: OrdSet<ExclusionPattern> = OrdSet::new();
    proof {
        children_view(*node);
    }
    if let Some(children) = &node.children {
        let mut i: usize = 0;
        while i < children.nodes.len()
            invariant
                i <= children.nodes@.len(),
                c == children.view(),
                c == children_or_none(node.view()),
                vs.len() == i,
                forall|k: int| 0 <= k < i ==> honest_node(#[trigger] c[k], vs[k]),
                lock_children_given(c, vs) == Ok::<LockChildren, LockFault<Seq<char>>>(
                    (dependencies@, exclusions@),
                ),
            decreases children.nodes@.len() - i,
        {
            let child = &children.nodes[i];
            let ghost n = child.view();
            assert(c[i as int] == n);
            let (verdict, fault) = read_lock_child(child, &mut dependencies, &mut exclusions);
            let ghost ws = vs.push(verdict@);
            assert(ws.drop_last() =~= vs);
            if let Some(e) = fault {
                let ghost more = node_verdicts(c).skip(ws.len() as int);
                proof {
                    lock_children_fault_stays(c, ws, more);
                    honest_rest(c, ws);
                }
                return (Err(e), Ghost(ws + more));
            }
            proof {
                vs = ws;
            }
            i = i + 1;
        }
    }
    (Ok((dependencies, exclusions)), Ghost(vs))
}

/// Takes in one more child of an artifact.
fn read_lock_child(
    child: &Node,
    dependencies: &mut OrdMap<ArtifactCoordinates, PomScope>,
    exclusions: &mut OrdSet<ExclusionPattern>,
) -> (r: (Ghost<GlobVerdict>, Option<LockError>))
    ensures
        honest_node(child.view(), r.0@),
        match r.1 {
            None => lock_child_given(child.view(), r.0@, (old(dependencies)@, old(exclusions)@)) == Ok::<
                LockChildren,
                LockFault<Seq<char>>,
            >((final(dependencies)@, final(exclusions)@)),
            Some(e) => lock_child_given(child.view(), r.0@, (old(dependencies)@, old(exclusions)@)) == Err::<
                LockChildren,
                LockFault<Seq<char>>,
            >(e@),
        },
{
    let ghost v = node_verdict(child.view());
    let val = match text_value(child.arg()) {
        None => {
            return (Ghost(v), Some(LockFault::MissingValue(child.name.clone())));
        },
        Some(s) => s,
    };
    match PomScope::from_str(child.name.as_str()) {
        Ok(scope) => match ArtifactCoordinates::from_str(val.as_str()) {
            Ok(dep) => {
                dependencies.insert(dep, scope);
                (Ghost(v), None)
            },
            Err(e) => (Ghost(v), Some(LockFault::Coordinates(e))),
        },
        Err(_) => if same(child.name.as_str(), "exclude") {
            let (p, w) = ExclusionPattern::read(val.as_str());
            match p {
                Ok(q) => {
                    exclusions.insert(q);
                    (w, None)
                },
                Err(e) => (w, Some(LockFault::Exclusion(e))),
            }
        } else {
            (Ghost(v), Some(LockFault::UnexpectedNode(child.name.clone())))
        },
    }
}

fn read_lock_artifact(node: &Node) -> (r: (Result<LockArtifact, LockError>, Ghost<Seq<GlobVerdict>>))
    ensures
        honest_nodes(children_or_none(node.view()), r.1@),
        lock_view(r.0) == lock_artifact_given(node.view(), r.1@),
{
    let (children, vs) = read_lock_children(node);
    let text = match text_value(node.arg()) {
        None => {
            return (Err(LockFault::MissingCoord), vs);
        },
        Some(s) => s,
    };
    let coord = match ArtifactCoordinates::from_str(text.as_str()) {
        Ok(c) => c,
        Err(e) => {
            return (Err(LockFault::Coordinates(e)), vs);
        },
    };
    let source = match text_value(node.prop("source")) {
        None => {
            return (Err(LockFault::MissingSource), vs);
        },
        Some(s) => s,
    };
    let artifact_path = match text_value(node.prop("path")) {
        None => {
            return (Err(LockFault::MissingPath), vs);
        },
        Some(s) => s,
    };
    let checksum = match parse_checksum(text_value(node.prop("checksum")), LockFault::MissingChecksum) {
        Ok(c) => c,
        Err(e) => {
            return (Err(e), vs);
        },
    };
    let classifier = text_value(node.prop("classifier"));
    let artifact_type = match text_value(node.prop("type")) {
        Some(t) => ArtifactType::new(t),
        None => ArtifactType::default(),
    };
    let effective_scope = match text_value(node.prop("scope")) {
        Some(s) => match Scope::from_str(s.as_str()) {
            Ok(x) => x,
            Err(_) => Scope::Compile,
        },
        None => Scope::Compile,
    };
    let depth: usize = match node.prop("depth") {
        Some(Value::Integer(n)) => #[verifier::truncate] (*n as usize),
        _ => 0,
    };
    let position = parse_position(text_value(node.prop("position")));
    match children {
        Err(e) => (Err(e), vs),
        Ok((dependencies, exclusions)) => {
            let artifact = LockArtifact {
                coord,
                classifier,
                artifact_type,
                source,
                artifact_path,
                checksum,
                effective_scope,
                depth,
                position,
                dependencies,
                exclusions,
            };
            (Ok(artifact), vs)
        },
    }
}

/// The artifact that a node gives.
pub fn parse_lock_artifact(node: &Node) -> (r: Result<LockArtifact, LockError>)
    ensures
        exists|vs: Seq<GlobVerdict>|
            #[trigger] honest_nodes(children_or_none(node.view()), vs) && lock_view(r) == lock_artifact_given(
                node.view(),
                vs,
            ),
        portable_children(node.view()) ==> lock_view(r) == lock_artifact_spec(node.view()),
{
    let (r, vs) = read_lock_artifact(node);
    proof {
        assert(honest_nodes(children_or_none(node.view()), vs@));
        if portable_children(node.view()) {
            portable_verdicts(node.view(), vs@);
        }
    }
    r
}

/// The local artifact that a node gives.
pub fn parse_local_artifact(node: &Node) -> (r: Result<LocalArtifact, LockError>)
    ensures
        lock_view(r) == local_artifact_spec(node.view()),
{
    let path = match text_value(node.prop("path")) {
        None => {
            return Err(LockFault::LocalMissingPath);
        },
        Some(s) => s,
    };
    match parse_checksum(text_value(node.prop("checksum")), LockFault::LocalMissingChecksum) {
        Ok(checksum) => Ok(LocalArtifact { path, checksum }),
        Err(e) => Err(e),
    }
}

fn parse_lock_repositories(doc: &Document) -> (r: OrdSet<String>)
    ensures
        r@ == lock_repositories(doc.view()),
{
    let mut out: OrdSet<String> = OrdSet::new();
    if let Some(node) = doc.get("repositories") {
        proof {
            children_view(*node);
        }
        if let Some(children) = &node.children {
            let ghost c = children.view();
            let mut i: usize = 0;
            assert(c.take(0) =~= Seq::empty());
            while i < children.nodes.len()
                invariant
                    i <= children.nodes@.len(),
                    c == children.view(),
                    out@ == names_from(c.take(i as int)),
                decreases children.nodes@.len() - i,
            {
                assert(c[i as int] == children.nodes@[i as int].view());
                assert(c.take(i + 1).drop_last() =~= c.take(i as int));
                out.insert(children.nodes[i].name.clone());
                i = i + 1;
            }
            assert(c.take(i as int) =~= c);
        }
    }
    out
}

impl Lock {
    /// The lock that a document is.
    pub fn from_document(doc: &Document) -> (r: Result<Lock, LockError>)
        ensures
            exists|vss: Seq<Seq<GlobVerdict>>|
                #[trigger] honest_children(doc.view(), vss) && lock_view(r) == lock_given(doc.view(), vss),
            portable_lock(doc.view()) ==> lock_view(r) == lock_spec(doc.view()),
    {
        let ghost d = doc.view();
        let ghost mut vss: Seq<Seq<GlobVerdict>> = Seq::empty();
        let version = match text_value(doc.get_arg("version")) {
            Some(s) => s,
            None => "1".to_owned(),
        };
        let repositories = parse_lock_repositories(doc);
        let mut artifacts: OrdSet<LockArtifact> = OrdSet::new();
        let mut local: OrdSet<LocalArtifact> = OrdSet::new();
        let mut i: usize = 0;
        while i < doc.nodes.len()
            invariant
                i <= doc.nodes@.len(),
                d == doc.view(),
                vss.len() == i,
                forall|k: int| 0 <= k < i ==> honest_nodes(children_or_none(#[trigger] d[k]), vss[k]),
                lock_nodes_given(d, vss) == Ok::<LockItems, LockFault<Seq<char>>>((artifacts@, local@)),
            decreases doc.nodes@.len() - i,
        {
            let node = &doc.nodes[i];
            let ghost n = node.view();
            assert(d[i as int] == n);
            let ghost mut vs = node_verdicts(children_or_none(n));
            let mut fault: Option<LockError> = None;
            if same(node.name.as_str(), "artifact") {
                let (a, w) = read_lock_artifact(node);
                proof {
                    vs = w@;
                }
                match a {
                    Ok(x) => {
                        artifacts.insert(x);
                    },
                    Err(e) => {
                        fault = Some(e);
                    },
                }
            } else if same(node.name.as_str(), "local") {
                match parse_local_artifact(node) {
                    Ok(l) => {
                        local.insert(l);
                    },
                    Err(e) => {
                        fault = Some(e);
                    },
                }
            }
            let ghost wss = vss.push(vs);
            assert(wss.drop_last() =~= vss);
            assert(honest_nodes(children_or_none(n), vs));
            if let Some(e) = fault {
                proof {
                    let more = child_verdicts(d).skip(wss.len() as int);
                    lock_nodes_fault_stays(d, wss, more);
                    honest_rest_of_children(d, wss);
                    assert(honest_children(d, wss + more));
                    if portable_lock(d) {
                        portable_child_verdicts(d, wss + more);
                    }
                }
                return Err(e);
            }
            proof {
                vss = wss;
            }
            i = i + 1;
        }
        proof {
            assert(honest_children(d, vss));
            if portable_lock(d) {
                portable_child_verdicts(d, vss);
            }
        }
        Ok(Lock { version, repositories, artifacts, local })
    }

    /// Reads a lock.
    pub fn parse(source: &str) -> (r: Result<Lock, LockError>)
        ensures
            match kdl_parse(source@) {
                None => lock_view(r) == Err::<LockView, LockFault<Seq<char>>>(LockFault::Syntax),
                Some(d) => {
                    &&& exists|vss: Seq<Seq<GlobVerdict>>|
                        #[trigger] honest_children(d, vss) && lock_view(r) == lock_given(d, vss)
                    &&& portable_lock(d) ==> lock_view(r) == lock_spec(d)
                },
            },
    {
        match Document::parse(source) {
            Err(_) => Err(LockFault::Syntax),
            Ok(doc) => Lock::from_document(&doc),
        }
    }
}

/// An argument.
pub open spec fn arg_entry(s: Seq<char>) -> EntryView {
    EntryView { name: None, value: ValueView::Text(s) }
}

/// A property.
pub open spec fn prop_entry(key: Seq<char>, s: Seq<char>) -> EntryView {
    EntryView { name: Some(key), value: ValueView::Text(s) }
}

/// Numbers in decimal.
pub open spec fn decimals(s: Seq<usize>) -> Seq<Seq<char>> {
    s.map_values(|n: usize| decimal_spec(n as nat))
}

/// The entries that every artifact's node has.
pub open spec fn fixed_entries(a: LockArtifactView) -> Seq<EntryView> {
    seq![
        arg_entry(coord_text(a.coord)),
        prop_entry("source"@, a.source),
        prop_entry("path"@, a.artifact_path),
        prop_entry("checksum"@, hex_spec(a.checksum)),
        prop_entry("scope"@, scope_name(a.effective_scope)),
        EntryView { name: Some("depth"@), value: ValueView::Integer(a.depth as i128) },
    ]
}

/// The entries of an artifact's node up to its position.
pub open spec fn placed_entries(a: LockArtifactView) -> Seq<EntryView> {
    if a.position.len() > 0 {
        fixed_entries(a).push(prop_entry("position"@, join_spec(decimals(a.position), "."@)))
    } else {
        fixed_entries(a)
    }
}

/// The entries of an artifact's node up to its classifier.
pub open spec fn classified_entries(a: LockArtifactView) -> Seq<EntryView> {
    match a.classifier {
        Some(c) => placed_entries(a).push(prop_entry("classifier"@, c)),
        None => placed_entries(a),
    }
}

/// The entries of an artifact's node.
pub open spec fn artifact_entries(a: LockArtifactView) -> Seq<EntryView> {
    if extension_spec(a.artifact_type) != "jar"@ {
        classified_entries(a).push(prop_entry("type"@, extension_spec(a.artifact_type)))
    } else {
        classified_entries(a)
    }
}

/// A node with one argument.
pub open spec fn plain_node(name: Seq<char>, arg: Seq<char>) -> NodeView {
    NodeView { name, entries: seq![arg_entry(arg)], children: None }
}

/// A node for each dependency, and one for each exclusion.
pub open spec fn artifact_children(a: LockArtifactView) -> Seq<NodeView> {
    a.dependencies.map_values(|d: (CoordView, PomScope)| plain_node(pom_scope_name(d.1), coord_text(d.0)))
        + a.exclusions.map_values(|p: PatternView| plain_node("exclude"@, pattern_text(p)))
}

/// The node of an artifact.
pub open spec fn artifact_node(a: LockArtifactView) -> NodeView {
    NodeView {
        name: "artifact"@,
        entries: artifact_entries(a),
        children: if a.dependencies.len() > 0 || a.exclusions.len() > 0 {
            Some(artifact_children(a))
        } else {
            None
        },
    }
}

/// The node of a local artifact.
pub open spec fn local_node(l: LocalView) -> NodeView {
    NodeView {
        name: "local"@,
        entries: seq![prop_entry("path"@, l.path), prop_entry("checksum"@, hex_spec(l.checksum))],
        children: None,
    }
}

/// A node of a name, and nothing else.
pub open spec fn bare_node(name: Seq<char>) -> NodeView {
    NodeView { name, entries: Seq::empty(), children: None }
}

/// The nodes that say which repositories were searched.
pub open spec fn repository_nodes(urls: Seq<Seq<char>>) -> Seq<NodeView> {
    if urls.len() > 0 {
        seq![
            NodeView {
                name: "repositories"@,
                entries: Seq::empty(),
                children: Some(urls.map_values(|u: Seq<char>| bare_node(u))),
            },
        ]
    } else {
        Seq::empty()
    }
}

/// The document of a lock.
pub open spec fn lock_document(l: LockView) -> Seq<NodeView> {
    seq![plain_node("version"@, l.version)] + repository_nodes(l.repositories) + l.artifacts.map_values(
        |a: LockArtifactView| artifact_node(a),
    ) + l.local.map_values(|x: LocalView| local_node(x))
}

/// An artifact whose node reads back as the artifact wherever its exclusions are accepted: its
/// coordinates and those of its dependencies read back, and its type is not one that is packed
/// as `jar` under another name.
pub open spec fn artifact_in_form(a: LockArtifactView) -> bool {
    &&& coord_reads_back(a.coord)
    &&& extension_spec(a.artifact_type) == a.artifact_type
    &&& sorted::<Pair<ArtifactCoordinates, PomScope>>(a.dependencies)
    &&& forall|i: int| 0 <= i < a.dependencies.len() ==> coord_reads_back((#[trigger] a.dependencies[i]).0)
    &&& sorted::<ExclusionPattern>(a.exclusions)
    &&& forall|i: int| 0 <= i < a.exclusions.len() ==> pattern_wf(#[trigger] a.exclusions[i])
}

/// An artifact whose exclusions are accepted on every system.
pub open spec fn accepted_everywhere(a: LockArtifactView) -> bool {
    forall|i: int|
        0 <= i < a.exclusions.len() ==> {
            let p = #[trigger] a.exclusions[i];
            portable_pattern(p) && glob_valid(p.group) && glob_valid(p.artifact)
        }
}

/// A lock whose document reads back as the lock wherever its exclusions are accepted.
pub open spec fn lock_in_form(l: LockView) -> bool {
    &&& sorted::<String>(l.repositories)
    &&& sorted::<LockArtifact>(l.artifacts)
    &&& sorted::<LocalArtifact>(l.local)
    &&& forall|i: int| 0 <= i < l.artifacts.len() ==> artifact_in_form(#[trigger] l.artifacts[i])
}

/// A lock whose document reads back as the lock on every system.
pub open spec fn lock_survives(l: LockView) -> bool {
    &&& lock_in_form(l)
    &&& forall|i: int| 0 <= i < l.artifacts.len() ==> accepted_everywhere(#[trigger] l.artifacts[i])
}

/// Whether verdicts accept all that nodes exclude.
pub open spec fn all_accepted(c: Seq<NodeView>, vs: Seq<GlobVerdict>) -> bool {
    forall|i: int| 0 <= i < c.len() && (#[trigger] c[i]).name == "exclude"@ ==> vs[i] == (true, true)
}

/// Whether verdicts accept all that the artifacts of a document exclude.
pub open spec fn lock_accepted(d: Seq<NodeView>, vss: Seq<Seq<GlobVerdict>>) -> bool {
    forall|i: int| 0 <= i < d.len() ==> all_accepted(children_or_none(#[trigger] d[i]), vss[i])
}

/// Whether there is a verdict for each child of each node.
pub open spec fn verdicts_for(d: Seq<NodeView>, vss: Seq<Seq<GlobVerdict>>) -> bool {
    &&& vss.len() == d.len()
    &&& forall|i: int| 0 <= i < d.len() ==> vss[i].len() == children_or_none(#[trigger] d[i]).len()
}

/// Whether something was read as it was written, or an exclusion was refused.
pub open spec fn back_or_refused<T>(r: LockRead<T>, x: T) -> bool {
    match r {
        Ok(y) => y == x,
        Err(e) => e is Exclusion,
    }
}

/// The names of an artifact's properties all differ.
pub proof fn prop_words()
    ensures
        "source"@.len() == 6,
        "path"@.len() == 4,
        "checksum"@.len() == 8,
        "scope"@.len() == 5,
        "depth"@.len() == 5,
        "position"@.len() == 8,
        "classifier"@.len() == 10,
        "type"@.len() == 4,
        "path"@ != "type"@,
        "checksum"@ != "position"@,
        "scope"@ != "depth"@,
        "version"@.len() == 7,
        "repositories"@.len() == 12,
        "artifact"@.len() == 8,
        "local"@.len() == 5,
{
    reveal_strlit("source");
    reveal_strlit("path");
    reveal_strlit("checksum");
    reveal_strlit("scope");
    reveal_strlit("depth");
    reveal_strlit("position");
    reveal_strlit("classifier");
    reveal_strlit("type");
    reveal_strlit("version");
    reveal_strlit("repositories");
    reveal_strlit("artifact");
    reveal_strlit("local");
    assert("path"@[0] != "type"@[0]);
    assert("checksum"@[0] != "position"@[0]);
    assert("scope"@[0] != "depth"@[0]);
}

proof fn prop_of_push(es: Seq<EntryView>, e: EntryView, key: Seq<char>)
    ensures
        prop_of(es.push(e), key) == if e.name == Some(key) { Some(e.value) } else { prop_of(es, key) },
        args_of(es.push(e)) == if e.name is None { args_of(es).push(e.value) } else { args_of(es) },
{
    assert(es.push(e).drop_last() =~= es);
}

proof fn fixed_entries_read_back(a: LockArtifactView, key: Seq<char>)
    ensures
        args_of(fixed_entries(a)) == seq![ValueView::Text(coord_text(a.coord))],
        prop_of(fixed_entries(a), key) == if key == "source"@ {
            Some(ValueView::Text(a.source))
        } else if key == "path"@ {
            Some(ValueView::Text(a.artifact_path))
        } else if key == "checksum"@ {
            Some(ValueView::Text(hex_spec(a.checksum)))
        } else if key == "scope"@ {
            Some(ValueView::Text(scope_name(a.effective_scope)))
        } else if key == "depth"@ {
            Some(ValueView::Integer(a.depth as i128))
        } else {
            None
        },
{
    prop_words();
    let e = fixed_entries(a);
    let e0 = Seq::<EntryView>::empty();
    let e1 = e0.push(e[0]);
    let e2 = e1.push(e[1]);
    let e3 = e2.push(e[2]);
    let e4 = e3.push(e[3]);
    let e5 = e4.push(e[4]);
    let e6 = e5.push(e[5]);
    assert(e =~= e6);
    prop_of_push(e0, e[0], key);
    prop_of_push(e1, e[1], key);
    prop_of_push(e2, e[2], key);
    prop_of_push(e3, e[3], key);
    prop_of_push(e4, e[4], key);
    prop_of_push(e5, e[5], key);
    assert(args_of(e1) =~= seq![ValueView::Text(coord_text(a.coord))]);
}

/// What is read of an artifact's node is what was written.
proof fn artifact_entries_read_back(a: LockArtifactView, key: Seq<char>)
    ensures
        args_of(artifact_entries(a)) == seq![ValueView::Text(coord_text(a.coord))],
        prop_of(artifact_entries(a), key) == if key == "type"@ && extension_spec(a.artifact_type) != "jar"@ {
            Some(ValueView::Text(extension_spec(a.artifact_type)))
        } else if key == "classifier"@ && a.classifier is Some {
            Some(ValueView::Text(a.classifier->Some_0))
        } else if key == "position"@ && a.position.len() > 0 {
            Some(ValueView::Text(join_spec(decimals(a.position), "."@)))
        } else {
            prop_of(fixed_entries(a), key)
        },
{
    prop_words();
    fixed_entries_read_back(a, key);
    prop_of_push(fixed_entries(a), prop_entry("position"@, join_spec(decimals(a.position), "."@)), key);
    if let Some(c) = a.classifier {
        prop_of_push(placed_entries(a), prop_entry("classifier"@, c), key);
    }
    prop_of_push(classified_entries(a), prop_entry("type"@, extension_spec(a.artifact_type)), key);
}

/// An artifact is written under these names: its coordinates as the argument, where it came from
/// and where it is, its checksum, its scope and its depth always, and its position, its classifier
/// and its extension where they say anything.
pub proof fn artifact_is_written_under_its_names(a: LockArtifactView)
    ensures
        ({
            let n = artifact_node(a);
            &&& n.name == "artifact"@
            &&& first_arg(n) == Some(ValueView::Text(coord_text(a.coord)))
            &&& prop_text(n, "source"@) == Some(a.source)
            &&& prop_text(n, "path"@) == Some(a.artifact_path)
            &&& prop_text(n, "checksum"@) == Some(hex_spec(a.checksum))
            &&& prop_text(n, "scope"@) == Some(scope_name(a.effective_scope))
            &&& prop_of(n.entries, "depth"@) == Some(ValueView::Integer(a.depth as i128))
            &&& a.position.len() > 0 ==> prop_text(n, "position"@) == Some(join_spec(decimals(a.position), "."@))
            &&& a.position.len() == 0 ==> prop_of(n.entries, "position"@) is None
            &&& prop_text(n, "classifier"@) == a.classifier
            &&& extension_spec(a.artifact_type) != "jar"@ ==> prop_text(n, "type"@) == Some(
                extension_spec(a.artifact_type),
            )
            &&& extension_spec(a.artifact_type) == "jar"@ ==> prop_of(n.entries, "type"@) is None
        }),
{
    prop_words();
    artifact_entries_read_back(a, "source"@);
    artifact_entries_read_back(a, "path"@);
    artifact_entries_read_back(a, "checksum"@);
    artifact_entries_read_back(a, "scope"@);
    artifact_entries_read_back(a, "depth"@);
    artifact_entries_read_back(a, "position"@);
    artifact_entries_read_back(a, "classifier"@);
    artifact_entries_read_back(a, "type"@);
    fixed_entries_read_back(a, "source"@);
    fixed_entries_read_back(a, "path"@);
    fixed_entries_read_back(a, "checksum"@);
    fixed_entries_read_back(a, "scope"@);
    fixed_entries_read_back(a, "depth"@);
    fixed_entries_read_back(a, "position"@);
    fixed_entries_read_back(a, "classifier"@);
    fixed_entries_read_back(a, "type"@);
}

proof fn numbers_of_decimals(s: Seq<usize>)
    ensures
        numbers_among(decimals(s)) == s,
    decreases s.len(),
{
    if s.len() > 0 {
        numbers_of_decimals(s.drop_last());
        assert(decimals(s).drop_last() =~= decimals(s.drop_last()));
        number_of_decimal(s.last() as nat, usize::MAX as nat);
        assert(decimals(s).last() == decimal_spec(s.last() as nat));
        assert(s.drop_last().push(s.last()) =~= s);
    } else {
        assert(decimals(s) =~= Seq::empty());
        assert(s =~= Seq::empty());
    }
}

proof fn position_reads_back(s: Seq<usize>)
    requires
        s.len() > 0,
    ensures
        position_of(Some(join_spec(decimals(s), "."@))) == s,
{
    reveal_strlit(".");
    assert("."@ =~= seq!['.']);
    assert forall|i: int| 0 <= i < decimals(s).len() implies !(#[trigger] decimals(s)[i]).contains('.') by {
        let t = decimals(s)[i];
        crate::text::decimal_reads_back(s[i] as nat);
        assert(crate::text::all_digits(t));
        assert forall|k: int| 0 <= k < t.len() implies t[k] != '.' by {
            assert(crate::text::is_digit(t[k]));
        }
    }
    split_of_join(decimals(s), '.');
    numbers_of_decimals(s);
}

proof fn plain_node_reads_back(name: Seq<char>, arg: Seq<char>)
    ensures
        first_arg(plain_node(name, arg)) == Some(ValueView::Text(arg)),
{
    let e0 = Seq::<EntryView>::empty();
    assert(plain_node(name, arg).entries =~= e0.push(arg_entry(arg)));
    prop_of_push(e0, arg_entry(arg), name);
}

/// The first `k` nodes of dependencies and exclusions read back as the first of them.
proof fn children_read_back(a: LockArtifactView, vs: Seq<GlobVerdict>, k: int)
    requires
        artifact_in_form(a),
        vs.len() == artifact_children(a).len(),
        0 <= k <= a.dependencies.len() + a.exclusions.len(),
    ensures
        ({
            let n = a.dependencies.len();
            let deps = if k <= n { a.dependencies.take(k) } else { a.dependencies };
            let excl = if k <= n { Seq::empty() } else { a.exclusions.take(k - n) };
            let c = artifact_children(a);
            let r = lock_children_given(c, vs.take(k));
            &&& back_or_refused(r, (deps, excl))
            &&& all_accepted(c, vs) ==> r is Ok
        }),
    decreases k,
{
    let n = a.dependencies.len() as int;
    let c = artifact_children(a);
    let ws = vs.take(k);
    assert(a.dependencies.take(n) =~= a.dependencies);
    assert(a.exclusions.take(0) =~= Seq::empty());
    if k == 0 {
        assert(a.dependencies.take(0) =~= Seq::empty());
    } else {
        children_read_back(a, vs, k - 1);
        assert(ws.drop_last() =~= vs.take(k - 1));
        assert(ws.last() == vs[k - 1]);
        scope_words();
        if k - 1 < n {
            let d = a.dependencies[k - 1];
            assert(c[k - 1] == plain_node(pom_scope_name(d.1), coord_text(d.0)));
            plain_node_reads_back(pom_scope_name(d.1), coord_text(d.0));
            pom_scope_round_trip(d.1);
            coord_round_trip(d.0);
            crate::order::assign_next::<ArtifactCoordinates, PomScope>(a.dependencies, k - 1);
        } else {
            let p = a.exclusions[k - 1 - n];
            assert(c[k - 1] == plain_node("exclude"@, pattern_text(p)));
            plain_node_reads_back("exclude"@, pattern_text(p));
            pattern_round_trip(p);
            crate::order::put_next::<ExclusionPattern>(a.exclusions, k - 1 - n);
        }
    }
}

/// The node of an artifact reads back as the artifact, whatever its exclusions hold, unless one
/// of them is refused.
pub proof fn artifact_round_trip(a: LockArtifactView, vs: Seq<GlobVerdict>)
    requires
        artifact_in_form(a),
        vs.len() == children_or_none(artifact_node(a)).len(),
    ensures
        back_or_refused(lock_artifact_given(artifact_node(a), vs), a),
        all_accepted(children_or_none(artifact_node(a)), vs) ==> lock_artifact_given(artifact_node(a), vs) is Ok,
{
    let n = artifact_node(a);
    prop_words();
    artifact_entries_read_back(a, "source"@);
    artifact_entries_read_back(a, "path"@);
    artifact_entries_read_back(a, "checksum"@);
    artifact_entries_read_back(a, "scope"@);
    artifact_entries_read_back(a, "depth"@);
    artifact_entries_read_back(a, "position"@);
    artifact_entries_read_back(a, "classifier"@);
    artifact_entries_read_back(a, "type"@);
    fixed_entries_read_back(a, "source"@);
    fixed_entries_read_back(a, "path"@);
    fixed_entries_read_back(a, "checksum"@);
    fixed_entries_read_back(a, "scope"@);
    fixed_entries_read_back(a, "depth"@);
    fixed_entries_read_back(a, "position"@);
    fixed_entries_read_back(a, "classifier"@);
    fixed_entries_read_back(a, "type"@);
    assert(text_of(first_arg(n)) == Some(coord_text(a.coord)));
    coord_round_trip(a.coord);
    hex_round_trip(a.checksum);
    scope_round_trip(a.effective_scope);
    if a.position.len() > 0 {
        position_reads_back(a.position);
    } else {
        assert(a.position =~= Seq::empty());
    }
    let c = artifact_children(a);
    if n.children is None {
        assert(c =~= Seq::empty());
    }
    assert(c =~= children_or_none(n));
    children_read_back(a, vs, c.len() as int);
    assert(vs.take(c.len() as int) =~= vs);
    assert(a.dependencies.take(a.dependencies.len() as int) =~= a.dependencies);
    assert(a.exclusions.take(a.exclusions.len() as int) =~= a.exclusions);
    if a.exclusions.len() == 0 {
        assert(a.exclusions =~= Seq::empty());
    }
}

/// Where the exclusions of an artifact are accepted on every system, all systems say so.
proof fn accepted_children(a: LockArtifactView)
    requires
        artifact_in_form(a),
        accepted_everywhere(a),
    ensures
        portable_children(artifact_node(a)),
        all_accepted(children_or_none(artifact_node(a)), node_verdicts(children_or_none(artifact_node(a)))),
{
    let n = artifact_node(a);
    let c = artifact_children(a);
    if n.children is None {
        assert(c =~= Seq::empty());
    }
    assert(c =~= children_or_none(n));
    scope_words();
    assert forall|i: int| 0 <= i < c.len() implies crate::manifest::portable_value(#[trigger] c[i]) && (c[i].name
        == "exclude"@ ==> node_verdict(c[i]) == (true, true)) by {
        if i < a.dependencies.len() {
            let d = a.dependencies[i];
            assert(c[i] == plain_node(pom_scope_name(d.1), coord_text(d.0)));
            pom_scope_round_trip(d.1);
        } else {
            let p = a.exclusions[i - a.dependencies.len()];
            assert(c[i] == plain_node("exclude"@, pattern_text(p)));
            plain_node_reads_back("exclude"@, pattern_text(p));
            pattern_round_trip(p);
        }
    }
}

proof fn local_reads_back(l: LocalView)
    ensures
        local_artifact_spec(local_node(l)) == Ok::<LocalView, LockFault<Seq<char>>>(l),
{
    prop_words();
    let e0 = Seq::<EntryView>::empty();
    let p = prop_entry("path"@, l.path);
    let c = prop_entry("checksum"@, hex_spec(l.checksum));
    assert(local_node(l).entries =~= e0.push(p).push(c));
    prop_of_push(e0, p, "path"@);
    prop_of_push(e0.push(p), c, "path"@);
    prop_of_push(e0.push(p), c, "checksum"@);
    hex_round_trip(l.checksum);
}

proof fn names_read_back(urls: Seq<Seq<char>>, k: int)
    requires
        sorted::<String>(urls),
        0 <= k <= urls.len(),
    ensures
        names_from(urls.map_values(|u: Seq<char>| bare_node(u)).take(k)) == urls.take(k),
    decreases k,
{
    let c = urls.map_values(|u: Seq<char>| bare_node(u));
    if k > 0 {
        names_read_back(urls, k - 1);
        assert(c.take(k).drop_last() =~= c.take(k - 1));
        crate::order::put_next::<String>(urls, k - 1);
    } else {
        assert(c.take(0) =~= Seq::empty());
        assert(urls.take(0) =~= Seq::empty());
    }
}

/// The first `k` among artifacts and local artifacts.
spec fn first_items(l: LockView, k: int) -> LockItems {
    let n = l.artifacts.len();
    if k <= n {
        (l.artifacts.take(k), Seq::empty())
    } else {
        (l.artifacts, l.local.take(k - n))
    }
}

/// The node of an artifact, or of a local artifact, adds it to those before it.
proof fn item_reads_back(l: LockView, vs: Seq<GlobVerdict>, k: int)
    requires
        lock_in_form(l),
        0 <= k < l.artifacts.len() + l.local.len(),
        vs.len() == children_or_none(item_nodes(l)[k]).len(),
    ensures
        ({
            let r = lock_node_given(item_nodes(l)[k], vs, first_items(l, k));
            &&& back_or_refused(r, first_items(l, k + 1))
            &&& all_accepted(children_or_none(item_nodes(l)[k]), vs) ==> r is Ok
        }),
{
    let n = l.artifacts.len() as int;
    prop_words();
    assert(l.artifacts.take(n) =~= l.artifacts);
    assert(l.local.take(0) =~= Seq::empty());
    if k < n {
        assert(item_nodes(l)[k] == artifact_node(l.artifacts[k]));
        artifact_round_trip(l.artifacts[k], vs);
        crate::order::put_next::<LockArtifact>(l.artifacts, k);
    } else {
        assert(item_nodes(l)[k] == local_node(l.local[k - n]));
        local_reads_back(l.local[k - n]);
        crate::order::put_next::<LocalArtifact>(l.local, k - n);
    }
}

/// What the first `k` nodes of artifacts and local artifacts after `start` others read back as.
proof fn nodes_read_back(l: LockView, start: Seq<NodeView>, vss: Seq<Seq<GlobVerdict>>, k: int)
    requires
        lock_in_form(l),
        verdicts_for(start + item_nodes(l), vss),
        0 <= k <= l.artifacts.len() + l.local.len(),
        forall|i: int|
            0 <= i < start.len() ==> (#[trigger] start[i]).name != "artifact"@ && start[i].name != "local"@,
    ensures
        ({
            let d = start + item_nodes(l);
            let r = lock_nodes_given(d, vss.take(start.len() + k));
            &&& back_or_refused(r, first_items(l, k))
            &&& lock_accepted(d, vss) ==> r is Ok
        }),
    decreases k,
{
    let d = start + item_nodes(l);
    let m = start.len() + k;
    let wss = vss.take(m);
    if k == 0 {
        others_add_nothing(d, vss, start.len() as int);
        assert(l.artifacts.take(0) =~= Seq::empty());
    } else {
        nodes_read_back(l, start, vss, k - 1);
        assert(wss.drop_last() =~= vss.take(m - 1));
        assert(d[m - 1] == item_nodes(l)[k - 1]);
        assert(wss.last() == vss[m - 1]);
        item_reads_back(l, vss[m - 1], k - 1);
    }
}

/// Nodes that are neither artifacts nor local artifacts add nothing.
proof fn others_add_nothing(d: Seq<NodeView>, vss: Seq<Seq<GlobVerdict>>, k: int)
    requires
        0 <= k <= d.len(),
        vss.len() == d.len(),
        forall|i: int| 0 <= i < k ==> (#[trigger] d[i]).name != "artifact"@ && d[i].name != "local"@,
    ensures
        lock_nodes_given(d, vss.take(k)) == Ok::<LockItems, LockFault<Seq<char>>>((Seq::empty(), Seq::empty())),
    decreases k,
{
    if k > 0 {
        others_add_nothing(d, vss, k - 1);
        assert(vss.take(k).drop_last() =~= vss.take(k - 1));
    }
}

/// The nodes of artifacts and of local artifacts.
pub open spec fn item_nodes(l: LockView) -> Seq<NodeView> {
    l.artifacts.map_values(|a: LockArtifactView| artifact_node(a)) + l.local.map_values(
        |x: LocalView| local_node(x),
    )
}

proof fn find_node_none(d: Seq<NodeView>, name: Seq<char>)
    requires
        forall|i: int| 0 <= i < d.len() ==> (#[trigger] d[i]).name != name,
    ensures
        find_node(d, name) is None,
    decreases d.len(),
{
    if d.len() > 0 {
        assert forall|i: int| 0 <= i < d.drop_first().len() implies (#[trigger] d.drop_first()[i]).name != name by {
            assert(d.drop_first()[i] == d[i + 1]);
        }
        find_node_none(d.drop_first(), name);
    }
}

/// The document of a lock reads back as the lock, whatever its exclusions hold, unless one of
/// them is refused. Where all are accepted, it does read back.
pub proof fn lock_round_trip(l: LockView, vss: Seq<Seq<GlobVerdict>>)
    requires
        lock_in_form(l),
        verdicts_for(lock_document(l), vss),
    ensures
        back_or_refused(lock_given(lock_document(l), vss), l),
        lock_accepted(lock_document(l), vss) ==> lock_given(lock_document(l), vss) == Ok::<
            LockView,
            LockFault<Seq<char>>,
        >(l),
{
    let d = lock_document(l);
    let nodes = item_nodes(l);
    let repos = repository_nodes(l.repositories);
    let start = seq![plain_node("version"@, l.version)] + repos;
    prop_words();
    plain_node_reads_back("version"@, l.version);
    assert(d =~= start + nodes);
    assert(d[0] == plain_node("version"@, l.version));
    assert(d.drop_first() =~= repos + nodes);
    nodes_read_back(l, start, vss, nodes.len() as int);
    assert(vss.take(d.len() as int) =~= vss);
    assert(l.artifacts.take(l.artifacts.len() as int) =~= l.artifacts);
    assert(l.local.take(l.local.len() as int) =~= l.local);
    if l.local.len() == 0 {
        assert(l.local =~= Seq::empty());
    }
    if l.repositories.len() > 0 {
        let urls = l.repositories;
        let c = urls.map_values(|u: Seq<char>| bare_node(u));
        assert((repos + nodes)[0] == repos[0]);
        names_read_back(urls, urls.len() as int);
        assert(c.take(urls.len() as int) =~= c);
        assert(urls.take(urls.len() as int) =~= urls);
        assert(find_node(repos + nodes, "repositories"@) == Some(repos[0]));
        assert(find_node(d, "repositories"@) == Some(repos[0]));
    } else {
        assert(repos + nodes =~= nodes);
        assert(l.repositories =~= Seq::empty());
        assert forall|i: int| 0 <= i < nodes.len() implies (#[trigger] nodes[i]).name != "repositories"@ by {
        }
        find_node_none(nodes, "repositories"@);
    }
    assert(find_node(d, "version"@) == Some(d[0]));
}

/// Where the exclusions of a lock are accepted on every system, its document reads back as the
/// lock on every system.
pub proof fn portable_lock_round_trip(l: LockView)
    requires
        lock_survives(l),
    ensures
        lock_spec(lock_document(l)) == Ok::<LockView, LockFault<Seq<char>>>(l),
        portable_lock(lock_document(l)),
{
    let d = lock_document(l);
    let nodes = item_nodes(l);
    let repos = repository_nodes(l.repositories);
    let vss = child_verdicts(d);
    scope_words();
    assert(d =~= seq![plain_node("version"@, l.version)] + repos + nodes);
    assert forall|i: int| 0 <= i < d.len() implies portable_children(#[trigger] d[i]) && all_accepted(
        children_or_none(d[i]),
        vss[i],
    ) by {
        if i > 0 && i >= 1 + repos.len() {
            let k = i - 1 - repos.len();
            assert(d[i] == nodes[k]);
            if k < l.artifacts.len() {
                accepted_children(l.artifacts[k]);
            }
        } else if i > 0 {
            assert(d[i] == repos[i - 1]);
            let c = repos[0].children->Some_0;
            assert forall|j: int| 0 <= j < c.len() implies crate::manifest::portable_value(#[trigger] c[j])
                && node_verdict(c[j]) == (true, true) by {
                assert(args_of(c[j].entries) =~= Seq::empty());
            }
        }
    }
    lock_round_trip(l, vss);
}

fn new_prop(key: &str, value: String) -> (r: Entry)
    ensures
        r@ == prop_entry(key@, value@),
{
    Entry { name: Some(key.to_owned()), value: Value::Text(value) }
}

fn new_node(name: String, arg: String) -> (r: Node)
    ensures
        r.view() == plain_node(name@, arg@),
{
    let entry = Entry { name: None, value: Value::Text(arg) };
    let mut entries: Vec<Entry> = Vec::new();
    entries.push(entry);
    let node = Node { name, entries, children: None };
    assert(node.view().entries =~= seq![arg_entry(arg@)]);
    node
}

fn position_text(position: &Vec<usize>) -> (r: String)
    ensures
        r@ == join_spec(decimals(position@), "."@),
{
    let mut parts: Vec<String> = Vec::new();
    let mut i: usize = 0;
    while i < position.len()
        invariant
            i <= position@.len(),
            parts@.len() == i,
            forall|k: int| 0 <= k < i ==> (#[trigger] parts@[k])@ == decimal_spec(position@[k] as nat),
        decreases position@.len() - i,
    {
        parts.push(decimal(position[i] as u64));
        i = i + 1;
    }
    assert(texts(parts@) =~= decimals(position@));
    join(&parts, ".")
}

/// The views of nodes, in order.
pub open spec fn node_views(s: Seq<Node>) -> Seq<NodeView> {
    s.map_values(|n: Node| n.view())
}

impl LockArtifact {
    /// The nodes of the dependencies and of the exclusions.
    fn to_kdl_children(&self) -> (r: Vec<Node>)
        ensures
            node_views(r@) == artifact_children(self@),
    {
        let ghost c = artifact_children(self@);
        let mut nodes: Vec<Node> = Vec::new();
        let mut i: usize = 0;
        while i < self.dependencies.len()
            invariant
                i <= self.dependencies@.len(),
                c == artifact_children(self@),
                nodes@.len() == i,
                forall|k: int| 0 <= k < i ==> (#[trigger] nodes@[k]).view() == c[k],
            decreases self.dependencies@.len() - i,
        {
            let (coord, scope) = self.dependencies.at(i);
            nodes.push(new_node(scope.to_string(), coord.to_string()));
            i = i + 1;
        }
        let n: usize = i;
        let mut j: usize = 0;
        while j < self.exclusions.len()
            invariant
                n == self.dependencies@.len(),
                j <= self.exclusions@.len(),
                c == artifact_children(self@),
                nodes@.len() == n + j,
                forall|k: int| 0 <= k < n + j ==> (#[trigger] nodes@[k]).view() == c[k],
            decreases self.exclusions@.len() - j,
        {
            nodes.push(new_node("exclude".to_owned(), self.exclusions.at(j).to_string()));
            j = j + 1;
        }
        assert(node_views(nodes@) =~= c);
        nodes
    }

    /// The node of the artifact.
    pub fn to_kdl_node(&self) -> (r: Node)
        ensures
            r.view() == artifact_node(self@),
    {
        let mut entries: Vec<Entry> = Vec::new();
        entries.push(Entry { name: None, value: Value::Text(self.coord.to_string()) });
        entries.push(new_prop("source", self.source.clone()));
        entries.push(new_prop("path", self.artifact_path.clone()));
        entries.push(new_prop("checksum", self.checksum.to_string()));
        entries.push(new_prop("scope", self.effective_scope.to_string()));
        entries.push(Entry { name: Some("depth".to_owned()), value: Value::Integer(self.depth as i128) });
        assert(views(entries@) =~= fixed_entries(self@));
        if self.position.len() > 0 {
            let ghost before = entries@;
            entries.push(new_prop("position", position_text(&self.position)));
            assert(views(entries@) =~= views(before).push(entries@.last()@));
        }
        assert(views(entries@) == placed_entries(self@));
        if let Some(c) = &self.classifier {
            let ghost before = entries@;
            entries.push(new_prop("classifier", c.clone()));
            assert(views(entries@) =~= views(before).push(entries@.last()@));
        }
        assert(views(entries@) == classified_entries(self@));
        if !same(self.artifact_type.extension(), "jar") {
            let ghost before = entries@;
            entries.push(new_prop("type", self.artifact_type.extension().to_owned()));
            assert(views(entries@) =~= views(before).push(entries@.last()@));
        }
        let children = if self.dependencies.len() > 0 || self.exclusions.len() > 0 {
            Some(Document { nodes: self.to_kdl_children() })
        } else {
            None
        };
        let node = Node { name: "artifact".to_owned(), entries, children };
        proof {
            children_view(node);
            if node.children is Some {
                assert(node.children->Some_0.view() =~= artifact_children(self@));
            }
            assert(node.view().entries =~= views(entries@));
        }
        node
    }
}

impl LocalArtifact {
    /// The node of the artifact.
    pub fn to_kdl_node(&self) -> (r: Node)
        ensures
            r.view() == local_node(self@),
    {
        let mut entries: Vec<Entry> = Vec::new();
        entries.push(new_prop("path", self.path.clone()));
        entries.push(new_prop("checksum", self.checksum.to_string()));
        let node = Node { name: "local".to_owned(), entries, children: None };
        assert(node.view().entries =~= local_node(self@).entries);
        node
    }
}

fn repositories_node(urls: &OrdSet<String>) -> (r: Node)
    requires
        urls@.len() > 0,
    ensures
        seq![r.view()] == repository_nodes(urls@),
{
    let mut nodes: Vec<Node> = Vec::new();
    let mut i: usize = 0;
    while i < urls.len()
        invariant
            i <= urls@.len(),
            nodes@.len() == i,
            forall|k: int| 0 <= k < i ==> (#[trigger] nodes@[k]).view() == bare_node(urls@[k]),
        decreases urls@.len() - i,
    {
        let none: Vec<Entry> = Vec::new();
        let node = Node { name: urls.at(i).clone(), entries: none, children: None };
        assert(node.view().entries =~= Seq::empty());
        nodes.push(node);
        i = i + 1;
    }
    let none: Vec<Entry> = Vec::new();
    let children = Document { nodes };
    let node = Node { name: "repositories".to_owned(), entries: none, children: Some(children) };
    proof {
        children_view(node);
        assert(node.view().entries =~= Seq::empty());
        assert(children.view() =~= urls@.map_values(|u: Seq<char>| bare_node(u)));
        assert(seq![node.view()] =~= repository_nodes(urls@));
    }
    node
}

impl Lock {
    /// The document of the lock.
    pub fn to_document(&self) -> (r: Document)
        ensures
            r.view() == lock_document(self@),
    {
        let ghost d = lock_document(self@);
        let ghost repos = repository_nodes(self@.repositories);
        let mut nodes: Vec<Node> = Vec::new();
        nodes.push(new_node("version".to_owned(), self.version.clone()));
        if self.repositories.len() > 0 {
            let node = repositories_node(&self.repositories);
            assert(repos[0] == node.view());
            nodes.push(node);
        }
        let start: usize = nodes.len();
        assert(start == 1 + repos.len());
        assert forall|k: int| 0 <= k < start implies (#[trigger] nodes@[k]).view() == d[k] by {
            if k > 0 {
                assert(d[k] == repos[k - 1]);
            }
        }
        let mut i: usize = 0;
        while i < self.artifacts.len()
            invariant
                i <= self.artifacts@.len(),
                d == lock_document(self@),
                start == 1 + repository_nodes(self@.repositories).len(),
                nodes@.len() == start + i,
                forall|k: int| 0 <= k < start + i ==> (#[trigger] nodes@[k]).view() == d[k],
            decreases self.artifacts@.len() - i,
        {
            nodes.push(self.artifacts.at(i).to_kdl_node());
            assert(d[start + i] == artifact_node(self@.artifacts[i as int]));
            i = i + 1;
        }
        let n: usize = i;
        let mut j: usize = 0;
        while j < self.local.len()
            invariant
                j <= self.local@.len(),
                n == self.artifacts@.len(),
                d == lock_document(self@),
                start == 1 + repository_nodes(self@.repositories).len(),
                nodes@.len() == start + n + j,
                forall|k: int| 0 <= k < start + n + j ==> (#[trigger] nodes@[k]).view() == d[k],
            decreases self.local@.len() - j,
        {
            nodes.push(self.local.at(j).to_kdl_node());
            assert(d[start + n + j] == local_node(self@.local[j as int]));
            j = j + 1;
        }
        let doc = Document { nodes };
        assert(doc.view() =~= d);
        doc
    }

    /// Writes the lock. Where the lock and its texts survive the way through KDL,
    /// `Lock::parse` reads back what was written, unless it refuses an exclusion.
    pub fn to_kdl(&self) -> (r: String)
        ensures
            r@ == crate::document::kdl_format(lock_document(self@)),
            lock_in_form(self@) && kdl_nodes(lock_document(self@)) ==> {
                &&& kdl_parse(r@) == Some(lock_document(self@))
                &&& forall|vss: Seq<Seq<GlobVerdict>>| #[trigger]
                    honest_children(lock_document(self@), vss) ==> {
                        &&& back_or_refused(lock_given(lock_document(self@), vss), self@)
                        &&& lock_accepted(lock_document(self@), vss) ==> lock_given(lock_document(self@), vss) is Ok
                    }
            },
            lock_survives(self@) && kdl_nodes(lock_document(self@)) ==> {
                &&& portable_lock(lock_document(self@))
                &&& lock_text_spec(r@) == Ok::<LockView, LockFault<Seq<char>>>(self@)
            },
    {
        proof {
            if lock_in_form(self@) {
                assert forall|vss: Seq<Seq<GlobVerdict>>| #[trigger]
                    honest_children(lock_document(self@), vss) implies {
                    &&& back_or_refused(lock_given(lock_document(self@), vss), self@)
                    &&& lock_accepted(lock_document(self@), vss) ==> lock_given(lock_document(self@), vss) is Ok
                } by {
                    lock_round_trip(self@, vss);
                }
            }
            if lock_survives(self@) {
                portable_lock_round_trip(self@);
            }
        }
        self.to_document().format()
    }
}

} // verus!
