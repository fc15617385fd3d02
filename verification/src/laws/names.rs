//! Laws of the names of artifacts, of patterns, and of the order in which things are kept.
use vstd::prelude::*;
use crate::laws::texts::splitting_once_keeps_all;
use crate::maven::loader::{classifier_or_implied, nearer, ticket_spec, LoadView, RankView};
use crate::manifest::{mediate_spec, scope_rank, PomScope, Scope};
use crate::order::{
    less, less_irreflexive, put, put_all, put_keeps_order, sorted, text_code, text_code_parts, Ranked,
};
use crate::text::{find_char_at, replace_char_spec, rfind_char_at};
use crate::types::{
    coord_spec, coord_text, extension_spec, implied_spec, key_text, pattern_given, pattern_parts, ArtifactCoordinates,
    CoordError, CoordView, KeyView, PatternError, PatternView,
};

verus! {

/// Coordinates are a group, a name and a version with colons between them: the group goes up to
/// the first colon, with dots for slashes, and the version begins after the last. Less than two
/// colons make no coordinates.
pub proof fn coordinates_have_three_parts(group: Seq<char>, artifact: Seq<char>, version: Seq<char>, s: Seq<char>)
    requires
        !group.contains(':'),
        !version.contains(':'),
    ensures
        coord_spec(group + ":"@ + artifact + ":"@ + version) == Ok::<CoordView, CoordError>(
            CoordView { group: replace_char_spec(group, '/', '.'), artifact, version },
        ),
        coord_text(CoordView { group, artifact, version }) == group + ":"@ + artifact + ":"@ + version,
        !s.contains(':') ==> coord_spec(s) == Err::<CoordView, CoordError>(CoordError::MissingColon),
        !s.contains(':') ==> coord_spec(s + ":"@ + version) == Err::<CoordView, CoordError>(
            CoordError::MissingSecondColon,
        ),
{
    reveal_strlit(":");
    assert(":"@ =~= seq![':']);
    let t = group + seq![':'] + artifact + seq![':'] + version;
    colon_is_found(group, artifact + seq![':'] + version);
    assert(t =~= group + seq![':'] + (artifact + seq![':'] + version));
    last_colon_is_found(artifact, version);
    splitting_once_keeps_all(s, ':');
    if !s.contains(':') {
        colon_is_found(s, version);
        splitting_once_keeps_all(version, ':');
    }
}

proof fn colon_is_found(a: Seq<char>, b: Seq<char>)
    requires
        !a.contains(':'),
    ensures
        crate::text::split_once_spec(a + seq![':'] + b, ':') == Some((a, b)),
{
    let s = a + seq![':'] + b;
    let n = a.len() as int;
    assert(s[n] == ':');
    assert forall|k: int| 0 <= k < n implies s[k] != ':' by {
        assert(a.contains(a[k]));
    }
    find_char_at(s, ':', 0, n);
    assert(s.take(n) =~= a);
    assert(s.skip(n + 1) =~= b);
}

proof fn last_colon_is_found(a: Seq<char>, b: Seq<char>)
    requires
        !b.contains(':'),
    ensures
        crate::text::rsplit_once_spec(a + seq![':'] + b, ':') == Some((a, b)),
{
    let s = a + seq![':'] + b;
    let n = a.len() as int;
    assert(s[n] == ':');
    assert forall|k: int| n < k < s.len() implies s[k] != ':' by {
        assert(s[k] == b[k - n - 1]);
        assert(b.contains(b[k - n - 1]));
    }
    rfind_char_at(s, ':', s.len() as int, n);
    assert(s.take(n) =~= a);
    assert(s.skip(n + 1) =~= b);
}

/// A pattern is two globs with a colon between them, the first one for the group, with dots for
/// slashes. It is refused for the first glob that is not accepted, and where there is no colon.
pub proof fn patterns_have_two_globs(group: Seq<char>, artifact: Seq<char>, s: Seq<char>, a: bool, b: bool)
    requires
        !group.contains(':'),
    ensures
        pattern_given(group + ":"@ + artifact, true, true) == Ok::<PatternView, PatternError>(
            PatternView { group: replace_char_spec(group, '/', '.'), artifact },
        ),
        pattern_given(group + ":"@ + artifact, false, b) == Err::<PatternView, PatternError>(
            PatternError::InvalidGroup,
        ),
        pattern_given(group + ":"@ + artifact, true, false) == Err::<PatternView, PatternError>(
            PatternError::InvalidArtifact,
        ),
        !s.contains(':') ==> pattern_given(s, a, b) == Err::<PatternView, PatternError>(PatternError::MissingColon),
{
    reveal_strlit(":");
    assert(":"@ =~= seq![':']);
    colon_is_found(group, artifact);
    splitting_once_keeps_all(s, ':');
}

/// Types that are packed as archives of Java have the extension `jar`, and any other type its own
/// name. Four of them imply a classifier.
pub proof fn types_have_extensions(t: Seq<char>)
    ensures
        t == "test-jar"@ || t == "maven-plugin"@ || t == "ejb"@ || t == "ejb-client"@ || t == "java-source"@ || t
            == "javadoc"@ ==> extension_spec(t) == "jar"@,
        t != "test-jar"@ && t != "maven-plugin"@ && t != "ejb"@ && t != "ejb-client"@ && t != "java-source"@ && t
            != "javadoc"@ ==> extension_spec(t) == t,
        implied_spec("test-jar"@) == Some("tests"@),
        implied_spec("ejb-client"@) == Some("client"@),
        implied_spec("java-source"@) == Some("sources"@),
        implied_spec("javadoc"@) == Some("javadoc"@),
        t != "test-jar"@ && t != "ejb-client"@ && t != "java-source"@ && t != "javadoc"@ ==> implied_spec(t) is None,
{
    reveal_strlit("test-jar");
    reveal_strlit("ejb-client");
    reveal_strlit("java-source");
    reveal_strlit("javadoc");
    assert("test-jar"@.len() == 8 && "ejb-client"@.len() == 10 && "java-source"@.len() == 11 && "javadoc"@.len() == 7);
}

/// A key is a group, a name and a type, and a classifier where there is one, with colons between
/// them. The version plays no part in it: two versions of an artifact share one slot.
pub proof fn versions_share_a_slot(a: LoadView, b: LoadView, k: KeyView)
    ensures
        a.coord.group == b.coord.group && a.coord.artifact == b.coord.artifact && a.artifact_type == b.artifact_type
            && a.classifier == b.classifier ==> ticket_spec(a).key == ticket_spec(b).key,
        ticket_spec(a).key.group == a.coord.group,
        ticket_spec(a).key.artifact == a.coord.artifact,
        ticket_spec(a).key.artifact_type == a.artifact_type,
        a.classifier is Some ==> ticket_spec(a).key.classifier == a.classifier,
        a.classifier is None ==> ticket_spec(a).key.classifier == implied_spec(a.artifact_type),
        ticket_spec(a).classifier == ticket_spec(a).key.classifier,
        ticket_spec(a).rank == (RankView { depth: a.branch.depth, position: a.branch.position }),
        k.classifier is None ==> key_text(k) == k.group + ":"@ + k.artifact + ":"@ + k.artifact_type,
        k.classifier is Some ==> key_text(k) == k.group + ":"@ + k.artifact + ":"@ + k.artifact_type + ":"@
            + k.classifier->Some_0,
{
    reveal_strlit(":");
    assert(":"@ =~= seq![':']);
}

/// What a `compile` dependency needs to run is needed to run; all else is needed in the scope of
/// what needs it. From `compile` on, scopes reach less and less far.
pub proof fn scopes_are_handed_on(s: Scope)
    ensures
        mediate_spec(s, PomScope::Compile) == s,
        mediate_spec(Scope::Compile, PomScope::Runtime) == Scope::Runtime,
        s != Scope::Compile ==> mediate_spec(s, PomScope::Runtime) == s,
        scope_rank(Scope::Compile) > scope_rank(Scope::Runtime) > scope_rank(Scope::Provided) > scope_rank(Scope::Test),
        scope_rank(Scope::Provided) == scope_rank(Scope::Processor),
{
}

proof fn first_number_decides(p: Seq<u64>, a: Seq<u64>, b: Seq<u64>)
    ensures
        less(p + a, p + b) == less(a, b),
    decreases p.len(),
{
    if p.len() == 0 {
        assert(p + a =~= a);
        assert(p + b =~= b);
    } else {
        assert((p + a).drop_first() =~= p.drop_first() + a);
        assert((p + b).drop_first() =~= p.drop_first() + b);
        first_number_decides(p.drop_first(), a, b);
    }
}

/// Texts are kept in the order of the dictionary: the first character in which they differ
/// decides, and what is the beginning of another comes before it.
pub proof fn texts_are_ordered(p: Seq<char>, x: char, y: char, a: Seq<char>, b: Seq<char>)
    ensures
        x < y ==> less(text_code(p + seq![x] + a), text_code(p + seq![y] + b)),
        less(text_code(p), text_code(p + seq![y] + b)),
{
    let c = p.map_values(|c: char| (c as u32 + 1) as u64);
    let u = text_code(seq![x] + a);
    let v = text_code(seq![y] + b);
    assert(text_code(p + seq![x] + a) =~= c + u);
    assert(text_code(p + seq![y] + b) =~= c + v);
    assert(text_code(p) =~= c + seq![0u64]);
    first_number_decides(c, u, v);
    first_number_decides(c, seq![0u64], v);
    broadcast use vstd::utf8::char_is_scalar;
    vstd::utf8::char_u32_cast(x, x as u32);
    vstd::utf8::char_u32_cast(y, y as u32);
    assert(u[0] == x as u32 + 1);
    assert(v[0] == y as u32 + 1);
}

/// Coordinates are kept by group, then by name, then by version.
pub proof fn coordinates_are_ordered(a: CoordView, b: CoordView)
    ensures
        a.group == b.group && a.artifact == b.artifact ==> less(
            ArtifactCoordinates::code(a),
            ArtifactCoordinates::code(b),
        ) == less(text_code(a.version), text_code(b.version)),
        a.group == b.group && less(text_code(a.artifact), text_code(b.artifact)) ==> less(
            ArtifactCoordinates::code(a),
            ArtifactCoordinates::code(b),
        ),
        less(text_code(a.group), text_code(b.group)) ==> less(
            ArtifactCoordinates::code(a),
            ArtifactCoordinates::code(b),
        ),
{
    let (g, h) = (text_code(a.group), text_code(b.group));
    let (m, n) = (text_code(a.artifact), text_code(b.artifact));
    let (v, w) = (text_code(a.version), text_code(b.version));
    assert(ArtifactCoordinates::code(a) =~= g + (m + v));
    assert(ArtifactCoordinates::code(b) =~= h + (n + w));
    first_number_decides(g, m + v, m + w);
    first_number_decides(m, v, w);
    first_number_decides(g, m + v, n + w);
    if less(m, n) {
        texts_decide(a.artifact, b.artifact, v, w);
    }
    if less(g, h) {
        texts_decide(a.group, b.group, m + v, n + w);
    }
}

proof fn texts_decide(a: Seq<char>, b: Seq<char>, x: Seq<u64>, y: Seq<u64>)
    requires
        less(text_code(a), text_code(b)),
    ensures
        less(text_code(a) + x, text_code(b) + y),
    decreases a.len(),
{
    let s = text_code(a);
    let t = text_code(b);
    assert((s + x)[0] == s[0]);
    assert((t + y)[0] == t[0]);
    if s[0] == t[0] {
        if a.len() > 0 && b.len() > 0 {
            assert(s.drop_first() =~= text_code(a.drop_first()));
            assert(t.drop_first() =~= text_code(b.drop_first()));
            texts_decide(a.drop_first(), b.drop_first(), x, y);
            assert((s + x).drop_first() =~= text_code(a.drop_first()) + x);
            assert((t + y).drop_first() =~= text_code(b.drop_first()) + y);
        } else {
            broadcast use vstd::utf8::char_is_scalar;
            if a.len() > 0 {
                vstd::utf8::char_u32_cast(a[0], a[0] as u32);
                assert(s[0] == a[0] as u32 + 1);
                assert(t[0] == 0);
            } else if b.len() > 0 {
                vstd::utf8::char_u32_cast(b[0], b[0] as u32);
                assert(t[0] == b[0] as u32 + 1);
                assert(s[0] == 0);
            } else {
                assert(a =~= b);
                less_irreflexive(s);
            }
        }
    }
}

/// A rank is nearer where it is at less depth, or at the same depth and, at the first place in
/// which they differ, before the other.
pub proof fn nearer_by_depth_and_then_by_place(
    a: RankView,
    b: RankView,
    p: Seq<usize>,
    x: usize,
    y: usize,
    q: Seq<usize>,
    r: Seq<usize>,
)
    ensures
        a.depth < b.depth ==> nearer(a, b),
        a.depth > b.depth ==> !nearer(a, b),
        a.depth == b.depth && a.position == p + seq![x] + q && b.position == p + seq![y] + r && x < y ==> nearer(a, b),
        a.depth == b.depth && a.position == p && b.position == p + seq![y] + r ==> nearer(a, b),
        a.depth == b.depth && a.position == b.position ==> !nearer(a, b),
{
    let f = |n: usize| n as u64;
    let c = seq![a.depth as u64] + p.map_values(f);
    let u = crate::maven::loader::rank_code(a);
    let v = crate::maven::loader::rank_code(b);
    assert(u[0] == a.depth as u64 && v[0] == b.depth as u64);
    if a.depth == b.depth {
        if a.position == p + seq![x] + q && b.position == p + seq![y] + r && x < y {
            let s = seq![x as u64] + q.map_values(f);
            let t = seq![y as u64] + r.map_values(f);
            assert(u =~= c + s);
            assert(v =~= c + t);
            first_number_decides(c, s, t);
        }
        if a.position == p && b.position == p + seq![y] + r {
            let t = seq![y as u64] + r.map_values(f);
            assert(u =~= c + Seq::<u64>::empty());
            assert(v =~= c + t);
            first_number_decides(c, Seq::empty(), t);
        }
        if a.position == b.position {
            less_irreflexive(u);
        }
    }
}

/// The texts of a list, as a set: each of them is there, and nothing else, in order.
pub proof fn set_holds_each_text(xs: Seq<Seq<char>>, x: Seq<char>)
    ensures
        sorted::<String>(put_all::<String>(xs)),
        put_all::<String>(xs).contains(x) <==> xs.contains(x),
    decreases xs.len(),
{
    if xs.len() > 0 {
        let d = xs.drop_last();
        let l = xs.last();
        let q = put_all::<String>(d);
        let r = put_all::<String>(xs);
        set_holds_each_text(d, x);
        set_holds_each_text(d, l);
        put_keeps_order::<String>(q, l);
        assert(xs[xs.len() - 1] == l);
        let k = choose|k: int| 0 <= k < r.len() && String::code(#[trigger] r[k]) == String::code(l);
        let e = Seq::<u64>::empty();
        assert(text_code(r[k]) + e =~= text_code(r[k]));
        assert(text_code(l) + e =~= text_code(l));
        text_code_parts(r[k], l, e, e);
        assert(r.contains(l));
        if xs.contains(x) {
            let i = choose|i: int| 0 <= i < xs.len() && xs[i] == x;
            if i < d.len() {
                assert(d[i] == x);
                assert(d.contains(x));
                assert(q.contains(x));
            }
        }
        if r.contains(x) && x != l {
            assert(q.contains(x));
            let i = choose|i: int| 0 <= i < d.len() && d[i] == x;
            assert(xs[i] == x);
        }
    }
}

} // verus!
