//! Laws of what a manifest says, and of what it means where it says nothing.
use vstd::prelude::*;
use crate::document::{
    args_of, find_node, first_arg, node_arg, prop_of, text_of, texts_among, EntryView, NodeView, ValueView,
};
use crate::manifest::lock::{depth_of, lock_scope, position_of};
use crate::manifest::{
    all_text_args, attributes_of, bool_of, build_spec, child_text, children_or_none, coords_of, dependencies_given,
    dependency_given, dependency_nodes, enabled, excludes_given, java_spec, listed_repos, manifest_given, names_central,
    optional_text, placed_manifest, policy_of, policy_spec, release_of, repo_of, repos_spec, required_text, scope_of,
    source_spec, strategy_of, test_spec, BuildView, ChecksumPolicy, DepView, JavaView, ManifestFault, ManifestView,
    Packaging, RepoStrategy, RepoView, Scope, SourceView, TestView,
};
use crate::order::{put, put_keeps_order, sorted, text_code, text_code_parts, Ranked};
use crate::paths::placed;
use crate::text::number_spec;
use crate::types::{
    coord_spec, pattern_given, pattern_parts, pattern_round_trip, pattern_text, pattern_wf, CoordError, CoordView,
    ExclusionPattern, GlobVerdict, PatternError, PatternView,
};

verus! {

/// The node of a name is the first of that name, and nothing where there is none.
pub proof fn first_node_counts(d: Seq<NodeView>, name: Seq<char>)
    ensures
        match find_node(d, name) {
            Some(n) => n.name == name && exists|k: int|
                0 <= k < d.len() && #[trigger] d[k] == n && forall|l: int|
                    0 <= l < k ==> (#[trigger] d[l]).name != name,
            None => forall|l: int| 0 <= l < d.len() ==> (#[trigger] d[l]).name != name,
        },
    decreases d.len(),
{
    if d.len() > 0 {
        let e = d.drop_first();
        first_node_counts(e, name);
        assert(forall|l: int| 0 < l < d.len() ==> #[trigger] d[l] == e[l - 1]);
        if d[0].name != name {
            if let Some(n) = find_node(e, name) {
                let k = choose|k: int|
                    0 <= k < e.len() && #[trigger] e[k] == n && forall|l: int|
                        0 <= l < k ==> (#[trigger] e[l]).name != name;
                assert(d[k + 1] == n);
                assert forall|l: int| 0 <= l < k + 1 implies (#[trigger] d[l]).name != name by {
                    if l > 0 {
                        assert(d[l] == e[l - 1]);
                    }
                }
            }
        } else {
            assert(d[0] == find_node(d, name)->Some_0);
        }
    }
}

/// The arguments of a node are its entries without a name, in order. A property is the last entry
/// of its name.
pub proof fn entries_are_arguments_and_properties(es: Seq<EntryView>, name: Seq<char>)
    ensures
        args_of(es) == es.filter(|e: EntryView| e.name is None).map_values(|e: EntryView| e.value),
        match prop_of(es, name) {
            Some(v) => exists|k: int|
                0 <= k < es.len() && (#[trigger] es[k]).name == Some(name) && es[k].value == v && forall|l: int|
                    k < l < es.len() ==> (#[trigger] es[l]).name != Some(name),
            None => forall|l: int| 0 <= l < es.len() ==> (#[trigger] es[l]).name != Some(name),
        },
    decreases es.len(),
{
    reveal(Seq::filter);
    if es.len() > 0 {
        let d = es.drop_last();
        let n = es.len() - 1;
        entries_are_arguments_and_properties(d, name);
        assert(es[n] == es.last());
        assert(forall|l: int| 0 <= l < n ==> #[trigger] es[l] == d[l]);
        if es.last().name != Some(name) {
            if let Some(v) = prop_of(d, name) {
                let k = choose|k: int|
                    0 <= k < d.len() && (#[trigger] d[k]).name == Some(name) && d[k].value == v && forall|l: int|
                        k < l < d.len() ==> (#[trigger] d[l]).name != Some(name);
                assert(es[k] == d[k]);
                assert forall|l: int| k < l < es.len() implies (#[trigger] es[l]).name != Some(name) by {
                    if l < n {
                        assert(es[l] == d[l]);
                    }
                }
            }
        }
    }
    assert(args_of(es) =~= es.filter(|e: EntryView| e.name is None).map_values(|e: EntryView| e.value));
}

/// The texts among values are all of them, in order.
pub proof fn texts_are_picked(vs: Seq<ValueView>)
    ensures
        texts_among(vs) == vs.filter(|v: ValueView| v is Text).map_values(|v: ValueView| v->Text_0),
    decreases vs.len(),
{
    reveal(Seq::filter);
    if vs.len() > 0 {
        texts_are_picked(vs.drop_last());
    }
    assert(texts_among(vs) =~= vs.filter(|v: ValueView| v is Text).map_values(|v: ValueView| v->Text_0));
}

/// What several nodes of a name list is what each of them lists, one after the other. Nodes of
/// other names count nothing.
pub proof fn lists_are_joined(a: Seq<NodeView>, b: Seq<NodeView>, n: NodeView, name: Seq<char>)
    ensures
        all_text_args(a + b, name) == all_text_args(a, name) + all_text_args(b, name),
        all_text_args(seq![n], name) == if n.name == name {
            n.entries.filter(|e: EntryView| e.name is None).map_values(|e: EntryView| e.value).filter(
                |v: ValueView| v is Text,
            ).map_values(|v: ValueView| v->Text_0)
        } else {
            Seq::empty()
        },
    decreases b.len(),
{
    let one = seq![n];
    assert(one.drop_last() =~= Seq::empty());
    assert(all_text_args(one.drop_last(), name) == Seq::<Seq<char>>::empty());
    entries_are_arguments_and_properties(n.entries, name);
    texts_are_picked(args_of(n.entries));
    assert(all_text_args(one, name) =~= if n.name == name { texts_among(args_of(n.entries)) } else { Seq::empty() });
    if b.len() == 0 {
        assert(a + b =~= a);
        assert(all_text_args(a, name) + all_text_args(b, name) =~= all_text_args(a, name));
    } else {
        lists_are_joined(a, b.drop_last(), n, name);
        assert((a + b).drop_last() =~= a + b.drop_last());
        assert(all_text_args(a + b, name) =~= all_text_args(a, name) + all_text_args(b, name));
    }
}

/// Whether a node is switched off.
pub open spec fn is_switched_off(n: NodeView) -> bool {
    prop_of(n.entries, "enabled"@) == Some(ValueView::Bool(false)) || prop_of(n.entries, "enabled"@) == Some(
        ValueView::Text("false"@),
    )
}

/// The policy that a node states: `fail`, unless it states one of the others.
pub open spec fn stated_policy(n: NodeView, p: ChecksumPolicy) -> bool {
    let s = prop_of(n.entries, "checksum-policy"@);
    &&& s == Some(ValueView::Text("required"@)) <==> p == ChecksumPolicy::Required
    &&& s == Some(ValueView::Text("warn"@)) <==> p == ChecksumPolicy::Warn
    &&& s == Some(ValueView::Text("ignore"@)) <==> p == ChecksumPolicy::Ignore
}

/// A repository has the policy that it states, and is switched off only where it says so. Race is
/// the strategy unless `sequential` is stated.
pub proof fn repository_is_as_it_states(n: NodeView)
    ensures
        stated_policy(n, policy_of(n)),
        enabled(n) <==> !is_switched_off(n),
        repo_of(n).checksum_policy == policy_of(n),
        n.name == "central"@ ==> repo_of(n).url == "https://repo1.maven.org/maven2"@,
        n.name != "central"@ ==> repo_of(n).url == n.name,
        prop_of(n.entries, "strategy"@) == Some(ValueView::Text("sequential"@)) <==> strategy_of(n)
            == RepoStrategy::Sequential,
        bool_of(Some(ValueView::Bool(true))) == Some(true),
        bool_of(Some(ValueView::Text("true"@))) == Some(true),
{
    reveal_strlit("required");
    reveal_strlit("warn");
    reveal_strlit("ignore");
    reveal_strlit("true");
    reveal_strlit("false");
    assert("required"@.len() == 8 && "warn"@.len() == 4 && "ignore"@.len() == 6);
    assert("true"@.len() == 4 && "false"@.len() == 5);
}

/// All repositories that are not switched off are searched, in the order in which they are
/// declared, after Maven Central, which comes first unless it is declared itself. Without any
/// declared there is Maven Central alone.
pub proof fn declared_repositories_are_searched(d: Seq<NodeView>)
    ensures
        match find_node(d, "repositories"@) {
            None => repos_spec(d).strategy == RepoStrategy::Race && repos_spec(d).entries == seq![
                RepoView { url: "https://repo1.maven.org/maven2"@, checksum_policy: ChecksumPolicy::Fail },
            ],
            Some(n) => {
                let c = children_or_none(n);
                let listed = c.filter(|m: NodeView| !is_switched_off(m)).map_values(|m: NodeView| repo_of(m));
                &&& repos_spec(d).strategy == strategy_of(n)
                &&& (exists|i: int| 0 <= i < c.len() && (#[trigger] c[i]).name == "central"@) ==> repos_spec(d).entries
                    == listed
                &&& (forall|i: int| 0 <= i < c.len() ==> (#[trigger] c[i]).name != "central"@) ==> repos_spec(d).entries
                    == seq![
                    RepoView { url: "https://repo1.maven.org/maven2"@, checksum_policy: ChecksumPolicy::Fail },
                ] + listed
            },
        },
{
    if let Some(n) = find_node(d, "repositories"@) {
        let c = children_or_none(n);
        listed_repositories(c);
        let listed = c.filter(|m: NodeView| !is_switched_off(m)).map_values(|m: NodeView| repo_of(m));
        if n.children is None {
            assert(c.len() == 0);
            assert(listed_repos(c) == Seq::<RepoView>::empty());
            assert(seq![RepoView { url: "https://repo1.maven.org/maven2"@, checksum_policy: ChecksumPolicy::Fail }] + listed
                =~= seq![RepoView { url: "https://repo1.maven.org/maven2"@, checksum_policy: ChecksumPolicy::Fail }]);
        }
    }
}

proof fn listed_repositories(c: Seq<NodeView>)
    ensures
        listed_repos(c) == c.filter(|m: NodeView| !is_switched_off(m)).map_values(|m: NodeView| repo_of(m)),
    decreases c.len(),
{
    reveal(Seq::filter);
    if c.len() > 0 {
        listed_repositories(c.drop_last());
        repository_is_as_it_states(c.last());
    }
    assert(listed_repos(c) =~= c.filter(|m: NodeView| !is_switched_off(m)).map_values(|m: NodeView| repo_of(m)));
}

/// The policy of an address is that of the first repository with it, and the default where there
/// is none.
pub proof fn first_policy_counts(entries: Seq<RepoView>, url: Seq<char>, i: int)
    ensures
        0 <= i < entries.len() && entries[i].url == url && (forall|l: int|
            0 <= l < i ==> (#[trigger] entries[l]).url != url) ==> policy_spec(entries, url)
            == entries[i].checksum_policy,
        (forall|l: int| 0 <= l < entries.len() ==> (#[trigger] entries[l]).url != url) ==> policy_spec(entries, url)
            == ChecksumPolicy::Fail,
    decreases entries.len(),
{
    if entries.len() > 0 {
        let d = entries.drop_first();
        first_policy_counts(d, url, i - 1);
        assert(forall|l: int| 0 < l < entries.len() ==> #[trigger] entries[l] == d[l - 1]);
        if 0 < i < entries.len() && entries[i].url == url && (forall|l: int|
            0 <= l < i ==> (#[trigger] entries[l]).url != url) {
            assert(entries[0].url != url);
            assert forall|l: int| 0 <= l < i - 1 implies (#[trigger] d[l]).url != url by {
                assert(entries[l + 1] == d[l]);
            }
        }
        if forall|l: int| 0 <= l < entries.len() ==> (#[trigger] entries[l]).url != url {
            assert(entries[0].url != url);
            assert forall|l: int| 0 <= l < d.len() implies (#[trigger] d[l]).url != url by {
                assert(entries[l + 1] == d[l]);
            }
        }
    }
}

/// Each entry of an archive's manifest that has a text is there, in order, and no other.
pub proof fn entries_with_a_text_are_there(c: Seq<NodeView>)
    ensures
        attributes_of(c) == c.filter(|n: NodeView| first_arg(n) is Some && first_arg(n)->Some_0 is Text).map_values(
            |n: NodeView| (n.name, first_arg(n)->Some_0->Text_0),
        ),
    decreases c.len(),
{
    reveal(Seq::filter);
    if c.len() > 0 {
        entries_with_a_text_are_there(c.drop_last());
    }
    assert(attributes_of(c) =~= c.filter(
        |n: NodeView| first_arg(n) is Some && first_arg(n)->Some_0 is Text,
    ).map_values(|n: NodeView| (n.name, first_arg(n)->Some_0->Text_0)));
}

/// The coordinates of the dependencies that come from a repository are all of them, in order.
pub proof fn all_coordinates_are_there(deps: Seq<DepView>)
    ensures
        coords_of(deps) == deps.filter(|d: DepView| d.source is Id).map_values(|d: DepView| d.source->Id_0),
    decreases deps.len(),
{
    reveal(Seq::filter);
    if deps.len() > 0 {
        all_coordinates_are_there(deps.drop_last());
    }
    assert(coords_of(deps) =~= deps.filter(|d: DepView| d.source is Id).map_values(|d: DepView| d.source->Id_0));
}

/// Whether a word names a scope.
pub open spec fn names_scope(word: Seq<char>, s: Scope) -> bool {
    match s {
        Scope::Compile => word == "compile"@,
        Scope::Runtime => word == "runtime"@,
        Scope::Provided => word == "provided"@,
        Scope::Processor => word == "processor"@,
        Scope::Test => word == "test"@,
    }
}

/// A word names one of five scopes, or none.
pub proof fn five_words_name_scopes(word: Seq<char>, s: Scope)
    ensures
        scope_of(word) == Some(s) <==> names_scope(word, s),
{
    crate::manifest::scope_words();
    reveal_strlit("compile");
    reveal_strlit("runtime");
    reveal_strlit("provided");
    reveal_strlit("processor");
    reveal_strlit("test");
    assert("compile"@[0] != "runtime"@[0]);
    assert("provided"@.len() == 8 && "processor"@.len() == 9 && "test"@.len() == 4 && "compile"@.len() == 7);
}

/// Whether a node says where a dependency comes from: from a file, where it has a path, and else
/// from a repository, under the coordinates that are its argument.
pub open spec fn comes_from_there(n: NodeView, s: SourceView) -> bool {
    match s {
        SourceView::Path(p) => prop_of(n.entries, "path"@) == Some(ValueView::Text(p)),
        SourceView::Id(c) => prop_of(n.entries, "path"@) is None && first_arg(n) is Some && first_arg(n)->Some_0
            is Text && coord_spec(first_arg(n)->Some_0->Text_0) == Ok::<CoordView, CoordError>(c),
    }
}

/// Whether a node says what a dependency is, given what it excludes. The type is `jar` unless it
/// says otherwise.
pub open spec fn declares(n: NodeView, d: DepView) -> bool {
    &&& names_scope(n.name, d.scope)
    &&& comes_from_there(n, d.source)
    &&& d.classifier == text_of(prop_of(n.entries, "classifier"@))
    &&& match prop_of(n.entries, "type"@) {
        Some(ValueView::Text(t)) => d.artifact_type == t,
        _ => d.artifact_type == "jar"@,
    }
}

/// A node declares a dependency where its name is a scope, and it says where it comes from; its
/// children say what is excluded. It is read as just that.
pub proof fn dependency_is_as_declared(n: NodeView, vs: Seq<GlobVerdict>, d: DepView)
    ensures
        dependency_given(n, vs) == Ok::<DepView, ManifestFault<Seq<char>>>(d) <==> declares(n, d) && excludes_given(
            children_or_none(n),
            vs,
        ) == Ok::<Seq<PatternView>, ManifestFault<Seq<char>>>(d.exclusions),
        (forall|s: Scope| !#[trigger] names_scope(n.name, s)) ==> dependency_given(n, vs) == Err::<
            DepView,
            ManifestFault<Seq<char>>,
        >(ManifestFault::UnknownScope(n.name)),
{
    five_words_name_scopes(n.name, d.scope);
    if let Some(s) = scope_of(n.name) {
        five_words_name_scopes(n.name, s);
    }
    if dependency_given(n, vs) == Ok::<DepView, ManifestFault<Seq<char>>>(d) {
        assert(declares(n, d));
    }
    if declares(n, d) && excludes_given(children_or_none(n), vs) == Ok::<Seq<PatternView>, ManifestFault<Seq<char>>>(
        d.exclusions,
    ) {
        assert(source_spec(n) == Ok::<SourceView, ManifestFault<Seq<char>>>(d.source));
    }
}

/// All dependencies that a manifest declares are read, in order. Where one cannot be read, the
/// first such is what is wrong.
pub proof fn dependencies_are_as_declared(c: Seq<NodeView>, vss: Seq<Seq<GlobVerdict>>, s: Seq<DepView>)
    requires
        vss.len() <= c.len(),
    ensures
        dependencies_given(c, vss) == Ok::<Seq<DepView>, ManifestFault<Seq<char>>>(s) <==> s.len() == vss.len()
            && forall|i: int|
            0 <= i < vss.len() ==> dependency_given(#[trigger] c[i], vss[i]) == Ok::<DepView, ManifestFault<Seq<char>>>(
                s[i],
            ),
        forall|i: int|
            0 <= i < vss.len() && dependency_given(#[trigger] c[i], vss[i]) is Err && (forall|j: int|
                0 <= j < i ==> dependency_given(#[trigger] c[j], vss[j]) is Ok) ==> dependencies_given(c, vss) == Err::<
                Seq<DepView>,
                ManifestFault<Seq<char>>,
            >(dependency_given(c[i], vss[i])->Err_0),
    decreases vss.len(),
{
    if vss.len() == 0 {
        if s.len() == 0 {
            assert(s =~= Seq::empty());
        }
    } else {
        let n = vss.len() - 1;
        let before = vss.drop_last();
        assert(vss[n] == vss.last());
        assert(forall|i: int| 0 <= i < n ==> #[trigger] before[i] == vss[i]);
        let acc = dependencies_given(c, before);
        if acc is Ok {
            let u = acc->Ok_0;
            dependencies_are_as_declared(c, before, u);
            assert(forall|i: int|
                0 <= i < n ==> dependency_given(#[trigger] c[i], vss[i]) == Ok::<DepView, ManifestFault<Seq<char>>>(
                    u[i],
                ));
            assert(c[n] == c[n]);
            if dependencies_given(c, vss) == Ok::<Seq<DepView>, ManifestFault<Seq<char>>>(s) {
                let v = dependency_given(c[n], vss[n])->Ok_0;
                assert(s == u.push(v));
                assert forall|i: int| 0 <= i < vss.len() implies dependency_given(#[trigger] c[i], vss[i]) == Ok::<
                    DepView,
                    ManifestFault<Seq<char>>,
                >(s[i]) by {
                    if i < n {
                        assert(s[i] == u[i]);
                    }
                }
            }
            if s.len() == vss.len() && (forall|i: int|
                0 <= i < vss.len() ==> dependency_given(#[trigger] c[i], vss[i]) == Ok::<
                    DepView,
                    ManifestFault<Seq<char>>,
                >(s[i])) {
                assert forall|i: int| 0 <= i < n implies u[i] == s[i] by {
                    assert(dependency_given(c[i], vss[i]) == Ok::<DepView, ManifestFault<Seq<char>>>(s[i]));
                }
                assert(dependency_given(c[n], vss[n]) == Ok::<DepView, ManifestFault<Seq<char>>>(s[n]));
                assert(s =~= u.push(s[n]));
            }
        } else {
            dependencies_are_as_declared(c, before, s.drop_last());
            some_dependency_is_wrong(c, before);
            let k = choose|k: int| 0 <= k < before.len() && dependency_given(#[trigger] c[k], before[k]) is Err;
            assert(dependency_given(c[k], vss[k]) is Err);
        }
    }
}

proof fn some_dependency_is_wrong(c: Seq<NodeView>, vss: Seq<Seq<GlobVerdict>>)
    requires
        vss.len() <= c.len(),
        dependencies_given(c, vss) is Err,
    ensures
        exists|k: int| 0 <= k < vss.len() && dependency_given(#[trigger] c[k], vss[k]) is Err,
    decreases vss.len(),
{
    if vss.len() > 0 {
        let before = vss.drop_last();
        if dependencies_given(c, before) is Err {
            some_dependency_is_wrong(c, before);
            let k = choose|k: int| 0 <= k < before.len() && dependency_given(#[trigger] c[k], before[k]) is Err;
            assert(before[k] == vss[k]);
            assert(dependency_given(c[k], vss[k]) is Err);
        } else {
            let n = vss.len() - 1;
            assert(dependency_given(c[n], vss[n]) is Err);
        }
    }
}

/// What a dependency excludes is all that its children exclude, each a pattern whose globs are
/// accepted, and nothing else.
pub proof fn all_that_is_excluded_is_there(c: Seq<NodeView>, texts: Seq<PatternView>, vs: Seq<GlobVerdict>, p: PatternView)
    requires
        vs.len() == c.len(),
        texts.len() == c.len(),
        forall|i: int|
            0 <= i < c.len() ==> (#[trigger] c[i]).name == "exclude"@ && first_arg(c[i]) == Some(
                ValueView::Text(pattern_text(texts[i])),
            ) && pattern_wf(texts[i]),
    ensures
        excludes_given(c, vs) is Ok <==> forall|i: int| 0 <= i < vs.len() ==> #[trigger] vs[i] == (true, true),
        excludes_given(c, vs) matches Ok(s) ==> {
            &&& sorted::<ExclusionPattern>(s)
            &&& s.contains(p) <==> texts.contains(p)
        },
{
    excluded_so_far(c, texts, vs, p);
    if texts.contains(p) {
        let i = choose|i: int| 0 <= i < texts.len() && texts[i] == p;
    }
}

proof fn excluded_so_far(c: Seq<NodeView>, texts: Seq<PatternView>, vs: Seq<GlobVerdict>, p: PatternView)
    requires
        vs.len() <= c.len(),
        texts.len() == c.len(),
        forall|i: int|
            0 <= i < c.len() ==> (#[trigger] c[i]).name == "exclude"@ && first_arg(c[i]) == Some(
                ValueView::Text(pattern_text(texts[i])),
            ) && pattern_wf(texts[i]),
    ensures
        excludes_given(c, vs) is Ok <==> forall|i: int| 0 <= i < vs.len() ==> #[trigger] vs[i] == (true, true),
        excludes_given(c, vs) matches Ok(s) ==> {
            &&& sorted::<ExclusionPattern>(s)
            &&& s.contains(p) <==> exists|i: int| 0 <= i < vs.len() && #[trigger] texts[i] == p
            &&& forall|q: PatternView| #[trigger] s.contains(q) ==> pattern_wf(q)
        },
    decreases vs.len(),
{
    if vs.len() > 0 {
        let n = vs.len() - 1;
        let before = vs.drop_last();
        let x = texts[n];
        excluded_so_far(c, texts, before, p);
        assert(c[n].name == "exclude"@);
        assert(vs[n] == vs.last());
        assert(forall|i: int| 0 <= i < n ==> #[trigger] before[i] == vs[i]);
        pattern_round_trip(x);
        if excludes_given(c, before) is Ok {
            let q = excludes_given(c, before)->Ok_0;
            if vs.last() == (true, true) {
                assert forall|i: int| 0 <= i < vs.len() implies #[trigger] vs[i] == (true, true) by {
                    if i < n {
                        assert(before[i] == (true, true));
                    }
                }
                let s = excludes_given(c, vs)->Ok_0;
                put_keeps_order::<ExclusionPattern>(q, x);
                assert(s == put::<ExclusionPattern>(q, x));
                let k = choose|k: int|
                    0 <= k < s.len() && ExclusionPattern::code(#[trigger] s[k]) == ExclusionPattern::code(x);
                assert(s.contains(s[k]));
                if s[k] != x {
                    assert(q.contains(s[k]));
                    one_code_one_pattern(s[k], x);
                }
                assert(s.contains(x));
                if s.contains(p) && p != x {
                    assert(q.contains(p));
                }
                if q.contains(p) {
                    assert(s.contains(p));
                }
            } else {
                assert(vs[n] != (true, true));
            }
        } else {
            let i = choose|i: int| 0 <= i < before.len() && #[trigger] before[i] != (true, true);
            assert(vs[i] != (true, true));
        }
    }
}

proof fn one_code_one_pattern(p: PatternView, q: PatternView)
    requires
        pattern_wf(p),
        pattern_wf(q),
        ExclusionPattern::code(p) == ExclusionPattern::code(q),
    ensures
        p == q,
{
    let e = Seq::<u64>::empty();
    let a = pattern_text(p);
    let b = pattern_text(q);
    assert(text_code(a) + e =~= text_code(a));
    assert(text_code(b) + e =~= text_code(b));
    text_code_parts(a, b, e, e);
    pattern_round_trip(p);
    pattern_round_trip(q);
}

/// The text that the first node of a name gives, where it gives one.
pub open spec fn given_text(d: Seq<NodeView>, name: Seq<char>) -> Option<Seq<char>> {
    match find_node(d, name) {
        Some(n) => match first_arg(n) {
            Some(ValueView::Text(s)) => Some(s),
            _ => None,
        },
        None => None,
    }
}

/// The text that a node gives below a name, where it gives one.
pub open spec fn given_below(n: NodeView, name: Seq<char>) -> Option<Seq<char>> {
    match n.children {
        Some(c) => given_text(c, name),
        None => None,
    }
}

/// Whether a text is the one that is given, or the default where none is.
pub open spec fn given_or(t: Option<Seq<char>>, default: Seq<char>, s: Seq<char>) -> bool {
    t == Some(s) || (t is None && s == default)
}

/// A manifest that can be read says who it is, and all else is as it says, or has its default.
pub proof fn manifest_is_as_it_says(d: Seq<NodeView>, vss: Seq<Seq<GlobVerdict>>)
    requires
        manifest_given(d, vss) is Ok,
    ensures
        ({
            let m = manifest_given(d, vss)->Ok_0;
            &&& given_text(d, "group"@) == Some(m.group)
            &&& given_text(d, "artifact"@) == Some(m.artifact)
            &&& given_text(d, "version"@) == Some(m.version)
            &&& !m.version.contains(':')
            &&& m.description == given_text(d, "description"@)
            &&& m.author == given_text(d, "author"@)
            &&& m.entry == given_text(d, "entry"@)
            &&& given_or(given_text(d, "source"@), "src/main/java"@, m.source)
            &&& given_or(given_text(d, "resources"@), "src/main/resources"@, m.resources)
            &&& m.repositories == repos_spec(d)
            &&& m.test == test_spec(d)
            &&& java_spec(d) == Ok::<JavaView, ManifestFault<Seq<char>>>(m.java)
            &&& build_spec(d) == Ok::<BuildView, ManifestFault<Seq<char>>>(m.build)
            &&& find_node(d, "dependencies"@) is None || find_node(d, "dependencies"@)->Some_0.children is None
                ==> dependencies_given(Seq::empty(), vss) == Ok::<Seq<DepView>, ManifestFault<Seq<char>>>(
                m.dependencies,
            )
            &&& find_node(d, "dependencies"@) is Some && find_node(d, "dependencies"@)->Some_0.children is Some
                ==> dependencies_given(find_node(d, "dependencies"@)->Some_0.children->Some_0, vss) == Ok::<
                Seq<DepView>,
                ManifestFault<Seq<char>>,
            >(m.dependencies)
        }),
{
}

/// A manifest is refused for what it lacks, in this order: a group, a name, a version without a
/// colon, then for what is wrong with its Java configuration, its build, or its dependencies. Where
/// nothing is, it is read.
pub proof fn manifest_is_refused_for_a_reason(d: Seq<NodeView>, vss: Seq<Seq<GlobVerdict>>, name: Seq<char>)
    ensures
        manifest_given(d, vss) is Ok <==> given_text(d, "group"@) is Some && given_text(d, "artifact"@) is Some
            && given_text(d, "version"@) is Some && !given_text(d, "version"@)->Some_0.contains(':') && java_spec(d)
            is Ok && build_spec(d) is Ok && dependencies_given(dependency_nodes(d), vss) is Ok,
        find_node(d, name) is None ==> required_text(d, name) == Err::<Seq<char>, ManifestFault<Seq<char>>>(
            ManifestFault::MissingField(name),
        ),
        required_text(d, name) is Ok <==> given_text(d, name) is Some,
        given_text(d, "group"@) is None ==> manifest_given(d, vss) is Err && manifest_given(d, vss)->Err_0
            == required_text(d, "group"@)->Err_0,
{
}

/// The Java configuration is as the manifest says: a release as a number or in decimal, and all
/// arguments of the compiler.
pub proof fn java_is_as_the_manifest_says(d: Seq<NodeView>, c: Seq<NodeView>, n: NodeView)
    requires
        find_node(d, "java"@) == Some(n),
        n.children == Some(c),
    ensures
        node_arg(c, "release"@) is None ==> java_spec(d) == Ok::<JavaView, ManifestFault<Seq<char>>>(
            JavaView { release: None, compiler_args: all_text_args(c, "compiler-args"@) },
        ),
        forall|k: i128| #[trigger]
            node_arg(c, "release"@) == Some(ValueView::Integer(k)) && 0 <= k <= u32::MAX ==> java_spec(d) == Ok::<
                JavaView,
                ManifestFault<Seq<char>>,
            >(JavaView { release: Some(k as u32), compiler_args: all_text_args(c, "compiler-args"@) }),
        forall|s: Seq<char>| #[trigger]
            node_arg(c, "release"@) == Some(ValueView::Text(s)) ==> java_spec(d) == match number_spec(
                s,
                u32::MAX as nat,
            ) {
                Some(k) => Ok::<JavaView, ManifestFault<Seq<char>>>(
                    JavaView { release: Some(k as u32), compiler_args: all_text_args(c, "compiler-args"@) },
                ),
                None => Err(ManifestFault::InvalidRelease(s)),
            },
{
}

/// The tests are as the manifest says, and else where they are by default.
pub proof fn tests_are_as_the_manifest_says(d: Seq<NodeView>)
    ensures
        find_node(d, "test"@) is None ==> test_spec(d) == (TestView {
            source: "src/test/java"@,
            resources: "src/test/resources"@,
            jvm_args: Seq::empty(),
        }),
        find_node(d, "test"@) matches Some(n) ==> {
            &&& given_or(given_below(n, "source"@), "src/test/java"@, test_spec(d).source)
            &&& given_or(given_below(n, "resources"@), "src/test/resources"@, test_spec(d).resources)
            &&& n.children is Some ==> test_spec(d).jvm_args == all_text_args(n.children->Some_0, "jvm-args"@)
            &&& n.children is None ==> test_spec(d).jvm_args.len() == 0
        },
{
}

/// The build is as the manifest says: an archive unless it says `dir`, nothing bundled unless it
/// says so, and the entries of the archive's manifest that it lists.
pub proof fn build_is_as_the_manifest_says(d: Seq<NodeView>)
    ensures
        find_node(d, "build"@) is None ==> build_spec(d) == Ok::<BuildView, ManifestFault<Seq<char>>>(
            BuildView {
                packaging: Packaging::Jar,
                output: None,
                shadow: None,
                post_build: None,
                manifest: Seq::empty(),
            },
        ),
        find_node(d, "build"@) matches Some(n) ==> {
            let word = given_below(n, "packaging"@);
            &&& build_spec(d) is Err <==> word is Some && word != Some("jar"@) && word != Some("dir"@)
            &&& build_spec(d) is Err ==> build_spec(d)->Err_0 == ManifestFault::UnknownPackaging(word->Some_0)
            &&& build_spec(d) matches Ok(b) ==> {
                &&& b.packaging == Packaging::Dir <==> word == Some("dir"@)
                &&& b.output == given_below(n, "output"@)
                &&& b.post_build == given_below(n, "post-build"@)
                &&& b.shadow is Some <==> n.children is Some && (node_arg(n.children->Some_0, "shadow"@) == Some(
                    ValueView::Bool(true),
                ) || node_arg(n.children->Some_0, "shadow"@) == Some(ValueView::Text("true"@)))
                &&& b.shadow is Some ==> b.shadow->Some_0.len() == 0
                &&& n.children is None ==> b.manifest.len() == 0
                &&& n.children matches Some(c) ==> match find_node(c, "manifest"@) {
                    Some(m) => m.children is Some ==> b.manifest == attributes_of(m.children->Some_0),
                    None => b.manifest.len() == 0,
                }
            }
        },
{
    reveal_strlit("jar");
    reveal_strlit("dir");
    reveal_strlit("true");
    reveal_strlit("false");
    assert("jar"@[0] != "dir"@[0]);
    assert("true"@.len() == 4 && "false"@.len() == 5);
}

/// Placing a manifest places all its paths, and nothing else.
pub proof fn all_paths_are_placed(m: ManifestView, base: Seq<char>, windows: bool, i: int)
    ensures
        ({
            let p = placed_manifest(m, base, windows);
            &&& p.source == placed(base, m.source, windows)
            &&& p.resources == placed(base, m.resources, windows)
            &&& p.test.source == placed(base, m.test.source, windows)
            &&& p.test.resources == placed(base, m.test.resources, windows)
            &&& p.test.jvm_args == m.test.jvm_args
            &&& m.build.output is Some ==> p.build.output == Some(placed(base, m.build.output->Some_0, windows))
            &&& m.build.output is None ==> p.build.output is None
            &&& p.build.packaging == m.build.packaging
            &&& p.build.shadow == m.build.shadow
            &&& p.build.post_build == m.build.post_build
            &&& p.build.manifest == m.build.manifest
            &&& p.group == m.group && p.artifact == m.artifact && p.version == m.version
            &&& p.description == m.description && p.author == m.author && p.entry == m.entry
            &&& p.java == m.java && p.repositories == m.repositories
            &&& p.dependencies.len() == m.dependencies.len()
            &&& 0 <= i < m.dependencies.len() ==> {
                let (x, y) = (m.dependencies[i], p.dependencies[i]);
                &&& x.source is Id ==> y == x
                &&& x.source is Path ==> y.source == SourceView::Path(placed(base, x.source->Path_0, windows))
                &&& y.scope == x.scope && y.artifact_type == x.artifact_type && y.classifier == x.classifier
                &&& y.exclusions == x.exclusions
            }
        }),
{
}

/// What a lock does not say of an artifact has its default: it is needed to compile, at no depth
/// and at no place.
pub proof fn lock_has_its_defaults(word: Seq<char>)
    ensures
        lock_scope(None) == Scope::Compile,
        (forall|s: Scope| !#[trigger] names_scope(word, s)) ==> lock_scope(Some(word)) == Scope::Compile,
        forall|s: Scope| #[trigger] names_scope(word, s) ==> lock_scope(Some(word)) == s,
        depth_of(None) == 0,
        depth_of(Some(ValueView::Text(word))) == 0,
        position_of(None).len() == 0,
{
    if let Some(s) = scope_of(word) {
        five_words_name_scopes(word, s);
    }
    assert forall|s: Scope| #[trigger] names_scope(word, s) implies lock_scope(Some(word)) == s by {
        five_words_name_scopes(word, s);
    }
}

} // verus!
