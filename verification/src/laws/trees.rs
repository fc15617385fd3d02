//! Laws of XML: of reading it, of finding a way in it, and of merging.
use vstd::prelude::*;
use crate::maven::xml::{
    conflicts, find_str_spec, get_spec, item, item_index, item_index_props, key_kind, key_of, merge_items,
    merge_keeps_own, merge_spec, node_from, node_of, set_spec, with_child, xml_spec, EventView, Items, XmlEvent,
    XmlView,
};
use crate::text::{find_char_at, find_char_props, is_blank, split_once_spec};

verus! {

/// Whether a child of a name is the first of its name.
pub open spec fn is_first(c: Items, name: Seq<char>, i: int) -> bool {
    &&& 0 <= i < c.len()
    &&& c[i].0 == name
    &&& forall|j: int| 0 <= j < i ==> (#[trigger] c[j]).0 != name
}

proof fn no_way_without_the_character(path: Seq<char>, c: char)
    requires
        !path.contains(c),
    ensures
        split_once_spec(path, c) is None,
{
    find_char_props(path, c, 0);
    if split_once_spec(path, c) is Some {
        let i = crate::text::find_char(path, c, 0);
        assert(path[i] == c);
    }
}

proof fn way_in_two(a: Seq<char>, b: Seq<char>, c: char)
    requires
        !a.contains(c),
    ensures
        split_once_spec(a + seq![c] + b, c) == Some((a, b)),
{
    let p = a + seq![c] + b;
    let n = a.len() as int;
    assert(p[n] == c);
    assert forall|k: int| 0 <= k < n implies p[k] != c by {
        assert(p[k] == a[k]);
    }
    find_char_at(p, c, 0, n);
    assert(p.take(n) =~= a);
    assert(p.skip(n + 1) =~= b);
}

/// A name leads to the first child of that name, and nowhere where there is none.
pub proof fn name_leads_to_the_first_child(c: Items, name: Seq<char>, i: int)
    requires
        !name.contains('/'),
    ensures
        is_first(c, name, i) ==> get_spec(XmlView::Children(c), name) == Some(c[i].1),
        (forall|j: int| 0 <= j < c.len() ==> (#[trigger] c[j]).0 != name) ==> get_spec(XmlView::Children(c), name)
            is None,
        get_spec(XmlView::Text(name), name) is None,
{
    no_way_without_the_character(name, '/');
    item_index_props(c, name, 0);
    let k = item_index(c, name, 0);
    if is_first(c, name, i) {
        if k < i {
            assert(c[k].0 != name);
        }
        assert(k == i);
    }
}

/// A way of two parts is the way of the one and, from there, that of the other.
pub proof fn way_goes_on_from_there(x: XmlView, a: Seq<char>, b: Seq<char>)
    requires
        !a.contains('/'),
    ensures
        get_spec(x, a + "/"@ + b) == match get_spec(x, a) {
            Some(y) => get_spec(y, b),
            None => None,
        },
{
    reveal_strlit("/");
    assert("/"@ =~= seq!['/']);
    way_in_two(a, b, '/');
    no_way_without_the_character(a, '/');
}

/// The text at a way whose parts are separated by dots is that at the end of the way, where that
/// is a text.
pub proof fn text_is_at_the_end_of_the_way(x: XmlView, a: Seq<char>, b: Seq<char>)
    requires
        !a.contains('.'),
    ensures
        find_str_spec(x, a) == match get_spec(x, a) {
            Some(XmlView::Text(t)) => Some(t),
            _ => None,
        },
        find_str_spec(x, a + "."@ + b) == match get_spec(x, a) {
            Some(y) => find_str_spec(y, b),
            None => None,
        },
{
    reveal_strlit(".");
    assert("."@ =~= seq!['.']);
    way_in_two(a, b, '.');
    no_way_without_the_character(a, '.');
}

/// What is put where something is, is there afterwards; where nothing is, nothing changes. What is
/// there already can be put there without any change, and what was there before leaves no trace.
pub proof fn what_is_put_is_there(x: XmlView, path: Seq<char>, y: XmlView, z: XmlView)
    ensures
        get_spec(x, path) is Some ==> get_spec(set_spec(x, path, y), path) == Some(y),
        get_spec(x, path) is None ==> set_spec(x, path, y) == x,
        get_spec(x, path) == Some(y) ==> set_spec(x, path, y) == x,
        set_spec(set_spec(x, path, z), path, y) == set_spec(x, path, y),
    decreases path.len(),
{
    if let XmlView::Children(c) = x {
        let name = match split_once_spec(path, '/') {
            None => path,
            Some((first, _)) => first,
        };
        let k = item_index(c, name, 0);
        item_index_props(c, name, 0);
        find_char_props(path, '/', 0);
        if k < c.len() {
            let (v, w) = match split_once_spec(path, '/') {
                None => (y, z),
                Some((_, rest)) => {
                    what_is_put_is_there(c[k].1, rest, y, z);
                    (set_spec(c[k].1, rest, y), set_spec(c[k].1, rest, z))
                },
            };
            let d = c.update(k, (c[k].0, v));
            let e = c.update(k, (c[k].0, w));
            item_index_props(d, name, 0);
            item_index_props(e, name, 0);
            assert(item_index(d, name, 0) == k) by {
                let j = item_index(d, name, 0);
                assert(d[k].0 == name);
                if j < k {
                    assert(d[j] == c[j]);
                }
            }
            assert(item_index(e, name, 0) == k) by {
                let j = item_index(e, name, 0);
                assert(e[k].0 == name);
                if j < k {
                    assert(e[j] == c[j]);
                }
            }
            assert(e.update(k, (e[k].0, v)) =~= d);
            if v == c[k].1 {
                assert(d =~= c);
            }
        }
    }
}

/// Putting something changes nothing beside it: all children keep their names and their order,
/// and but for the one that is on the way, all of them stay what they are.
pub proof fn putting_changes_nothing_beside(c: Items, path: Seq<char>, y: XmlView, i: int)
    requires
        0 <= i < c.len(),
    ensures
        ({
            let r = set_spec(XmlView::Children(c), path, y);
            &&& r is Children
            &&& r->Children_0.len() == c.len()
            &&& r->Children_0[i].0 == c[i].0
            &&& !is_first(
                c,
                match split_once_spec(path, '/') {
                    None => path,
                    Some((first, _)) => first,
                },
                i,
            ) ==> r->Children_0[i] == c[i]
        }),
{
    let name = match split_once_spec(path, '/') {
        None => path,
        Some((first, _)) => first,
    };
    item_index_props(c, name, 0);
}

/// Whether nodes of a name are told apart by what they say of themselves: dependencies and the
/// like by group and name, executions and report sets by an identifier.
pub open spec fn is_keyed(name: Seq<char>) -> bool {
    is_named_by_artifact(name) || name == "execution"@ || name == "reportSet"@
}

/// Whether nodes of a name are told apart by group and name.
pub open spec fn is_named_by_artifact(name: Seq<char>) -> bool {
    name == "dependency"@ || name == "plugin"@ || name == "extension"@ || name == "exclusion"@
}

/// Whether a node of a name is not handed down.
pub open spec fn is_withheld(name: Seq<char>) -> bool {
    name == "modelVersion"@ || name == "artifactId"@ || name == "packaging"@ || name == "profiles"@ || name
        == "prerequisites"@
}

/// What a node says under a name: the text of the first child of that name, or nothing.
pub open spec fn says(c: Items, name: Seq<char>) -> Seq<char> {
    match item(c, name) {
        Some(XmlView::Text(t)) => t,
        _ => Seq::empty(),
    }
}

/// Whether two nodes of a name stand for the same thing.
pub open spec fn is_same_thing(name: Seq<char>, x: XmlView, y: XmlView) -> bool {
    &&& x is Children
    &&& y is Children
    &&& if is_named_by_artifact(name) {
        says(x->Children_0, "groupId"@) == says(y->Children_0, "groupId"@) && says(x->Children_0, "artifactId"@)
            == says(y->Children_0, "artifactId"@)
    } else {
        says(x->Children_0, "id"@) == says(y->Children_0, "id"@)
    }
}

/// Whether a node is taken over as it is: it is handed down, and there is nothing yet that stands
/// for the same thing, or of the same name.
pub open spec fn is_taken_over(own: Items, e: (Seq<char>, XmlView)) -> bool {
    !is_withheld(e.0) && forall|i: int|
        0 <= i < own.len() && (#[trigger] own[i]).0 == e.0 ==> is_keyed(e.0) && !is_same_thing(e.0, own[i].1, e.1)
}

proof fn keyed_nodes_stay(a: Items, b: XmlView, n: int, i: int)
    requires
        b is Children,
        0 <= n <= b->Children_0.len(),
        0 <= i < a.len(),
    ensures
        merge_items(a, b, n).0.len() == a.len(),
        merge_items(a, b, n).0[i].0 == a[i].0,
        is_keyed(a[i].0) || is_withheld(a[i].0) || !is_first(a, a[i].0, i) ==> merge_items(a, b, n).0[i] == a[i],
        (forall|k: int| 0 <= k < n ==> (#[trigger] b->Children_0[k]).0 != a[i].0) ==> merge_items(a, b, n).0[i]
            == a[i],
    decreases n,
{
    merge_keeps_own(a, b, n);
    assert(merge_items(a, b, n).0[i] == merge_items(a, b, n).0[i]);
    if n > 0 {
        keyed_nodes_stay(a, b, n - 1, i);
        merge_keeps_own(a, b, n - 1);
        let m = merge_items(a, b, n - 1).0;
        let e = b->Children_0[n - 1];
        let k = item_index(m, e.0, 0);
        item_index_props(m, e.0, 0);
        if k == i && !is_first(a, a[i].0, i) {
            let j = choose|j: int| 0 <= j < i && (#[trigger] a[j]).0 == a[i].0;
            assert(merge_items(a, b, n - 1).0[j].0 == a[j].0);
            assert(m[j].0 != e.0);
        }
    }
}

proof fn conflict_is_the_same_thing(a: Items, b: XmlView, n: int, e: (Seq<char>, XmlView))
    requires
        b is Children,
        0 <= n <= b->Children_0.len(),
        is_keyed(e.0),
    ensures
        conflicts(merge_items(a, b, n).0, e.0, e.1) <==> exists|i: int|
            0 <= i < a.len() && (#[trigger] a[i]).0 == e.0 && is_same_thing(e.0, a[i].1, e.1),
{
    let m = merge_items(a, b, n).0;
    merge_keeps_own(a, b, n);
    let kind = key_kind(e.0)->Some_0;
    assert forall|i: int| 0 <= i < a.len() && a[i].0 == e.0 implies #[trigger] m[i] == a[i] by {
        keyed_nodes_stay(a, b, n, i);
    }
    assert forall|i: int| 0 <= i < a.len() implies (#[trigger] m[i]).0 == a[i].0 by {
        keyed_nodes_stay(a, b, n, i);
    }
    if conflicts(m, e.0, e.1) {
        let i = choose|i: int|
            0 <= i < m.len() && (#[trigger] m[i]).0 == e.0 && key_of(m[i].1, kind) == key_of(e.1, kind);
        assert(m[i] == a[i]);
        keys_tell(e.0, a[i].1, e.1);
        assert(a[i].0 == e.0);
    }
    if exists|i: int| 0 <= i < a.len() && (#[trigger] a[i]).0 == e.0 && is_same_thing(e.0, a[i].1, e.1) {
        let i = choose|i: int|
            0 <= i < a.len() && (#[trigger] a[i]).0 == e.0 && is_same_thing(e.0, a[i].1, e.1);
        assert(m[i] == a[i]);
        keys_tell(e.0, a[i].1, e.1);
        assert(m[i].0 == e.0);
    }
}

proof fn keys_tell(name: Seq<char>, x: XmlView, y: XmlView)
    requires
        is_keyed(name),
        y is Children,
    ensures
        key_kind(name) is Some,
        key_of(x, key_kind(name)->Some_0) == key_of(y, key_kind(name)->Some_0) <==> is_same_thing(name, x, y),
{
    words_differ();
    let kind = key_kind(name)->Some_0;
    let p = key_of(x, kind);
    let q = key_of(y, kind);
    if x is Children {
        if p == q {
            assert(p->Some_0[0] == q->Some_0[0]);
            if is_named_by_artifact(name) {
                assert(p->Some_0[1] == q->Some_0[1]);
            }
        }
        if is_same_thing(name, x, y) {
            assert(p->Some_0 =~= q->Some_0);
        }
    }
}

proof fn words_differ()
    ensures
        !is_named_by_artifact("execution"@),
        !is_named_by_artifact("reportSet"@),
{
    reveal_strlit("execution");
    reveal_strlit("reportSet");
    reveal_strlit("dependency");
    reveal_strlit("plugin");
    reveal_strlit("extension");
    reveal_strlit("exclusion");
    assert("execution"@[2] == 'e' && "extension"@[2] == 't' && "exclusion"@[2] == 'c');
    assert("reportSet"@[0] == 'r' && "extension"@[0] == 'e' && "exclusion"@[0] == 'e');
}

proof fn keyed_is_keyed(name: Seq<char>)
    ensures
        key_kind(name) is Some <==> is_keyed(name),
{
}

proof fn taken_over_are_added(a: Items, b: XmlView, n: int)
    requires
        b is Children,
        0 <= n <= b->Children_0.len(),
    ensures
        merge_items(a, b, n).1 == b->Children_0.take(n).filter(|e: (Seq<char>, XmlView)| is_taken_over(a, e)),
    decreases n,
{
    reveal(Seq::filter);
    let y = b->Children_0;
    if n > 0 {
        taken_over_are_added(a, b, n - 1);
        merge_keeps_own(a, b, n - 1);
        let (m, added) = merge_items(a, b, n - 1);
        let e = y[n - 1];
        let k = item_index(m, e.0, 0);
        item_index_props(m, e.0, 0);
        assert(y.take(n).drop_last() =~= y.take(n - 1));
        assert(y.take(n).last() == e);
        keyed_is_keyed(e.0);
        assert forall|i: int| 0 <= i < a.len() implies (#[trigger] m[i]).0 == a[i].0 by {
            keyed_nodes_stay(a, b, n - 1, i);
        }
        if is_keyed(e.0) {
            conflict_is_the_same_thing(a, b, n - 1, e);
        } else {
            if k < m.len() {
                assert(a[k].0 == e.0);
            } else {
                assert forall|i: int| 0 <= i < a.len() implies (#[trigger] a[i]).0 != e.0 by {
                    assert(m[i].0 == a[i].0);
                }
            }
        }
    } else {
        assert(y.take(0) =~= Seq::empty());
    }
}

proof fn single_counterpart_is_merged(a: Items, b: XmlView, n: int, i: int, k: int)
    requires
        b is Children,
        0 <= n <= b->Children_0.len(),
        is_first(a, a[i].0, i),
        !is_keyed(a[i].0),
        !is_withheld(a[i].0),
        0 <= k < n,
        b->Children_0[k].0 == a[i].0,
        forall|l: int| 0 <= l < n && l != k ==> (#[trigger] b->Children_0[l]).0 != a[i].0,
    ensures
        merge_items(a, b, n).0[i] == (a[i].0, merge_spec(a[i].1, b->Children_0[k].1)),
    decreases n,
{
    let y = b->Children_0;
    let m = merge_items(a, b, n - 1).0;
    let e = y[n - 1];
    let j = item_index(m, e.0, 0);
    item_index_props(m, e.0, 0);
    merge_keeps_own(a, b, n - 1);
    keyed_is_keyed(e.0);
    assert forall|l: int| 0 <= l < a.len() implies (#[trigger] m[l]).0 == a[l].0 by {
        keyed_nodes_stay(a, b, n - 1, l);
    }
    if k < n - 1 {
        single_counterpart_is_merged(a, b, n - 1, i, k);
        assert(m[i].0 != e.0);
    } else {
        assert forall|l: int| 0 <= l < n - 1 implies (#[trigger] y[l]).0 != a[i].0 by {}
        keyed_nodes_stay(a, b, n - 1, i);
        assert(m[i] == a[i]);
        assert(j <= i);
        if j < i {
            assert(m[j].0 == a[j].0);
        }
    }
}

/// Merging keeps all that a node has, in order and under its names, and takes over, in order and
/// after it, all that the other has besides: what is handed down and has no counterpart. A child
/// that has one is merged with it in turn, but for those that are told apart by what they say of
/// themselves, those that are not handed down, and those that are not the first of their name.
pub proof fn merging_takes_over_what_is_missing(a: Items, b: Items, i: int, k: int)
    requires
        a != b,
    ensures
        ({
            let r = merge_spec(XmlView::Children(a), XmlView::Children(b));
            let c = r->Children_0;
            &&& r is Children
            &&& c.len() >= a.len()
            &&& c.skip(a.len() as int) == b.filter(|e: (Seq<char>, XmlView)| is_taken_over(a, e))
            &&& 0 <= i < a.len() ==> c[i].0 == a[i].0
            &&& 0 <= i < a.len() && (is_keyed(a[i].0) || is_withheld(a[i].0) || !is_first(a, a[i].0, i) || (forall|l: int|
                0 <= l < b.len() ==> (#[trigger] b[l]).0 != a[i].0)) ==> c[i] == a[i]
            &&& 0 <= i < a.len() && !is_keyed(a[i].0) && !is_withheld(a[i].0) && is_first(a, a[i].0, i) && 0 <= k
                < b.len() && b[k].0 == a[i].0 && (forall|l: int|
                0 <= l < b.len() && l != k ==> (#[trigger] b[l]).0 != a[i].0) ==> c[i].1 == merge_spec(a[i].1, b[k].1)
        }),
        merge_spec(XmlView::Children(a), XmlView::Children(a)) == XmlView::Children(a),
{
    let y = XmlView::Children(b);
    let n = b.len() as int;
    let (m, added) = merge_items(a, y, n);
    merge_keeps_own(a, y, n);
    taken_over_are_added(a, y, n);
    assert(b.take(n) =~= b);
    assert((m + added).skip(a.len() as int) =~= added);
    if 0 <= i < a.len() {
        keyed_nodes_stay(a, y, n, i);
        if !is_keyed(a[i].0) && !is_withheld(a[i].0) && is_first(a, a[i].0, i) && 0 <= k < b.len() && b[k].0
            == a[i].0 && (forall|l: int| 0 <= l < b.len() && l != k ==> (#[trigger] b[l]).0 != a[i].0) {
            single_counterpart_is_merged(a, y, n, i, k);
        }
    }
}

proof fn merging_looks_back(a: Items, x: XmlView, y: XmlView, n: int)
    requires
        x is Children,
        y is Children,
        0 <= n <= x->Children_0.len(),
        n <= y->Children_0.len(),
        forall|k: int| 0 <= k < n ==> x->Children_0[k] == y->Children_0[k],
    ensures
        merge_items(a, x, n) == merge_items(a, y, n),
    decreases n,
{
    if n > 0 {
        merging_looks_back(a, x, y, n - 1);
        assert(x->Children_0[n - 1] == y->Children_0[n - 1]);
    }
}

/// Merging with one more child is merging with the others first: what the child has a counterpart
/// in is merged with it in turn, however often that was done before, and all else stays.
pub proof fn merging_goes_on_with_each_child(a: Items, b: Items, e: (Seq<char>, XmlView), i: int)
    requires
        a != b,
        a != b.push(e),
        0 <= i < a.len(),
    ensures
        ({
            let c = merge_spec(XmlView::Children(a), XmlView::Children(b))->Children_0;
            let d = merge_spec(XmlView::Children(a), XmlView::Children(b.push(e)))->Children_0;
            &&& d[i].0 == c[i].0
            &&& a[i].0 == e.0 && is_first(a, e.0, i) && !is_keyed(e.0) && !is_withheld(e.0) ==> d[i].1 == merge_spec(
                c[i].1,
                e.1,
            )
            &&& !(a[i].0 == e.0 && is_first(a, e.0, i) && !is_keyed(e.0) && !is_withheld(e.0)) ==> d[i] == c[i]
        }),
{
    let x = XmlView::Children(b);
    let f = b.push(e);
    let y = XmlView::Children(f);
    let n = b.len() as int;
    merging_looks_back(a, x, y, n);
    merge_keeps_own(a, x, n);
    merge_keeps_own(a, y, n + 1);
    let m = merge_items(a, y, n).0;
    assert(f[n] == e);
    assert forall|l: int| 0 <= l < a.len() implies (#[trigger] m[l]).0 == a[l].0 by {
        keyed_nodes_stay(a, y, n, l);
    }
    keyed_nodes_stay(a, y, n + 1, i);
    item_index_props(m, e.0, 0);
    keyed_is_keyed(e.0);
    let k = item_index(m, e.0, 0);
    if a[i].0 == e.0 && is_first(a, e.0, i) {
        assert(m[i].0 == e.0);
        if k < i {
            assert(m[k].0 == a[k].0);
        }
    }
    if k == i && !is_first(a, a[i].0, i) {
        let j = choose|j: int| 0 <= j < i && (#[trigger] a[j]).0 == a[i].0;
        assert(m[j].0 == a[j].0);
    }
}

/// The steps through the children of a node from a place on, and through a node.
pub open spec fn steps_from(x: XmlView, i: int) -> Seq<EventView>
    decreases x, x->Children_0.len() - i,
{
    if x is Text || i < 0 || i >= x->Children_0.len() {
        Seq::empty()
    } else {
        seq![XmlEvent::Start(x->Children_0[i].0)] + steps_of(x->Children_0[i].1) + seq![XmlEvent::End] + steps_from(
            x,
            i + 1,
        )
    }
}

/// The steps through a node.
pub open spec fn steps_of(x: XmlView) -> Seq<EventView>
    decreases x, x->Children_0.len() + 1,
{
    match x {
        XmlView::Text(t) => seq![XmlEvent::Text(t)],
        XmlView::Children(c) => steps_from(x, 0),
    }
}

/// Whether a node is one that is read: where it has children, there is at least one, and none is
/// a text of nothing but white space.
pub open spec fn is_readable(x: XmlView) -> bool
    decreases x,
{
    match x {
        XmlView::Text(_) => true,
        XmlView::Children(c) => c.len() > 0 && forall|i: int| #![trigger c[i]]
            0 <= i < c.len() ==> is_readable(c[i].1) && !(c[i].1 is Text && is_blank(c[i].1->Text_0)),
    }
}

proof fn node_reads_back(x: XmlView, rest: Seq<EventView>)
    requires
        is_readable(x),
    ensures
        node_from(steps_of(x) + (seq![XmlEvent::End] + rest), Seq::empty(), Seq::empty()) == (x, rest),
    decreases x, x->Children_0.len() + 1,
{
    let end = seq![XmlEvent::<Seq<char>>::End] + rest;
    match x {
        XmlView::Text(t) => {
            let e = steps_of(x) + end;
            assert(e[0] == XmlEvent::Text(t));
            assert(e.drop_first() =~= end);
            assert(end.drop_first() =~= rest);
            assert(Seq::<char>::empty() + t =~= t);
            assert(node_from(end, Seq::empty(), t) == (node_of(Seq::empty(), t), rest));
        },
        XmlView::Children(c) => {
            assert(c.take(0) =~= Seq::empty());
            children_read_back(x, 0, rest);
        },
    }
}

proof fn children_read_back(x: XmlView, i: int, rest: Seq<EventView>)
    requires
        is_readable(x),
        x is Children,
        0 <= i <= x->Children_0.len(),
    ensures
        node_from(
            steps_from(x, i) + (seq![XmlEvent::End] + rest),
            x->Children_0.take(i),
            Seq::empty(),
        ) == (x, rest),
    decreases x, x->Children_0.len() - i,
{
    let c = x->Children_0;
    let end = seq![XmlEvent::<Seq<char>>::End] + rest;
    let e = steps_from(x, i) + end;
    if i < c.len() {
        let (name, child) = c[i];
        let after = steps_from(x, i + 1) + end;
        assert(e[0] == XmlEvent::Start(name));
        assert(e.drop_first() =~= steps_of(child) + (seq![XmlEvent::<Seq<char>>::End] + after));
        assert(is_readable(c[i].1));
        node_reads_back(child, after);
        children_read_back(x, i + 1, rest);
        assert(c.take(i + 1) =~= c.take(i).push((name, child)));
        assert(with_child(c.take(i), name, child) == c.take(i + 1));
        assert(after.len() <= e.drop_first().len());
    } else {
        assert(e =~= end);
        assert(end.drop_first() =~= rest);
        assert(c.take(i) =~= c);
    }
}

/// What is written as XML is read back: the root with all its children, under their names and in
/// order, and all texts.
pub proof fn tree_reads_back(name: Seq<char>, x: XmlView)
    requires
        is_readable(x),
        !(x is Text && is_blank(x->Text_0)),
    ensures
        xml_spec(seq![XmlEvent::Start(name)] + steps_of(x) + seq![XmlEvent::End]) == Some(x),
{
    let none = Seq::<EventView>::empty();
    let e = seq![XmlEvent::Start(name)] + steps_of(x) + seq![XmlEvent::End];
    assert(e[0] == XmlEvent::Start(name));
    assert(e.drop_first() =~= steps_of(x) + (seq![XmlEvent::<Seq<char>>::End] + none));
    node_reads_back(x, none);
    let c = Seq::<(Seq<char>, XmlView)>::empty().push((name, x));
    assert(with_child(Seq::empty(), name, x) == c);
    assert(node_from(none, c, Seq::empty()) == (node_of(c, Seq::empty()), none));
}

/// Steps that say nothing make no difference, nor does it make one whether a text comes at once or
/// in pieces. Text beside children does not count, and children of nothing but white space do not.
pub proof fn some_steps_say_nothing(e: Seq<EventView>, c: Items, text: Seq<char>, s: Seq<char>, t: Seq<char>, name: Seq<char>)
    ensures
        node_from(seq![XmlEvent::Other] + e, c, text) == node_from(e, c, text),
        node_from(seq![XmlEvent::Text(s), XmlEvent::Text(t)] + e, c, text) == node_from(
            seq![XmlEvent::Text(s + t)] + e,
            c,
            text,
        ),
        c.len() > 0 ==> node_from(seq![XmlEvent::End] + e, c, text) == (XmlView::Children(c), e),
        c.len() == 0 ==> node_from(seq![XmlEvent::End] + e, c, text) == (XmlView::Text(text), e),
        is_blank(s) ==> node_from(
            seq![XmlEvent::Start(name), XmlEvent::Text(s), XmlEvent::End] + e,
            c,
            text,
        ) == node_from(e, c, text),
{
    assert((seq![XmlEvent::<Seq<char>>::Other] + e).drop_first() =~= e);
    let two = seq![XmlEvent::Text(s), XmlEvent::Text(t)] + e;
    assert(two.drop_first() =~= seq![XmlEvent::Text(t)] + e);
    assert((seq![XmlEvent::Text(t)] + e).drop_first() =~= e);
    assert((seq![XmlEvent::Text(s + t)] + e).drop_first() =~= e);
    assert((text + s) + t =~= text + (s + t));
    let end = seq![XmlEvent::<Seq<char>>::End] + e;
    assert(end.drop_first() =~= e);
    assert(node_from(two, c, text) == node_from(seq![XmlEvent::Text(t)] + e, c, text + s));
    if is_blank(s) {
        let all = seq![XmlEvent::Start(name), XmlEvent::Text(s), XmlEvent::End] + e;
        let x = XmlView::Text(s);
        assert(all.drop_first() =~= steps_of(x) + end);
        node_reads_back(x, e);
        assert(with_child(c, name, x) == c);
    }
}

} // verus!
