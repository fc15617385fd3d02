//! XML files as trees of named nodes.
use quick_xml::events::Event;
use quick_xml::Reader;
use vstd::prelude::*;
use crate::order::views;
use crate::text::{blank, is_blank, push_text, same, split_once, split_once_spec, texts};

verus! {

/// A node: a text, or named children.
#[derive(Debug, PartialEq, Eq)]
pub enum XmlNode {
    Text(String),
    Children(Vec<(String, XmlNode)>),
}

/// A node, its texts as characters.
pub enum XmlView {
    Text(Seq<char>),
    Children(Seq<(Seq<char>, XmlView)>),
}

/// Named nodes, their texts as characters.
pub type Items = Seq<(Seq<char>, XmlView)>;

impl XmlNode {
    pub open spec fn view(&self) -> XmlView
        decreases self,
    {
        match self {
            XmlNode::Text(s) => XmlView::Text(s@),
            XmlNode::Children(c) => XmlView::Children(
                Seq::new(
                    c@.len(),
                    |i: int| if 0 <= i < c@.len() { (c@[i].0@, c@[i].1.view()) } else { arbitrary() },
                ),
            ),
        }
    }
}

/// What named nodes are, their texts as characters.
pub open spec fn items_view(c: Seq<(String, XmlNode)>) -> Items {
    c.map_values(|e: (String, XmlNode)| (e.0@, e.1.view()))
}

pub proof fn items_of_view(c: Vec<(String, XmlNode)>)
    ensures
        XmlNode::Children(c).view() == XmlView::Children(items_view(c@)),
{
    assert(XmlNode::Children(c).view()->Children_0 =~= items_view(c@));
}

proof fn items_push(c: Seq<(String, XmlNode)>, e: (String, XmlNode))
    ensures
        items_view(c.push(e)) == items_view(c).push((e.0@, e.1.view())),
{
    assert(items_view(c.push(e)) =~= items_view(c).push((e.0@, e.1.view())));
}

/// The place of the first node of a name, or the number of nodes.
pub open spec fn item_index(c: Items, name: Seq<char>, from: int) -> int
    decreases c.len() - from,
{
    if from < 0 || from >= c.len() {
        c.len() as int
    } else if c[from].0 == name {
        from
    } else {
        item_index(c, name, from + 1)
    }
}

/// The first node of a name.
pub open spec fn item(c: Items, name: Seq<char>) -> Option<XmlView> {
    let i = item_index(c, name, 0);
    if 0 <= i < c.len() {
        Some(c[i].1)
    } else {
        None
    }
}

pub proof fn item_index_props(c: Items, name: Seq<char>, from: int)
    requires
        0 <= from <= c.len(),
    ensures
        from <= item_index(c, name, from) <= c.len(),
        item_index(c, name, from) < c.len() ==> c[item_index(c, name, from)].0 == name,
        forall|k: int| from <= k < item_index(c, name, from) ==> (#[trigger] c[k]).0 != name,
    decreases c.len() - from,
{
    if from < c.len() && c[from].0 != name {
        item_index_props(c, name, from + 1);
    }
}

/// Whatever node is put in the place of a child, the tree shows it there.
proof fn updates_show(c: Vec<(String, XmlNode)>, i: int)
    requires
        0 <= i < c@.len(),
    ensures
        forall|d: Vec<(String, XmlNode)>, x: XmlNode|
            #![trigger items_view(d@), x.view()]
            d@ == c@.update(i, (c@[i].0, x)) ==> items_view(d@) == items_view(c@).update(
                i,
                (c@[i].0@, x.view()),
            ),
{
    assert forall|d: Vec<(String, XmlNode)>, x: XmlNode|
        #![trigger items_view(d@), x.view()]
        d@ == c@.update(i, (c@[i].0, x)) implies items_view(d@) == items_view(c@).update(
        i,
        (c@[i].0@, x.view()),
    ) by {
        assert(items_view(d@) =~= items_view(c@).update(i, (c@[i].0@, x.view())));
    }
}

fn child_mut(c: &mut Vec<(String, XmlNode)>, i: usize) -> (r: &mut XmlNode)
    requires
        i < old(c)@.len(),
    ensures
        *r == old(c)@[i as int].1,
        final(c)@ == old(c)@.update(i as int, (old(c)@[i as int].0, *final(r))),
{
    &mut c[i].1
}

/// The place of the first node of a name, or the number of nodes.
pub(crate) fn find_item(c: &Vec<(String, XmlNode)>, name: &str) -> (r: usize)
    ensures
        r == item_index(items_view(c@), name@, 0),
        r <= c@.len(),
        r < c@.len() ==> c@[r as int].0@ == name@,
{
    let mut i: usize = 0;
    while i < c.len()
        invariant
            i <= c@.len(),
            item_index(items_view(c@), name@, 0) == item_index(items_view(c@), name@, i as int),
        decreases c@.len() - i,
    {
        assert(items_view(c@)[i as int].0 == c@[i as int].0@);
        if same(c[i].0.as_str(), name) {
            return i;
        }
        i = i + 1;
    }
    i
}

impl XmlNode {
    /// A copy of the node.
    pub fn copy(&self) -> (r: XmlNode)
        ensures
            r.view() == self.view(),
        decreases self,
    {
        match self {
            XmlNode::Text(s) => XmlNode::Text(s.clone()),
            XmlNode::Children(c) => {
                let mut out: Vec<(String, XmlNode)> = Vec::new();
                let mut i: usize = 0;
                assert(items_view(out@) =~= items_view(c@).take(0));
                while i < c.len()
                    invariant
                        i <= c@.len(),
                        items_view(out@) == items_view(c@).take(i as int),
                        decreases_to!(self => c),
                    decreases c@.len() - i,
                {
                    let ghost before = out@;
                    out.push((c[i].0.clone(), c[i].1.copy()));
                    proof {
                        items_push(before, out@.last());
                        assert(items_view(c@).take(i + 1) =~= items_view(c@).take(i as int).push(
                            items_view(c@)[i as int],
                        ));
                    }
                    i = i + 1;
                }
                assert(items_view(c@).take(i as int) =~= items_view(c@));
                proof {
                    items_of_view(out);
                    items_of_view(*c);
                }
                XmlNode::Children(out)
            },
        }
    }

    /// Whether two nodes are the same.
    pub fn same(&self, other: &XmlNode) -> (r: bool)
        ensures
            r == (self.view() == other.view()),
        decreases self,
    {
        match (self, other) {
            (XmlNode::Text(s), XmlNode::Text(t)) => same(s.as_str(), t.as_str()),
            (XmlNode::Children(c), XmlNode::Children(d)) => {
                proof {
                    items_of_view(*c);
                    items_of_view(*d);
                }
                if c.len() != d.len() {
                    assert(items_view(c@).len() != items_view(d@).len());
                    return false;
                }
                let mut i: usize = 0;
                while i < c.len()
                    invariant
                        i <= c@.len(),
                        c@.len() == d@.len(),
                        forall|k: int| 0 <= k < i ==> items_view(c@)[k] == items_view(d@)[k],
                        decreases_to!(self => c),
                        self.view() == XmlView::Children(items_view(c@)),
                        other.view() == XmlView::Children(items_view(d@)),
                    decreases c@.len() - i,
                {
                    if !same(c[i].0.as_str(), d[i].0.as_str()) || !c[i].1.same(&d[i].1) {
                        assert(items_view(c@)[i as int] != items_view(d@)[i as int]);
                        return false;
                    }
                    i = i + 1;
                }
                assert(items_view(c@) =~= items_view(d@));
                true
            },
            _ => false,
        }
    }
}

/// The node at a path of names with `/` between them.
pub open spec fn get_spec(x: XmlView, path: Seq<char>) -> Option<XmlView>
    decreases path.len(),
{
    match x {
        XmlView::Text(_) => None,
        XmlView::Children(c) => match split_once_spec(path, '/') {
            None => item(c, path),
            Some((first, rest)) => match item(c, first) {
                None => None,
                Some(y) => if rest.len() < path.len() {
                    get_spec(y, rest)
                } else {
                    None
                },
            },
        },
    }
}

/// The tree with another node at a path.
pub open spec fn set_spec(x: XmlView, path: Seq<char>, y: XmlView) -> XmlView
    decreases path.len(),
{
    match x {
        XmlView::Text(_) => x,
        XmlView::Children(c) => match split_once_spec(path, '/') {
            None => set_item(c, path, y),
            Some((first, rest)) => match item(c, first) {
                None => x,
                Some(z) => if rest.len() < path.len() {
                    set_item(c, first, set_spec(z, rest, y))
                } else {
                    x
                },
            },
        },
    }
}

/// The children with another node in place of the first of a name.
pub open spec fn set_item(c: Items, name: Seq<char>, y: XmlView) -> XmlView {
    let i = item_index(c, name, 0);
    if 0 <= i < c.len() {
        XmlView::Children(c.update(i, (c[i].0, y)))
    } else {
        XmlView::Children(c)
    }
}

/// The text at a path of names with `.` between them.
pub open spec fn find_str_spec(x: XmlView, path: Seq<char>) -> Option<Seq<char>>
    decreases path.len(),
{
    match split_once_spec(path, '.') {
        None => match get_spec(x, path) {
            Some(XmlView::Text(t)) => Some(t),
            _ => None,
        },
        Some((first, rest)) => match get_spec(x, first) {
            None => None,
            Some(y) => if rest.len() < path.len() {
                find_str_spec(y, rest)
            } else {
                None
            },
        },
    }
}

proof fn split_once_shorter(path: Seq<char>, c: char)
    ensures
        match split_once_spec(path, c) {
            Some((first, rest)) => first.len() + rest.len() < path.len(),
            None => true,
        },
{
    crate::text::find_char_props(path, c, 0);
}

/// The view of children is that of the items.
proof fn items_show()
    ensures
        forall|c: Vec<(String, XmlNode)>| #[trigger] XmlNode::Children(c).view() == XmlView::Children(items_view(c@)),
{
    assert forall|c: Vec<(String, XmlNode)>| #[trigger] XmlNode::Children(c).view() == XmlView::Children(items_view(c@)) by {
        items_of_view(c);
    }
}

fn items_get_mut<'a>(children: &'a mut Vec<(String, XmlNode)>, field: &str) -> (r: Option<&'a mut XmlNode>)
    ensures
        ({
            let x = XmlView::Children(items_view(old(children)@));
            match r {
                Some(n) => get_spec(x, field@) == Some((*n).view()) && XmlView::Children(
                    items_view(final(children)@),
                ) == set_spec(x, field@, (*final(n)).view()),
                None => get_spec(x, field@) is None && items_view(final(children)@) == items_view(old(children)@),
            }
        }),
    decreases field@.len(), 0nat,
{
    proof {
        split_once_shorter(field@, '/');
    }
    match split_once(field, '/') {
        None => {
            let i: usize = find_item(children, field);
            if i < children.len() {
                proof {
                    updates_show(*children, i as int);
                }
                Some(child_mut(children, i))
            } else {
                None
            }
        },
        Some((first, rest)) => {
            let i: usize = find_item(children, first.as_str());
            if i < children.len() {
                proof {
                    updates_show(*children, i as int);
                }
                child_mut(children, i).get_mut(rest.as_str())
            } else {
                None
            }
        },
    }
}

impl XmlNode {
    /// The node at a path of names with `/` between them.
    pub fn get(&self, field: &str) -> (r: Option<&XmlNode>)
        ensures
            match r {
                Some(n) => get_spec(self.view(), field@) == Some(n.view()),
                None => get_spec(self.view(), field@) is None,
            },
        decreases field@.len(),
    {
        let children = match self {
            XmlNode::Text(_) => {
                return None;
            },
            XmlNode::Children(c) => c,
        };
        proof {
            items_of_view(*children);
            split_once_shorter(field@, '/');
        }
        match split_once(field, '/') {
            None => {
                let i: usize = find_item(children, field);
                if i < children.len() {
                    Some(&children[i].1)
                } else {
                    None
                }
            },
            Some((first, rest)) => {
                let i: usize = find_item(children, first.as_str());
                if i < children.len() {
                    children[i].1.get(rest.as_str())
                } else {
                    None
                }
            },
        }
    }

    /// The node at a path of names with `/` between them, to be changed in place.
    pub fn get_mut(&mut self, field: &str) -> (r: Option<&mut XmlNode>)
        ensures
            match r {
                Some(n) => get_spec(old(self).view(), field@) == Some((*n).view()) && final(self).view()
                    == set_spec(old(self).view(), field@, (*final(n)).view()),
                None => get_spec(old(self).view(), field@) is None && final(self).view() == old(self).view(),
            },
        decreases field@.len(), 1nat,
    {
        match self {
            XmlNode::Text(_) => None,
            XmlNode::Children(c) => {
                let ghost before = *c;
                proof {
                    items_of_view(before);
                    items_show();
                }
                items_get_mut(c, field)
            },
        }
    }

    /// The text at a path of names with `.` between them.
    pub fn find_str(&self, path: &str) -> (r: Option<&String>)
        ensures
            match r {
                Some(s) => find_str_spec(self.view(), path@) == Some(s@),
                None => find_str_spec(self.view(), path@) is None,
            },
        decreases path@.len(),
    {
        proof {
            split_once_shorter(path@, '.');
        }
        match split_once(path, '.') {
            None => match self.get(path) {
                Some(XmlNode::Text(t)) => Some(t),
                _ => None,
            },
            Some((first, rest)) => match self.get(first.as_str()) {
                None => None,
                Some(n) => n.find_str(rest.as_str()),
            },
        }
    }
}

/// What tells nodes of one name from each other.
#[derive(Clone, Copy, Debug, PartialEq, Eq, Structural)]
pub enum KeyKind {
    /// Group and name of an artifact.
    Artifact,
    /// An id.
    Id,
}

/// What tells nodes of a name from each other, where there may be several.
pub open spec fn key_kind(name: Seq<char>) -> Option<KeyKind> {
    if name == "dependency"@ || name == "plugin"@ || name == "extension"@ || name == "exclusion"@ {
        Some(KeyKind::Artifact)
    } else if name == "execution"@ || name == "reportSet"@ {
        Some(KeyKind::Id)
    } else {
        None
    }
}

/// Nodes that a POM does not hand on.
pub open spec fn kept_back(name: Seq<char>) -> bool {
    name == "modelVersion"@ || name == "artifactId"@ || name == "packaging"@ || name == "profiles"@
        || name == "prerequisites"@
}

/// The text of the first child of a name, or nothing.
pub open spec fn text_in(c: Items, name: Seq<char>) -> Seq<char> {
    match item(c, name) {
        Some(XmlView::Text(t)) => t,
        _ => Seq::empty(),
    }
}

/// The key of a node, where it has children.
pub open spec fn key_of(x: XmlView, kind: KeyKind) -> Option<Seq<Seq<char>>> {
    match x {
        XmlView::Text(_) => None,
        XmlView::Children(c) => Some(
            match kind {
                KeyKind::Artifact => seq![text_in(c, "groupId"@), text_in(c, "artifactId"@)],
                KeyKind::Id => seq![text_in(c, "id"@)],
            },
        ),
    }
}

/// Whether a node with the name and the key of the candidate is there already.
pub open spec fn conflicts(existing: Items, name: Seq<char>, x: XmlView) -> bool {
    match key_kind(name) {
        None => false,
        Some(kind) => key_of(x, kind) is Some && exists|i: int|
            0 <= i < existing.len() && (#[trigger] existing[i]).0 == name && key_of(existing[i].1, kind) == key_of(
                x,
                kind,
            ),
    }
}

/// What merging the first `n` children of `b` into `a` comes to: the children of `a`
/// with more in them, and those to be added.
pub open spec fn merge_items(a: Items, b: XmlView, n: int) -> (Items, Items)
    decreases b, n,
{
    if n <= 0 || b is Text || n > b->Children_0.len() {
        (a, Seq::empty())
    } else {
        let (m, added) = merge_items(a, b, n - 1);
        let e = b->Children_0[n - 1];
        let k = item_index(m, e.0, 0);
        if kept_back(e.0) || conflicts(m, e.0, e.1) {
            (m, added)
        } else if !(0 <= k < m.len()) || key_kind(e.0) is Some {
            (m, added.push(e))
        } else {
            (m.update(k, (m[k].0, merge_spec(m[k].1, e.1))), added)
        }
    }
}

/// What merging `b` into `a` comes to. Where both say something, `a` stands.
pub open spec fn merge_spec(a: XmlView, b: XmlView) -> XmlView
    decreases b, b->Children_0.len() + 1,
{
    match (a, b) {
        (XmlView::Children(x), XmlView::Children(y)) => if x != y {
            let (m, added) = merge_items(x, b, y.len() as int);
            XmlView::Children(m + added)
        } else {
            a
        },
        _ => a,
    }
}

fn key_kind_of(name: &str) -> (r: Option<KeyKind>)
    ensures
        r == key_kind(name@),
{
    if same(name, "dependency") || same(name, "plugin") || same(name, "extension") || same(
        name,
        "exclusion",
    ) {
        Some(KeyKind::Artifact)
    } else if same(name, "execution") || same(name, "reportSet") {
        Some(KeyKind::Id)
    } else {
        None
    }
}

fn is_kept_back(name: &str) -> (r: bool)
    ensures
        r == kept_back(name@),
{
    same(name, "modelVersion") || same(name, "artifactId") || same(name, "packaging") || same(
        name,
        "profiles",
    ) || same(name, "prerequisites")
}

fn child_text(c: &Vec<(String, XmlNode)>, name: &str) -> (r: String)
    ensures
        r@ == text_in(items_view(c@), name@),
{
    let i: usize = find_item(c, name);
    if i < c.len() {
        assert(items_view(c@)[i as int].1 == c@[i as int].1.view());
        match &c[i].1 {
            XmlNode::Text(t) => {
                return t.clone();
            },
            XmlNode::Children(_) => {},
        }
    }
    let none = String::new();
    assert(none@ =~= Seq::empty());
    none
}

/// The key of a node, where it has children.
fn extract_key(node: &XmlNode, kind: KeyKind) -> (r: Option<Vec<String>>)
    ensures
        match r {
            Some(k) => key_of(node.view(), kind) == Some(texts(k@)),
            None => key_of(node.view(), kind) is None,
        },
{
    match node {
        XmlNode::Text(_) => None,
        XmlNode::Children(c) => {
            proof {
                items_of_view(*c);
            }
            let mut k: Vec<String> = Vec::new();
            match kind {
                KeyKind::Artifact => {
                    k.push(child_text(c, "groupId"));
                    k.push(child_text(c, "artifactId"));
                },
                KeyKind::Id => {
                    k.push(child_text(c, "id"));
                },
            }
            assert(texts(k@) =~= key_of(node.view(), kind)->Some_0);
            Some(k)
        },
    }
}

fn same_texts(a: &Vec<String>, b: &Vec<String>) -> (r: bool)
    ensures
        r == (texts(a@) == texts(b@)),
{
    if a.len() != b.len() {
        assert(texts(a@).len() != texts(b@).len());
        return false;
    }
    let mut i: usize = 0;
    while i < a.len()
        invariant
            i <= a@.len(),
            a@.len() == b@.len(),
            forall|k: int| 0 <= k < i ==> texts(a@)[k] == texts(b@)[k],
        decreases a@.len() - i,
    {
        if !same(a[i].as_str(), b[i].as_str()) {
            assert(texts(a@)[i as int] != texts(b@)[i as int]);
            return false;
        }
        i = i + 1;
    }
    assert(texts(a@) =~= texts(b@));
    true
}

/// Whether a node with the name and the key of the candidate is there already.
fn conflicts_by_key(existing: &Vec<(String, XmlNode)>, name: &str, candidate: &XmlNode) -> (r: bool)
    ensures
        r == conflicts(items_view(existing@), name@, candidate.view()),
{
    let kind = match key_kind_of(name) {
        None => {
            return false;
        },
        Some(k) => k,
    };
    let key = match extract_key(candidate, kind) {
        None => {
            return false;
        },
        Some(k) => k,
    };
    let ghost ex = items_view(existing@);
    let mut i: usize = 0;
    while i < existing.len()
        invariant
            i <= existing@.len(),
            ex == items_view(existing@),
            key_kind(name@) == Some(kind),
            key_of(candidate.view(), kind) == Some(texts(key@)),
            forall|k: int|
                0 <= k < i ==> !((#[trigger] ex[k]).0 == name@ && key_of(ex[k].1, kind) == key_of(
                    candidate.view(),
                    kind,
                )),
        decreases existing@.len() - i,
    {
        assert(ex[i as int] == (existing@[i as int].0@, existing@[i as int].1.view()));
        if same(existing[i].0.as_str(), name) {
            if let Some(k) = extract_key(&existing[i].1, kind) {
                if same_texts(&k, &key) {
                    return true;
                }
            }
        }
        i = i + 1;
    }
    false
}

fn copy_items(c: &Vec<(String, XmlNode)>) -> (r: Vec<(String, XmlNode)>)
    ensures
        items_view(r@) == items_view(c@),
{
    let mut out: Vec<(String, XmlNode)> = Vec::new();
    let mut i: usize = 0;
    assert(items_view(out@) =~= items_view(c@).take(0));
    while i < c.len()
        invariant
            i <= c@.len(),
            items_view(out@) == items_view(c@).take(i as int),
        decreases c@.len() - i,
    {
        let ghost before = out@;
        out.push((c[i].0.clone(), c[i].1.copy()));
        proof {
            items_push(before, out@.last());
            assert(items_view(c@).take(i + 1) =~= items_view(c@).take(i as int).push(items_view(c@)[i as int]));
        }
        i = i + 1;
    }
    assert(items_view(c@).take(i as int) =~= items_view(c@));
    out
}

/// What merging one node into another comes to.
fn merged(a: &XmlNode, b: &XmlNode) -> (r: XmlNode)
    ensures
        r.view() == merge_spec(a.view(), b.view()),
    decreases b,
{
    let (x, y) = match (a, b) {
        (XmlNode::Children(x), XmlNode::Children(y)) => (x, y),
        _ => {
            return a.copy();
        },
    };
    proof {
        items_of_view(*x);
        items_of_view(*y);
    }
    if a.same(b) {
        return a.copy();
    }
    let ghost xs = items_view(x@);
    let ghost ys = items_view(y@);
    let ghost bv = b.view();
    let mut m = copy_items(x);
    let mut added: Vec<(String, XmlNode)> = Vec::new();
    assert(items_view(added@) =~= Seq::empty());
    let mut i: usize = 0;
    while i < y.len()
        invariant
            i <= y@.len(),
            ys == items_view(y@),
            bv == XmlView::Children(ys),
            (items_view(m@), items_view(added@)) == merge_items(xs, bv, i as int),
            decreases_to!(b => y),
        decreases y@.len() - i,
    {
        let (name, node) = (&y[i].0, &y[i].1);
        assert(ys[i as int] == (name@, node.view()));
        let k: usize = find_item(&m, name.as_str());
        let ghost mv = items_view(m@);
        let ghost av = items_view(added@);
        if is_kept_back(name.as_str()) || conflicts_by_key(&m, name.as_str(), node) {
        } else if k >= m.len() || key_kind_of(name.as_str()).is_some() {
            let ghost before = added@;
            added.push((name.clone(), node.copy()));
            proof {
                items_push(before, added@.last());
            }
        } else {
            let deeper = merged(&m[k].1, node);
            let ghost before = m@;
            m.set(k, (name.clone(), deeper));
            assert(items_view(m@) =~= mv.update(k as int, (mv[k as int].0, merge_spec(mv[k as int].1, node.view()))));
        }
        i = i + 1;
    }
    let ghost mv = items_view(m@);
    let ghost av = items_view(added@);
    m.append(&mut added);
    proof {
        items_of_view(m);
        assert(items_view(m@) =~= mv + av);
    }
    XmlNode::Children(m)
}

impl XmlNode {
    /// Takes over from another node what this one does not say itself.
    pub fn merge_node(&mut self, from: &XmlNode)
        ensures
            final(self).view() == merge_spec(old(self).view(), from.view()),
    {
        let m = merged(&*self, from);
        *self = m;
    }
}

/// Merging keeps the children of `a` where they are, and every text of `a` as it is:
/// what is taken over comes after them, or inside them.
pub proof fn merge_keeps_own(a: Items, b: XmlView, n: int)
    requires
        b is Children,
        0 <= n <= b->Children_0.len(),
    ensures
        merge_items(a, b, n).0.len() == a.len(),
        forall|i: int|
            0 <= i < a.len() ==> {
                let x = #[trigger] merge_items(a, b, n).0[i];
                &&& x.0 == a[i].0
                &&& a[i].1 is Text ==> x.1 == a[i].1
                &&& a[i].1 is Children ==> x.1 is Children
            },
    decreases n,
{
    if n > 0 {
        merge_keeps_own(a, b, n - 1);
        let m = merge_items(a, b, n - 1).0;
        let e = b->Children_0[n - 1];
        item_index_props(m, e.0, 0);
        assert forall|i: int| 0 <= i < a.len() implies {
            let x = #[trigger] merge_items(a, b, n).0[i];
            &&& x.0 == a[i].0
            &&& a[i].1 is Text ==> x.1 == a[i].1
            &&& a[i].1 is Children ==> x.1 is Children
        } by {
            merge_with_itself(m[i].1, e.1);
            assert(merge_items(a, b, n - 1).0[i].0 == a[i].0);
            assert(m[i].1 is Children ==> merge_spec(m[i].1, e.1) is Children);
        }
    }
}

/// Merging a node into itself changes nothing, and so does merging a text.
pub proof fn merge_with_itself(a: XmlView, b: XmlView)
    ensures
        merge_spec(a, a) == a,
        b is Text ==> merge_spec(a, b) == a,
        a is Text ==> merge_spec(a, b) == a,
{
}

/// A text that a node has keeps its place and its wording through a merge.
pub proof fn merge_keeps_text(a: XmlView, b: XmlView, name: Seq<char>, t: Seq<char>)
    requires
        a is Children,
        item(a->Children_0, name) == Some(XmlView::Text(t)),
    ensures
        merge_spec(a, b) is Children,
        item(merge_spec(a, b)->Children_0, name) == Some(XmlView::Text(t)),
{
    let x = a->Children_0;
    if b is Children && b->Children_0 != x {
        let n = b->Children_0.len() as int;
        merge_keeps_own(x, b, n);
        let (m, added) = merge_items(x, b, n);
        let r = m + added;
        item_index_props(x, name, 0);
        let k = item_index(x, name, 0);
        item_index_props(r, name, 0);
        let j = item_index(r, name, 0);
        assert(r[k] == m[k]);
        assert(merge_items(x, b, n).0[k].0 == x[k].0);
        assert(r[k].0 == name);
        assert(j <= k);
        if j < k {
            assert(r[j] == m[j]);
            assert(merge_items(x, b, n).0[j].0 == x[j].0);
            assert(x[j].0 != name);
        }
    }
}

/// A step through an XML text.
#[derive(Debug, PartialEq, Eq)]
pub enum XmlEvent<S> {
    /// A node begins.
    Start(S),
    /// A piece of text.
    Text(S),
    /// A node ends.
    End,
    /// Something that is passed over: an empty element, a comment, character data in
    /// `CDATA`, a reference, a declaration, or a fault in the text.
    Other,
}

/// A step, its text as characters.
pub type EventView = XmlEvent<Seq<char>>;

impl View for XmlEvent<String> {
    type V = EventView;

    open spec fn view(&self) -> EventView {
        match self {
            XmlEvent::Start(s) => XmlEvent::Start(s@),
            XmlEvent::Text(s) => XmlEvent::Text(s@),
            XmlEvent::End => XmlEvent::End,
            XmlEvent::Other => XmlEvent::Other,
        }
    }
}

/// The reader of the quick-xml crate.
#[verifier::external_type_specification]
#[verifier::external_body]
#[verifier::reject_recursive_types(R)]
pub struct ExReader<R>(Reader<R>);

/// The steps that quick-xml takes through a text.
pub uninterp spec fn xml_events(text: Seq<char>) -> Seq<EventView>;

/// The steps that a reader of the quick-xml crate has yet to take.
pub uninterp spec fn events_left(reader: Reader<&[u8]>) -> Seq<EventView>;

/// Calls `quick_xml::Reader::from_str`. Claims that the steps of the reader depend on
/// the text alone.
#[verifier::external_body]
fn open_xml(xml: &str) -> (r: Reader<&[u8]>)
    ensures
        events_left(r) == xml_events(xml@),
{
    Reader::from_str(xml)
}

/// Calls `quick_xml::Reader::read_event`. Claims that it takes the next step, and that
/// it says so when none is left.
#[verifier::external_body]
fn next_event(reader: &mut Reader<&[u8]>) -> (r: Option<XmlEvent<String>>)
    ensures
        match r {
            Some(e) => events_left(*old(reader)).len() > 0 && e@ == events_left(*old(reader))[0]
                && events_left(*final(reader)) == events_left(*old(reader)).drop_first(),
            None => events_left(*old(reader)).len() == 0 && events_left(*final(reader)).len() == 0,
        },
{
    match reader.read_event() {
        Ok(Event::Start(e)) => Some(XmlEvent::Start(e.name().as_ref().to_owned())),
        Ok(Event::Text(e)) => Some(XmlEvent::Text((*e).to_owned())),
        Ok(Event::End(_)) => Some(XmlEvent::End),
        Ok(Event::Eof) => None,
        Ok(Event::Empty(_) | Event::CData(_) | Event::Comment(_) | Event::Decl(_)) => Some(XmlEvent::Other),
        Ok(Event::PI(_) | Event::DocType(_) | Event::GeneralRef(_)) => Some(XmlEvent::Other),
        Err(_) => Some(XmlEvent::Other),
    }
}

/// The node that children and text come to: its text counts only where it has no
/// children.
pub open spec fn node_of(children: Items, text: Seq<char>) -> XmlView {
    if children.len() == 0 {
        XmlView::Text(text)
    } else {
        XmlView::Children(children)
    }
}

/// The children with one more, unless it is nothing but white space.
pub open spec fn with_child(children: Items, name: Seq<char>, child: XmlView) -> Items {
    match child {
        XmlView::Text(t) => if is_blank(t) {
            children
        } else {
            children.push((name, child))
        },
        XmlView::Children(_) => children.push((name, child)),
    }
}

/// The node whose children and text go on with the given steps, and the steps that
/// are left after its end.
pub open spec fn node_from(events: Seq<EventView>, children: Items, text: Seq<char>) -> (XmlView, Seq<EventView>)
    decreases events.len(),
{
    if events.len() == 0 {
        (node_of(children, text), events)
    } else {
        let rest = events.drop_first();
        match events[0] {
            XmlEvent::Start(name) => {
                let (child, after) = node_from(rest, Seq::empty(), Seq::empty());
                if after.len() <= rest.len() {
                    node_from(after, with_child(children, name, child), text)
                } else {
                    (node_of(children, text), rest)
                }
            },
            XmlEvent::Text(t) => node_from(rest, children, text + t),
            XmlEvent::End => (node_of(children, text), rest),
            XmlEvent::Other => node_from(rest, children, text),
        }
    }
}

/// What is left after a node is no more than there was.
proof fn node_from_shrinks(events: Seq<EventView>, children: Items, text: Seq<char>)
    ensures
        node_from(events, children, text).1.len() <= events.len(),
    decreases events.len(),
{
    if events.len() > 0 {
        let rest = events.drop_first();
        match events[0] {
            XmlEvent::Start(name) => {
                node_from_shrinks(rest, Seq::empty(), Seq::empty());
                let (child, after) = node_from(rest, Seq::empty(), Seq::empty());
                node_from_shrinks(after, with_child(children, name, child), text);
            },
            XmlEvent::Text(t) => {
                node_from_shrinks(rest, children, text + t);
            },
            XmlEvent::End => {},
            XmlEvent::Other => {
                node_from_shrinks(rest, children, text);
            },
        }
    }
}

/// The steps through an XML text.
fn read_events(xml: &str) -> (r: Vec<XmlEvent<String>>)
    ensures
        views(r@) == xml_events(xml@),
{
    let mut reader = open_xml(xml);
    let mut out: Vec<XmlEvent<String>> = Vec::new();
    assert(views(out@) + events_left(reader) =~= xml_events(xml@));
    loop
        invariant
            views(out@) + events_left(reader) == xml_events(xml@),
        ensures
            events_left(reader).len() == 0,
        decreases events_left(reader).len(),
    {
        let ghost before = out@;
        let ghost left = events_left(reader);
        match next_event(&mut reader) {
            None => {
                assert(events_left(reader) =~= left);
                break;
            },
            Some(e) => {
                out.push(e);
                assert(views(out@) + events_left(reader) =~= views(before) + left);
            },
        }
    }
    assert(views(out@) =~= xml_events(xml@));
    out
}

impl XmlNode {
    /// The node whose children and text begin at the given step, and the place of the
    /// step after its end.
    pub fn parse(events: &Vec<XmlEvent<String>>, from: usize) -> (r: (XmlNode, usize))
        requires
            from <= events@.len(),
        ensures
            from <= r.1 <= events@.len(),
            (r.0.view(), views(events@).skip(r.1 as int)) == node_from(
                views(events@).skip(from as int),
                Seq::empty(),
                Seq::empty(),
            ),
        decreases events@.len() - from,
    {
        let ghost evs = views(events@);
        let ghost whole = node_from(evs.skip(from as int), Seq::empty(), Seq::empty());
        let mut children: Vec<(String, XmlNode)> = Vec::new();
        let mut text = String::new();
        assert(items_view(children@) =~= Seq::empty());
        assert(text@ =~= Seq::empty());
        let mut pos: usize = from;
        loop
            invariant_except_break
                node_from(evs.skip(pos as int), items_view(children@), text@) == whole,
            invariant
                from <= pos <= events@.len(),
                evs == views(events@),
            ensures
                (node_of(items_view(children@), text@), evs.skip(pos as int)) == whole,
            decreases events@.len() - pos,
        {
            if pos == events.len() {
                break;
            }
            let ghost here = evs.skip(pos as int);
            assert(here[0] == events@[pos as int]@);
            assert(here.drop_first() =~= evs.skip(pos + 1));
            let at: usize = pos;
            pos = pos + 1;
            match &events[at] {
                XmlEvent::Start(name) => {
                    proof {
                        node_from_shrinks(evs.skip(pos as int), Seq::empty(), Seq::empty());
                    }
                    let (child, after) = XmlNode::parse(events, pos);
                    pos = after;
                    let drop = match &child {
                        XmlNode::Text(t) => blank(t.as_str()),
                        XmlNode::Children(_) => false,
                    };
                    if !drop {
                        let ghost c = children@;
                        children.push((name.clone(), child));
                        proof {
                            items_push(c, children@.last());
                        }
                    }
                },
                XmlEvent::Text(t) => {
                    push_text(&mut text, t.as_str());
                },
                XmlEvent::End => {
                    break;
                },
                XmlEvent::Other => {},
            }
        }
        if children.len() == 0 {
            (XmlNode::Text(text), pos)
        } else {
            proof {
                items_of_view(children);
            }
            (XmlNode::Children(children), pos)
        }
    }
}

/// An XML text without a root node.
#[derive(Clone, Copy, Debug, PartialEq, Eq, Structural)]
pub struct NoRoot;

/// The root among top-level nodes: the last of them.
pub open spec fn root_of(x: XmlView) -> Option<XmlView> {
    match x {
        XmlView::Text(_) => None,
        XmlView::Children(c) => if c.len() > 0 {
            Some(c.last().1)
        } else {
            None
        },
    }
}

/// The root of what the steps through an XML text come to.
pub open spec fn xml_spec(events: Seq<EventView>) -> Option<XmlView> {
    root_of(node_from(events, Seq::empty(), Seq::empty()).0)
}

/// An XML file.
#[derive(Debug, PartialEq, Eq)]
pub struct XmlFile {
    root: XmlNode,
}

impl XmlFile {
    pub closed spec fn view(&self) -> XmlView {
        self.root.view()
    }

    /// Reads an XML file.
    pub fn from_str(xml: &str) -> (r: Result<XmlFile, NoRoot>)
        ensures
            match r {
                Ok(f) => xml_spec(xml_events(xml@)) == Some(f.view()),
                Err(_) => xml_spec(xml_events(xml@)) is None,
            },
    {
        XmlFile::from_events(&read_events(xml))
    }

    /// The file that the steps through an XML text come to.
    pub fn from_events(events: &Vec<XmlEvent<String>>) -> (r: Result<XmlFile, NoRoot>)
        ensures
            match r {
                Ok(f) => xml_spec(views(events@)) == Some(f.view()),
                Err(_) => xml_spec(views(events@)) is None,
            },
    {
        assert(views(events@).skip(0) =~= views(events@));
        match XmlNode::parse(events, 0).0 {
            XmlNode::Text(_) => Err(NoRoot),
            XmlNode::Children(mut items) => {
                proof {
                    items_of_view(items);
                }
                let ghost before = items@;
                match items.pop() {
                    None => Err(NoRoot),
                    Some((_, root)) => {
                        assert(items_view(before).last().1 == root.view());
                        Ok(XmlFile { root })
                    },
                }
            },
        }
    }

    /// The root node.
    pub fn root(&self) -> (r: &XmlNode)
        ensures
            r.view() == self.view(),
    {
        &self.root
    }

    /// The root node, to be changed in place.
    pub fn root_mut(&mut self) -> (r: &mut XmlNode)
        ensures
            (*r).view() == old(self).view(),
            final(self).view() == (*final(r)).view(),
    {
        &mut self.root
    }

    /// A copy of the file.
    pub fn copy(&self) -> (r: XmlFile)
        ensures
            r.view() == self.view(),
    {
        XmlFile { root: self.root.copy() }
    }

    /// Takes over from another POM what this one does not say itself.
    pub fn merge_pom(&mut self, from: &XmlFile)
        ensures
            final(self).view() == merge_spec(old(self).view(), from.view()),
    {
        let mut root = self.root.copy();
        root.merge_node(&from.root);
        self.root = root;
    }
}

} // verus!
