//! KDL documents: nodes with a name, entries and children.
use kdl::{KdlDocument, KdlEntry, KdlError, KdlNode, KdlValue};
use vstd::prelude::*;
use crate::text::{is_digit, same};

verus! {

/// The value of an entry.
#[derive(Debug, PartialEq, Eq)]
pub enum Value {
    Text(String),
    Integer(i128),
    Bool(bool),
    /// A number with a fraction or an exponent, or null.
    Other,
}

/// An argument, or a property where it has a name.
#[derive(Debug, PartialEq, Eq)]
pub struct Entry {
    pub name: Option<String>,
    pub value: Value,
}

/// A node.
#[derive(Debug, PartialEq, Eq)]
pub struct Node {
    pub name: String,
    pub entries: Vec<Entry>,
    pub children: Option<Document>,
}

/// A sequence of nodes.
#[derive(Debug, PartialEq, Eq)]
pub struct Document {
    pub nodes: Vec<Node>,
}

/// A value, its text as characters.
pub enum ValueView {
    Text(Seq<char>),
    Integer(i128),
    Bool(bool),
    Other,
}

/// An entry, its texts as characters.
pub struct EntryView {
    pub name: Option<Seq<char>>,
    pub value: ValueView,
}

/// A node, its texts as characters.
pub struct NodeView {
    pub name: Seq<char>,
    pub entries: Seq<EntryView>,
    pub children: Option<Seq<NodeView>>,
}

impl View for Value {
    type V = ValueView;

    open spec fn view(&self) -> ValueView {
        match self {
            Value::Text(s) => ValueView::Text(s@),
            Value::Integer(i) => ValueView::Integer(*i),
            Value::Bool(b) => ValueView::Bool(*b),
            Value::Other => ValueView::Other,
        }
    }
}

impl View for Entry {
    type V = EntryView;

    open spec fn view(&self) -> EntryView {
        EntryView { name: crate::text::opt_text(self.name), value: self.value@ }
    }
}

impl Node {
    pub open spec fn view(&self) -> NodeView
        decreases self,
    {
        NodeView {
            name: self.name@,
            entries: self.entries@.map_values(|e: Entry| e@),
            children: match &self.children {
                None => None,
                Some(d) => Some(
                    Seq::new(
                        d.nodes@.len(),
                        |i: int| if 0 <= i < d.nodes@.len() { d.nodes@[i].view() } else { arbitrary() },
                    ),
                ),
            },
        }
    }
}

impl Document {
    pub open spec fn view(&self) -> Seq<NodeView> {
        self.nodes@.map_values(|n: Node| n.view())
    }
}

/// The nodes that stand inside a node.
pub proof fn children_view(n: Node)
    ensures
        match n.children {
            None => n.view().children is None,
            Some(d) => n.view().children == Some(d.view()),
        },
{
    if let Some(d) = n.children {
        assert(n.view().children->Some_0 =~= d.view());
    }
}

/// The text of a value that is a text.
pub open spec fn text_of(v: Option<ValueView>) -> Option<Seq<char>> {
    match v {
        Some(ValueView::Text(s)) => Some(s),
        _ => None,
    }
}

/// The first node of a name.
pub open spec fn find_node(d: Seq<NodeView>, name: Seq<char>) -> Option<NodeView>
    decreases d.len(),
{
    if d.len() == 0 {
        None
    } else if d[0].name == name {
        Some(d[0])
    } else {
        find_node(d.drop_first(), name)
    }
}

/// The arguments among the entries of a node.
pub open spec fn args_of(es: Seq<EntryView>) -> Seq<ValueView>
    decreases es.len(),
{
    if es.len() == 0 {
        Seq::empty()
    } else if es.last().name is None {
        args_of(es.drop_last()).push(es.last().value)
    } else {
        args_of(es.drop_last())
    }
}

/// The first argument of a node.
pub open spec fn first_arg(n: NodeView) -> Option<ValueView> {
    if args_of(n.entries).len() > 0 {
        Some(args_of(n.entries)[0])
    } else {
        None
    }
}

/// The first argument of the first node of a name.
pub open spec fn node_arg(d: Seq<NodeView>, name: Seq<char>) -> Option<ValueView> {
    match find_node(d, name) {
        None => None,
        Some(n) => first_arg(n),
    }
}

/// The last property of a name.
pub open spec fn prop_of(es: Seq<EntryView>, name: Seq<char>) -> Option<ValueView>
    decreases es.len(),
{
    if es.len() == 0 {
        None
    } else if es.last().name == Some(name) {
        Some(es.last().value)
    } else {
        prop_of(es.drop_last(), name)
    }
}

/// An optional value, its text as characters.
pub open spec fn opt_value(v: Option<&Value>) -> Option<ValueView> {
    match v {
        Some(x) => Some(x@),
        None => None,
    }
}

/// A copy of the text of a value that is a text.
pub fn text_value(v: Option<&Value>) -> (r: Option<String>)
    ensures
        crate::text::opt_text(r) == text_of(opt_value(v)),
{
    match v {
        Some(Value::Text(s)) => Some(s.clone()),
        _ => None,
    }
}

impl Document {
    /// The first node of a name.
    pub fn get(&self, name: &str) -> (r: Option<&Node>)
        ensures
            match r {
                Some(n) => find_node(self.view(), name@) == Some(n.view()),
                None => find_node(self.view(), name@) is None,
            },
    {
        let mut i: usize = 0;
        assert(self.view().skip(0) =~= self.view());
        while i < self.nodes.len()
            invariant
                i <= self.nodes@.len(),
                find_node(self.view(), name@) == find_node(self.view().skip(i as int), name@),
            decreases self.nodes@.len() - i,
        {
            assert(self.view().skip(i as int)[0] == self.nodes@[i as int].view());
            if same(self.nodes[i].name.as_str(), name) {
                return Some(&self.nodes[i]);
            }
            assert(self.view().skip(i as int).drop_first() =~= self.view().skip(i + 1));
            i = i + 1;
        }
        None
    }

    /// The first argument of the first node of a name.
    pub fn get_arg(&self, name: &str) -> (r: Option<&Value>)
        ensures
            opt_value(r) == node_arg(self.view(), name@),
    {
        match self.get(name) {
            None => None,
            Some(n) => n.arg(),
        }
    }
}

impl Node {
    /// The first argument.
    pub fn arg(&self) -> (r: Option<&Value>)
        ensures
            opt_value(r) == first_arg(self.view()),
    {
        let ghost es = self.view().entries;
        let mut i: usize = 0;
        assert(es.take(0) =~= Seq::empty());
        while i < self.entries.len()
            invariant
                i <= self.entries@.len(),
                es == self.view().entries,
                args_of(es.take(i as int)).len() == 0,
            decreases self.entries@.len() - i,
        {
            let e = &self.entries[i];
            assert(es[i as int] == e@);
            assert(es.take(i + 1).drop_last() =~= es.take(i as int));
            if e.name.is_none() {
                proof {
                    assert(args_of(es.take(i + 1)) == args_of(es.take(i as int)).push(e.value@));
                    args_of_prefix(es, i + 1);
                }
                return Some(&e.value);
            }
            i = i + 1;
        }
        assert(es.take(i as int) =~= es);
        None
    }

    /// The arguments that are texts, in order.
    pub fn text_args(&self) -> (r: Vec<String>)
        ensures
            crate::text::texts(r@) == texts_among(args_of(self.view().entries)),
    {
        let ghost es = self.view().entries;
        let mut out: Vec<String> = Vec::new();
        let mut i: usize = 0;
        assert(es.take(0) =~= Seq::empty());
        assert(crate::text::texts(out@) =~= Seq::empty());
        while i < self.entries.len()
            invariant
                i <= self.entries@.len(),
                es == self.view().entries,
                crate::text::texts(out@) == texts_among(args_of(es.take(i as int))),
            decreases self.entries@.len() - i,
        {
            let e = &self.entries[i];
            assert(es[i as int] == e@);
            assert(es.take(i + 1).drop_last() =~= es.take(i as int));
            let ghost before = args_of(es.take(i as int));
            if e.name.is_none() {
                assert(args_of(es.take(i + 1)) == before.push(e.value@));
                assert(before.push(e.value@).drop_last() =~= before);
                if let Value::Text(s) = &e.value {
                    let ghost o = out@;
                    out.push(s.clone());
                    proof {
                        crate::text::texts_push(o, out@.last());
                    }
                }
            }
            i = i + 1;
        }
        assert(es.take(i as int) =~= es);
        out
    }

    /// The last property of a name.
    pub fn prop(&self, name: &str) -> (r: Option<&Value>)
        ensures
            opt_value(r) == prop_of(self.view().entries, name@),
    {
        let ghost es = self.view().entries;
        let mut n: usize = self.entries.len();
        assert(es.take(n as int) =~= es);
        while n > 0
            invariant
                n <= self.entries@.len(),
                es == self.view().entries,
                prop_of(es, name@) == prop_of(es.take(n as int), name@),
            decreases n,
        {
            let e = &self.entries[n - 1];
            assert(es[n - 1] == e@);
            assert(es.take(n as int).last() == e@);
            if let Some(k) = &e.name {
                if same(k.as_str(), name) {
                    return Some(&e.value);
                }
            }
            assert(es.take(n as int).drop_last() =~= es.take(n - 1));
            n = n - 1;
        }
        None
    }
}

/// The texts among values, in order.
pub open spec fn texts_among(vs: Seq<ValueView>) -> Seq<Seq<char>>
    decreases vs.len(),
{
    if vs.len() == 0 {
        Seq::empty()
    } else {
        match vs.last() {
            ValueView::Text(s) => texts_among(vs.drop_last()).push(s),
            _ => texts_among(vs.drop_last()),
        }
    }
}

/// The arguments of the first entries are the first arguments.
pub proof fn args_of_prefix(es: Seq<EntryView>, n: int)
    requires
        0 <= n <= es.len(),
    ensures
        args_of(es.take(n)).len() <= args_of(es).len(),
        forall|k: int| 0 <= k < args_of(es.take(n)).len() ==> args_of(es)[k] == args_of(es.take(n))[k],
    decreases es.len(),
{
    if n == es.len() {
        assert(es.take(n) =~= es);
    } else {
        args_of_prefix(es.drop_last(), n);
        assert(es.drop_last().take(n) =~= es.take(n));
    }
}

/// A document as the kdl crate holds it.
#[verifier::external_type_specification]
#[verifier::external_body]
pub struct ExKdlDocument(KdlDocument);

/// What the kdl crate says of a text that is no document.
#[verifier::external_type_specification]
#[verifier::external_body]
pub struct ExKdlError(KdlError);

/// The nodes that a document of the kdl crate holds.
pub uninterp spec fn kdl_contents(doc: KdlDocument) -> Seq<NodeView>;

/// Whether a document of the kdl crate holds nodes alone: no comments, no layout,
/// no type annotations and no spellings of its own.
pub uninterp spec fn kdl_bare(doc: KdlDocument) -> bool;

/// The document that the kdl crate reads in a text, or nothing.
pub uninterp spec fn kdl_parse(text: Seq<char>) -> Option<Seq<NodeView>>;

/// The text that the kdl crate writes for a document.
pub uninterp spec fn kdl_format(doc: Seq<NodeView>) -> Seq<char>;

/// Calls `<KdlDocument as FromStr>::from_str`. Claims that the nodes it reads, and
/// whether it refuses the text, depend on the text alone.
#[verifier::external_body]
fn read_kdl(source: &str) -> (r: Result<KdlDocument, KdlError>)
    ensures
        match r {
            Ok(d) => kdl_parse(source@) == Some(kdl_contents(d)),
            Err(_) => kdl_parse(source@) is None,
        },
{
    source.parse::<KdlDocument>()
}

/// Calls `KdlDocument::nodes` and what gives the parts of a `KdlNode`: `name`,
/// `entries`, `children`. Claims that they hand out the contents of the document in
/// order.
#[verifier::external_body]
fn nodes_of(doc: &KdlDocument) -> (r: Document)
    ensures
        r.view() == kdl_contents(*doc),
{
    let value = |v: &KdlValue| match v {
        KdlValue::String(s) => Value::Text(s.clone()),
        KdlValue::Integer(i) => Value::Integer(*i),
        KdlValue::Bool(b) => Value::Bool(*b),
        KdlValue::Float(_) | KdlValue::Null => Value::Other,
    };
    let nodes = doc.nodes().iter().map(|n| Node {
        name: n.name().value().to_owned(),
        entries: n.entries().iter().map(|e| Entry {
            name: e.name().map(|k| k.value().to_owned()), value: value(e.value()),
        }).collect(),
        children: n.children().map(nodes_of),
    });
    Document { nodes: nodes.collect() }
}

/// Calls `KdlDocument::new`, `KdlNode::new` and `KdlEntry::new`, and hangs the parts
/// together. Claims that the document holds the given nodes and nothing besides.
#[verifier::external_body]
fn to_kdl_document(doc: &Document) -> (r: KdlDocument)
    ensures
        kdl_contents(r) == doc.view(),
        kdl_bare(r),
{
    let mut out = KdlDocument::new();
    for n in doc.nodes.iter() {
        let mut node = KdlNode::new(n.name.as_str());
        node.entries_mut().extend(n.entries.iter().map(|e| {
            let mut entry = match &e.value {
                Value::Text(s) => KdlEntry::new(s.as_str()),
                Value::Integer(i) => KdlEntry::new(*i),
                Value::Bool(b) => KdlEntry::new(*b),
                Value::Other => KdlEntry::new(KdlValue::Null) };
            entry.set_name(e.name.as_deref());
            entry }));
        n.children.as_ref().map(|c| node.set_children(to_kdl_document(c)));
        out.nodes_mut().push(node); }
    out
}

/// Characters that KDL forbids in a document, or takes for a line break, and that
/// the kdl crate writes as they stand.
pub open spec fn kdl_refuses(c: char) -> bool {
    ||| c <= '\u{7}'
    ||| c == '\u{b}'
    ||| '\u{e}' <= c <= '\u{1f}'
    ||| c == '\u{85}'
    ||| c == '\u{200e}'
    ||| c == '\u{200f}'
    ||| '\u{2028}' <= c <= '\u{202e}'
    ||| '\u{2066}' <= c <= '\u{2069}'
    ||| c == '\u{feff}'
}

/// Texts that the kdl crate reads back as it wrote them: none of the characters
/// that it writes but does not read, and nothing like `-.5`, which it writes without
/// quotes and takes for a broken number.
pub open spec fn kdl_text(s: Seq<char>) -> bool {
    &&& forall|i: int| 0 <= i < s.len() ==> !kdl_refuses(#[trigger] s[i])
    &&& !(s.len() >= 3 && (s[0] == '-' || s[0] == '+') && s[1] == '.' && is_digit(s[2]))
}

/// An entry that is read back as it was written.
pub open spec fn kdl_entry(e: EntryView) -> bool {
    &&& match e.name {
        Some(k) => kdl_text(k),
        None => true,
    }
    &&& match e.value {
        ValueView::Text(s) => kdl_text(s),
        ValueView::Integer(i) => i > i128::MIN,
        _ => true,
    }
}

/// Nodes that are read back as they were written.
pub open spec fn kdl_nodes(d: Seq<NodeView>) -> bool
    decreases d,
{
    forall|i: int| 0 <= i < d.len() ==> {
        let n = #[trigger] d[i];
        &&& kdl_text(n.name)
        &&& forall|j: int| 0 <= j < n.entries.len() ==> kdl_entry(#[trigger] n.entries[j])
        &&& match n.children {
            Some(c) => kdl_nodes(c),
            None => true,
        }
    }
}

/// Calls `KdlDocument::autoformat` and then `to_string`. Claims that the text
/// depends on the nodes alone, and that `KdlDocument::from_str` reads it back as
/// those nodes where every text and number in them is one that survives.
#[verifier::external_body]
fn write_kdl(doc: KdlDocument) -> (r: String)
    requires
        kdl_bare(doc),
    ensures
        r@ == kdl_format(kdl_contents(doc)),
        kdl_nodes(kdl_contents(doc)) ==> kdl_parse(r@) == Some(kdl_contents(doc)),
{
    let mut doc = doc;
    doc.autoformat();
    doc.to_string()
}

/// A text that is no KDL document.
#[derive(Clone, Copy, Debug, PartialEq, Eq, Structural)]
pub struct NotKdl;

impl Document {
    /// Reads a document.
    pub fn parse(source: &str) -> (r: Result<Document, NotKdl>)
        ensures
            match r {
                Ok(d) => kdl_parse(source@) == Some(d.view()),
                Err(_) => kdl_parse(source@) is None,
            },
    {
        match read_kdl(source) {
            Ok(d) => Ok(nodes_of(&d)),
            Err(_) => Err(NotKdl),
        }
    }

    /// Writes a document, which reads back as it was where its texts allow it.
    pub fn format(&self) -> (r: String)
        ensures
            r@ == kdl_format(self.view()),
            kdl_nodes(self.view()) ==> kdl_parse(r@) == Some(self.view()),
    {
        write_kdl(to_kdl_document(self))
    }
}

} // verus!
