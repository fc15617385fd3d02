//! Templates in POMs: `${name}` stands for the value of a property.
use regex::Regex;
use vstd::prelude::*;
use crate::maven::xml::{
    find_str_spec, get_spec, items_of_view, items_view, XmlFile, XmlNode, XmlView,
};
use crate::order::{
    holds, put, put_keeps_order, put_present, sorted, text_code, text_code_parts, OrdSet, Ranked,
};
use crate::text::{begins, chars_of, contains_char, same, slice_of, split_once, split_once_spec, stands_at};

verus! {

/// How many bytes a character takes in UTF-8.
pub open spec fn char_width(c: char) -> nat {
    if c as u32 <= 0x7f {
        1
    } else if c as u32 <= 0x7ff {
        2
    } else if c as u32 <= 0xffff {
        3
    } else {
        4
    }
}

/// How many bytes a text takes in UTF-8.
pub open spec fn byte_len_spec(s: Seq<char>) -> nat
    decreases s.len(),
{
    if s.len() == 0 {
        0
    } else {
        byte_len_spec(s.drop_last()) + char_width(s.last())
    }
}

proof fn byte_len_front(s: Seq<char>)
    requires
        s.len() > 0,
    ensures
        byte_len_spec(s) == char_width(s[0]) + byte_len_spec(s.drop_first()),
    decreases s.len(),
{
    if s.len() == 1 {
        assert(s.drop_first() =~= Seq::empty());
        assert(s.drop_last() =~= Seq::empty());
        assert(byte_len_spec(s.drop_last()) == 0);
    } else {
        byte_len_front(s.drop_last());
        assert(s.drop_last().drop_first() =~= s.drop_first().drop_last());
    }
}

proof fn byte_len_of_encoding(s: Seq<char>)
    ensures
        byte_len_spec(s) == vstd::utf8::encode_utf8(s).len(),
    decreases s.len(),
{
    if s.len() > 0 {
        byte_len_front(s);
        byte_len_of_encoding(s.drop_first());
        vstd::utf8::char_is_scalar(s[0]);
    }
}

/// Longer beginnings of a text take more bytes.
proof fn byte_len_grows(s: Seq<char>, i: int, j: int)
    requires
        0 <= i <= j <= s.len(),
    ensures
        byte_len_spec(s.take(i)) + (j - i) <= byte_len_spec(s.take(j)),
    decreases j - i,
{
    if i < j {
        byte_len_grows(s, i, j - 1);
        assert(s.take(j).drop_last() =~= s.take(j - 1));
    }
}

/// How many bytes a text takes in UTF-8.
fn byte_len(s: &str) -> (r: usize)
    ensures
        r == byte_len_spec(s@),
{
    proof {
        byte_len_of_encoding(s@);
    }
    s.as_bytes().len()
}

/// What a template looks like: `${`, at least one character, and the first `}` after
/// it, all on one line.
pub const TEMPLATE: &'static str = "\\$\\{(.+?)\\}";

/// The place of the first `}` at or after `j` on the same line.
pub open spec fn close_from(s: Seq<char>, j: int) -> Option<int>
    decreases s.len() - j,
{
    if j < 0 || j >= s.len() || s[j] == '\n' {
        None
    } else if s[j] == '}' {
        Some(j)
    } else {
        close_from(s, j + 1)
    }
}

/// The place of the `}` that ends the template at `i`.
pub open spec fn template_close(s: Seq<char>, i: int) -> Option<int> {
    if 0 <= i && i + 3 < s.len() && s[i] == '$' && s[i + 1] == '{' && s[i + 2] != '\n' {
        close_from(s, i + 3)
    } else {
        None
    }
}

/// Where the first template at or after `i` begins and ends.
pub open spec fn template_from(s: Seq<char>, i: int) -> Option<(int, int)>
    decreases s.len() - i,
{
    if i < 0 || i >= s.len() {
        None
    } else {
        match template_close(s, i) {
            Some(j) => Some((i, j)),
            None => template_from(s, i + 1),
        }
    }
}

/// The place of the first character, from the `k`-th on, that begins at or after a byte.
pub open spec fn char_at_byte(s: Seq<char>, at: nat, k: int) -> int
    decreases s.len() - k,
{
    if k < 0 || k >= s.len() || byte_len_spec(s.take(k)) >= at {
        k
    } else {
        char_at_byte(s, at, k + 1)
    }
}

/// Where the first template that begins at or after a byte begins and ends.
pub open spec fn template_at(s: Seq<char>, at: nat) -> Option<(int, int)> {
    template_from(s, char_at_byte(s, at, 0))
}

proof fn close_from_props(s: Seq<char>, j: int)
    requires
        0 <= j,
    ensures
        match close_from(s, j) {
            Some(e) => j <= e < s.len() && s[e] == '}',
            None => true,
        },
    decreases s.len() - j,
{
    if j < s.len() && s[j] != '\n' && s[j] != '}' {
        close_from_props(s, j + 1);
    }
}

proof fn template_from_props(s: Seq<char>, i: int)
    requires
        0 <= i,
    ensures
        match template_from(s, i) {
            Some((b, e)) => i <= b && b + 3 <= e < s.len() && s[b] == '$' && s[e] == '}',
            None => true,
        },
    decreases s.len() - i,
{
    if i < s.len() {
        if i + 3 < s.len() {
            close_from_props(s, i + 3);
        }
        template_from_props(s, i + 1);
    }
}

proof fn char_at_byte_props(s: Seq<char>, at: nat, k: int)
    requires
        0 <= k <= s.len(),
    ensures
        k <= char_at_byte(s, at, k) <= s.len(),
        char_at_byte(s, at, k) < s.len() ==> byte_len_spec(s.take(char_at_byte(s, at, k))) >= at,
    decreases s.len() - k,
{
    if k < s.len() && byte_len_spec(s.take(k)) < at {
        char_at_byte_props(s, at, k + 1);
    }
}

/// A template lies inside the text and ends after the byte where the search began.
pub proof fn template_at_props(s: Seq<char>, at: nat)
    ensures
        match template_at(s, at) {
            Some((b, e)) => {
                &&& 0 <= b
                &&& b + 3 <= e < s.len()
                &&& at < byte_len_spec(s.take(e + 1)) <= byte_len_spec(s)
            },
            None => true,
        },
{
    let k = char_at_byte(s, at, 0);
    char_at_byte_props(s, at, 0);
    template_from_props(s, k);
    if let Some((b, e)) = template_at(s, at) {
        byte_len_grows(s, k, b);
        byte_len_grows(s, b, e + 1);
        byte_len_grows(s, e + 1, s.len() as int);
        assert(s.take(s.len() as int) =~= s);
    }
}

/// Calls `regex::Regex::find_at` with the pattern of a template. Claims that it finds
/// the first template that begins at or after a byte, up to the first `}` that can end
/// it.
#[verifier::external_body]
fn find_match(pattern: &str, text: &str, at: usize) -> (r: Option<(usize, String)>)
    requires
        pattern@ == TEMPLATE@,
        at <= byte_len_spec(text@),
    ensures
        match r {
            Some((end, m)) => match template_at(text@, at as nat) {
                Some((b, e)) => m@ == text@.subrange(b, e + 1) && end == byte_len_spec(text@.take(e + 1)),
                None => false,
            },
            None => template_at(text@, at as nat) is None,
        },
{
    let m = Regex::new(pattern).ok()?.find_at(text, at)?;
    Some((m.end(), m.as_str().to_owned()))
}

/// What stands between `${` and `}`.
pub open spec fn template_name(s: Seq<char>, b: int, e: int) -> Seq<char> {
    s.subrange(b + 2, e)
}

fn name_of(m: &str) -> (r: String)
    requires
        m@.len() >= 4,
    ensures
        r@ == m@.subrange(2, m@.len() - 1),
{
    let v = chars_of(m);
    slice_of(&v, 2, v.len() - 1)
}

/// The text with every `pat` turned into `val`, from the left.
pub open spec fn replace_spec(s: Seq<char>, pat: Seq<char>, val: Seq<char>) -> Seq<char>
    decreases s.len(),
{
    if pat.len() == 0 || s.len() < pat.len() {
        s
    } else if begins(s, pat) {
        val + replace_spec(s.skip(pat.len() as int), pat, val)
    } else {
        seq![s[0]] + replace_spec(s.drop_first(), pat, val)
    }
}

/// The text with every `pat` turned into `val`, from the left.
pub fn replace(s: &str, pat: &str, val: &str) -> (r: String)
    ensures
        r@ == replace_spec(s@, pat@, val@),
{
    let v = chars_of(s);
    let p = chars_of(pat);
    if p.len() == 0 {
        return s.to_owned();
    }
    let mut out = String::new();
    let mut i: usize = 0;
    assert(out@ =~= Seq::empty());
    assert(s@.skip(0) =~= s@);
    assert(out@ + replace_spec(s@.skip(0), pat@, val@) =~= replace_spec(s@, pat@, val@));
    while i < v.len()
        invariant
            i <= v@.len(),
            v@ == s@,
            p@ == pat@,
            p@.len() > 0,
            out@ + replace_spec(s@.skip(i as int), pat@, val@) == replace_spec(s@, pat@, val@),
        decreases v@.len() - i,
    {
        let ghost rest = s@.skip(i as int);
        let ghost before = out@;
        let n: usize = v.len();
        proof {
            if i + p@.len() <= v@.len() {
                assert(v@.subrange(i as int, i + p@.len()) =~= rest.take(p@.len() as int));
            }
        }
        if stands_at(&v, &p, i) {
            crate::text::push_text(&mut out, val);
            assert(rest.skip(p@.len() as int) =~= s@.skip(i + p@.len()));
            assert(out@ + replace_spec(s@.skip(i + p@.len()), pat@, val@) =~= before + replace_spec(rest, pat@, val@));
            i = i + p.len();
        } else {
            out.push(v[i]);
            assert(rest.drop_first() =~= s@.skip(i + 1));
            proof {
                if rest.len() < p@.len() {
                    assert(replace_spec(rest, pat@, val@) == rest);
                    assert(replace_spec(rest.drop_first(), pat@, val@) == rest.drop_first());
                    assert(seq![rest[0]] + rest.drop_first() =~= rest);
                }
            }
            assert(out@ + replace_spec(s@.skip(i + 1), pat@, val@) =~= before + replace_spec(rest, pat@, val@));
            i = i + 1;
        }
    }
    assert(s@.skip(i as int) =~= Seq::empty());
    assert(out@ =~= replace_spec(s@, pat@, val@));
    out
}

/// Properties by name.
#[derive(Debug, PartialEq, Eq)]
pub struct Props {
    pairs: Vec<(String, String)>,
}

/// What pairs come to: the last of a name counts.
pub open spec fn pairs_map(s: Seq<(String, String)>) -> Map<Seq<char>, Seq<char>>
    decreases s.len(),
{
    if s.len() == 0 {
        Map::empty()
    } else {
        pairs_map(s.drop_last()).insert(s.last().0@, s.last().1@)
    }
}

impl View for Props {
    type V = Map<Seq<char>, Seq<char>>;

    closed spec fn view(&self) -> Map<Seq<char>, Seq<char>> {
        pairs_map(self.pairs@)
    }
}

impl Props {
    pub fn new() -> (r: Props)
        ensures
            r@ == Map::<Seq<char>, Seq<char>>::empty(),
    {
        Props { pairs: Vec::new() }
    }

    /// The value of a property.
    pub fn get(&self, name: &str) -> (r: Option<&String>)
        ensures
            match r {
                Some(v) => self@.contains_key(name@) && self@[name@] == v@,
                None => !self@.contains_key(name@),
            },
    {
        let mut n: usize = self.pairs.len();
        assert(self.pairs@.take(n as int) =~= self.pairs@);
        while n > 0
            invariant
                n <= self.pairs@.len(),
                self@.contains_key(name@) == pairs_map(self.pairs@.take(n as int)).contains_key(name@),
                self@.contains_key(name@) ==> self@[name@] == pairs_map(self.pairs@.take(n as int))[name@],
            decreases n,
        {
            assert(self.pairs@.take(n as int).last() == self.pairs@[n - 1]);
            if same(self.pairs[n - 1].0.as_str(), name) {
                return Some(&self.pairs[n - 1].1);
            }
            assert(self.pairs@.take(n as int).drop_last() =~= self.pairs@.take(n - 1));
            n = n - 1;
        }
        assert(self.pairs@.take(0) =~= Seq::empty());
        None
    }

    /// Gives a property its value.
    pub fn insert(&mut self, name: String, value: String)
        ensures
            final(self)@ == old(self)@.insert(name@, value@),
    {
        let ghost before = self.pairs@;
        self.pairs.push((name, value));
        assert(self.pairs@.drop_last() =~= before);
    }

    /// The properties of both, where these come before the others.
    pub fn over(&self, others: &Props) -> (r: Props)
        ensures
            r@ == others@.union_prefer_right(self@),
    {
        let mut pairs: Vec<(String, String)> = Vec::new();
        let mut i: usize = 0;
        assert(others.pairs@.take(0) =~= Seq::empty());
        while i < others.pairs.len()
            invariant
                i <= others.pairs@.len(),
                pairs_map(pairs@) == pairs_map(others.pairs@.take(i as int)),
            decreases others.pairs@.len() - i,
        {
            let ghost before = pairs@;
            pairs.push((others.pairs[i].0.clone(), others.pairs[i].1.clone()));
            assert(pairs@.drop_last() =~= before);
            assert(others.pairs@.take(i + 1).drop_last() =~= others.pairs@.take(i as int));
            i = i + 1;
        }
        assert(others.pairs@.take(i as int) =~= others.pairs@);
        let mut j: usize = 0;
        assert(self.pairs@.take(0) =~= Seq::empty());
        assert(others@.union_prefer_right(Map::empty()) =~= others@);
        while j < self.pairs.len()
            invariant
                j <= self.pairs@.len(),
                pairs_map(pairs@) == others@.union_prefer_right(pairs_map(self.pairs@.take(j as int))),
            decreases self.pairs@.len() - j,
        {
            let ghost before = pairs@;
            let ghost done = pairs_map(self.pairs@.take(j as int));
            pairs.push((self.pairs[j].0.clone(), self.pairs[j].1.clone()));
            assert(pairs@.drop_last() =~= before);
            assert(self.pairs@.take(j + 1).drop_last() =~= self.pairs@.take(j as int));
            let ghost k = self.pairs@[j as int].0@;
            let ghost v = self.pairs@[j as int].1@;
            assert(others@.union_prefer_right(done).insert(k, v) =~= others@.union_prefer_right(done.insert(k, v)));
            j = j + 1;
        }
        assert(self.pairs@.take(j as int) =~= self.pairs@);
        Props { pairs }
    }
}

/// What a POM says of a property: its own `properties` first, then, for `project.` and
/// a path, what stands at that path.
pub open spec fn reference_of(root: XmlView, name: Seq<char>) -> Option<Seq<char>> {
    let own = match get_spec(root, "properties"@) {
        Some(p) => match get_spec(p, name) {
            Some(XmlView::Text(t)) => Some(t),
            _ => None,
        },
        None => None,
    };
    match own {
        Some(t) => Some(t),
        None => match split_once_spec(name, '.') {
            Some((first, path)) => if first == "project"@ {
                find_str_spec(root, path)
            } else {
                None
            },
            None => None,
        },
    }
}

/// What is known of the names that templates use: what they stand for, and which of them
/// nothing was found for.
pub struct Known {
    pub props: Map<Seq<char>, Seq<char>>,
    pub missing: Seq<Seq<char>>,
}

/// What is known after one more name was looked up, unless it is known already.
pub open spec fn with_reference(known: Known, root: XmlView, name: Seq<char>) -> Known {
    if known.props.contains_key(name) {
        known
    } else {
        match reference_of(root, name) {
            Some(v) => Known { props: known.props.insert(name, v), ..known },
            None => Known { missing: put::<String>(known.missing, name), ..known },
        }
    }
}

/// What is known after the names in the templates of a text, from a byte on, were looked up.
pub open spec fn text_references(known: Known, root: XmlView, s: Seq<char>, at: nat) -> Known
    decreases byte_len_spec(s) - at,
{
    match template_at(s, at) {
        None => known,
        Some((b, e)) => {
            proof {
                template_at_props(s, at);
            }
            text_references(
                with_reference(known, root, template_name(s, b, e)),
                root,
                s,
                byte_len_spec(s.take(e + 1)),
            )
        },
    }
}

/// What is known after the names in the templates of the first `n` children were looked up.
pub open spec fn items_references(known: Known, root: XmlView, x: XmlView, n: int) -> Known
    decreases x, n,
{
    if n <= 0 || x is Text || n > x->Children_0.len() {
        known
    } else {
        references_spec(items_references(known, root, x, n - 1), root, x->Children_0[n - 1].1)
    }
}

/// What is known after the names in the templates of a node were looked up.
pub open spec fn references_spec(known: Known, root: XmlView, x: XmlView) -> Known
    decreases x, x->Children_0.len() + 1,
{
    match x {
        XmlView::Text(s) => text_references(known, root, s, 0),
        XmlView::Children(c) => items_references(known, root, x, c.len() as int),
    }
}

/// Whether a name is used by a template of a text, from a byte on.
pub open spec fn text_names(s: Seq<char>, at: nat, name: Seq<char>) -> bool
    decreases byte_len_spec(s) - at,
{
    match template_at(s, at) {
        None => false,
        Some((b, e)) => {
            proof {
                template_at_props(s, at);
            }
            template_name(s, b, e) == name || text_names(s, byte_len_spec(s.take(e + 1)), name)
        },
    }
}

/// Whether a name is used by a template in the first `n` children.
pub open spec fn items_name(x: XmlView, n: int, name: Seq<char>) -> bool
    decreases x, n,
{
    if n <= 0 || x is Text || n > x->Children_0.len() {
        false
    } else {
        items_name(x, n - 1, name) || names(x->Children_0[n - 1].1, name)
    }
}

/// Whether a name is used by a template of a node.
pub open spec fn names(x: XmlView, name: Seq<char>) -> bool
    decreases x, x->Children_0.len() + 1,
{
    match x {
        XmlView::Text(s) => text_names(s, 0, name),
        XmlView::Children(c) => items_name(x, c.len() as int, name),
    }
}

/// A text with the templates from a byte on replaced by what they stand for. After a
/// replacement the search goes on at the byte where the template ended.
pub open spec fn apply_text(props: Map<Seq<char>, Seq<char>>, s: Seq<char>, at: nat) -> Seq<char>
    decreases usize::MAX + 1 - at,
{
    if at < byte_len_spec(s) && byte_len_spec(s) <= usize::MAX {
        match template_at(s, at) {
            None => s,
            Some((b, e)) => {
                proof {
                    template_at_props(s, at);
                }
                let name = template_name(s, b, e);
                let t = if props.contains_key(name) {
                    replace_spec(s, s.subrange(b, e + 1), props[name])
                } else {
                    s
                };
                apply_text(props, t, byte_len_spec(s.take(e + 1)))
            },
        }
    } else {
        s
    }
}

/// A node with its templates replaced by what they stand for.
pub open spec fn apply_spec(props: Map<Seq<char>, Seq<char>>, x: XmlView) -> XmlView
    decreases x,
{
    match x {
        XmlView::Text(s) => XmlView::Text(apply_text(props, s, 0)),
        XmlView::Children(c) => XmlView::Children(
            Seq::new(
                c.len(),
                |i: int| if 0 <= i < c.len() { (c[i].0, apply_spec(props, c[i].1)) } else { arbitrary() },
            ),
        ),
    }
}

/// A POM with its templates replaced. What is given comes first, then what the system
/// says, then what the POM itself says.
pub open spec fn templates_spec(
    root: XmlView,
    props: Map<Seq<char>, Seq<char>>,
    system: Map<Seq<char>, Seq<char>>,
) -> XmlView {
    apply_spec(references_spec(none_missing(system.union_prefer_right(props)), root, root).props, root)
}

/// Properties, with no name that nothing was found for.
pub open spec fn none_missing(props: Map<Seq<char>, Seq<char>>) -> Known {
    Known { props, missing: Seq::empty() }
}

/// Whether properties hold all that others hold.
pub open spec fn keeps(before: Map<Seq<char>, Seq<char>>, after: Map<Seq<char>, Seq<char>>) -> bool {
    forall|k: Seq<char>| #[trigger] before.contains_key(k) ==> after.contains_key(k) && after[k] == before[k]
}

/// What a look-up leaves: all that was known, and besides it nothing but what the POM says.
pub open spec fn grows(before: Known, after: Known, root: XmlView) -> bool {
    &&& keeps(before.props, after.props)
    &&& forall|k: Seq<char>|
        #[trigger] after.props.contains_key(k) && !before.props.contains_key(k) ==> reference_of(root, k) == Some(
            after.props[k],
        )
    &&& forall|k: Seq<char>| before.missing.contains(k) ==> #[trigger] after.missing.contains(k)
    &&& forall|k: Seq<char>|
        #[trigger] after.missing.contains(k) && !before.missing.contains(k) ==> reference_of(root, k) is None
    &&& sorted::<String>(after.missing)
}

/// Whether a name is known, or known to be missing.
pub open spec fn looked_up(known: Known, root: XmlView, name: Seq<char>) -> bool {
    known.props.contains_key(name) || (reference_of(root, name) is None && known.missing.contains(name))
}

proof fn grows_on(a: Known, b: Known, c: Known, root: XmlView)
    requires
        grows(a, b, root),
        grows(b, c, root),
    ensures
        grows(a, c, root),
{
    assert forall|k: Seq<char>| #[trigger] a.props.contains_key(k) implies c.props.contains_key(k) && c.props[k]
        == a.props[k] by {
        assert(b.props.contains_key(k));
    }
    assert forall|k: Seq<char>| #[trigger] c.props.contains_key(k) && !a.props.contains_key(k) implies reference_of(
        root,
        k,
    ) == Some(c.props[k]) by {
        if b.props.contains_key(k) {
            assert(c.props[k] == b.props[k]);
        }
    }
    assert forall|k: Seq<char>| a.missing.contains(k) implies #[trigger] c.missing.contains(k) by {
        assert(b.missing.contains(k));
    }
    assert forall|k: Seq<char>| #[trigger] c.missing.contains(k) && !a.missing.contains(k) implies reference_of(
        root,
        k,
    ) is None by {
        if b.missing.contains(k) {
            assert(b.missing.contains(k) && !a.missing.contains(k));
        }
    }
}

proof fn looked_up_stays(before: Known, after: Known, root: XmlView, name: Seq<char>)
    requires
        grows(before, after, root),
        looked_up(before, root, name),
    ensures
        looked_up(after, root, name),
{
    if before.props.contains_key(name) {
        assert(after.props.contains_key(name));
    } else {
        assert(after.missing.contains(name));
    }
}

/// The texts of one sort code are the same.
proof fn text_is_there(s: Seq<Seq<char>>, x: Seq<char>)
    requires
        holds::<String>(s, x),
    ensures
        s.contains(x),
{
    let k = choose|k: int| 0 <= k < s.len() && String::code(#[trigger] s[k]) == String::code(x);
    let e = Seq::<u64>::empty();
    assert(text_code(s[k]) + e =~= text_code(s[k]));
    assert(text_code(x) + e =~= text_code(x));
    text_code_parts(s[k], x, e, e);
}

proof fn with_reference_grows(known: Known, root: XmlView, name: Seq<char>)
    requires
        sorted::<String>(known.missing),
    ensures
        grows(known, with_reference(known, root, name), root),
        looked_up(with_reference(known, root, name), root, name),
        looked_up(known, root, name) ==> with_reference(known, root, name) == known,
{
    put_keeps_order::<String>(known.missing, name);
    text_is_there(put::<String>(known.missing, name), name);
    if known.missing.contains(name) {
        let k = choose|k: int| 0 <= k < known.missing.len() && known.missing[k] == name;
        assert(String::code(known.missing[k]) == String::code(name));
        put_present::<String>(known.missing, name);
    }
}

proof fn text_references_grow(known: Known, root: XmlView, s: Seq<char>, at: nat)
    requires
        sorted::<String>(known.missing),
    ensures
        grows(known, text_references(known, root, s, at), root),
        forall|k: Seq<char>| #[trigger] text_names(s, at, k) ==> looked_up(text_references(known, root, s, at), root, k),
    decreases byte_len_spec(s) - at,
{
    if let Some((b, e)) = template_at(s, at) {
        template_at_props(s, at);
        let name = template_name(s, b, e);
        let more = with_reference(known, root, name);
        let end = byte_len_spec(s.take(e + 1));
        with_reference_grows(known, root, name);
        text_references_grow(more, root, s, end);
        let all = text_references(known, root, s, at);
        assert(all == text_references(more, root, s, end));
        grows_on(known, more, all, root);
        looked_up_stays(more, all, root, name);
        assert forall|k: Seq<char>| #[trigger] text_names(s, at, k) implies looked_up(all, root, k) by {
            assert(name == k || text_names(s, end, k));
        }
    }
}

proof fn items_references_grow(known: Known, root: XmlView, x: XmlView, n: int)
    requires
        sorted::<String>(known.missing),
    ensures
        grows(known, items_references(known, root, x, n), root),
        forall|k: Seq<char>| #[trigger] items_name(x, n, k) ==> looked_up(
            items_references(known, root, x, n),
            root,
            k,
        ),
    decreases x, n,
{
    if !(n <= 0 || x is Text || n > x->Children_0.len()) {
        let before = items_references(known, root, x, n - 1);
        let all = items_references(known, root, x, n);
        let y = x->Children_0[n - 1].1;
        items_references_grow(known, root, x, n - 1);
        references_grow(before, root, y);
        grows_on(known, before, all, root);
        assert forall|k: Seq<char>| #[trigger] items_name(x, n, k) implies looked_up(all, root, k) by {
            if items_name(x, n - 1, k) {
                looked_up_stays(before, all, root, k);
            } else {
                assert(names(y, k));
            }
        }
    }
}

/// Looking names up changes no property and forgets no missing name. What it adds is what the
/// POM says: a property for a name that the POM has something for, and a missing name for one
/// that it has nothing for. Each name that the node uses is known afterwards, or missing.
pub proof fn references_grow(known: Known, root: XmlView, x: XmlView)
    requires
        sorted::<String>(known.missing),
    ensures
        grows(known, references_spec(known, root, x), root),
        forall|k: Seq<char>| #[trigger] names(x, k) ==> looked_up(references_spec(known, root, x), root, k),
    decreases x, x->Children_0.len() + 1,
{
    match x {
        XmlView::Text(s) => {
            text_references_grow(known, root, s, 0);
            assert forall|k: Seq<char>| #[trigger] names(x, k) implies looked_up(
                references_spec(known, root, x),
                root,
                k,
            ) by {
                assert(text_names(s, 0, k));
            }
        },
        XmlView::Children(c) => {
            items_references_grow(known, root, x, c.len() as int);
            assert forall|k: Seq<char>| #[trigger] names(x, k) implies looked_up(
                references_spec(known, root, x),
                root,
                k,
            ) by {
                assert(items_name(x, c.len() as int, k));
            }
        },
    }
}

proof fn text_references_settle(known: Known, root: XmlView, s: Seq<char>, at: nat)
    requires
        sorted::<String>(known.missing),
        forall|k: Seq<char>| #[trigger] text_names(s, at, k) ==> looked_up(known, root, k),
    ensures
        text_references(known, root, s, at) == known,
    decreases byte_len_spec(s) - at,
{
    if let Some((b, e)) = template_at(s, at) {
        template_at_props(s, at);
        let name = template_name(s, b, e);
        let end = byte_len_spec(s.take(e + 1));
        assert(text_names(s, at, name));
        with_reference_grows(known, root, name);
        assert forall|k: Seq<char>| #[trigger] text_names(s, end, k) implies looked_up(known, root, k) by {
            assert(text_names(s, at, k));
        }
        text_references_settle(known, root, s, end);
    }
}

proof fn items_references_settle(known: Known, root: XmlView, x: XmlView, n: int)
    requires
        sorted::<String>(known.missing),
        forall|k: Seq<char>| #[trigger] items_name(x, n, k) ==> looked_up(known, root, k),
    ensures
        items_references(known, root, x, n) == known,
    decreases x, n,
{
    if !(n <= 0 || x is Text || n > x->Children_0.len()) {
        let y = x->Children_0[n - 1].1;
        assert forall|k: Seq<char>| #[trigger] items_name(x, n - 1, k) implies looked_up(known, root, k) by {
            assert(items_name(x, n, k));
        }
        assert forall|k: Seq<char>| #[trigger] names(y, k) implies looked_up(known, root, k) by {
            assert(items_name(x, n, k));
        }
        items_references_settle(known, root, x, n - 1);
        references_settle(known, root, y);
    }
}

proof fn references_settle(known: Known, root: XmlView, x: XmlView)
    requires
        sorted::<String>(known.missing),
        forall|k: Seq<char>| #[trigger] names(x, k) ==> looked_up(known, root, k),
    ensures
        references_spec(known, root, x) == known,
    decreases x, x->Children_0.len() + 1,
{
    match x {
        XmlView::Text(s) => {
            assert forall|k: Seq<char>| #[trigger] text_names(s, 0, k) implies looked_up(known, root, k) by {
                assert(names(x, k));
            }
            text_references_settle(known, root, s, 0);
        },
        XmlView::Children(c) => {
            assert forall|k: Seq<char>| #[trigger] items_name(x, c.len() as int, k) implies looked_up(
                known,
                root,
                k,
            ) by {
                assert(names(x, k));
            }
            items_references_settle(known, root, x, c.len() as int);
        },
    }
}

/// A second equal look-up changes nothing.
pub proof fn second_look_up_changes_nothing(known: Known, root: XmlView, x: XmlView)
    requires
        sorted::<String>(known.missing),
    ensures
        references_spec(references_spec(known, root, x), root, x) == references_spec(known, root, x),
{
    references_grow(known, root, x);
    references_settle(references_spec(known, root, x), root, x);
}

/// What is given comes before what the system says, and both before what the POM says.
pub proof fn precedence_of_properties(
    root: XmlView,
    props: Map<Seq<char>, Seq<char>>,
    system: Map<Seq<char>, Seq<char>>,
    k: Seq<char>,
)
    ensures
        ({
            let all = references_spec(none_missing(system.union_prefer_right(props)), root, root).props;
            &&& props.contains_key(k) ==> all.contains_key(k) && all[k] == props[k]
            &&& !props.contains_key(k) && system.contains_key(k) ==> all.contains_key(k) && all[k] == system[k]
            &&& !props.contains_key(k) && !system.contains_key(k) && all.contains_key(k) ==> reference_of(root, k)
                == Some(all[k])
        }),
{
    let known = none_missing(system.union_prefer_right(props));
    references_grow(known, root, root);
    assert(props.contains_key(k) || system.contains_key(k) <==> known.props.contains_key(k));
}

fn find_reference(root: &XmlNode, name: &str) -> (r: Option<String>)
    ensures
        crate::text::opt_text(r) == reference_of(root.view(), name@),
{
    if let Some(p) = root.get("properties") {
        if let Some(XmlNode::Text(t)) = p.get(name) {
            return Some(t.clone());
        }
    }
    match split_once(name, '.') {
        Some((first, path)) => if same(first.as_str(), "project") {
            match root.find_str(path.as_str()) {
                Some(s) => Some(s.clone()),
                None => None,
            }
        } else {
            None
        },
        None => None,
    }
}

/// Looks up the names in the templates of a node, and keeps apart those that nothing is found
/// for.
pub fn resolve_template_references(
    props: &mut Props,
    missing: &mut OrdSet<String>,
    root: &XmlNode,
    node: &XmlNode,
)
    ensures
        (Known { props: final(props)@, missing: final(missing)@ }) == references_spec(
            Known { props: old(props)@, missing: old(missing)@ },
            root.view(),
            node.view(),
        ),
    decreases node,
{
    match node {
        XmlNode::Text(v) => {
            if !contains_char(v.as_str(), '$') {
                proof {
                    no_template(v@, 0);
                }
                return;
            }
            let mut pos: usize = 0;
            let ghost whole = text_references(Known { props: props@, missing: missing@ }, root.view(), v@, 0);
            loop
                invariant_except_break
                    text_references(Known { props: props@, missing: missing@ }, root.view(), v@, pos as nat) == whole,
                invariant
                    pos <= byte_len_spec(v@),
                ensures
                    (Known { props: props@, missing: missing@ }) == whole,
                decreases byte_len_spec(v@) - pos,
            {
                proof {
                    template_at_props(v@, pos as nat);
                }
                match find_match(TEMPLATE, v.as_str(), pos) {
                    None => {
                        break;
                    },
                    Some((end, m)) => {
                        let name = name_of(m.as_str());
                        proof {
                            let (b, e) = template_at(v@, pos as nat)->Some_0;
                            assert(name@ =~= template_name(v@, b, e));
                        }
                        if props.get(name.as_str()).is_none() {
                            match find_reference(root, name.as_str()) {
                                Some(val) => {
                                    props.insert(name, val);
                                },
                                None => {
                                    missing.insert(name);
                                },
                            }
                        }
                        pos = end;
                    },
                }
            }
        },
        XmlNode::Children(c) => {
            proof {
                items_of_view(*c);
            }
            let ghost x = node.view();
            let ghost start = Known { props: props@, missing: missing@ };
            let mut i: usize = 0;
            while i < c.len()
                invariant
                    i <= c@.len(),
                    x == XmlView::Children(items_view(c@)),
                    (Known { props: props@, missing: missing@ }) == items_references(start, root.view(), x, i as int),
                    decreases_to!(node => c),
                decreases c@.len() - i,
            {
                assert(x->Children_0[i as int].1 == c@[i as int].1.view());
                resolve_template_references(props, missing, root, &c[i].1);
                i = i + 1;
            }
        },
    }
}

/// A text without a dollar sign has no templates.
proof fn no_template(s: Seq<char>, i: int)
    requires
        !s.contains('$'),
        0 <= i,
    ensures
        template_from(s, i) is None,
        i == 0 ==> template_at(s, 0) is None,
    decreases s.len() - i,
{
    if i < s.len() {
        no_template(s, i + 1);
        assert(s.contains(s[i]));
    }
}

/// A text without a dollar sign is left as it is.
pub proof fn plain_text_is_kept(props: Map<Seq<char>, Seq<char>>, s: Seq<char>)
    requires
        !s.contains('$'),
    ensures
        apply_text(props, s, 0) == s,
{
    no_template(s, 0);
}

/// A text with its templates replaced.
fn applied_text(props: &Props, v: &String) -> (r: String)
    ensures
        r@ == apply_text(props@, v@, 0),
{
    if !contains_char(v.as_str(), '$') {
        proof {
            plain_text_is_kept(props@, v@);
        }
        return v.clone();
    }
    let mut s = v.clone();
    let mut pos: usize = 0;
    loop
        invariant_except_break
            apply_text(props@, s@, pos as nat) == apply_text(props@, v@, 0),
        ensures
            s@ == apply_text(props@, v@, 0),
        decreases usize::MAX - pos,
    {
        if pos >= byte_len(s.as_str()) {
            break;
        }
        proof {
            template_at_props(s@, pos as nat);
        }
        match find_match(TEMPLATE, s.as_str(), pos) {
            None => {
                break;
            },
            Some((end, m)) => {
                let name = name_of(m.as_str());
                proof {
                    let (b, e) = template_at(s@, pos as nat)->Some_0;
                    assert(name@ =~= template_name(s@, b, e));
                }
                if let Some(val) = props.get(name.as_str()) {
                    s = replace(s.as_str(), m.as_str(), val.as_str());
                }
                pos = end;
            },
        }
    }
    s
}

/// A node with its templates replaced.
fn applied(props: &Props, node: &XmlNode) -> (r: XmlNode)
    ensures
        r.view() == apply_spec(props@, node.view()),
    decreases node,
{
    match node {
        XmlNode::Text(v) => XmlNode::Text(applied_text(props, v)),
        XmlNode::Children(c) => {
            let mut out: Vec<(String, XmlNode)> = Vec::new();
            let mut i: usize = 0;
            while i < c.len()
                invariant
                    i <= c@.len(),
                    out@.len() == i,
                    forall|k: int|
                        0 <= k < i ==> (#[trigger] out@[k]).0@ == c@[k].0@ && out@[k].1.view() == apply_spec(
                            props@,
                            c@[k].1.view(),
                        ),
                    decreases_to!(node => c),
                decreases c@.len() - i,
            {
                out.push((c[i].0.clone(), applied(props, &c[i].1)));
                i = i + 1;
            }
            proof {
                items_of_view(out);
                items_of_view(*c);
                assert(apply_spec(props@, node.view())->Children_0 =~= items_view(out@));
            }
            XmlNode::Children(out)
        },
    }
}

/// Replaces the templates of a node by what they stand for.
pub fn apply_templates(props: &Props, node: &mut XmlNode)
    ensures
        final(node).view() == apply_spec(props@, old(node).view()),
{
    let r = applied(props, &*node);
    *node = r;
}

impl XmlFile {
    /// Replaces templates by what they stand for: what is given comes first, then what
    /// the system says, then what the POM itself says.
    pub fn replace_templates(&mut self, props: &Props, system: &Props)
        ensures
            final(self).view() == templates_spec(old(self).view(), props@, system@),
    {
        let mut all = props.over(system);
        let mut missing: OrdSet<String> = OrdSet::new();
        resolve_template_references(&mut all, &mut missing, self.root(), self.root());
        apply_templates(&all, self.root_mut());
    }
}

/// What is known of the system that a POM is read on.
#[derive(Debug, PartialEq, Eq)]
pub struct SystemInfo {
    /// The Java installation, or nothing.
    pub java_home: String,
    /// The version of Java, where it is known.
    pub java_version: Option<String>,
    pub os_name: String,
    pub os_arch: String,
    /// The home of the user, where it is known.
    pub user_home: Option<String>,
    /// The directory that the program was started in, or nothing.
    pub user_dir: String,
    pub file_separator: String,
    pub path_separator: String,
}

/// The properties with one more, where it is known.
pub open spec fn with_known(
    props: Map<Seq<char>, Seq<char>>,
    name: Seq<char>,
    value: Option<String>,
) -> Map<Seq<char>, Seq<char>> {
    match value {
        Some(v) => props.insert(name, v@),
        None => props,
    }
}

/// The properties that the system gives.
pub open spec fn system_spec(s: SystemInfo) -> Map<Seq<char>, Seq<char>> {
    let home = Map::<Seq<char>, Seq<char>>::empty().insert("java.home"@, s.java_home@);
    let java = with_known(home, "java.version"@, s.java_version);
    let os = java.insert("os.name"@, s.os_name@).insert("os.arch"@, s.os_arch@);
    let user = with_known(os, "user.home"@, s.user_home).insert("user.dir"@, s.user_dir@);
    user.insert("file.separator"@, s.file_separator@).insert("path.separator"@, s.path_separator@)
}

/// The properties that the system gives.
pub fn java_system_properties(info: &SystemInfo) -> (r: Props)
    ensures
        r@ == system_spec(*info),
{
    let mut props = Props::new();
    props.insert("java.home".to_owned(), info.java_home.clone());
    if let Some(v) = &info.java_version {
        props.insert("java.version".to_owned(), v.clone());
    }
    props.insert("os.name".to_owned(), info.os_name.clone());
    props.insert("os.arch".to_owned(), info.os_arch.clone());
    if let Some(h) = &info.user_home {
        props.insert("user.home".to_owned(), h.clone());
    }
    props.insert("user.dir".to_owned(), info.user_dir.clone());
    props.insert("file.separator".to_owned(), info.file_separator.clone());
    props.insert("path.separator".to_owned(), info.path_separator.clone());
    props
}

} // verus!
