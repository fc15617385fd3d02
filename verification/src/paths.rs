//! Paths, written with `/` between their parts, and how they come from the system and go back.
use vstd::prelude::*;
use crate::order::{push_text_code, text_code, views, Duplicate, Ranked};
use crate::text::{
    begins, chars_of, joined, opt_text, push_text, replace_char, replace_char_spec, rfind_char, rsplit_once,
    rsplit_once_spec, same, slice_of, split_all, split_spec, strip_prefix, texts,
};

verus! {

/// A part of a path.
#[derive(Debug, PartialEq, Eq)]
pub enum Part<S> {
    /// The `/` that an absolute path begins with.
    Root,
    /// The `.` that a relative path begins with.
    Here,
    /// A `..`.
    Up,
    /// A name.
    Name(S),
}

/// A part of a path, its name as characters.
pub type PartView = Part<Seq<char>>;

impl View for Part<String> {
    type V = PartView;

    open spec fn view(&self) -> PartView {
        match self {
            Part::Root => Part::Root,
            Part::Here => Part::Here,
            Part::Up => Part::Up,
            Part::Name(s) => Part::Name(s@),
        }
    }
}

/// The parts that pieces between one `/` and the next come to: an empty piece and a
/// `.` come to nothing.
pub open spec fn parts_among(pieces: Seq<Seq<char>>) -> Seq<PartView>
    decreases pieces.len(),
{
    if pieces.len() == 0 {
        Seq::empty()
    } else {
        let before = parts_among(pieces.drop_last());
        let p = pieces.last();
        if p.len() == 0 || p == "."@ {
            before
        } else if p == ".."@ {
            before.push(Part::Up)
        } else {
            before.push(Part::Name(p))
        }
    }
}

/// Whether a path is absolute.
pub open spec fn is_absolute_spec(s: Seq<char>) -> bool {
    s.len() > 0 && s[0] == '/'
}

/// What a path begins with before its names.
pub open spec fn path_head(s: Seq<char>) -> Seq<PartView> {
    if is_absolute_spec(s) {
        seq![Part::Root]
    } else if split_spec(s, '/')[0] == "."@ {
        seq![Part::Here]
    } else {
        Seq::empty()
    }
}

/// The parts of a path.
pub open spec fn parts_spec(s: Seq<char>) -> Seq<PartView> {
    path_head(s) + parts_among(split_spec(s, '/'))
}

/// Whether a path is absolute.
pub fn is_absolute(s: &str) -> (r: bool)
    ensures
        r == is_absolute_spec(s@),
{
    let v = chars_of(s);
    v.len() > 0 && v[0] == '/'
}

/// The parts of a path.
pub fn parts_of(s: &str) -> (r: Vec<Part<String>>)
    ensures
        views(r@) == parts_spec(s@),
{
    let pieces = split_all(s, '/');
    let ghost ps = texts(pieces@);
    let mut out: Vec<Part<String>> = Vec::new();
    if is_absolute(s) {
        out.push(Part::Root);
        assert(views(out@) =~= path_head(s@));
    } else if same(pieces[0].as_str(), ".") {
        out.push(Part::Here);
        assert(views(out@) =~= path_head(s@));
    }
    assert(ps[0] == pieces@[0]@);
    assert(views(out@) =~= path_head(s@));
    let mut i: usize = 0;
    assert(ps.take(0) =~= Seq::empty());
    assert(path_head(s@) + parts_among(ps.take(0)) =~= path_head(s@));
    while i < pieces.len()
        invariant
            i <= pieces@.len(),
            ps == texts(pieces@),
            ps == split_spec(s@, '/'),
            views(out@) == path_head(s@) + parts_among(ps.take(i as int)),
        decreases pieces@.len() - i,
    {
        let p = &pieces[i];
        assert(ps[i as int] == p@);
        assert(ps.take(i + 1).drop_last() =~= ps.take(i as int));
        let ghost before = out@;
        proof {
            reveal_strlit("");
        }
        if same(p.as_str(), "") || same(p.as_str(), ".") {
            assert(p@ =~= ""@ || p@ == "."@);
        } else if same(p.as_str(), "..") {
            out.push(Part::Up);
            assert(views(out@) =~= views(before).push(Part::Up));
        } else {
            assert(p@.len() > 0) by {
                if p@.len() == 0 {
                    assert(p@ =~= ""@);
                }
            }
            out.push(Part::Name(p.clone()));
            assert(views(out@) =~= views(before).push(Part::Name(p@)));
        }
        assert(views(out@) =~= path_head(s@) + parts_among(ps.take(i + 1)));
        i = i + 1;
    }
    assert(ps.take(i as int) =~= ps);
    out
}

/// The sort code of the parts of a path.
pub open spec fn parts_code(parts: Seq<PartView>) -> Seq<u64>
    decreases parts.len(),
{
    if parts.len() == 0 {
        Seq::empty()
    } else {
        parts_code(parts.drop_last()) + match parts.last() {
            Part::Root => seq![1u64],
            Part::Here => seq![2u64],
            Part::Up => seq![3u64],
            Part::Name(s) => seq![4u64] + text_code(s),
        }
    }
}

/// The sort code of a path: paths are ordered part by part.
pub open spec fn path_code(s: Seq<char>) -> Seq<u64> {
    parts_code(parts_spec(s)).push(0)
}

/// Appends the sort code of a path.
pub fn push_path_code(out: &mut Vec<u64>, s: &str)
    ensures
        final(out)@ == old(out)@ + path_code(s@),
{
    let parts = parts_of(s);
    let ghost ps = parts_spec(s@);
    let mut i: usize = 0;
    assert(ps.take(0) =~= Seq::empty());
    assert(out@ =~= old(out)@ + parts_code(ps.take(0)));
    while i < parts.len()
        invariant
            i <= parts@.len(),
            ps == views(parts@),
            out@ == old(out)@ + parts_code(ps.take(i as int)),
        decreases parts@.len() - i,
    {
        assert(ps[i as int] == parts@[i as int]@);
        assert(ps.take(i + 1).drop_last() =~= ps.take(i as int));
        match &parts[i] {
            Part::Root => {
                out.push(1);
            },
            Part::Here => {
                out.push(2);
            },
            Part::Up => {
                out.push(3);
            },
            Part::Name(n) => {
                out.push(4);
                push_text_code(out, n.as_str());
            },
        }
        i = i + 1;
        assert(out@ =~= old(out)@ + parts_code(ps.take(i as int)));
    }
    assert(ps.take(i as int) =~= ps);
    out.push(0);
    assert(out@ =~= old(out)@ + path_code(s@));
}

/// A path that takes its place among others part by part.
#[derive(Debug, PartialEq, Eq)]
pub struct Path {
    pub text: String,
}

impl View for Path {
    type V = Seq<char>;

    open spec fn view(&self) -> Seq<char> {
        self.text@
    }
}

impl Ranked for Path {
    open spec fn code(v: Seq<char>) -> Seq<u64> {
        path_code(v)
    }

    fn sort_code(&self) -> (r: Vec<u64>) {
        let mut out: Vec<u64> = Vec::new();
        push_path_code(&mut out, self.text.as_str());
        assert(out@ =~= <Path as Ranked>::code(self@));
        out
    }
}

impl Duplicate for Path {
    fn duplicate(&self) -> (r: Path) {
        Path { text: self.text.clone() }
    }
}

/// One path inside another. An absolute path stands for itself.
pub open spec fn join_path_spec(a: Seq<char>, b: Seq<char>) -> Seq<char> {
    if is_absolute_spec(b) || a.len() == 0 {
        b
    } else if a.last() == '/' {
        a + b
    } else {
        a + seq!['/'] + b
    }
}

/// One path inside another. An absolute path stands for itself.
pub fn join_path(a: &str, b: &str) -> (r: String)
    ensures
        r@ == join_path_spec(a@, b@),
{
    let v = chars_of(a);
    if is_absolute(b) || v.len() == 0 {
        b.to_owned()
    } else {
        let mut s = a.to_owned();
        if v[v.len() - 1] != '/' {
            s.push('/');
        }
        push_text(&mut s, b);
        assert(s@ =~= join_path_spec(a@, b@));
        s
    }
}

/// A path without what stands after its last part: any `/`, and any `.` after one.
pub open spec fn strip_tail(s: Seq<char>) -> Seq<char>
    decreases s.len(),
{
    if s.len() > 0 && s.last() == '/' {
        strip_tail(s.drop_last())
    } else if s.len() >= 2 && s.last() == '.' && s[s.len() - 2] == '/' {
        strip_tail(s.take(s.len() - 2))
    } else {
        s
    }
}

/// What stands after the last `/`.
pub open spec fn after_slash(s: Seq<char>) -> Seq<char> {
    s.skip(rfind_char(s, '/', s.len() as int) + 1)
}

/// The name of the file that a path leads to.
pub open spec fn file_name_spec(s: Seq<char>) -> Option<Seq<char>> {
    let n = after_slash(strip_tail(s));
    if n.len() == 0 || n == "."@ || n == ".."@ {
        None
    } else {
        Some(n)
    }
}

/// What stands before and after the last dot of a file name, unless it begins with it.
pub open spec fn dot_split(n: Seq<char>) -> Option<(Seq<char>, Seq<char>)> {
    match rsplit_once_spec(n, '.') {
        Some((before, after)) => if before.len() > 0 {
            Some((before, after))
        } else {
            None
        },
        None => None,
    }
}

/// The extension of the file that a path leads to.
pub open spec fn extension_of(s: Seq<char>) -> Option<Seq<char>> {
    match file_name_spec(s) {
        None => None,
        Some(n) => match dot_split(n) {
            Some((_, after)) => Some(after),
            None => None,
        },
    }
}

/// The name of the file that a path leads to, without its extension.
pub open spec fn file_stem_spec(s: Seq<char>) -> Option<Seq<char>> {
    match file_name_spec(s) {
        None => None,
        Some(n) => match dot_split(n) {
            Some((before, _)) => Some(before),
            None => Some(n),
        },
    }
}

/// The path with one more extension. A path that leads to no file stays as it is.
pub open spec fn added_extension_spec(s: Seq<char>, ext: Seq<char>) -> Seq<char> {
    if file_name_spec(s) is None || ext.len() == 0 {
        s
    } else {
        strip_tail(s) + seq!['.'] + ext
    }
}

fn without_tail(s: &str) -> (r: String)
    ensures
        r@ == strip_tail(s@),
{
    let v = chars_of(s);
    let mut n: usize = v.len();
    assert(v@.take(n as int) =~= s@);
    loop
        invariant
            n <= v@.len(),
            strip_tail(v@.take(n as int)) == strip_tail(s@),
        ensures
            n <= v@.len(),
            v@.take(n as int) == strip_tail(s@),
        decreases n,
    {
        if n > 0 && v[n - 1] == '/' {
            assert(v@.take(n as int).drop_last() =~= v@.take(n - 1));
            n = n - 1;
        } else if n >= 2 && v[n - 1] == '.' && v[n - 2] == '/' {
            assert(v@.take(n as int).take(n - 2) =~= v@.take(n - 2));
            n = n - 2;
        } else {
            break;
        }
    }
    assert(v@.take(n as int) =~= v@.subrange(0, n as int));
    slice_of(&v, 0, n)
}

/// The name of the file that a path leads to.
pub fn file_name(s: &str) -> (r: Option<String>)
    ensures
        opt_text(r) == file_name_spec(s@),
{
    let t = without_tail(s);
    let n = match rsplit_once(t.as_str(), '/') {
        Some((_, after)) => after,
        None => {
            proof {
                crate::text::rfind_char_props(t@, '/', t@.len() as int);
                assert(t@.skip(0) =~= t@);
            }
            t
        },
    };
    proof {
        reveal_strlit("");
        if n@.len() == 0 {
            assert(n@ =~= ""@);
        }
    }
    if same(n.as_str(), "") || same(n.as_str(), ".") || same(n.as_str(), "..") {
        None
    } else {
        Some(n)
    }
}

fn split_at_dot(n: &str) -> (r: Option<(String, String)>)
    ensures
        match r {
            Some(p) => dot_split(n@) == Some((p.0@, p.1@)),
            None => dot_split(n@) is None,
        },
{
    match rsplit_once(n, '.') {
        Some((before, after)) => {
            proof {
                reveal_strlit("");
                if before@.len() == 0 {
                    assert(before@ =~= ""@);
                }
            }
            if same(before.as_str(), "") {
                None
            } else {
                Some((before, after))
            }
        },
        None => None,
    }
}

/// The extension of the file that a path leads to.
pub fn extension(s: &str) -> (r: Option<String>)
    ensures
        opt_text(r) == extension_of(s@),
{
    match file_name(s) {
        None => None,
        Some(n) => match split_at_dot(n.as_str()) {
            Some((_, after)) => Some(after),
            None => None,
        },
    }
}

/// The name of the file that a path leads to, without its extension.
pub fn file_stem(s: &str) -> (r: Option<String>)
    ensures
        opt_text(r) == file_stem_spec(s@),
{
    match file_name(s) {
        None => None,
        Some(n) => match split_at_dot(n.as_str()) {
            Some((before, _)) => Some(before),
            None => Some(n),
        },
    }
}

/// The path with one more extension. A path that leads to no file stays as it is.
pub fn with_added_extension(s: &str, ext: &str) -> (r: String)
    requires
        !ext@.contains('/'),
    ensures
        r@ == added_extension_spec(s@, ext@),
{
    proof {
        reveal_strlit("");
        if ext@.len() == 0 {
            assert(ext@ =~= ""@);
        }
    }
    if file_name(s).is_none() || same(ext, "") {
        s.to_owned()
    } else {
        let mut t = without_tail(s);
        t.push('.');
        push_text(&mut t, ext);
        assert(t@ =~= added_extension_spec(s@, ext@));
        t
    }
}

/// The directory of what a path leads to: the path without its last part. The root and
/// the empty path have none.
pub open spec fn parent_spec(s: Seq<char>) -> Option<Seq<char>> {
    let t = strip_tail(s);
    if parts_spec(s).len() == 0 || parts_spec(s).last() == Part::<Seq<char>>::Root {
        None
    } else {
        let d = t.take(rfind_char(t, '/', t.len() as int) + 1);
        if strip_tail(d).len() == 0 && is_absolute_spec(s) {
            Some(seq!['/'])
        } else {
            Some(strip_tail(d))
        }
    }
}

/// The directory of what a path leads to.
pub fn parent(s: &str) -> (r: Option<String>)
    ensures
        opt_text(r) == parent_spec(s@),
{
    let parts = parts_of(s);
    assert(parts@.len() > 0 ==> parts_spec(s@).last() == parts@.last()@);
    if parts.len() == 0 {
        return None;
    }
    match parts[parts.len() - 1] {
        Part::Root => {
            return None;
        },
        _ => {},
    }
    let t = without_tail(s);
    let v = chars_of(t.as_str());
    let mut n: usize = v.len();
    while n > 0 && v[n - 1] != '/'
        invariant
            n <= v@.len(),
            rfind_char(v@, '/', v@.len() as int) == rfind_char(v@, '/', n as int),
        decreases n,
    {
        n = n - 1;
    }
    assert(v@.subrange(0, n as int) =~= v@.take(n as int));
    let d = without_tail(slice_of(&v, 0, n).as_str());
    proof {
        reveal_strlit("");
        if d@.len() == 0 {
            assert(d@ =~= ""@);
        }
    }
    if same(d.as_str(), "") && is_absolute(s) {
        proof {
            reveal_strlit("/");
            assert("/"@ =~= seq!['/']);
        }
        Some("/".to_owned())
    } else {
        Some(d)
    }
}

/// Whether two paths have the same parts.
pub fn same_path(a: &str, b: &str) -> (r: bool)
    ensures
        r == (parts_spec(a@) == parts_spec(b@)),
{
    let x = parts_of(a);
    let y = parts_of(b);
    let ghost xs = views(x@);
    let ghost ys = views(y@);
    if x.len() != y.len() {
        assert(xs.len() != ys.len());
        return false;
    }
    let mut i: usize = 0;
    while i < x.len()
        invariant
            i <= x@.len(),
            x@.len() == y@.len(),
            xs == views(x@),
            ys == views(y@),
            xs == parts_spec(a@),
            ys == parts_spec(b@),
            forall|k: int| 0 <= k < i ==> xs[k] == ys[k],
        decreases x@.len() - i,
    {
        assert(xs[i as int] == x@[i as int]@ && ys[i as int] == y@[i as int]@);
        let equal = match (&x[i], &y[i]) {
            (Part::Root, Part::Root) => true,
            (Part::Here, Part::Here) => true,
            (Part::Up, Part::Up) => true,
            (Part::Name(m), Part::Name(n)) => same(m.as_str(), n.as_str()),
            _ => false,
        };
        if !equal {
            assert(xs[i as int] != ys[i as int]);
            return false;
        }
        i = i + 1;
    }
    assert(xs =~= ys);
    true
}

/// Whether a drive is named at a place, as in `C:`.
pub open spec fn has_drive(s: Seq<char>, at: int) -> bool {
    at + 2 <= s.len() && ('a' <= s[at] <= 'z' || 'A' <= s[at] <= 'Z') && s[at + 1] == ':'
}

/// Whether a path leads to a drive: a `/` stands before the drive.
pub open spec fn on_drive(s: Seq<char>) -> bool {
    is_absolute_spec(s) && has_drive(s, 1)
}

/// What a system with drives puts before a path that is to be taken as it is.
pub const VERBATIM: &'static str = "//?/";

/// The same, before the name of a server.
pub const VERBATIM_SERVER: &'static str = "//?/UNC/";

/// A path of the system, written with `/` between its parts. On a system with drives, what is on
/// a drive is absolute, and what only says that the path is to be taken as it is falls away. A
/// drive alone stands for the directory that the system is in there.
pub open spec fn slashed(s: Seq<char>, windows: bool) -> Seq<char> {
    if !windows {
        s
    } else {
        let t = replace_char_spec(s, '\\', '/');
        if begins(t, VERBATIM_SERVER@) {
            seq!['/', '/'] + t.skip(VERBATIM_SERVER@.len() as int)
        } else if begins(t, VERBATIM@) && has_drive(t, VERBATIM@.len() as int) {
            seq!['/'] + t.skip(VERBATIM@.len() as int)
        } else if has_drive(t, 0) {
            if t.len() == 2 {
                seq!['/'] + t + seq!['.']
            } else {
                seq!['/'] + t
            }
        } else {
            t
        }
    }
}

/// A path in the way that the system writes it. A drive alone is the root of the drive.
pub open spec fn native(s: Seq<char>, windows: bool) -> Seq<char> {
    if !windows {
        s
    } else if on_drive(s) {
        if s.len() == 3 {
            s.skip(1).push('\\')
        } else {
            replace_char_spec(s.skip(1), '/', '\\')
        }
    } else {
        replace_char_spec(s, '/', '\\')
    }
}

/// Paths in the way that the system writes them.
pub open spec fn natives_spec(paths: Seq<Seq<char>>, windows: bool) -> Seq<Seq<char>> {
    paths.map_values(|p: Seq<char>| native(p, windows))
}

/// The drive that a path leads to, with the `/` before it.
pub open spec fn drive_of(s: Seq<char>) -> Seq<char> {
    if on_drive(s) {
        s.take(3)
    } else {
        Seq::empty()
    }
}

/// A path of the system as it is meant inside another: one that begins at the root of a drive
/// is on the drive of the other.
pub open spec fn placed(base: Seq<char>, s: Seq<char>, windows: bool) -> Seq<char> {
    let t = slashed(s, windows);
    if windows && is_absolute_spec(t) && !on_drive(t) && !(t.len() > 1 && t[1] == '/') {
        drive_of(base) + t
    } else {
        t
    }
}

fn drive_at(v: &Vec<char>, at: usize) -> (r: bool)
    ensures
        r == has_drive(v@, at as int),
{
    if v.len() < 2 || at > v.len() - 2 {
        return false;
    }
    let c = v[at];
    (('a' <= c && c <= 'z') || ('A' <= c && c <= 'Z')) && v[at + 1] == ':'
}

/// A path of the system, written with `/` between its parts.
pub fn to_slashes(path: &str, windows: bool) -> (r: String)
    ensures
        r@ == slashed(path@, windows),
{
    if !windows {
        return path.to_owned();
    }
    let t = replace_char(path, '\\', '/');
    if let Some(rest) = strip_prefix(t.as_str(), VERBATIM_SERVER) {
        let r = joined("//", rest.as_str());
        proof {
            reveal_strlit("//");
            assert("//"@ =~= seq!['/', '/']);
        }
        return r;
    }
    proof {
        reveal_strlit("/");
        assert("/"@ =~= seq!['/']);
    }
    if let Some(rest) = strip_prefix(t.as_str(), VERBATIM) {
        let on_drive = drive_at(&chars_of(rest.as_str()), 0);
        assert(on_drive == has_drive(t@, VERBATIM@.len() as int)) by {
            let n = VERBATIM@.len() as int;
            assert(forall|k: int| 0 <= k < rest@.len() ==> rest@[k] == t@[n + k]);
        }
        if on_drive {
            return joined("/", rest.as_str());
        }
    }
    let v = chars_of(t.as_str());
    if drive_at(&v, 0) {
        let mut r = joined("/", t.as_str());
        if v.len() == 2 {
            r.push('.');
            assert(r@ =~= seq!['/'] + t@ + seq!['.']);
        }
        r
    } else {
        t
    }
}

/// A path in the way that the system writes it.
pub fn to_native(path: &str, windows: bool) -> (r: String)
    ensures
        r@ == native(path@, windows),
{
    if !windows {
        return path.to_owned();
    }
    let v = chars_of(path);
    if is_absolute(path) && drive_at(&v, 1) {
        let mut rest = slice_of(&v, 1, v.len());
        assert(rest@ =~= path@.skip(1));
        if v.len() == 3 {
            rest.push('\\');
            return rest;
        }
        replace_char(rest.as_str(), '/', '\\')
    } else {
        replace_char(path, '/', '\\')
    }
}

/// Paths in the way that the system writes them.
pub fn natives(paths: &Vec<String>, windows: bool) -> (r: Vec<String>)
    ensures
        texts(r@) == natives_spec(texts(paths@), windows),
{
    let mut out: Vec<String> = Vec::new();
    let mut i: usize = 0;
    while i < paths.len()
        invariant
            i <= paths@.len(),
            out@.len() == i,
            forall|k: int| 0 <= k < i ==> (#[trigger] out@[k])@ == native(paths@[k]@, windows),
        decreases paths@.len() - i,
    {
        out.push(to_native(paths[i].as_str(), windows));
        i = i + 1;
    }
    assert(texts(out@) =~= natives_spec(texts(paths@), windows));
    out
}

/// A path of the system as it is meant inside another.
pub fn place(base: &str, path: &str, windows: bool) -> (r: String)
    ensures
        r@ == placed(base@, path@, windows),
{
    let t = to_slashes(path, windows);
    let v = chars_of(t.as_str());
    if windows && is_absolute(t.as_str()) && !drive_at(&v, 1) && !(v.len() > 1 && v[1] == '/') {
        let b = chars_of(base);
        if is_absolute(base) && drive_at(&b, 1) {
            let drive = slice_of(&b, 0, 3);
            assert(drive@ =~= drive_of(base@));
            return joined(drive.as_str(), t.as_str());
        }
        assert(drive_of(base@) + t@ =~= t@);
    }
    t
}

/// What is on a drive stands for itself, wherever it is looked for.
pub proof fn drive_path_stands_for_itself(a: Seq<char>, s: Seq<char>)
    requires
        has_drive(s, 0),
    ensures
        on_drive(slashed(s, true)),
        join_path_spec(a, slashed(s, true)) == slashed(s, true),
        s.len() > 2 ==> native(join_path_spec(a, slashed(s, true)), true) == replace_char_spec(s, '/', '\\'),
{
    let t = replace_char_spec(s, '\\', '/');
    reveal_strlit("//?/");
    reveal_strlit("//?/UNC/");
    assert(t[0] == s[0] && t[1] == ':');
    assert(!begins(t, VERBATIM_SERVER@)) by {
        if begins(t, VERBATIM_SERVER@) {
            assert(t.take(8)[0] == t[0]);
        }
    }
    assert(!begins(t, VERBATIM@)) by {
        if begins(t, VERBATIM@) {
            assert(t.take(4)[0] == t[0]);
        }
    }
    assert(has_drive(t, 0));
    let r = slashed(s, true);
    if t.len() > 2 {
        assert(r == seq!['/'] + t);
        assert(r.skip(1) =~= t);
    }
    assert(replace_char_spec(t, '/', '\\') =~= replace_char_spec(s, '/', '\\'));
}

/// A path comes back as the system writes it, but for what only says that it is to be taken as
/// it is, and for a drive alone.
pub proof fn native_undoes_slashes(s: Seq<char>)
    requires
        !(has_drive(s, 0) && s.len() == 2),
        !begins(replace_char_spec(s, '\\', '/'), VERBATIM@),
        !on_drive(replace_char_spec(s, '\\', '/')),
    ensures
        native(slashed(s, true), true) == replace_char_spec(s, '/', '\\'),
        native(slashed(s, false), false) == s,
{
    let t = replace_char_spec(s, '\\', '/');
    reveal_strlit("//?/");
    reveal_strlit("//?/UNC/");
    assert(VERBATIM_SERVER@.take(4) =~= VERBATIM@);
    assert(!begins(t, VERBATIM_SERVER@)) by {
        if begins(t, VERBATIM_SERVER@) {
            assert(t.take(4) =~= t.take(8).take(4));
        }
    }
    let r = slashed(s, true);
    if has_drive(t, 0) {
        assert(r.skip(1) =~= t);
        assert(has_drive(r, 1));
    }
    assert(replace_char_spec(t, '/', '\\') =~= replace_char_spec(s, '/', '\\'));
}

/// A file inside a directory is, as the system writes it, inside the directory as the system
/// writes it.
pub proof fn native_join(a: Seq<char>, b: Seq<char>)
    requires
        on_drive(a),
        a.len() > 3,
        a.last() != '/',
        !is_absolute_spec(b),
    ensures
        native(join_path_spec(a, b), true) == native(a, true) + seq!['\\'] + native(b, true),
{
    let j = join_path_spec(a, b);
    assert(j == a + seq!['/'] + b);
    assert(has_drive(j, 1));
    assert(native(j, true) =~= native(a, true) + seq!['\\'] + native(b, true));
}

} // verus!
