//! Laws of paths: of their parts, of the files that they lead to, and of how systems write them.
use vstd::prelude::*;
use crate::laws::texts::{joining_undoes_splitting, splitting_once_keeps_all};
use crate::order::{text_code, text_code_parts};
use crate::paths::{
    added_extension_spec, after_slash, dot_split, extension_of, file_name_spec, file_stem_spec, has_drive,
    is_absolute_spec, join_path_spec, native, on_drive, parent_spec, parts_among, parts_code, parts_spec, path_code,
    path_head, placed, slashed, strip_tail, Part, PartView,
};
use crate::project::console_major_spec;
use crate::text::{
    begins, decimal_reads_back, decimal_spec, find_char, find_char_at, find_char_props, is_digit, number_of_decimal,
    rfind_char_at, split_spec,
};

verus! {

/// The parts that pieces are: all but those that are empty or a dot, in order. Two dots lead up,
/// and all else is a name.
pub proof fn pieces_are_parts(pieces: Seq<Seq<char>>)
    ensures
        parts_among(pieces) == pieces.filter(|p: Seq<char>| p.len() > 0 && p != "."@).map_values(
            |p: Seq<char>| if p == ".."@ { Part::Up } else { Part::Name(p) },
        ),
    decreases pieces.len(),
{
    reveal(Seq::filter);
    if pieces.len() > 0 {
        pieces_are_parts(pieces.drop_last());
    }
    assert(parts_among(pieces) =~= pieces.filter(|p: Seq<char>| p.len() > 0 && p != "."@).map_values(
        |p: Seq<char>| if p == ".."@ { Part::Up } else { Part::Name(p) },
    ));
}

/// The parts of a path are what its pieces between slashes are, after the root where it begins
/// with a slash, and after a dot where that is its first piece.
pub proof fn path_has_its_parts(s: Seq<char>)
    ensures
        parts_spec(s) == (if s.len() > 0 && s[0] == '/' {
            seq![Part::Root]
        } else if split_spec(s, '/')[0] == "."@ {
            seq![Part::Here]
        } else {
            Seq::empty()
        }) + split_spec(s, '/').filter(|p: Seq<char>| p.len() > 0 && p != "."@).map_values(
            |p: Seq<char>| if p == ".."@ { Part::Up } else { Part::Name(p) },
        ),
{
    pieces_are_parts(split_spec(s, '/'));
}

proof fn parts_go_on(a: Seq<Seq<char>>, b: Seq<Seq<char>>)
    ensures
        parts_among(a + b) == parts_among(a) + parts_among(b),
    decreases b.len(),
{
    if b.len() == 0 {
        assert(a + b =~= a);
        assert(parts_among(a) + parts_among(b) =~= parts_among(a));
    } else {
        parts_go_on(a, b.drop_last());
        assert((a + b).drop_last() =~= a + b.drop_last());
        assert(parts_among(a + b) =~= parts_among(a) + parts_among(b));
    }
}

proof fn pieces_go_on(a: Seq<char>, b: Seq<char>)
    ensures
        split_spec(a + seq!['/'] + b, '/') == split_spec(a, '/') + split_spec(b, '/'),
    decreases a.len(),
{
    let s = a + seq!['/'] + b;
    let i = find_char(a, '/', 0);
    find_char_props(a, '/', 0);
    if i < a.len() {
        assert(s[i] == '/');
        assert forall|k: int| 0 <= k < i implies s[k] != '/' by {
            assert(s[k] == a[k]);
        }
        find_char_at(s, '/', 0, i);
        let rest = a.skip(i + 1);
        pieces_go_on(rest, b);
        assert(s.skip(i + 1) =~= rest + seq!['/'] + b);
        assert(s.take(i) =~= a.take(i));
        assert(split_spec(s, '/') =~= split_spec(a, '/') + split_spec(b, '/'));
    } else {
        assert(s[a.len() as int] == '/');
        assert forall|k: int| 0 <= k < a.len() implies s[k] != '/' by {
            assert(s[k] == a[k]);
        }
        find_char_at(s, '/', 0, a.len() as int);
        assert(s.take(a.len() as int) =~= a);
        assert(s.skip(a.len() as int + 1) =~= b);
        assert(split_spec(s, '/') =~= split_spec(a, '/') + split_spec(b, '/'));
    }
}

/// What is inside a directory has the parts of the directory and then its own, but for a dot at
/// its beginning. What is absolute stands for itself.
pub proof fn inside_comes_after(a: Seq<char>, b: Seq<char>)
    requires
        a.len() > 0,
    ensures
        b.len() > 0 && b[0] == '/' ==> join_path_spec(a, b) == b,
        !(b.len() > 0 && b[0] == '/') && !(a.last() == '/') ==> join_path_spec(a, b) == a + "/"@ + b,
        !(b.len() > 0 && b[0] == '/') && a.last() == '/' ==> join_path_spec(a, b) == a + b,
        join_path_spec(Seq::empty(), b) == b,
        !(b.len() > 0 && b[0] == '/') ==> parts_spec(join_path_spec(a, b)) == parts_spec(a) + parts_among(
            split_spec(b, '/'),
        ),
{
    reveal_strlit("/");
    assert("/"@ =~= seq!['/']);
    let s = join_path_spec(a, b);
    if !(b.len() > 0 && b[0] == '/') {
        joining_undoes_splitting(a, '/');
        if a.last() == '/' {
            let c = a.drop_last();
            let none = Seq::<char>::empty();
            assert(s =~= c + seq!['/'] + b);
            assert(a =~= c + seq!['/'] + none);
            pieces_go_on(c, b);
            pieces_go_on(c, none);
            find_char_at(none, '/', 0, 0);
            assert(split_spec(none, '/') =~= seq![none]);
            parts_go_on(split_spec(c, '/'), split_spec(b, '/'));
            parts_go_on(split_spec(c, '/'), split_spec(none, '/'));
            assert(seq![none].drop_last() =~= Seq::empty());
            assert(parts_among(seq![none].drop_last()) == Seq::<PartView>::empty());
            assert(parts_among(seq![none]) =~= Seq::empty());
            assert(parts_among(split_spec(a, '/')) =~= parts_among(split_spec(c, '/')));
            joining_undoes_splitting(c, '/');
            assert(split_spec(s, '/')[0] == split_spec(a, '/')[0]);
        } else {
            pieces_go_on(a, b);
            parts_go_on(split_spec(a, '/'), split_spec(b, '/'));
            assert(split_spec(s, '/')[0] == split_spec(a, '/')[0]);
        }
        assert(path_head(s) == path_head(a));
        assert(parts_spec(s) =~= parts_spec(a) + parts_among(split_spec(b, '/')));
    }
}

/// Whether a text is the name of a file: not empty, without a slash, and no dots alone.
pub open spec fn is_file_name(n: Seq<char>) -> bool {
    n.len() > 0 && !n.contains('/') && n != "."@ && n != ".."@
}

proof fn name_has_no_tail(a: Seq<char>, n: Seq<char>)
    requires
        is_file_name(n),
    ensures
        strip_tail(a + seq!['/'] + n) == a + seq!['/'] + n,
        after_slash(a + seq!['/'] + n) == n,
        strip_tail(n) == n,
        after_slash(n) == n,
{
    reveal_strlit(".");
    let s = a + seq!['/'] + n;
    let k = n.len() - 1;
    assert(n.contains(n[k]));
    assert(s.last() == n[k]);
    if n[k] == '.' {
        if n.len() == 1 {
            assert(n =~= "."@);
        } else {
            assert(s[s.len() - 2] == n[k - 1]);
            assert(n.contains(n[k - 1]));
        }
    }
    assert(s[a.len() as int] == '/');
    assert forall|i: int| a.len() < i < s.len() implies s[i] != '/' by {
        assert(s[i] == n[i - a.len() - 1]);
        assert(n.contains(n[i - a.len() - 1]));
    }
    rfind_char_at(s, '/', s.len() as int, a.len() as int);
    assert(s.skip(a.len() as int + 1) =~= n);
    assert forall|i: int| 0 <= i < n.len() implies n[i] != '/' by {
        assert(n.contains(n[i]));
    }
    rfind_char_at(n, '/', n.len() as int, -1);
    assert(n.skip(0) =~= n);
}

proof fn joined_with_a_slash(a: Seq<char>, n: Seq<char>) -> (d: Seq<char>)
    requires
        a.len() > 0,
        is_file_name(n),
    ensures
        join_path_spec(a, n) == d + seq!['/'] + n,
        a == d || a == d.push('/'),
{
    assert(n.contains(n[0]));
    if a.last() == '/' {
        let d = a.drop_last();
        assert(a =~= d.push('/'));
        assert(a + n =~= d + seq!['/'] + n);
        d
    } else {
        a
    }
}

/// A path leads to the file of the name that it ends in, in whatever directory, with or without
/// slashes and dots after it. What ends in two dots, or is nothing but slashes, leads to no file.
pub proof fn file_is_named_at_the_end(a: Seq<char>, n: Seq<char>)
    requires
        is_file_name(n),
    ensures
        file_name_spec(n) == Some(n),
        a.len() > 0 ==> file_name_spec(join_path_spec(a, n)) == Some(n),
        file_name_spec(a + "/"@) == file_name_spec(a),
        file_name_spec(a + "/."@) == file_name_spec(a),
        file_name_spec(Seq::empty()) is None,
        file_name_spec(".."@) is None,
{
    reveal_strlit("/");
    reveal_strlit("/.");
    reveal_strlit("..");
    reveal_strlit(".");
    name_has_no_tail(a, n);
    if a.len() > 0 {
        let d = joined_with_a_slash(a, n);
        name_has_no_tail(d, n);
    }
    assert((a + "/"@).drop_last() =~= a);
    let t = a + "/."@;
    assert(t.last() == '.' && t[t.len() - 2] == '/');
    assert(t.take(t.len() - 2) =~= a);
    let e = Seq::<char>::empty();
    assert(e.skip(0) =~= e);
    let u = ".."@;
    assert(strip_tail(u) == u);
    rfind_char_at(u, '/', 2, -1);
    assert(u.skip(0) =~= u);
    rfind_char_at(e, '/', 0, -1);
}

/// The extension of a file is what stands after the last dot of its name, and its stem what stands
/// before it. A name without a dot, or with none but at its beginning, has no extension.
pub proof fn extension_is_after_the_last_dot(a: Seq<char>, stem: Seq<char>, ext: Seq<char>, n: Seq<char>)
    requires
        a.len() > 0,
        stem.len() > 0,
        !stem.contains('/'),
        !ext.contains('/'),
        !ext.contains('.'),
        stem + "."@ + ext != ".."@,
        is_file_name(n),
        !n.drop_first().contains('.'),
    ensures
        extension_of(join_path_spec(a, stem + "."@ + ext)) == Some(ext),
        file_stem_spec(join_path_spec(a, stem + "."@ + ext)) == Some(stem),
        extension_of(join_path_spec(a, n)) is None,
        file_stem_spec(join_path_spec(a, n)) == Some(n),
{
    reveal_strlit(".");
    assert("."@ =~= seq!['.']);
    let m = stem + "."@ + ext;
    assert(m.len() >= 2);
    assert(!m.contains('/')) by {
        if m.contains('/') {
            let k = choose|k: int| 0 <= k < m.len() && m[k] == '/';
            if k < stem.len() {
                assert(stem[k] == '/');
            } else if k > stem.len() {
                assert(ext[k - stem.len() - 1] == '/');
            }
        }
    }
    file_is_named_at_the_end(a, m);
    assert(m[stem.len() as int] == '.');
    assert forall|k: int| stem.len() < k < m.len() implies m[k] != '.' by {
        assert(m[k] == ext[k - stem.len() - 1]);
        assert(ext.contains(ext[k - stem.len() - 1]));
    }
    rfind_char_at(m, '.', m.len() as int, stem.len() as int);
    assert(m.take(stem.len() as int) =~= stem);
    assert(m.skip(stem.len() as int + 1) =~= ext);
    file_is_named_at_the_end(a, n);
    assert forall|k: int| 0 < k < n.len() implies n[k] != '.' by {
        assert(n.drop_first()[k - 1] == n[k]);
        assert(n.drop_first().contains(n[k]));
    }
    if n[0] == '.' {
        rfind_char_at(n, '.', n.len() as int, 0);
        assert(n.take(0).len() == 0);
    } else {
        rfind_char_at(n, '.', n.len() as int, -1);
    }
}

/// One more extension is added to the name of the file that a path leads to.
pub proof fn extension_is_added_at_the_end(a: Seq<char>, n: Seq<char>, ext: Seq<char>)
    requires
        is_file_name(n),
        ext.len() > 0,
        a.len() > 0,
    ensures
        added_extension_spec(join_path_spec(a, n), ext) == join_path_spec(a, n) + "."@ + ext,
        added_extension_spec(n, ext) == n + "."@ + ext,
{
    reveal_strlit(".");
    assert("."@ =~= seq!['.']);
    file_is_named_at_the_end(a, n);
    name_has_no_tail(a, n);
    let d = joined_with_a_slash(a, n);
    name_has_no_tail(d, n);
}

/// The directory of a file inside a directory is that directory.
pub proof fn directory_of_what_is_inside(a: Seq<char>, n: Seq<char>)
    requires
        a.len() > 0,
        strip_tail(a) == a,
        is_file_name(n),
    ensures
        parent_spec(join_path_spec(a, n)) == Some(a),
        parent_spec(Seq::empty()) is None,
{
    assert(n.contains(n[0]));
    let s = join_path_spec(a, n);
    assert(a.last() != '/') by {
        if a.last() == '/' {
            tail_is_shorter(a.drop_last());
        }
    }
    assert(s == a + seq!['/'] + n);
    name_has_no_tail(a, n);
    inside_comes_after(a, n);
    let none = Seq::<char>::empty();
    assert forall|k: int| 0 <= k < n.len() implies n[k] != '/' by {
        assert(n.contains(n[k]));
    }
    find_char_at(n, '/', 0, n.len() as int);
    assert(split_spec(n, '/') =~= seq![n]);
    assert(seq![n].drop_last() =~= Seq::empty());
    assert(parts_among(seq![n].drop_last()) == Seq::<PartView>::empty());
    assert(parts_among(seq![n]) =~= seq![Part::Name(n)]);
    assert(parts_spec(s).last() == Part::Name(n));
    assert forall|i: int| a.len() < i < s.len() implies s[i] != '/' by {
        assert(s[i] == n[i - a.len() - 1]);
    }
    rfind_char_at(s, '/', s.len() as int, a.len() as int);
    let d = s.take(a.len() as int + 1);
    assert(d =~= a.push('/'));
    assert(d.drop_last() =~= a);
    assert(strip_tail(d) == a);
    find_char_at(none, '/', 0, 0);
    assert(split_spec(none, '/') =~= seq![none]);
    assert(seq![none].drop_last() =~= Seq::empty());
    assert(parts_among(seq![none].drop_last()) == Seq::<PartView>::empty());
    assert(parts_among(seq![none]) =~= Seq::empty());
    reveal_strlit(".");
    assert(parts_spec(none) =~= Seq::empty());
}

proof fn tail_is_shorter(s: Seq<char>)
    ensures
        strip_tail(s).len() <= s.len(),
    decreases s.len(),
{
    if s.len() > 0 && s.last() == '/' {
        tail_is_shorter(s.drop_last());
    } else if s.len() >= 2 && s.last() == '.' && s[s.len() - 2] == '/' {
        tail_is_shorter(s.take(s.len() - 2));
    }
}

spec fn part_code(p: PartView) -> Seq<u64> {
    match p {
        Part::Root => seq![1u64],
        Part::Here => seq![2u64],
        Part::Up => seq![3u64],
        Part::Name(s) => seq![4u64] + text_code(s),
    }
}

proof fn codes_from_the_front(p: Seq<PartView>)
    requires
        p.len() > 0,
    ensures
        parts_code(p) == part_code(p[0]) + parts_code(p.drop_first()),
    decreases p.len(),
{
    if p.len() == 1 {
        assert(p.drop_last() =~= Seq::empty());
        assert(p.drop_first() =~= Seq::empty());
        assert(parts_code(p.drop_last()) == Seq::<u64>::empty());
        assert(parts_code(p) =~= part_code(p[0]) + parts_code(p.drop_first()));
    } else {
        codes_from_the_front(p.drop_last());
        assert(p.drop_last().drop_first() =~= p.drop_first().drop_last());
        assert(parts_code(p.drop_first()) == parts_code(p.drop_first().drop_last()) + part_code(p.last()));
        assert(parts_code(p) == parts_code(p.drop_last()) + part_code(p.last()));
        assert(parts_code(p) =~= part_code(p[0]) + parts_code(p.drop_first()));
    }
}

proof fn codes_tell_parts(p: Seq<PartView>, q: Seq<PartView>)
    requires
        parts_code(p).push(0) == parts_code(q).push(0),
    ensures
        p == q,
    decreases p.len(),
{
    let x = parts_code(p).push(0);
    let y = parts_code(q).push(0);
    if p.len() == 0 {
        assert(x[0] == 0);
        if q.len() > 0 {
            codes_from_the_front(q);
            assert(y[0] == part_code(q[0])[0]);
        }
        assert(p =~= q);
    } else if q.len() == 0 {
        assert(y[0] == 0);
        codes_from_the_front(p);
        assert(x[0] == part_code(p[0])[0]);
    } else {
        codes_from_the_front(p);
        codes_from_the_front(q);
        let u = parts_code(p.drop_first()).push(0);
        let v = parts_code(q.drop_first()).push(0);
        assert(x =~= part_code(p[0]) + u);
        assert(y =~= part_code(q[0]) + v);
        assert(x[0] == part_code(p[0])[0]);
        assert(y[0] == part_code(q[0])[0]);
        match (p[0], q[0]) {
            (Part::Name(s), Part::Name(t)) => {
                assert(x.drop_first() =~= text_code(s) + u);
                assert(y.drop_first() =~= text_code(t) + v);
                text_code_parts(s, t, u, v);
            },
            _ => {
                assert(x.drop_first() =~= u);
                assert(y.drop_first() =~= v);
            },
        }
        codes_tell_parts(p.drop_first(), q.drop_first());
        assert(p =~= seq![p[0]] + p.drop_first());
        assert(q =~= seq![q[0]] + q.drop_first());
    }
}

/// Paths count as the same exactly where they have the same parts.
pub proof fn same_parts_are_the_same_path(a: Seq<char>, b: Seq<char>)
    ensures
        path_code(a) == path_code(b) <==> parts_spec(a) == parts_spec(b),
{
    if path_code(a) == path_code(b) {
        codes_tell_parts(parts_spec(a), parts_spec(b));
    }
}

/// On a system without drives paths are written as they are. On one with drives a relative path is
/// looked for where it is meant, one on a drive stands for itself, and one that begins at the root
/// is on the drive that it is looked for from.
pub proof fn paths_are_placed(base: Seq<char>, s: Seq<char>, c: char)
    requires
        !s.contains('\\'),
        'a' <= c <= 'z' || 'A' <= c <= 'Z',
    ensures
        slashed(s, false) == s,
        native(s, false) == s,
        placed(base, s, false) == s,
        s.len() > 0 && s[0] != '/' && !has_drive(s, 0) ==> placed(base, s, true) == s,
        placed(base, seq![c, ':', '\\'] + s, true) == seq!['/', c, ':', '/'] + s,
        native(seq!['/', c, ':', '/'] + s, true) == seq![c, ':'] + native(seq!['/'] + s, true) || on_drive(
            seq!['/'] + s,
        ),
        s.len() > 0 && s[0] != '/' && !has_drive(s, 0) && base == seq!['/', c, ':'] ==> placed(
            base,
            seq!['\\'] + s,
            true,
        ) == seq!['/', c, ':', '/'] + s,
{
    reveal_strlit("//?/");
    reveal_strlit("//?/UNC/");
    let r = |x: Seq<char>| crate::text::replace_char_spec(x, '\\', '/');
    assert(r(s) =~= s) by {
        assert forall|k: int| 0 <= k < s.len() implies s[k] != '\\' by {
            assert(s.contains(s[k]));
        }
    }
    if s.len() > 0 && s[0] != '/' {
        if begins(s, "//?/UNC/"@) {
            assert(s.take(8)[0] == s[0]);
        }
        if begins(s, "//?/"@) {
            assert(s.take(4)[0] == s[0]);
        }
    }
    let d = seq![c, ':', '\\'] + s;
    let e = seq![c, ':', '/'] + s;
    assert(r(d) =~= e) by {
        assert forall|k: int| 3 <= k < d.len() implies d[k] != '\\' by {
            assert(d[k] == s[k - 3]);
            assert(s.contains(s[k - 3]));
        }
    }
    if begins(e, "//?/UNC/"@) {
        assert(e.take(8)[0] == e[0]);
    }
    if begins(e, "//?/"@) {
        assert(e.take(4)[0] == e[0]);
    }
    assert(has_drive(e, 0));
    let f = seq!['/', c, ':', '/'] + s;
    assert(seq!['/'] + e =~= f);
    assert(on_drive(f));
    assert(placed(base, d, true) == f);
    let g = seq!['/'] + s;
    assert(native(f, true) =~= crate::text::replace_char_spec(f.skip(1), '/', '\\'));
    if !on_drive(g) {
        assert(f.skip(1) =~= seq![c, ':'] + g);
        assert(crate::text::replace_char_spec(f.skip(1), '/', '\\') =~= seq![c, ':']
            + crate::text::replace_char_spec(g, '/', '\\'));
    }
    if s.len() > 0 && s[0] != '/' && !has_drive(s, 0) && base == seq!['/', c, ':'] {
        let h = seq!['\\'] + s;
        assert(r(h) =~= g) by {
            assert forall|k: int| 1 <= k < h.len() implies h[k] != '\\' by {
                assert(h[k] == s[k - 1]);
                assert(s.contains(s[k - 1]));
            }
        }
        if begins(g, "//?/UNC/"@) {
            assert(g.take(8)[1] == g[1]);
        }
        if begins(g, "//?/"@) {
            assert(g.take(4)[1] == g[1]);
        }
        assert(slashed(h, true) == g);
        assert(has_drive(g, 1) == has_drive(s, 0));
        assert(base.take(3) =~= base);
        assert(base + g =~= f);
    }
}

/// The version of the console that counts is the first number in the name of its file.
pub proof fn console_has_its_version(dir: Seq<char>, n: nat, rest: Seq<char>)
    requires
        dir.len() > 0,
        n <= u32::MAX,
        !rest.contains('/'),
    ensures
        console_major_spec(
            join_path_spec(
                dir,
                "org.junit.platform-junit-platform-console-standalone-"@ + decimal_spec(n) + "."@ + rest + ".jar"@,
            ),
        ) == n,
{
    let p = "org.junit.platform-junit-platform-console-standalone-"@;
    let d = decimal_spec(n);
    let stem = p + d + "."@ + rest;
    reveal_strlit("org.junit.platform-junit-platform-console-standalone-");
    reveal_strlit(".");
    reveal_strlit(".jar");
    reveal_strlit("jar");
    reveal_strlit("..");
    decimal_reads_back(n);
    assert forall|k: int| 0 <= k < d.len() implies d[k] != '/' && d[k] != '.' by {
        assert(is_digit(d[k]));
    }
    assert(!p.contains('/')) by {
        assert forall|k: int| 0 <= k < p.len() implies p[k] != '/' by {}
    }
    assert(!stem.contains('/')) by {
        if stem.contains('/') {
            let k = choose|k: int| 0 <= k < stem.len() && stem[k] == '/';
            if k < p.len() {
                assert(p[k] == '/');
            } else if k < p.len() + d.len() {
                assert(d[k - p.len()] == '/');
            } else if k > p.len() + d.len() {
                assert(rest[k - p.len() - d.len() - 1] == '/');
            }
        }
    }
    let name = p + d + "."@ + rest + ".jar"@;
    assert(name =~= stem + "."@ + "jar"@);
    assert(!"jar"@.contains('/') && !"jar"@.contains('.'));
    let plain = seq!['x'];
    assert(plain.drop_first() =~= Seq::empty());
    assert(is_file_name(plain)) by {
        assert(plain[0] != "."@[0]);
    }
    assert(name.len() > 2);
    extension_is_after_the_last_dot(dir, stem, "jar"@, plain);
    assert(stem.take(p.len() as int) =~= p);
    let tail = stem.skip(p.len() as int);
    assert(tail =~= d + "."@ + rest);
    assert(tail[d.len() as int] == '.');
    assert forall|k: int| 0 <= k < d.len() implies tail[k] != '.' by {
        assert(tail[k] == d[k]);
    }
    find_char_at(tail, '.', 0, d.len() as int);
    assert(tail.take(d.len() as int) =~= d);
    assert(split_spec(tail, '.')[0] == d);
    number_of_decimal(n, u32::MAX as nat);
}

} // verus!
