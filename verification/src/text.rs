//! Text as sequences of characters.
use vstd::prelude::*;

verus! {

/// `String::push` appends one character to the end of the text.
pub assume_specification[ String::push ](s: &mut String, c: char)
    ensures
        final(s)@ == old(s)@.push(c),
;

/// The texts behind a sequence of strings.
pub open spec fn texts(v: Seq<String>) -> Seq<Seq<char>> {
    v.map_values(|s: String| s@)
}

/// The text behind an optional string.
pub open spec fn opt_text(o: Option<String>) -> Option<Seq<char>> {
    match o {
        Some(s) => Some(s@),
        None => None,
    }
}

pub proof fn texts_push(v: Seq<String>, s: String)
    ensures
        texts(v.push(s)) == texts(v).push(s@),
{
    assert(texts(v.push(s)) =~= texts(v).push(s@));
}

/// The characters of a string.
pub fn chars_of(s: &str) -> (r: Vec<char>)
    ensures
        r@ == s@,
{
    let mut v: Vec<char> = Vec::new();
    for c in it: s.chars()
        invariant
            v@ == it.seq().take(it.index()),
            it.seq() == s@,
    {
        v.push(c);
        assert(v@ =~= it.seq().take(it.index() + 1));
    }
    assert(v@ =~= s@);
    v
}

/// The string made of the characters from `from` up to `to`.
pub fn slice_of(v: &Vec<char>, from: usize, to: usize) -> (r: String)
    requires
        from <= to <= v@.len(),
    ensures
        r@ == v@.subrange(from as int, to as int),
{
    let mut s = String::new();
    let mut i: usize = from;
    assert(s@ =~= v@.subrange(from as int, from as int));
    while i < to
        invariant
            from <= i <= to <= v@.len(),
            s@ == v@.subrange(from as int, i as int),
        decreases to - i,
    {
        s.push(v[i]);
        i = i + 1;
        assert(s@ =~= v@.subrange(from as int, i as int));
    }
    s
}

/// Appends one text to another.
pub fn push_text(s: &mut String, t: &str)
    ensures
        final(s)@ == old(s)@ + t@,
{
    let v = chars_of(t);
    let mut i: usize = 0;
    assert(s@ =~= old(s)@ + v@.take(0));
    while i < v.len()
        invariant
            i <= v@.len(),
            s@ == old(s)@ + v@.take(i as int),
        decreases v@.len() - i,
    {
        s.push(v[i]);
        i = i + 1;
        assert(s@ =~= old(s)@ + v@.take(i as int));
    }
    assert(v@.take(i as int) =~= t@);
}

/// Two texts, one after the other.
pub fn joined(a: &str, b: &str) -> (r: String)
    ensures
        r@ == a@ + b@,
{
    let mut s = a.to_owned();
    push_text(&mut s, b);
    s
}

/// Whether two strings hold the same text.
pub fn same(a: &str, b: &str) -> (r: bool)
    ensures
        r == (a@ == b@),
{
    a.to_owned() == b.to_owned()
}

/// Whether two optional strings hold the same text.
pub fn same_opt(a: &Option<String>, b: &Option<String>) -> (r: bool)
    ensures
        r == (opt_text(*a) == opt_text(*b)),
{
    match (a, b) {
        (Some(x), Some(y)) => same(x.as_str(), y.as_str()),
        (None, None) => true,
        _ => false,
    }
}

/// A copy of an optional string.
pub fn copy_opt(a: &Option<String>) -> (r: Option<String>)
    ensures
        r == *a,
{
    match a {
        Some(s) => Some(s.clone()),
        None => None,
    }
}

/// Copies of strings, in order.
pub fn copy_texts(v: &Vec<String>) -> (r: Vec<String>)
    ensures
        r@ == v@,
{
    let mut out: Vec<String> = Vec::new();
    let mut i: usize = 0;
    while i < v.len()
        invariant
            i <= v@.len(),
            out@ == v@.take(i as int),
        decreases v@.len() - i,
    {
        out.push(v[i].clone());
        i = i + 1;
        assert(out@ =~= v@.take(i as int));
    }
    assert(out@ =~= v@);
    out
}

/// Appends copies of strings, in order.
pub fn push_texts(out: &mut Vec<String>, v: &Vec<String>)
    ensures
        final(out)@ == old(out)@ + v@,
{
    let mut i: usize = 0;
    assert(out@ =~= old(out)@ + v@.take(0));
    while i < v.len()
        invariant
            i <= v@.len(),
            out@ == old(out)@ + v@.take(i as int),
        decreases v@.len() - i,
    {
        out.push(v[i].clone());
        i = i + 1;
        assert(out@ =~= old(out)@ + v@.take(i as int));
    }
    assert(v@.take(i as int) =~= v@);
}

/// The index of the first `c` at or after `from`, or the length of the text.
pub open spec fn find_char(s: Seq<char>, c: char, from: int) -> int
    decreases s.len() - from,
{
    if from < 0 || from >= s.len() {
        s.len() as int
    } else if s[from] == c {
        from
    } else {
        find_char(s, c, from + 1)
    }
}

/// The index of the last `c` before `to`, or -1.
pub open spec fn rfind_char(s: Seq<char>, c: char, to: int) -> int
    decreases to,
{
    if to <= 0 || to > s.len() {
        -1
    } else if s[to - 1] == c {
        to - 1
    } else {
        rfind_char(s, c, to - 1)
    }
}

/// What stands before and after the first `c`.
pub open spec fn split_once_spec(s: Seq<char>, c: char) -> Option<(Seq<char>, Seq<char>)> {
    let i = find_char(s, c, 0);
    if i < s.len() {
        Some((s.take(i), s.skip(i + 1)))
    } else {
        None
    }
}

/// What stands before and after the last `c`.
pub open spec fn rsplit_once_spec(s: Seq<char>, c: char) -> Option<(Seq<char>, Seq<char>)> {
    let i = rfind_char(s, c, s.len() as int);
    if i >= 0 {
        Some((s.take(i), s.skip(i + 1)))
    } else {
        None
    }
}

pub proof fn find_char_props(s: Seq<char>, c: char, from: int)
    requires
        0 <= from <= s.len(),
    ensures
        from <= find_char(s, c, from) <= s.len(),
        find_char(s, c, from) < s.len() ==> s[find_char(s, c, from)] == c,
        forall|k: int| from <= k < find_char(s, c, from) ==> s[k] != c,
    decreases s.len() - from,
{
    if from < s.len() && s[from] != c {
        find_char_props(s, c, from + 1);
    }
}

/// `find_char` is the only index with these properties.
pub proof fn find_char_at(s: Seq<char>, c: char, from: int, at: int)
    requires
        0 <= from <= at <= s.len(),
        at < s.len() ==> s[at] == c,
        forall|k: int| from <= k < at ==> s[k] != c,
    ensures
        find_char(s, c, from) == at,
    decreases s.len() - from,
{
    if from < at {
        find_char_at(s, c, from + 1, at);
    }
}

pub proof fn rfind_char_props(s: Seq<char>, c: char, to: int)
    requires
        0 <= to <= s.len(),
    ensures
        -1 <= rfind_char(s, c, to) < to || (to == 0 && rfind_char(s, c, to) == -1),
        rfind_char(s, c, to) >= 0 ==> s[rfind_char(s, c, to)] == c,
        forall|k: int| rfind_char(s, c, to) < k < to ==> s[k] != c,
    decreases to,
{
    if to > 0 && s[to - 1] != c {
        rfind_char_props(s, c, to - 1);
    }
}

/// `rfind_char` is the only index with these properties.
pub proof fn rfind_char_at(s: Seq<char>, c: char, to: int, at: int)
    requires
        -1 <= at < to <= s.len() || (at == -1 && to == 0),
        at >= 0 ==> s[at] == c,
        forall|k: int| at < k < to ==> s[k] != c,
    ensures
        rfind_char(s, c, to) == at,
    decreases to,
{
    if to > 0 && at < to - 1 {
        rfind_char_at(s, c, to - 1, at);
    }
}

/// The index of the first `c` at or after `from`, or the length of the text.
pub fn find_in(v: &Vec<char>, c: char, from: usize) -> (r: usize)
    requires
        from <= v@.len(),
    ensures
        r == find_char(v@, c, from as int),
        from <= r <= v@.len(),
        r < v@.len() ==> v@[r as int] == c,
{
    let mut i: usize = from;
    while i < v.len() && v[i] != c
        invariant
            from <= i <= v@.len(),
            find_char(v@, c, from as int) == find_char(v@, c, i as int),
        decreases v@.len() - i,
    {
        i = i + 1;
    }
    i
}

/// What stands before and after the first `c`, where there is one.
pub fn split_once(s: &str, c: char) -> (r: Option<(String, String)>)
    ensures
        match r {
            Some(p) => split_once_spec(s@, c) == Some((p.0@, p.1@)),
            None => split_once_spec(s@, c) is None,
        },
{
    let v = chars_of(s);
    let i: usize = find_in(&v, c, 0);
    if i < v.len() {
        let a = slice_of(&v, 0, i);
        let b = slice_of(&v, i + 1, v.len());
        assert(s@.subrange(0, i as int) =~= s@.take(i as int));
        assert(s@.subrange(i + 1, s@.len() as int) =~= s@.skip(i + 1));
        Some((a, b))
    } else {
        None
    }
}

/// What stands before and after the last `c`, where there is one.
pub fn rsplit_once(s: &str, c: char) -> (r: Option<(String, String)>)
    ensures
        match r {
            Some(p) => rsplit_once_spec(s@, c) == Some((p.0@, p.1@)),
            None => rsplit_once_spec(s@, c) is None,
        },
{
    let v = chars_of(s);
    let mut i: usize = v.len();
    while i > 0 && v[i - 1] != c
        invariant
            i <= v@.len(),
            rfind_char(v@, c, v@.len() as int) == rfind_char(v@, c, i as int),
        decreases i,
    {
        i = i - 1;
    }
    if i > 0 {
        let a = slice_of(&v, 0, i - 1);
        let b = slice_of(&v, i, v.len());
        assert(s@.subrange(0, i - 1) =~= s@.take(i - 1));
        assert(s@.subrange(i as int, s@.len() as int) =~= s@.skip(i as int));
        Some((a, b))
    } else {
        None
    }
}

/// The text with every `a` turned into `b`.
pub open spec fn replace_char_spec(s: Seq<char>, a: char, b: char) -> Seq<char> {
    s.map_values(|c: char| if c == a { b } else { c })
}

/// The text with every `a` turned into `b`.
pub fn replace_char(s: &str, a: char, b: char) -> (r: String)
    ensures
        r@ == replace_char_spec(s@, a, b),
{
    let v = chars_of(s);
    let mut out = String::new();
    let mut i: usize = 0;
    assert(out@ =~= replace_char_spec(s@, a, b).take(0));
    while i < v.len()
        invariant
            i <= v@.len(),
            v@ == s@,
            out@ == replace_char_spec(s@, a, b).take(i as int),
        decreases v@.len() - i,
    {
        out.push(if v[i] == a { b } else { v[i] });
        i = i + 1;
        assert(out@ =~= replace_char_spec(s@, a, b).take(i as int));
    }
    assert(out@ =~= replace_char_spec(s@, a, b));
    out
}

/// Whether a character occurs in the text.
pub fn contains_char(s: &str, c: char) -> (r: bool)
    ensures
        r == s@.contains(c),
{
    let v = chars_of(s);
    let i: usize = find_in(&v, c, 0);
    proof {
        find_char_props(s@, c, 0);
    }
    i < v.len()
}

/// Whether the text begins with `p`.
pub open spec fn begins(s: Seq<char>, p: Seq<char>) -> bool {
    p.len() <= s.len() && s.take(p.len() as int) == p
}

/// Whether the text ends in `p`.
pub open spec fn ends(s: Seq<char>, p: Seq<char>) -> bool {
    p.len() <= s.len() && s.skip(s.len() - p.len()) == p
}

/// Whether `p` stands in `v` at `at`.
pub fn stands_at(v: &Vec<char>, p: &Vec<char>, at: usize) -> (r: bool)
    requires
        at <= v@.len(),
    ensures
        r == (at + p@.len() <= v@.len() && v@.subrange(at as int, at + p@.len()) == p@),
{
    let n: usize = v.len();
    if p.len() > n - at {
        return false;
    }
    let mut i: usize = 0;
    while i < p.len()
        invariant
            i <= p@.len(),
            n == v@.len(),
            at + p@.len() <= n,
            forall|k: int| 0 <= k < i ==> v@[at + k] == p@[k],
        decreases p@.len() - i,
    {
        if v[at + i] != p[i] {
            assert(v@.subrange(at as int, at + p@.len())[i as int] != p@[i as int]);
            return false;
        }
        i = i + 1;
    }
    assert(v@.subrange(at as int, at + p@.len()) =~= p@);
    true
}

/// What follows `p` where the text begins with it.
pub fn strip_prefix(s: &str, p: &str) -> (r: Option<String>)
    ensures
        match r {
            Some(t) => begins(s@, p@) && t@ == s@.skip(p@.len() as int),
            None => !begins(s@, p@),
        },
{
    let v = chars_of(s);
    let w = chars_of(p);
    let b = stands_at(&v, &w, 0);
    proof {
        if w@.len() <= v@.len() {
            assert(v@.subrange(0, w@.len() as int) =~= s@.take(p@.len() as int));
        }
    }
    if b {
        assert(v@.subrange(w@.len() as int, v@.len() as int) =~= s@.skip(p@.len() as int));
        Some(slice_of(&v, w.len(), v.len()))
    } else {
        None
    }
}

/// What stands before `p` where the text ends in it.
pub fn strip_suffix(s: &str, p: &str) -> (r: Option<String>)
    ensures
        match r {
            Some(t) => ends(s@, p@) && t@ == s@.take(s@.len() - p@.len()),
            None => !ends(s@, p@),
        },
{
    let v = chars_of(s);
    let w = chars_of(p);
    if w.len() > v.len() {
        return None;
    }
    let at: usize = v.len() - w.len();
    let b = stands_at(&v, &w, at);
    proof {
        assert(v@.subrange(at as int, at + w@.len()) =~= s@.skip(s@.len() - p@.len()));
    }
    if b {
        assert(v@.subrange(0, at as int) =~= s@.take(s@.len() - p@.len()));
        Some(slice_of(&v, 0, at))
    } else {
        None
    }
}

/// Whether the text begins with `p`.
pub fn starts_with(s: &str, p: &str) -> (r: bool)
    ensures
        r == begins(s@, p@),
{
    strip_prefix(s, p).is_some()
}

/// The pieces of the text between one `c` and the next.
pub open spec fn split_spec(s: Seq<char>, c: char) -> Seq<Seq<char>>
    decreases s.len(),
{
    let i = find_char(s, c, 0);
    if 0 <= i < s.len() {
        seq![s.take(i)] + split_spec(s.skip(i + 1), c)
    } else {
        seq![s]
    }
}

/// The pieces of the text between one `c` and the next.
pub fn split_all(s: &str, c: char) -> (r: Vec<String>)
    ensures
        texts(r@) == split_spec(s@, c),
        r@.len() >= 1,
{
    let v = chars_of(s);
    let mut out: Vec<String> = Vec::new();
    let mut start: usize = 0;
    assert(s@.skip(0) =~= s@);
    assert(texts(out@) + split_spec(s@, c) =~= split_spec(s@, c));
    loop
        invariant_except_break
            texts(out@) + split_spec(s@.skip(start as int), c) == split_spec(s@, c),
        invariant
            v@ == s@,
            start <= v@.len(),
        ensures
            texts(out@) == split_spec(s@, c),
            out@.len() >= 1,
        decreases v@.len() + 1 - start,
    {
        let i: usize = find_in(&v, c, start);
        let ghost rest = s@.skip(start as int);
        proof {
            find_char_props(s@, c, start as int);
            find_char_at(rest, c, 0, i - start);
        }
        let ghost before = out@;
        out.push(slice_of(&v, start, i));
        proof {
            texts_push(before, out@.last());
        }
        if i < v.len() {
            assert(rest.take(i - start) =~= s@.subrange(start as int, i as int));
            assert(rest.skip(i - start + 1) =~= s@.skip(i + 1));
            assert(texts(out@) + split_spec(s@.skip(i + 1), c) =~= texts(before) + split_spec(rest, c));
            start = i + 1;
        } else {
            assert(rest =~= s@.subrange(start as int, i as int));
            assert(texts(out@) =~= texts(before) + split_spec(rest, c));
            break;
        }
    }
    out
}

/// Texts one after the other, with `sep` between them.
pub open spec fn join_spec(parts: Seq<Seq<char>>, sep: Seq<char>) -> Seq<char>
    decreases parts.len(),
{
    if parts.len() == 0 {
        Seq::empty()
    } else if parts.len() == 1 {
        parts[0]
    } else {
        parts[0] + sep + join_spec(parts.drop_first(), sep)
    }
}

/// Joining one more part.
pub proof fn join_push(parts: Seq<Seq<char>>, last: Seq<char>, sep: Seq<char>)
    ensures
        join_spec(parts.push(last), sep) == if parts.len() == 0 {
            last
        } else {
            join_spec(parts, sep) + sep + last
        },
    decreases parts.len(),
{
    if parts.len() > 0 {
        assert(parts.push(last).drop_first() =~= parts.drop_first().push(last));
        join_push(parts.drop_first(), last, sep);
        if parts.len() == 1 {
            assert(parts.drop_first() =~= Seq::empty());
            assert(parts.push(last).drop_first() =~= seq![last]);
            assert(join_spec(parts.push(last).drop_first(), sep) == last);
        } else {
            assert(join_spec(parts.push(last), sep) =~= join_spec(parts, sep) + sep + last);
        }
    }
}

/// Texts one after the other, with `sep` between them.
pub fn join(parts: &Vec<String>, sep: &str) -> (r: String)
    ensures
        r@ == join_spec(texts(parts@), sep@),
{
    let mut out = String::new();
    let mut i: usize = 0;
    assert(texts(parts@).take(0) =~= Seq::empty());
    assert(out@ =~= join_spec(texts(parts@).take(0), sep@));
    while i < parts.len()
        invariant
            i <= parts@.len(),
            out@ == join_spec(texts(parts@).take(i as int), sep@),
        decreases parts@.len() - i,
    {
        let ghost done = texts(parts@).take(i as int);
        proof {
            join_push(done, parts@[i as int]@, sep@);
            assert(texts(parts@).take(i + 1) =~= done.push(parts@[i as int]@));
        }
        if i > 0 {
            push_text(&mut out, sep);
        }
        push_text(&mut out, parts[i].as_str());
        proof {
            if i == 0 {
                assert(out@ =~= parts@[0]@);
            }
        }
        i = i + 1;
    }
    assert(texts(parts@).take(i as int) =~= texts(parts@));
    out
}

/// Splitting at `c` what was joined with `c` gives the parts back, where none of
/// them holds `c` and there is at least one.
pub proof fn split_of_join(parts: Seq<Seq<char>>, c: char)
    requires
        parts.len() > 0,
        forall|i: int| 0 <= i < parts.len() ==> !(#[trigger] parts[i]).contains(c),
    ensures
        split_spec(join_spec(parts, seq![c]), c) == parts,
    decreases parts.len(),
{
    let s = join_spec(parts, seq![c]);
    let first = parts[0];
    assert(!first.contains(c));
    if parts.len() == 1 {
        find_char_at(s, c, 0, s.len() as int);
        assert(split_spec(s, c) =~= parts);
    } else {
        let rest = parts.drop_first();
        assert forall|i: int| 0 <= i < rest.len() implies !(#[trigger] rest[i]).contains(c) by {
            assert(rest[i] == parts[i + 1]);
        }
        split_of_join(rest, c);
        let n = first.len() as int;
        assert(s[n] == c);
        assert forall|k: int| 0 <= k < n implies s[k] != c by {
            assert(s[k] == first[k]);
        }
        find_char_at(s, c, 0, n);
        assert(s.take(n) =~= first);
        assert(s.skip(n + 1) =~= join_spec(rest, seq![c]));
        assert(split_spec(s, c) =~= parts);
    }
}

/// Characters that Unicode counts as white space.
pub open spec fn is_space(c: char) -> bool {
    ||| '\u{9}' <= c <= '\u{d}'
    ||| c == ' '
    ||| c == '\u{85}'
    ||| c == '\u{a0}'
    ||| c == '\u{1680}'
    ||| '\u{2000}' <= c <= '\u{200a}'
    ||| c == '\u{2028}'
    ||| c == '\u{2029}'
    ||| c == '\u{202f}'
    ||| c == '\u{205f}'
    ||| c == '\u{3000}'
}

/// Whether Unicode counts the character as white space.
pub fn is_white(c: char) -> (r: bool)
    ensures
        r == is_space(c),
{
    ('\u{9}' <= c && c <= '\u{d}') || c == ' ' || c == '\u{85}' || c == '\u{a0}' || c == '\u{1680}'
        || ('\u{2000}' <= c && c <= '\u{200a}') || c == '\u{2028}' || c == '\u{2029}'
        || c == '\u{202f}' || c == '\u{205f}' || c == '\u{3000}'
}

/// Whether the text is nothing but white space.
pub open spec fn is_blank(s: Seq<char>) -> bool {
    forall|i: int| 0 <= i < s.len() ==> is_space(#[trigger] s[i])
}

/// Whether the text is nothing but white space.
pub fn blank(s: &str) -> (r: bool)
    ensures
        r == is_blank(s@),
{
    let v = chars_of(s);
    let mut i: usize = 0;
    while i < v.len()
        invariant
            i <= v@.len(),
            v@ == s@,
            forall|k: int| 0 <= k < i ==> is_space(#[trigger] v@[k]),
        decreases v@.len() - i,
    {
        if !is_white(v[i]) {
            assert(!is_space(s@[i as int]));
            return false;
        }
        i = i + 1;
    }
    true
}

/// The text without the `c` that it begins with.
pub open spec fn trim_start_spec(s: Seq<char>, c: char) -> Seq<char>
    decreases s.len(),
{
    if s.len() > 0 && s[0] == c {
        trim_start_spec(s.drop_first(), c)
    } else {
        s
    }
}

/// The text without the `c` that it ends in.
pub open spec fn trim_end_spec(s: Seq<char>, c: char) -> Seq<char>
    decreases s.len(),
{
    if s.len() > 0 && s.last() == c {
        trim_end_spec(s.drop_last(), c)
    } else {
        s
    }
}

/// The text without the `c` that it ends in.
pub fn trim_end(s: &str, c: char) -> (r: String)
    ensures
        r@ == trim_end_spec(s@, c),
{
    let v = chars_of(s);
    let mut n: usize = v.len();
    assert(v@.take(n as int) =~= s@);
    while n > 0 && v[n - 1] == c
        invariant
            n <= v@.len(),
            trim_end_spec(v@.take(n as int), c) == trim_end_spec(s@, c),
        decreases n,
    {
        assert(v@.take(n as int).drop_last() =~= v@.take(n - 1));
        n = n - 1;
    }
    assert(v@.take(n as int) =~= v@.subrange(0, n as int));
    slice_of(&v, 0, n)
}

/// The text without the `c` that it begins with.
pub fn trim_start(s: &str, c: char) -> (r: String)
    ensures
        r@ == trim_start_spec(s@, c),
{
    let v = chars_of(s);
    let mut n: usize = 0;
    assert(v@.skip(n as int) =~= s@);
    while n < v.len() && v[n] == c
        invariant
            n <= v@.len(),
            trim_start_spec(v@.skip(n as int), c) == trim_start_spec(s@, c),
        decreases v@.len() - n,
    {
        assert(v@.skip(n as int).drop_first() =~= v@.skip(n + 1));
        n = n + 1;
    }
    assert(v@.skip(n as int) =~= v@.subrange(n as int, v@.len() as int));
    slice_of(&v, n, v.len())
}

/// Whether a character is a decimal digit.
pub open spec fn is_digit(c: char) -> bool {
    '0' <= c <= '9'
}

/// Whether the text is nothing but decimal digits.
pub open spec fn all_digits(s: Seq<char>) -> bool {
    forall|i: int| 0 <= i < s.len() ==> is_digit(#[trigger] s[i])
}

/// The number that decimal digits write.
pub open spec fn digits_value(s: Seq<char>) -> nat
    decreases s.len(),
{
    if s.len() == 0 {
        0
    } else {
        digits_value(s.drop_last()) * 10 + (s.last() as nat - '0' as nat) as nat
    }
}

/// The number that a text writes in decimal, with or without a `+` before it,
/// where it is at most `max`.
pub open spec fn number_spec(s: Seq<char>, max: nat) -> Option<nat> {
    let d = if s.len() > 0 && s[0] == '+' { s.drop_first() } else { s };
    if d.len() > 0 && all_digits(d) && digits_value(d) <= max {
        Some(digits_value(d))
    } else {
        None
    }
}

pub proof fn digits_value_grows(s: Seq<char>, n: int)
    requires
        0 <= n <= s.len(),
        all_digits(s),
    ensures
        digits_value(s.take(n)) <= digits_value(s),
    decreases s.len(),
{
    if n == s.len() {
        assert(s.take(n) =~= s);
    } else {
        digits_value_grows(s.drop_last(), n);
        assert(s.drop_last().take(n) =~= s.take(n));
    }
}

/// The number that a text writes in decimal, with or without a `+` before it,
/// where it is at most `max`.
pub fn parse_number(s: &str, max: u64) -> (r: Option<u64>)
    ensures
        match r {
            Some(n) => number_spec(s@, max as nat) == Some(n as nat),
            None => number_spec(s@, max as nat) is None,
        },
{
    let v = chars_of(s);
    let start: usize = if v.len() > 0 && v[0] == '+' { 1 } else { 0 };
    let ghost d = if s@.len() > 0 && s@[0] == '+' { s@.drop_first() } else { s@ };
    assert(d =~= v@.skip(start as int));
    if start == v.len() {
        return None;
    }
    let mut i: usize = start;
    let mut n: u64 = 0;
    assert(d.take(0) =~= Seq::empty());
    while i < v.len()
        invariant
            start <= i <= v@.len(),
            start <= 1,
            start < v@.len(),
            d == v@.skip(start as int),
            d == if s@.len() > 0 && s@[0] == '+' { s@.drop_first() } else { s@ },
            n == digits_value(d.take(i - start)),
            n <= max,
            all_digits(d.take(i - start)),
        decreases v@.len() - i,
    {
        let c = v[i];
        assert(d[i - start] == c);
        if c < '0' || '9' < c {
            assert(!is_digit(d[i - start]));
            return None;
        }
        let x: u64 = c as u64 - '0' as u64;
        proof {
            assert(d.take(i - start + 1).drop_last() =~= d.take(i - start));
            assert(d.take(i - start + 1).last() == c);
            assert(digits_value(d.take(i - start + 1)) == n * 10 + x);
            if all_digits(d) {
                digits_value_grows(d, i - start + 1);
            }
        }
        if x > max || n > (max - x) / 10 {
            return None;
        }
        n = n * 10 + x;
        i = i + 1;
        assert(all_digits(d.take(i - start))) by {
            assert forall|k: int| 0 <= k < d.take(i - start).len() implies is_digit(#[trigger] d.take(i - start)[k]) by {
                if k < i - start - 1 {
                    assert(d.take(i - start)[k] == d.take(i - start - 1)[k]);
                }
            }
        }
    }
    assert(d.take(i - start) =~= d);
    Some(n)
}

/// The decimal digit of a number below ten.
pub open spec fn digit(n: nat) -> char {
    ('0' as u32 + n as u32) as char
}

/// A number in decimal, without leading zeros.
pub open spec fn decimal_spec(n: nat) -> Seq<char>
    decreases n,
{
    if n < 10 {
        seq![digit(n)]
    } else {
        decimal_spec(n / 10).push(digit(n % 10))
    }
}

/// A number in decimal, without leading zeros.
pub fn decimal(n: u64) -> (r: String)
    ensures
        r@ == decimal_spec(n as nat),
    decreases n,
{
    let mut s = if n < 10 { String::new() } else { decimal(n / 10) };
    let c: u8 = 48 + (n % 10) as u8;
    s.push(c as char);
    assert(s@ =~= decimal_spec(n as nat));
    s
}

/// What `decimal_spec` writes is read back as the same number.
pub proof fn decimal_reads_back(n: nat)
    ensures
        decimal_spec(n).len() > 0,
        all_digits(decimal_spec(n)),
        digits_value(decimal_spec(n)) == n,
    decreases n,
{
    if n < 10 {
        let s = decimal_spec(n);
        assert(s.drop_last() =~= Seq::empty());
        assert(digits_value(s.drop_last()) == 0);
        assert(is_digit(s[0]));
    } else {
        decimal_reads_back(n / 10);
        let s = decimal_spec(n);
        assert(s.drop_last() =~= decimal_spec(n / 10));
        assert(is_digit(s.last()));
        assert forall|i: int| 0 <= i < s.len() implies is_digit(#[trigger] s[i]) by {
            if i < s.len() - 1 {
                assert(s[i] == decimal_spec(n / 10)[i]);
            }
        }
    }
}

/// A number written in decimal is read back, where it is within the limit.
pub proof fn number_of_decimal(n: nat, max: nat)
    requires
        n <= max,
    ensures
        number_spec(decimal_spec(n), max) == Some(n),
{
    decimal_reads_back(n);
    assert(is_digit(decimal_spec(n)[0]));
}

/// Appends a text to others.
pub fn add_text(v: &mut Vec<String>, s: &str)
    ensures
        texts(final(v)@) == texts(old(v)@).push(s@),
{
    let ghost before = v@;
    v.push(s.to_owned());
    proof {
        texts_push(before, v@.last());
    }
}

/// Appends texts to others.
pub fn add_texts(v: &mut Vec<String>, more: &Vec<String>)
    ensures
        texts(final(v)@) == texts(old(v)@) + texts(more@),
{
    let ghost before = v@;
    push_texts(v, more);
    assert(texts(before + more@) =~= texts(before) + texts(more@));
}

/// A line without the carriage return that it ends in.
pub open spec fn without_cr(s: Seq<char>) -> Seq<char> {
    if s.len() > 0 && s.last() == '\r' {
        s.drop_last()
    } else {
        s
    }
}

/// The lines that pieces between line feeds come to. The last piece is a line only where
/// it is not empty, and keeps a carriage return.
pub open spec fn lines_among(pieces: Seq<Seq<char>>) -> Seq<Seq<char>> {
    let whole = pieces.drop_last().map_values(|p: Seq<char>| without_cr(p));
    if pieces.last().len() > 0 {
        whole.push(pieces.last())
    } else {
        whole
    }
}

/// The lines of a text.
pub open spec fn lines_spec(s: Seq<char>) -> Seq<Seq<char>> {
    lines_among(split_spec(s, '\n'))
}

fn drop_cr(s: &str) -> (r: String)
    ensures
        r@ == without_cr(s@),
{
    let v = chars_of(s);
    let n: usize = v.len();
    if n > 0 && v[n - 1] == '\r' {
        assert(v@.subrange(0, n - 1) =~= s@.drop_last());
        slice_of(&v, 0, n - 1)
    } else {
        s.to_owned()
    }
}

/// The lines of a text.
pub fn lines_of(s: &str) -> (r: Vec<String>)
    ensures
        texts(r@) == lines_spec(s@),
{
    let pieces = split_all(s, '\n');
    let ghost ps = texts(pieces@);
    let n: usize = pieces.len() - 1;
    let mut out: Vec<String> = Vec::new();
    let mut i: usize = 0;
    while i < n
        invariant
            i <= n,
            n + 1 == pieces@.len(),
            out@.len() == i,
            forall|k: int| 0 <= k < i ==> (#[trigger] out@[k])@ == without_cr(pieces@[k]@),
        decreases n - i,
    {
        out.push(drop_cr(pieces[i].as_str()));
        i = i + 1;
    }
    assert(texts(out@) =~= ps.drop_last().map_values(|p: Seq<char>| without_cr(p)));
    assert(ps.last() == pieces@[n as int]@);
    proof {
        reveal_strlit("");
        if ps.last().len() == 0 {
            assert(ps.last() =~= ""@);
        }
    }
    if !same(pieces[n].as_str(), "") {
        add_text(&mut out, pieces[n].as_str());
    }
    out
}

} // verus!
