//! Laws of texts: of taking them apart and putting them together.
use vstd::prelude::*;
use crate::text::{
    decimal_reads_back, decimal_spec, find_char, find_char_props, is_digit, join_push, join_spec, lines_spec,
    number_spec, replace_char_spec, rfind_char_props, rsplit_once_spec, split_of_join, split_once_spec, split_spec,
    trim_end_spec, trim_start_spec, without_cr,
};

verus! {

/// Joining two lists of texts is joining each, with the separator between them. One text is
/// joined to itself, and none to nothing.
pub proof fn joining_goes_on(a: Seq<Seq<char>>, b: Seq<Seq<char>>, sep: Seq<char>, x: Seq<char>)
    ensures
        join_spec(Seq::empty(), sep) == Seq::<char>::empty(),
        join_spec(seq![x], sep) == x,
        a.len() > 0 && b.len() > 0 ==> join_spec(a + b, sep) == join_spec(a, sep) + sep + join_spec(b, sep),
    decreases a.len(),
{
    if a.len() > 0 && b.len() > 0 {
        assert((a + b).drop_first() =~= a.drop_first() + b);
        assert((a + b)[0] == a[0]);
        if a.len() == 1 {
            assert(a.drop_first() + b =~= b);
            assert(join_spec(a + b, sep) =~= join_spec(a, sep) + sep + join_spec(b, sep));
        } else {
            joining_goes_on(a.drop_first(), b, sep, x);
            assert(join_spec(a + b, sep) =~= join_spec(a, sep) + sep + join_spec(b, sep));
        }
    }
}

/// A text that is split at a character and joined with it again is the same, and none of the
/// pieces holds the character.
pub proof fn joining_undoes_splitting(s: Seq<char>, c: char)
    ensures
        split_spec(s, c).len() > 0,
        join_spec(split_spec(s, c), seq![c]) == s,
        forall|i: int| 0 <= i < split_spec(s, c).len() ==> !(#[trigger] split_spec(s, c)[i]).contains(c),
    decreases s.len(),
{
    let p = split_spec(s, c);
    let i = find_char(s, c, 0);
    find_char_props(s, c, 0);
    if i < s.len() {
        let rest = s.skip(i + 1);
        joining_undoes_splitting(rest, c);
        assert(p.drop_first() =~= split_spec(rest, c));
        assert(p[0] == s.take(i));
        assert(join_spec(p, seq![c]) =~= s);
        assert forall|k: int| 0 <= k < p.len() implies !(#[trigger] p[k]).contains(c) by {
            if k > 0 {
                assert(p[k] == split_spec(rest, c)[k - 1]);
            }
        }
    }
}

/// What stands before and after the first of a character, and before and after the last, makes
/// up the text. Nothing is found only where the character is not there.
pub proof fn splitting_once_keeps_all(s: Seq<char>, c: char)
    ensures
        split_once_spec(s, c) is Some <==> s.contains(c),
        split_once_spec(s, c) matches Some((a, b)) ==> s == a + seq![c] + b && !a.contains(c),
        rsplit_once_spec(s, c) is Some <==> s.contains(c),
        rsplit_once_spec(s, c) matches Some((a, b)) ==> s == a + seq![c] + b && !b.contains(c),
{
    find_char_props(s, c, 0);
    rfind_char_props(s, c, s.len() as int);
    if let Some((a, b)) = split_once_spec(s, c) {
        assert(s =~= a + seq![c] + b);
    }
    if let Some((a, b)) = rsplit_once_spec(s, c) {
        assert(s =~= a + seq![c] + b);
    }
    if s.contains(c) {
        let k = choose|k: int| 0 <= k < s.len() && s[k] == c;
    }
}

/// Replacing a character changes nothing but that character.
pub proof fn replacing_is_one_for_one(s: Seq<char>, a: char, b: char, i: int)
    requires
        0 <= i < s.len(),
    ensures
        replace_char_spec(s, a, b).len() == s.len(),
        s[i] == a ==> replace_char_spec(s, a, b)[i] == b,
        s[i] != a ==> replace_char_spec(s, a, b)[i] == s[i],
{
}

/// Replacing what separates pieces is joining the pieces with something else.
pub proof fn replacing_is_joining_otherwise(s: Seq<char>, a: char, b: char)
    ensures
        replace_char_spec(s, a, b) == join_spec(split_spec(s, a), seq![b]),
    decreases s.len(),
{
    let i = find_char(s, a, 0);
    find_char_props(s, a, 0);
    let p = split_spec(s, a);
    if i < s.len() {
        let rest = s.skip(i + 1);
        replacing_is_joining_otherwise(rest, a, b);
        joining_undoes_splitting(rest, a);
        assert(p.drop_first() =~= split_spec(rest, a));
        assert(p[0] == s.take(i));
        assert(replace_char_spec(s, a, b) =~= s.take(i) + seq![b] + replace_char_spec(rest, a, b));
    } else {
        assert(replace_char_spec(s, a, b) =~= s);
    }
}

/// Trimming takes away the character at one end, as often as it is there, and nothing else.
pub proof fn trimming_takes_one_end(s: Seq<char>, c: char)
    ensures
        ({
            let t = trim_start_spec(s, c);
            let n = s.len() - t.len();
            &&& 0 <= n
            &&& s.skip(n) == t
            &&& t.len() > 0 ==> t[0] != c
            &&& forall|i: int| 0 <= i < n ==> s[i] == c
        }),
        ({
            let t = trim_end_spec(s, c);
            &&& t.len() <= s.len()
            &&& s.take(t.len() as int) == t
            &&& t.len() > 0 ==> t.last() != c
            &&& forall|i: int| t.len() <= i < s.len() ==> s[i] == c
        }),
    decreases s.len(),
{
    if s.len() > 0 {
        trimming_takes_one_end(s.drop_first(), c);
        trimming_takes_one_end(s.drop_last(), c);
        if s[0] == c {
            let t = trim_start_spec(s, c);
            let n = s.len() - t.len();
            assert(s.skip(n) =~= s.drop_first().skip(n - 1));
            assert forall|i: int| 0 <= i < n implies s[i] == c by {
                if i > 0 {
                    assert(s[i] == s.drop_first()[i - 1]);
                }
            }
        } else {
            assert(s.skip(0) =~= s);
        }
        if s.last() == c {
            let t = trim_end_spec(s, c);
            assert(s.take(t.len() as int) =~= s.drop_last().take(t.len() as int));
            assert forall|i: int| t.len() <= i < s.len() implies s[i] == c by {
                if i < s.len() - 1 {
                    assert(s[i] == s.drop_last()[i]);
                }
            }
        } else {
            assert(s.take(s.len() as int) =~= s);
        }
    } else {
        assert(s.skip(0) =~= s);
        assert(s.take(0) =~= s);
    }
}

/// A number in decimal is read back where it is within the limit, and refused where it is not. A
/// plus before it makes no difference. One more digit makes it ten times as much, and the digit.
/// What is no digit is refused, and so is nothing at all.
pub proof fn numbers_are_read_in_decimal(n: nat, max: nat, s: Seq<char>, d: nat, i: int)
    requires
        d < 10,
    ensures
        number_spec(decimal_spec(n), max) == if n <= max { Some(n) } else { None },
        number_spec(seq!['+'] + decimal_spec(n), max) == number_spec(decimal_spec(n), max),
        number_spec(seq!['0'] + decimal_spec(n), max) == number_spec(decimal_spec(n), max),
        n > 0 ==> decimal_spec(n * 10 + d) == decimal_spec(n) + decimal_spec(d),
        0 < i < s.len() && !('0' <= s[i] <= '9') ==> number_spec(s, max) is None,
        s.len() > 0 && s[0] != '+' && !('0' <= s[0] <= '9') ==> number_spec(s, max) is None,
        s.len() == 0 ==> number_spec(s, max) is None,
{
    let t = decimal_spec(n);
    decimal_reads_back(n);
    assert(is_digit(t[0]));
    assert((seq!['+'] + t).drop_first() =~= t);
    let z = seq!['0'] + t;
    assert forall|k: int| 0 <= k < z.len() implies is_digit(#[trigger] z[k]) by {
        if k > 0 {
            assert(z[k] == t[k - 1]);
        }
    }
    leading_zero_counts_nothing(t);
    if n > 0 {
        assert((n * 10 + d) / 10 == n);
        assert((n * 10 + d) % 10 == d);
        assert(decimal_spec(n * 10 + d) =~= decimal_spec(n) + decimal_spec(d));
    }
    if 0 < i < s.len() && !('0' <= s[i] <= '9') {
        assert(!is_digit(s[i]));
        if s[0] == '+' {
            assert(s.drop_first()[i - 1] == s[i]);
        }
    }
    if s.len() > 0 && s[0] != '+' && !('0' <= s[0] <= '9') {
        assert(!is_digit(s[0]));
    }
}

proof fn leading_zero_counts_nothing(t: Seq<char>)
    ensures
        crate::text::digits_value(seq!['0'] + t) == crate::text::digits_value(t),
    decreases t.len(),
{
    let z = seq!['0'] + t;
    if t.len() == 0 {
        assert(z.drop_last() =~= Seq::empty());
        assert(crate::text::digits_value(z.drop_last()) == 0);
    } else {
        leading_zero_counts_nothing(t.drop_last());
        assert(z.drop_last() =~= seq!['0'] + t.drop_last());
    }
}

/// Lines that are written one below the other are read back, whether they end in a line feed or
/// in a carriage return and a line feed, and whether the last one ends so or not.
pub proof fn lines_read_back(lines: Seq<Seq<char>>, last: Seq<char>)
    requires
        forall|i: int|
            0 <= i < lines.len() ==> !(#[trigger] lines[i]).contains('\n') && !(lines[i].len() > 0
                && lines[i].last() == '\r'),
        !last.contains('\n'),
        last.len() > 0,
    ensures
        lines_spec(join_spec(lines.push(Seq::empty()), "\n"@)) == lines,
        lines_spec(join_spec(lines.push(last), "\n"@)) == lines.push(last),
        lines_spec(join_spec(lines.map_values(|l: Seq<char>| l.push('\r')).push(Seq::empty()), "\n"@)) == lines,
        lines_spec(Seq::empty()) == Seq::<Seq<char>>::empty(),
{
    reveal_strlit("\n");
    assert("\n"@ =~= seq!['\n']);
    let empty = Seq::<char>::empty();
    let a = lines.push(empty);
    let b = lines.push(last);
    let crs = lines.map_values(|l: Seq<char>| l.push('\r'));
    let c = crs.push(empty);
    assert forall|i: int| 0 <= i < a.len() implies !(#[trigger] a[i]).contains('\n') by {
        if i < lines.len() {
            assert(a[i] == lines[i]);
        }
    }
    assert forall|i: int| 0 <= i < b.len() implies !(#[trigger] b[i]).contains('\n') by {
        if i < lines.len() {
            assert(b[i] == lines[i]);
        }
    }
    assert forall|i: int| 0 <= i < c.len() implies !(#[trigger] c[i]).contains('\n') by {
        if i < lines.len() {
            assert(c[i] == lines[i].push('\r'));
            assert(!lines[i].contains('\n'));
            if c[i].contains('\n') {
                let k = choose|k: int| 0 <= k < c[i].len() && c[i][k] == '\n';
                assert(lines[i][k] == '\n');
            }
        }
    }
    split_of_join(a, '\n');
    split_of_join(b, '\n');
    split_of_join(c, '\n');
    assert(a.drop_last() =~= lines);
    assert(b.drop_last() =~= lines);
    assert(c.drop_last() =~= crs);
    assert(lines.map_values(|p: Seq<char>| without_cr(p)) =~= lines);
    assert forall|i: int| 0 <= i < lines.len() implies without_cr(#[trigger] crs[i]) == lines[i] by {
        assert(lines[i].push('\r').drop_last() =~= lines[i]);
    }
    assert(crs.map_values(|p: Seq<char>| without_cr(p)) =~= lines);
    let none = seq![empty];
    assert(join_spec(none, seq!['\n']) == empty);
    split_of_join(none, '\n');
    assert(none.drop_last() =~= Seq::empty());
    assert(none.drop_last().map_values(|p: Seq<char>| without_cr(p)) =~= Seq::empty());
}

} // verus!
