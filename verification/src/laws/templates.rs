//! Laws of the templates in a POM: of what they stand for, and of what replacing them does.
use vstd::prelude::*;
use crate::maven::template::{
    apply_spec, apply_text, byte_len_spec, char_at_byte, close_from, items_name, names, none_missing, precedence_of_properties,
    reference_of, references_spec, replace_spec, system_spec, template_at, template_at_props, template_close,
    template_from, template_name, templates_spec, text_names, SystemInfo,
};
use crate::maven::xml::{find_str_spec, get_spec, Items, XmlView};
use crate::text::{begins, find_char_at, find_char_props, split_once_spec};

verus! {

/// Whether a text stands in another at a place.
pub open spec fn is_at(s: Seq<char>, pat: Seq<char>, k: int) -> bool {
    0 <= k <= s.len() - pat.len() && s.subrange(k, k + pat.len()) == pat
}

/// Replacing turns the first of what is replaced into what replaces it, leaves all before it as it
/// is, and goes on behind it. Where nothing is to be replaced, nothing changes.
pub proof fn first_is_replaced_and_so_on(s: Seq<char>, pat: Seq<char>, val: Seq<char>, k: int)
    requires
        pat.len() > 0,
    ensures
        is_at(s, pat, k) && (forall|j: int| 0 <= j < k ==> !#[trigger] is_at(s, pat, j)) ==> replace_spec(s, pat, val)
            == s.take(k) + val + replace_spec(s.skip(k + pat.len()), pat, val),
        (forall|j: int| 0 <= j < s.len() ==> !#[trigger] is_at(s, pat, j)) ==> replace_spec(s, pat, val) == s,
    decreases s.len(),
{
    let n = pat.len() as int;
    if s.len() >= n {
        assert(s.subrange(0, n) =~= s.take(n));
        let d = s.drop_first();
        assert forall|j: int| 0 <= j <= d.len() - n implies d.subrange(j, j + n) == #[trigger] s.subrange(
            j + 1,
            j + 1 + n,
        ) by {
            assert(d.subrange(j, j + n) =~= s.subrange(j + 1, j + 1 + n));
        }
        assert forall|j: int| 0 <= j <= d.len() - n implies #[trigger] is_at(d, pat, j) == is_at(s, pat, j + 1) by {
            assert(d.subrange(j, j + n) =~= s.subrange(j + 1, j + 1 + n));
        }
        if is_at(s, pat, k) && (forall|j: int| 0 <= j < k ==> !#[trigger] is_at(s, pat, j)) {
            if k == 0 {
                assert(begins(s, pat));
                assert(s.take(0) =~= Seq::empty());
                assert(replace_spec(s, pat, val) =~= s.take(k) + val + replace_spec(s.skip(k + n), pat, val));
            } else {
                assert(!is_at(s, pat, 0));
                assert(!begins(s, pat));
                assert forall|j: int| 0 <= j < k - 1 implies !#[trigger] is_at(d, pat, j) by {
                    assert(!is_at(s, pat, j + 1));
                }
                assert(is_at(d, pat, k - 1));
                first_is_replaced_and_so_on(d, pat, val, k - 1);
                assert(d.skip(k - 1 + n) =~= s.skip(k + n));
                assert(replace_spec(s, pat, val) =~= s.take(k) + val + replace_spec(s.skip(k + n), pat, val));
            }
        }
        if forall|j: int| 0 <= j < s.len() ==> !#[trigger] is_at(s, pat, j) {
            assert(!is_at(s, pat, 0));
            assert forall|j: int| 0 <= j < d.len() implies !#[trigger] is_at(d, pat, j) by {
                if j <= d.len() - n {
                    assert(!is_at(s, pat, j + 1));
                }
            }
            first_is_replaced_and_so_on(d, pat, val, k);
            assert(replace_spec(s, pat, val) =~= s);
        }
    }
}

/// A text that is a template, with what stands before and after it.
pub open spec fn with_template(before: Seq<char>, name: Seq<char>, after: Seq<char>) -> Seq<char> {
    before + "${"@ + name + "}"@ + after
}

/// Whether a template can have a name: at least one character, all on one line, and no closing
/// bracket but at the beginning.
pub open spec fn is_name(name: Seq<char>) -> bool {
    &&& name.len() > 0
    &&& !name.contains('\n')
    &&& !name.drop_first().contains('}')
}

proof fn nothing_without_a_dollar(s: Seq<char>, i: int)
    requires
        0 <= i,
        forall|k: int| i <= k < s.len() ==> s[k] != '$',
    ensures
        template_from(s, i) is None,
    decreases s.len() - i,
{
    if i < s.len() {
        nothing_without_a_dollar(s, i + 1);
    }
}

proof fn bracket_closes(s: Seq<char>, j: int, e: int)
    requires
        0 <= j <= e < s.len(),
        s[e] == '}',
        forall|k: int| j <= k < e ==> s[k] != '}' && s[k] != '\n',
    ensures
        close_from(s, j) == Some(e),
    decreases e - j,
{
    if j < e {
        bracket_closes(s, j + 1, e);
    }
}

proof fn first_dollar_begins(s: Seq<char>, i: int, b: int, e: int)
    requires
        0 <= i <= b,
        forall|k: int| i <= k < b ==> s[k] != '$',
        template_close(s, b) == Some(e),
        b < s.len(),
    ensures
        template_from(s, i) == Some((b, e)),
    decreases b - i,
{
    if i < b {
        first_dollar_begins(s, i + 1, b, e);
    }
}

proof fn search_begins_there(s: Seq<char>, at: nat, k: int, n: int)
    requires
        0 <= k <= n <= s.len(),
        at == byte_len_spec(s.take(n)),
    ensures
        char_at_byte(s, at, k) == n,
    decreases n - k,
{
    if k < n {
        bytes_grow(s, k, n);
        search_begins_there(s, at, k + 1, n);
    }
}

proof fn bytes_grow(s: Seq<char>, i: int, j: int)
    requires
        0 <= i < j <= s.len(),
    ensures
        byte_len_spec(s.take(i)) < byte_len_spec(s.take(j)),
    decreases j - i,
{
    assert(s.take(j).drop_last() =~= s.take(j - 1));
    if i < j - 1 {
        bytes_grow(s, i, j - 1);
    }
}

proof fn search_begins_before(s: Seq<char>, at: nat, k: int, n: int)
    requires
        0 <= k <= n <= s.len(),
        at <= byte_len_spec(s.take(n)),
    ensures
        k <= char_at_byte(s, at, k) <= n,
    decreases n - k,
{
    if k < n {
        search_begins_before(s, at, k + 1, n);
    }
}

/// The first template of a text is found, wherever the search begins before it.
proof fn template_is_found(before: Seq<char>, name: Seq<char>, after: Seq<char>, at: nat)
    requires
        is_name(name),
        !before.contains('$'),
        at <= byte_len_spec(before),
    ensures
        ({
            let s = with_template(before, name, after);
            let b = before.len() as int;
            let e = b + 2 + name.len();
            &&& template_at(s, at) == Some((b, e))
            &&& template_name(s, b, e) == name
            &&& s.take(b) == before
            &&& s.skip(e + 1) == after
            &&& s.subrange(b, e + 1) == "${"@ + name + "}"@
            &&& at < byte_len_spec(s.take(e + 1)) <= byte_len_spec(s)
            &&& e < s.len()
        }),
{
    reveal_strlit("${");
    reveal_strlit("}");
    assert("${"@ =~= seq!['$', '{']);
    assert("}"@ =~= seq!['}']);
    let s = with_template(before, name, after);
    let b = before.len() as int;
    let e = b + 2 + name.len();
    assert(s[b] == '$' && s[b + 1] == '{' && s[e] == '}');
    assert(s[b + 2] == name[0]);
    assert(name.contains(name[0]));
    assert forall|k: int| b + 3 <= k < e implies s[k] != '}' && s[k] != '\n' by {
        assert(s[k] == name[k - b - 2]);
        assert(name.contains(name[k - b - 2]));
        assert(name.drop_first()[k - b - 3] == s[k]);
        assert(name.drop_first().contains(s[k]));
    }
    bracket_closes(s, b + 3, e);
    assert forall|k: int| 0 <= k < b implies s[k] != '$' by {
        assert(before.contains(before[k]));
    }
    assert(s.take(b) =~= before);
    search_begins_before(s, at, 0, b);
    first_dollar_begins(s, char_at_byte(s, at, 0), b, e);
    assert(template_name(s, b, e) =~= name);
    assert(s.skip(e + 1) =~= after);
    assert(s.subrange(b, e + 1) =~= "${"@ + name + "}"@);
    template_at_props(s, at);
}

/// A template is no other template, and is not found where no dollar stands.
proof fn template_is_not_there(before: Seq<char>, name: Seq<char>, after: Seq<char>, other: Seq<char>, j: int)
    requires
        is_name(name),
        is_name(other),
        !before.contains('$'),
        !after.contains('$'),
    ensures
        is_at(with_template(before, name, after), "${"@ + other + "}"@, j) ==> j == before.len() && name == other || (
        before.len() < j < before.len() + 2 + name.len()),
        !is_at(after, "${"@ + other + "}"@, j),
{
    reveal_strlit("${");
    reveal_strlit("}");
    assert("${"@ =~= seq!['$', '{']);
    assert("}"@ =~= seq!['}']);
    let s = with_template(before, name, after);
    let pat = "${"@ + other + "}"@;
    let b = before.len() as int;
    let n = pat.len() as int;
    assert(pat[0] == '$');
    if is_at(after, pat, j) {
        assert(after.subrange(j, j + n)[0] == after[j]);
        assert(after.contains(after[j]));
    }
    if is_at(s, pat, j) {
        assert(s.subrange(j, j + n)[0] == s[j]);
        if j < b {
            assert(before.contains(before[j]));
        } else if j >= b + 3 + name.len() {
            assert(s[j] == after[j - b - 3 - name.len()]);
            assert(after.contains(s[j]));
        } else if j == b + 2 + name.len() {
            assert(s[j] == '}');
        } else if j == b {
            assert forall|k: int| 0 <= k < n implies s[b + k] == pat[k] by {
                assert(s.subrange(j, j + n)[k] == s[b + k]);
            }
            if other.len() < name.len() {
                let k = other.len() as int;
                assert(pat[2 + k] == '}');
                assert(s[b + 2 + k] == name[k]);
                assert(name.drop_first()[k - 1] == '}');
                assert(name.drop_first().contains('}'));
            } else if other.len() > name.len() {
                let k = name.len() as int;
                assert(s[b + 2 + k] == '}');
                assert(pat[2 + k] == other[k]);
                assert(other.drop_first()[k - 1] == '}');
                assert(other.drop_first().contains('}'));
            } else {
                assert forall|k: int| 0 <= k < name.len() implies name[k] == other[k] by {
                    assert(s[b + 2 + k] == name[k]);
                    assert(pat[2 + k] == other[k]);
                }
                assert(name =~= other);
            }
        }
    }
}

#[verifier::spinoff_prover]
#[verifier::rlimit(40)]
proof fn one_template_from(
    props: Map<Seq<char>, Seq<char>>,
    before: Seq<char>,
    name: Seq<char>,
    after: Seq<char>,
    at: nat,
)
    requires
        is_name(name),
        !before.contains('$'),
        !after.contains('$'),
        props.contains_key(name) ==> !props[name].contains('$'),
        at <= byte_len_spec(before),
        byte_len_spec(with_template(before, name, after)) <= usize::MAX,
    ensures
        apply_text(props, with_template(before, name, after), at) == if props.contains_key(name) {
            before + props[name] + after
        } else {
            with_template(before, name, after)
        },
{
    let s = with_template(before, name, after);
    let b = before.len() as int;
    let e = b + 2 + name.len();
    template_is_found(before, name, after, at);
    let next = byte_len_spec(s.take(e + 1));
    let pat = s.subrange(b, e + 1);
    if props.contains_key(name) {
        let v = props[name];
        assert(is_at(s, pat, b));
        assert forall|j: int| 0 <= j < b implies !#[trigger] is_at(s, pat, j) by {
            template_is_not_there(before, name, after, name, j);
        }
        first_is_replaced_and_so_on(s, pat, v, b);
        assert(s.skip(b + pat.len()) =~= after);
        assert forall|j: int| 0 <= j < after.len() implies !#[trigger] is_at(after, pat, j) by {
            template_is_not_there(before, name, after, name, j);
        }
        first_is_replaced_and_so_on(after, pat, v, 0);
        let t = before + v + after;
        assert(replace_spec(s, pat, v) == t);
        no_dollar_in_three(before, v, after);
        nothing_is_applied(props, t, next);
    } else {
        search_begins_there(s, next, 0, e + 1);
        assert forall|k: int| e + 1 <= k < s.len() implies s[k] != '$' by {
            assert(s.skip(e + 1)[k - e - 1] == s[k]);
            assert(after.contains(s[k]));
        }
        nothing_without_a_dollar(s, e + 1);
        assert(apply_text(props, s, next) == s);
    }
}

proof fn no_dollar_in_three(a: Seq<char>, b: Seq<char>, c: Seq<char>)
    requires
        !a.contains('$'),
        !b.contains('$'),
        !c.contains('$'),
    ensures
        !(a + b + c).contains('$'),
{
    let t = a + b + c;
    if t.contains('$') {
        let k = choose|k: int| 0 <= k < t.len() && t[k] == '$';
        if k < a.len() {
            assert(a[k] == '$');
        } else if k < a.len() + b.len() {
            assert(b[k - a.len()] == '$');
        } else {
            assert(c[k - a.len() - b.len()] == '$');
        }
    }
}

proof fn nothing_is_applied(props: Map<Seq<char>, Seq<char>>, t: Seq<char>, at: nat)
    requires
        !t.contains('$'),
    ensures
        apply_text(props, t, at) == t,
{
    search_stays_inside(t, at, 0);
    nothing_without_a_dollar(t, char_at_byte(t, at, 0));
}

/// A template stands for the value of its name, and what is before and after it stays. Where the
/// name has no value, the template stays, too.
pub proof fn template_stands_for_its_value(
    props: Map<Seq<char>, Seq<char>>,
    before: Seq<char>,
    name: Seq<char>,
    after: Seq<char>,
)
    requires
        is_name(name),
        !before.contains('$'),
        !after.contains('$'),
        props.contains_key(name) ==> !props[name].contains('$'),
        byte_len_spec(with_template(before, name, after)) <= usize::MAX,
    ensures
        apply_text(props, with_template(before, name, after), 0) == if props.contains_key(name) {
            before + props[name] + after
        } else {
            with_template(before, name, after)
        },
{
    one_template_from(props, before, name, after, 0);
}

/// Of two templates each stands for the value of its own name, where the search goes on before the
/// second: the value of the first, and what is between them, take no fewer bytes than the first.
/// A name that is used twice is replaced both times in any case, and one without a value keeps no
/// other from being replaced.
#[verifier::spinoff_prover]
#[verifier::rlimit(40)]
pub proof fn each_template_stands_for_its_own_value(
    props: Map<Seq<char>, Seq<char>>,
    a: Seq<char>,
    n: Seq<char>,
    b: Seq<char>,
    m: Seq<char>,
    c: Seq<char>,
)
    requires
        is_name(n),
        is_name(m),
        !a.contains('$'),
        !b.contains('$'),
        !c.contains('$'),
        !n.contains('$'),
        !m.contains('$'),
        props.contains_key(m),
        !props[m].contains('$'),
        props.contains_key(n) ==> !props[n].contains('$'),
        props.contains_key(n) && n != m ==> byte_len_spec(with_template(a, n, Seq::empty())) <= byte_len_spec(
            a + props[n] + b,
        ),
        byte_len_spec(with_template(a, n, with_template(b, m, c))) <= usize::MAX,
        props.contains_key(n) ==> byte_len_spec(with_template(a + props[n] + b, m, c)) <= usize::MAX,
    ensures
        props.contains_key(n) ==> apply_text(props, with_template(a, n, with_template(b, m, c)), 0) == a + props[n] + b
            + props[m] + c,
        !props.contains_key(n) ==> apply_text(props, with_template(a, n, with_template(b, m, c)), 0) == with_template(
            a,
            n,
            b + props[m] + c,
        ),
{
    if !props.contains_key(n) {
        second_template_is_applied(props, a, n, b, m, c);
    } else if n == m {
        both_are_applied_at_once(props, a, n, b, c);
    } else {
        both_are_applied_in_turn(props, a, n, b, m, c);
    }
}

/// What is replaced at one place only.
proof fn replaced_once(u: Seq<char>, pat: Seq<char>, w: Seq<char>, v: Seq<char>)
    requires
        pat.len() > 0,
        forall|j: int| 0 <= j < u.len() ==> !#[trigger] is_at(u + pat + w, pat, j),
    ensures
        replace_spec(u + pat + w, pat, v) == u + v + replace_spec(w, pat, v),
        (forall|j: int| 0 <= j < w.len() ==> !#[trigger] is_at(w, pat, j)) ==> replace_spec(u + pat + w, pat, v) == u
            + v + w,
{
    let s = u + pat + w;
    let k = u.len() as int;
    assert(s.subrange(k, k + pat.len()) =~= pat);
    first_is_replaced_and_so_on(s, pat, v, k);
    first_is_replaced_and_so_on(w, pat, v, 0);
    assert(s.take(k) =~= u);
    assert(s.skip(k + pat.len()) =~= w);
}

/// No template begins in a text without a dollar.
proof fn none_before(u: Seq<char>, rest: Seq<char>, name: Seq<char>, j: int)
    requires
        !u.contains('$'),
        0 <= j < u.len(),
    ensures
        !is_at(u + rest, "${"@ + name + "}"@, j),
        !is_at(u, "${"@ + name + "}"@, j),
{
    reveal_strlit("${");
    assert("${"@ =~= seq!['$', '{']);
    let pat = "${"@ + name + "}"@;
    let s = u + rest;
    assert(pat[0] == '$');
    assert(s[j] == u[j]);
    assert(u.contains(u[j]));
    if is_at(s, pat, j) {
        assert(s.subrange(j, j + pat.len())[0] == s[j]);
    }
    if is_at(u, pat, j) {
        assert(u.subrange(j, j + pat.len())[0] == u[j]);
    }
}

#[verifier::spinoff_prover]
#[verifier::rlimit(40)]
proof fn both_are_applied_at_once(
    props: Map<Seq<char>, Seq<char>>,
    a: Seq<char>,
    n: Seq<char>,
    b: Seq<char>,
    c: Seq<char>,
)
    requires
        is_name(n),
        !a.contains('$'),
        !b.contains('$'),
        !c.contains('$'),
        props.contains_key(n),
        !props[n].contains('$'),
        byte_len_spec(with_template(a, n, with_template(b, n, c))) <= usize::MAX,
    ensures
        apply_text(props, with_template(a, n, with_template(b, n, c)), 0) == a + props[n] + b + props[n] + c,
{
    let rest = with_template(b, n, c);
    let s = with_template(a, n, rest);
    let v = props[n];
    let e = (a.len() + 2 + n.len()) as int;
    let t = a + v + (b + v + c);
    template_is_found(a, n, rest, 0);
    both_are_replaced(a, n, b, c, v);
    no_dollar_in_three(b, v, c);
    no_dollar_in_three(a, v, b + v + c);
    applied_at_once(props, s, a.len() as int, e, n, t);
    assert(t =~= a + v + b + v + c);
}

proof fn applied_at_once(props: Map<Seq<char>, Seq<char>>, s: Seq<char>, b: int, e: int, name: Seq<char>, t: Seq<char>)
    requires
        0 < byte_len_spec(s) <= usize::MAX,
        template_at(s, 0) == Some((b, e)),
        template_name(s, b, e) == name,
        props.contains_key(name),
        replace_spec(s, s.subrange(b, e + 1), props[name]) == t,
        !t.contains('$'),
    ensures
        apply_text(props, s, 0) == t,
{
    one_step(props, s, 0, b, e);
    nothing_is_applied(props, t, byte_len_spec(s.take(e + 1)));
}

/// Templates are replaced one by one: the first from where the search has come is replaced by the
/// value of its name wherever it stands, and the search goes on at the byte where it ended. A name
/// without a value is passed over.
pub proof fn one_step(props: Map<Seq<char>, Seq<char>>, s: Seq<char>, at: nat, b: int, e: int)
    requires
        at < byte_len_spec(s) <= usize::MAX,
        template_at(s, at) == Some((b, e)),
    ensures
        props.contains_key(template_name(s, b, e)) ==> apply_text(props, s, at) == apply_text(
            props,
            replace_spec(s, s.subrange(b, e + 1), props[template_name(s, b, e)]),
            byte_len_spec(s.take(e + 1)),
        ),
        !props.contains_key(template_name(s, b, e)) ==> apply_text(props, s, at) == apply_text(
            props,
            s,
            byte_len_spec(s.take(e + 1)),
        ),
{
    template_at_props(s, at);
}

proof fn both_are_replaced(a: Seq<char>, n: Seq<char>, b: Seq<char>, c: Seq<char>, v: Seq<char>)
    requires
        !a.contains('$'),
        !b.contains('$'),
        !c.contains('$'),
    ensures
        replace_spec(with_template(a, n, with_template(b, n, c)), "${"@ + n + "}"@, v) == a + v + (b + v + c),
{
    let rest = with_template(b, n, c);
    let s = with_template(a, n, rest);
    let pat = "${"@ + n + "}"@;
    assert(pat.len() > 0) by {
        reveal_strlit("${");
    }
    assert(s =~= a + pat + rest);
    assert(rest =~= b + pat + c);
    assert forall|j: int| 0 <= j < a.len() implies !#[trigger] is_at(a + pat + rest, pat, j) by {
        none_before(a, pat + rest, n, j);
        assert(a + pat + rest =~= a + (pat + rest));
    }
    assert forall|j: int| 0 <= j < b.len() implies !#[trigger] is_at(b + pat + c, pat, j) by {
        none_before(b, pat + c, n, j);
        assert(b + pat + c =~= b + (pat + c));
    }
    assert forall|j: int| 0 <= j < c.len() implies !#[trigger] is_at(c, pat, j) by {
        none_before(c, c, n, j);
    }
    replaced_once(a, pat, rest, v);
    replaced_once(b, pat, c, v);
}

#[verifier::spinoff_prover]
#[verifier::rlimit(40)]
proof fn both_are_applied_in_turn(
    props: Map<Seq<char>, Seq<char>>,
    a: Seq<char>,
    n: Seq<char>,
    b: Seq<char>,
    m: Seq<char>,
    c: Seq<char>,
)
    requires
        is_name(n),
        is_name(m),
        n != m,
        !a.contains('$'),
        !b.contains('$'),
        !c.contains('$'),
        !m.contains('$'),
        props.contains_key(n),
        props.contains_key(m),
        !props[n].contains('$'),
        !props[m].contains('$'),
        byte_len_spec(with_template(a, n, Seq::empty())) <= byte_len_spec(a + props[n] + b),
        byte_len_spec(with_template(a, n, with_template(b, m, c))) <= usize::MAX,
        byte_len_spec(with_template(a + props[n] + b, m, c)) <= usize::MAX,
    ensures
        apply_text(props, with_template(a, n, with_template(b, m, c)), 0) == a + props[n] + b + props[m] + c,
{
    let rest = with_template(b, m, c);
    let s = with_template(a, n, rest);
    let v = props[n];
    let e = (a.len() + 2 + n.len()) as int;
    template_is_found(a, n, rest, 0);
    one_step(props, s, 0, a.len() as int, e);
    first_is_replaced(a, n, b, m, c, v);
    assert(s.take(e + 1) =~= with_template(a, n, Seq::empty())) by {
        reveal_strlit("${");
        reveal_strlit("}");
    }
    no_dollar_in_three(a, v, b);
    one_template_from(props, a + v + b, m, c, byte_len_spec(s.take(e + 1)));
}

proof fn first_is_replaced(a: Seq<char>, n: Seq<char>, b: Seq<char>, m: Seq<char>, c: Seq<char>, v: Seq<char>)
    requires
        is_name(n),
        is_name(m),
        n != m,
        !a.contains('$'),
        !b.contains('$'),
        !c.contains('$'),
        !m.contains('$'),
    ensures
        replace_spec(with_template(a, n, with_template(b, m, c)), "${"@ + n + "}"@, v) == with_template(
            a + v + b,
            m,
            c,
        ),
{
    let rest = with_template(b, m, c);
    let pat = "${"@ + n + "}"@;
    assert(with_template(a, n, rest) =~= a + pat + rest);
    assert forall|j: int| 0 <= j < a.len() implies !#[trigger] is_at(a + pat + rest, pat, j) by {
        none_before(a, pat + rest, n, j);
        assert(a + pat + rest =~= a + (pat + rest));
    }
    assert forall|j: int| 0 <= j < rest.len() implies !#[trigger] is_at(rest, pat, j) by {
        other_template_is_not_there(b, m, c, n, j);
    }
    assert(pat.len() > 0) by {
        reveal_strlit("${");
    }
    replaced_once(a, pat, rest, v);
    assert(a + v + rest =~= with_template(a + v + b, m, c));
}

proof fn other_template_is_not_there(b: Seq<char>, m: Seq<char>, c: Seq<char>, n: Seq<char>, j: int)
    requires
        is_name(n),
        is_name(m),
        n != m,
        !b.contains('$'),
        !c.contains('$'),
        !m.contains('$'),
    ensures
        !is_at(with_template(b, m, c), "${"@ + n + "}"@, j),
{
    reveal_strlit("${");
    reveal_strlit("}");
    assert("${"@ =~= seq!['$', '{']);
    let rest = with_template(b, m, c);
    let pat = "${"@ + n + "}"@;
    let y = b.len() as int;
    template_is_not_there(b, m, c, n, j);
    if is_at(rest, pat, j) {
        assert(rest.subrange(j, j + pat.len())[0] == rest[j]);
        assert(pat[0] == '$');
        if j == y + 1 {
            assert(rest[j] == '{');
        } else {
            assert(rest[j] == m[j - y - 2]);
            assert(m.contains(m[j - y - 2]));
        }
    }
}

/// After a template that stays, the next is found.
proof fn next_template_is_found(a: Seq<char>, n: Seq<char>, b: Seq<char>, m: Seq<char>, c: Seq<char>)
    requires
        is_name(n),
        is_name(m),
        !a.contains('$'),
        !b.contains('$'),
    ensures
        ({
            let s = with_template(a, n, with_template(b, m, c));
            let e = (a.len() + 3 + n.len()) as int;
            let f = e + b.len();
            let next = byte_len_spec(s.take(e));
            &&& template_at(s, next) == Some((f, f + 2 + m.len()))
            &&& template_name(s, f, f + 2 + m.len()) == m
            &&& s.subrange(f, f + 3 + m.len()) == "${"@ + m + "}"@
        }),
{
    let s = with_template(a, n, with_template(b, m, c));
    let e = (a.len() + 3 + n.len()) as int;
    reveal_strlit("${");
    reveal_strlit("}");
    assert("${"@ =~= seq!['$', '{']);
    assert("}"@ =~= seq!['}']);
    search_begins_there(s, byte_len_spec(s.take(e)), 0, e);
    let f = e + b.len();
    let g = f + 2 + m.len();
    assert(s[f] == '$' && s[f + 1] == '{' && s[g] == '}');
    assert(s[f + 2] == m[0]);
    assert(m.contains(m[0]));
    assert forall|k: int| f + 3 <= k < g implies s[k] != '}' && s[k] != '\n' by {
        assert(s[k] == m[k - f - 2]);
        assert(m.contains(m[k - f - 2]));
        assert(m.drop_first()[k - f - 3] == s[k]);
        assert(m.drop_first().contains(s[k]));
    }
    bracket_closes(s, f + 3, g);
    assert forall|k: int| e <= k < f implies s[k] != '$' by {
        assert(s[k] == b[k - e]);
        assert(b.contains(b[k - e]));
    }
    first_dollar_begins(s, e, f, g);
    assert(template_name(s, f, g) =~= m);
    assert(s.subrange(f, g + 1) =~= "${"@ + m + "}"@);
}

#[verifier::spinoff_prover]
#[verifier::rlimit(40)]
proof fn second_template_is_applied(
    props: Map<Seq<char>, Seq<char>>,
    a: Seq<char>,
    n: Seq<char>,
    b: Seq<char>,
    m: Seq<char>,
    c: Seq<char>,
)
    requires
        is_name(n),
        is_name(m),
        !a.contains('$'),
        !b.contains('$'),
        !c.contains('$'),
        !n.contains('$'),
        props.contains_key(m),
        !props[m].contains('$'),
        !props.contains_key(n),
        byte_len_spec(with_template(a, n, with_template(b, m, c))) <= usize::MAX,
    ensures
        apply_text(props, with_template(a, n, with_template(b, m, c)), 0) == with_template(a, n, b + props[m] + c),
{
    let rest = with_template(b, m, c);
    let s = with_template(a, n, rest);
    let v = props[m];
    let e = (a.len() + 3 + n.len()) as int;
    let g = e + b.len() + 3 + m.len();
    let next = byte_len_spec(s.take(e));
    template_is_found(a, n, rest, 0);
    one_step(props, s, 0, a.len() as int, e - 1);
    next_template_is_found(a, n, b, m, c);
    template_at_props(s, next);
    one_step(props, s, next, e + b.len(), g - 1);
    second_is_replaced(a, n, b, m, c, v);
    let t = with_template(a, n, b + v + c);
    assert(s.take(e) =~= t.take(e)) by {
        reveal_strlit("${");
        reveal_strlit("}");
    }
    rest_has_no_template(a, n, b + v + c, byte_len_spec(s.take(g)), s, b, v, c, g);
}

proof fn second_is_replaced(a: Seq<char>, n: Seq<char>, b: Seq<char>, m: Seq<char>, c: Seq<char>, v: Seq<char>)
    requires
        is_name(n),
        is_name(m),
        n != m,
        !a.contains('$'),
        !b.contains('$'),
        !c.contains('$'),
        !n.contains('$'),
    ensures
        replace_spec(with_template(a, n, with_template(b, m, c)), "${"@ + m + "}"@, v) == with_template(
            a,
            n,
            b + v + c,
        ),
{
    let pat = "${"@ + m + "}"@;
    let u = with_template(a, n, b);
    assert(with_template(a, n, with_template(b, m, c)) =~= u + pat + c);
    assert forall|j: int| 0 <= j < u.len() implies !#[trigger] is_at(u + pat + c, pat, j) by {
        second_is_not_there_before(a, n, b, pat + c, m, j);
        assert(u + pat + c =~= u + (pat + c));
    }
    assert forall|j: int| 0 <= j < c.len() implies !#[trigger] is_at(c, pat, j) by {
        none_before(c, c, m, j);
    }
    assert(pat.len() > 0) by {
        reveal_strlit("${");
    }
    replaced_once(u, pat, c, v);
    assert(u + v + c =~= with_template(a, n, b + v + c));
}

proof fn rest_has_no_template(
    a: Seq<char>,
    n: Seq<char>,
    rest: Seq<char>,
    at: nat,
    s: Seq<char>,
    b: Seq<char>,
    v: Seq<char>,
    c: Seq<char>,
    g: int,
)
    requires
        rest == b + v + c,
        !b.contains('$'),
        !v.contains('$'),
        !c.contains('$'),
        a.len() + 3 + n.len() <= g <= s.len(),
        s.take((a.len() + 3 + n.len()) as int) == with_template(a, n, rest).take((a.len() + 3 + n.len()) as int),
        at == byte_len_spec(s.take(g)),
    ensures
        forall|props: Map<Seq<char>, Seq<char>>| #[trigger]
            apply_text(props, with_template(a, n, rest), at) == with_template(a, n, rest),
{
    reveal_strlit("${");
    reveal_strlit("}");
    let t = with_template(a, n, rest);
    let e = (a.len() + 3 + n.len()) as int;
    assert(t.len() == e + rest.len());
    if e < g {
        bytes_grow(s, e, g);
    }
    no_dollar_in_three(b, v, c);
    assert forall|k: int| e <= k < t.len() implies t[k] != '$' by {
        assert(t[k] == rest[k - e]);
        assert(rest.contains(t[k]));
    }
    search_begins_after(t, at, 0, e);
    nothing_without_a_dollar(t, char_at_byte(t, at, 0));
}

proof fn second_is_not_there_before(a: Seq<char>, n: Seq<char>, b: Seq<char>, rest: Seq<char>, m: Seq<char>, j: int)
    requires
        is_name(n),
        is_name(m),
        n != m,
        !a.contains('$'),
        !b.contains('$'),
        !n.contains('$'),
        0 <= j < with_template(a, n, b).len(),
    ensures
        !is_at(with_template(a, n, b) + rest, "${"@ + m + "}"@, j),
{
    reveal_strlit("${");
    reveal_strlit("}");
    assert("${"@ =~= seq!['$', '{']);
    assert("}"@ =~= seq!['}']);
    let s = with_template(a, n, b) + rest;
    let pat = "${"@ + m + "}"@;
    let x = a.len() as int;
    let e = x + 2 + n.len();
    assert(s =~= with_template(a, n, b + rest));
    if is_at(s, pat, j) {
        assert(s.subrange(j, j + pat.len())[0] == s[j]);
        assert(pat[0] == '$');
        if j < x {
            assert(s[j] == a[j]);
            assert(a.contains(a[j]));
        } else if j == x {
            no_shorter_template(a, n, b + rest, m);
        } else if j == x + 1 {
            assert(s[j] == '{');
        } else if j < e {
            assert(s[j] == n[j - x - 2]);
            assert(n.contains(n[j - x - 2]));
        } else if j == e {
            assert(s[j] == '}');
        } else {
            assert(s[j] == b[j - e - 1]);
            assert(b.contains(b[j - e - 1]));
        }
    }
}

proof fn no_shorter_template(before: Seq<char>, name: Seq<char>, after: Seq<char>, other: Seq<char>)
    requires
        is_name(name),
        is_name(other),
        name != other,
    ensures
        !is_at(with_template(before, name, after), "${"@ + other + "}"@, before.len() as int),
{
    reveal_strlit("${");
    reveal_strlit("}");
    assert("${"@ =~= seq!['$', '{']);
    assert("}"@ =~= seq!['}']);
    let s = with_template(before, name, after);
    let pat = "${"@ + other + "}"@;
    let b = before.len() as int;
    let n = pat.len() as int;
    if is_at(s, pat, b) {
        assert forall|k: int| 0 <= k < n implies s[b + k] == pat[k] by {
            assert(s.subrange(b, b + n)[k] == s[b + k]);
        }
        if other.len() < name.len() {
            let k = other.len() as int;
            assert(pat[2 + k] == '}');
            assert(s[b + 2 + k] == name[k]);
            assert(name.drop_first()[k - 1] == '}');
            assert(name.drop_first().contains('}'));
        } else if other.len() > name.len() {
            let k = name.len() as int;
            assert(s[b + 2 + k] == '}');
            assert(pat[2 + k] == other[k]);
            assert(other.drop_first()[k - 1] == '}');
            assert(other.drop_first().contains('}'));
        } else {
            assert forall|k: int| 0 <= k < name.len() implies name[k] == other[k] by {
                assert(s[b + 2 + k] == name[k]);
                assert(pat[2 + k] == other[k]);
            }
            assert(name =~= other);
        }
    }
}

proof fn search_begins_after(s: Seq<char>, at: nat, k: int, n: int)
    requires
        0 <= k <= n <= s.len(),
        at >= byte_len_spec(s.take(n)),
    ensures
        char_at_byte(s, at, k) >= n,
    decreases n - k,
{
    if k < n {
        bytes_grow(s, k, n);
        search_begins_after(s, at, k + 1, n);
    } else {
        search_does_not_go_back(s, at, k);
    }
}

proof fn search_does_not_go_back(s: Seq<char>, at: nat, k: int)
    requires
        0 <= k <= s.len(),
    ensures
        char_at_byte(s, at, k) >= k,
    decreases s.len() - k,
{
    if k < s.len() && byte_len_spec(s.take(k)) < at {
        search_does_not_go_back(s, at, k + 1);
    }
}

proof fn search_stays_inside(s: Seq<char>, at: nat, k: int)
    requires
        0 <= k <= s.len(),
    ensures
        0 <= char_at_byte(s, at, k),
    decreases s.len() - k,
{
    if k < s.len() && byte_len_spec(s.take(k)) < at {
        search_stays_inside(s, at, k + 1);
    }
}

/// The name of a template is looked up, whatever stands around it and wherever in the tree it is.
pub proof fn names_in_templates_are_used(
    before: Seq<char>,
    name: Seq<char>,
    after: Seq<char>,
    c: Items,
    i: int,
    k: Seq<char>,
)
    requires
        is_name(name),
        !before.contains('$'),
        0 <= i < c.len(),
    ensures
        names(XmlView::Text(with_template(before, name, after)), name),
        names(c[i].1, k) ==> names(XmlView::Children(c), k),
{
    template_is_found(before, name, after, 0);
    if names(c[i].1, k) {
        child_uses_its_names(XmlView::Children(c), c.len() as int, i, k);
    }
}

proof fn child_uses_its_names(x: XmlView, n: int, i: int, k: Seq<char>)
    requires
        x is Children,
        0 <= i < n <= x->Children_0.len(),
        names(x->Children_0[i].1, k),
    ensures
        items_name(x, n, k),
    decreases n,
{
    if i < n - 1 {
        child_uses_its_names(x, n - 1, i, k);
    }
}

/// A text whose templates use no name that has a value stays as it is.
pub proof fn unknown_names_stay(props: Map<Seq<char>, Seq<char>>, s: Seq<char>, at: nat)
    requires
        forall|k: Seq<char>| #[trigger] text_names(s, at, k) ==> !props.contains_key(k),
    ensures
        apply_text(props, s, at) == s,
    decreases usize::MAX + 1 - at,
{
    if at < byte_len_spec(s) && byte_len_spec(s) <= usize::MAX {
        if let Some((b, e)) = template_at(s, at) {
            template_at_props(s, at);
            let name = template_name(s, b, e);
            let next = byte_len_spec(s.take(e + 1));
            assert(text_names(s, at, name));
            assert forall|k: Seq<char>| #[trigger] text_names(s, next, k) implies !props.contains_key(k) by {
                assert(text_names(s, at, k));
            }
            unknown_names_stay(props, s, next);
        }
    }
}

/// Replacing templates changes nothing but texts: all children stay, under their names and in
/// order, each with its own templates replaced.
pub proof fn replacing_templates_keeps_the_tree(props: Map<Seq<char>, Seq<char>>, c: Items, i: int, t: Seq<char>)
    requires
        0 <= i < c.len(),
    ensures
        ({
            let r = apply_spec(props, XmlView::Children(c));
            &&& r is Children
            &&& r->Children_0.len() == c.len()
            &&& r->Children_0[i].0 == c[i].0
            &&& r->Children_0[i].1 == apply_spec(props, c[i].1)
        }),
        apply_spec(props, XmlView::Text(t)) == XmlView::Text(apply_text(props, t, 0)),
        !t.contains('$') ==> apply_spec(props, XmlView::Text(t)) == XmlView::Text(t),
{
    if !t.contains('$') {
        crate::maven::template::plain_text_is_kept(props, t);
    }
}

/// A name stands for what the properties of the POM say, and else, where it begins with
/// `project.`, for the text at the way that follows. No other name stands for anything.
pub proof fn names_stand_for_what_the_pom_says(root: XmlView, p: XmlView, name: Seq<char>, t: Seq<char>, way: Seq<char>)
    ensures
        get_spec(root, "properties"@) == Some(p) && get_spec(p, name) == Some(XmlView::Text(t)) ==> reference_of(
            root,
            name,
        ) == Some(t),
        get_spec(root, "properties"@) is None && name == "project."@ + way ==> reference_of(root, name)
            == find_str_spec(root, way),
        get_spec(root, "properties"@) == Some(p) && !(get_spec(p, name) matches Some(XmlView::Text(_))) && name
            == "project."@ + way ==> reference_of(root, name) == find_str_spec(root, way),
        get_spec(root, "properties"@) is None && !begins(name, "project."@) ==> reference_of(root, name) is None,
        get_spec(root, "properties"@) == Some(p) && !(get_spec(p, name) matches Some(XmlView::Text(_))) && !begins(
            name,
            "project."@,
        ) ==> reference_of(root, name) is None,
{
    reveal_strlit("project.");
    reveal_strlit("project");
    let pre = "project"@;
    assert("project."@ =~= pre.push('.'));
    find_char_props(name, '.', 0);
    if name == "project."@ + way {
        assert forall|k: int| 0 <= k < 7 implies name[k] != '.' by {
            assert(name[k] == pre[k]);
        }
        find_char_at(name, '.', 0, 7);
        assert(name.take(7) =~= pre);
        assert(name.skip(8) =~= way);
    }
    if let Some((first, rest)) = split_once_spec(name, '.') {
        if first == pre {
            let i = crate::text::find_char(name, '.', 0);
            assert(i == 7);
            assert(name.take(8) =~= "project."@);
        }
    }
}

/// The templates of a POM stand for what is given, else for what the system says, and else for
/// what the POM itself says.
pub proof fn given_comes_before_the_system_and_that_before_the_pom(
    root: XmlView,
    props: Map<Seq<char>, Seq<char>>,
    system: Map<Seq<char>, Seq<char>>,
) -> (all: Map<Seq<char>, Seq<char>>)
    ensures
        templates_spec(root, props, system) == apply_spec(all, root),
        forall|k: Seq<char>| #[trigger] props.contains_key(k) ==> all.contains_key(k) && all[k] == props[k],
        forall|k: Seq<char>| #[trigger]
            system.contains_key(k) && !props.contains_key(k) ==> all.contains_key(k) && all[k] == system[k],
        forall|k: Seq<char>| #[trigger]
            all.contains_key(k) && !props.contains_key(k) && !system.contains_key(k) ==> reference_of(root, k) == Some(
                all[k],
            ),
        forall|k: Seq<char>| #[trigger]
            names(root, k) && !all.contains_key(k) ==> reference_of(root, k) is None,
{
    let known = none_missing(system.union_prefer_right(props));
    let all = references_spec(known, root, root).props;
    assert forall|k: Seq<char>| #[trigger] props.contains_key(k) implies all.contains_key(k) && all[k] == props[k] by {
        precedence_of_properties(root, props, system, k);
    }
    assert forall|k: Seq<char>| #[trigger] system.contains_key(k) && !props.contains_key(k) implies all.contains_key(k)
        && all[k] == system[k] by {
        precedence_of_properties(root, props, system, k);
    }
    assert forall|k: Seq<char>| #[trigger] all.contains_key(k) && !props.contains_key(k) && !system.contains_key(
        k,
    ) implies reference_of(root, k) == Some(all[k]) by {
        precedence_of_properties(root, props, system, k);
    }
    crate::maven::template::references_grow(known, root, root);
    all
}

/// The system gives these properties, and no others: the Java installation, its version where it
/// is known, the system and its architecture, the home of the user where it is known, the
/// directory of the program, and the two separators.
pub proof fn system_gives_its_properties(s: SystemInfo, name: Seq<char>)
    ensures
        ({
            let p = system_spec(s);
            &&& p.contains_pair("java.home"@, s.java_home@)
            &&& s.java_version is Some ==> p.contains_pair("java.version"@, s.java_version->Some_0@)
            &&& s.java_version is None ==> !p.contains_key("java.version"@)
            &&& p.contains_pair("os.name"@, s.os_name@)
            &&& p.contains_pair("os.arch"@, s.os_arch@)
            &&& s.user_home is Some ==> p.contains_pair("user.home"@, s.user_home->Some_0@)
            &&& s.user_home is None ==> !p.contains_key("user.home"@)
            &&& p.contains_pair("user.dir"@, s.user_dir@)
            &&& p.contains_pair("file.separator"@, s.file_separator@)
            &&& p.contains_pair("path.separator"@, s.path_separator@)
            &&& p.contains_key(name) ==> name == "java.home"@ || name == "java.version"@ || name == "os.name"@ || name
                == "os.arch"@ || name == "user.home"@ || name == "user.dir"@ || name == "file.separator"@ || name
                == "path.separator"@
        }),
{
    reveal_strlit("java.home");
    reveal_strlit("java.version");
    reveal_strlit("os.name");
    reveal_strlit("os.arch");
    reveal_strlit("user.home");
    reveal_strlit("user.dir");
    reveal_strlit("file.separator");
    reveal_strlit("path.separator");
    assert("java.home"@[0] != "user.home"@[0]);
    assert("os.name"@[3] != "os.arch"@[3]);
    assert("file.separator"@[0] != "path.separator"@[0]);
    assert("java.home"@.len() == 9 && "user.home"@.len() == 9 && "java.version"@.len() == 12);
    assert("os.name"@.len() == 7 && "os.arch"@.len() == 7 && "user.dir"@.len() == 8);
    assert("file.separator"@.len() == 14 && "path.separator"@.len() == 14);
}

} // verus!
