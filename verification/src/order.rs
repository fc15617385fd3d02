//! Sets and maps that keep their items in order.
//!
//! An item is ordered by its sort code: a sequence of numbers that is compared
//! number by number. Two items with one sort code count as the same item.
use vstd::prelude::*;
use crate::text::chars_of;

verus! {

/// Whether one sort code comes before another: at the first place where they
/// differ it holds the smaller number, or it ends there.
pub open spec fn less(a: Seq<u64>, b: Seq<u64>) -> bool
    decreases a.len(),
{
    if b.len() == 0 {
        false
    } else if a.len() == 0 {
        true
    } else if a[0] != b[0] {
        a[0] < b[0]
    } else {
        less(a.drop_first(), b.drop_first())
    }
}

pub proof fn less_irreflexive(a: Seq<u64>)
    ensures
        !less(a, a),
    decreases a.len(),
{
    if a.len() > 0 {
        less_irreflexive(a.drop_first());
    }
}

pub proof fn less_transitive(a: Seq<u64>, b: Seq<u64>, c: Seq<u64>)
    requires
        less(a, b),
        less(b, c),
    ensures
        less(a, c),
    decreases a.len(),
{
    if a.len() > 0 && a[0] == b[0] && b[0] == c[0] {
        less_transitive(a.drop_first(), b.drop_first(), c.drop_first());
    }
}

pub proof fn less_total(a: Seq<u64>, b: Seq<u64>)
    ensures
        a != b ==> less(a, b) || less(b, a),
    decreases a.len(),
{
    if a.len() > 0 && b.len() > 0 {
        if a[0] == b[0] {
            less_total(a.drop_first(), b.drop_first());
            if a.drop_first() == b.drop_first() {
                assert(a =~= seq![a[0]] + a.drop_first());
                assert(b =~= seq![b[0]] + b.drop_first());
            }
        }
    } else if a.len() == 0 && b.len() == 0 {
        assert(a =~= b);
    }
}

/// How two sort codes stand to each other.
#[derive(Clone, Copy, PartialEq, Eq, Structural, Debug)]
pub enum Relation {
    Before,
    Same,
    After,
}

/// How the first sort code stands to the second.
pub fn relate(a: &Vec<u64>, b: &Vec<u64>) -> (r: Relation)
    ensures
        r == Relation::Before <==> less(a@, b@),
        r == Relation::Same <==> a@ == b@,
        r == Relation::After <==> less(b@, a@),
{
    let mut i: usize = 0;
    proof {
        less_total(a@, b@);
        less_irreflexive(a@);
        if less(a@, b@) && less(b@, a@) {
            less_transitive(a@, b@, a@);
        }
        if less(b@, a@) && a@ == b@ {
            less_irreflexive(b@);
        }
    }
    assert(a@.skip(0) =~= a@);
    assert(b@.skip(0) =~= b@);
    while i < a.len() && i < b.len()
        invariant
            i <= a@.len(),
            i <= b@.len(),
            less(a@, b@) == less(a@.skip(i as int), b@.skip(i as int)),
            less(b@, a@) == less(b@.skip(i as int), a@.skip(i as int)),
            a@ != b@ ==> less(a@, b@) || less(b@, a@),
            a@ == b@ ==> !less(a@, b@) && !less(b@, a@),
            !(less(a@, b@) && less(b@, a@)),
        decreases a@.len() - i,
    {
        if a[i] < b[i] {
            return Relation::Before;
        }
        if b[i] < a[i] {
            return Relation::After;
        }
        assert(a@.skip(i as int).drop_first() =~= a@.skip(i + 1));
        assert(b@.skip(i as int).drop_first() =~= b@.skip(i + 1));
        i = i + 1;
    }
    if i < b.len() {
        Relation::Before
    } else if i < a.len() {
        Relation::After
    } else {
        Relation::Same
    }
}

/// A type whose values have a sort code.
pub trait Ranked: View + Sized {
    spec fn code(v: Self::V) -> Seq<u64>;

    fn sort_code(&self) -> (r: Vec<u64>)
        ensures
            r@ == Self::code(self@),
    ;
}

/// A type whose values can be copied.
pub trait Duplicate: View + Sized {
    fn duplicate(&self) -> (r: Self)
        ensures
            r@ == self@,
    ;
}

/// The sort code of a text: its characters, each one up, and a zero at the end.
pub open spec fn text_code(s: Seq<char>) -> Seq<u64> {
    s.map_values(|c: char| (c as u32 + 1) as u64).push(0)
}

/// The sort code of an optional text: none comes first.
pub open spec fn opt_text_code(o: Option<Seq<char>>) -> Seq<u64> {
    match o {
        None => seq![0u64],
        Some(s) => seq![1u64] + text_code(s),
    }
}

/// The sort code of bytes: each one up, and a zero at the end.
pub open spec fn bytes_code(s: Seq<u8>) -> Seq<u64> {
    s.map_values(|c: u8| (c as u64 + 1) as u64).push(0)
}

/// Appends the sort code of a text.
pub fn push_text_code(out: &mut Vec<u64>, s: &str)
    ensures
        final(out)@ == old(out)@ + text_code(s@),
{
    let v = chars_of(s);
    let mut i: usize = 0;
    assert(out@ =~= old(out)@ + text_code(s@).take(0));
    while i < v.len()
        invariant
            i <= v@.len(),
            v@ == s@,
            out@ == old(out)@ + text_code(s@).take(i as int),
        decreases v@.len() - i,
    {
        out.push(v[i] as u32 as u64 + 1);
        i = i + 1;
        assert(out@ =~= old(out)@ + text_code(s@).take(i as int));
    }
    out.push(0);
    assert(out@ =~= old(out)@ + text_code(s@));
}

/// Appends the sort code of an optional text.
pub fn push_opt_text_code(out: &mut Vec<u64>, o: &Option<String>)
    ensures
        final(out)@ == old(out)@ + opt_text_code(crate::text::opt_text(*o)),
{
    match o {
        None => {
            out.push(0);
        },
        Some(s) => {
            out.push(1);
            push_text_code(out, s.as_str());
        },
    }
    assert(out@ =~= old(out)@ + opt_text_code(crate::text::opt_text(*o)));
}

/// Appends the sort code of bytes.
pub fn push_bytes_code(out: &mut Vec<u64>, v: &Vec<u8>)
    ensures
        final(out)@ == old(out)@ + bytes_code(v@),
{
    let mut i: usize = 0;
    assert(out@ =~= old(out)@ + bytes_code(v@).take(0));
    while i < v.len()
        invariant
            i <= v@.len(),
            out@ == old(out)@ + bytes_code(v@).take(i as int),
        decreases v@.len() - i,
    {
        out.push(v[i] as u32 as u64 + 1);
        i = i + 1;
        assert(out@ =~= old(out)@ + bytes_code(v@).take(i as int));
    }
    out.push(0);
    assert(out@ =~= old(out)@ + bytes_code(v@));
}

/// The sort code of a text tells where it ends, and what the text was.
pub proof fn text_code_parts(a: Seq<char>, b: Seq<char>, x: Seq<u64>, y: Seq<u64>)
    requires
        text_code(a) + x == text_code(b) + y,
    ensures
        a == b,
        x == y,
    decreases a.len(),
{
    let l = text_code(a) + x;
    let r = text_code(b) + y;
    assert(l[0] == r[0]);
    broadcast use vstd::utf8::char_is_scalar;
    if a.len() > 0 && b.len() > 0 {
        vstd::utf8::char_u32_cast(a[0], a[0] as u32);
        vstd::utf8::char_u32_cast(b[0], b[0] as u32);
        assert(l[0] == a[0] as u32 + 1);
        assert(r[0] == b[0] as u32 + 1);
        assert(l.drop_first() =~= text_code(a.drop_first()) + x);
        assert(r.drop_first() =~= text_code(b.drop_first()) + y);
        text_code_parts(a.drop_first(), b.drop_first(), x, y);
        assert(a =~= seq![a[0]] + a.drop_first());
        assert(b =~= seq![b[0]] + b.drop_first());
    } else if a.len() == 0 && b.len() == 0 {
        assert(a =~= b);
        assert(l.drop_first() =~= x);
        assert(r.drop_first() =~= y);
    } else if a.len() == 0 {
        assert(l[0] == 0);
        assert(r[0] == b[0] as u32 + 1);
    } else {
        assert(r[0] == 0);
        assert(l[0] == a[0] as u32 + 1);
    }
}

/// The views of items, in order.
pub open spec fn views<T: View>(s: Seq<T>) -> Seq<T::V> {
    s.map_values(|t: T| t@)
}

impl Ranked for String {
    open spec fn code(v: Seq<char>) -> Seq<u64> {
        text_code(v)
    }

    fn sort_code(&self) -> (r: Vec<u64>) {
        let mut out: Vec<u64> = Vec::new();
        push_text_code(&mut out, self.as_str());
        assert(out@ =~= <String as Ranked>::code(self@));
        out
    }
}

impl Duplicate for String {
    fn duplicate(&self) -> (r: String) {
        self.clone()
    }
}

/// Whether the items stand in order, each once.
pub open spec fn sorted<T: Ranked>(s: Seq<T::V>) -> bool {
    forall|i: int, j: int| 0 <= i < j < s.len() ==> less(T::code(#[trigger] s[i]), T::code(#[trigger] s[j]))
}

pub proof fn sorted_at<T: Ranked>(s: Seq<T::V>, i: int, j: int)
    requires
        sorted::<T>(s),
        0 <= i < j < s.len(),
    ensures
        less(T::code(s[i]), T::code(s[j])),
{
}

/// Leaving out the last item keeps the order.
pub proof fn sorted_drop_last<T: Ranked>(s: Seq<T::V>)
    requires
        sorted::<T>(s),
        s.len() > 0,
    ensures
        sorted::<T>(s.drop_last()),
{
    let p = s.drop_last();
    assert forall|i: int, j: int| 0 <= i < j < p.len() implies less(T::code(#[trigger] p[i]), T::code(#[trigger] p[j])) by {
        assert(p[i] == s[i] && p[j] == s[j]);
    }
}

/// Whether an item with the sort code of `x` is among the items.
pub open spec fn holds<T: Ranked>(s: Seq<T::V>, x: T::V) -> bool {
    exists|i: int| 0 <= i < s.len() && T::code(#[trigger] s[i]) == T::code(x)
}

/// The items with `x` put in its place. An item that is there already stays as
/// it is.
pub open spec fn put<T: Ranked>(s: Seq<T::V>, x: T::V) -> Seq<T::V>
    decreases s.len(),
{
    if s.len() == 0 {
        seq![x]
    } else if less(T::code(s.last()), T::code(x)) {
        s.push(x)
    } else if T::code(s.last()) == T::code(x) {
        s
    } else {
        put::<T>(s.drop_last(), x).push(s.last())
    }
}

/// What is left of `xs` once each of them is put in its place, one after the
/// other.
pub open spec fn put_all<T: Ranked>(xs: Seq<T::V>) -> Seq<T::V>
    decreases xs.len(),
{
    if xs.len() == 0 {
        Seq::empty()
    } else {
        put::<T>(put_all::<T>(xs.drop_last()), xs.last())
    }
}

/// What `put` leaves: the items of before and `x`, in order.
pub proof fn put_keeps_order<T: Ranked>(s: Seq<T::V>, x: T::V)
    requires
        sorted::<T>(s),
    ensures
        sorted::<T>(put::<T>(s, x)),
        holds::<T>(put::<T>(s, x), x),
        forall|v: T::V| #[trigger] put::<T>(s, x).contains(v) ==> s.contains(v) || v == x,
        forall|v: T::V| s.contains(v) ==> #[trigger] put::<T>(s, x).contains(v),
        put::<T>(s, x).len() == s.len() + if holds::<T>(s, x) { 0int } else { 1int },
    decreases s.len(),
{
    let r = put::<T>(s, x);
    if s.len() == 0 {
        assert(r[0] == x);
        assert(r.contains(x));
    } else {
        let l = s.last();
        assert(s[s.len() - 1] == l);
        if less(T::code(l), T::code(x)) {
            assert forall|i: int, j: int| 0 <= i < j < r.len() implies less(T::code(#[trigger] r[i]), T::code(#[trigger] r[j])) by {
                if j == s.len() {
                    if i < s.len() - 1 {
                        less_transitive(T::code(s[i]), T::code(l), T::code(x));
                    }
                } else {
                    assert(r[i] == s[i] && r[j] == s[j]);
                }
            }
            assert(r[s.len() as int] == x);
            assert forall|v: T::V| s.contains(v) implies #[trigger] r.contains(v) by {
                let k = choose|k: int| 0 <= k < s.len() && s[k] == v;
                assert(r[k] == v);
            }
            assert(!holds::<T>(s, x)) by {
                if holds::<T>(s, x) {
                    let k = choose|k: int| 0 <= k < s.len() && T::code(#[trigger] s[k]) == T::code(x);
                    less_irreflexive(T::code(x));
                    if k < s.len() - 1 {
                        less_transitive(T::code(s[k]), T::code(l), T::code(x));
                    }
                }
            }
        } else if T::code(l) == T::code(x) {
            assert(T::code(r[s.len() - 1]) == T::code(x));
        } else {
            let p = s.drop_last();
            sorted_drop_last::<T>(s);
            put_keeps_order::<T>(p, x);
            let q = put::<T>(p, x);
            less_total(T::code(l), T::code(x));
            assert forall|i: int, j: int| 0 <= i < j < r.len() implies less(T::code(#[trigger] r[i]), T::code(#[trigger] r[j])) by {
                assert(r[i] == q[i]);
                if j == q.len() {
                    assert(q.contains(q[i]));
                    if q[i] != x {
                        let k = choose|k: int| 0 <= k < p.len() && p[k] == q[i];
                        assert(s[k] == q[i]);
                    }
                } else {
                    assert(r[j] == q[j]);
                }
            }
            let w = choose|w: int| 0 <= w < q.len() && T::code(#[trigger] q[w]) == T::code(x);
            assert(T::code(r[w]) == T::code(x));
            assert forall|v: T::V| #[trigger] r.contains(v) implies s.contains(v) || v == x by {
                let k = choose|k: int| 0 <= k < r.len() && r[k] == v;
                if k < q.len() {
                    assert(q.contains(v));
                    if v != x {
                        let m = choose|m: int| 0 <= m < p.len() && p[m] == v;
                        assert(s[m] == v);
                    }
                }
            }
            assert forall|v: T::V| s.contains(v) implies #[trigger] r.contains(v) by {
                let k = choose|k: int| 0 <= k < s.len() && s[k] == v;
                if k < s.len() - 1 {
                    assert(p[k] == v);
                    assert(q.contains(v));
                    let m = choose|m: int| 0 <= m < q.len() && q[m] == v;
                    assert(r[m] == v);
                } else {
                    assert(r[q.len() as int] == v);
                }
            }
            assert(holds::<T>(s, x) == holds::<T>(p, x)) by {
                if holds::<T>(s, x) {
                    let k = choose|k: int| 0 <= k < s.len() && T::code(#[trigger] s[k]) == T::code(x);
                    assert(p[k] == s[k]);
                }
                if holds::<T>(p, x) {
                    let k = choose|k: int| 0 <= k < p.len() && T::code(#[trigger] p[k]) == T::code(x);
                    assert(p[k] == s[k]);
                }
            }
        }
    }
}

/// An item that is there already changes nothing.
pub proof fn put_present<T: Ranked>(s: Seq<T::V>, x: T::V)
    requires
        sorted::<T>(s),
        holds::<T>(s, x),
    ensures
        put::<T>(s, x) == s,
    decreases s.len(),
{
    let k = choose|k: int| 0 <= k < s.len() && T::code(#[trigger] s[k]) == T::code(x);
    let n = s.len() - 1;
    assert(s[n] == s.last());
    less_irreflexive(T::code(x));
    if k < n {
        sorted_at::<T>(s, k, n);
        if less(T::code(s.last()), T::code(x)) {
            less_transitive(T::code(x), T::code(s.last()), T::code(x));
        }
        sorted_drop_last::<T>(s);
        assert(s.drop_last()[k] == s[k]);
        put_present::<T>(s.drop_last(), x);
        assert(s.drop_last().push(s.last()) =~= s);
    }
}

/// Of items that stand in order, each is put after those before it.
pub proof fn put_next<T: Ranked>(s: Seq<T::V>, k: int)
    requires
        sorted::<T>(s),
        0 <= k < s.len(),
    ensures
        put::<T>(s.take(k), s[k]) == s.take(k + 1),
{
    assert(s.take(k).push(s[k]) =~= s.take(k + 1));
    if k > 0 {
        sorted_at::<T>(s, k - 1, k);
        assert(s.take(k).last() == s[k - 1]);
    } else {
        assert(seq![s[k]] =~= s.take(1));
    }
}

/// Puts an item in its place among items that stand in order, and says whether
/// it was new.
fn place<T: Ranked>(items: &mut Vec<T>, item: T) -> (r: bool)
    requires
        sorted::<T>(views(old(items)@)),
    ensures
        views(final(items)@) == put::<T>(views(old(items)@), item@),
        r == !holds::<T>(views(old(items)@), item@),
{
    let c = item.sort_code();
    let mut p: usize = items.len();
    let ghost s = views(items@);
    let ghost x = item@;
    assert(s.take(p as int) =~= s);
    assert(put::<T>(s.take(p as int), x) + s.skip(p as int) =~= put::<T>(s, x));
    while p > 0
        invariant
            s == views(items@),
            x == item@,
            c@ == T::code(x),
            p <= s.len(),
            p <= items@.len(),
            sorted::<T>(s),
            items@ == old(items)@,
            put::<T>(s.take(p as int), x) + s.skip(p as int) == put::<T>(s, x),
            forall|k: int| p <= k < s.len() ==> less(c@, T::code(#[trigger] s[k])),
        ensures
            put::<T>(s.take(p as int), x) + s.skip(p as int) == put::<T>(s, x),
            s == views(items@),
            x == item@,
            c@ == T::code(x),
            p <= s.len(),
            p <= items@.len(),
            items@ == old(items)@,
            p > 0 ==> less(T::code(s[p - 1]), c@),
            forall|k: int| p <= k < s.len() ==> less(c@, T::code(#[trigger] s[k])),
        decreases p,
    {
        let d = items[p - 1].sort_code();
        assert(s[p - 1] == items@[p - 1]@);
        assert(s.take(p as int).last() == s[p - 1]);
        match relate(&d, &c) {
            Relation::Same => {
                proof {
                    assert(T::code(s[p - 1]) == T::code(x));
                    assert(put::<T>(s.take(p as int), x) =~= s.take(p as int));
                    assert(s.take(p as int) + s.skip(p as int) =~= s);
                }
                return false;
            },
            Relation::Before => {
                break;
            },
            Relation::After => {
                assert(s.take(p as int).drop_last() =~= s.take(p - 1));
                assert(put::<T>(s.take(p as int), x) == put::<T>(s.take(p - 1), x).push(s[p - 1])) by {
                    less_irreflexive(c@);
                    if less(d@, c@) {
                        less_transitive(c@, d@, c@);
                    }
                }
                assert(put::<T>(s.take(p as int), x) + s.skip(p as int) =~= put::<T>(s.take(p - 1), x) + s.skip(p - 1));
                p = p - 1;
            },
        }
    }
    proof {
        assert(put::<T>(s.take(p as int), x) =~= s.take(p as int).push(x)) by {
            if p > 0 {
                assert(s.take(p as int).last() == s[p - 1]);
            } else {
                assert(s.take(0) =~= Seq::empty());
            }
        }
        assert(!holds::<T>(s, x)) by {
            if holds::<T>(s, x) {
                let k = choose|k: int| 0 <= k < s.len() && T::code(#[trigger] s[k]) == T::code(x);
                less_irreflexive(T::code(x));
                if k < p - 1 {
                    less_transitive(T::code(s[k]), T::code(s[p - 1]), T::code(x));
                }
            }
        }
    }
    let ghost before = items@;
    let ghost item0 = item;
    proof {
        let after = before.insert(p as int, item0);
        assert(views(after) =~= s.take(p as int).push(x) + s.skip(p as int));
    }
    items.insert(p, item);
    true
}

/// A set that keeps its items in order.
#[derive(Debug, PartialEq, Eq)]
pub struct OrdSet<T: Ranked> {
    items: Vec<T>,
}

impl<T: Ranked> View for OrdSet<T> {
    type V = Seq<T::V>;

    closed spec fn view(&self) -> Seq<T::V> {
        views(self.items@)
    }
}

impl<T: Ranked> OrdSet<T> {
    #[verifier::type_invariant]
    pub open spec fn in_order(self) -> bool {
        sorted::<T>(self@)
    }

    pub fn new() -> (r: Self)
        ensures
            r@ == Seq::<T::V>::empty(),
    {
        let items: Vec<T> = Vec::new();
        assert(views(items@) =~= Seq::<T::V>::empty());
        OrdSet { items }
    }

    pub fn len(&self) -> (r: usize)
        ensures
            r == self@.len(),
    {
        self.items.len()
    }

    /// The item at a place in the order.
    pub fn at(&self, i: usize) -> (r: &T)
        requires
            i < self@.len(),
        ensures
            r@ == self@[i as int],
    {
        &self.items[i]
    }

    /// Puts an item in its place, and says whether it was new.
    pub fn insert(&mut self, item: T) -> (r: bool)
        ensures
            final(self)@ == put::<T>(old(self)@, item@),
            r == !holds::<T>(old(self)@, item@),
    {
        proof {
            use_type_invariant(&*self);
            put_keeps_order::<T>(self@, item@);
        }
        let mut items: Vec<T> = Vec::new();
        assert(views(items@) =~= Seq::<T::V>::empty());
        std::mem::swap(&mut self.items, &mut items);
        let fresh = place(&mut items, item);
        self.items = items;
        fresh
    }
}

impl<T: Ranked + Duplicate> Duplicate for OrdSet<T> {
    fn duplicate(&self) -> (r: Self) {
        proof {
            use_type_invariant(self);
        }
        let mut items: Vec<T> = Vec::new();
        let mut i: usize = 0;
        while i < self.items.len()
            invariant
                i <= self.items@.len(),
                views(items@) =~= self@.take(i as int),
            decreases self.items@.len() - i,
        {
            assert(self@[i as int] == self.items@[i as int]@);
            items.push(self.items[i].duplicate());
            i = i + 1;
            assert(views(items@).drop_last() =~= self@.take(i - 1));
            assert(views(items@) =~= self@.take(i as int));
        }
        assert(views(items@) =~= self@);
        OrdSet { items }
    }
}

/// A key and its value.
#[derive(Debug, PartialEq, Eq)]
pub struct Pair<K, W> {
    pub key: K,
    pub value: W,
}

impl<K: View, W: View> View for Pair<K, W> {
    type V = (K::V, W::V);

    open spec fn view(&self) -> (K::V, W::V) {
        (self.key@, self.value@)
    }
}

/// A pair is ordered by its key alone.
impl<K: Ranked, W: View> Ranked for Pair<K, W> {
    open spec fn code(v: (K::V, W::V)) -> Seq<u64> {
        K::code(v.0)
    }

    fn sort_code(&self) -> (r: Vec<u64>) {
        self.key.sort_code()
    }
}

/// The pairs with `v` as the value of `k`. The pair that is there already keeps
/// its key.
pub open spec fn assign<K: Ranked, W: View>(s: Seq<(K::V, W::V)>, k: K::V, v: W::V) -> Seq<(K::V, W::V)> {
    if holds::<Pair<K, W>>(s, (k, v)) {
        s.map_values(|e: (K::V, W::V)| if K::code(e.0) == K::code(k) { (e.0, v) } else { e })
    } else {
        put::<Pair<K, W>>(s, (k, v))
    }
}

/// The value of a key.
pub open spec fn lookup<K: Ranked, W: View>(s: Seq<(K::V, W::V)>, k: K::V) -> Option<W::V> {
    if exists|i: int| 0 <= i < s.len() && K::code((#[trigger] s[i]).0) == K::code(k) {
        Some(s[choose|i: int| 0 <= i < s.len() && K::code((#[trigger] s[i]).0) == K::code(k)].1)
    } else {
        None
    }
}

/// In pairs that stand in order, a key is found at one place only.
pub proof fn lookup_at<K: Ranked, W: View>(s: Seq<(K::V, W::V)>, k: K::V, i: int)
    requires
        sorted::<Pair<K, W>>(s),
        0 <= i < s.len(),
        K::code(s[i].0) == K::code(k),
    ensures
        lookup::<K, W>(s, k) == Some(s[i].1),
{
    let j = choose|j: int| 0 <= j < s.len() && K::code((#[trigger] s[j]).0) == K::code(k);
    less_irreflexive(K::code(k));
    if i < j {
        sorted_at::<Pair<K, W>>(s, i, j);
    } else if j < i {
        sorted_at::<Pair<K, W>>(s, j, i);
    }
}

/// Assigning keeps the pairs in order, gives the key its value, and leaves the
/// value of every other key as it was.
pub proof fn assign_keeps_order<K: Ranked, W: View>(s: Seq<(K::V, W::V)>, k: K::V, v: W::V)
    requires
        sorted::<Pair<K, W>>(s),
    ensures
        sorted::<Pair<K, W>>(assign::<K, W>(s, k, v)),
        lookup::<K, W>(assign::<K, W>(s, k, v), k) == Some(v),
        forall|o: K::V| K::code(o) != K::code(k) ==> #[trigger] lookup::<K, W>(assign::<K, W>(s, k, v), o) == lookup::<K, W>(s, o),
{
    let r = assign::<K, W>(s, k, v);
    let x = (k, v);
    if holds::<Pair<K, W>>(s, x) {
        assert forall|i: int, j: int| 0 <= i < j < r.len() implies less(Pair::<K, W>::code(#[trigger] r[i]), Pair::<K, W>::code(#[trigger] r[j])) by {
            assert(less(Pair::<K, W>::code(s[i]), Pair::<K, W>::code(s[j])));
        }
        let i = choose|i: int| 0 <= i < s.len() && Pair::<K, W>::code(#[trigger] s[i]) == Pair::<K, W>::code(x);
        assert(r[i].1 == v);
        lookup_at::<K, W>(r, k, i);
        assert forall|o: K::V| K::code(o) != K::code(k) implies #[trigger] lookup::<K, W>(r, o) == lookup::<K, W>(s, o) by {
            if exists|j: int| 0 <= j < s.len() && K::code((#[trigger] s[j]).0) == K::code(o) {
                let j = choose|j: int| 0 <= j < s.len() && K::code((#[trigger] s[j]).0) == K::code(o);
                assert(r[j] == s[j]);
                lookup_at::<K, W>(r, o, j);
                lookup_at::<K, W>(s, o, j);
            }
            if exists|j: int| 0 <= j < r.len() && K::code((#[trigger] r[j]).0) == K::code(o) {
                let j = choose|j: int| 0 <= j < r.len() && K::code((#[trigger] r[j]).0) == K::code(o);
                assert(r[j] == s[j]);
            }
        }
    } else {
        put_keeps_order::<Pair<K, W>>(s, x);
        let i = choose|i: int| 0 <= i < r.len() && Pair::<K, W>::code(#[trigger] r[i]) == Pair::<K, W>::code(x);
        assert(r.contains(r[i]));
        assert(r[i] == x) by {
            if r[i] != x {
                let j = choose|j: int| 0 <= j < s.len() && s[j] == r[i];
                assert(holds::<Pair<K, W>>(s, x));
            }
        }
        lookup_at::<K, W>(r, k, i);
        assert forall|o: K::V| K::code(o) != K::code(k) implies #[trigger] lookup::<K, W>(r, o) == lookup::<K, W>(s, o) by {
            if exists|j: int| 0 <= j < s.len() && K::code((#[trigger] s[j]).0) == K::code(o) {
                let j = choose|j: int| 0 <= j < s.len() && K::code((#[trigger] s[j]).0) == K::code(o);
                assert(s.contains(s[j]));
                assert(r.contains(s[j]));
                let m = choose|m: int| 0 <= m < r.len() && r[m] == s[j];
                lookup_at::<K, W>(r, o, m);
                lookup_at::<K, W>(s, o, j);
            }
            if exists|j: int| 0 <= j < r.len() && K::code((#[trigger] r[j]).0) == K::code(o) {
                let j = choose|j: int| 0 <= j < r.len() && K::code((#[trigger] r[j]).0) == K::code(o);
                assert(r.contains(r[j]));
                assert(r[j] != x);
                let m = choose|m: int| 0 <= m < s.len() && s[m] == r[j];
                assert(K::code(s[m].0) == K::code(o));
            }
        }
    }
}

/// Of pairs that stand in order, each is put after those before it.
pub proof fn assign_next<K: Ranked, W: View>(s: Seq<(K::V, W::V)>, k: int)
    requires
        sorted::<Pair<K, W>>(s),
        0 <= k < s.len(),
    ensures
        assign::<K, W>(s.take(k), s[k].0, s[k].1) == s.take(k + 1),
{
    let x = s[k];
    put_next::<Pair<K, W>>(s, k);
    assert(!holds::<Pair<K, W>>(s.take(k), x)) by {
        if holds::<Pair<K, W>>(s.take(k), x) {
            let j = choose|j: int| 0 <= j < k && Pair::<K, W>::code(#[trigger] s.take(k)[j]) == Pair::<K, W>::code(x);
            sorted_at::<Pair<K, W>>(s, j, k);
            less_irreflexive(Pair::<K, W>::code(x));
        }
    }
}

/// A map that keeps its keys in order.
#[derive(Debug, PartialEq, Eq)]
pub struct OrdMap<K: Ranked, W: View> {
    entries: Vec<Pair<K, W>>,
}

impl<K: Ranked, W: View> View for OrdMap<K, W> {
    type V = Seq<(K::V, W::V)>;

    closed spec fn view(&self) -> Seq<(K::V, W::V)> {
        views(self.entries@)
    }
}

impl<K: Ranked, W: View> OrdMap<K, W> {
    #[verifier::type_invariant]
    pub open spec fn in_order(self) -> bool {
        sorted::<Pair<K, W>>(self@)
    }

    pub fn new() -> (r: Self)
        ensures
            r@ == Seq::<(K::V, W::V)>::empty(),
    {
        let entries: Vec<Pair<K, W>> = Vec::new();
        assert(views(entries@) =~= Seq::<(K::V, W::V)>::empty());
        OrdMap { entries }
    }

    pub fn len(&self) -> (r: usize)
        ensures
            r == self@.len(),
    {
        self.entries.len()
    }

    /// The key and the value at a place in the order.
    pub fn at(&self, i: usize) -> (r: (&K, &W))
        requires
            i < self@.len(),
        ensures
            (r.0@, r.1@) == self@[i as int],
    {
        (&self.entries[i].key, &self.entries[i].value)
    }

    /// The value of a key.
    pub fn get(&self, key: &K) -> (r: Option<&W>)
        ensures
            match r {
                Some(w) => lookup::<K, W>(self@, key@) == Some(w@),
                None => lookup::<K, W>(self@, key@) is None,
            },
    {
        proof {
            use_type_invariant(self);
        }
        let c = key.sort_code();
        let mut i: usize = 0;
        while i < self.entries.len()
            invariant
                i <= self.entries@.len(),
                c@ == K::code(key@),
                sorted::<Pair<K, W>>(self@),
                forall|k: int| 0 <= k < i ==> K::code((#[trigger] self@[k]).0) != K::code(key@),
            decreases self.entries@.len() - i,
        {
            assert(self@[i as int] == self.entries@[i as int]@);
            match relate(&self.entries[i].key.sort_code(), &c) {
                Relation::Same => {
                    proof {
                        lookup_at::<K, W>(self@, key@, i as int);
                    }
                    return Some(&self.entries[i].value);
                },
                _ => {},
            }
            i = i + 1;
        }
        None
    }

    /// Gives a key its value.
    pub fn insert(&mut self, key: K, value: W)
        ensures
            final(self)@ == assign::<K, W>(old(self)@, key@, value@),
    {
        proof {
            use_type_invariant(&*self);
            assign_keeps_order::<K, W>(self@, key@, value@);
        }
        let ghost s = self@;
        let c = key.sort_code();
        let mut entries: Vec<Pair<K, W>> = Vec::new();
        assert(views(entries@) =~= Seq::<(K::V, W::V)>::empty());
        std::mem::swap(&mut self.entries, &mut entries);
        let mut i: usize = 0;
        while i < entries.len()
            invariant_except_break
                forall|k: int| 0 <= k < i ==> Pair::<K, W>::code(#[trigger] s[k]) != c@,
            invariant
                i <= entries@.len(),
                s == views(entries@),
                c@ == K::code(key@),
                s.len() == entries@.len(),
            ensures
                i < s.len() ==> Pair::<K, W>::code(s[i as int]) == c@,
                i == s.len() ==> forall|k: int| 0 <= k < s.len() ==> Pair::<K, W>::code(#[trigger] s[k]) != c@,
            decreases entries@.len() - i,
        {
            assert(s[i as int] == entries@[i as int]@);
            match relate(&entries[i].key.sort_code(), &c) {
                Relation::Same => {
                    break;
                },
                _ => {},
            }
            i = i + 1;
        }
        if i < entries.len() {
            let ghost before = entries@;
            entries[i].value = value;
            proof {
                assert(holds::<Pair<K, W>>(s, (key@, value@)));
                let r = assign::<K, W>(s, key@, value@);
                assert forall|k: int| 0 <= k < s.len() implies #[trigger] r[k] == entries@[k]@ by {
                    less_irreflexive(c@);
                    assert(s[k] == before[k]@);
                    if k < i {
                        assert(less(Pair::<K, W>::code(s[k]), Pair::<K, W>::code(s[i as int])));
                    } else if i < k {
                        assert(less(Pair::<K, W>::code(s[i as int]), Pair::<K, W>::code(s[k])));
                    }
                }
                assert(views(entries@) =~= r);
            }
        } else {
            place(&mut entries, Pair { key, value });
        }
        self.entries = entries;
    }
}

impl<K: Ranked + Duplicate, W: Duplicate> Duplicate for OrdMap<K, W> {
    fn duplicate(&self) -> (r: Self) {
        proof {
            use_type_invariant(self);
        }
        let mut entries: Vec<Pair<K, W>> = Vec::new();
        let mut i: usize = 0;
        while i < self.entries.len()
            invariant
                i <= self.entries@.len(),
                views(entries@) =~= self@.take(i as int),
            decreases self.entries@.len() - i,
        {
            let e = &self.entries[i];
            assert(self@[i as int] == e@);
            entries.push(Pair { key: e.key.duplicate(), value: e.value.duplicate() });
            i = i + 1;
            assert(views(entries@).drop_last() =~= self@.take(i - 1));
            assert(views(entries@) =~= self@.take(i as int));
        }
        assert(views(entries@) =~= self@);
        OrdMap { entries }
    }
}

} // verus!
