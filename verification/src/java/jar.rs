//! Archives that hold what other archives hold.
use vstd::prelude::*;
use crate::maven::loader::{any_matches, excludes, may_exclude, portable_set};
use crate::order::{views, OrdSet};
use crate::paths::{parts_of, parts_spec, Part, PartView, Path};
use crate::text::{join, join_spec, texts};
use crate::types::{ArtifactCoordinates, ExclusionPattern};

verus! {

/// The parts of a path with each `..` taken at its word: it drops the name before it, and
/// goes no higher than the beginning.
pub open spec fn clean_parts(parts: Seq<PartView>) -> Seq<PartView>
    decreases parts.len(),
{
    if parts.len() == 0 {
        Seq::empty()
    } else {
        let before = clean_parts(parts.drop_last());
        match parts.last() {
            Part::Name(_) => before.push(parts.last()),
            Part::Here => before,
            Part::Up => if before.len() > 0 && before.last() is Name {
                before.drop_last()
            } else {
                before
            },
            Part::Root => seq![Part::Root],
        }
    }
}

/// The names among parts.
pub open spec fn names_of(parts: Seq<PartView>) -> Seq<Seq<char>>
    decreases parts.len(),
{
    if parts.len() == 0 {
        Seq::empty()
    } else {
        match parts.last() {
            Part::Name(n) => names_of(parts.drop_last()).push(n),
            _ => names_of(parts.drop_last()),
        }
    }
}

/// The path that parts come to: names with `/` between them, and one before them where the
/// path is absolute.
pub open spec fn path_text(parts: Seq<PartView>) -> Seq<char> {
    let names = join_spec(names_of(parts), seq!['/']);
    if parts.len() > 0 && parts[0] is Root {
        seq!['/'] + names
    } else {
        names
    }
}

/// The path without `.` and `..`.
pub open spec fn clean_spec(path: Seq<char>) -> Seq<char> {
    path_text(clean_parts(parts_spec(path)))
}

/// Whether a part is a name.
fn is_name(p: &Part<String>) -> (r: bool)
    ensures
        r == (p@ is Name),
{
    match p {
        Part::Name(_) => true,
        _ => false,
    }
}

/// The path without `.` and `..`.
pub fn clean(path: &str) -> (r: String)
    ensures
        r@ == clean_spec(path@),
{
    let parts = parts_of(path);
    let ghost ps = parts_spec(path@);
    let mut kept: Vec<Part<String>> = Vec::new();
    let mut i: usize = 0;
    assert(ps.take(0) =~= Seq::empty());
    assert(views(kept@) =~= Seq::empty());
    while i < parts.len()
        invariant
            i <= parts@.len(),
            ps == views(parts@),
            views(kept@) == clean_parts(ps.take(i as int)),
        decreases parts@.len() - i,
    {
        assert(ps[i as int] == parts@[i as int]@);
        assert(ps.take(i + 1).drop_last() =~= ps.take(i as int));
        let ghost before = kept@;
        match &parts[i] {
            Part::Name(n) => {
                kept.push(Part::Name(n.clone()));
                assert(views(kept@) =~= views(before).push(ps[i as int]));
            },
            Part::Here => {},
            Part::Up => {
                let n: usize = kept.len();
                if n > 0 && is_name(&kept[n - 1]) {
                    assert(views(before).last() == before[n - 1]@);
                    let _ = kept.pop();
                    assert(views(kept@) =~= views(before).drop_last());
                } else if n > 0 {
                    assert(views(before).last() == before[n - 1]@);
                }
            },
            Part::Root => {
                kept = Vec::new();
                kept.push(Part::Root);
                assert(views(kept@) =~= seq![Part::<Seq<char>>::Root]);
            },
        }
        i = i + 1;
    }
    assert(ps.take(i as int) =~= ps);
    let ghost ks = views(kept@);
    let mut names: Vec<String> = Vec::new();
    let mut k: usize = 0;
    assert(ks.take(0) =~= Seq::empty());
    assert(texts(names@) =~= Seq::empty());
    while k < kept.len()
        invariant
            k <= kept@.len(),
            ks == views(kept@),
            texts(names@) == names_of(ks.take(k as int)),
        decreases kept@.len() - k,
    {
        assert(ks[k as int] == kept@[k as int]@);
        assert(ks.take(k + 1).drop_last() =~= ks.take(k as int));
        if let Part::Name(n) = &kept[k] {
            crate::text::add_text(&mut names, n.as_str());
        }
        k = k + 1;
    }
    assert(ks.take(k as int) =~= ks);
    proof {
        reveal_strlit("/");
        assert("/"@ =~= seq!['/']);
    }
    let text = join(&names, "/");
    if kept.len() > 0 {
        assert(ks[0] == kept@[0]@);
        if let Part::Root = &kept[0] {
            return crate::text::joined("/", text.as_str());
        }
    }
    text
}

/// Parts that are clean stay as they are.
pub proof fn clean_is_settled(parts: Seq<PartView>)
    ensures
        clean_parts(clean_parts(parts)) == clean_parts(parts),
{
    let c = clean_parts(parts);
    assert forall|i: int| 0 <= i < c.len() implies c[i] is Name || (i == 0 && c[i] is Root) by {
        clean_has_no_dots(parts, i);
    }
    clean_of_names(c);
}

/// No part of a clean path is a `.` or a `..`, and the root is nowhere but at its beginning.
pub proof fn clean_has_no_dots(parts: Seq<PartView>, i: int)
    requires
        0 <= i < clean_parts(parts).len(),
    ensures
        clean_parts(parts)[i] is Name || (i == 0 && clean_parts(parts)[i] is Root),
    decreases parts.len(),
{
    if parts.len() > 0 {
        let before = clean_parts(parts.drop_last());
        if i < before.len() {
            clean_has_no_dots(parts.drop_last(), i);
        }
    }
}

proof fn clean_of_names(c: Seq<PartView>)
    requires
        forall|i: int| 0 <= i < c.len() ==> (#[trigger] c[i]) is Name || (i == 0 && c[i] is Root),
    ensures
        clean_parts(c) == c,
    decreases c.len(),
{
    if c.len() > 0 {
        let d = c.drop_last();
        assert forall|i: int| 0 <= i < d.len() implies (#[trigger] d[i]) is Name || (i == 0 && d[i] is Root) by {
            assert(d[i] == c[i]);
        }
        clean_of_names(d);
        assert(c.last() == c[c.len() - 1]);
        assert(d.push(c.last()) =~= c);
        if c.last() is Root {
            assert(c =~= seq![Part::<Seq<char>>::Root]);
        }
    } else {
        assert(c =~= Seq::empty());
    }
}

/// Whether an artifact is left out of an archive. A file that is no artifact never is.
pub fn is_excluded(coord: Option<&ArtifactCoordinates>, excluded: &OrdSet<ExclusionPattern>) -> (r: bool)
    ensures
        match coord {
            None => !r,
            Some(c) => {
                &&& may_exclude(excluded@, c@, r)
                &&& portable_set(excluded@) ==> r == excludes(excluded@, c@)
            },
        },
        excluded@.len() == 0 ==> !r,
{
    match coord {
        None => false,
        Some(c) => any_matches(excluded, c),
    }
}

/// The names that are in an archive already.
#[derive(Debug, PartialEq, Eq)]
pub struct Seen {
    names: OrdSet<Path>,
}

impl Seen {
    pub closed spec fn view(&self) -> Seq<Seq<char>> {
        self.names@
    }

    pub fn new() -> (r: Seen)
        ensures
            r.view() == Seq::<Seq<char>>::empty(),
    {
        Seen { names: OrdSet::new() }
    }

    /// The name under which an entry is added, unless there is one of that name already.
    pub fn add(&mut self, name: &str) -> (r: Option<String>)
        ensures
            match r {
                Some(n) => n@ == clean_spec(name@) && !crate::order::holds::<Path>(old(self).view(), clean_spec(name@)),
                None => crate::order::holds::<Path>(old(self).view(), clean_spec(name@)),
            },
            final(self).view() == crate::order::put::<Path>(old(self).view(), clean_spec(name@)),
    {
        let text = clean(name);
        let fresh = self.names.insert(Path { text: text.clone() });
        if fresh {
            Some(text)
        } else {
            None
        }
    }
}

/// Of entries of one name the first is kept: once a name was added, no other entry of that
/// name is.
pub proof fn first_entry_is_kept(seen: Seq<Seq<char>>, name: Seq<char>)
    requires
        crate::order::sorted::<Path>(seen),
    ensures
        crate::order::holds::<Path>(crate::order::put::<Path>(seen, clean_spec(name)), clean_spec(name)),
        crate::order::put::<Path>(crate::order::put::<Path>(seen, clean_spec(name)), clean_spec(name)).len()
            == crate::order::put::<Path>(seen, clean_spec(name)).len(),
{
    let n = clean_spec(name);
    crate::order::put_keeps_order::<Path>(seen, n);
    crate::order::put_keeps_order::<Path>(crate::order::put::<Path>(seen, n), n);
}

} // verus!
