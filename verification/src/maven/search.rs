//! Which of several repositories answers a look-up: the first declared one that has
//! what is looked for, whatever the order in which the answers arrive.
use vstd::prelude::*;

verus! {

/// The answer of a repository: its place among the repositories, and whether it has
/// what was looked for.
pub type Answer = (int, bool);

/// Whether the repository at a place has answered.
pub open spec fn answered(answers: Seq<Answer>, i: int) -> bool {
    exists|k: int| 0 <= k < answers.len() && (#[trigger] answers[k]).0 == i
}

/// Whether the repository at a place has answered that it has what was looked for.
pub open spec fn found_at(answers: Seq<Answer>, i: int) -> bool {
    exists|k: int| 0 <= k < answers.len() && #[trigger] answers[k] == (i, true)
}

/// The first place among those that have what was looked for, so far.
pub open spec fn best_of(answers: Seq<Answer>) -> Option<int>
    decreases answers.len(),
{
    if answers.len() == 0 {
        None
    } else {
        let (i, ok) = answers.last();
        match best_of(answers.drop_last()) {
            Some(b) => if ok && i < b {
                Some(i)
            } else {
                Some(b)
            },
            None => if ok {
                Some(i)
            } else {
                None
            },
        }
    }
}

/// The place of the last repository to answer that it has not what was looked for.
pub open spec fn last_failure(answers: Seq<Answer>) -> Option<int>
    decreases answers.len(),
{
    if answers.len() == 0 {
        None
    } else if !answers.last().1 {
        Some(answers.last().0)
    } else {
        last_failure(answers.drop_last())
    }
}

/// Whether no answer that is yet to come can change which repository wins.
pub open spec fn decided(answers: Seq<Answer>) -> bool {
    match best_of(answers) {
        Some(b) => forall|i: int| 0 <= i <= b ==> #[trigger] answered(answers, i),
        None => false,
    }
}

/// How a search ends.
#[derive(Clone, Copy, Debug, PartialEq, Eq, Structural)]
pub enum Outcome {
    /// The answer of this repository counts.
    Found(usize),
    /// None has what was looked for; this one said so last.
    NotFound(usize),
    /// None was asked.
    NoRepositories,
}

/// How a search ends with the given answers.
pub open spec fn outcome_of(answers: Seq<Answer>) -> Outcome {
    match best_of(answers) {
        Some(b) => Outcome::Found(b as usize),
        None => match last_failure(answers) {
            Some(i) => Outcome::NotFound(i as usize),
            None => Outcome::NoRepositories,
        },
    }
}

pub proof fn best_of_props(answers: Seq<Answer>)
    ensures
        match best_of(answers) {
            Some(b) => found_at(answers, b) && forall|i: int| #[trigger] found_at(answers, i) ==> b <= i,
            None => forall|i: int| !#[trigger] found_at(answers, i),
        },
    decreases answers.len(),
{
    if answers.len() > 0 {
        let d = answers.drop_last();
        let (j, ok) = answers.last();
        best_of_props(d);
        assert(answers[answers.len() - 1] == (j, ok));
        assert forall|i: int| #[trigger] found_at(answers, i) implies found_at(d, i) || (ok && i == j) by {
            let k = choose|k: int| 0 <= k < answers.len() && #[trigger] answers[k] == (i, true);
            if k < d.len() {
                assert(d[k] == answers[k]);
            }
        }
        assert forall|i: int| #[trigger] found_at(d, i) implies found_at(answers, i) by {
            let k = choose|k: int| 0 <= k < d.len() && #[trigger] d[k] == (i, true);
            assert(answers[k] == (i, true));
        }
    }
}

fn all_up_to(seen: &Vec<bool>, b: usize) -> (r: bool)
    requires
        b < seen@.len(),
    ensures
        r == forall|k: int| 0 <= k <= b ==> #[trigger] seen@[k],
{
    let mut k: usize = 0;
    while k < b
        invariant
            k <= b < seen@.len(),
            forall|j: int| 0 <= j < k ==> #[trigger] seen@[j],
        decreases b - k,
    {
        if !seen[k] {
            return false;
        }
        k = k + 1;
    }
    seen[b]
}

/// The state of a search that asks all repositories at once.
pub struct Race {
    best: Option<usize>,
    failure: Option<usize>,
    seen: Vec<bool>,
    answers: Ghost<Seq<Answer>>,
}

impl Race {
    /// How many repositories were asked.
    pub closed spec fn repos(self) -> nat {
        self.seen@.len()
    }

    /// The answers so far.
    pub closed spec fn answers(self) -> Seq<Answer> {
        self.answers@
    }

    /// What the state keeps of the answers.
    pub closed spec fn wf(self) -> bool {
        &&& self.seen@.len() <= usize::MAX
        &&& match best_of(self.answers@) {
            Some(b) => self.best == Some(b as usize) && 0 <= b < self.seen@.len(),
            None => self.best is None,
        }
        &&& match last_failure(self.answers@) {
            Some(i) => self.failure == Some(i as usize) && 0 <= i < self.seen@.len(),
            None => self.failure is None,
        }
        &&& forall|i: int| 0 <= i < self.seen@.len() ==> self.seen@[i] == #[trigger] answered(self.answers@, i)
    }

    /// A search among `n` repositories, none of which has answered.
    pub fn new(n: usize) -> (r: Race)
        ensures
            r.wf(),
            r.repos() == n,
            r.answers() == Seq::<Answer>::empty(),
    {
        let mut seen: Vec<bool> = Vec::new();
        let mut i: usize = 0;
        while i < n
            invariant
                i <= n,
                seen@.len() == i,
                forall|k: int| 0 <= k < i ==> !seen@[k],
            decreases n - i,
        {
            seen.push(false);
            i = i + 1;
        }
        let answers: Ghost<Seq<Answer>> = Ghost(Seq::empty());
        Race { best: None, failure: None, seen, answers }
    }

    /// Takes an answer in, and says whether the search is over.
    pub fn observe(&mut self, i: usize, ok: bool) -> (r: bool)
        requires
            old(self).wf(),
            i < old(self).repos(),
        ensures
            final(self).wf(),
            final(self).repos() == old(self).repos(),
            final(self).answers() == old(self).answers().push((i as int, ok)),
            r == decided(final(self).answers()),
    {
        let ghost before = self.answers@;
        let ghost after = before.push((i as int, ok));
        proof {
            assert(after.drop_last() =~= before);
            assert forall|j: int| #[trigger] answered(after, j) == (answered(before, j) || j == i) by {
                if answered(before, j) {
                    let k = choose|k: int| 0 <= k < before.len() && (#[trigger] before[k]).0 == j;
                    assert(after[k].0 == j);
                }
                if j == i {
                    assert(after[before.len() as int].0 == j);
                }
                if answered(after, j) && j != i {
                    let k = choose|k: int| 0 <= k < after.len() && (#[trigger] after[k]).0 == j;
                    assert(before[k].0 == j);
                }
            }
        }
        self.seen.set(i, true);
        if ok {
            match self.best {
                Some(b) if b <= i => {},
                _ => {
                    self.best = Some(i);
                },
            }
        } else {
            self.failure = Some(i);
        }
        self.answers = Ghost(after);
        assert(self.wf());
        proof {
            if let Some(b) = best_of(after) {
                if forall|k: int| 0 <= k <= b ==> #[trigger] self.seen@[k] {
                    assert forall|k: int| 0 <= k <= b implies #[trigger] answered(after, k) by {
                        assert(self.seen@[k]);
                    }
                }
                if forall|k: int| 0 <= k <= b ==> #[trigger] answered(after, k) {
                    assert forall|k: int| 0 <= k <= b implies #[trigger] self.seen@[k] by {
                        assert(answered(after, k));
                    }
                }
            }
        }
        match self.best {
            None => false,
            Some(b) => all_up_to(&self.seen, b),
        }
    }

    /// How the search ends with the answers so far.
    pub fn outcome(&self) -> (r: Outcome)
        requires
            self.wf(),
        ensures
            r == outcome_of(self.answers()),
    {
        match self.best {
            Some(b) => Outcome::Found(b),
            None => match self.failure {
                Some(i) => Outcome::NotFound(i),
                None => Outcome::NoRepositories,
            },
        }
    }
}

/// Whether answers are those of repositories that have what is looked for where `owns`
/// says so.
pub open spec fn truthful(answers: Seq<Answer>, n: int, owns: spec_fn(int) -> bool) -> bool {
    forall|k: int| 0 <= k < answers.len() ==> {
        let a = #[trigger] answers[k];
        0 <= a.0 < n && a.1 == owns(a.0)
    }
}

/// Whether all repositories have answered.
pub open spec fn complete(answers: Seq<Answer>, n: int) -> bool {
    forall|i: int| 0 <= i < n ==> #[trigger] answered(answers, i)
}

/// The first declared repository wins: once a search is decided, or all have answered,
/// the one that counts has what was looked for and none before it has. The order in
/// which the answers came plays no part.
pub proof fn first_declared_wins(answers: Seq<Answer>, n: int, owns: spec_fn(int) -> bool, w: int)
    requires
        truthful(answers, n, owns),
        n <= usize::MAX,
        decided(answers) || complete(answers, n),
    ensures
        outcome_of(answers) == Outcome::Found(w as usize) && 0 <= w < n ==> owns(w) && forall|i: int|
            0 <= i < w ==> !#[trigger] owns(i),
        (0 <= w < n && owns(w) && forall|i: int| 0 <= i < w ==> !#[trigger] owns(i)) ==> outcome_of(answers)
            == Outcome::Found(w as usize),
{
    best_of_props(answers);
    assert forall|i: int| #[trigger] found_at(answers, i) implies 0 <= i < n && owns(i) by {
        let k = choose|k: int| 0 <= k < answers.len() && #[trigger] answers[k] == (i, true);
        assert(answers[k].0 == i);
    }
    assert forall|i: int| #[trigger] answered(answers, i) && owns(i) implies found_at(answers, i) by {
        let k = choose|k: int| 0 <= k < answers.len() && (#[trigger] answers[k]).0 == i;
        assert(answers[k] == (i, true));
    }
    match best_of(answers) {
        Some(b) => {
            assert(found_at(answers, b));
            assert forall|i: int| 0 <= i < b implies !#[trigger] owns(i) by {
                assert(answered(answers, i));
                if owns(i) {
                    assert(found_at(answers, i));
                }
            }
            if 0 <= w < n && owns(w) && (forall|i: int| 0 <= i < w ==> !#[trigger] owns(i)) {
                assert(owns(b));
                if b < w {
                    assert(!owns(b));
                }
                if w < b {
                    assert(!owns(w));
                }
            }
        },
        None => {
            if 0 <= w < n && owns(w) {
                assert(answered(answers, w));
                assert(found_at(answers, w));
            }
        },
    }
}

/// What a search that asks one repository after the other does next.
#[derive(Clone, Copy, Debug, PartialEq, Eq, Structural)]
pub enum Turn {
    /// Ask this repository.
    Ask(usize),
    /// The search is over.
    Done(Outcome),
}

/// What a sequential search among `n` repositories does first.
pub open spec fn first_turn_spec(n: usize) -> Turn {
    if n == 0 {
        Turn::Done(Outcome::NoRepositories)
    } else {
        Turn::Ask(0)
    }
}

/// What a sequential search does after an answer.
pub open spec fn next_turn_spec(n: usize, i: usize, ok: bool) -> Turn {
    if ok {
        Turn::Done(Outcome::Found(i))
    } else if i + 1 < n {
        Turn::Ask((i + 1) as usize)
    } else {
        Turn::Done(Outcome::NotFound(i))
    }
}

/// What a sequential search among `n` repositories does first.
pub fn first_turn(n: usize) -> (r: Turn)
    ensures
        r == first_turn_spec(n),
{
    if n == 0 {
        Turn::Done(Outcome::NoRepositories)
    } else {
        Turn::Ask(0)
    }
}

/// What a sequential search does after an answer.
pub fn next_turn(n: usize, i: usize, ok: bool) -> (r: Turn)
    requires
        i < n,
    ensures
        r == next_turn_spec(n, i, ok),
{
    if ok {
        Turn::Done(Outcome::Found(i))
    } else if i + 1 < n {
        Turn::Ask(i + 1)
    } else {
        Turn::Done(Outcome::NotFound(i))
    }
}

/// How a sequential search ends, from one of its turns on, where the repositories have what is
/// looked for as `owns` says.
pub open spec fn ends_with(n: usize, owns: spec_fn(int) -> bool, turn: Turn) -> Outcome
    decreases match turn {
        Turn::Ask(i) => n - i + 1,
        Turn::Done(_) => 0,
    },
{
    match turn {
        Turn::Done(o) => o,
        Turn::Ask(i) => if i < n {
            ends_with(n, owns, next_turn_spec(n, i, owns(i as int)))
        } else {
            Outcome::NoRepositories
        },
    }
}

/// Asking one after the other, too, the first declared repository wins, and the last of them
/// speaks where none has what is looked for.
pub proof fn first_declared_wins_in_turn(n: usize, owns: spec_fn(int) -> bool, i: usize, w: int)
    requires
        i < n,
    ensures
        (i <= w < n && owns(w) && forall|k: int| i <= k < w ==> !#[trigger] owns(k)) ==> ends_with(
            n,
            owns,
            Turn::Ask(i),
        ) == Outcome::Found(w as usize),
        (forall|k: int| i <= k < n ==> !#[trigger] owns(k)) ==> ends_with(n, owns, Turn::Ask(i)) == Outcome::NotFound(
            (n - 1) as usize,
        ),
    decreases n - i,
{
    let ok = owns(i as int);
    let next = next_turn_spec(n, i, ok);
    assert(ends_with(n, owns, Turn::Ask(i)) == ends_with(n, owns, next));
    if !ok && i + 1 < n {
        first_declared_wins_in_turn(n, owns, (i + 1) as usize, w);
    }
    if i < w && ok {
        assert(!(forall|k: int| i <= k < w ==> !#[trigger] owns(k)));
    }
}

/// Both ways of searching find the same: what a race finds once it is decided, a sequential
/// search finds, too.
pub proof fn both_ways_agree(answers: Seq<Answer>, n: usize, owns: spec_fn(int) -> bool)
    requires
        truthful(answers, n as int, owns),
        decided(answers) || complete(answers, n as int),
        outcome_of(answers) is Found,
    ensures
        n > 0,
        ends_with(n, owns, first_turn_spec(n)) == outcome_of(answers),
{
    best_of_props(answers);
    let b = best_of(answers)->Some_0;
    let k = choose|k: int| 0 <= k < answers.len() && #[trigger] answers[k] == (b, true);
    assert(answers[k].0 == b);
    first_declared_wins(answers, n as int, owns, b);
    first_declared_wins_in_turn(n, owns, 0, b);
}

} // verus!
