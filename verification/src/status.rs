//! What the user sees of the work that is going on.
use vstd::prelude::*;
use crate::maven::download_key;
use crate::order::views;
use crate::text::{decimal, decimal_spec, joined, lines_of, lines_spec, push_text, same, texts};
use crate::types::{coord_text, ArtifactCoordinates};

verus! {

/// How many tasks are shown at a time.
pub const MAX_VISIBLE: usize = 4;

/// Something that happened.
#[derive(Debug, PartialEq, Eq)]
pub enum Status<S> {
    /// A task began: its key, and what is shown of it.
    Begin(S, S),
    /// The task of a key ended.
    End(S),
    /// The task of a key failed, and all work with it.
    Error(S, S),
    /// All work failed.
    Fatal(S),
    /// Something is to be told.
    Log(S),
    /// A program wrote something.
    Output(S),
}

/// Something that happened, its texts as characters.
pub type StatusView = Status<Seq<char>>;

impl View for Status<String> {
    type V = StatusView;

    open spec fn view(&self) -> StatusView {
        match self {
            Status::Begin(k, m) => Status::Begin(k@, m@),
            Status::End(k) => Status::End(k@),
            Status::Error(k, e) => Status::Error(k@, e@),
            Status::Fatal(m) => Status::Fatal(m@),
            Status::Log(m) => Status::Log(m@),
            Status::Output(s) => Status::Output(s@),
        }
    }
}

/// A task that is going on.
#[derive(Debug, PartialEq, Eq)]
pub struct Task {
    pub key: String,
    pub msg: String,
}

impl View for Task {
    type V = (Seq<char>, Seq<char>);

    open spec fn view(&self) -> (Seq<char>, Seq<char>) {
        (self.key@, self.msg@)
    }
}

/// The tasks that are going on, in the order in which they began, and why all work failed, if
/// it did.
#[derive(Debug, PartialEq, Eq)]
pub struct Progress {
    queue: Vec<Task>,
    fatal: Option<String>,
}

/// Progress, its texts as characters.
pub struct ProgressView {
    pub queue: Seq<(Seq<char>, Seq<char>)>,
    pub fatal: Option<Seq<char>>,
}

impl View for Progress {
    type V = ProgressView;

    closed spec fn view(&self) -> ProgressView {
        ProgressView { queue: views(self.queue@), fatal: crate::text::opt_text(self.fatal) }
    }
}

/// The tasks without those of a key.
pub open spec fn without_key(queue: Seq<(Seq<char>, Seq<char>)>, key: Seq<char>) -> Seq<(Seq<char>, Seq<char>)>
    decreases queue.len(),
{
    if queue.len() == 0 {
        Seq::empty()
    } else if queue.last().0 != key {
        without_key(queue.drop_last(), key).push(queue.last())
    } else {
        without_key(queue.drop_last(), key)
    }
}

/// The line that tells of a failure.
pub open spec fn failure_line(key: Seq<char>, err: Seq<char>) -> Seq<char> {
    "\u{2717} "@ + key + ": "@ + err
}

/// Progress after something happened. After a failure nothing changes it.
pub open spec fn handle_spec(p: ProgressView, s: StatusView) -> ProgressView {
    if p.fatal is Some {
        p
    } else {
        match s {
            Status::Begin(k, m) => ProgressView { queue: p.queue.push((k, m)), ..p },
            Status::End(k) => ProgressView { queue: without_key(p.queue, k), ..p },
            Status::Error(k, e) => ProgressView { queue: without_key(p.queue, k), fatal: Some(e) },
            Status::Fatal(_) => ProgressView { queue: p.queue, fatal: Some(Seq::empty()) },
            Status::Log(_) => p,
            Status::Output(_) => p,
        }
    }
}

/// The lines that are printed when something happens.
pub open spec fn printed_spec(p: ProgressView, s: StatusView) -> Seq<Seq<char>> {
    if p.fatal is Some {
        Seq::empty()
    } else {
        match s {
            Status::Begin(_, _) => Seq::empty(),
            Status::End(_) => Seq::empty(),
            Status::Error(k, e) => seq![failure_line(k, e)],
            Status::Fatal(m) => seq![m],
            Status::Log(m) => seq![m],
            Status::Output(t) => lines_spec(t),
        }
    }
}

/// The line that tells how many tasks are not shown, where there are any.
pub open spec fn overflow_spec(queue: Seq<(Seq<char>, Seq<char>)>) -> Option<Seq<char>> {
    if queue.len() > MAX_VISIBLE {
        Some("and "@ + decimal_spec((queue.len() - MAX_VISIBLE) as nat) + " more..."@)
    } else {
        None
    }
}

impl Progress {
    pub fn new() -> (r: Progress)
        ensures
            r@ == (ProgressView { queue: Seq::empty(), fatal: None }),
    {
        let queue: Vec<Task> = Vec::new();
        assert(views(queue@) =~= Seq::empty());
        Progress { queue, fatal: None }
    }

    fn remove(&mut self, key: &str)
        ensures
            final(self)@ == (ProgressView { queue: without_key(old(self)@.queue, key@), ..old(self)@ }),
    {
        let ghost q = views(self.queue@);
        let mut kept: Vec<Task> = Vec::new();
        let mut i: usize = 0;
        assert(q.take(0) =~= Seq::empty());
        assert(views(kept@) =~= Seq::empty());
        while i < self.queue.len()
            invariant
                i <= self.queue@.len(),
                q == views(self.queue@),
                self.queue == old(self).queue,
                self.fatal == old(self).fatal,
                views(kept@) == without_key(q.take(i as int), key@),
            decreases self.queue@.len() - i,
        {
            let t = &self.queue[i];
            assert(q[i as int] == t@);
            assert(q.take(i + 1).drop_last() =~= q.take(i as int));
            if !same(t.key.as_str(), key) {
                let ghost before = kept@;
                kept.push(Task { key: t.key.clone(), msg: t.msg.clone() });
                assert(views(kept@) =~= views(before).push(t@));
            }
            i = i + 1;
        }
        assert(q.take(i as int) =~= q);
        self.queue = kept;
    }

    /// Takes in what happened, and gives the lines to print.
    pub fn handle(&mut self, status: Status<String>) -> (r: Vec<String>)
        ensures
            final(self)@ == handle_spec(old(self)@, status@),
            texts(r@) == printed_spec(old(self)@, status@),
    {
        let mut out: Vec<String> = Vec::new();
        assert(texts(out@) =~= Seq::empty());
        if self.fatal.is_some() {
            return out;
        }
        match status {
            Status::Begin(key, msg) => {
                let ghost before = self.queue@;
                self.queue.push(Task { key, msg });
                assert(views(self.queue@) =~= views(before).push((key@, msg@)));
            },
            Status::End(key) => {
                self.remove(key.as_str());
            },
            Status::Error(key, err) => {
                self.remove(key.as_str());
                let mut line = joined("\u{2717} ", key.as_str());
                push_text(&mut line, ": ");
                push_text(&mut line, err.as_str());
                out.push(line);
                assert(texts(out@) =~= seq![failure_line(key@, err@)]);
                self.fatal = Some(err);
            },
            Status::Fatal(msg) => {
                let none = String::new();
                assert(none@ =~= Seq::empty());
                self.fatal = Some(none);
                out.push(msg);
                assert(texts(out@) =~= seq![msg@]);
            },
            Status::Log(msg) => {
                out.push(msg);
                assert(texts(out@) =~= seq![msg@]);
            },
            Status::Output(text) => {
                out = lines_of(text.as_str());
            },
        }
        out
    }

    /// What is shown of the task at a place.
    pub fn visible(&self, i: usize) -> (r: Option<&String>)
        ensures
            match r {
                Some(m) => i < MAX_VISIBLE && i < self@.queue.len() && m@ == self@.queue[i as int].1,
                None => i >= MAX_VISIBLE || i >= self@.queue.len(),
            },
    {
        if i < MAX_VISIBLE && i < self.queue.len() {
            Some(&self.queue[i].msg)
        } else {
            None
        }
    }

    /// The line that tells how many tasks are not shown, where there are any.
    pub fn overflow(&self) -> (r: Option<String>)
        ensures
            crate::text::opt_text(r) == overflow_spec(self@.queue),
    {
        let n: usize = self.queue.len();
        if n > MAX_VISIBLE {
            let mut line = joined("and ", decimal((n - MAX_VISIBLE) as u64).as_str());
            push_text(&mut line, " more...");
            Some(line)
        } else {
            None
        }
    }

    /// Why all work failed, if it did.
    pub fn fatal(&self) -> (r: Option<&String>)
        ensures
            match r {
                Some(e) => self@.fatal == Some(e@),
                None => self@.fatal is None,
            },
    {
        self.fatal.as_ref()
    }
}

/// What tells that an artifact is being resolved.
pub fn resolving(coord: &ArtifactCoordinates) -> (r: Status<String>)
    ensures
        r@ == StatusView::Begin(coord_text(coord@), "resolving "@ + coord_text(coord@)),
{
    let key = coord.to_string();
    let msg = joined("resolving ", key.as_str());
    Status::Begin(key, msg)
}

/// What tells that an artifact was resolved.
pub fn resolved(coord: &ArtifactCoordinates) -> (r: Status<String>)
    ensures
        r@ == StatusView::End(coord_text(coord@)),
{
    Status::End(coord.to_string())
}

/// What tells that an artifact is being downloaded.
pub fn downloading(coord: &ArtifactCoordinates) -> (r: Status<String>)
    ensures
        r@ == StatusView::Begin("dl:"@ + coord_text(coord@), "downloading "@ + coord_text(coord@)),
{
    let msg = joined("downloading ", coord.to_string().as_str());
    Status::Begin(download_key(coord), msg)
}

/// What tells that an artifact was downloaded.
pub fn downloaded(coord: &ArtifactCoordinates) -> (r: Status<String>)
    ensures
        r@ == StatusView::End("dl:"@ + coord_text(coord@)),
{
    Status::End(download_key(coord))
}

/// After a failure nothing is printed and nothing changes.
pub proof fn failure_is_final(p: ProgressView, s: StatusView)
    requires
        p.fatal is Some,
    ensures
        handle_spec(p, s) == p,
        printed_spec(p, s) == Seq::<Seq<char>>::empty(),
{
}

/// Leaving out a key that no task has leaves all tasks.
pub proof fn without_absent_key(queue: Seq<(Seq<char>, Seq<char>)>, key: Seq<char>)
    requires
        forall|i: int| 0 <= i < queue.len() ==> (#[trigger] queue[i]).0 != key,
    ensures
        without_key(queue, key) == queue,
    decreases queue.len(),
{
    if queue.len() > 0 {
        let d = queue.drop_last();
        assert forall|i: int| 0 <= i < d.len() implies (#[trigger] d[i]).0 != key by {
            assert(d[i] == queue[i]);
        }
        without_absent_key(d, key);
        assert(queue.last() == queue[queue.len() - 1]);
        assert(d.push(queue.last()) =~= queue);
    } else {
        assert(queue =~= Seq::empty());
    }
}

/// A task that began and ended leaves the others as they were.
pub proof fn end_undoes_begin(p: ProgressView, key: Seq<char>, msg: Seq<char>)
    requires
        p.fatal is None,
        forall|i: int| 0 <= i < p.queue.len() ==> (#[trigger] p.queue[i]).0 != key,
    ensures
        handle_spec(handle_spec(p, Status::Begin(key, msg)), Status::End(key)) == p,
{
    without_absent_key(p.queue, key);
    assert(p.queue.push((key, msg)).drop_last() =~= p.queue);
}

} // verus!
