//! Which artifacts are loaded, in what version, and what each of them brings in.
use vstd::prelude::*;
use crate::manifest::lock::{Lock, LockArtifact, LockArtifactView};
use crate::manifest::{mediate, mediate_spec, PomScope, Scope};
use crate::maven::pom::{
    exclusion_text, read_pom, version_text, Dependency, DependencyScope, ExclusionView, Exclusion,
    Pom, PomDepView, PomView,
};
use crate::maven::xml::{XmlFile, XmlView};
use crate::maven::MAVEN_POM_SUFFIX;
use crate::order::{
    assign, less, less_irreflexive, less_total, less_transitive, put, put_all, relate, views, Duplicate,
    OrdMap, OrdSet, Pair, Ranked, Relation,
};
use crate::text::{copy_opt, opt_text, push_text, same, strip_suffix, texts};
use crate::types::{
    extension_spec, honest_text, implied_spec, pattern_given, pattern_matches, pattern_wf, portable_pattern,
    portable_text, text_verdict, ArtifactCoordinates, ArtifactKey, ArtifactType, ArtifactVersion,
    CoordView, ExclusionPattern, GlobVerdict, KeyView, PatternError, PatternView,
};

verus! {

/// How near an artifact is to the manifest: the number of steps to it, and the place
/// of each step among the dependencies of the one before.
#[derive(Debug, PartialEq, Eq)]
pub struct Rank {
    pub depth: usize,
    pub position: Vec<usize>,
}

/// A rank, its places as a sequence.
pub struct RankView {
    pub depth: usize,
    pub position: Seq<usize>,
}

impl View for Rank {
    type V = RankView;

    open spec fn view(&self) -> RankView {
        RankView { depth: self.depth, position: self.position@ }
    }
}

/// The sort code of a rank: by depth, then by the places, one by one.
pub open spec fn rank_code(r: RankView) -> Seq<u64> {
    seq![r.depth as u64] + r.position.map_values(|n: usize| n as u64)
}

/// Whether one rank is nearer than another.
pub open spec fn nearer(a: RankView, b: RankView) -> bool {
    less(rank_code(a), rank_code(b))
}

/// Of two ranks that differ one is nearer, and never both are.
pub proof fn nearer_orders(a: RankView, b: RankView, c: RankView)
    ensures
        !nearer(a, a),
        nearer(a, b) && nearer(b, c) ==> nearer(a, c),
        !(nearer(a, b) && nearer(b, a)),
        a == b || nearer(a, b) || nearer(b, a),
{
    less_irreflexive(rank_code(a));
    if nearer(a, b) && nearer(b, c) {
        less_transitive(rank_code(a), rank_code(b), rank_code(c));
    }
    if nearer(a, b) && nearer(b, a) {
        less_transitive(rank_code(a), rank_code(b), rank_code(a));
    }
    less_total(rank_code(a), rank_code(b));
    if rank_code(a) == rank_code(b) {
        assert(rank_code(a)[0] == rank_code(b)[0]);
        assert(a.position.len() == b.position.len());
        assert forall|i: int| 0 <= i < a.position.len() implies a.position[i] == b.position[i] by {
            assert(rank_code(a)[i + 1] == rank_code(b)[i + 1]);
        }
        assert(a.position =~= b.position);
    }
}

fn copy_numbers(v: &Vec<usize>) -> (r: Vec<usize>)
    ensures
        r@ == v@,
{
    let mut out: Vec<usize> = Vec::new();
    let mut i: usize = 0;
    while i < v.len()
        invariant
            i <= v@.len(),
            out@ == v@.take(i as int),
        decreases v@.len() - i,
    {
        out.push(v[i]);
        i = i + 1;
        assert(out@ =~= v@.take(i as int));
    }
    assert(out@ =~= v@);
    out
}

impl Rank {
    fn code(&self) -> (r: Vec<u64>)
        ensures
            r@ == rank_code(self@),
    {
        let mut out: Vec<u64> = Vec::new();
        out.push(self.depth as u64);
        let mut i: usize = 0;
        assert(out@ =~= rank_code(self@).take(1));
        while i < self.position.len()
            invariant
                i <= self.position@.len(),
                out@ == rank_code(self@).take(i + 1),
            decreases self.position@.len() - i,
        {
            out.push(self.position[i] as u64);
            i = i + 1;
            assert(out@ =~= rank_code(self@).take(i + 1));
        }
        assert(out@ =~= rank_code(self@));
        out
    }

    /// Whether this rank is nearer than the other.
    pub fn is_nearer(&self, other: &Rank) -> (r: bool)
        ensures
            r == nearer(self@, other@),
    {
        match relate(&self.code(), &other.code()) {
            Relation::Before => true,
            _ => false,
        }
    }

    /// A copy of the rank.
    pub fn copy(&self) -> (r: Rank)
        ensures
            r@ == self@,
    {
        Rank { depth: self.depth, position: copy_numbers(&self.position) }
    }
}

/// How far the loading of an artifact has come.
#[derive(Clone, Copy, Debug, PartialEq, Eq, Structural)]
pub enum SlotState {
    Loading,
    Ready,
    Failed,
}

/// The version of an artifact that was chosen so far.
#[derive(Debug, PartialEq, Eq)]
pub struct Slot {
    pub rank: Rank,
    pub coord: ArtifactCoordinates,
    pub state: SlotState,
}

/// A slot, its texts as characters.
pub struct SlotView {
    pub rank: RankView,
    pub coord: CoordView,
    pub state: SlotState,
}

impl View for Slot {
    type V = SlotView;

    open spec fn view(&self) -> SlotView {
        SlotView { rank: self.rank@, coord: self.coord@, state: self.state }
    }
}

/// What a slot is, where there is one.
pub open spec fn opt_slot(s: Option<&Slot>) -> Option<SlotView> {
    match s {
        Some(x) => Some(x@),
        None => None,
    }
}

/// The slot after an artifact came in. Nothing but a nearer one changes it: another version
/// takes the slot and is to be loaded, the same version keeps it and moves nearer.
pub open spec fn claim_spec(slot: Option<SlotView>, coord: CoordView, rank: RankView) -> Option<SlotView> {
    match slot {
        None => Some(SlotView { rank, coord, state: SlotState::Loading }),
        Some(s) => if !nearer(rank, s.rank) {
            slot
        } else if s.coord == coord {
            Some(SlotView { rank, ..s })
        } else {
            Some(SlotView { rank, coord, state: SlotState::Loading })
        },
    }
}

/// The nearer of two ranks.
pub open spec fn nearest(a: RankView, b: RankView) -> RankView {
    if nearer(a, b) {
        a
    } else {
        b
    }
}

/// The slot after an artifact was loaded that came in with a rank. It is stored where the slot
/// is still held by its version, however near that has come since, or by nothing nearer.
pub open spec fn store_spec(slot: Option<SlotView>, coord: CoordView, rank: RankView) -> Option<SlotView> {
    match slot {
        None => Some(SlotView { rank, coord, state: SlotState::Ready }),
        Some(s) => if s.coord == coord {
            Some(SlotView { rank: nearest(s.rank, rank), coord, state: SlotState::Ready })
        } else if nearer(s.rank, rank) {
            slot
        } else {
            Some(SlotView { rank, coord, state: SlotState::Ready })
        },
    }
}

/// The slot after an artifact that came in with a rank could not be loaded. The failure is
/// dropped where the slot holds an artifact that is ready and as near. Where the slot is held by
/// the version that failed, the failure is as near as that has come.
pub open spec fn fail_spec(slot: Option<SlotView>, coord: CoordView, rank: RankView) -> Option<SlotView> {
    match slot {
        None => Some(SlotView { rank, coord, state: SlotState::Failed }),
        Some(s) => if s.state == SlotState::Ready && !nearer(rank, s.rank) {
            slot
        } else if s.coord == coord {
            Some(SlotView { rank: nearest(s.rank, rank), coord, state: SlotState::Failed })
        } else {
            Some(SlotView { rank, coord, state: SlotState::Failed })
        },
    }
}

/// What comes of an artifact that came in.
#[derive(Debug, PartialEq, Eq)]
pub enum Claim {
    /// It takes the slot, which is now this, and is to be loaded.
    Load(Slot),
    /// It has the slot already, which is now this. It need not be loaded again, but what it
    /// brings in comes nearer with it.
    Nearer(Slot),
    /// It is passed over.
    Pass,
}

/// What comes of an artifact that came in.
pub fn claim(slot: Option<&Slot>, coord: &ArtifactCoordinates, rank: &Rank) -> (r: Claim)
    ensures
        match r {
            Claim::Load(n) => {
                &&& opt_slot(slot) matches Some(s) ==> s.coord != coord@ && nearer(rank@, s.rank)
                &&& claim_spec(opt_slot(slot), coord@, rank@) == Some(n@)
            },
            Claim::Nearer(n) => {
                &&& opt_slot(slot) matches Some(s) && s.coord == coord@ && nearer(rank@, s.rank)
                &&& claim_spec(opt_slot(slot), coord@, rank@) == Some(n@)
            },
            Claim::Pass => {
                &&& opt_slot(slot) matches Some(s) && !nearer(rank@, s.rank)
                &&& claim_spec(opt_slot(slot), coord@, rank@) == opt_slot(slot)
            },
        },
{
    match slot {
        None => Claim::Load(Slot { rank: rank.copy(), coord: coord.clone(), state: SlotState::Loading }),
        Some(s) => if !rank.is_nearer(&s.rank) {
            Claim::Pass
        } else if s.coord.same(coord) {
            Claim::Nearer(Slot { rank: rank.copy(), coord: coord.clone(), state: s.state })
        } else {
            Claim::Load(Slot { rank: rank.copy(), coord: coord.clone(), state: SlotState::Loading })
        },
    }
}

fn nearest_of(a: &Rank, b: &Rank) -> (r: Rank)
    ensures
        r@ == nearest(a@, b@),
{
    if a.is_nearer(b) {
        a.copy()
    } else {
        b.copy()
    }
}

/// The slot of an artifact that was loaded, unless it is dropped.
pub fn store(slot: Option<&Slot>, coord: &ArtifactCoordinates, rank: &Rank) -> (r: Option<Slot>)
    ensures
        match r {
            Some(n) => {
                &&& opt_slot(slot) matches Some(s) ==> s.coord == coord@ || !nearer(s.rank, rank@)
                &&& store_spec(opt_slot(slot), coord@, rank@) == Some(n@)
            },
            None => {
                &&& opt_slot(slot) matches Some(s) && s.coord != coord@ && nearer(s.rank, rank@)
                &&& store_spec(opt_slot(slot), coord@, rank@) == opt_slot(slot)
            },
        },
{
    let near = match slot {
        None => rank.copy(),
        Some(s) => if s.coord.same(coord) {
            nearest_of(&s.rank, rank)
        } else if s.rank.is_nearer(rank) {
            return None;
        } else {
            rank.copy()
        },
    };
    Some(Slot { rank: near, coord: coord.clone(), state: SlotState::Ready })
}

/// The slot of an artifact that could not be loaded, unless the failure is dropped.
pub fn fail(slot: Option<&Slot>, coord: &ArtifactCoordinates, rank: &Rank) -> (r: Option<Slot>)
    ensures
        match r {
            Some(n) => {
                &&& opt_slot(slot) matches Some(s) ==> s.state != SlotState::Ready || nearer(rank@, s.rank)
                &&& fail_spec(opt_slot(slot), coord@, rank@) == Some(n@)
            },
            None => {
                &&& opt_slot(slot) matches Some(s) && s.state == SlotState::Ready && !nearer(rank@, s.rank)
                &&& fail_spec(opt_slot(slot), coord@, rank@) == opt_slot(slot)
            },
        },
{
    let near = match slot {
        None => rank.copy(),
        Some(s) => {
            let ready = match s.state {
                SlotState::Ready => true,
                _ => false,
            };
            if ready && !rank.is_nearer(&s.rank) {
                return None;
            }
            if s.coord.same(coord) {
                nearest_of(&s.rank, rank)
            } else {
                rank.copy()
            }
        },
    };
    Some(Slot { rank: near, coord: coord.clone(), state: SlotState::Failed })
}

/// The slot after artifacts came in, one after the other.
pub open spec fn after_arrivals(arrivals: Seq<(CoordView, RankView)>) -> Option<SlotView>
    decreases arrivals.len(),
{
    if arrivals.len() == 0 {
        None
    } else {
        claim_spec(after_arrivals(arrivals.drop_last()), arrivals.last().0, arrivals.last().1)
    }
}

/// Whether the `k`-th of the artifacts that came in has the slot, and deserves it: none is
/// nearer, and none of those before it is as near.
pub open spec fn wins(arrivals: Seq<(CoordView, RankView)>, k: int) -> bool {
    &&& after_arrivals(arrivals) == Some(
        SlotView { rank: arrivals[k].1, coord: arrivals[k].0, state: SlotState::Loading },
    )
    &&& forall|i: int| 0 <= i < arrivals.len() ==> !nearer((#[trigger] arrivals[i]).1, arrivals[k].1)
    &&& forall|i: int| 0 <= i < k ==> nearer(arrivals[k].1, (#[trigger] arrivals[i]).1)
}

/// The version that is least distant from the manifest wins, whatever comes in and in whatever
/// order. Of two that are equally near the first stays.
pub proof fn least_distant_wins(arrivals: Seq<(CoordView, RankView)>)
    requires
        arrivals.len() > 0,
    ensures
        after_arrivals(arrivals) is Some,
        exists|k: int| 0 <= k < arrivals.len() && #[trigger] wins(arrivals, k),
    decreases arrivals.len(),
{
    let d = arrivals.drop_last();
    let (coord, rank) = arrivals.last();
    let n = d.len() as int;
    assert(arrivals[n] == (coord, rank));
    nearer_orders(rank, rank, rank);
    if n == 0 {
        assert(wins(arrivals, 0));
    } else {
        least_distant_wins(d);
        let k = choose|k: int| 0 <= k < d.len() && #[trigger] wins(d, k);
        let s = after_arrivals(d)->Some_0;
        assert forall|i: int| 0 <= i < n implies !nearer((#[trigger] arrivals[i]).1, s.rank) by {
            assert(arrivals[i] == d[i]);
        }
        if nearer(rank, s.rank) {
            assert forall|i: int| 0 <= i < n implies nearer(rank, (#[trigger] arrivals[i]).1) by {
                nearer_orders(s.rank, arrivals[i].1, s.rank);
                nearer_orders(rank, s.rank, arrivals[i].1);
            }
            assert forall|i: int| 0 <= i < arrivals.len() implies !nearer((#[trigger] arrivals[i]).1, rank) by {
                nearer_orders(rank, arrivals[i].1, rank);
            }
            assert(wins(arrivals, n));
        } else {
            assert(arrivals[k] == d[k]);
            assert forall|i: int| 0 <= i < k implies nearer(s.rank, (#[trigger] arrivals[i]).1) by {
                assert(arrivals[i] == d[i]);
            }
            assert(wins(arrivals, k));
        }
    }
}

/// Something that happens to a slot.
pub enum SlotEvent {
    /// An artifact comes in.
    Comes(CoordView, RankView),
    /// An artifact that came in was loaded.
    Loaded(CoordView, RankView),
}

/// The slot after all that happened to it.
pub open spec fn after_events(events: Seq<SlotEvent>) -> Option<SlotView>
    decreases events.len(),
{
    if events.len() == 0 {
        None
    } else {
        let before = after_events(events.drop_last());
        match events.last() {
            SlotEvent::Comes(coord, rank) => claim_spec(before, coord, rank),
            SlotEvent::Loaded(coord, rank) => store_spec(before, coord, rank),
        }
    }
}

/// Whether nothing is loaded that did not come in before.
pub open spec fn in_order(events: Seq<SlotEvent>) -> bool {
    forall|i: int|
        0 <= i < events.len() ==> ((#[trigger] events[i]) matches SlotEvent::Loaded(coord, rank) ==> exists|j: int|
            0 <= j < i && #[trigger] events[j] == SlotEvent::Comes(coord, rank))
}

/// Whether the slot holds the `k`-th of what happened: an artifact that came in, and none that
/// came in is nearer.
pub open spec fn holds_the_nearest(events: Seq<SlotEvent>, k: int) -> bool {
    match (after_events(events), events[k]) {
        (Some(s), SlotEvent::Comes(coord, rank)) => {
            &&& s.coord == coord
            &&& s.rank == rank
            &&& forall|i: int|
                0 <= i < events.len() ==> ((#[trigger] events[i]) matches SlotEvent::Comes(_, r) ==> !nearer(r, rank))
        },
        _ => false,
    }
}

/// However loads end and others come in meanwhile, the slot holds a version that is least
/// distant from the manifest.
pub proof fn least_distant_stays(events: Seq<SlotEvent>)
    requires
        events.len() > 0,
        in_order(events),
    ensures
        after_events(events) is Some,
        exists|k: int| 0 <= k < events.len() && #[trigger] holds_the_nearest(events, k),
    decreases events.len(),
{
    let d = events.drop_last();
    let n = d.len() as int;
    let last = events[n];
    assert(events.last() == last);
    if n == 0 {
        assert(last matches SlotEvent::Comes(_, r) ==> !nearer(r, r)) by {
            if let SlotEvent::Comes(_, r) = last {
                nearer_orders(r, r, r);
            }
        }
        assert(holds_the_nearest(events, 0));
    } else {
        assert(in_order(d)) by {
            assert forall|i: int| 0 <= i < d.len() implies ((#[trigger] d[i]) matches SlotEvent::Loaded(coord, rank)
                ==> exists|j: int| 0 <= j < i && #[trigger] d[j] == SlotEvent::Comes(coord, rank)) by {
                assert(d[i] == events[i]);
                if let SlotEvent::Loaded(coord, rank) = d[i] {
                    let j = choose|j: int| 0 <= j < i && #[trigger] events[j] == SlotEvent::Comes(coord, rank);
                    assert(d[j] == events[j]);
                }
            }
        }
        least_distant_stays(d);
        let k = choose|k: int| 0 <= k < d.len() && #[trigger] holds_the_nearest(d, k);
        let s = after_events(d)->Some_0;
        assert(events[k] == d[k]);
        assert forall|i: int| 0 <= i < n implies ((#[trigger] events[i]) matches SlotEvent::Comes(_, r) ==> !nearer(
            r,
            s.rank,
        )) by {
            assert(events[i] == d[i]);
        }
        match last {
            SlotEvent::Comes(coord, rank) => {
                nearer_orders(rank, rank, rank);
                if nearer(rank, s.rank) {
                    assert forall|i: int| 0 <= i < events.len() implies ((#[trigger] events[i]) matches SlotEvent::Comes(
                        _,
                        r,
                    ) ==> !nearer(r, rank)) by {
                        if let SlotEvent::Comes(_, r) = events[i] {
                            nearer_orders(r, rank, s.rank);
                        }
                    }
                    assert(holds_the_nearest(events, n));
                } else {
                    assert(holds_the_nearest(events, k));
                }
            },
            SlotEvent::Loaded(coord, rank) => {
                let j = choose|j: int| 0 <= j < n && #[trigger] events[j] == SlotEvent::Comes(coord, rank);
                assert(!nearer(rank, s.rank));
                nearer_orders(s.rank, rank, rank);
                if s.coord == coord {
                    assert(holds_the_nearest(events, k));
                } else if nearer(s.rank, rank) {
                    assert(holds_the_nearest(events, k));
                } else {
                    assert(rank == s.rank);
                    assert(holds_the_nearest(events, j));
                }
            },
        }
    }
}

/// Whatever comes in, the holder of a slot is replaced by nothing but a nearer one.
pub proof fn slot_never_recedes(slot: SlotView, coord: CoordView, rank: RankView)
    ensures
        claim_spec(Some(slot), coord, rank) is Some,
        !nearer(slot.rank, claim_spec(Some(slot), coord, rank)->Some_0.rank),
{
    nearer_orders(slot.rank, rank, slot.rank);
}

/// What a farther artifact comes to is dropped once a nearer version has taken its slot: its
/// result always, its failure where the nearer one is ready. What the same version comes to is
/// kept, as near as it has come.
pub proof fn late_results_are_dropped(slot: SlotView, coord: CoordView, rank: RankView)
    requires
        nearer(rank, slot.rank),
    ensures
        ({
            let now = claim_spec(Some(slot), coord, rank);
            let ready = Some(SlotView { rank, coord, state: SlotState::Ready });
            &&& slot.coord != coord ==> store_spec(now, slot.coord, slot.rank) == now
            &&& slot.coord == coord ==> store_spec(now, slot.coord, slot.rank) == ready
            &&& store_spec(now, coord, rank) == ready
            &&& slot.coord != coord ==> store_spec(ready, slot.coord, slot.rank) == ready
            &&& fail_spec(ready, slot.coord, slot.rank) == ready
        }),
{
    nearer_orders(rank, slot.rank, rank);
    nearer_orders(slot.rank, rank, rank);
    nearer_orders(rank, rank, rank);
}

/// A dependency as a POM hands it on.
#[derive(Debug, PartialEq, Eq)]
pub struct PomDependency {
    pub scope: PomScope,
    pub artifact_type: ArtifactType,
    pub classifier: Option<String>,
    pub exclusions: OrdSet<ExclusionPattern>,
}

/// A dependency of a POM, its texts as characters.
pub struct PomDependencyView {
    pub scope: PomScope,
    pub artifact_type: Seq<char>,
    pub classifier: Option<Seq<char>>,
    pub exclusions: Seq<PatternView>,
}

impl View for PomDependency {
    type V = PomDependencyView;

    open spec fn view(&self) -> PomDependencyView {
        PomDependencyView {
            scope: self.scope,
            artifact_type: self.artifact_type@,
            classifier: opt_text(self.classifier),
            exclusions: self.exclusions@,
        }
    }
}

impl Duplicate for PomDependency {
    fn duplicate(&self) -> (r: Self) {
        PomDependency {
            scope: self.scope,
            artifact_type: self.artifact_type.clone(),
            classifier: copy_opt(&self.classifier),
            exclusions: self.exclusions.duplicate(),
        }
    }
}

/// What dependencies of a POM come to, by their coordinates.
pub type Deps = Seq<(CoordView, PomDependencyView)>;

/// Why a POM cannot be used.
#[derive(Debug, PartialEq, Eq)]
pub enum PomFault<S> {
    /// It does not have the form of a POM.
    Unreadable,
    /// A dependency has no version: its group and its name.
    MissingVersion(S, S),
    /// An exclusion is no pattern.
    Exclusion(PatternError),
    /// The parent has no version.
    ParentVersion,
    /// What is imported has no version.
    ImportVersion,
}

/// Why a POM cannot be used.
pub type PomError = PomFault<String>;

impl View for PomFault<String> {
    type V = PomFault<Seq<char>>;

    open spec fn view(&self) -> PomFault<Seq<char>> {
        match self {
            PomFault::Unreadable => PomFault::Unreadable,
            PomFault::MissingVersion(g, a) => PomFault::MissingVersion(g@, a@),
            PomFault::Exclusion(e) => PomFault::Exclusion(*e),
            PomFault::ParentVersion => PomFault::ParentVersion,
            PomFault::ImportVersion => PomFault::ImportVersion,
        }
    }
}

/// The place of the first dependency on an artifact, from a place on, that has no version.
pub open spec fn unversioned(deps: Seq<PomDepView>, group: Seq<char>, artifact: Seq<char>, from: int) -> int
    decreases deps.len() - from,
{
    if from < 0 || from >= deps.len() {
        deps.len() as int
    } else if deps[from].version is None && deps[from].group == group && deps[from].artifact == artifact {
        from
    } else {
        unversioned(deps, group, artifact, from + 1)
    }
}

/// The dependencies, where the first on the artifact that has no version gets the managed
/// one.
pub open spec fn fill_one(deps: Seq<PomDepView>, m: PomDepView) -> Seq<PomDepView> {
    let i = unversioned(deps, m.group, m.artifact, 0);
    if 0 <= i < deps.len() {
        deps.update(i, PomDepView { version: m.version, ..deps[i] })
    } else {
        deps
    }
}

/// The dependencies with the managed versions, one after the other.
pub open spec fn fill_versions(deps: Seq<PomDepView>, managed: Seq<PomDepView>) -> Seq<PomDepView>
    decreases managed.len(),
{
    if managed.len() == 0 {
        deps
    } else {
        fill_one(fill_versions(deps, managed.drop_last()), managed.last())
    }
}

/// The patterns of the first exclusions, given which globs are accepted: of as many exclusions
/// as there are verdicts.
pub open spec fn patterns_given(c: Seq<ExclusionView>, vs: Seq<GlobVerdict>) -> Result<Seq<PatternView>, PatternError>
    decreases vs.len(),
{
    if vs.len() == 0 {
        Ok(Seq::empty())
    } else {
        match patterns_given(c, vs.drop_last()) {
            Err(e) => Err(e),
            Ok(acc) => match pattern_given(exclusion_text(c[vs.len() - 1]), vs.last().0, vs.last().1) {
                Err(e) => Err(e),
                Ok(p) => Ok(put::<ExclusionPattern>(acc, p)),
            },
        }
    }
}

/// A fault stays the same, whatever comes after it.
proof fn patterns_fault_stays(c: Seq<ExclusionView>, vs: Seq<GlobVerdict>, more: Seq<GlobVerdict>)
    requires
        patterns_given(c, vs) is Err,
    ensures
        patterns_given(c, vs + more) == patterns_given(c, vs),
    decreases more.len(),
{
    if more.len() == 0 {
        assert(vs + more =~= vs);
    } else {
        patterns_fault_stays(c, vs, more.drop_last());
        assert((vs + more).drop_last() =~= vs + more.drop_last());
    }
}

/// Which globs of exclusions are accepted, where they mean the same on every system.
pub open spec fn exclusion_verdicts(c: Seq<ExclusionView>) -> Seq<GlobVerdict> {
    c.map_values(|e: ExclusionView| text_verdict(exclusion_text(e)))
}

/// Whether verdicts on the globs of exclusions are those that some system comes to.
pub open spec fn honest_exclusions(c: Seq<ExclusionView>, vs: Seq<GlobVerdict>) -> bool {
    &&& vs.len() == c.len()
    &&& forall|i: int| 0 <= i < c.len() ==> honest_text(exclusion_text(#[trigger] c[i]), vs[i])
}

/// The scope that a POM hands on, where it hands the dependency on at all.
pub open spec fn handed_on(d: PomDepView) -> Option<PomScope> {
    if d.optional {
        None
    } else {
        match d.scope {
            DependencyScope::Compile => Some(PomScope::Compile),
            DependencyScope::Runtime => Some(PomScope::Runtime),
            _ => None,
        }
    }
}

/// The classifier, or else the one that the type brings with it.
pub open spec fn classifier_or_implied(classifier: Option<Seq<char>>, artifact_type: Seq<char>) -> Option<Seq<char>> {
    match classifier {
        Some(c) => Some(c),
        None => implied_spec(artifact_type),
    }
}

/// What one more dependency comes to, given which of its globs are accepted.
pub open spec fn dep_given(d: PomDepView, vs: Seq<GlobVerdict>, acc: Deps) -> Result<Deps, PomFault<Seq<char>>> {
    match handed_on(d) {
        None => Ok(acc),
        Some(scope) => match d.version {
            None => Err(PomFault::MissingVersion(d.group, d.artifact)),
            Some(version) => match patterns_given(d.exclusions, vs) {
                Err(e) => Err(PomFault::Exclusion(e)),
                Ok(exclusions) => Ok(
                    assign::<ArtifactCoordinates, PomDependency>(
                        acc,
                        CoordView { group: d.group, artifact: d.artifact, version },
                        PomDependencyView {
                            scope,
                            artifact_type: d.artifact_type,
                            classifier: classifier_or_implied(d.classifier, d.artifact_type),
                            exclusions,
                        },
                    ),
                ),
            },
        },
    }
}

/// What the first dependencies come to, given which globs are accepted.
pub open spec fn deps_given(c: Seq<PomDepView>, vss: Seq<Seq<GlobVerdict>>) -> Result<Deps, PomFault<Seq<char>>>
    decreases vss.len(),
{
    if vss.len() == 0 {
        Ok(Seq::empty())
    } else {
        match deps_given(c, vss.drop_last()) {
            Err(e) => Err(e),
            Ok(acc) => dep_given(c[vss.len() - 1], vss.last(), acc),
        }
    }
}

/// A fault stays the same, whatever comes after it.
proof fn deps_fault_stays(c: Seq<PomDepView>, vss: Seq<Seq<GlobVerdict>>, more: Seq<Seq<GlobVerdict>>)
    requires
        deps_given(c, vss) is Err,
    ensures
        deps_given(c, vss + more) == deps_given(c, vss),
    decreases more.len(),
{
    if more.len() == 0 {
        assert(vss + more =~= vss);
    } else {
        deps_fault_stays(c, vss, more.drop_last());
        assert((vss + more).drop_last() =~= vss + more.drop_last());
    }
}

/// Which globs of dependencies are accepted, where they mean the same on every system.
pub open spec fn dep_verdicts(c: Seq<PomDepView>) -> Seq<Seq<GlobVerdict>> {
    c.map_values(|d: PomDepView| exclusion_verdicts(d.exclusions))
}

/// Whether verdicts on the globs of dependencies are those that some system comes to.
pub open spec fn honest_deps(c: Seq<PomDepView>, vss: Seq<Seq<GlobVerdict>>) -> bool {
    &&& vss.len() == c.len()
    &&& forall|i: int| 0 <= i < c.len() ==> honest_exclusions((#[trigger] c[i]).exclusions, vss[i])
}

/// The dependencies of a POM, with managed versions.
pub open spec fn versioned(pom: PomView) -> Seq<PomDepView> {
    match pom.managed {
        Some(m) => fill_versions(pom.dependencies, m),
        None => pom.dependencies,
    }
}

/// What the dependencies of a POM come to, given which globs are accepted.
pub open spec fn pom_deps_given(x: XmlView, vss: Seq<Seq<GlobVerdict>>) -> Result<Deps, PomFault<Seq<char>>> {
    match read_pom(x) {
        None => Err(PomFault::Unreadable),
        Some(pom) => deps_given(versioned(pom), vss),
    }
}

/// The dependencies of a POM that can be read, with managed versions.
pub open spec fn declared(x: XmlView) -> Seq<PomDepView> {
    match read_pom(x) {
        Some(pom) => versioned(pom),
        None => Seq::empty(),
    }
}

/// What the dependencies of a POM come to.
pub open spec fn pom_deps_spec(x: XmlView) -> Result<Deps, PomFault<Seq<char>>> {
    pom_deps_given(x, dep_verdicts(declared(x)))
}

/// Whether the exclusions of a POM mean the same on every system.
pub open spec fn portable_pom(x: XmlView) -> bool {
    forall|i: int, j: int|
        0 <= i < declared(x).len() && 0 <= j < declared(x)[i].exclusions.len() ==> portable_text(
            exclusion_text(#[trigger] declared(x)[i].exclusions[j]),
        )
}

/// Where exclusions mean the same on every system, all systems come to one verdict.
pub proof fn portable_dep_verdicts(x: XmlView, vss: Seq<Seq<GlobVerdict>>)
    requires
        portable_pom(x),
        honest_deps(declared(x), vss),
    ensures
        vss == dep_verdicts(declared(x)),
{
    let c = declared(x);
    assert forall|i: int| 0 <= i < c.len() implies vss[i] == dep_verdicts(c)[i] by {
        let e = c[i].exclusions;
        assert(honest_exclusions(e, vss[i]));
        assert forall|j: int| 0 <= j < e.len() implies vss[i][j] == exclusion_verdicts(e)[j] by {
            assert(portable_text(exclusion_text(declared(x)[i].exclusions[j])));
            assert(honest_text(exclusion_text(e[j]), vss[i][j]));
        }
        assert(vss[i] =~= exclusion_verdicts(e));
    }
    assert(vss =~= dep_verdicts(c));
}

pub(crate) fn copy_version(v: &Option<ArtifactVersion>) -> (r: Option<ArtifactVersion>)
    ensures
        version_text(r) == version_text(*v),
{
    match v {
        Some(x) => Some(x.clone()),
        None => None,
    }
}

/// Gives dependencies without a version the managed one.
fn fill(deps: &mut Vec<Dependency>, managed: &Vec<Dependency>)
    ensures
        views(final(deps)@) == fill_versions(views(old(deps)@), views(managed@)),
{
    let ghost start = views(deps@);
    let ghost mv = views(managed@);
    let mut k: usize = 0;
    assert(mv.take(0) =~= Seq::empty());
    while k < managed.len()
        invariant
            k <= managed@.len(),
            mv == views(managed@),
            views(deps@) == fill_versions(start, mv.take(k as int)),
        decreases managed@.len() - k,
    {
        let m = &managed[k];
        let ghost dv = views(deps@);
        assert(mv[k as int] == m@);
        assert(mv.take(k + 1).drop_last() =~= mv.take(k as int));
        let mut i: usize = 0;
        while i < deps.len() && !(deps[i].version.is_none() && crate::text::same(
            deps[i].group_id.as_str(),
            m.group_id.as_str(),
        ) && crate::text::same(deps[i].artifact_id.as_str(), m.artifact_id.as_str()))
            invariant
                i <= deps@.len(),
                dv == views(deps@),
                unversioned(dv, m@.group, m@.artifact, 0) == unversioned(dv, m@.group, m@.artifact, i as int),
            decreases deps@.len() - i,
        {
            assert(dv[i as int] == deps@[i as int]@);
            i = i + 1;
        }
        if i < deps.len() {
            assert(dv[i as int] == deps@[i as int]@);
            deps[i].version = copy_version(&m.version);
            assert(views(deps@) =~= fill_one(dv, m@));
        }
        k = k + 1;
    }
    assert(mv.take(k as int) =~= mv);
}

proof fn unversioned_props(deps: Seq<PomDepView>, group: Seq<char>, artifact: Seq<char>, from: int)
    requires
        0 <= from <= deps.len(),
    ensures
        from <= unversioned(deps, group, artifact, from) <= deps.len(),
        ({
            let i = unversioned(deps, group, artifact, from);
            i < deps.len() ==> deps[i].version is None && deps[i].group == group && deps[i].artifact == artifact
        }),
    decreases deps.len() - from,
{
    if from < deps.len() {
        unversioned_props(deps, group, artifact, from + 1);
    }
}

/// Managed versions fill gaps only: a dependency that has a version keeps it, and of one that
/// has none nothing but the version changes.
pub proof fn managed_versions_fill_gaps(deps: Seq<PomDepView>, managed: Seq<PomDepView>, i: int)
    requires
        0 <= i < deps.len(),
    ensures
        fill_versions(deps, managed).len() == deps.len(),
        deps[i].version is Some ==> fill_versions(deps, managed)[i] == deps[i],
        (PomDepView { version: None, ..fill_versions(deps, managed)[i] }) == (PomDepView {
            version: None,
            ..deps[i]
        }),
    decreases managed.len(),
{
    if managed.len() > 0 {
        managed_versions_fill_gaps(deps, managed.drop_last(), i);
        let m = managed.last();
        unversioned_props(fill_versions(deps, managed.drop_last()), m.group, m.artifact, 0);
    }
}

fn collect_patterns(list: &Vec<Exclusion>) -> (r: (
    Result<OrdSet<ExclusionPattern>, PatternError>,
    Ghost<Seq<GlobVerdict>>,
))
    ensures
        honest_exclusions(views(list@), r.1@),
        match r.0 {
            Ok(p) => patterns_given(views(list@), r.1@) == Ok::<Seq<PatternView>, PatternError>(p@),
            Err(e) => patterns_given(views(list@), r.1@) == Err::<Seq<PatternView>, PatternError>(e),
        },
{
    let ghost c = views(list@);
    let ghost mut vs: Seq<GlobVerdict> = Seq::empty();
    let mut out: OrdSet<ExclusionPattern> = OrdSet::new();
    let mut i: usize = 0;
    while i < list.len()
        invariant
            i <= list@.len(),
            c == views(list@),
            vs.len() == i,
            forall|k: int| 0 <= k < i ==> honest_text(exclusion_text(#[trigger] c[k]), vs[k]),
            patterns_given(c, vs) == Ok::<Seq<PatternView>, PatternError>(out@),
        decreases list@.len() - i,
    {
        assert(c[i as int] == list@[i as int]@);
        let (p, v) = list[i].read_pattern();
        let ghost ws = vs.push(v@);
        assert(ws.drop_last() =~= vs);
        match p {
            Ok(q) => {
                out.insert(q);
            },
            Err(e) => {
                let ghost more = exclusion_verdicts(c).skip(ws.len() as int);
                proof {
                    patterns_fault_stays(c, ws, more);
                    assert(honest_exclusions(c, ws + more));
                }
                return (Err(e), Ghost(ws + more));
            },
        }
        proof {
            vs = ws;
        }
        i = i + 1;
    }
    (Ok(out), Ghost(vs))
}

fn scope_handed_on(d: &Dependency) -> (r: Option<PomScope>)
    ensures
        r == handed_on(d@),
{
    if d.optional {
        return None;
    }
    match d.scope {
        DependencyScope::Compile => Some(PomScope::Compile),
        DependencyScope::Runtime => Some(PomScope::Runtime),
        _ => None,
    }
}

/// The classifier, or else the one that the type brings with it.
pub fn effective_classifier(classifier: &Option<String>, artifact_type: &ArtifactType) -> (r: Option<String>)
    ensures
        opt_text(r) == classifier_or_implied(opt_text(*classifier), artifact_type@),
{
    match classifier {
        Some(c) => Some(c.clone()),
        None => match artifact_type.implied_classifier() {
            Some(c) => Some(c.to_owned()),
            None => None,
        },
    }
}

/// Takes in one more dependency of a POM.
fn take_dep(dep: &Dependency, out: &mut OrdMap<ArtifactCoordinates, PomDependency>) -> (r: (
    Ghost<Seq<GlobVerdict>>,
    Option<PomError>,
))
    ensures
        honest_exclusions(dep@.exclusions, r.0@),
        match r.1 {
            None => dep_given(dep@, r.0@, old(out)@) == Ok::<Deps, PomFault<Seq<char>>>(final(out)@),
            Some(e) => dep_given(dep@, r.0@, old(out)@) == Err::<Deps, PomFault<Seq<char>>>(e@),
        },
{
    let (patterns, vs) = collect_patterns(&dep.exclusions);
    let scope = match scope_handed_on(dep) {
        None => {
            return (vs, None);
        },
        Some(s) => s,
    };
    let version = match &dep.version {
        None => {
            let group = dep.group_id.as_str().to_owned();
            return (vs, Some(PomFault::MissingVersion(group, dep.artifact_id.as_str().to_owned())));
        },
        Some(v) => v.clone(),
    };
    match patterns {
        Err(e) => (vs, Some(PomFault::Exclusion(e))),
        Ok(exclusions) => {
            let artifact_type = ArtifactType::new(dep.artifact_type.clone());
            let classifier = effective_classifier(&dep.classifier, &artifact_type);
            let coord = ArtifactCoordinates::new(dep.group_id.clone(), dep.artifact_id.clone(), version);
            out.insert(coord, PomDependency { scope, artifact_type, classifier, exclusions });
            (vs, None)
        },
    }
}

/// What a result is, its texts as characters.
pub open spec fn deps_view(r: Result<OrdMap<ArtifactCoordinates, PomDependency>, PomError>) -> Result<
    Deps,
    PomFault<Seq<char>>,
> {
    match r {
        Ok(m) => Ok(m@),
        Err(e) => Err(e@),
    }
}

/// What the dependencies of a POM come to: those that it hands on, with managed versions.
pub fn extract_pom_deps(pom: &XmlFile) -> (r: Result<OrdMap<ArtifactCoordinates, PomDependency>, PomError>)
    ensures
        exists|vss: Seq<Seq<GlobVerdict>>|
            #[trigger] honest_deps(declared(pom.view()), vss) && deps_view(r) == pom_deps_given(pom.view(), vss),
        portable_pom(pom.view()) ==> deps_view(r) == pom_deps_spec(pom.view()),
{
    let ghost x = pom.view();
    let ghost mut vss: Seq<Seq<GlobVerdict>> = Seq::empty();
    let parsed: Pom = match pom.root().read_as::<Pom>() {
        Ok(p) => p,
        Err(_) => {
            assert(honest_deps(declared(x), vss));
            return Err(PomFault::Unreadable);
        },
    };
    let ghost pv = parsed@;
    let mut deps = parsed.dependencies;
    if let Some(m) = &parsed.dependency_management {
        fill(&mut deps, &m.dependencies);
    }
    let ghost c = views(deps@);
    assert(c == declared(x));
    let mut out: OrdMap<ArtifactCoordinates, PomDependency> = OrdMap::new();
    let mut i: usize = 0;
    while i < deps.len()
        invariant
            i <= deps@.len(),
            c == views(deps@),
            c == declared(x),
            x == pom.view(),
            forall|ws: Seq<Seq<GlobVerdict>>| #[trigger] pom_deps_given(x, ws) == deps_given(c, ws),
            vss.len() == i,
            forall|k: int| 0 <= k < i ==> honest_exclusions((#[trigger] c[k]).exclusions, vss[k]),
            deps_given(c, vss) == Ok::<Deps, PomFault<Seq<char>>>(out@),
        decreases deps@.len() - i,
    {
        assert(c[i as int] == deps@[i as int]@);
        let (vs, fault) = take_dep(&deps[i], &mut out);
        let ghost wss = vss.push(vs@);
        assert(wss.drop_last() =~= vss);
        if let Some(e) = fault {
            proof {
                let more = dep_verdicts(c).skip(wss.len() as int);
                deps_fault_stays(c, wss, more);
                assert forall|k: int| 0 <= k < c.len() implies honest_exclusions(
                    (#[trigger] c[k]).exclusions,
                    (wss + more)[k],
                ) by {
                    if k >= wss.len() {
                        assert((wss + more)[k] == exclusion_verdicts(c[k].exclusions));
                    }
                }
                assert(honest_deps(declared(x), wss + more));
                if portable_pom(x) {
                    portable_dep_verdicts(x, wss + more);
                }
            }
            return Err(e);
        }
        proof {
            vss = wss;
        }
        i = i + 1;
    }
    proof {
        assert(honest_deps(declared(x), vss));
        if portable_pom(x) {
            portable_dep_verdicts(x, vss);
        }
    }
    Ok(out)
}

/// The way from the manifest to an artifact.
#[derive(Debug, PartialEq, Eq)]
pub struct LoaderBranch {
    pub depth: usize,
    pub effective_scope: Scope,
    pub exclusions: OrdSet<ExclusionPattern>,
    pub position: Vec<usize>,
}

/// A branch, its parts as sequences.
pub struct BranchView {
    pub depth: usize,
    pub effective_scope: Scope,
    pub exclusions: Seq<PatternView>,
    pub position: Seq<usize>,
}

impl View for LoaderBranch {
    type V = BranchView;

    open spec fn view(&self) -> BranchView {
        BranchView {
            depth: self.depth,
            effective_scope: self.effective_scope,
            exclusions: self.exclusions@,
            position: self.position@,
        }
    }
}

/// The patterns of one set together with those of another.
pub open spec fn both_patterns(a: Seq<PatternView>, b: Seq<PatternView>) -> Seq<PatternView>
    decreases b.len(),
{
    if b.len() == 0 {
        a
    } else {
        put::<ExclusionPattern>(both_patterns(a, b.drop_last()), b.last())
    }
}

/// The branch to the `index`-th dependency of what a branch leads to.
pub open spec fn child_spec(b: BranchView, index: usize, extra: Seq<PatternView>, scope: PomScope) -> BranchView {
    BranchView {
        depth: (b.depth + 1) as usize,
        effective_scope: mediate_spec(b.effective_scope, scope),
        exclusions: both_patterns(b.exclusions, extra),
        position: b.position.push(index),
    }
}

/// Whether a branch leaves an artifact out.
pub open spec fn excludes(exclusions: Seq<PatternView>, coord: CoordView) -> bool {
    exists|i: int| 0 <= i < exclusions.len() && pattern_matches(#[trigger] exclusions[i], coord)
}

/// Whether patterns mean the same on every system.
pub open spec fn portable_set(exclusions: Seq<PatternView>) -> bool {
    forall|i: int| 0 <= i < exclusions.len() ==> portable_pattern(#[trigger] exclusions[i])
}

/// Whether answers to which patterns match are those that some system comes to.
pub open spec fn honest_matches(exclusions: Seq<PatternView>, coord: CoordView, m: Seq<bool>) -> bool {
    &&& m.len() == exclusions.len()
    &&& forall|i: int|
        0 <= i < exclusions.len() && portable_pattern(#[trigger] exclusions[i]) ==> m[i] == pattern_matches(
            exclusions[i],
            coord,
        )
}

/// Whether some system comes to an answer to whether any of the patterns matches.
pub open spec fn may_exclude(exclusions: Seq<PatternView>, coord: CoordView, r: bool) -> bool {
    exists|m: Seq<bool>| #[trigger] honest_matches(exclusions, coord, m) && r == m.contains(true)
}

/// Where patterns mean the same on every system, there is one answer.
pub proof fn portable_exclusion_is_decided(exclusions: Seq<PatternView>, coord: CoordView, r: bool)
    requires
        portable_set(exclusions),
        may_exclude(exclusions, coord, r),
    ensures
        r == excludes(exclusions, coord),
{
    let m = choose|m: Seq<bool>| #[trigger] honest_matches(exclusions, coord, m) && r == m.contains(true);
    if r {
        let i = choose|i: int| 0 <= i < m.len() && m[i] == true;
        assert(portable_pattern(exclusions[i]));
        assert(pattern_matches(exclusions[i], coord));
    }
    if excludes(exclusions, coord) {
        let i = choose|i: int| 0 <= i < exclusions.len() && pattern_matches(#[trigger] exclusions[i], coord);
        assert(portable_pattern(exclusions[i]));
        assert(m[i] == true);
    }
}

/// Whether any of the patterns matches.
pub fn any_matches(exclusions: &OrdSet<ExclusionPattern>, coord: &ArtifactCoordinates) -> (r: bool)
    ensures
        may_exclude(exclusions@, coord@, r),
        portable_set(exclusions@) ==> r == excludes(exclusions@, coord@),
        exclusions@.len() == 0 ==> !r,
{
    let ghost e = exclusions@;
    let ghost c = coord@;
    let ghost mut m: Seq<bool> = Seq::empty();
    let mut i: usize = 0;
    while i < exclusions.len()
        invariant
            i <= e.len(),
            e == exclusions@,
            c == coord@,
            m.len() == i,
            forall|k: int| 0 <= k < i ==> !m[k],
            forall|k: int|
                0 <= k < i && portable_pattern(#[trigger] e[k]) ==> m[k] == pattern_matches(e[k], c),
        decreases e.len() - i,
    {
        let hit = exclusions.at(i).matches(coord);
        let ghost w = m.push(hit);
        if hit {
            proof {
                let rest = Seq::new((e.len() - w.len()) as nat, |k: int| pattern_matches(e[w.len() + k], c));
                let all = w + rest;
                assert(honest_matches(e, c, all));
                assert(all[i as int]);
                assert(all.contains(true));
                if portable_set(e) {
                    portable_exclusion_is_decided(e, c, true);
                }
            }
            return true;
        }
        proof {
            m = w;
        }
        i = i + 1;
    }
    proof {
        assert(honest_matches(e, c, m));
        assert(!m.contains(true));
        if portable_set(e) {
            portable_exclusion_is_decided(e, c, false);
        }
    }
    false
}

impl LoaderBranch {
    /// The branch to the dependency of the manifest at a place.
    pub fn new(exclusions: OrdSet<ExclusionPattern>, position: usize, scope: Scope) -> (r: Self)
        ensures
            r@ == (BranchView {
                depth: 0,
                effective_scope: scope,
                exclusions: exclusions@,
                position: seq![position],
            }),
    {
        let mut places: Vec<usize> = Vec::new();
        places.push(position);
        assert(places@ =~= seq![position]);
        LoaderBranch { depth: 0, effective_scope: scope, exclusions, position: places }
    }

    /// The branch to the `index`-th dependency of what this branch leads to.
    pub fn child(&self, index: usize, extra: &OrdSet<ExclusionPattern>, pom_scope: PomScope) -> (r: Self)
        requires
            self.depth < usize::MAX,
        ensures
            r@ == child_spec(self@, index, extra@, pom_scope),
    {
        let mut exclusions = self.exclusions.duplicate();
        let ghost e = extra@;
        let mut i: usize = 0;
        assert(e.take(0) =~= Seq::empty());
        while i < extra.len()
            invariant
                i <= extra@.len(),
                e == extra@,
                exclusions@ == both_patterns(self.exclusions@, e.take(i as int)),
            decreases extra@.len() - i,
        {
            assert(e.take(i + 1).drop_last() =~= e.take(i as int));
            exclusions.insert(extra.at(i).clone());
            i = i + 1;
        }
        assert(e.take(i as int) =~= e);
        let mut position = copy_numbers(&self.position);
        position.push(index);
        LoaderBranch {
            depth: self.depth + 1,
            effective_scope: mediate(self.effective_scope, pom_scope),
            exclusions,
            position,
        }
    }

    /// Whether the branch leaves an artifact out.
    pub fn is_excluded(&self, coord: &ArtifactCoordinates) -> (r: bool)
        ensures
            may_exclude(self.exclusions@, coord@, r),
            portable_set(self.exclusions@) ==> r == excludes(self.exclusions@, coord@),
            self.exclusions@.len() == 0 ==> !r,
    {
        any_matches(&self.exclusions, coord)
    }

    /// How near what the branch leads to is to the manifest.
    pub fn rank(&self) -> (r: Rank)
        ensures
            r@ == (RankView { depth: self.depth, position: self.position@ }),
    {
        Rank { depth: self.depth, position: copy_numbers(&self.position) }
    }
}

/// What every branch keeps to: as many places as steps, and one more for the manifest.
pub open spec fn branch_wf(b: BranchView) -> bool {
    &&& b.position.len() == b.depth + 1
    &&& crate::order::sorted::<ExclusionPattern>(b.exclusions)
    &&& forall|i: int| 0 <= i < b.exclusions.len() ==> pattern_wf(#[trigger] b.exclusions[i])
}

/// Whether any of the patterns gets a yes, whatever the answers are.
pub open spec fn excludes_by(exclusions: Seq<PatternView>, answer: spec_fn(PatternView) -> bool) -> bool {
    exists|i: int| 0 <= i < exclusions.len() && answer(#[trigger] exclusions[i])
}

/// A child is one step farther from the manifest than its parent, with its own place added to
/// the parent's, never in a wider scope, and leaves out what its parent leaves out, whatever the
/// system makes of the patterns. What every branch keeps to, it keeps to.
pub proof fn children_are_farther(
    b: BranchView,
    index: usize,
    extra: Seq<PatternView>,
    scope: PomScope,
    answer: spec_fn(PatternView) -> bool,
)
    requires
        b.depth < usize::MAX,
        branch_wf(b),
        forall|i: int| 0 <= i < extra.len() ==> pattern_wf(#[trigger] extra[i]),
    ensures
        ({
            let child = child_spec(b, index, extra, scope);
            &&& branch_wf(child)
            &&& child.depth == b.depth + 1
            &&& child.position == b.position.push(index)
            &&& nearer(branch_rank(b), branch_rank(child))
            &&& child.effective_scope == mediate_spec(b.effective_scope, scope)
            &&& crate::manifest::scope_rank(child.effective_scope) <= crate::manifest::scope_rank(b.effective_scope)
            &&& forall|p: PatternView| #[trigger]
                child.exclusions.contains(p) <==> b.exclusions.contains(p) || extra.contains(p)
            &&& excludes_by(b.exclusions, answer) ==> excludes_by(child.exclusions, answer)
        }),
{
    both_patterns_are_the_union(b.exclusions, extra);
    let all = both_patterns(b.exclusions, extra);
    assert forall|i: int| 0 <= i < all.len() implies pattern_wf(#[trigger] all[i]) by {
        assert(all.contains(all[i]));
        if b.exclusions.contains(all[i]) {
            let k = choose|k: int| 0 <= k < b.exclusions.len() && b.exclusions[k] == all[i];
            assert(pattern_wf(b.exclusions[k]));
        } else {
            let k = choose|k: int| 0 <= k < extra.len() && extra[k] == all[i];
            assert(pattern_wf(extra[k]));
        }
    }
    if excludes_by(b.exclusions, answer) {
        let i = choose|i: int| 0 <= i < b.exclusions.len() && answer(#[trigger] b.exclusions[i]);
        assert(b.exclusions.contains(b.exclusions[i]));
        assert(all.contains(b.exclusions[i]));
        let j = choose|j: int| 0 <= j < all.len() && all[j] == b.exclusions[i];
        assert(answer(all[j]));
    }
}

/// Where patterns mean the same on every system, a child leaves out what its parent leaves out.
pub proof fn children_exclude_as_much(b: BranchView, index: usize, extra: Seq<PatternView>, scope: PomScope, c: CoordView)
    requires
        b.depth < usize::MAX,
        branch_wf(b),
        forall|i: int| 0 <= i < extra.len() ==> pattern_wf(#[trigger] extra[i]),
    ensures
        excludes(b.exclusions, c) ==> excludes(child_spec(b, index, extra, scope).exclusions, c),
{
    let answer = |p: PatternView| pattern_matches(p, c);
    children_are_farther(b, index, extra, scope, answer);
    let child = child_spec(b, index, extra, scope).exclusions;
    if excludes(b.exclusions, c) {
        let i = choose|i: int| 0 <= i < b.exclusions.len() && pattern_matches(#[trigger] b.exclusions[i], c);
        assert(answer(b.exclusions[i]));
        let j = choose|j: int| 0 <= j < child.len() && answer(#[trigger] child[j]);
        assert(pattern_matches(child[j], c));
    }
}

/// Patterns of one sort code are the same.
proof fn pattern_code_tells(p: PatternView, q: PatternView)
    requires
        pattern_wf(p),
        pattern_wf(q),
        ExclusionPattern::code(p) == ExclusionPattern::code(q),
    ensures
        p == q,
{
    let e = Seq::<u64>::empty();
    let a = crate::types::pattern_text(p);
    let b = crate::types::pattern_text(q);
    assert(crate::order::text_code(a) + e =~= crate::order::text_code(a));
    assert(crate::order::text_code(b) + e =~= crate::order::text_code(b));
    crate::order::text_code_parts(a, b, e, e);
    crate::types::pattern_round_trip(p);
    crate::types::pattern_round_trip(q);
}

proof fn both_patterns_are_the_union(a: Seq<PatternView>, b: Seq<PatternView>)
    requires
        crate::order::sorted::<ExclusionPattern>(a),
        forall|i: int| 0 <= i < a.len() ==> pattern_wf(#[trigger] a[i]),
        forall|i: int| 0 <= i < b.len() ==> pattern_wf(#[trigger] b[i]),
    ensures
        crate::order::sorted::<ExclusionPattern>(both_patterns(a, b)),
        forall|p: PatternView| #[trigger] both_patterns(a, b).contains(p) <==> a.contains(p) || b.contains(p),
    decreases b.len(),
{
    let r = both_patterns(a, b);
    if b.len() > 0 {
        let d = b.drop_last();
        let x = b.last();
        assert(b[b.len() - 1] == x);
        assert forall|i: int| 0 <= i < d.len() implies pattern_wf(#[trigger] d[i]) by {
            assert(d[i] == b[i]);
        }
        both_patterns_are_the_union(a, d);
        let m = both_patterns(a, d);
        crate::order::put_keeps_order::<ExclusionPattern>(m, x);
        assert(r.contains(x)) by {
            let k = choose|k: int|
                0 <= k < r.len() && ExclusionPattern::code(#[trigger] r[k]) == ExclusionPattern::code(x);
            assert(r.contains(r[k]));
            if r[k] != x {
                assert(m.contains(r[k]));
                if a.contains(r[k]) {
                    let i = choose|i: int| 0 <= i < a.len() && a[i] == r[k];
                    assert(pattern_wf(a[i]));
                } else {
                    let i = choose|i: int| 0 <= i < d.len() && d[i] == r[k];
                    assert(pattern_wf(d[i]));
                }
                pattern_code_tells(r[k], x);
            }
        }
        assert forall|p: PatternView| #[trigger] r.contains(p) <==> a.contains(p) || b.contains(p) by {
            if b.contains(p) && p != x {
                let i = choose|i: int| 0 <= i < b.len() && b[i] == p;
                assert(d[i] == p);
                assert(d.contains(p));
            }
            if d.contains(p) {
                let i = choose|i: int| 0 <= i < d.len() && d[i] == p;
                assert(b[i] == p);
            }
            if a.contains(p) || d.contains(p) {
                assert(m.contains(p));
            }
            if r.contains(p) && p != x {
                assert(m.contains(p));
            }
        }
    }
}

/// A branch from the manifest keeps to what every branch keeps to.
pub proof fn first_branch_is_in_form(exclusions: Seq<PatternView>, position: usize, scope: Scope)
    requires
        crate::order::sorted::<ExclusionPattern>(exclusions),
        forall|i: int| 0 <= i < exclusions.len() ==> pattern_wf(#[trigger] exclusions[i]),
    ensures
        branch_wf(
            BranchView { depth: 0, effective_scope: scope, exclusions, position: seq![position] },
        ),
{
}

/// An artifact to be loaded.
#[derive(Debug, PartialEq, Eq)]
pub struct Load {
    pub coord: ArtifactCoordinates,
    pub artifact_type: ArtifactType,
    pub classifier: Option<String>,
    pub branch: LoaderBranch,
}

/// An artifact to be loaded, its texts as characters.
pub struct LoadView {
    pub coord: CoordView,
    pub artifact_type: Seq<char>,
    pub classifier: Option<Seq<char>>,
    pub branch: BranchView,
}

impl View for Load {
    type V = LoadView;

    open spec fn view(&self) -> LoadView {
        LoadView {
            coord: self.coord@,
            artifact_type: self.artifact_type@,
            classifier: opt_text(self.classifier),
            branch: self.branch@,
        }
    }
}

/// What is loaded for the first dependencies of what a branch leads to, given which of
/// them are left out. The place of a dependency counts those that are left out.
pub open spec fn loads_spec(b: BranchView, deps: Deps, excluded: Seq<bool>) -> Seq<LoadView>
    decreases deps.len(),
{
    if deps.len() == 0 {
        Seq::empty()
    } else {
        let n = deps.len() - 1;
        let before = loads_spec(b, deps.drop_last(), excluded);
        let (coord, d) = deps.last();
        if excluded[n] {
            before
        } else {
            before.push(
                LoadView {
                    coord,
                    artifact_type: d.artifact_type,
                    classifier: d.classifier,
                    branch: child_spec(b, n as usize, d.exclusions, d.scope),
                },
            )
        }
    }
}

/// Which dependencies a branch leaves out.
pub fn excluded_deps(branch: &LoaderBranch, deps: &OrdMap<ArtifactCoordinates, PomDependency>) -> (r: Vec<bool>)
    ensures
        leaves_out(branch.exclusions@, deps@, r@),
{
    let mut out: Vec<bool> = Vec::new();
    let mut i: usize = 0;
    while i < deps.len()
        invariant
            i <= deps@.len(),
            out@.len() == i,
            forall|k: int|
                0 <= k < i ==> {
                    let c = (#[trigger] deps@[k]).0;
                    &&& may_exclude(branch.exclusions@, c, out@[k])
                    &&& portable_set(branch.exclusions@) ==> out@[k] == excludes(branch.exclusions@, c)
                },
        decreases deps@.len() - i,
    {
        let (coord, _) = deps.at(i);
        out.push(branch.is_excluded(coord));
        i = i + 1;
    }
    out
}

/// What is loaded for the dependencies of what a branch leads to, given which of them
/// are left out.
pub fn loads_given(
    branch: &LoaderBranch,
    deps: &OrdMap<ArtifactCoordinates, PomDependency>,
    excluded: &Vec<bool>,
) -> (r: Vec<Load>)
    requires
        branch.depth < usize::MAX,
        excluded@.len() == deps@.len(),
    ensures
        views(r@) == loads_spec(branch@, deps@, excluded@),
{
    let ghost d = deps@;
    let mut out: Vec<Load> = Vec::new();
    let mut i: usize = 0;
    assert(d.take(0) =~= Seq::empty());
    assert(views(out@) =~= Seq::empty());
    while i < deps.len()
        invariant
            i <= d.len(),
            d == deps@,
            excluded@.len() == d.len(),
            branch.depth < usize::MAX,
            views(out@) == loads_spec(branch@, d.take(i as int), excluded@),
        decreases d.len() - i,
    {
        assert(d.take(i + 1).drop_last() =~= d.take(i as int));
        if !excluded[i] {
            let (coord, dep) = deps.at(i);
            let ghost before = out@;
            out.push(
                Load {
                    coord: coord.clone(),
                    artifact_type: dep.artifact_type.clone(),
                    classifier: copy_opt(&dep.classifier),
                    branch: branch.child(i, &dep.exclusions, dep.scope),
                },
            );
            assert(views(out@) =~= views(before).push(out@.last()@));
        }
        i = i + 1;
    }
    assert(d.take(i as int) =~= d);
    out
}

/// What is loaded for the dependencies of what a branch leads to.
pub fn loads(branch: &LoaderBranch, deps: &OrdMap<ArtifactCoordinates, PomDependency>) -> (r: Vec<Load>)
    requires
        branch.depth < usize::MAX,
    ensures
        exists|excluded: Seq<bool>| #[trigger] leaves_out(branch.exclusions@, deps@, excluded) && views(r@)
            == loads_spec(branch@, deps@, excluded),
{
    let excluded = excluded_deps(branch, deps);
    assert(leaves_out(branch.exclusions@, deps@, excluded@));
    loads_given(branch, deps, &excluded)
}

/// Whether flags that say which dependencies are left out are those that some system comes to.
pub open spec fn leaves_out(exclusions: Seq<PatternView>, deps: Deps, excluded: Seq<bool>) -> bool {
    &&& excluded.len() == deps.len()
    &&& forall|i: int|
        0 <= i < deps.len() ==> {
            let c = (#[trigger] deps[i]).0;
            &&& may_exclude(exclusions, c, excluded[i])
            &&& portable_set(exclusions) ==> excluded[i] == excludes(exclusions, c)
        }
}

/// An artifact whose POM was read.
#[derive(Debug, PartialEq, Eq)]
pub struct ResolvedArtifact {
    pub coord: ArtifactCoordinates,
    /// The repository that has it.
    pub source: String,
    /// Where it is in the repository, without an extension.
    pub artifact_path: String,
    pub artifact_type: ArtifactType,
    pub classifier: Option<String>,
    pub effective_scope: Scope,
    pub dependencies: OrdMap<ArtifactCoordinates, PomDependency>,
}

/// A resolved artifact, its texts as characters.
pub struct ResolvedView {
    pub coord: CoordView,
    pub source: Seq<char>,
    pub artifact_path: Seq<char>,
    pub artifact_type: Seq<char>,
    pub classifier: Option<Seq<char>>,
    pub effective_scope: Scope,
    pub dependencies: Deps,
}

impl View for ResolvedArtifact {
    type V = ResolvedView;

    open spec fn view(&self) -> ResolvedView {
        ResolvedView {
            coord: self.coord@,
            source: self.source@,
            artifact_path: self.artifact_path@,
            artifact_type: self.artifact_type@,
            classifier: opt_text(self.classifier),
            effective_scope: self.effective_scope,
            dependencies: self.dependencies@,
        }
    }
}

/// The key of a resolved artifact.
pub open spec fn resolved_key(a: ResolvedView) -> KeyView {
    KeyView {
        group: a.coord.group,
        artifact: a.coord.artifact,
        artifact_type: a.artifact_type,
        classifier: a.classifier,
    }
}

impl ResolvedArtifact {
    pub fn key(&self) -> (r: ArtifactKey)
        ensures
            r@ == resolved_key(self@),
    {
        self.coord.key(&self.artifact_type, &self.classifier)
    }
}

impl Duplicate for ResolvedArtifact {
    fn duplicate(&self) -> (r: Self) {
        ResolvedArtifact {
            coord: self.coord.clone(),
            source: self.source.clone(),
            artifact_path: self.artifact_path.clone(),
            artifact_type: self.artifact_type.clone(),
            classifier: copy_opt(&self.classifier),
            effective_scope: self.effective_scope,
            dependencies: self.dependencies.duplicate(),
        }
    }
}

/// Where an artifact is in a repository, without an extension, given the version that
/// its files carry.
pub open spec fn path_spec(c: CoordView, version: Seq<char>) -> Seq<char> {
    crate::text::replace_char_spec(c.group, '.', '/') + seq!['/'] + c.artifact + seq!['/'] + c.version + seq!['/']
        + c.artifact + seq!['-'] + version
}

/// What a version ends in that stands for the latest build.
pub const SNAPSHOT_SUFFIX: &'static str = "-SNAPSHOT";

/// The version of the files of a snapshot: that of the artifact, with the time and the
/// number of the build in place of the suffix.
pub open spec fn snapshot_version_spec(base: Seq<char>, timestamp: Seq<char>, build: Seq<char>) -> Seq<char> {
    base + seq!['-'] + timestamp + seq!['-'] + build
}

/// The version of the files of a snapshot.
pub fn snapshot_version(base: &str, timestamp: &str, build_number: &str) -> (r: String)
    ensures
        r@ == snapshot_version_spec(base@, timestamp@, build_number@),
{
    let mut s = base.to_owned();
    s.push('-');
    push_text(&mut s, timestamp);
    s.push('-');
    push_text(&mut s, build_number);
    assert(s@ =~= snapshot_version_spec(base@, timestamp@, build_number@));
    s
}

/// Where an artifact is in a repository, without an extension.
pub fn artifact_path(coord: &ArtifactCoordinates, version: &str) -> (r: String)
    ensures
        r@ == path_spec(coord@, version@),
{
    let mut s = coord.group_id().to_path();
    s.push('/');
    push_text(&mut s, coord.artifact_id().as_str());
    s.push('/');
    push_text(&mut s, coord.version().as_str());
    s.push('/');
    push_text(&mut s, coord.artifact_id().as_str());
    s.push('-');
    push_text(&mut s, version);
    assert(s@ =~= path_spec(coord@, version@));
    s
}

/// Where an artifact is looked for.
#[derive(Debug, PartialEq, Eq)]
pub enum Location<S> {
    /// At a path, without an extension.
    Path(S),
    /// Where the latest build of a snapshot is: the version without the suffix.
    Snapshot(S),
}

impl View for Location<String> {
    type V = Location<Seq<char>>;

    open spec fn view(&self) -> Location<Seq<char>> {
        match self {
            Location::Path(p) => Location::Path(p@),
            Location::Snapshot(b) => Location::Snapshot(b@),
        }
    }
}

/// Where an artifact is looked for.
pub open spec fn location_spec(c: CoordView) -> Location<Seq<char>> {
    let n = c.version.len() - SNAPSHOT_SUFFIX@.len();
    if crate::text::ends(c.version, SNAPSHOT_SUFFIX@) {
        Location::Snapshot(c.version.take(n))
    } else {
        Location::Path(path_spec(c, c.version))
    }
}

/// Where an artifact is looked for.
pub fn locate(coord: &ArtifactCoordinates) -> (r: Location<String>)
    requires
        crate::text::ends(coord@.version, SNAPSHOT_SUFFIX@) ==> !coord@.version.contains(':'),
    ensures
        r@ == location_spec(coord@),
{
    match strip_suffix(coord.version().as_str(), SNAPSHOT_SUFFIX) {
        Some(base) => Location::Snapshot(base),
        None => Location::Path(artifact_path(coord, coord.version().as_str())),
    }
}

/// Where the latest build of a snapshot is, given when it was built and its number.
pub fn snapshot_path(coord: &ArtifactCoordinates, base: &str, timestamp: &str, build_number: &str) -> (r: String)
    ensures
        r@ == path_spec(coord@, snapshot_version_spec(base@, timestamp@, build_number@)),
{
    artifact_path(coord, snapshot_version(base, timestamp, build_number).as_str())
}

/// Where the POM of an artifact is.
pub fn pom_path(path: &str) -> (r: String)
    ensures
        r@ == crate::paths::added_extension_spec(path@, MAVEN_POM_SUFFIX@),
{
    proof {
        reveal_strlit("pom");
        assert forall|i: int| 0 <= i < MAVEN_POM_SUFFIX@.len() implies MAVEN_POM_SUFFIX@[i] != '/' by {
        }
    }
    crate::paths::with_added_extension(path, MAVEN_POM_SUFFIX)
}

/// The path of the file of an artifact in its repository.
pub open spec fn asset_path_spec(a: ResolvedView) -> Seq<char> {
    let ext = extension_spec(a.artifact_type);
    match a.classifier {
        Some(c) => a.artifact_path + seq!['-'] + c + seq!['.'] + ext,
        None => crate::paths::added_extension_spec(a.artifact_path, ext),
    }
}

impl ResolvedArtifact {
    /// The path of the artifact's file in its repository.
    pub fn asset_path(&self) -> (r: String)
        requires
            self.classifier is None ==> !extension_spec(self.artifact_type@).contains('/'),
        ensures
            r@ == asset_path_spec(self@),
    {
        let ext = self.artifact_type.extension();
        match &self.classifier {
            Some(c) => {
                let mut s = self.artifact_path.clone();
                s.push('-');
                push_text(&mut s, c.as_str());
                s.push('.');
                push_text(&mut s, ext);
                assert(s@ =~= asset_path_spec(self@));
                s
            },
            None => crate::paths::with_added_extension(self.artifact_path.as_str(), ext),
        }
    }
}

/// What stands for an artifact while it is loaded.
#[derive(Debug, PartialEq, Eq)]
pub struct Ticket {
    pub key: ArtifactKey,
    pub classifier: Option<String>,
    pub rank: Rank,
}

/// A ticket, its texts as characters.
pub struct TicketView {
    pub key: KeyView,
    pub classifier: Option<Seq<char>>,
    pub rank: RankView,
}

impl View for Ticket {
    type V = TicketView;

    open spec fn view(&self) -> TicketView {
        TicketView { key: self.key@, classifier: opt_text(self.classifier), rank: self.rank@ }
    }
}

/// The key of an artifact of a type, with a classifier.
pub open spec fn load_key(c: CoordView, artifact_type: Seq<char>, classifier: Option<Seq<char>>) -> KeyView {
    KeyView { group: c.group, artifact: c.artifact, artifact_type, classifier }
}

/// How near what a branch leads to is to the manifest.
pub open spec fn branch_rank(b: BranchView) -> RankView {
    RankView { depth: b.depth, position: b.position }
}

/// What stands for an artifact while it is loaded: the classifier that its type implies
/// counts where it has none.
pub open spec fn ticket_spec(l: LoadView) -> TicketView {
    let classifier = classifier_or_implied(l.classifier, l.artifact_type);
    TicketView {
        key: load_key(l.coord, l.artifact_type, classifier),
        classifier,
        rank: branch_rank(l.branch),
    }
}

/// What a load comes to once the POM of the artifact was read.
pub open spec fn loaded_spec(l: LoadView, source: Seq<char>, path: Seq<char>, deps: Deps) -> (ResolvedView, RankView) {
    (
        ResolvedView {
            coord: l.coord,
            source,
            artifact_path: path,
            artifact_type: l.artifact_type,
            classifier: ticket_spec(l).classifier,
            effective_scope: l.branch.effective_scope,
            dependencies: deps,
        },
        branch_rank(l.branch),
    )
}

impl Load {
    /// What stands for the artifact while it is loaded.
    pub fn ticket(&self) -> (r: Ticket)
        ensures
            r@ == ticket_spec(self@),
    {
        let classifier = effective_classifier(&self.classifier, &self.artifact_type);
        let key = self.coord.key(&self.artifact_type, &classifier);
        Ticket { key, classifier, rank: self.branch.rank() }
    }

    /// The key under which a failure is stored: with the classifier that was asked for.
    pub fn failure_key(&self) -> (r: ArtifactKey)
        ensures
            r@ == load_key(self@.coord, self@.artifact_type, self@.classifier),
    {
        self.coord.key(&self.artifact_type, &self.classifier)
    }

    /// What the load comes to once the POM of the artifact was read.
    pub fn loaded(&self, source: &str, path: &str, deps: &OrdMap<ArtifactCoordinates, PomDependency>) -> (r: Resolved)
        ensures
            r@ == loaded_spec(self@, source@, path@, deps@),
    {
        let ticket = self.ticket();
        Resolved {
            artifact: ResolvedArtifact {
                coord: self.coord.clone(),
                source: source.to_owned(),
                artifact_path: path.to_owned(),
                artifact_type: self.artifact_type.clone(),
                classifier: ticket.classifier,
                effective_scope: self.branch.effective_scope,
                dependencies: deps.duplicate(),
            },
            rank: ticket.rank,
        }
    }
}

/// A loaded artifact has the key of its ticket.
pub proof fn loaded_artifact_has_its_key(l: LoadView, source: Seq<char>, path: Seq<char>, deps: Deps)
    ensures
        resolved_key(loaded_spec(l, source, path, deps).0) == ticket_spec(l).key,
        loaded_spec(l, source, path, deps).1 == ticket_spec(l).rank,
{
}

/// A dependency of which only the scope is known: what a lock keeps of it. It says in which
/// scopes an artifact is needed, and not what its POM leaves out.
pub open spec fn plain_dep(scope: PomScope) -> PomDependencyView {
    PomDependencyView { scope, artifact_type: "jar"@, classifier: None, exclusions: Seq::empty() }
}

/// Dependencies of which only the scopes are known.
pub open spec fn plain_deps(s: Seq<(CoordView, PomScope)>) -> Deps {
    s.map_values(|d: (CoordView, PomScope)| (d.0, plain_dep(d.1)))
}

/// The dependencies of an artifact that is in a lock.
pub open spec fn locked_deps(s: Seq<(CoordView, PomScope)>) -> Deps
    decreases s.len(),
{
    if s.len() == 0 {
        Seq::empty()
    } else {
        assign::<ArtifactCoordinates, PomDependency>(
            locked_deps(s.drop_last()),
            s.last().0,
            plain_dep(s.last().1),
        )
    }
}

fn dependencies_of_lock(m: &OrdMap<ArtifactCoordinates, PomScope>) -> (r: OrdMap<ArtifactCoordinates, PomDependency>)
    ensures
        r@ == locked_deps(m@),
{
    let ghost s = m@;
    let mut out: OrdMap<ArtifactCoordinates, PomDependency> = OrdMap::new();
    let mut i: usize = 0;
    assert(s.take(0) =~= Seq::empty());
    while i < m.len()
        invariant
            i <= s.len(),
            s == m@,
            out@ == locked_deps(s.take(i as int)),
        decreases s.len() - i,
    {
        assert(s.take(i + 1).drop_last() =~= s.take(i as int));
        let (coord, scope) = m.at(i);
        let dep = PomDependency {
            scope: *scope,
            artifact_type: ArtifactType::default(),
            classifier: None,
            exclusions: OrdSet::new(),
        };
        out.insert(coord.clone(), dep);
        i = i + 1;
    }
    assert(s.take(i as int) =~= s);
    out
}

/// The dependencies of a locked artifact are the same, in the same order and with the same
/// scopes, as in the lock.
pub proof fn locked_deps_are_kept(s: Seq<(CoordView, PomScope)>)
    requires
        crate::order::sorted::<Pair<ArtifactCoordinates, PomScope>>(s),
    ensures
        locked_deps(s) == plain_deps(s),
    decreases s.len(),
{
    let p = plain_deps(s);
    if s.len() > 0 {
        crate::order::sorted_drop_last::<Pair<ArtifactCoordinates, PomScope>>(s);
        locked_deps_are_kept(s.drop_last());
        assert forall|i: int, j: int| 0 <= i < j < p.len() implies less(
            Pair::<ArtifactCoordinates, PomDependency>::code(#[trigger] p[i]),
            Pair::<ArtifactCoordinates, PomDependency>::code(#[trigger] p[j]),
        ) by {
            crate::order::sorted_at::<Pair<ArtifactCoordinates, PomScope>>(s, i, j);
        }
        assert(plain_deps(s.drop_last()) =~= p.take(p.len() - 1));
        crate::order::assign_next::<ArtifactCoordinates, PomDependency>(p, p.len() - 1);
        assert(p.take(p.len() as int) =~= p);
    } else {
        assert(p =~= Seq::empty());
    }
}

/// The resolved artifact that a locked one stands for.
pub open spec fn from_locked(a: LockArtifactView) -> ResolvedView {
    ResolvedView {
        coord: a.coord,
        source: a.source,
        artifact_path: a.artifact_path,
        artifact_type: a.artifact_type,
        classifier: a.classifier,
        effective_scope: a.effective_scope,
        dependencies: locked_deps(a.dependencies),
    }
}

impl ResolvedArtifact {
    /// The resolved artifact that a locked one stands for.
    pub fn from_lock(a: &LockArtifact) -> (r: ResolvedArtifact)
        ensures
            r@ == from_locked(a@),
    {
        ResolvedArtifact {
            coord: a.coord.clone(),
            source: a.source.clone(),
            artifact_path: a.artifact_path.clone(),
            artifact_type: a.artifact_type.clone(),
            classifier: copy_opt(&a.classifier),
            effective_scope: a.effective_scope,
            dependencies: dependencies_of_lock(&a.dependencies),
        }
    }
}

/// An artifact together with how near it is.
#[derive(Debug, PartialEq, Eq)]
pub struct Resolved {
    pub artifact: ResolvedArtifact,
    pub rank: Rank,
}

impl View for Resolved {
    type V = (ResolvedView, RankView);

    open spec fn view(&self) -> (ResolvedView, RankView) {
        (self.artifact@, self.rank@)
    }
}

/// All that was resolved.
#[derive(Debug, PartialEq, Eq)]
pub struct ResolvedDependencies {
    pub artifacts: Vec<Resolved>,
}

/// What a locked artifact stands for, and how near it is.
pub open spec fn from_locked_ranked(a: LockArtifactView) -> (ResolvedView, RankView) {
    (from_locked(a), RankView { depth: a.depth, position: a.position })
}

impl ResolvedDependencies {
    /// What a lock says was resolved, in the order of the lock.
    pub fn from_lock(lock: &Lock) -> (r: ResolvedDependencies)
        ensures
            views(r.artifacts@) == lock@.artifacts.map_values(|a: LockArtifactView| from_locked_ranked(a)),
    {
        let mut artifacts: Vec<Resolved> = Vec::new();
        let mut i: usize = 0;
        while i < lock.artifacts.len()
            invariant
                i <= lock.artifacts@.len(),
                artifacts@.len() == i,
                forall|k: int| 0 <= k < i ==> (#[trigger] artifacts@[k])@ == from_locked_ranked(lock.artifacts@[k]),
            decreases lock.artifacts@.len() - i,
        {
            let a = lock.artifacts.at(i);
            artifacts.push(
                Resolved {
                    artifact: ResolvedArtifact::from_lock(a),
                    rank: Rank { depth: a.depth, position: copy_numbers(&a.position) },
                },
            );
            i = i + 1;
        }
        assert(views(artifacts@) =~= lock@.artifacts.map_values(|a: LockArtifactView| from_locked_ranked(a)));
        ResolvedDependencies { artifacts }
    }
}

/// The addresses of repositories, as a set.
pub(crate) fn url_set(urls: &Vec<String>) -> (r: OrdSet<String>)
    ensures
        r@ == put_all::<String>(texts(urls@)),
{
    let ghost uv = texts(urls@);
    let mut out: OrdSet<String> = OrdSet::new();
    let mut i: usize = 0;
    assert(uv.take(0) =~= Seq::empty());
    while i < urls.len()
        invariant
            i <= urls@.len(),
            uv == texts(urls@),
            out@ == put_all::<String>(uv.take(i as int)),
        decreases urls@.len() - i,
    {
        assert(uv.take(i + 1).drop_last() =~= uv.take(i as int));
        out.insert(urls[i].clone());
        i = i + 1;
    }
    assert(uv.take(i as int) =~= uv);
    out
}

/// Whether a lock was made with the repositories that there are now.
pub fn lock_serves(lock: &Lock, urls: &Vec<String>) -> (r: bool)
    ensures
        r == (lock@.repositories == put_all::<String>(texts(urls@))),
{
    let now = url_set(urls);
    if lock.repositories.len() != now.len() {
        return false;
    }
    let mut i: usize = 0;
    while i < now.len()
        invariant
            i <= now@.len(),
            lock.repositories@.len() == now@.len(),
            now@ == put_all::<String>(texts(urls@)),
            forall|k: int| 0 <= k < i ==> lock.repositories@[k] == now@[k],
        decreases now@.len() - i,
    {
        if !same(lock.repositories.at(i).as_str(), now.at(i).as_str()) {
            return false;
        }
        i = i + 1;
    }
    assert(lock.repositories@ =~= now@);
    true
}

/// What is known of an artifact before it is loaded: where it is, and the scopes of its
/// dependencies. What its POM leaves out of a dependency is not known, nor the dependency's type.
#[derive(Debug, PartialEq, Eq)]
pub struct Seed {
    pub coord: ArtifactCoordinates,
    pub source: String,
    pub artifact_path: String,
    pub dependencies: OrdMap<ArtifactCoordinates, PomScope>,
}

/// What is known of an artifact, its texts as characters.
pub struct SeedView {
    pub coord: CoordView,
    pub source: Seq<char>,
    pub artifact_path: Seq<char>,
    pub dependencies: Seq<(CoordView, PomScope)>,
}

impl View for Seed {
    type V = SeedView;

    open spec fn view(&self) -> SeedView {
        SeedView {
            coord: self.coord@,
            source: self.source@,
            artifact_path: self.artifact_path@,
            dependencies: self.dependencies@,
        }
    }
}

/// What a lock says of an artifact.
pub open spec fn seed_of(a: LockArtifactView) -> SeedView {
    SeedView {
        coord: a.coord,
        source: a.source,
        artifact_path: a.artifact_path,
        dependencies: a.dependencies,
    }
}

/// What a lock says of its artifacts, in the order of the lock. Where the repositories have
/// changed, it says nothing.
pub fn seeds(lock: &Lock, urls: &Vec<String>) -> (r: Vec<Seed>)
    ensures
        views(r@) == if lock@.repositories == put_all::<String>(texts(urls@)) {
            lock@.artifacts.map_values(|a: LockArtifactView| seed_of(a))
        } else {
            Seq::empty()
        },
{
    let mut out: Vec<Seed> = Vec::new();
    if !lock_serves(lock, urls) {
        assert(views(out@) =~= Seq::empty());
        return out;
    }
    let mut i: usize = 0;
    while i < lock.artifacts.len()
        invariant
            i <= lock.artifacts@.len(),
            out@.len() == i,
            forall|k: int| 0 <= k < i ==> (#[trigger] out@[k])@ == seed_of(lock.artifacts@[k]),
        decreases lock.artifacts@.len() - i,
    {
        let a = lock.artifacts.at(i);
        out.push(
            Seed {
                coord: a.coord.clone(),
                source: a.source.clone(),
                artifact_path: a.artifact_path.clone(),
                dependencies: a.dependencies.duplicate(),
            },
        );
        i = i + 1;
    }
    assert(views(out@) =~= lock@.artifacts.map_values(|a: LockArtifactView| seed_of(a)));
    out
}

/// What the loading of an artifact came to.
#[derive(Debug, PartialEq, Eq)]
pub enum Loaded {
    /// It is there, and whether the repository that it came from is known.
    Ready(Resolved, bool),
    /// It failed.
    Failed,
    /// It did not come to an end.
    Loading,
}

/// What a loading came to, its texts as characters.
pub enum LoadedView {
    Ready((ResolvedView, RankView), bool),
    Failed,
    Loading,
}

impl View for Loaded {
    type V = LoadedView;

    open spec fn view(&self) -> LoadedView {
        match self {
            Loaded::Ready(a, sourced) => LoadedView::Ready(a@, *sourced),
            Loaded::Failed => LoadedView::Failed,
            Loaded::Loading => LoadedView::Loading,
        }
    }
}

/// Why not all artifacts were resolved: the place of the first that was not.
#[derive(Clone, Copy, Debug, PartialEq, Eq, Structural)]
pub enum Unresolved {
    /// It comes from no repository.
    NoSource(usize),
    /// It failed.
    Failed(usize),
    /// It did not come to an end.
    Unfinished(usize),
}

/// What a loading at a place lacks.
pub open spec fn lacks(l: LoadedView, i: int) -> Option<Unresolved> {
    match l {
        LoadedView::Ready(_, sourced) => if sourced {
            None
        } else {
            Some(Unresolved::NoSource(i as usize))
        },
        LoadedView::Failed => Some(Unresolved::Failed(i as usize)),
        LoadedView::Loading => Some(Unresolved::Unfinished(i as usize)),
    }
}

/// What loadings come to from a place on, on top of what is there.
pub open spec fn resolved_from(
    c: Seq<LoadedView>,
    i: int,
    acc: Seq<(ResolvedView, RankView)>,
) -> Result<Seq<(ResolvedView, RankView)>, Unresolved>
    decreases c.len() - i,
{
    if i < 0 || i >= c.len() {
        Ok(acc)
    } else {
        match lacks(c[i], i) {
            Some(e) => Err(e),
            None => resolved_from(c, i + 1, acc.push(c[i]->Ready_0)),
        }
    }
}

/// All that was resolved, or the first that was not.
pub fn into_resolved(slots: Vec<Loaded>) -> (r: Result<ResolvedDependencies, Unresolved>)
    ensures
        match r {
            Ok(d) => resolved_from(views(slots@), 0, Seq::empty()) == Ok::<
                Seq<(ResolvedView, RankView)>,
                Unresolved,
            >(views(d.artifacts@)),
            Err(e) => resolved_from(views(slots@), 0, Seq::empty()) == Err::<
                Seq<(ResolvedView, RankView)>,
                Unresolved,
            >(e),
        },
{
    let ghost c = views(slots@);
    let mut artifacts: Vec<Resolved> = Vec::new();
    let mut i: usize = 0;
    assert(views(artifacts@) =~= Seq::empty());
    while i < slots.len()
        invariant
            i <= slots@.len(),
            c == views(slots@),
            resolved_from(c, i as int, views(artifacts@)) == resolved_from(c, 0, Seq::empty()),
        decreases slots@.len() - i,
    {
        assert(c[i as int] == slots@[i as int]@);
        match &slots[i] {
            Loaded::Ready(a, sourced) => {
                if !*sourced {
                    return Err(Unresolved::NoSource(i));
                }
                let ghost before = artifacts@;
                artifacts.push(Resolved { artifact: a.artifact.duplicate(), rank: a.rank.copy() });
                assert(views(artifacts@) =~= views(before).push(a@));
            },
            Loaded::Failed => {
                return Err(Unresolved::Failed(i));
            },
            Loaded::Loading => {
                return Err(Unresolved::Unfinished(i));
            },
        }
        i = i + 1;
    }
    Ok(ResolvedDependencies { artifacts })
}

/// All is resolved where nothing is lacking, and only there.
pub proof fn resolved_means_all(c: Seq<LoadedView>, i: int, acc: Seq<(ResolvedView, RankView)>)
    requires
        0 <= i <= c.len(),
    ensures
        resolved_from(c, i, acc) is Ok <==> forall|k: int| i <= k < c.len() ==> lacks(#[trigger] c[k], k) is None,
        resolved_from(c, i, acc) is Ok ==> resolved_from(c, i, acc)->Ok_0.len() == acc.len() + c.len() - i,
    decreases c.len() - i,
{
    if i < c.len() && lacks(c[i], i) is None {
        resolved_means_all(c, i + 1, acc.push(c[i]->Ready_0));
    }
}

} // verus!
