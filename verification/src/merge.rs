//! Hunks of a three-way merge, and how a resolution settles each of them.

use vstd::prelude::*;

use crate::align::{
    aligned_view, agree_on, lemma_project_concat, project, Line, LineView, MatchingVersions, Version,
};
use crate::lines::{copy_line, lines_view};

verus! {

/// What each version holds in a stretch where the versions differ.
pub struct LineVariants {
    pub my_lines: Vec<Vec<u8>>,
    pub old_lines: Vec<Vec<u8>>,
    pub your_lines: Vec<Vec<u8>>,
}

/// The abstract value of `LineVariants`.
pub struct VariantsView {
    pub mine: Seq<Seq<u8>>,
    pub old: Seq<Seq<u8>>,
    pub yours: Seq<Seq<u8>>,
}

/// Which versions changed a stretch, judged by which of them agree.
#[derive(Clone, Copy, Debug, PartialEq, Eq, Structural)]
pub enum Changed {
    /// Mine agrees with the older version: only yours changed.
    Your,
    /// Yours agrees with the older version: only mine changed.
    Mine,
    /// All three differ.
    YourMine,
    /// Mine and yours agree with each other but not with the older version.
    YourMineSame,
}

/// How a hunk is written out in a merge.
#[derive(Clone, Copy, Debug, PartialEq, Eq, Structural)]
pub enum MergeOutcome {
    MyWins,
    YourWins,
    /// A conflict shown as the older version against yours.
    ConflictOldYours,
    /// A conflict shown with all three versions.
    ConflictAll,
    /// A conflict shown as mine against yours.
    ConflictMineYours,
}

/// The resolutions that the command line offers.
#[derive(Clone, Copy, Debug, PartialEq, Eq, Structural)]
pub enum Resolution {
    /// `-3`: incorporate the changes that do not overlap.
    PickNonOverlap,
    /// `-E`: incorporate all changes, but bracket the overlapping ones.
    BracketOverlap,
    /// `-e`: incorporate all changes from yours, overlapping ones included.
    PickYour,
    /// `-x`: incorporate only the overlapping changes.
    PickOverlap,
    /// `-X`: like `-x`, but bracket the conflicts.
    PickOverlapBracketConflicts,
    /// `-A`: incorporate the changes from yours and bracket all conflicts.
    BracketAll,
}

/// The outcome that a resolution picks for each kind of change.
#[derive(Clone, Copy, Debug, PartialEq, Eq, Structural)]
pub struct ConcreteResolution {
    /// When only yours changed.
    pub only_your: MergeOutcome,
    /// When mine and yours made the same change.
    pub conflict: MergeOutcome,
    /// When mine and yours made different changes.
    pub overlap: MergeOutcome,
}

/// The outcomes that each resolution picks.
pub open spec fn spec_concrete(resolution: Resolution) -> ConcreteResolution {
    ConcreteResolution {
        only_your: match resolution {
            Resolution::PickOverlap | Resolution::PickOverlapBracketConflicts => MergeOutcome::MyWins,
            _ => MergeOutcome::YourWins,
        },
        conflict: match resolution {
            Resolution::PickOverlap => MergeOutcome::MyWins,
            Resolution::BracketAll => MergeOutcome::ConflictOldYours,
            _ => MergeOutcome::YourWins,
        },
        overlap: match resolution {
            Resolution::PickNonOverlap => MergeOutcome::MyWins,
            Resolution::BracketOverlap => MergeOutcome::ConflictMineYours,
            Resolution::BracketAll => MergeOutcome::ConflictAll,
            _ => MergeOutcome::YourWins,
        },
    }
}

impl From<Resolution> for ConcreteResolution {
    fn from(resolution: Resolution) -> (concrete: ConcreteResolution) {
        let only_your = match resolution {
            Resolution::PickOverlap | Resolution::PickOverlapBracketConflicts => MergeOutcome::MyWins,
            _ => MergeOutcome::YourWins,
        };
        let conflict = match resolution {
            Resolution::PickOverlap => MergeOutcome::MyWins,
            Resolution::BracketOverlap | Resolution::PickNonOverlap | Resolution::PickYour
            | Resolution::PickOverlapBracketConflicts => MergeOutcome::YourWins,
            Resolution::BracketAll => MergeOutcome::ConflictOldYours,
        };
        let overlap = match resolution {
            Resolution::PickNonOverlap => MergeOutcome::MyWins,
            Resolution::PickOverlap | Resolution::PickOverlapBracketConflicts
            | Resolution::PickYour => MergeOutcome::YourWins,
            Resolution::BracketOverlap => MergeOutcome::ConflictMineYours,
            Resolution::BracketAll => MergeOutcome::ConflictAll,
        };
        ConcreteResolution { only_your, conflict, overlap }
    }
}

impl vstd::std_specs::convert::FromSpecImpl<Resolution> for ConcreteResolution {
    open spec fn obeys_from_spec() -> bool {
        true
    }

    open spec fn from_spec(v: Resolution) -> ConcreteResolution {
        spec_concrete(v)
    }
}

impl VariantsView {
    /// Whether the versions differ here at all.
    pub open spec fn has_conflict(self) -> bool {
        self.mine.len() > 0 || self.old.len() > 0 || self.yours.len() > 0
    }

    /// Which versions changed.
    pub open spec fn changes(self) -> Changed {
        if self.mine == self.old {
            Changed::Your
        } else if self.yours == self.old {
            Changed::Mine
        } else if self.yours == self.mine {
            Changed::YourMineSame
        } else {
            Changed::YourMine
        }
    }

    /// The outcome that a resolution picks for this stretch.
    pub open spec fn merge_outcome(self, concrete: ConcreteResolution) -> MergeOutcome {
        match self.changes() {
            Changed::Your => concrete.only_your,
            Changed::Mine => MergeOutcome::MyWins,
            Changed::YourMineSame => concrete.conflict,
            Changed::YourMine => concrete.overlap,
        }
    }

    /// The lines that version `v` holds here.
    pub open spec fn side(self, v: Version) -> Seq<Seq<u8>> {
        match v {
            Version::Mine => self.mine,
            Version::Old => self.old,
            Version::Yours => self.yours,
        }
    }
}

/// What the resolutions promise: a conflict is only shown where mine and
/// yours both changed, with all three versions or mine against yours where
/// they made different changes and the older version against yours where they
/// made the same one; a change of mine alone always wins; `-e` never shows a
/// conflict, and `-A` shows every stretch where both changed as one.
pub proof fn lemma_resolution_outcomes(v: VariantsView, resolution: Resolution)
    ensures
        ({
            let outcome = v.merge_outcome(spec_concrete(resolution));
            &&& (outcome is ConflictAll || outcome is ConflictMineYours) ==> v.changes() is YourMine
            &&& outcome is ConflictOldYours ==> v.changes() is YourMineSame
            &&& v.changes() is Mine ==> outcome is MyWins
            &&& resolution is PickYour ==> (outcome is MyWins || outcome is YourWins)
            &&& (resolution is BracketAll && v.changes() is YourMine) ==> outcome is ConflictAll
            &&& (resolution is BracketAll && v.changes() is YourMineSame) ==> outcome is ConflictOldYours
        }),
{
}

/// What each resolution keeps of a stretch, by which versions agree there.
/// Where only mine changed (yours agrees with the older version), mine is
/// kept under every resolution; where neither changed, every resolution but
/// `-x` and `-X` writes yours, which equals mine there. `-e` (`PickYour`) keeps
/// every change of yours, overlapping ones included; `-3` (`PickNonOverlap`)
/// keeps a change of yours only where mine did not change or made the same
/// change; `-x` (`PickOverlap`) keeps mine where
/// only yours changed and yours where the two changed differently; `-A`
/// (`BracketAll`) takes yours where only yours changed and brackets every
/// stretch both changed; `-E` (`BracketOverlap`) brackets mine against yours
/// where they changed differently; `-X` (`PickOverlapBracketConflicts`) takes
/// yours only where both changed.
pub proof fn lemma_resolution_table(v: VariantsView, resolution: Resolution)
    ensures
        ({
            let outcome = v.merge_outcome(spec_concrete(resolution));
            let mine_changed = v.mine != v.old;
            let yours_changed = v.yours != v.old;
            let same_change = v.mine == v.yours;
            &&& !yours_changed && mine_changed ==> outcome == MergeOutcome::MyWins
            &&& resolution is PickYour ==> outcome == (if mine_changed && !yours_changed {
                MergeOutcome::MyWins
            } else {
                MergeOutcome::YourWins
            })
            &&& resolution is PickNonOverlap ==> outcome == (if !mine_changed {
                MergeOutcome::YourWins
            } else if yours_changed && same_change {
                MergeOutcome::YourWins
            } else {
                MergeOutcome::MyWins
            })
            &&& resolution is PickOverlap ==> outcome == (if yours_changed && mine_changed
                && !same_change {
                MergeOutcome::YourWins
            } else {
                MergeOutcome::MyWins
            })
            &&& resolution is BracketAll ==> outcome == (if !mine_changed {
                MergeOutcome::YourWins
            } else if !yours_changed {
                MergeOutcome::MyWins
            } else if same_change {
                MergeOutcome::ConflictOldYours
            } else {
                MergeOutcome::ConflictAll
            })
            &&& resolution is BracketOverlap ==> outcome == (if mine_changed && yours_changed
                && !same_change {
                MergeOutcome::ConflictMineYours
            } else if mine_changed && !yours_changed {
                MergeOutcome::MyWins
            } else {
                MergeOutcome::YourWins
            })
            &&& resolution is PickOverlapBracketConflicts ==> outcome == (if yours_changed
                && mine_changed {
                MergeOutcome::YourWins
            } else {
                MergeOutcome::MyWins
            })
        }),
{
}

/// Whether two sequences of lines are equal.
pub fn same_lines(a: &Vec<Vec<u8>>, b: &Vec<Vec<u8>>) -> (same: bool)
    ensures
        same == (lines_view(a@) == lines_view(b@)),
{
    if a.len() != b.len() {
        assert(lines_view(a@).len() != lines_view(b@).len());
        return false;
    }
    let mut i: usize = 0;
    while i < a.len()
        invariant
            a@.len() == b@.len(),
            i <= a@.len(),
            forall|k: int| 0 <= k < i ==> #[trigger] a@[k]@ == b@[k]@,
        decreases a@.len() - i,
    {
        let x = &a[i];
        let y = &b[i];
        if x.len() != y.len() {
            assert(lines_view(a@)[i as int] != lines_view(b@)[i as int]);
            return false;
        }
        let mut k: usize = 0;
        while k < x.len()
            invariant
                a@.len() == b@.len(),
                i < a@.len(),
                x@ == a@[i as int]@,
                y@ == b@[i as int]@,
                x@.len() == y@.len(),
                k <= x@.len(),
                forall|t: int| 0 <= t < k ==> x@[t] == y@[t],
            decreases x@.len() - k,
        {
            if x[k] != y[k] {
                assert(lines_view(a@)[i as int] == x@);
                assert(lines_view(b@)[i as int] == y@);
                assert(lines_view(a@)[i as int][k as int] != lines_view(b@)[i as int][k as int]);
                return false;
            }
            k = k + 1;
        }
        assert(x@ =~= y@);
        i = i + 1;
    }
    assert(lines_view(a@) =~= lines_view(b@));
    true
}

/// A copy of a sequence of lines.
pub fn copy_lines(lines: &Vec<Vec<u8>>) -> (copy: Vec<Vec<u8>>)
    ensures
        lines_view(copy@) == lines_view(lines@),
{
    let mut copy: Vec<Vec<u8>> = Vec::new();
    let mut i: usize = 0;
    while i < lines.len()
        invariant
            i <= lines@.len(),
            lines_view(copy@) == lines_view(lines@).take(i as int),
        decreases lines@.len() - i,
    {
        let ghost before = copy@;
        let line = copy_line(&lines[i]);
        let ghost lv = line@;
        copy.push(line);
        assert(lines_view(copy@) =~= lines_view(before).push(lv));
        i = i + 1;
        assert(lines_view(copy@) =~= lines_view(lines@).take(i as int));
    }
    assert(lines_view(lines@).take(i as int) =~= lines_view(lines@));
    copy
}

impl LineVariants {
    pub open spec fn view(&self) -> VariantsView {
        VariantsView {
            mine: lines_view(self.my_lines@),
            old: lines_view(self.old_lines@),
            yours: lines_view(self.your_lines@),
        }
    }

    /// Whether the versions differ here at all.
    pub fn has_conflict(&self) -> (conflict: bool)
        ensures
            conflict == self@.has_conflict(),
    {
        self.my_lines.len() != 0 || self.old_lines.len() != 0 || self.your_lines.len() != 0
    }

    /// Infers which versions changed from which of them agree.
    pub fn infer_changes(&self) -> (changes: Changed)
        ensures
            changes == self@.changes(),
    {
        if same_lines(&self.my_lines, &self.old_lines) {
            Changed::Your
        } else if same_lines(&self.your_lines, &self.old_lines) {
            Changed::Mine
        } else if same_lines(&self.your_lines, &self.my_lines) {
            Changed::YourMineSame
        } else {
            Changed::YourMine
        }
    }

    /// The outcome that a resolution picks, given what changed.
    pub fn calculate_merge(&self, concrete: ConcreteResolution) -> (outcome: MergeOutcome)
        ensures
            outcome == self@.merge_outcome(concrete),
    {
        match self.infer_changes() {
            Changed::Your => concrete.only_your,
            Changed::Mine => MergeOutcome::MyWins,
            Changed::YourMineSame => concrete.conflict,
            Changed::YourMine => concrete.overlap,
        }
    }

    /// A copy that holds the same lines.
    pub fn as_ref(&self) -> (copy: LineVariants)
        ensures
            copy@ == self@,
    {
        LineVariants {
            my_lines: copy_lines(&self.my_lines),
            old_lines: copy_lines(&self.old_lines),
            your_lines: copy_lines(&self.your_lines),
        }
    }
}

/// A hunk: lines all three versions hold, then a stretch where they differ.
pub struct MergeLines {
    pub common_lines: Vec<Vec<u8>>,
    pub variants: LineVariants,
}

/// The abstract value of a hunk.
pub struct MergeView {
    pub common: Seq<Seq<u8>>,
    pub variants: VariantsView,
}

impl MergeLines {
    pub open spec fn view(&self) -> MergeView {
        MergeView { common: lines_view(self.common_lines@), variants: self.variants@ }
    }

    /// An empty hunk.
    pub fn new() -> (hunk: MergeLines)
        ensures
            hunk@ == empty_hunk(),
    {
        let hunk = MergeLines {
            common_lines: Vec::new(),
            variants: LineVariants {
                my_lines: Vec::new(),
                old_lines: Vec::new(),
                your_lines: Vec::new(),
            },
        };
        assert(hunk@.common =~= Seq::<Seq<u8>>::empty());
        assert(hunk@.variants.mine =~= Seq::<Seq<u8>>::empty());
        assert(hunk@.variants.old =~= Seq::<Seq<u8>>::empty());
        assert(hunk@.variants.yours =~= Seq::<Seq<u8>>::empty());
        hunk
    }

    /// A copy that holds the same lines.
    pub fn as_ref(&self) -> (copy: MergeLines)
        ensures
            copy@ == self@,
    {
        MergeLines { common_lines: copy_lines(&self.common_lines), variants: self.variants.as_ref() }
    }
}

/// The hunk with no lines.
pub open spec fn empty_hunk() -> MergeView {
    MergeView {
        common: Seq::empty(),
        variants: VariantsView { mine: Seq::empty(), old: Seq::empty(), yours: Seq::empty() },
    }
}

/// The abstract value of a sequence of hunks.
pub open spec fn hunks_view(hunks: Seq<MergeLines>) -> Seq<MergeView> {
    hunks.map_values(|h: MergeLines| h@)
}

/// A hunk with one more aligned line: a line that all three versions hold
/// joins the common lines, any other joins the versions that hold it.
pub open spec fn add_line(h: MergeView, l: LineView) -> MergeView {
    if l.1 is MyOldYour {
        MergeView { common: h.common.push(l.0), variants: h.variants }
    } else {
        MergeView {
            common: h.common,
            variants: VariantsView {
                mine: if l.1.has(Version::Mine) {
                    h.variants.mine.push(l.0)
                } else {
                    h.variants.mine
                },
                old: if l.1.has(Version::Old) {
                    h.variants.old.push(l.0)
                } else {
                    h.variants.old
                },
                yours: if l.1.has(Version::Yours) {
                    h.variants.yours.push(l.0)
                } else {
                    h.variants.yours
                },
            },
        }
    }
}

/// Whether an aligned line starts a new hunk after the hunks so far: the first
/// line does, and so does a line that all three versions hold when the last
/// hunk already has a stretch where they differ.
pub open spec fn starts_hunk(hunks: Seq<MergeView>, l: LineView) -> bool {
    hunks.len() == 0 || (l.1 is MyOldYour && hunks.last().variants.has_conflict())
}

/// The hunks of a sequence of aligned lines.
pub open spec fn spec_merged(lines: Seq<LineView>) -> Seq<MergeView>
    decreases lines.len(),
{
    if lines.len() == 0 {
        Seq::empty()
    } else {
        let before = spec_merged(lines.drop_last());
        let l = lines.last();
        if starts_hunk(before, l) {
            before.push(add_line(empty_hunk(), l))
        } else {
            before.update(before.len() - 1, add_line(before.last(), l))
        }
    }
}

/// The lines that version `v` holds in a hunk.
pub open spec fn hunk_side(h: MergeView, v: Version) -> Seq<Seq<u8>> {
    h.common + h.variants.side(v)
}

/// The lines that version `v` holds in a sequence of hunks.
pub open spec fn hunks_side(hunks: Seq<MergeView>, v: Version) -> Seq<Seq<u8>>
    decreases hunks.len(),
{
    if hunks.len() == 0 {
        Seq::empty()
    } else {
        hunk_side(hunks[0], v) + hunks_side(hunks.drop_first(), v)
    }
}

/// The hunks' lines, split before the last hunk.
pub proof fn lemma_hunks_side_last(hunks: Seq<MergeView>, v: Version)
    requires
        hunks.len() > 0,
    ensures
        hunks_side(hunks, v) == hunks_side(hunks.drop_last(), v) + hunk_side(hunks.last(), v),
    decreases hunks.len(),
{
    if hunks.len() == 1 {
        assert(hunks.drop_first() =~= Seq::<MergeView>::empty());
        assert(hunks.drop_last() =~= Seq::<MergeView>::empty());
        assert(hunks_side(hunks.drop_first(), v) =~= Seq::<Seq<u8>>::empty());
        assert(hunks_side(hunks, v) =~= hunk_side(hunks[0], v));
        assert(Seq::<Seq<u8>>::empty() + hunk_side(hunks.last(), v) =~= hunk_side(hunks[0], v));
    } else {
        let rest = hunks.drop_first();
        lemma_hunks_side_last(rest, v);
        assert(rest.drop_last() =~= hunks.drop_last().drop_first());
        assert(hunks.drop_last()[0] == hunks[0]);
        assert(rest.last() == hunks.last());
        assert(hunk_side(hunks[0], v) + (hunks_side(rest.drop_last(), v) + hunk_side(
            rest.last(),
            v,
        )) =~= (hunk_side(hunks[0], v) + hunks_side(rest.drop_last(), v)) + hunk_side(
            hunks.last(),
            v,
        ));
    }
}

/// Grouping aligned lines into hunks keeps, for each version, its lines in
/// order; and every hunk but the last has a stretch where the versions differ.
pub proof fn lemma_merged(lines: Seq<LineView>, v: Version)
    ensures
        hunks_side(spec_merged(lines), v) == project(lines, v),
        forall|i: int|
            0 <= i < spec_merged(lines).len() - 1 ==> (#[trigger] spec_merged(lines)[i]).variants.has_conflict(),
    decreases lines.len(),
{
    if lines.len() > 0 {
        let prefix = lines.drop_last();
        let l = lines.last();
        let before = spec_merged(prefix);
        lemma_merged(prefix, v);
        assert(lines =~= prefix + seq![l]);
        lemma_project_concat(prefix, seq![l], v);
        assert(seq![l].drop_first() =~= Seq::<LineView>::empty());
        let one: Seq<Seq<u8>> = if l.1.has(v) {
            seq![l.0]
        } else {
            Seq::empty()
        };
        assert(project(seq![l].drop_first(), v) =~= Seq::<Seq<u8>>::empty());
        assert(project(seq![l], v) =~= one);
        let after = spec_merged(lines);
        if starts_hunk(before, l) {
            let h = add_line(empty_hunk(), l);
            assert(after == before.push(h));
            lemma_hunks_side_last(after, v);
            assert(after.drop_last() =~= before);
            assert(hunk_side(h, v) =~= one);
        } else {
            let h = add_line(before.last(), l);
            assert(after == before.update(before.len() - 1, h));
            lemma_hunks_side_last(before, v);
            lemma_hunks_side_last(after, v);
            assert(after.drop_last() =~= before.drop_last());
            let g = before.last();
            if l.1 is MyOldYour {
                assert(!g.variants.has_conflict());
                assert(g.variants.side(v).len() == 0);
                assert(hunk_side(h, v) =~= hunk_side(g, v) + one);
            } else {
                assert(hunk_side(h, v) =~= hunk_side(g, v) + one);
            }
            assert(hunks_side(before.drop_last(), v) + hunk_side(g, v) + one =~= hunks_side(
                before.drop_last(),
                v,
            ) + (hunk_side(g, v) + one));
        }
        assert forall|i: int| 0 <= i < after.len() - 1 implies (#[trigger] after[i]).variants.has_conflict() by {
            if i < before.len() - 1 {
                assert(after[i] == before[i]);
            } else {
                assert(starts_hunk(before, l));
                assert(after[i] == before.last());
            }
        }
    }
}

/// The aligned lines that all three versions hold, in order.
pub open spec fn shared_lines(lines: Seq<LineView>) -> Seq<Seq<u8>>
    decreases lines.len(),
{
    if lines.len() == 0 {
        Seq::empty()
    } else if lines[0].1 is MyOldYour {
        seq![lines[0].0] + shared_lines(lines.drop_first())
    } else {
        shared_lines(lines.drop_first())
    }
}

/// The aligned lines that version `v` holds and some other version does not,
/// in order.
pub open spec fn unshared_lines(lines: Seq<LineView>, v: Version) -> Seq<Seq<u8>>
    decreases lines.len(),
{
    if lines.len() == 0 {
        Seq::empty()
    } else if !(lines[0].1 is MyOldYour) && lines[0].1.has(v) {
        seq![lines[0].0] + unshared_lines(lines.drop_first(), v)
    } else {
        unshared_lines(lines.drop_first(), v)
    }
}

/// The common lines of a sequence of hunks, in order.
pub open spec fn hunks_common(hunks: Seq<MergeView>) -> Seq<Seq<u8>>
    decreases hunks.len(),
{
    if hunks.len() == 0 {
        Seq::empty()
    } else {
        hunks[0].common + hunks_common(hunks.drop_first())
    }
}

/// The lines of version `v` in the differing stretches of a sequence of hunks,
/// in order.
pub open spec fn hunks_differing(hunks: Seq<MergeView>, v: Version) -> Seq<Seq<u8>>
    decreases hunks.len(),
{
    if hunks.len() == 0 {
        Seq::empty()
    } else {
        hunks[0].variants.side(v) + hunks_differing(hunks.drop_first(), v)
    }
}

/// Selecting lines from a concatenation selects from each part.
proof fn lemma_select_concat(a: Seq<LineView>, b: Seq<LineView>, v: Version)
    ensures
        shared_lines(a + b) == shared_lines(a) + shared_lines(b),
        unshared_lines(a + b, v) == unshared_lines(a, v) + unshared_lines(b, v),
    decreases a.len(),
{
    if a.len() == 0 {
        assert(a + b =~= b);
        assert(shared_lines(a) + shared_lines(b) =~= shared_lines(b));
        assert(unshared_lines(a, v) + unshared_lines(b, v) =~= unshared_lines(b, v));
    } else {
        lemma_select_concat(a.drop_first(), b, v);
        assert((a + b).drop_first() =~= a.drop_first() + b);
        assert((a + b)[0] == a[0]);
        let x = seq![a[0].0];
        assert(x + (shared_lines(a.drop_first()) + shared_lines(b)) =~= (x + shared_lines(
            a.drop_first(),
        )) + shared_lines(b));
        assert(x + (unshared_lines(a.drop_first(), v) + unshared_lines(b, v)) =~= (x
            + unshared_lines(a.drop_first(), v)) + unshared_lines(b, v));
    }
}

/// The parts of the hunks, split before the last hunk.
proof fn lemma_hunks_parts_last(hunks: Seq<MergeView>, v: Version)
    requires
        hunks.len() > 0,
    ensures
        hunks_common(hunks) == hunks_common(hunks.drop_last()) + hunks.last().common,
        hunks_differing(hunks, v) == hunks_differing(hunks.drop_last(), v)
            + hunks.last().variants.side(v),
    decreases hunks.len(),
{
    let e: Seq<Seq<u8>> = Seq::empty();
    if hunks.len() == 1 {
        assert(hunks.drop_first() =~= Seq::<MergeView>::empty());
        assert(hunks.drop_last() =~= Seq::<MergeView>::empty());
        assert(hunks_common(hunks.drop_first()) =~= e);
        assert(hunks_differing(hunks.drop_first(), v) =~= e);
        assert(hunks_common(hunks) =~= hunks[0].common + e);
        assert(hunks_differing(hunks, v) =~= hunks[0].variants.side(v) + e);
        assert(e + hunks.last().common =~= hunks[0].common);
        assert(e + hunks.last().variants.side(v) =~= hunks[0].variants.side(v));
        assert(hunks[0].common + e =~= hunks[0].common);
        assert(hunks[0].variants.side(v) + e =~= hunks[0].variants.side(v));
    } else {
        let rest = hunks.drop_first();
        lemma_hunks_parts_last(rest, v);
        assert(rest.drop_last() =~= hunks.drop_last().drop_first());
        assert(hunks.drop_last()[0] == hunks[0]);
        assert(rest.last() == hunks.last());
        assert(hunks[0].common + (hunks_common(rest.drop_last()) + rest.last().common) =~= (
        hunks[0].common + hunks_common(rest.drop_last())) + hunks.last().common);
        assert(hunks[0].variants.side(v) + (hunks_differing(rest.drop_last(), v)
            + rest.last().variants.side(v)) =~= (hunks[0].variants.side(v) + hunks_differing(
            rest.drop_last(),
            v,
        )) + hunks.last().variants.side(v));
    }
}

/// A line that all three versions hold always lands among the common lines
/// of a hunk, never in a stretch where the versions differ: the hunks'
/// common lines are exactly the shared lines, and the lines of each version
/// in the differing stretches are exactly those that not all three hold.
pub proof fn lemma_merged_shared_lines(lines: Seq<LineView>, v: Version)
    ensures
        hunks_common(spec_merged(lines)) == shared_lines(lines),
        hunks_differing(spec_merged(lines), v) == unshared_lines(lines, v),
    decreases lines.len(),
{
    if lines.len() > 0 {
        let prefix = lines.drop_last();
        let l = lines.last();
        lemma_merged_shared_lines(prefix, v);
        assert(lines =~= prefix + seq![l]);
        lemma_select_concat(prefix, seq![l], v);
        assert(seq![l].drop_first() =~= Seq::<LineView>::empty());
        let e: Seq<Seq<u8>> = Seq::empty();
        let c: Seq<Seq<u8>> = if l.1 is MyOldYour {
            seq![l.0]
        } else {
            e
        };
        let d: Seq<Seq<u8>> = if !(l.1 is MyOldYour) && l.1.has(v) {
            seq![l.0]
        } else {
            e
        };
        assert(shared_lines(seq![l].drop_first()) =~= e);
        assert(unshared_lines(seq![l].drop_first(), v) =~= e);
        assert(shared_lines(seq![l]) =~= c);
        assert(unshared_lines(seq![l], v) =~= d);
        let before = spec_merged(prefix);
        let after = spec_merged(lines);
        if starts_hunk(before, l) {
            let h = add_line(empty_hunk(), l);
            assert(after == before.push(h));
            lemma_hunks_parts_last(after, v);
            assert(after.drop_last() =~= before);
            assert(h.common =~= c);
            assert(h.variants.side(v) =~= d);
        } else {
            let g = before.last();
            let h = add_line(g, l);
            assert(after == before.update(before.len() - 1, h));
            lemma_hunks_parts_last(before, v);
            lemma_hunks_parts_last(after, v);
            assert(after.drop_last() =~= before.drop_last());
            assert(h.common =~= g.common + c);
            assert(h.variants.side(v) =~= g.variants.side(v) + d);
            assert(hunks_common(before.drop_last()) + g.common + c =~= hunks_common(
                before.drop_last(),
            ) + (g.common + c));
            assert(hunks_differing(before.drop_last(), v) + g.variants.side(v) + d
                =~= hunks_differing(before.drop_last(), v) + (g.variants.side(v) + d));
        }
    }
}

/// When two versions hold the same aligned lines, they hold the same lines in
/// every hunk.
pub proof fn lemma_merged_agree(lines: Seq<LineView>, a: Version, b: Version)
    requires
        agree_on(lines, a, b),
    ensures
        forall|i: int|
            0 <= i < spec_merged(lines).len() ==> (#[trigger] spec_merged(lines)[i]).variants.side(a)
                == spec_merged(lines)[i].variants.side(b),
    decreases lines.len(),
{
    if lines.len() > 0 {
        let prefix = lines.drop_last();
        assert forall|i: int| 0 <= i < prefix.len() implies #[trigger] prefix[i].1.has(a)
            == prefix[i].1.has(b) by {
            assert(prefix[i] == lines[i]);
        }
        lemma_merged_agree(prefix, a, b);
        let l = lines.last();
        assert(l.1.has(a) == l.1.has(b));
        let before = spec_merged(prefix);
        let after = spec_merged(lines);
        if starts_hunk(before, l) {
            assert(empty_hunk().variants.side(a) =~= empty_hunk().variants.side(b));
            assert forall|i: int| 0 <= i < after.len() implies (#[trigger] after[i]).variants.side(a)
                == after[i].variants.side(b) by {
                if i < before.len() {
                    assert(after[i] == before[i]);
                }
            }
        } else {
            assert forall|i: int| 0 <= i < after.len() implies (#[trigger] after[i]).variants.side(a)
                == after[i].variants.side(b) by {
                if i < before.len() - 1 {
                    assert(after[i] == before[i]);
                } else {
                    assert(before[before.len() - 1].variants.side(a) == before[before.len()
                        - 1].variants.side(b));
                }
            }
        }
    }
}

/// When every aligned line is held by all three versions, no hunk has a
/// stretch where they differ.
pub proof fn lemma_merged_all_common(lines: Seq<LineView>)
    requires
        forall|i: int| 0 <= i < lines.len() ==> #[trigger] lines[i].1 is MyOldYour,
    ensures
        forall|i: int|
            0 <= i < spec_merged(lines).len() ==> !(#[trigger] spec_merged(
                lines,
            )[i]).variants.has_conflict(),
    decreases lines.len(),
{
    if lines.len() > 0 {
        let prefix = lines.drop_last();
        assert forall|i: int| 0 <= i < prefix.len() implies #[trigger] prefix[i].1 is MyOldYour by {
            assert(prefix[i] == lines[i]);
        }
        lemma_merged_all_common(prefix);
        let before = spec_merged(prefix);
        let after = spec_merged(lines);
        assert(lines.last().1 is MyOldYour);
        assert forall|i: int| 0 <= i < after.len() implies !(#[trigger] after[i]).variants.has_conflict() by {
            if i < before.len() - 1 || (starts_hunk(before, lines.last()) && i < before.len()) {
                assert(after[i] == before[i]);
            }
        }
    }
}

/// Adds an aligned line to a hunk.
fn add_to_hunk(hunk: &mut MergeLines, line: &Line)
    ensures
        final(hunk)@ == add_line(old(hunk)@, line@),
{
    let ghost h = hunk@;
    if matches!(line.versions, MatchingVersions::MyOldYour) {
        hunk.common_lines.push(copy_line(&line.line));
        assert(hunk@.common =~= h.common.push(line.line@));
    } else {
        let (my_b, old_b, your_b) = line.versions.as_tuple();
        if my_b {
            hunk.variants.my_lines.push(copy_line(&line.line));
        }
        if old_b {
            hunk.variants.old_lines.push(copy_line(&line.line));
        }
        if your_b {
            hunk.variants.your_lines.push(copy_line(&line.line));
        }
        assert(hunk@.variants.mine =~= add_line(h, line@).variants.mine);
        assert(hunk@.variants.old =~= add_line(h, line@).variants.old);
        assert(hunk@.variants.yours =~= add_line(h, line@).variants.yours);
    }
}

/// Groups aligned lines into hunks: each hunk is a run of lines that all three
/// versions hold, then a stretch where they differ.
pub fn make_merged(lines: Vec<Line>) -> (merged: Vec<MergeLines>)
    ensures
        hunks_view(merged@) == spec_merged(aligned_view(lines@)),
        hunks_side(hunks_view(merged@), Version::Mine) == project(aligned_view(lines@), Version::Mine),
        hunks_side(hunks_view(merged@), Version::Old) == project(aligned_view(lines@), Version::Old),
        hunks_side(hunks_view(merged@), Version::Yours) == project(
            aligned_view(lines@),
            Version::Yours,
        ),
        forall|i: int|
            0 <= i < merged@.len() - 1 ==> (#[trigger] merged@[i])@.variants.has_conflict(),
        hunks_common(hunks_view(merged@)) == shared_lines(aligned_view(lines@)),
{
    let ghost all = aligned_view(lines@);
    let mut done: Vec<MergeLines> = Vec::new();
    let mut cur = MergeLines::new();
    let mut i: usize = 0;
    while i < lines.len()
        invariant
            all == aligned_view(lines@),
            i <= lines@.len(),
            i == 0 ==> done@.len() == 0 && cur@ == empty_hunk(),
            i > 0 ==> hunks_view(done@).push(cur@) == spec_merged(all.take(i as int)),
        decreases lines@.len() - i,
    {
        let line = &lines[i];
        let ghost prefix = all.take(i as int);
        let ghost before = spec_merged(prefix);
        assert(all.take(i + 1).drop_last() =~= prefix);
        assert(all.take(i + 1).last() == line@);
        if i > 0 {
            assert(before.last() == cur@);
            assert(before.len() > 0);
        } else {
            assert(prefix =~= Seq::<LineView>::empty());
        }
        let ghost after = spec_merged(all.take(i + 1));
        if i > 0 && matches!(line.versions, MatchingVersions::MyOldYour)
            && cur.variants.has_conflict() {
            let ghost finished = hunks_view(done@).push(cur@);
            done.push(cur);
            assert(hunks_view(done@) =~= finished);
            cur = MergeLines::new();
            assert(starts_hunk(before, line@));
            add_to_hunk(&mut cur, line);
            assert(after == before.push(add_line(empty_hunk(), line@)));
            assert(hunks_view(done@).push(cur@) =~= after);
        } else if i > 0 {
            assert(hunks_view(done@) =~= before.drop_last());
            assert(!starts_hunk(before, line@));
            add_to_hunk(&mut cur, line);
            assert(after == before.update(before.len() - 1, add_line(before.last(), line@)));
            assert(hunks_view(done@).push(cur@) =~= after);
        } else {
            add_to_hunk(&mut cur, line);
            assert(after == before.push(add_line(empty_hunk(), line@)));
            assert(hunks_view(done@).push(cur@) =~= after);
        }
        i = i + 1;
    }
    assert(all.take(i as int) =~= all);
    if i > 0 {
        let ghost finished = hunks_view(done@).push(cur@);
        done.push(cur);
        assert(hunks_view(done@) =~= finished);
    } else {
        assert(hunks_view(done@) =~= Seq::<MergeView>::empty());
        assert(all =~= Seq::<LineView>::empty());
    }
    proof {
        lemma_merged(all, Version::Mine);
        lemma_merged(all, Version::Old);
        lemma_merged(all, Version::Yours);
        lemma_merged_shared_lines(all, Version::Mine);
        assert forall|i: int| 0 <= i < done@.len() - 1 implies (#[trigger] done@[i])@.variants.has_conflict() by {
            assert(hunks_view(done@)[i] == done@[i]@);
        }
    }
    done
}

} // verus!
