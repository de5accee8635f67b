//! Writing hunks out as the merged file, with conflict markers where a
//! resolution brackets a conflict.

use vstd::prelude::*;
use vstd::string::StringSliceAdditionalSpecFns;

use crate::lines::lines_view;
use crate::align::Version;
use crate::merge::{
    hunk_side, hunks_side, lemma_hunks_side_last, spec_concrete, ConcreteResolution,
    LineVariants, MergeLines, MergeOutcome, MergeView, Resolution, VariantsView,
};

verus! {

/// The names that conflict markers show for mine, the older version and yours.
pub struct MergeLabels {
    pub mine: Vec<u8>,
    pub old: Vec<u8>,
    pub yours: Vec<u8>,
}

/// The abstract value of `MergeLabels`.
pub struct LabelsView {
    pub mine: Seq<u8>,
    pub old: Seq<u8>,
    pub yours: Seq<u8>,
}

impl MergeLabels {
    pub open spec fn view(&self) -> LabelsView {
        LabelsView { mine: self.mine@, old: self.old@, yours: self.yours@ }
    }
}

/// The decimal digits of a number, most significant first.
pub open spec fn decimal(n: nat) -> Seq<u8>
    decreases n,
{
    if n < 10 {
        seq![(48 + n) as u8]
    } else {
        decimal(n / 10).push((48 + n % 10) as u8)
    }
}

/// Appends the decimal digits of `n`.
pub fn push_decimal(out: &mut Vec<u8>, n: usize)
    ensures
        final(out)@ == old(out)@ + decimal(n as nat),
    decreases n,
{
    if n >= 10 {
        push_decimal(out, n / 10);
    }
    let digit: u8 = (n % 10) as u8;
    out.push(48u8 + digit);
    assert(final(out)@ =~= old(out)@ + decimal(n as nat));
}

/// Appends bytes.
pub fn push_bytes(out: &mut Vec<u8>, bytes: &[u8])
    ensures
        final(out)@ == old(out)@ + bytes@,
{
    let ghost start = out@;
    let mut i: usize = 0;
    while i < bytes.len()
        invariant
            i <= bytes@.len(),
            out@ == start + bytes@.take(i as int),
        decreases bytes@.len() - i,
    {
        out.push(bytes[i]);
        i = i + 1;
        assert(out@ =~= start + bytes@.take(i as int));
    }
    assert(bytes@.take(i as int) =~= bytes@);
}

/// Lines written one after the other, each after `prefix`.
pub open spec fn prefixed(lines: Seq<Seq<u8>>, prefix: Seq<u8>) -> Seq<u8>
    decreases lines.len(),
{
    if lines.len() == 0 {
        Seq::empty()
    } else {
        prefixed(lines.drop_last(), prefix) + prefix + lines.last()
    }
}

/// Writes a series of lines, each after a prefix.
pub fn write_lines(lines: &Vec<Vec<u8>>, prefix: &[u8], output: &mut Vec<u8>)
    ensures
        final(output)@ == old(output)@ + prefixed(lines_view(lines@), prefix@),
{
    let ghost start = output@;
    let mut i: usize = 0;
    while i < lines.len()
        invariant
            i <= lines@.len(),
            output@ == start + prefixed(lines_view(lines@).take(i as int), prefix@),
        decreases lines@.len() - i,
    {
        push_bytes(output, prefix);
        push_bytes(output, lines[i].as_slice());
        let ghost done = lines_view(lines@).take(i as int);
        i = i + 1;
        assert(lines_view(lines@).take(i as int).drop_last() =~= done);
        assert(output@ =~= start + prefixed(lines_view(lines@).take(i as int), prefix@));
    }
    assert(lines_view(lines@).take(i as int) =~= lines_view(lines@));
}

/// The lines of one side of a conflict and its label.
pub type SideView = (Seq<Seq<u8>>, Seq<u8>);

/// A conflict in the merged file: the first side under a `<<<<<<<` marker,
/// the middle side (if any) under `|||||||`, the last side after `=======`,
/// and a closing `>>>>>>>` marker; each marker but `=======` shows its side's
/// label.
pub open spec fn conflict_text(first: SideView, middle: Option<SideView>, last: SideView) -> Seq<
    u8,
> {
    "<<<<<<< ".spec_bytes() + first.1 + "\n".spec_bytes() + prefixed(first.0, Seq::empty())
        + match middle {
        Some(m) => "||||||| ".spec_bytes() + m.1 + "\n".spec_bytes() + prefixed(
            m.0,
            Seq::empty(),
        ),
        None => Seq::empty(),
    } + "=======\n".spec_bytes() + prefixed(last.0, Seq::empty()) + ">>>>>>> ".spec_bytes()
        + last.1 + "\n".spec_bytes()
}

/// Writes a conflict with conflict markers.
pub fn write_conflict(
    first: (&Vec<Vec<u8>>, &Vec<u8>),
    middle: Option<(&Vec<Vec<u8>>, &Vec<u8>)>,
    last: (&Vec<Vec<u8>>, &Vec<u8>),
    stdout: &mut Vec<u8>,
)
    ensures
        final(stdout)@ == old(stdout)@ + conflict_text(
            (lines_view(first.0@), first.1@),
            match middle {
                Some(m) => Some((lines_view(m.0@), m.1@)),
                None => None,
            },
            (lines_view(last.0@), last.1@),
        ),
{
    let empty: Vec<u8> = Vec::new();
    push_bytes(stdout, "<<<<<<< ".as_bytes());
    push_bytes(stdout, first.1.as_slice());
    push_bytes(stdout, "\n".as_bytes());
    write_lines(first.0, empty.as_slice(), stdout);
    let ghost after_first = stdout@;
    if let Some(m) = middle {
        push_bytes(stdout, "||||||| ".as_bytes());
        push_bytes(stdout, m.1.as_slice());
        push_bytes(stdout, "\n".as_bytes());
        write_lines(m.0, empty.as_slice(), stdout);
    }
    push_bytes(stdout, "=======\n".as_bytes());
    write_lines(last.0, empty.as_slice(), stdout);
    push_bytes(stdout, ">>>>>>> ".as_bytes());
    push_bytes(stdout, last.1.as_slice());
    push_bytes(stdout, "\n".as_bytes());
    assert(empty@ =~= Seq::<u8>::empty());
    assert(final(stdout)@ =~= old(stdout)@ + conflict_text(
        (lines_view(first.0@), first.1@),
        match middle {
            Some(m) => Some((lines_view(m.0@), m.1@)),
            None => None,
        },
        (lines_view(last.0@), last.1@),
    ));
}

/// How the stretch where the versions differ is written for an outcome.
pub open spec fn dump_text(v: VariantsView, labels: LabelsView, outcome: MergeOutcome) -> Seq<u8> {
    match outcome {
        MergeOutcome::MyWins => prefixed(v.mine, Seq::empty()),
        MergeOutcome::YourWins => prefixed(v.yours, Seq::empty()),
        MergeOutcome::ConflictOldYours => conflict_text(
            (v.old, labels.old),
            None,
            (v.yours, labels.yours),
        ),
        MergeOutcome::ConflictMineYours => conflict_text(
            (v.mine, labels.mine),
            None,
            (v.yours, labels.yours),
        ),
        MergeOutcome::ConflictAll => conflict_text(
            (v.mine, labels.mine),
            Some((v.old, labels.old)),
            (v.yours, labels.yours),
        ),
    }
}

impl LineVariants {
    /// Writes the stretch where the versions differ, as the outcome says.
    pub fn dump(&self, labels: &MergeLabels, merge_outcome: MergeOutcome, stdout: &mut Vec<u8>)
        ensures
            final(stdout)@ == old(stdout)@ + dump_text(self@, labels@, merge_outcome),
    {
        let empty: Vec<u8> = Vec::new();
        assert(empty@ =~= Seq::<u8>::empty());
        match merge_outcome {
            MergeOutcome::MyWins => write_lines(&self.my_lines, empty.as_slice(), stdout),
            MergeOutcome::ConflictOldYours => write_conflict(
                (&self.old_lines, &labels.old),
                None,
                (&self.your_lines, &labels.yours),
                stdout,
            ),
            MergeOutcome::ConflictMineYours => write_conflict(
                (&self.my_lines, &labels.mine),
                None,
                (&self.your_lines, &labels.yours),
                stdout,
            ),
            MergeOutcome::ConflictAll => write_conflict(
                (&self.my_lines, &labels.mine),
                Some((&self.old_lines, &labels.old)),
                (&self.your_lines, &labels.yours),
                stdout,
            ),
            MergeOutcome::YourWins => write_lines(&self.your_lines, empty.as_slice(), stdout),
        }
    }
}

/// How a hunk is written for an outcome: its common lines, then the stretch
/// where the versions differ, if there is one.
pub open spec fn hunk_text(h: MergeView, labels: LabelsView, outcome: MergeOutcome) -> Seq<u8> {
    prefixed(h.common, Seq::empty()) + if h.variants.has_conflict() {
        dump_text(h.variants, labels, outcome)
    } else {
        Seq::empty()
    }
}

impl MergeLines {
    /// Writes the hunk, as the outcome says.
    pub fn dump(&self, labels: &MergeLabels, merge_outcome: MergeOutcome, stdout: &mut Vec<u8>)
        ensures
            final(stdout)@ == old(stdout)@ + hunk_text(self@, labels@, merge_outcome),
    {
        let empty: Vec<u8> = Vec::new();
        assert(empty@ =~= Seq::<u8>::empty());
        write_lines(&self.common_lines, empty.as_slice(), stdout);
        if !self.variants.has_conflict() {
            assert(final(stdout)@ =~= old(stdout)@ + hunk_text(self@, labels@, merge_outcome));
            return ;
        }
        self.variants.dump(labels, merge_outcome, stdout);
        assert(final(stdout)@ =~= old(stdout)@ + hunk_text(self@, labels@, merge_outcome));
    }
}

/// The merged file: each hunk written with the outcome the resolution picks
/// for it.
pub open spec fn merge_text(hunks: Seq<MergeView>, labels: LabelsView, concrete: ConcreteResolution) -> Seq<u8>
    decreases hunks.len(),
{
    if hunks.len() == 0 {
        Seq::empty()
    } else {
        merge_text(hunks.drop_last(), labels, concrete) + hunk_text(
            hunks.last(),
            labels,
            hunks.last().variants.merge_outcome(concrete),
        )
    }
}

/// Writes the merged file.
pub fn write_merge(
    merged: Vec<MergeLines>,
    labels: &MergeLabels,
    resolution: Resolution,
    stdout: &mut Vec<u8>,
)
    ensures
        final(stdout)@ == old(stdout)@ + merge_text(
            crate::merge::hunks_view(merged@),
            labels@,
            spec_concrete(resolution),
        ),
{
    let concrete = ConcreteResolution::from(resolution);
    let ghost hunks = crate::merge::hunks_view(merged@);
    let ghost start = stdout@;
    let mut i: usize = 0;
    while i < merged.len()
        invariant
            hunks == crate::merge::hunks_view(merged@),
            concrete == spec_concrete(resolution),
            i <= merged@.len(),
            stdout@ == start + merge_text(hunks.take(i as int), labels@, concrete),
        decreases merged@.len() - i,
    {
        let hunk = &merged[i];
        hunk.dump(labels, hunk.variants.calculate_merge(concrete), stdout);
        let ghost done = hunks.take(i as int);
        i = i + 1;
        assert(hunks.take(i as int).drop_last() =~= done);
        assert(stdout@ =~= start + merge_text(hunks.take(i as int), labels@, concrete));
    }
    assert(hunks.take(i as int) =~= hunks);
}

/// Writing two runs of lines one after the other writes their concatenation.
pub proof fn lemma_prefixed_concat(a: Seq<Seq<u8>>, b: Seq<Seq<u8>>, prefix: Seq<u8>)
    ensures
        prefixed(a + b, prefix) == prefixed(a, prefix) + prefixed(b, prefix),
    decreases b.len(),
{
    if b.len() == 0 {
        assert(a + b =~= a);
        assert(prefixed(a, prefix) + prefixed(b, prefix) =~= prefixed(a, prefix));
    } else {
        lemma_prefixed_concat(a, b.drop_last(), prefix);
        assert((a + b).drop_last() =~= a + b.drop_last());
        assert((a + b).last() == b.last());
        assert(prefixed(a, prefix) + (prefixed(b.drop_last(), prefix) + prefix + b.last())
            =~= prefixed(a, prefix) + prefixed(b.drop_last(), prefix) + prefix + b.last());
    }
}

/// Lines written without a prefix are their concatenation.
pub proof fn lemma_joined_flatten(lines: Seq<Seq<u8>>)
    ensures
        prefixed(lines, Seq::empty()) == lines.flatten(),
    decreases lines.len(),
{
    broadcast use Seq::lemma_flatten_push;

    if lines.len() > 0 {
        lemma_joined_flatten(lines.drop_last());
        assert(lines.drop_last().push(lines.last()) =~= lines);
        assert(prefixed(lines.drop_last(), Seq::empty()) + Seq::<u8>::empty() + lines.last()
            =~= lines.drop_last().flatten() + lines.last());
    }
}

/// A hunk written as the outcome of one version winning is the hunk's lines
/// of that version.
proof fn lemma_hunk_text_wins(h: MergeView, labels: LabelsView, outcome: MergeOutcome, v: Version)
    requires
        outcome is MyWins ==> v is Mine,
        outcome is YourWins ==> v is Yours,
        outcome is MyWins || outcome is YourWins,
    ensures
        hunk_text(h, labels, outcome) == prefixed(hunk_side(h, v), Seq::empty()),
{
    lemma_prefixed_concat(h.common, h.variants.side(v), Seq::empty());
    if !h.variants.has_conflict() {
        assert(h.variants.side(v) =~= Seq::<Seq<u8>>::empty());
        assert(prefixed(h.variants.side(v), Seq::empty()) =~= Seq::<u8>::empty());
        assert(hunk_text(h, labels, outcome) =~= prefixed(h.common, Seq::empty()));
    }
}

/// When mine holds the same lines as the older version in every hunk, and the
/// resolution lets yours win where only yours changed, the merged file is
/// yours.
pub proof fn lemma_merge_text_mine_unchanged(
    hunks: Seq<MergeView>,
    labels: LabelsView,
    concrete: ConcreteResolution,
)
    requires
        forall|i: int| 0 <= i < hunks.len() ==> (#[trigger] hunks[i]).variants.mine == hunks[i].variants.old,
        concrete.only_your is YourWins,
    ensures
        merge_text(hunks, labels, concrete) == prefixed(
            hunks_side(hunks, Version::Yours),
            Seq::empty(),
        ),
    decreases hunks.len(),
{
    if hunks.len() == 0 {
        assert(hunks_side(hunks, Version::Yours) =~= Seq::<Seq<u8>>::empty());
    } else {
        let prefix = hunks.drop_last();
        let h = hunks.last();
        assert forall|i: int| 0 <= i < prefix.len() implies (#[trigger] prefix[i]).variants.mine
            == prefix[i].variants.old by {
            assert(prefix[i] == hunks[i]);
        }
        lemma_merge_text_mine_unchanged(prefix, labels, concrete);
        assert(h == hunks[hunks.len() - 1]);
        assert(h.variants.changes() is Your);
        lemma_hunk_text_wins(h, labels, MergeOutcome::YourWins, Version::Yours);
        lemma_hunks_side_last(hunks, Version::Yours);
        lemma_prefixed_concat(
            hunks_side(prefix, Version::Yours),
            hunk_side(h, Version::Yours),
            Seq::empty(),
        );
    }
}

/// When yours holds the same lines as the older version in every hunk, the
/// merged file is mine, whatever the resolution.
pub proof fn lemma_merge_text_yours_unchanged(
    hunks: Seq<MergeView>,
    labels: LabelsView,
    resolution: Resolution,
)
    requires
        forall|i: int| 0 <= i < hunks.len() ==> (#[trigger] hunks[i]).variants.old == hunks[i].variants.yours,
    ensures
        merge_text(hunks, labels, spec_concrete(resolution)) == prefixed(
            hunks_side(hunks, Version::Mine),
            Seq::empty(),
        ),
    decreases hunks.len(),
{
    let concrete = spec_concrete(resolution);
    if hunks.len() == 0 {
        assert(hunks_side(hunks, Version::Mine) =~= Seq::<Seq<u8>>::empty());
    } else {
        let prefix = hunks.drop_last();
        let h = hunks.last();
        assert forall|i: int| 0 <= i < prefix.len() implies (#[trigger] prefix[i]).variants.old
            == prefix[i].variants.yours by {
            assert(prefix[i] == hunks[i]);
        }
        lemma_merge_text_yours_unchanged(prefix, labels, resolution);
        assert(h == hunks[hunks.len() - 1]);
        let outcome = h.variants.merge_outcome(concrete);
        if h.variants.changes() is Your {
            // Mine, the older version and yours all agree here.
            if outcome is YourWins {
                lemma_hunk_text_wins(h, labels, outcome, Version::Yours);
                assert(hunk_side(h, Version::Yours) == hunk_side(h, Version::Mine));
            } else {
                lemma_hunk_text_wins(h, labels, outcome, Version::Mine);
            }
        } else {
            assert(h.variants.changes() is Mine);
            lemma_hunk_text_wins(h, labels, outcome, Version::Mine);
        }
        lemma_hunks_side_last(hunks, Version::Mine);
        lemma_prefixed_concat(
            hunks_side(prefix, Version::Mine),
            hunk_side(h, Version::Mine),
            Seq::empty(),
        );
    }
}

/// A marker line of a conflict: the marker, the side's label, a newline.
pub open spec fn marker_line(marker: Seq<u8>, label: Seq<u8>) -> Seq<u8> {
    marker + label + "\n".spec_bytes()
}

/// The lines of a conflict in the merged file: the marker lines around and
/// between the sides' lines.
pub open spec fn conflict_lines(first: SideView, middle: Option<SideView>, last: SideView) -> Seq<
    Seq<u8>,
> {
    let middle_lines = match middle {
        Some(m) => seq![marker_line("||||||| ".spec_bytes(), m.1)] + m.0,
        None => Seq::empty(),
    };
    seq![marker_line("<<<<<<< ".spec_bytes(), first.1)] + first.0 + middle_lines + seq![
        "=======\n".spec_bytes(),
    ] + last.0 + seq![marker_line(">>>>>>> ".spec_bytes(), last.1)]
}

/// The lines that the merged file holds for a stretch where the versions
/// differ, for an outcome: the winner's lines, or the conflict's lines.
pub open spec fn merged_lines(v: VariantsView, labels: LabelsView, outcome: MergeOutcome) -> Seq<
    Seq<u8>,
> {
    match outcome {
        MergeOutcome::MyWins => v.mine,
        MergeOutcome::YourWins => v.yours,
        MergeOutcome::ConflictOldYours => conflict_lines(
            (v.old, labels.old),
            None,
            (v.yours, labels.yours),
        ),
        MergeOutcome::ConflictMineYours => conflict_lines(
            (v.mine, labels.mine),
            None,
            (v.yours, labels.yours),
        ),
        MergeOutcome::ConflictAll => conflict_lines(
            (v.mine, labels.mine),
            Some((v.old, labels.old)),
            (v.yours, labels.yours),
        ),
    }
}

/// One line written without a prefix is that line.
proof fn lemma_prefixed_one(x: Seq<u8>)
    ensures
        prefixed(seq![x], Seq::empty()) == x,
{
    let e: Seq<u8> = Seq::empty();
    assert(seq![x].drop_last() =~= Seq::<Seq<u8>>::empty());
    assert(prefixed(seq![x].drop_last(), e) =~= e);
    assert(seq![x].last() == x);
    assert(prefixed(seq![x], e) == prefixed(seq![x].drop_last(), e) + e + x);
    assert(e + e + x =~= x);
}

/// A conflict's text is its lines written one after the other.
proof fn lemma_conflict_lines(first: SideView, middle: Option<SideView>, last: SideView)
    ensures
        conflict_text(first, middle, last) == prefixed(
            conflict_lines(first, middle, last),
            Seq::empty(),
        ),
{
    let e: Seq<u8> = Seq::empty();
    let open = marker_line("<<<<<<< ".spec_bytes(), first.1);
    let sep = "=======\n".spec_bytes();
    let close = marker_line(">>>>>>> ".spec_bytes(), last.1);
    let middle_lines: Seq<Seq<u8>> = match middle {
        Some(m) => seq![marker_line("||||||| ".spec_bytes(), m.1)] + m.0,
        None => Seq::empty(),
    };
    lemma_prefixed_one(open);
    lemma_prefixed_one(sep);
    lemma_prefixed_one(close);
    let a = seq![open] + first.0;
    let b = a + middle_lines;
    let c = b + seq![sep];
    let d = c + last.0;
    lemma_prefixed_concat(seq![open], first.0, e);
    lemma_prefixed_concat(a, middle_lines, e);
    lemma_prefixed_concat(b, seq![sep], e);
    lemma_prefixed_concat(c, last.0, e);
    lemma_prefixed_concat(d, seq![close], e);
    let middle_text: Seq<u8> = match middle {
        Some(m) => "||||||| ".spec_bytes() + m.1 + "\n".spec_bytes() + prefixed(m.0, e),
        None => e,
    };
    if let Some(m) = middle {
        let mk = marker_line("||||||| ".spec_bytes(), m.1);
        lemma_prefixed_one(mk);
        lemma_prefixed_concat(seq![mk], m.0, e);
        assert(prefixed(middle_lines, e) =~= middle_text);
    } else {
        assert(prefixed(middle_lines, e) =~= middle_text);
    }
    assert(conflict_text(first, middle, last) =~= open + prefixed(first.0, e) + middle_text + sep
        + prefixed(last.0, e) + close);
}

/// A stretch is written as its merged lines one after the other.
pub proof fn lemma_dump_lines(v: VariantsView, labels: LabelsView, outcome: MergeOutcome)
    ensures
        dump_text(v, labels, outcome) == prefixed(merged_lines(v, labels, outcome), Seq::empty()),
{
    match outcome {
        MergeOutcome::ConflictOldYours => lemma_conflict_lines(
            (v.old, labels.old),
            None,
            (v.yours, labels.yours),
        ),
        MergeOutcome::ConflictMineYours => lemma_conflict_lines(
            (v.mine, labels.mine),
            None,
            (v.yours, labels.yours),
        ),
        MergeOutcome::ConflictAll => lemma_conflict_lines(
            (v.mine, labels.mine),
            Some((v.old, labels.old)),
            (v.yours, labels.yours),
        ),
        _ => {},
    }
}

/// The lines of the merged file for a hunk: its common lines, then, where the
/// versions differ, the lines the outcome gives.
pub open spec fn hunk_lines(h: MergeView, labels: LabelsView, outcome: MergeOutcome) -> Seq<
    Seq<u8>,
> {
    h.common + if h.variants.has_conflict() {
        merged_lines(h.variants, labels, outcome)
    } else {
        Seq::empty()
    }
}

/// The lines of the merged file for a sequence of hunks.
pub open spec fn merged_file(hunks: Seq<MergeView>, labels: LabelsView, concrete: ConcreteResolution) -> Seq<
    Seq<u8>,
>
    decreases hunks.len(),
{
    if hunks.len() == 0 {
        Seq::empty()
    } else {
        hunk_lines(hunks[0], labels, hunks[0].variants.merge_outcome(concrete)) + merged_file(
            hunks.drop_first(),
            labels,
            concrete,
        )
    }
}

/// The merged file is its lines written one after the other.
pub proof fn lemma_merge_text_lines(
    hunks: Seq<MergeView>,
    labels: LabelsView,
    concrete: ConcreteResolution,
)
    ensures
        merge_text(hunks, labels, concrete) == prefixed(
            merged_file(hunks, labels, concrete),
            Seq::empty(),
        ),
    decreases hunks.len(),
{
    let e: Seq<u8> = Seq::empty();
    if hunks.len() == 0 {
        assert(merged_file(hunks, labels, concrete) =~= Seq::<Seq<u8>>::empty());
    } else {
        let prefix = hunks.drop_last();
        let h = hunks.last();
        lemma_merge_text_lines(prefix, labels, concrete);
        lemma_merged_file_last(hunks, labels, concrete);
        let outcome = h.variants.merge_outcome(concrete);
        lemma_dump_lines(h.variants, labels, outcome);
        let tail: Seq<Seq<u8>> = if h.variants.has_conflict() {
            merged_lines(h.variants, labels, outcome)
        } else {
            Seq::empty()
        };
        lemma_prefixed_concat(h.common, tail, e);
        lemma_prefixed_concat(merged_file(prefix, labels, concrete), hunk_lines(h, labels, outcome), e);
        if !h.variants.has_conflict() {
            assert(prefixed(tail, e) =~= e);
        }
        assert(hunk_text(h, labels, outcome) =~= prefixed(hunk_lines(h, labels, outcome), e));
    }
}

/// The merged file's lines, split before the last hunk.
proof fn lemma_merged_file_last(hunks: Seq<MergeView>, labels: LabelsView, concrete: ConcreteResolution)
    requires
        hunks.len() > 0,
    ensures
        merged_file(hunks, labels, concrete) == merged_file(hunks.drop_last(), labels, concrete)
            + hunk_lines(hunks.last(), labels, hunks.last().variants.merge_outcome(concrete)),
    decreases hunks.len(),
{
    let e: Seq<Seq<u8>> = Seq::empty();
    if hunks.len() == 1 {
        assert(hunks.drop_first() =~= Seq::<MergeView>::empty());
        assert(hunks.drop_last() =~= Seq::<MergeView>::empty());
        assert(merged_file(hunks.drop_first(), labels, concrete) =~= e);
        assert(merged_file(hunks.drop_last(), labels, concrete) =~= e);
        let x = hunk_lines(hunks[0], labels, hunks[0].variants.merge_outcome(concrete));
        assert(x + e =~= x);
        assert(e + x =~= x);
    } else {
        let rest = hunks.drop_first();
        lemma_merged_file_last(rest, labels, concrete);
        assert(rest.drop_last() =~= hunks.drop_last().drop_first());
        assert(hunks.drop_last()[0] == hunks[0]);
        assert(rest.last() == hunks.last());
        let x = hunk_lines(hunks[0], labels, hunks[0].variants.merge_outcome(concrete));
        let y = hunk_lines(hunks.last(), labels, hunks.last().variants.merge_outcome(concrete));
        assert(x + (merged_file(rest.drop_last(), labels, concrete) + y) =~= (x + merged_file(
            rest.drop_last(),
            labels,
            concrete,
        )) + y);
    }
}

} // verus!
