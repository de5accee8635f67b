//! The normal (default) and the ed output formats of a three-way comparison.

use vstd::prelude::*;
use vstd::string::StringSliceAdditionalSpecFns;

use crate::align::Version;
use crate::lines::lines_view;
use crate::merge::{
    hunk_side, hunks_side, hunks_view, spec_concrete, Changed, ConcreteResolution, MergeLines,
    MergeOutcome, MergeView, Resolution,
};
use crate::output::{
    decimal, dump_text, hunk_lines, lemma_dump_lines, lemma_merge_text_lines, merge_text,
    merged_file, merged_lines, prefixed, push_bytes, push_decimal, write_lines, LabelsView,
    MergeLabels,
};

verus! {

/// An ed command that a hunk header names: append after a line, or change or
/// delete a range of lines (a start and how many lines follow it).
#[derive(Clone, Copy, Debug, PartialEq, Eq, Structural)]
pub enum EdOperation {
    Add(usize),
    Change(usize, usize),
    Delete(usize, usize),
}

/// A range of lines, counted from one: its first line alone when it holds one
/// line, else its first and last lines separated by a comma.
pub open spec fn range_text(pos: nat, count: nat) -> Seq<u8> {
    if count == 0 {
        decimal(pos + 1)
    } else {
        decimal(pos + 1) + ",".spec_bytes() + decimal(pos + count + 1)
    }
}

impl EdOperation {
    /// The numbers of the header fit in a `usize`.
    pub open spec fn fits(self) -> bool {
        match self {
            EdOperation::Add(_) => true,
            EdOperation::Change(pos, count) => pos + count + 1 <= usize::MAX,
            EdOperation::Delete(pos, count) => pos + count + 1 <= usize::MAX,
        }
    }

    /// The header line of the command.
    pub open spec fn header_text(self) -> Seq<u8> {
        match self {
            EdOperation::Add(pos) => decimal(pos as nat) + "a\n".spec_bytes(),
            EdOperation::Change(pos, count) => range_text(pos as nat, count as nat)
                + "c\n".spec_bytes(),
            EdOperation::Delete(pos, count) => range_text(pos as nat, count as nat)
                + "d\n".spec_bytes(),
        }
    }

    /// Writes the header line of the command.
    pub fn write_header(&self, output: &mut Vec<u8>)
        requires
            self.fits(),
        ensures
            final(output)@ == old(output)@ + self.header_text(),
    {
        match *self {
            EdOperation::Add(pos) => {
                push_decimal(output, pos);
                push_bytes(output, "a\n".as_bytes());
            },
            EdOperation::Change(pos, count) => {
                write_range(output, pos, count);
                push_bytes(output, "c\n".as_bytes());
            },
            EdOperation::Delete(pos, count) => {
                write_range(output, pos, count);
                push_bytes(output, "d\n".as_bytes());
            },
        }
        assert(final(output)@ =~= old(output)@ + self.header_text());
    }
}

/// Writes a range of lines.
fn write_range(output: &mut Vec<u8>, pos: usize, count: usize)
    requires
        pos + count + 1 <= usize::MAX,
    ensures
        final(output)@ == old(output)@ + range_text(pos as nat, count as nat),
{
    push_decimal(output, pos + 1);
    if count != 0 {
        push_bytes(output, ",".as_bytes());
        push_decimal(output, pos + count + 1);
    }
    assert(final(output)@ =~= old(output)@ + range_text(pos as nat, count as nat));
}

/// The ed command that replaces `left_lines` lines after `pos`: an append when
/// there are none, else a delete when nothing replaces them, else a change.
pub open spec fn spec_make_operation(pos: usize, left_lines: usize, right_empty: bool) -> EdOperation {
    if left_lines == 0 {
        EdOperation::Add(pos)
    } else if right_empty {
        EdOperation::Delete(pos, (left_lines - 1) as usize)
    } else {
        EdOperation::Change(pos, (left_lines - 1) as usize)
    }
}

/// The ed command that replaces `left_lines` lines after `pos`.
pub fn make_operation(pos: usize, left_lines: usize, right_empty: bool) -> (op: EdOperation)
    ensures
        op == spec_make_operation(pos, left_lines, right_empty),
{
    if left_lines == 0 {
        EdOperation::Add(pos)
    } else if right_empty {
        EdOperation::Delete(pos, left_lines - 1)
    } else {
        EdOperation::Change(pos, left_lines - 1)
    }
}

/// The header of version `i`'s part of a normal-format hunk: the version's
/// number, a colon, and an append after line `n` when the version holds no
/// lines here, else a change of its `count` lines after line `n`.
pub open spec fn normal_header(i: usize, count: nat, n: nat) -> Seq<u8> {
    let op = if count == 0 {
        EdOperation::Add(n as usize)
    } else {
        EdOperation::Change(n as usize, (count - 1) as usize)
    };
    decimal(i as nat) + ":".spec_bytes() + op.header_text()
}

/// A normal-format hunk, where the lines before it number `m` in mine, `o` in
/// the older version and `y` in yours: a banner that names the one version
/// that changed (`====1`, `====3`) or none (`====`), then for each version a
/// header and, unless they equal another version's, its lines indented by two
/// spaces. A hunk where the versions agree writes nothing.
#[verifier::opaque]
pub open spec fn normal_hunk(h: MergeView, m: nat, o: nat, y: nat) -> Seq<u8> {
    let v = h.variants;
    let indent = "  ".spec_bytes();
    let banner = match v.changes() {
        Changed::Mine => "====1\n".spec_bytes(),
        Changed::Your => "====3\n".spec_bytes(),
        _ => "====\n".spec_bytes(),
    };
    let mine = if v.changes() is Your {
        Seq::empty()
    } else {
        prefixed(v.mine, indent)
    };
    let older = if v.changes() is Mine {
        Seq::empty()
    } else {
        prefixed(v.old, indent)
    };
    if !v.has_conflict() {
        Seq::empty()
    } else {
        banner + normal_header(1, v.mine.len(), m) + mine + normal_header(2, v.old.len(), o) + older
            + normal_header(3, v.yours.len(), y) + prefixed(v.yours, indent)
    }
}

/// The normal format of a sequence of hunks, after `m`, `o` and `y` lines of
/// mine, the older version and yours.
pub open spec fn normal_text(hunks: Seq<MergeView>, m: nat, o: nat, y: nat) -> Seq<u8>
    decreases hunks.len(),
{
    if hunks.len() == 0 {
        Seq::empty()
    } else {
        let h = hunks[0];
        let c = h.common.len();
        normal_hunk(h, m + c, o + c, y + c) + normal_text(
            hunks.drop_first(),
            m + c + h.variants.mine.len(),
            o + c + h.variants.old.len(),
            y + c + h.variants.yours.len(),
        )
    }
}

/// Version `i`'s part of a normal-format hunk: its header, then its lines
/// indented by two spaces when they are shown.
pub open spec fn part_text(i: usize, lines: Seq<Seq<u8>>, n: nat, show_lines: bool) -> Seq<u8> {
    normal_header(i, lines.len(), n) + if show_lines {
        prefixed(lines, "  ".spec_bytes())
    } else {
        Seq::empty()
    }
}

/// A normal-format hunk where the versions differ, as its banner and the
/// parts of mine, the older version and yours.
proof fn lemma_normal_hunk_parts(
    h: MergeView,
    m: nat,
    o: nat,
    y: nat,
    banner: Seq<u8>,
    part1: Seq<u8>,
    part2: Seq<u8>,
    part3: Seq<u8>,
)
    requires
        h.variants.has_conflict(),
        banner == match h.variants.changes() {
            Changed::Mine => "====1\n".spec_bytes(),
            Changed::Your => "====3\n".spec_bytes(),
            _ => "====\n".spec_bytes(),
        },
        part1 == part_text(1, h.variants.mine, m, !(h.variants.changes() is Your)),
        part2 == part_text(2, h.variants.old, o, !(h.variants.changes() is Mine)),
        part3 == part_text(3, h.variants.yours, y, true),
    ensures
        normal_hunk(h, m, o, y) == banner + part1 + part2 + part3,
{
    reveal(normal_hunk);
    assert(normal_hunk(h, m, o, y) =~= banner + part1 + part2 + part3);
}

/// In the normal format, each hunk names its place in each version by the
/// lines of that version before it: the last hunk is written after the others
/// with positions that count, for each version, the starting count, that
/// version's lines in all earlier hunks and the hunk's common lines.
pub proof fn lemma_normal_text_last(hunks: Seq<MergeView>, m: nat, o: nat, y: nat)
    requires
        hunks.len() > 0,
    ensures
        ({
            let before = hunks.drop_last();
            let h = hunks.last();
            let c = h.common.len();
            normal_text(hunks, m, o, y) == normal_text(before, m, o, y) + normal_hunk(
                h,
                m + hunks_side(before, Version::Mine).len() + c,
                o + hunks_side(before, Version::Old).len() + c,
                y + hunks_side(before, Version::Yours).len() + c,
            )
        }),
    decreases hunks.len(),
{
    let h0 = hunks[0];
    let c0 = h0.common.len();
    let rest = hunks.drop_first();
    let e: Seq<u8> = Seq::empty();
    if hunks.len() == 1 {
        assert(rest =~= Seq::<MergeView>::empty());
        assert(hunks.drop_last() =~= Seq::<MergeView>::empty());
        assert(normal_text(rest, m + c0 + h0.variants.mine.len(), o + c0 + h0.variants.old.len(),
            y + c0 + h0.variants.yours.len()) =~= e);
        assert(normal_text(hunks.drop_last(), m, o, y) =~= e);
        assert(normal_text(hunks, m, o, y) =~= normal_hunk(h0, m + c0, o + c0, y + c0) + e);
        assert(e + normal_hunk(h0, m + c0, o + c0, y + c0) =~= normal_hunk(
            h0,
            m + c0,
            o + c0,
            y + c0,
        ));
    } else {
        let m1 = m + c0 + h0.variants.mine.len();
        let o1 = o + c0 + h0.variants.old.len();
        let y1 = y + c0 + h0.variants.yours.len();
        lemma_normal_text_last(rest, m1, o1, y1);
        let before = hunks.drop_last();
        assert(rest.drop_last() =~= before.drop_first());
        assert(before[0] == h0);
        assert(rest.last() == hunks.last());
        assert(hunks_side(before, Version::Mine).len() == c0 + h0.variants.mine.len()
            + hunks_side(rest.drop_last(), Version::Mine).len());
        assert(hunks_side(before, Version::Old).len() == c0 + h0.variants.old.len() + hunks_side(
            rest.drop_last(),
            Version::Old,
        ).len());
        assert(hunks_side(before, Version::Yours).len() == c0 + h0.variants.yours.len()
            + hunks_side(rest.drop_last(), Version::Yours).len());
        let hl = hunks.last();
        let cl = hl.common.len();
        let last = normal_hunk(
            hl,
            m1 + hunks_side(rest.drop_last(), Version::Mine).len() + cl,
            o1 + hunks_side(rest.drop_last(), Version::Old).len() + cl,
            y1 + hunks_side(rest.drop_last(), Version::Yours).len() + cl,
        );
        assert(normal_hunk(h0, m + c0, o + c0, y + c0) + (normal_text(rest.drop_last(), m1, o1, y1)
            + last) =~= (normal_hunk(h0, m + c0, o + c0, y + c0) + normal_text(
            rest.drop_last(),
            m1,
            o1,
            y1,
        )) + last);
    }
}

/// Hunks where the versions never differ write nothing in the normal format.
pub proof fn lemma_normal_text_no_conflict(hunks: Seq<MergeView>, m: nat, o: nat, y: nat)
    requires
        forall|i: int| 0 <= i < hunks.len() ==> !(#[trigger] hunks[i]).variants.has_conflict(),
    ensures
        normal_text(hunks, m, o, y) == Seq::<u8>::empty(),
    decreases hunks.len(),
{
    if hunks.len() > 0 {
        let h = hunks[0];
        let c = h.common.len();
        let rest = hunks.drop_first();
        assert forall|i: int| 0 <= i < rest.len() implies !(#[trigger] rest[i]).variants.has_conflict() by {
            assert(rest[i] == hunks[i + 1]);
        }
        lemma_normal_text_no_conflict(
            rest,
            m + c + h.variants.mine.len(),
            o + c + h.variants.old.len(),
            y + c + h.variants.yours.len(),
        );
        reveal(normal_hunk);
        assert(normal_hunk(h, m + c, o + c, y + c) =~= Seq::<u8>::empty());
        assert(normal_text(hunks, m, o, y) =~= Seq::<u8>::empty());
    }
}

/// Writes hunks in the normal output format, counting the lines of each
/// version as it goes.
pub struct NormalWriter<'a> {
    pub merged: &'a Vec<MergeLines>,
    pub output: Vec<u8>,
    pub my_line_n: usize,
    pub old_line_n: usize,
    pub your_line_n: usize,
}

impl<'a> NormalWriter<'a> {
    /// The line counts stay within a `usize` while `hunks` are written.
    pub open spec fn counts_fit(&self, hunks: Seq<MergeView>) -> bool {
        &&& self.my_line_n + hunks_side(hunks, Version::Mine).len() <= usize::MAX
        &&& self.old_line_n + hunks_side(hunks, Version::Old).len() <= usize::MAX
        &&& self.your_line_n + hunks_side(hunks, Version::Yours).len() <= usize::MAX
    }

    /// Writes all hunks in the normal, default output format.
    pub fn write_normal(&mut self)
        requires
            old(self).counts_fit(hunks_view(old(self).merged@)),
        ensures
            final(self).merged == old(self).merged,
            final(self).output@ == old(self).output@ + normal_text(
                hunks_view(old(self).merged@),
                old(self).my_line_n as nat,
                old(self).old_line_n as nat,
                old(self).your_line_n as nat,
            ),
            final(self).my_line_n == old(self).my_line_n + hunks_side(
                hunks_view(old(self).merged@),
                Version::Mine,
            ).len(),
            final(self).old_line_n == old(self).old_line_n + hunks_side(
                hunks_view(old(self).merged@),
                Version::Old,
            ).len(),
            final(self).your_line_n == old(self).your_line_n + hunks_side(
                hunks_view(old(self).merged@),
                Version::Yours,
            ).len(),
    {
        let merged = self.merged;
        let ghost hunks = hunks_view(merged@);
        let ghost start = self.output@;
        let ghost m0 = self.my_line_n as nat;
        let ghost o0 = self.old_line_n as nat;
        let ghost y0 = self.your_line_n as nat;
        let ghost total = normal_text(hunks, m0, o0, y0);
        let mut i: usize = 0;
        assert(hunks.skip(0) =~= hunks);
        assert(self.output@ + normal_text(hunks.skip(0), m0, o0, y0) =~= start + total);
        while i < merged.len()
            invariant
                self.merged == merged,
                hunks == hunks_view(merged@),
                total == normal_text(hunks, m0, o0, y0),
                i <= merged@.len(),
                self.output@ + normal_text(
                    hunks.skip(i as int),
                    self.my_line_n as nat,
                    self.old_line_n as nat,
                    self.your_line_n as nat,
                ) == start + total,
                self.my_line_n + hunks_side(hunks.skip(i as int), Version::Mine).len() == m0
                    + hunks_side(hunks, Version::Mine).len(),
                self.old_line_n + hunks_side(hunks.skip(i as int), Version::Old).len() == o0
                    + hunks_side(hunks, Version::Old).len(),
                self.your_line_n + hunks_side(hunks.skip(i as int), Version::Yours).len() == y0
                    + hunks_side(hunks, Version::Yours).len(),
                m0 + hunks_side(hunks, Version::Mine).len() <= usize::MAX,
                o0 + hunks_side(hunks, Version::Old).len() <= usize::MAX,
                y0 + hunks_side(hunks, Version::Yours).len() <= usize::MAX,
            decreases merged@.len() - i,
        {
            let match_ = &merged[i];
            let ghost h = hunks[i as int];
            let ghost rest = hunks.skip(i + 1);
            assert(hunks.skip(i as int).drop_first() =~= rest);
            assert(hunks.skip(i as int)[0] == h);
            assert(h == match_@);
            assert(hunks_side(hunks.skip(i as int), Version::Mine) == hunk_side(h, Version::Mine)
                + hunks_side(rest, Version::Mine));
            assert(hunks_side(hunks.skip(i as int), Version::Old) == hunk_side(h, Version::Old)
                + hunks_side(rest, Version::Old));
            assert(hunks_side(hunks.skip(i as int), Version::Yours) == hunk_side(h, Version::Yours)
                + hunks_side(rest, Version::Yours));
            let ghost before = self.output@;
            let ghost m = self.my_line_n as nat;
            let ghost o = self.old_line_n as nat;
            let ghost y = self.your_line_n as nat;
            self.write_merge_lines(match_);
            self.my_line_n = self.my_line_n + match_.variants.my_lines.len();
            self.old_line_n = self.old_line_n + match_.variants.old_lines.len();
            self.your_line_n = self.your_line_n + match_.variants.your_lines.len();
            i = i + 1;
            assert(self.output@ + normal_text(
                hunks.skip(i as int),
                self.my_line_n as nat,
                self.old_line_n as nat,
                self.your_line_n as nat,
            ) =~= before + normal_text(hunks.skip(i - 1), m, o, y));
        }
        assert(hunks.skip(i as int) =~= Seq::<MergeView>::empty());
        assert(self.output@ + normal_text(
            hunks.skip(i as int),
            self.my_line_n as nat,
            self.old_line_n as nat,
            self.your_line_n as nat,
        ) =~= self.output@);
    }

    /// Writes one hunk in the normal output format, after counting its
    /// common lines.
    pub fn write_merge_lines(&mut self, match_: &MergeLines)
        requires
            old(self).my_line_n + hunk_side(match_@, Version::Mine).len() <= usize::MAX,
            old(self).old_line_n + hunk_side(match_@, Version::Old).len() <= usize::MAX,
            old(self).your_line_n + hunk_side(match_@, Version::Yours).len() <= usize::MAX,
        ensures
            final(self).merged == old(self).merged,
            final(self).my_line_n == old(self).my_line_n + match_@.common.len(),
            final(self).old_line_n == old(self).old_line_n + match_@.common.len(),
            final(self).your_line_n == old(self).your_line_n + match_@.common.len(),
            final(self).output@ == old(self).output@ + normal_hunk(
                match_@,
                final(self).my_line_n as nat,
                final(self).old_line_n as nat,
                final(self).your_line_n as nat,
            ),
    {
        let common = match_.common_lines.len();
        self.my_line_n = self.my_line_n + common;
        self.old_line_n = self.old_line_n + common;
        self.your_line_n = self.your_line_n + common;
        if !match_.variants.has_conflict() {
            reveal(normal_hunk);
            assert(self.output@ =~= old(self).output@ + normal_hunk(
                match_@,
                self.my_line_n as nat,
                self.old_line_n as nat,
                self.your_line_n as nat,
            ));
            return ;
        }
        let ghost v = match_@.variants;
        let ghost start = self.output@;
        let ghost banner = match v.changes() {
            Changed::Mine => "====1\n".spec_bytes(),
            Changed::Your => "====3\n".spec_bytes(),
            _ => "====\n".spec_bytes(),
        };
        let changes = match_.variants.infer_changes();
        match changes {
            Changed::Mine => push_bytes(&mut self.output, "====1\n".as_bytes()),
            Changed::Your => push_bytes(&mut self.output, "====3\n".as_bytes()),
            Changed::YourMine | Changed::YourMineSame => push_bytes(
                &mut self.output,
                "====\n".as_bytes(),
            ),
        }
        assert(self.output@ == start + banner);
        let n1 = self.my_line_n;
        let n2 = self.old_line_n;
        let n3 = self.your_line_n;
        let ghost s1 = self.output@;
        self.write_part(1, &match_.variants.my_lines, n1, !matches!(changes, Changed::Your));
        let ghost s2 = self.output@;
        self.write_part(2, &match_.variants.old_lines, n2, !matches!(changes, Changed::Mine));
        let ghost s3 = self.output@;
        self.write_part(3, &match_.variants.your_lines, n3, true);
        proof {
            let indent = "  ".spec_bytes();
            let part1 = part_text(1, v.mine, n1 as nat, !(v.changes() is Your));
            let part2 = part_text(2, v.old, n2 as nat, !(v.changes() is Mine));
            let part3 = part_text(3, v.yours, n3 as nat, true);
            assert(prefixed(v.yours, indent) + Seq::<u8>::empty() =~= prefixed(v.yours, indent));
            lemma_normal_hunk_parts(match_@, n1 as nat, n2 as nat, n3 as nat, banner, part1, part2, part3);
            assert(self.output@ =~= start + (banner + part1 + part2 + part3));
        }
    }

    /// Writes version `i`'s part of a normal-format hunk: its header and, when
    /// `show_lines`, its lines indented by two spaces.
    fn write_part(&mut self, i: usize, lines: &Vec<Vec<u8>>, n: usize, show_lines: bool)
        requires
            n + lines@.len() <= usize::MAX,
        ensures
            final(self).merged == old(self).merged,
            final(self).my_line_n == old(self).my_line_n,
            final(self).old_line_n == old(self).old_line_n,
            final(self).your_line_n == old(self).your_line_n,
            final(self).output@ == old(self).output@ + part_text(
                i,
                lines_view(lines@),
                n as nat,
                show_lines,
            ),
    {
        self.write_header(i, lines.len(), n);
        if show_lines {
            write_lines(lines, "  ".as_bytes(), &mut self.output);
        }
        assert(self.output@ =~= old(self).output@ + part_text(
            i,
            lines_view(lines@),
            n as nat,
            show_lines,
        ));
    }

    /// Writes the header of version `i`'s part of a normal-format hunk.
    pub fn write_header(&mut self, i: usize, line_count: usize, n: usize)
        requires
            n + line_count <= usize::MAX,
        ensures
            final(self).merged == old(self).merged,
            final(self).my_line_n == old(self).my_line_n,
            final(self).old_line_n == old(self).old_line_n,
            final(self).your_line_n == old(self).your_line_n,
            final(self).output@ == old(self).output@ + normal_header(i, line_count as nat, n as nat),
    {
        push_decimal(&mut self.output, i);
        push_bytes(&mut self.output, ":".as_bytes());
        let op = if line_count == 0 {
            EdOperation::Add(n)
        } else {
            EdOperation::Change(n, line_count - 1)
        };
        op.write_header(&mut self.output);
        assert(self.output@ =~= old(self).output@ + normal_header(i, line_count as nat, n as nat));
    }
}

/// How far a hunk moves the position in the merged file, and how many lines
/// replace mine there.
pub open spec fn ed_offsets(v: crate::merge::VariantsView, merge: MergeOutcome) -> (nat, nat) {
    match merge {
        MergeOutcome::MyWins => (v.mine.len(), 0),
        MergeOutcome::YourWins => (v.yours.len(), v.yours.len()),
        MergeOutcome::ConflictOldYours => (
            v.yours.len() + v.old.len() + 3,
            v.yours.len() + v.old.len() + 3,
        ),
        MergeOutcome::ConflictMineYours => (
            v.yours.len() + v.mine.len() + 3,
            v.yours.len() + v.mine.len() + 3,
        ),
        MergeOutcome::ConflictAll => (
            v.yours.len() + v.mine.len() + v.old.len() + 4,
            v.yours.len() + v.mine.len() + v.old.len() + 4,
        ),
    }
}

/// Where the next hunk starts in the merged file, after a hunk that starts
/// at `pos`.
pub open spec fn ed_next(h: MergeView, concrete: ConcreteResolution, pos: nat) -> nat {
    pos + h.common.len() + ed_offsets(h.variants, h.variants.merge_outcome(concrete)).0
}

/// The positions of an ed command for a hunk that starts at `pos` fit in a
/// `usize`.
pub open spec fn ed_hunk_fits(h: MergeView, concrete: ConcreteResolution, pos: nat) -> bool {
    &&& pos + h.common.len() + h.variants.mine.len() <= usize::MAX
    &&& ed_next(h, concrete, pos) <= usize::MAX
}

/// The positions of an ed script over these hunks, from `pos`, fit in a
/// `usize`.
pub open spec fn ed_fits(hunks: Seq<MergeView>, concrete: ConcreteResolution, pos: nat) -> bool
    decreases hunks.len(),
{
    if hunks.len() == 0 {
        true
    } else {
        &&& ed_hunk_fits(hunks[0], concrete, pos)
        &&& ed_fits(hunks.drop_first(), concrete, ed_next(hunks[0], concrete, pos))
    }
}

/// The ed command for a hunk that starts at line `pos` of the merged file:
/// none when mine wins it, else a header that replaces mine's lines after the
/// common ones, the hunk's text as the outcome says, and a line holding a
/// single dot.
pub open spec fn ed_command(
    h: MergeView,
    labels: LabelsView,
    concrete: ConcreteResolution,
    pos: nat,
) -> Seq<u8> {
    let p = pos + h.common.len();
    let merge = h.variants.merge_outcome(concrete);
    let right = ed_offsets(h.variants, merge).1;
    if merge is MyWins {
        Seq::empty()
    } else {
        spec_make_operation(p as usize, h.variants.mine.len() as usize, right == 0).header_text()
            + dump_text(h.variants, labels, merge) + ".\n".spec_bytes()
    }
}

/// The ed script for these hunks, from line `pos` of the merged file.
pub open spec fn ed_text(
    hunks: Seq<MergeView>,
    labels: LabelsView,
    concrete: ConcreteResolution,
    pos: nat,
) -> Seq<u8>
    decreases hunks.len(),
{
    if hunks.len() == 0 {
        Seq::empty()
    } else {
        ed_command(hunks[0], labels, concrete, pos) + ed_text(
            hunks.drop_first(),
            labels,
            concrete,
            ed_next(hunks[0], concrete, pos),
        )
    }
}

/// Writes the ed command for a hunk that starts at line `pos` of the merged
/// file, and returns where the next hunk starts.
fn write_ed_hunk(
    output: &mut Vec<u8>,
    ml: &MergeLines,
    labels: &MergeLabels,
    concrete: ConcreteResolution,
    pos: usize,
) -> (next: usize)
    requires
        ed_hunk_fits(ml@, concrete, pos as nat),
    ensures
        final(output)@ == old(output)@ + ed_command(ml@, labels@, concrete, pos as nat),
        next == ed_next(ml@, concrete, pos as nat),
{
    let start = pos;
    let pos = pos + ml.common_lines.len();
    let merge = ml.variants.calculate_merge(concrete);
    let (offset, right_lines): (usize, usize) = match merge {
        MergeOutcome::MyWins => (ml.variants.my_lines.len(), 0),
        MergeOutcome::YourWins => {
            let your_count = ml.variants.your_lines.len();
            (your_count, your_count)
        },
        MergeOutcome::ConflictOldYours => {
            let con_count = ml.variants.your_lines.len() + ml.variants.old_lines.len() + 3;
            (con_count, con_count)
        },
        MergeOutcome::ConflictMineYours => {
            let con_count = ml.variants.your_lines.len() + ml.variants.my_lines.len() + 3;
            (con_count, con_count)
        },
        MergeOutcome::ConflictAll => {
            let con_count = ml.variants.your_lines.len() + ml.variants.my_lines.len()
                + ml.variants.old_lines.len() + 4;
            (con_count, con_count)
        },
    };
    assert((offset as nat, right_lines as nat) == ed_offsets(ml@.variants, merge));
    if !matches!(merge, MergeOutcome::MyWins) {
        let op = make_operation(pos, ml.variants.my_lines.len(), right_lines == 0);
        op.write_header(output);
        ml.variants.dump(labels, merge, output);
        push_bytes(output, ".\n".as_bytes());
    }
    assert(final(output)@ =~= old(output)@ + ed_command(ml@, labels@, concrete, start as nat));
    pos + offset
}

/// The addresses of the ed script are line numbers of the merged file: after
/// a hunk, the next command's position has moved past the hunk's common lines
/// and the lines the merged file holds for its differing stretch, which is
/// mine's lines where mine wins.
pub proof fn lemma_ed_addresses(h: MergeView, labels: LabelsView, concrete: ConcreteResolution, pos: nat)
    ensures
        ed_next(h, concrete, pos) == pos + h.common.len() + merged_lines(
            h.variants,
            labels,
            h.variants.merge_outcome(concrete),
        ).len(),
        h.variants.merge_outcome(concrete) is MyWins ==> ed_next(h, concrete, pos) == pos
            + hunk_side(h, Version::Mine).len(),
{
}

/// One command of an ed script: what it does, and the lines it inserts.
pub type EdCommand = (EdOperation, Seq<Seq<u8>>);

/// The commands of the ed script for these hunks, from line `pos`.
pub open spec fn ed_script(
    hunks: Seq<MergeView>,
    labels: LabelsView,
    concrete: ConcreteResolution,
    pos: nat,
) -> Seq<EdCommand>
    decreases hunks.len(),
{
    if hunks.len() == 0 {
        Seq::empty()
    } else {
        let h = hunks[0];
        let p = pos + h.common.len();
        let merge = h.variants.merge_outcome(concrete);
        let right = ed_offsets(h.variants, merge).1;
        let command: Seq<EdCommand> = if merge is MyWins {
            Seq::empty()
        } else {
            seq![
                (
                    spec_make_operation(p as usize, h.variants.mine.len() as usize, right == 0),
                    merged_lines(h.variants, labels, merge),
                ),
            ]
        };
        command + ed_script(hunks.drop_first(), labels, concrete, ed_next(h, concrete, pos))
    }
}

/// How commands are written: each header, its lines, and a line holding a
/// single dot.
pub open spec fn render_script(commands: Seq<EdCommand>) -> Seq<u8>
    decreases commands.len(),
{
    if commands.len() == 0 {
        Seq::empty()
    } else {
        commands[0].0.header_text() + prefixed(commands[0].1, Seq::empty()) + ".\n".spec_bytes()
            + render_script(commands.drop_first())
    }
}

/// What an ed command does to a file's lines: `Na` inserts after line `N`,
/// `N,Mc` replaces lines `N` to `M`, `N,Md` deletes them (lines counted from
/// one; a single number names one line).
pub open spec fn apply_command(file: Seq<Seq<u8>>, command: EdCommand) -> Seq<Seq<u8>> {
    match command.0 {
        EdOperation::Add(pos) => file.take(pos as int) + command.1 + file.skip(pos as int),
        EdOperation::Change(pos, count) => file.take(pos as int) + command.1 + file.skip(
            pos + count + 1,
        ),
        EdOperation::Delete(pos, count) => file.take(pos as int) + file.skip(pos + count + 1),
    }
}

/// Applies commands in order.
pub open spec fn apply_script(file: Seq<Seq<u8>>, commands: Seq<EdCommand>) -> Seq<Seq<u8>>
    decreases commands.len(),
{
    if commands.len() == 0 {
        file
    } else {
        apply_script(apply_command(file, commands[0]), commands.drop_first())
    }
}

/// The ed text is the commands of the ed script, written.
proof fn lemma_ed_text_script(
    hunks: Seq<MergeView>,
    labels: LabelsView,
    concrete: ConcreteResolution,
    pos: nat,
)
    ensures
        ed_text(hunks, labels, concrete, pos) == render_script(
            ed_script(hunks, labels, concrete, pos),
        ),
    decreases hunks.len(),
{
    if hunks.len() > 0 {
        let h = hunks[0];
        let next = ed_next(h, concrete, pos);
        let rest = ed_script(hunks.drop_first(), labels, concrete, next);
        lemma_ed_text_script(hunks.drop_first(), labels, concrete, next);
        let merge = h.variants.merge_outcome(concrete);
        lemma_dump_lines(h.variants, labels, merge);
        if merge is MyWins {
            assert(Seq::<EdCommand>::empty() + rest =~= rest);
            assert(Seq::<u8>::empty() + render_script(rest) =~= render_script(rest));
        } else {
            let p = pos + h.common.len();
            let right = ed_offsets(h.variants, merge).1;
            let cmd = (
                spec_make_operation(p as usize, h.variants.mine.len() as usize, right == 0),
                merged_lines(h.variants, labels, merge),
            );
            assert((seq![cmd] + rest).drop_first() =~= rest);
            assert((seq![cmd] + rest)[0] == cmd);
        }
    }
}

/// Applying the commands for these hunks to the lines already merged
/// (`done`) followed by mine's lines of the hunks gives the merged lines.
proof fn lemma_ed_script_applies_from(
    hunks: Seq<MergeView>,
    labels: LabelsView,
    concrete: ConcreteResolution,
    done: Seq<Seq<u8>>,
)
    requires
        concrete.only_your is MyWins || concrete.only_your is YourWins,
        ed_fits(hunks, concrete, done.len()),
    ensures
        apply_script(
            done + hunks_side(hunks, Version::Mine),
            ed_script(hunks, labels, concrete, done.len()),
        ) == done + merged_file(hunks, labels, concrete),
    decreases hunks.len(),
{
    if hunks.len() == 0 {
        assert(hunks_side(hunks, Version::Mine) =~= Seq::<Seq<u8>>::empty());
        assert(merged_file(hunks, labels, concrete) =~= Seq::<Seq<u8>>::empty());
        assert(done + Seq::<Seq<u8>>::empty() =~= done);
    } else {
        let h = hunks[0];
        let v = h.variants;
        let rest = hunks.drop_first();
        let pos = done.len();
        let p = pos + h.common.len();
        let merge = v.merge_outcome(concrete);
        let body = merged_lines(v, labels, merge);
        let right = ed_offsets(v, merge).1;
        let file = done + hunks_side(hunks, Version::Mine);
        let tail = hunks_side(rest, Version::Mine);
        assert(hunks_side(hunks, Version::Mine) == h.common + v.mine + tail);
        assert(file =~= (done + h.common) + v.mine + tail);
        let next = ed_next(h, concrete, pos);
        let later = ed_script(rest, labels, concrete, next);
        if !v.has_conflict() {
            assert(v.mine =~= Seq::<Seq<u8>>::empty());
            assert(v.yours =~= Seq::<Seq<u8>>::empty());
            assert(v.mine == v.old);
            assert(body.len() == 0);
        }
        assert(hunk_lines(h, labels, merge) =~= h.common + body);
        let merged_done = done + h.common + body;
        assert(merged_done.len() == next);
        if merge is MyWins {
            assert(ed_script(hunks, labels, concrete, pos) =~= later);
            assert(file =~= merged_done + tail);
        } else {
            let op = spec_make_operation(p as usize, v.mine.len() as usize, right == 0);
            let cmd = (op, body);
            assert(ed_script(hunks, labels, concrete, pos) =~= seq![cmd] + later);
            assert((seq![cmd] + later).drop_first() =~= later);
            assert((seq![cmd] + later)[0] == cmd);
            assert(file.take(p as int) =~= done + h.common);
            assert(file.skip((p + v.mine.len()) as int) =~= tail);
            if right == 0 {
                assert(merge is YourWins);
                assert(body.len() == 0);
            }
            assert(apply_command(file, cmd) =~= merged_done + tail);
        }
        lemma_ed_script_applies_from(rest, labels, concrete, merged_done);
        assert(merged_done + merged_file(rest, labels, concrete) =~= done + merged_file(
            hunks,
            labels,
            concrete,
        ));
    }
}

/// The ed script turns mine into the merged file: applying its commands in
/// order to mine's lines gives the lines of the merged file written for the
/// same resolution (the text of the script is its commands, written; the
/// merged file's text is its lines, written).
pub proof fn lemma_ed_script_gives_merge(
    hunks: Seq<MergeView>,
    labels: LabelsView,
    resolution: Resolution,
)
    requires
        ed_fits(hunks, spec_concrete(resolution), 0),
    ensures
        ed_text(hunks, labels, spec_concrete(resolution), 0) == render_script(
            ed_script(hunks, labels, spec_concrete(resolution), 0),
        ),
        apply_script(
            hunks_side(hunks, Version::Mine),
            ed_script(hunks, labels, spec_concrete(resolution), 0),
        ) == merged_file(hunks, labels, spec_concrete(resolution)),
        merge_text(hunks, labels, spec_concrete(resolution)) == prefixed(
            merged_file(hunks, labels, spec_concrete(resolution)),
            Seq::empty(),
        ),
{
    let e: Seq<Seq<u8>> = Seq::empty();
    lemma_ed_text_script(hunks, labels, spec_concrete(resolution), 0);
    lemma_ed_script_applies_from(hunks, labels, spec_concrete(resolution), e);
    assert(e + hunks_side(hunks, Version::Mine) =~= hunks_side(hunks, Version::Mine));
    assert(e + merged_file(hunks, labels, spec_concrete(resolution)) =~= merged_file(
        hunks,
        labels,
        spec_concrete(resolution),
    ));
    lemma_merge_text_lines(hunks, labels, spec_concrete(resolution));
}

/// Writes hunks as an ed script that turns mine into the merged file.
pub struct EdWriter {
    pub merged: Vec<MergeLines>,
    pub output: Vec<u8>,
}

impl EdWriter {
    /// Writes the ed script.
    pub fn write(&mut self, labels: &MergeLabels, concrete: ConcreteResolution)
        requires
            ed_fits(hunks_view(old(self).merged@), concrete, 0),
        ensures
            final(self).merged@ == old(self).merged@,
            final(self).output@ == old(self).output@ + ed_text(
                hunks_view(old(self).merged@),
                labels@,
                concrete,
                0,
            ),
    {
        let ghost hunks = hunks_view(self.merged@);
        let ghost start = self.output@;
        let ghost total = ed_text(hunks, labels@, concrete, 0);
        let mut pos: usize = 0;
        let mut i: usize = 0;
        assert(hunks.skip(0) =~= hunks);
        assert(self.output@ + ed_text(hunks.skip(0), labels@, concrete, 0) =~= start + total);
        while i < self.merged.len()
            invariant
                hunks == hunks_view(self.merged@),
                self.merged@ == old(self).merged@,
                total == ed_text(hunks, labels@, concrete, 0),
                i <= self.merged@.len(),
                self.output@ + ed_text(hunks.skip(i as int), labels@, concrete, pos as nat)
                    == start + total,
                ed_fits(hunks.skip(i as int), concrete, pos as nat),
            decreases self.merged@.len() - i,
        {
            let ghost h = hunks[i as int];
            let ghost rest = hunks.skip(i + 1);
            assert(hunks.skip(i as int).drop_first() =~= rest);
            assert(hunks.skip(i as int)[0] == h);
            let ghost before = self.output@;
            let ghost pos0 = pos as nat;
            let ml = &self.merged[i];
            assert(h == ml@);
            pos = write_ed_hunk(&mut self.output, ml, labels, concrete, pos);
            i = i + 1;
            assert(self.output@ + ed_text(hunks.skip(i as int), labels@, concrete, pos as nat)
                =~= before + ed_text(hunks.skip(i - 1), labels@, concrete, pos0));
        }
        assert(hunks.skip(i as int) =~= Seq::<MergeView>::empty());
        assert(self.output@ + ed_text(hunks.skip(i as int), labels@, concrete, pos as nat)
            =~= self.output@);
    }
}

} // verus!
