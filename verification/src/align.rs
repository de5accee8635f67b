//! Aligning three versions of a file line by line.
//!
//! The older version is diffed against mine and against yours. Walking the
//! first script, every line of the older version becomes an anchor, whose
//! flags say which of the other two versions hold it too. The lines that only
//! mine or only yours hold between two anchors are diffed against each other.

use vstd::prelude::*;

use crate::diffing::{
    diff_edits, diff_fits, diff_slice, edits_view, left_side, lemma_diff_fits_shrink,
    pairs_agree, right_side, DiffResult, Edit,
};
use crate::lines::{copy_line, lines_view};

verus! {

/// Which of the three versions hold a line.
#[derive(Copy, Clone, Debug, PartialEq, Eq, Structural)]
pub enum MatchingVersions {
    MyOldYour,
    OldYour,
    MyYour,
    MyOld,
    My,
    Old,
    Your,
}

/// One of the three versions of a file.
#[derive(Copy, Clone, Debug, PartialEq, Eq, Structural)]
pub enum Version {
    Mine,
    Old,
    Yours,
}

impl MatchingVersions {
    /// Whether version `v` holds the line.
    pub open spec fn has(self, v: Version) -> bool {
        match v {
            Version::Mine => self is MyOldYour || self is MyYour || self is MyOld || self is My,
            Version::Old => self is MyOldYour || self is OldYour || self is MyOld || self is Old,
            Version::Yours => self is MyOldYour || self is OldYour || self is MyYour || self is Your,
        }
    }

    /// The flags of mine, the older version and yours, in that order.
    pub fn as_tuple(&self) -> (flags: (bool, bool, bool))
        ensures
            flags == (self.has(Version::Mine), self.has(Version::Old), self.has(Version::Yours)),
    {
        match self {
            MatchingVersions::MyOldYour => (true, true, true),
            MatchingVersions::OldYour => (false, true, true),
            MatchingVersions::MyYour => (true, false, true),
            MatchingVersions::MyOld => (true, true, false),
            MatchingVersions::My => (true, false, false),
            MatchingVersions::Old => (false, true, false),
            MatchingVersions::Your => (false, false, true),
        }
    }
}

/// A line of the alignment, with the versions that hold it.
#[derive(Debug, PartialEq, Eq)]
pub struct Line {
    pub line: Vec<u8>,
    pub versions: MatchingVersions,
}

/// The abstract value of an aligned line.
pub type LineView = (Seq<u8>, MatchingVersions);

impl Line {
    pub open spec fn view(&self) -> LineView {
        (self.line@, self.versions)
    }

    /// The line as the original tool shows it when debugging: a column each
    /// for mine (`<`), the older version (`!`) and yours (`>`), a space, then
    /// the line's bytes.
    pub fn render(&self) -> (out: Vec<u8>)
        ensures
            out@ == seq![
                if self.versions.has(Version::Mine) { 60u8 } else { 32u8 },
                if self.versions.has(Version::Old) { 33u8 } else { 32u8 },
                if self.versions.has(Version::Yours) { 62u8 } else { 32u8 },
                32u8,
            ] + self.line@,
    {
        let (mine, old, yours) = self.versions.as_tuple();
        let mut out: Vec<u8> = Vec::new();
        out.push(if mine { 60u8 } else { 32u8 });
        out.push(if old { 33u8 } else { 32u8 });
        out.push(if yours { 62u8 } else { 32u8 });
        out.push(32u8);
        let ghost head = out@;
        let mut i: usize = 0;
        while i < self.line.len()
            invariant
                i <= self.line@.len(),
                out@ == head + self.line@.take(i as int),
            decreases self.line@.len() - i,
        {
            out.push(self.line[i]);
            i = i + 1;
            assert(out@ =~= head + self.line@.take(i as int));
        }
        assert(self.line@.take(i as int) =~= self.line@);
        out
    }
}

/// The abstract value of a sequence of aligned lines.
pub open spec fn aligned_view(lines: Seq<Line>) -> Seq<LineView> {
    lines.map_values(|l: Line| l@)
}

/// The lines that version `v` holds, in order.
pub open spec fn project(lines: Seq<LineView>, v: Version) -> Seq<Seq<u8>>
    decreases lines.len(),
{
    if lines.len() == 0 {
        Seq::empty()
    } else {
        let rest = project(lines.drop_first(), v);
        if lines[0].1.has(v) {
            seq![lines[0].0] + rest
        } else {
            rest
        }
    }
}

/// Projecting a concatenation projects each part.
pub proof fn lemma_project_concat(a: Seq<LineView>, b: Seq<LineView>, v: Version)
    ensures
        project(a + b, v) == project(a, v) + project(b, v),
    decreases a.len(),
{
    if a.len() == 0 {
        assert(a + b =~= b);
        assert(project(a, v) + project(b, v) =~= project(b, v));
    } else {
        lemma_project_concat(a.drop_first(), b, v);
        assert((a + b).drop_first() =~= a.drop_first() + b);
        assert((a + b)[0] == a[0]);
        if a[0].1.has(v) {
            assert(seq![a[0].0] + (project(a.drop_first(), v) + project(b, v)) =~= (seq![a[0].0]
                + project(a.drop_first(), v)) + project(b, v));
        }
    }
}

/// The lines that mine and yours hold between two anchors, aligned by their
/// edit script: a left line is mine only, a right line yours only, and a
/// paired line is held by both (the copy from mine is kept).
pub open spec fn unmatched_view(edits: Seq<Edit>) -> Seq<LineView> {
    edits.map_values(
        |e: Edit|
            match e {
                Edit::Left(l) => (l, MatchingVersions::My),
                Edit::Right(r) => (r, MatchingVersions::Your),
                Edit::Both(l, _) => (l, MatchingVersions::MyYour),
            },
    )
}

/// The lines between two anchors project onto mine as the script's left side,
/// onto yours as its right side, and onto the older version as nothing.
pub proof fn lemma_unmatched_project(edits: Seq<Edit>)
    requires
        pairs_agree(edits),
    ensures
        project(unmatched_view(edits), Version::Mine) == left_side(edits),
        project(unmatched_view(edits), Version::Old) == Seq::<Seq<u8>>::empty(),
        project(unmatched_view(edits), Version::Yours) == right_side(edits),
    decreases edits.len(),
{
    if edits.len() > 0 {
        let rest = edits.drop_first();
        assert forall|i: int| 0 <= i < rest.len() implies (#[trigger] rest[i] matches Edit::Both(
            l,
            r,
        ) ==> l == r) by {
            assert(rest[i] == edits[i + 1]);
        }
        lemma_unmatched_project(rest);
        assert(unmatched_view(edits).drop_first() =~= unmatched_view(rest));
        assert(edits[0] matches Edit::Both(l, r) ==> l == r);
    }
}

/// Aligns the lines of an edit script between the lines only mine holds and
/// the lines only yours holds.
pub fn unmatched_lines(script: &Vec<DiffResult>) -> (lines: Vec<Line>)
    ensures
        aligned_view(lines@) == unmatched_view(edits_view(script@)),
{
    let mut lines: Vec<Line> = Vec::new();
    let mut i: usize = 0;
    while i < script.len()
        invariant
            i <= script@.len(),
            aligned_view(lines@) == unmatched_view(edits_view(script@)).take(i as int),
        decreases script@.len() - i,
    {
        let line = match script[i] {
            DiffResult::Left(l) => Line { line: copy_line(l), versions: MatchingVersions::My },
            DiffResult::Right(r) => Line { line: copy_line(r), versions: MatchingVersions::Your },
            DiffResult::Both(l, _) => Line { line: copy_line(l), versions: MatchingVersions::MyYour },
        };
        assert(unmatched_view(edits_view(script@))[i as int] == line@);
        let ghost before = lines@;
        let ghost lv = line@;
        lines.push(line);
        assert(aligned_view(lines@) =~= aligned_view(before).push(lv));
        i = i + 1;
        assert(aligned_view(lines@) =~= unmatched_view(edits_view(script@)).take(i as int));
    }
    assert(unmatched_view(edits_view(script@)).take(i as int) =~= unmatched_view(
        edits_view(script@),
    ));
    lines
}

/// The flags of an anchor: the older version always holds it, mine when the
/// first script pairs it, yours when the second does.
pub open spec fn anchor_versions(mine: bool, yours: bool) -> MatchingVersions {
    if mine && yours {
        MatchingVersions::MyOldYour
    } else if mine {
        MatchingVersions::MyOld
    } else if yours {
        MatchingVersions::OldYour
    } else {
        MatchingVersions::Old
    }
}

/// The line a step carries: its only line, or the left copy of a pair.
pub open spec fn step_line(e: Edit) -> Seq<u8> {
    match e {
        Edit::Left(l) => l,
        Edit::Both(l, _) => l,
        Edit::Right(r) => r,
    }
}

/// How many steps at the front of a script take only from its right side.
pub open spec fn first_old_side(edits: Seq<Edit>) -> nat
    decreases edits.len(),
{
    if edits.len() > 0 && edits[0] is Right {
        1 + first_old_side(edits.drop_first())
    } else {
        0
    }
}

/// The right-side lines at the front of a script, before its first step that
/// takes from the left.
pub open spec fn leading_rights(edits: Seq<Edit>) -> Seq<Seq<u8>>
    decreases edits.len(),
{
    if edits.len() > 0 && edits[0] is Right {
        seq![step_line(edits[0])] + leading_rights(edits.drop_first())
    } else {
        Seq::empty()
    }
}

/// A stretch of the alignment: the lines only mine and only yours hold since
/// the last anchor, then the next anchor (none at the end of the file).
pub struct Chunk {
    pub left: Vec<Vec<u8>>,
    pub right: Vec<Vec<u8>>,
    pub anchor: Option<Line>,
}

/// The abstract value of a chunk.
pub struct ChunkView {
    pub left: Seq<Seq<u8>>,
    pub right: Seq<Seq<u8>>,
    pub anchor: Option<LineView>,
}

impl Chunk {
    pub open spec fn view(&self) -> ChunkView {
        ChunkView {
            left: lines_view(self.left@),
            right: lines_view(self.right@),
            anchor: match self.anchor {
                Some(a) => Some(a@),
                None => None,
            },
        }
    }
}

/// The abstract value of a sequence of chunks.
pub open spec fn chunks_view(chunks: Seq<Chunk>) -> Seq<ChunkView> {
    chunks.map_values(|c: Chunk| c@)
}

/// The chunks of an alignment, from the script of mine against the older
/// version (`mo`) and of the older version against yours (`oy`), with the
/// lines `pl` (mine only) and `pr` (yours only) already pending.
///
/// Each step of `mo` that holds a line of the older version is an anchor: the
/// right-only steps of `oy` before its next step that holds an older line join
/// the pending lines of yours, and that step says whether yours holds the
/// anchor. A left-only step of `mo` adds a pending line of mine.
pub open spec fn spec_chunks(
    mo: Seq<Edit>,
    oy: Seq<Edit>,
    pl: Seq<Seq<u8>>,
    pr: Seq<Seq<u8>>,
) -> Seq<ChunkView>
    decreases mo.len(),
{
    if mo.len() == 0 {
        seq![ChunkView { left: pl, right: pr + right_side(oy), anchor: None }]
    } else if mo[0] is Left {
        spec_chunks(mo.drop_first(), oy, pl.push(step_line(mo[0])), pr)
    } else {
        let k = first_old_side(oy);
        if k < oy.len() {
            let versions = anchor_versions(mo[0] is Both, oy[k as int] is Both);
            seq![
                ChunkView {
                    left: pl,
                    right: pr + leading_rights(oy),
                    anchor: Some((step_line(mo[0]), versions)),
                },
            ] + spec_chunks(mo.drop_first(), oy.skip(k + 1int), Seq::empty(), Seq::empty())
        } else {
            spec_chunks(mo.drop_first(), Seq::empty(), pl, pr + leading_rights(oy))
        }
    }
}

/// The anchor of a chunk, as a sequence of at most one line.
pub open spec fn anchor_tail(c: ChunkView) -> Seq<LineView> {
    match c.anchor {
        Some(a) => seq![a],
        None => Seq::empty(),
    }
}

/// The lines of an aligned chunk: its unmatched lines, aligned by their own
/// edit script, then its anchor.
pub open spec fn chunk_lines(c: ChunkView) -> Seq<LineView> {
    unmatched_view(diff_edits(c.left, c.right)) + anchor_tail(c)
}

/// The lines of a sequence of chunks, each aligned.
pub open spec fn assemble(chunks: Seq<ChunkView>) -> Seq<LineView>
    decreases chunks.len(),
{
    if chunks.len() == 0 {
        Seq::empty()
    } else {
        chunk_lines(chunks[0]) + assemble(chunks.drop_first())
    }
}

/// The three-way alignment of mine, the older version and yours.
pub open spec fn spec_match_sequence(
    my: Seq<Seq<u8>>,
    old: Seq<Seq<u8>>,
    your: Seq<Seq<u8>>,
) -> Seq<LineView> {
    assemble(spec_chunks(diff_edits(my, old), diff_edits(old, your), Seq::empty(), Seq::empty()))
}

/// The lines that version `v` holds in one chunk.
pub open spec fn chunk_side(c: ChunkView, v: Version) -> Seq<Seq<u8>> {
    let anchor = match c.anchor {
        Some(a) => if a.1.has(v) {
            seq![a.0]
        } else {
            Seq::empty()
        },
        None => Seq::empty(),
    };
    match v {
        Version::Mine => c.left + anchor,
        Version::Old => anchor,
        Version::Yours => c.right + anchor,
    }
}

/// The lines that version `v` holds in a sequence of chunks.
pub open spec fn chunks_side(chunks: Seq<ChunkView>, v: Version) -> Seq<Seq<u8>>
    decreases chunks.len(),
{
    if chunks.len() == 0 {
        Seq::empty()
    } else {
        chunk_side(chunks[0], v) + chunks_side(chunks.drop_first(), v)
    }
}

/// What the right-only steps at the front of a script hold.
proof fn lemma_leading_rights(oy: Seq<Edit>)
    ensures
        first_old_side(oy) <= oy.len(),
        forall|t: int| 0 <= t < first_old_side(oy) ==> #[trigger] oy[t] is Right,
        first_old_side(oy) < oy.len() ==> !(oy[first_old_side(oy) as int] is Right),
        left_side(oy) == left_side(oy.skip(first_old_side(oy) as int)),
        right_side(oy) == leading_rights(oy) + right_side(oy.skip(first_old_side(oy) as int)),
    decreases oy.len(),
{
    if oy.len() > 0 && oy[0] is Right {
        let rest = oy.drop_first();
        lemma_leading_rights(rest);
        let k = first_old_side(rest);
        assert(rest.skip(k as int) =~= oy.skip(k + 1int));
        assert forall|t: int| 0 <= t < first_old_side(oy) implies #[trigger] oy[t] is Right by {
            if t > 0 {
                assert(oy[t] == rest[t - 1]);
            }
        }
        assert(right_side(oy) =~= seq![step_line(oy[0])] + right_side(rest));
        assert(seq![step_line(oy[0])] + (leading_rights(rest) + right_side(rest.skip(k as int)))
            =~= (seq![step_line(oy[0])] + leading_rights(rest)) + right_side(rest.skip(k as int)));
    } else {
        assert(oy.skip(0) =~= oy);
        assert(leading_rights(oy) + right_side(oy) =~= right_side(oy));
    }
}

/// A script that takes nothing from its left side only takes from its right.
proof fn lemma_no_left_side(s: Seq<Edit>)
    requires
        left_side(s).len() == 0,
    ensures
        forall|t: int| 0 <= t < s.len() ==> #[trigger] s[t] is Right,
    decreases s.len(),
{
    if s.len() > 0 {
        lemma_no_left_side(s.drop_first());
        assert forall|t: int| 0 <= t < s.len() implies #[trigger] s[t] is Right by {
            if t > 0 {
                assert(s[t] == s.drop_first()[t - 1]);
            }
        }
    }
}

/// The first step of a non-empty script and the rest of it.
proof fn lemma_sides_unfold(s: Seq<Edit>)
    requires
        s.len() > 0,
    ensures
        left_side(s) == match s[0] {
            Edit::Right(_) => Seq::empty(),
            _ => seq![step_line(s[0])],
        } + left_side(s.drop_first()),
        right_side(s) == match s[0] {
            Edit::Left(_) => Seq::empty(),
            Edit::Both(_, r) => seq![r],
            Edit::Right(r) => seq![r],
        } + right_side(s.drop_first()),
{
    match s[0] {
        Edit::Right(_) => {
            assert(left_side(s) =~= Seq::<Seq<u8>>::empty() + left_side(s.drop_first()));
        },
        Edit::Left(_) => {
            assert(right_side(s) =~= Seq::<Seq<u8>>::empty() + right_side(s.drop_first()));
        },
        _ => {},
    }
}

/// Splitting the chunks after the first.
proof fn lemma_chunks_side_cons(c: ChunkView, rest: Seq<ChunkView>, v: Version)
    ensures
        chunks_side(seq![c] + rest, v) == chunk_side(c, v) + chunks_side(rest, v),
{
    assert((seq![c] + rest).drop_first() =~= rest);
}

/// The chunks of an alignment hold, for each version, exactly its lines: mine
/// are the pending lines of mine and the left side of `mo`, the older ones are
/// the right side of `mo`, yours are the pending lines of yours and the right
/// side of `oy`.
pub proof fn lemma_chunks_sides(mo: Seq<Edit>, oy: Seq<Edit>, pl: Seq<Seq<u8>>, pr: Seq<Seq<u8>>)
    requires
        pairs_agree(mo),
        pairs_agree(oy),
        right_side(mo) == left_side(oy),
    ensures
        chunks_side(spec_chunks(mo, oy, pl, pr), Version::Mine) == pl + left_side(mo),
        chunks_side(spec_chunks(mo, oy, pl, pr), Version::Old) == right_side(mo),
        chunks_side(spec_chunks(mo, oy, pl, pr), Version::Yours) == pr + right_side(oy),
    decreases mo.len(),
{
    let cs = spec_chunks(mo, oy, pl, pr);
    if mo.len() == 0 {
        let c = ChunkView { left: pl, right: pr + right_side(oy), anchor: None };
        lemma_chunks_side_cons(c, Seq::empty(), Version::Mine);
        lemma_chunks_side_cons(c, Seq::empty(), Version::Old);
        lemma_chunks_side_cons(c, Seq::empty(), Version::Yours);
        assert(seq![c] + Seq::<ChunkView>::empty() =~= seq![c]);
        assert(pl + left_side(mo) =~= pl);
        assert(pl + Seq::<Seq<u8>>::empty() =~= pl);
        assert(pr + right_side(oy) + Seq::<Seq<u8>>::empty() =~= pr + right_side(oy));
    } else {
        let rest = mo.drop_first();
        assert forall|i: int| 0 <= i < rest.len() implies (#[trigger] rest[i] matches Edit::Both(
            l,
            r,
        ) ==> l == r) by {
            assert(rest[i] == mo[i + 1]);
        }
        assert(mo[0] matches Edit::Both(l, r) ==> l == r);
        lemma_sides_unfold(mo);
        if mo[0] is Left {
            let line = step_line(mo[0]);
            lemma_chunks_sides(rest, oy, pl.push(line), pr);
            assert(pl.push(line) + left_side(rest) =~= pl + (seq![line] + left_side(rest)));
        } else {
            lemma_leading_rights(oy);
            let k = first_old_side(oy);
            let line = step_line(mo[0]);
            assert(left_side(oy).len() > 0);
            if k >= oy.len() {
                assert(oy.skip(k as int) =~= Seq::<Edit>::empty());
                assert(false);
            }
            let tail = oy.skip(k as int);
            let after = oy.skip(k + 1int);
            assert(tail.drop_first() =~= after);
            lemma_sides_unfold(tail);
            assert forall|i: int| 0 <= i < after.len() implies (#[trigger] after[i] matches Edit::Both(
                l,
                r,
            ) ==> l == r) by {
                assert(after[i] == oy[i + k + 1]);
            }
            assert(oy[k as int] matches Edit::Both(l, r) ==> l == r);
            assert(tail[0] == oy[k as int]);
            assert(right_side(mo).drop_first() =~= right_side(rest));
            assert(left_side(oy).drop_first() =~= left_side(after));
            assert(right_side(rest) =~= left_side(after));
            lemma_chunks_sides(rest, after, Seq::empty(), Seq::empty());
            let versions = anchor_versions(mo[0] is Both, oy[k as int] is Both);
            let c = ChunkView {
                left: pl,
                right: pr + leading_rights(oy),
                anchor: Some((line, versions)),
            };
            let rcs = spec_chunks(rest, after, Seq::empty(), Seq::empty());
            assert(cs == seq![c] + rcs);
            lemma_chunks_side_cons(c, rcs, Version::Mine);
            lemma_chunks_side_cons(c, rcs, Version::Old);
            lemma_chunks_side_cons(c, rcs, Version::Yours);
            let e: Seq<Seq<u8>> = Seq::empty();
            // mine
            if mo[0] is Both {
                assert(pl + seq![line] + (e + left_side(rest)) =~= pl + left_side(mo));
            } else {
                assert(pl + e + (e + left_side(rest)) =~= pl + left_side(mo));
            }
            // the older version
            assert(seq![line] + right_side(rest) =~= right_side(mo));
            // yours: the anchor is the older line that `oy` takes at `k`
            assert(left_side(oy)[0] == step_line(oy[k as int]));
            if oy[k as int] is Both {
                assert(pr + leading_rights(oy) + seq![line] + (e + right_side(after)) =~= pr
                    + right_side(oy));
            } else {
                assert(pr + leading_rights(oy) + e + (e + right_side(after)) =~= pr + right_side(
                    oy,
                ));
            }
        }
    }
}


/// The flags of an anchor.
fn anchor_versions_of(mine: bool, yours: bool) -> (versions: MatchingVersions)
    ensures
        versions == anchor_versions(mine, yours),
{
    if mine && yours {
        MatchingVersions::MyOldYour
    } else if mine {
        MatchingVersions::MyOld
    } else if yours {
        MatchingVersions::OldYour
    } else {
        MatchingVersions::Old
    }
}

/// Cuts the alignment given by the script of mine against the older version
/// (`mo`) and of the older version against yours (`oy`) into chunks.
///
/// The older lines that `oy` takes must not outnumber those that `mo` takes;
/// otherwise a step of `oy` that holds an older line would be left over
/// without an anchor to match.
pub fn align(mo: &Vec<DiffResult>, oy: &Vec<DiffResult>) -> (chunks: Vec<Chunk>)
    requires
        left_side(edits_view(oy@)).len() <= right_side(edits_view(mo@)).len(),
    ensures
        chunks_view(chunks@) == spec_chunks(
            edits_view(mo@),
            edits_view(oy@),
            Seq::empty(),
            Seq::empty(),
        ),
{
    let ghost emo = edits_view(mo@);
    let ghost eoy = edits_view(oy@);
    let ghost target = spec_chunks(emo, eoy, Seq::empty(), Seq::empty());
    let mut chunks: Vec<Chunk> = Vec::new();
    let mut left: Vec<Vec<u8>> = Vec::new();
    let mut right: Vec<Vec<u8>> = Vec::new();
    let mut i: usize = 0;
    let mut j: usize = 0;
    assert(emo.skip(0) =~= emo);
    assert(eoy.skip(0) =~= eoy);
    assert(lines_view(left@) =~= Seq::<Seq<u8>>::empty());
    assert(lines_view(right@) =~= Seq::<Seq<u8>>::empty());
    assert(chunks_view(chunks@) + target =~= target);
    while i < mo.len()
        invariant
            emo == edits_view(mo@),
            eoy == edits_view(oy@),
            target == spec_chunks(emo, eoy, Seq::empty(), Seq::empty()),
            i <= mo@.len(),
            j <= oy@.len(),
            chunks_view(chunks@) + spec_chunks(
                emo.skip(i as int),
                eoy.skip(j as int),
                lines_view(left@),
                lines_view(right@),
            ) == target,
            left_side(eoy.skip(j as int)).len() <= right_side(emo.skip(i as int)).len(),
        decreases mo@.len() - i,
    {
        let ghost rest_mo = emo.skip(i as int);
        let ghost rest_oy = eoy.skip(j as int);
        let ghost pl = lines_view(left@);
        let ghost pr = lines_view(right@);
        assert(rest_mo.drop_first() =~= emo.skip(i + 1));
        assert(rest_mo[0] == mo@[i as int].edit());
        proof {
            lemma_sides_unfold(rest_mo);
        }
        let step = mo[i];
        let (anchor, has_my): (Option<&Vec<u8>>, bool) = match step {
            DiffResult::Left(l) => {
                let ghost before = left@;
                left.push(copy_line(l));
                assert(lines_view(left@) =~= lines_view(before).push(l@));
                (None, false)
            },
            DiffResult::Right(o) => (Some(o), false),
            DiffResult::Both(m, _) => (Some(m), true),
        };
        if let Some(line) = anchor {
            let ghost j0 = j as int;
            let mut found = false;
            let mut has_your = false;
            while j < oy.len() && !found
                invariant
                    eoy == edits_view(oy@),
                    rest_oy == eoy.skip(j0),
                    0 <= j0 <= j <= oy@.len(),
                    !found ==> j0 + first_old_side(rest_oy) == j + first_old_side(
                        eoy.skip(j as int),
                    ),
                    !found ==> lines_view(right@) + leading_rights(eoy.skip(j as int)) == pr
                        + leading_rights(rest_oy),
                    !found ==> left_side(eoy.skip(j as int)) == left_side(rest_oy),
                    found ==> j >= 1 && j - 1 == j0 + first_old_side(rest_oy) && j - 1
                        < oy@.len() && has_your == (eoy[j - 1] is Both),
                    found ==> lines_view(right@) == pr + leading_rights(rest_oy),
                    found ==> left_side(eoy.skip(j as int)).len() + 1 == left_side(rest_oy).len(),
                decreases oy@.len() - j,
            {
                let ghost s = eoy.skip(j as int);
                assert(s.drop_first() =~= eoy.skip(j + 1));
                assert(s[0] == oy@[j as int].edit());
                proof {
                    lemma_sides_unfold(s);
                }
                match oy[j] {
                    DiffResult::Right(x) => {
                        let ghost before = lines_view(right@);
                        right.push(copy_line(x));
                        assert(lines_view(right@) =~= before.push(x@));
                        assert(leading_rights(s) == seq![x@] + leading_rights(eoy.skip(j + 1)));
                        assert(before.push(x@) + leading_rights(eoy.skip(j + 1)) =~= before
                            + leading_rights(s));
                        assert(left_side(s) =~= left_side(eoy.skip(j + 1)));
                    },
                    DiffResult::Left(_) => {
                        found = true;
                        has_your = false;
                        assert(lines_view(right@) + leading_rights(s) =~= lines_view(right@));
                    },
                    DiffResult::Both(_, _) => {
                        found = true;
                        has_your = true;
                        assert(lines_view(right@) + leading_rights(s) =~= lines_view(right@));
                    },
                }
                j = j + 1;
            }
            if found {
                let versions = anchor_versions_of(has_my, has_your);
                let ghost k = first_old_side(rest_oy);
                let ghost cv = ChunkView {
                    left: pl,
                    right: pr + leading_rights(rest_oy),
                    anchor: Some((line@, versions)),
                };
                assert(rest_oy[k as int] == eoy[j - 1]);
                assert(rest_oy.skip(k + 1int) =~= eoy.skip(j as int));
                assert(step_line(rest_mo[0]) == line@);
                assert(spec_chunks(rest_mo, rest_oy, pl, pr) == seq![cv] + spec_chunks(
                    emo.skip(i + 1),
                    eoy.skip(j as int),
                    Seq::empty(),
                    Seq::empty(),
                ));
                let finished = Chunk {
                    left: left,
                    right: right,
                    anchor: Some(Line { line: copy_line(line), versions: versions }),
                };
                assert(finished@ == cv);
                let ghost before = chunks@;
                chunks.push(finished);
                left = Vec::new();
                right = Vec::new();
                assert(chunks_view(chunks@) =~= chunks_view(before).push(cv));
                assert(lines_view(left@) =~= Seq::<Seq<u8>>::empty());
                assert(lines_view(right@) =~= Seq::<Seq<u8>>::empty());
                assert(chunks_view(before) + (seq![cv] + spec_chunks(
                    emo.skip(i + 1),
                    eoy.skip(j as int),
                    Seq::empty(),
                    Seq::empty(),
                )) =~= chunks_view(before).push(cv) + spec_chunks(
                    emo.skip(i + 1),
                    eoy.skip(j as int),
                    Seq::empty(),
                    Seq::empty(),
                ));
            } else {
                assert(eoy.skip(j as int) =~= Seq::<Edit>::empty());
                assert(leading_rights(eoy.skip(j as int)) =~= Seq::<Seq<u8>>::empty());
                assert(lines_view(right@) =~= pr + leading_rights(rest_oy));
            }
        }
        i = i + 1;
    }
    // Only right-only steps of `oy` are left: they end the last chunk.
    let ghost jend = j as int;
    let ghost pr_end = lines_view(right@);
    assert(emo.skip(i as int) =~= Seq::<Edit>::empty());
    while j < oy.len()
        invariant
            eoy == edits_view(oy@),
            jend <= j <= oy@.len(),
            lines_view(right@) + right_side(eoy.skip(j as int)) == pr_end + right_side(
                eoy.skip(jend),
            ),
            left_side(eoy.skip(j as int)).len() == 0,
        decreases oy@.len() - j,
    {
        let ghost s = eoy.skip(j as int);
        assert(s.drop_first() =~= eoy.skip(j + 1));
        assert(s[0] == oy@[j as int].edit());
        proof {
            lemma_sides_unfold(s);
        }
        match oy[j] {
            DiffResult::Right(x) => {
                let ghost before = lines_view(right@);
                right.push(copy_line(x));
                assert(lines_view(right@) =~= before.push(x@));
                assert(before.push(x@) + right_side(eoy.skip(j + 1)) =~= before + right_side(s));
                assert(left_side(s) =~= left_side(eoy.skip(j + 1)));
            },
            _ => {
                assert(left_side(s).len() >= 1);
            },
        }
        j = j + 1;
    }
    assert(eoy.skip(j as int) =~= Seq::<Edit>::empty());
    assert(lines_view(right@) + right_side(eoy.skip(j as int)) =~= lines_view(right@));
    let ghost last = ChunkView {
        left: lines_view(left@),
        right: lines_view(right@),
        anchor: None,
    };
    let ghost before = chunks@;
    chunks.push(Chunk { left: left, right: right, anchor: None });
    assert(chunks_view(chunks@) =~= chunks_view(before).push(last));
    assert(chunks_view(before) + seq![last] =~= chunks_view(before).push(last));
    chunks
}


/// The lines of one aligned chunk project, for each version, onto the lines
/// of that version in the chunk.
proof fn lemma_chunk_lines_project(c: ChunkView, unmatched: Seq<Edit>, v: Version)
    requires
        pairs_agree(unmatched),
        left_side(unmatched) == c.left,
        right_side(unmatched) == c.right,
    ensures
        project(unmatched_view(unmatched) + anchor_tail(c), v) == chunk_side(c, v),
{
    let tail = anchor_tail(c);
    let e: Seq<Seq<u8>> = Seq::empty();
    lemma_project_concat(unmatched_view(unmatched), tail, v);
    lemma_unmatched_project(unmatched);
    assert(project(Seq::<LineView>::empty(), v) =~= e);
    if let Some(a) = c.anchor {
        assert(tail.drop_first() =~= Seq::<LineView>::empty());
        if a.1.has(v) {
            assert(project(tail, v) =~= seq![a.0]);
        }
    } else {
        assert(tail =~= Seq::<LineView>::empty());
    }
    if v is Old {
        assert(e + project(tail, v) =~= project(tail, v));
    }
}

/// Versions `a` and `b` hold the same lines of an alignment.
pub open spec fn agree_on(lines: Seq<LineView>, a: Version, b: Version) -> bool {
    forall|i: int| 0 <= i < lines.len() ==> #[trigger] lines[i].1.has(a) == lines[i].1.has(b)
}

/// When every step of `mo` pairs a line of mine with an older one, no chunk
/// holds a pending line of mine, and every anchor is held by mine.
proof fn lemma_chunks_mine_unchanged(mo: Seq<Edit>, oy: Seq<Edit>, pl: Seq<Seq<u8>>, pr: Seq<Seq<u8>>)
    requires
        forall|i: int| 0 <= i < mo.len() ==> #[trigger] mo[i] is Both,
        pl.len() == 0,
    ensures
        forall|c: int|
            0 <= c < spec_chunks(mo, oy, pl, pr).len() ==> {
                &&& (#[trigger] spec_chunks(mo, oy, pl, pr)[c]).left.len() == 0
                &&& spec_chunks(mo, oy, pl, pr)[c].anchor matches Some(a) ==> a.1.has(
                    Version::Mine,
                )
            },
    decreases mo.len(),
{
    if mo.len() > 0 {
        let rest = mo.drop_first();
        assert forall|i: int| 0 <= i < rest.len() implies #[trigger] rest[i] is Both by {
            assert(rest[i] == mo[i + 1]);
        }
        assert(mo[0] is Both);
        let k = first_old_side(oy);
        if k < oy.len() {
            lemma_chunks_mine_unchanged(rest, oy.skip(k + 1int), Seq::empty(), Seq::empty());
            let rcs = spec_chunks(rest, oy.skip(k + 1int), Seq::empty(), Seq::empty());
            let cs = spec_chunks(mo, oy, pl, pr);
            assert forall|c: int| 0 < c < cs.len() implies cs[c] == rcs[c - 1] by {}
        } else {
            lemma_chunks_mine_unchanged(rest, Seq::empty(), pl, pr + leading_rights(oy));
        }
    }
}

/// When every step of `oy` pairs an older line with one of yours, no chunk
/// holds a pending line of yours, and every anchor is held by yours.
proof fn lemma_chunks_yours_unchanged(mo: Seq<Edit>, oy: Seq<Edit>, pl: Seq<Seq<u8>>, pr: Seq<Seq<u8>>)
    requires
        forall|i: int| 0 <= i < oy.len() ==> #[trigger] oy[i] is Both,
        pr.len() == 0,
        left_side(oy).len() <= right_side(mo).len(),
    ensures
        forall|c: int|
            0 <= c < spec_chunks(mo, oy, pl, pr).len() ==> {
                &&& (#[trigger] spec_chunks(mo, oy, pl, pr)[c]).right.len() == 0
                &&& spec_chunks(mo, oy, pl, pr)[c].anchor matches Some(a) ==> a.1.has(
                    Version::Yours,
                )
            },
    decreases mo.len(),
{
    if oy.len() > 0 {
        assert(oy[0] is Both);
        lemma_sides_unfold(oy);
        assert(left_side(oy).len() > 0);
    }
    if mo.len() == 0 {
        assert(oy.len() == 0);
        assert(pr + right_side(oy) =~= pr);
    } else {
        let rest = mo.drop_first();
        lemma_sides_unfold(mo);
        if mo[0] is Left {
            lemma_chunks_yours_unchanged(rest, oy, pl.push(step_line(mo[0])), pr);
        } else if oy.len() > 0 {
            assert(first_old_side(oy) == 0);
            assert(leading_rights(oy) =~= Seq::<Seq<u8>>::empty());
            let after = oy.skip(1);
            assert(oy.drop_first() =~= after);
            assert forall|i: int| 0 <= i < after.len() implies #[trigger] after[i] is Both by {
                assert(after[i] == oy[i + 1]);
            }
            lemma_chunks_yours_unchanged(rest, after, Seq::empty(), Seq::empty());
            let rcs = spec_chunks(rest, after, Seq::empty(), Seq::empty());
            let cs = spec_chunks(mo, oy, pl, pr);
            assert(oy.skip(0int + 1int) =~= after);
            assert forall|c: int| 0 < c < cs.len() implies cs[c] == rcs[c - 1] by {}
            assert(pr + leading_rights(oy) =~= pr);
        } else {
            assert(leading_rights(oy) =~= Seq::<Seq<u8>>::empty());
            assert(pr + leading_rights(oy) =~= pr);
            lemma_chunks_yours_unchanged(rest, Seq::empty(), pl, pr + leading_rights(oy));
        }
    }
}

/// A script that takes nothing from its right side only takes from its left.
proof fn lemma_no_right_side(s: Seq<Edit>)
    requires
        right_side(s).len() == 0,
    ensures
        forall|t: int| 0 <= t < s.len() ==> #[trigger] s[t] is Left,
    decreases s.len(),
{
    if s.len() > 0 {
        lemma_no_right_side(s.drop_first());
        assert forall|t: int| 0 <= t < s.len() implies #[trigger] s[t] is Left by {
            if t > 0 {
                assert(s[t] == s.drop_first()[t - 1]);
            }
        }
    }
}

/// Appending a chunk's aligned lines moves its lines of version `v` from the
/// chunks still to write to the lines written.
proof fn lemma_append_chunk_side(
    done: Seq<LineView>,
    cv: ChunkView,
    e: Seq<Edit>,
    rest: Seq<ChunkView>,
    v: Version,
    file: Seq<Seq<u8>>,
)
    requires
        pairs_agree(e),
        left_side(e) == cv.left,
        right_side(e) == cv.right,
        project(done, v) + (chunk_side(cv, v) + chunks_side(rest, v)) == file,
    ensures
        project(done + (unmatched_view(e) + anchor_tail(cv)), v) + chunks_side(rest, v) == file,
{
    lemma_project_concat(done, unmatched_view(e) + anchor_tail(cv), v);
    lemma_chunk_lines_project(cv, e, v);
    assert(project(done, v) + chunk_side(cv, v) + chunks_side(rest, v) =~= project(done, v) + (
    chunk_side(cv, v) + chunks_side(rest, v)));
}

/// Appending a chunk's aligned lines keeps two versions agreeing on the lines
/// they hold, when the chunk holds no pending lines of the one that changed
/// nothing and its anchor is held by both.
proof fn lemma_append_chunk_agree(
    done: Seq<LineView>,
    cv: ChunkView,
    e: Seq<Edit>,
    mine_unchanged: bool,
    yours_unchanged: bool,
)
    requires
        left_side(e) == cv.left,
        right_side(e) == cv.right,
        mine_unchanged ==> cv.left.len() == 0 && (cv.anchor matches Some(a) ==> a.1.has(
            Version::Mine,
        )),
        yours_unchanged ==> cv.right.len() == 0 && (cv.anchor matches Some(a) ==> a.1.has(
            Version::Yours,
        )),
        cv.anchor matches Some(a) ==> a.1.has(Version::Old),
        mine_unchanged ==> agree_on(done, Version::Mine, Version::Old),
        yours_unchanged ==> agree_on(done, Version::Old, Version::Yours),
    ensures
        mine_unchanged ==> agree_on(
            done + (unmatched_view(e) + anchor_tail(cv)),
            Version::Mine,
            Version::Old,
        ),
        yours_unchanged ==> agree_on(
            done + (unmatched_view(e) + anchor_tail(cv)),
            Version::Old,
            Version::Yours,
        ),
{
    let part = unmatched_view(e);
    let tail = anchor_tail(cv);
    if mine_unchanged {
        lemma_no_left_side(e);
        assert forall|k: int| 0 <= k < part.len() implies #[trigger] part[k].1 is Your by {
            assert(e[k] is Right);
        }
    }
    if yours_unchanged {
        lemma_no_right_side(e);
        assert forall|k: int| 0 <= k < part.len() implies #[trigger] part[k].1 is My by {
            assert(e[k] is Left);
        }
    }
    let now = done + (part + tail);
    assert forall|k: int| 0 <= k < now.len() implies (mine_unchanged ==> #[trigger] now[k].1.has(
        Version::Mine,
    ) == now[k].1.has(Version::Old)) && (yours_unchanged ==> now[k].1.has(Version::Old)
        == now[k].1.has(Version::Yours)) by {
        if k < done.len() {
            assert(now[k] == done[k]);
        } else if k < done.len() + part.len() {
            assert(now[k] == part[k - done.len()]);
        } else {
            assert(now[k] == tail[k - done.len() - part.len()]);
        }
    }
}

/// Every anchor of an alignment is held by the older version.
proof fn lemma_anchors_old(mo: Seq<Edit>, oy: Seq<Edit>, pl: Seq<Seq<u8>>, pr: Seq<Seq<u8>>)
    ensures
        forall|c: int|
            0 <= c < spec_chunks(mo, oy, pl, pr).len() ==> ((#[trigger] spec_chunks(
                mo,
                oy,
                pl,
                pr,
            )[c]).anchor matches Some(a) ==> a.1.has(Version::Old)),
    decreases mo.len(),
{
    if mo.len() > 0 {
        let rest = mo.drop_first();
        if mo[0] is Left {
            lemma_anchors_old(rest, oy, pl.push(step_line(mo[0])), pr);
        } else {
            let k = first_old_side(oy);
            if k < oy.len() {
                lemma_anchors_old(rest, oy.skip(k + 1int), Seq::empty(), Seq::empty());
                let rcs = spec_chunks(rest, oy.skip(k + 1int), Seq::empty(), Seq::empty());
                let cs = spec_chunks(mo, oy, pl, pr);
                assert forall|c: int| 0 < c < cs.len() implies cs[c] == rcs[c - 1] by {}
            } else {
                lemma_anchors_old(rest, Seq::empty(), pl, pr + leading_rights(oy));
            }
        }
    }
}

/// Aligns mine, the older version and yours line by line.
///
/// Every line of the result says which versions hold it; read in order, the
/// lines that a version holds are exactly the lines of that version.
pub fn match_sequence(myfile: &[Vec<u8>], oldfile: &[Vec<u8>], yourfile: &[Vec<u8>]) -> (lines:
    Vec<Line>)
    requires
        diff_fits(myfile@.len(), oldfile@.len()),
        diff_fits(oldfile@.len(), yourfile@.len()),
        diff_fits(myfile@.len(), yourfile@.len()),
    ensures
        aligned_view(lines@) == spec_match_sequence(
            lines_view(myfile@),
            lines_view(oldfile@),
            lines_view(yourfile@),
        ),
        project(aligned_view(lines@), Version::Mine) == lines_view(myfile@),
        project(aligned_view(lines@), Version::Old) == lines_view(oldfile@),
        project(aligned_view(lines@), Version::Yours) == lines_view(yourfile@),
        lines_view(myfile@) == lines_view(oldfile@) ==> agree_on(
            aligned_view(lines@),
            Version::Mine,
            Version::Old,
        ),
        lines_view(oldfile@) == lines_view(yourfile@) ==> agree_on(
            aligned_view(lines@),
            Version::Old,
            Version::Yours,
        ),
{
    let ghost my = lines_view(myfile@);
    let ghost old = lines_view(oldfile@);
    let ghost your = lines_view(yourfile@);
    let my_old = diff_slice(myfile, oldfile);
    let old_your = diff_slice(oldfile, yourfile);
    let chunks = align(&my_old, &old_your);
    let ghost cs = chunks_view(chunks@);
    proof {
        lemma_chunks_sides(edits_view(my_old@), edits_view(old_your@), Seq::empty(), Seq::empty());
        lemma_anchors_old(edits_view(my_old@), edits_view(old_your@), Seq::empty(), Seq::empty());
        if my == old {
            assert forall|i: int| 0 <= i < edits_view(my_old@).len() implies #[trigger] edits_view(
                my_old@,
            )[i] is Both by {
                assert(my_old@[i] is Both);
            }
            lemma_chunks_mine_unchanged(
                edits_view(my_old@),
                edits_view(old_your@),
                Seq::empty(),
                Seq::empty(),
            );
        }
        if old == your {
            assert forall|i: int| 0 <= i < edits_view(old_your@).len() implies #[trigger] edits_view(
                old_your@,
            )[i] is Both by {
                assert(old_your@[i] is Both);
            }
            assert(right_side(edits_view(my_old@)) == left_side(edits_view(old_your@)));
            lemma_chunks_yours_unchanged(
                edits_view(my_old@),
                edits_view(old_your@),
                Seq::empty(),
                Seq::empty(),
            );
        }
        assert(Seq::<Seq<u8>>::empty() + my =~= my);
        assert(Seq::<Seq<u8>>::empty() + your =~= your);
        assert(cs.skip(0) =~= cs);
    }
    let mut lines: Vec<Line> = Vec::new();
    let mut c: usize = 0;
    assert(aligned_view(lines@) =~= Seq::<LineView>::empty());
    assert(aligned_view(lines@) + assemble(cs) =~= assemble(cs));
    assert(project(aligned_view(lines@), Version::Mine) + chunks_side(cs, Version::Mine) =~= my);
    assert(project(aligned_view(lines@), Version::Old) + chunks_side(cs, Version::Old) =~= old);
    assert(project(aligned_view(lines@), Version::Yours) + chunks_side(cs, Version::Yours)
        =~= your);
    while c < chunks.len()
        invariant
            cs == chunks_view(chunks@),
            c <= chunks@.len(),
            my == lines_view(myfile@),
            your == lines_view(yourfile@),
            diff_fits(myfile@.len(), yourfile@.len()),
            my == old ==> forall|k: int|
                0 <= k < cs.len() ==> {
                    &&& (#[trigger] cs[k]).left.len() == 0
                    &&& cs[k].anchor matches Some(a) ==> a.1.has(Version::Mine)
                },
            old == your ==> forall|k: int|
                0 <= k < cs.len() ==> {
                    &&& (#[trigger] cs[k]).right.len() == 0
                    &&& cs[k].anchor matches Some(a) ==> a.1.has(Version::Yours)
                },
            forall|k: int|
                0 <= k < cs.len() ==> ((#[trigger] cs[k]).anchor matches Some(a) ==> a.1.has(
                    Version::Old,
                )),
            my == old ==> agree_on(aligned_view(lines@), Version::Mine, Version::Old),
            old == your ==> agree_on(aligned_view(lines@), Version::Old, Version::Yours),
            aligned_view(lines@) + assemble(cs.skip(c as int)) == assemble(cs),
            project(aligned_view(lines@), Version::Mine) + chunks_side(
                cs.skip(c as int),
                Version::Mine,
            ) == my,
            project(aligned_view(lines@), Version::Old) + chunks_side(
                cs.skip(c as int),
                Version::Old,
            ) == old,
            project(aligned_view(lines@), Version::Yours) + chunks_side(
                cs.skip(c as int),
                Version::Yours,
            ) == your,
        decreases chunks@.len() - c,
    {
        let chunk = &chunks[c];
        let ghost cv = cs[c as int];
        let ghost rest = cs.skip(c + 1);
        assert(cs.skip(c as int).drop_first() =~= rest);
        assert(cs.skip(c as int)[0] == cv);
        assert(cv == chunk@);
        let ghost done = aligned_view(lines@);
        proof {
            // The pending lines of this chunk fit in mine and in yours.
            assert(chunks_side(cs.skip(c as int), Version::Mine) == chunk_side(cv, Version::Mine)
                + chunks_side(rest, Version::Mine));
            assert(chunks_side(cs.skip(c as int), Version::Yours) == chunk_side(cv, Version::Yours)
                + chunks_side(rest, Version::Yours));
            assert(chunk_side(cv, Version::Mine).len() >= cv.left.len());
            assert(chunk_side(cv, Version::Yours).len() >= cv.right.len());
            assert(my.len() == myfile@.len());
            assert(your.len() == yourfile@.len());
            assert(chunks_side(cs.skip(c as int), Version::Mine).len() <= my.len());
            assert(chunks_side(cs.skip(c as int), Version::Yours).len() <= your.len());
            assert(chunk.left@.len() == cv.left.len());
            assert(chunk.right@.len() == cv.right.len());
            lemma_diff_fits_shrink(
                myfile@.len() as nat,
                yourfile@.len() as nat,
                chunk.left@.len() as nat,
                chunk.right@.len() as nat,
            );
        }
        let script = diff_slice(chunk.left.as_slice(), chunk.right.as_slice());
        let mut part = unmatched_lines(&script);
        let ghost part_view = aligned_view(part@);
        let ghost before = lines@;
        lines.append(&mut part);
        assert(aligned_view(lines@) =~= aligned_view(before) + part_view);
        let ghost tail = anchor_tail(cv);
        match &chunk.anchor {
            Some(a) => {
                let ghost before = lines@;
                let copy = Line { line: copy_line(&a.line), versions: a.versions };
                lines.push(copy);
                assert(aligned_view(lines@) =~= aligned_view(before).push(a@));
                assert(aligned_view(lines@) =~= done + (part_view + tail));
            },
            None => {
                assert(aligned_view(lines@) =~= done + (part_view + tail));
            },
        }
        proof {
            let e = edits_view(script@);
            assert(part_view + tail == chunk_lines(cv));
            assert(assemble(cs.skip(c as int)) == chunk_lines(cv) + assemble(rest));
            assert(done + (chunk_lines(cv) + assemble(rest)) =~= done + chunk_lines(cv) + assemble(
                rest,
            ));
            assert(chunks_side(cs.skip(c as int), Version::Old) == chunk_side(cv, Version::Old)
                + chunks_side(rest, Version::Old));
            lemma_append_chunk_side(done, cv, e, rest, Version::Mine, my);
            lemma_append_chunk_side(done, cv, e, rest, Version::Old, old);
            lemma_append_chunk_side(done, cv, e, rest, Version::Yours, your);
            lemma_append_chunk_agree(done, cv, e, my == old, old == your);
        }
        c = c + 1;
    }
    proof {
        assert(cs.skip(c as int) =~= Seq::<ChunkView>::empty());
        assert(aligned_view(lines@) + Seq::<LineView>::empty() =~= aligned_view(lines@));
        let e: Seq<Seq<u8>> = Seq::empty();
        assert(project(aligned_view(lines@), Version::Mine) + e =~= project(
            aligned_view(lines@),
            Version::Mine,
        ));
        assert(project(aligned_view(lines@), Version::Old) + e =~= project(
            aligned_view(lines@),
            Version::Old,
        ));
        assert(project(aligned_view(lines@), Version::Yours) + e =~= project(
            aligned_view(lines@),
            Version::Yours,
        ));
    }
    lines
}

} // verus!
