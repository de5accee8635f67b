//! The whole comparison: align the three versions, group the alignment into
//! hunks, and write the hunks in the format the operation asks for.

use vstd::prelude::*;

use crate::align::{aligned_view, match_sequence, spec_match_sequence, Version};
use crate::diffing::diff_fits;
use crate::merge::{
    hunks_side, hunks_view, lemma_merged_agree, lemma_merged_all_common, make_merged,
    spec_concrete, spec_merged, ConcreteResolution, LineVariants, MergeLines, MergeOutcome,
    VariantsView,
};
use crate::options::Operation;
use crate::output::{
    lemma_joined_flatten, lemma_merge_text_mine_unchanged, lemma_merge_text_yours_unchanged,
    merge_text, write_merge, LabelsView, MergeLabels,
};
use crate::writers::{
    ed_fits, ed_offsets, ed_text, lemma_normal_text_no_conflict, normal_text, EdWriter,
    NormalWriter,
};

verus! {

/// The hunks of the three-way comparison of mine, the older version and
/// yours.
pub open spec fn spec_hunks(variants: VariantsView) -> Seq<crate::merge::MergeView> {
    spec_merged(spec_match_sequence(variants.mine, variants.old, variants.yours))
}

/// What the tool writes for an operation.
pub open spec fn spec_output(operation: Operation, labels: LabelsView, variants: VariantsView) -> Seq<u8> {
    let hunks = spec_hunks(variants);
    match operation {
        Operation::Normal => normal_text(hunks, 0, 0, 0),
        Operation::Ed(resolution, _) => ed_text(hunks, labels, spec_concrete(resolution), 0),
        Operation::Merge(resolution) => merge_text(hunks, labels, spec_concrete(resolution)),
    }
}

/// Whether the positions of an ed script over these hunks fit in a `usize`.
pub fn ed_positions_fit(merged: &Vec<MergeLines>, concrete: ConcreteResolution) -> (fits: bool)
    ensures
        fits == ed_fits(hunks_view(merged@), concrete, 0),
{
    let ghost hunks = hunks_view(merged@);
    let max: u128 = usize::MAX as u128;
    let mut pos: u128 = 0;
    let mut i: usize = 0;
    assert(hunks.skip(0) =~= hunks);
    while i < merged.len()
        invariant
            hunks == hunks_view(merged@),
            max == usize::MAX,
            i <= merged@.len(),
            pos <= max,
            ed_fits(hunks.skip(i as int), concrete, pos as nat) == ed_fits(hunks, concrete, 0),
        decreases merged@.len() - i,
    {
        let ml = &merged[i];
        let ghost h = hunks[i as int];
        assert(hunks.skip(i as int).drop_first() =~= hunks.skip(i + 1));
        assert(hunks.skip(i as int)[0] == h);
        assert(h == ml@);
        let p: u128 = pos + ml.common_lines.len() as u128;
        let mine: u128 = ml.variants.my_lines.len() as u128;
        let old: u128 = ml.variants.old_lines.len() as u128;
        let yours: u128 = ml.variants.your_lines.len() as u128;
        let offset: u128 = match ml.variants.calculate_merge(concrete) {
            MergeOutcome::MyWins => mine,
            MergeOutcome::YourWins => yours,
            MergeOutcome::ConflictOldYours => yours + old + 3,
            MergeOutcome::ConflictMineYours => yours + mine + 3,
            MergeOutcome::ConflictAll => yours + mine + old + 4,
        };
        assert(offset == ed_offsets(h.variants, h.variants.merge_outcome(concrete)).0);
        if p + mine > max || p + offset > max {
            return false;
        }
        pos = p + offset;
        i = i + 1;
    }
    assert(hunks.skip(i as int) =~= Seq::<crate::merge::MergeView>::empty());
    true
}

/// Compares mine, the older version and yours, and writes what the operation
/// asks for; `None` when the operation is an ed script whose line positions
/// would not fit in a `usize`.
///
/// Merging when mine did not change gives yours, under any resolution that
/// lets yours win where only yours changed; merging when yours did not change
/// gives mine, under any resolution; three equal versions give no output in
/// the normal format.
pub fn three_way_output(operation: Operation, labels: &MergeLabels, variants: &LineVariants) -> (out:
    Option<Vec<u8>>)
    requires
        diff_fits(variants.my_lines@.len(), variants.old_lines@.len()),
        diff_fits(variants.old_lines@.len(), variants.your_lines@.len()),
        diff_fits(variants.my_lines@.len(), variants.your_lines@.len()),
    ensures
        out matches Some(bytes) ==> bytes@ == spec_output(operation, labels@, variants@),
        out is None <==> (operation is Ed && !ed_fits(
            spec_hunks(variants@),
            spec_concrete(operation->Ed_0),
            0,
        )),
        (operation is Merge && variants@.mine == variants@.old && spec_concrete(
            operation->Merge_0,
        ).only_your is YourWins) ==> (out matches Some(bytes) && bytes@
            == variants@.yours.flatten()),
        (operation is Merge && variants@.old == variants@.yours) ==> (out matches Some(bytes)
            && bytes@ == variants@.mine.flatten()),
        (operation is Normal && variants@.mine == variants@.old && variants@.old
            == variants@.yours) ==> (out matches Some(bytes) && bytes@.len() == 0),
{
    let lines = match_sequence(
        variants.my_lines.as_slice(),
        variants.old_lines.as_slice(),
        variants.your_lines.as_slice(),
    );
    let ghost aligned = aligned_view(lines@);
    let merged = make_merged(lines);
    let ghost hunks = hunks_view(merged@);
    assert(hunks == spec_hunks(variants@));
    proof {
        let v = variants@;
        if v.mine == v.old {
            lemma_merged_agree(aligned, Version::Mine, Version::Old);
            assert forall|i: int| 0 <= i < hunks.len() implies (#[trigger] hunks[i]).variants.mine
                == hunks[i].variants.old by {
                assert(hunks[i].variants.side(Version::Mine) == hunks[i].variants.side(Version::Old));
            }
        }
        if v.old == v.yours {
            lemma_merged_agree(aligned, Version::Old, Version::Yours);
            assert forall|i: int| 0 <= i < hunks.len() implies (#[trigger] hunks[i]).variants.old
                == hunks[i].variants.yours by {
                assert(hunks[i].variants.side(Version::Old) == hunks[i].variants.side(Version::Yours));
            }
        }
        if v.mine == v.old && v.old == v.yours {
            assert forall|i: int| 0 <= i < aligned.len() implies #[trigger] aligned[i].1 is MyOldYour by {
                assert(aligned[i].1.has(Version::Mine) == aligned[i].1.has(Version::Old));
                assert(aligned[i].1.has(Version::Old) == aligned[i].1.has(Version::Yours));
            }
            lemma_merged_all_common(aligned);
            lemma_normal_text_no_conflict(hunks, 0, 0, 0);
        }
        lemma_joined_flatten(v.mine);
        lemma_joined_flatten(v.yours);
    }
    match operation {
        Operation::Merge(resolution) => {
            let mut out: Vec<u8> = Vec::new();
            write_merge(merged, labels, resolution, &mut out);
            assert(out@ =~= spec_output(operation, labels@, variants@));
            proof {
                if variants@.mine == variants@.old && spec_concrete(resolution).only_your is YourWins {
                    lemma_merge_text_mine_unchanged(hunks, labels@, spec_concrete(resolution));
                }
                if variants@.old == variants@.yours {
                    lemma_merge_text_yours_unchanged(hunks, labels@, resolution);
                }
            }
            Some(out)
        },
        Operation::Normal => {
            // The line counts of the three versions are lengths of vectors.
            let my_count: usize = variants.my_lines.len();
            let old_count: usize = variants.old_lines.len();
            let your_count: usize = variants.your_lines.len();
            assert(hunks_side(hunks, Version::Mine).len() == my_count);
            assert(hunks_side(hunks, Version::Old).len() == old_count);
            assert(hunks_side(hunks, Version::Yours).len() == your_count);
            let mut writer = NormalWriter {
                merged: &merged,
                output: Vec::new(),
                my_line_n: 0,
                old_line_n: 0,
                your_line_n: 0,
            };
            writer.write_normal();
            assert(writer.output@ =~= spec_output(operation, labels@, variants@));
            Some(writer.output)
        },
        Operation::Ed(resolution, _) => {
            let concrete = ConcreteResolution::from(resolution);
            if !ed_positions_fit(&merged, concrete) {
                return None;
            }
            let mut writer = EdWriter { merged: merged, output: Vec::new() };
            writer.write(labels, concrete);
            assert(writer.output@ =~= spec_output(operation, labels@, variants@));
            Some(writer.output)
        },
    }
}

} // verus!
