//! The edit script between two sequences of lines, as computed by the `diff`
//! crate, and what the library relies on of it.

use vstd::prelude::*;

use crate::lines::lines_view;

verus! {

/// One step of an edit script between a left and a right sequence of lines.
#[derive(Clone, Copy)]
pub enum DiffResult<'a> {
    /// A line found only on the left.
    Left(&'a Vec<u8>),
    /// A line found on both sides: the left copy, then the right copy.
    Both(&'a Vec<u8>, &'a Vec<u8>),
    /// A line found only on the right.
    Right(&'a Vec<u8>),
}

/// The abstract value of one step of an edit script.
pub enum Edit {
    Left(Seq<u8>),
    Both(Seq<u8>, Seq<u8>),
    Right(Seq<u8>),
}

impl<'a> DiffResult<'a> {
    pub open spec fn edit(self) -> Edit {
        match self {
            DiffResult::Left(l) => Edit::Left(l@),
            DiffResult::Both(l, r) => Edit::Both(l@, r@),
            DiffResult::Right(r) => Edit::Right(r@),
        }
    }
}

/// The abstract value of an edit script.
pub open spec fn edits_view<'a>(script: Seq<DiffResult<'a>>) -> Seq<Edit> {
    script.map_values(|d: DiffResult<'a>| d.edit())
}

/// The lines that an edit script takes from its left side, in order.
pub open spec fn left_side(edits: Seq<Edit>) -> Seq<Seq<u8>>
    decreases edits.len(),
{
    if edits.len() == 0 {
        Seq::empty()
    } else {
        let rest = left_side(edits.drop_first());
        match edits[0] {
            Edit::Left(l) => seq![l] + rest,
            Edit::Both(l, _) => seq![l] + rest,
            Edit::Right(_) => rest,
        }
    }
}

/// The lines that an edit script takes from its right side, in order.
pub open spec fn right_side(edits: Seq<Edit>) -> Seq<Seq<u8>>
    decreases edits.len(),
{
    if edits.len() == 0 {
        Seq::empty()
    } else {
        let rest = right_side(edits.drop_first());
        match edits[0] {
            Edit::Left(_) => rest,
            Edit::Both(_, r) => seq![r] + rest,
            Edit::Right(r) => seq![r] + rest,
        }
    }
}

/// Every step that pairs two lines pairs equal lines.
pub open spec fn pairs_agree(edits: Seq<Edit>) -> bool {
    forall|i: int|
        0 <= i < edits.len() ==> (#[trigger] edits[i] matches Edit::Both(l, r) ==> l == r)
}

/// The edit script that `diff::slice` computes between two sequences of lines
/// (a longest common subsequence, with the crate's own choice among equals).
pub uninterp spec fn diff_edits(left: Seq<Seq<u8>>, right: Seq<Seq<u8>>) -> Seq<Edit>;

/// The sizes for which `diff::slice` can allocate its table of
/// `(left + 1) * (right + 1)` 32-bit entries.
pub open spec fn diff_fits(left_len: nat, right_len: nat) -> bool {
    (left_len + 1) * (right_len + 1) * 4 <= isize::MAX
}

/// A size that fits stays fitting when both sides shrink.
pub proof fn lemma_diff_fits_shrink(a: nat, b: nat, c: nat, d: nat)
    requires
        diff_fits(a, b),
        c <= a,
        d <= b,
    ensures
        diff_fits(c, d),
{
    assert((c + 1) * (d + 1) <= (a + 1) * (b + 1)) by (nonlinear_arith)
        requires
            c <= a,
            d <= b,
    ;
}

/// Calls `diff::slice` on two sequences of lines and converts each step of the
/// script it returns into a `DiffResult`, one for one.
///
/// Trusted: the result is the script that `diff_edits` names for these
/// arguments; its left-side lines are `left` and its right-side lines are
/// `right`, in order (the crate walks back through its table, stepping one side
/// or both at a time, and wraps the common prefix and suffix as pairs); a pair
/// is only made of lines that compare equal with `==`; two equal sequences
/// give a script of pairs only (the common prefix spans them). The size bound
/// keeps the table allocation, its index arithmetic and its 32-bit lengths
/// within the machine; the crate's other allocations are proportional to the
/// lengths of the slices, which already fit in memory. Nothing is stated of
/// which script the crate picks among those of the same length: `diff_edits`
/// only names it.
#[verifier::external_body]
pub(crate) fn diff_slice<'a>(left: &'a [Vec<u8>], right: &'a [Vec<u8>]) -> (script: Vec<DiffResult<'a>>)
    requires
        diff_fits(left@.len(), right@.len()),
    ensures
        edits_view(script@) == diff_edits(lines_view(left@), lines_view(right@)),
        left_side(edits_view(script@)) == lines_view(left@),
        right_side(edits_view(script@)) == lines_view(right@),
        pairs_agree(edits_view(script@)),
        lines_view(left@) == lines_view(right@) ==> forall|i: int|
            0 <= i < script@.len() ==> #[trigger] script@[i] is Both,
{
    diff::slice(left, right).into_iter().map(|step| match step {
        diff::Result::Left(l) => DiffResult::Left(l),
        diff::Result::Both(l, r) => DiffResult::Both(l, r),
        diff::Result::Right(r) => DiffResult::Right(r),
    }).collect()
}

} // verus!
