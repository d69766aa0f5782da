//! The algebra's summary laws: what a derived stream's total output is, and
//! how the pairwise comparison queries agree with it.

use vstd::prelude::*;

use crate::algebra::{MergeOp, MergeStream, contains_key, occ_count, op_emits};
use crate::order::entry_keys;

verus! {

/// A freshly built derived stream owes exactly the keys its operation's
/// policy selects from the inputs: every key of any input for a union, the
/// keys of all inputs for an intersection, the first input's keys absent
/// from all others for a difference, and the keys in an odd number of
/// inputs for a symmetric difference. Together with `merge_collect_keys`,
/// whose output holds exactly the owed keys in strictly ascending order,
/// this characterizes each operation's full output, for any number of
/// inputs.
pub proof fn lemma_fresh_stream_owes_policy(st: MergeStream, k: Seq<u8>)
    requires
        st.emitted() == Seq::<Seq<u8>>::empty(),
    ensures
        st.owes(k) <==> op_emits(st.op_spec(), st.inputs_view(), k),
        st.op_spec() == MergeOp::Union ==> (st.owes(k) <==> exists|i: int|
            0 <= i < st.inputs_view().len() && contains_key(st.inputs_view(), i, k)),
        st.op_spec() == MergeOp::Intersection ==> (st.owes(k) <==> st.inputs_view().len() >= 1
            && forall|i: int|
            0 <= i < st.inputs_view().len() ==> contains_key(st.inputs_view(), i, k)),
        st.op_spec() == MergeOp::Difference ==> (st.owes(k) <==> st.inputs_view().len() >= 1
            && contains_key(st.inputs_view(), 0, k) && forall|i: int|
            1 <= i < st.inputs_view().len() ==> !contains_key(st.inputs_view(), i, k)),
        st.op_spec() == MergeOp::SymmetricDifference ==> (st.owes(k) <==> occ_count(
            st.inputs_view(),
            k,
        ) % 2 == 1),
{
}

/// Per key, what a drained two-input stream's output holds: for an
/// intersection the keys of both inputs, for a difference the first
/// input's keys absent from the second.
pub proof fn lemma_pair_output_membership(st: MergeStream, out: Seq<Seq<u8>>, k: Seq<u8>)
    requires
        st.emitted() == Seq::<Seq<u8>>::empty(),
        st.inputs_view().len() == 2,
        forall|j: Seq<u8>| out.contains(j) <==> #[trigger] st.owes(j),
    ensures
        st.op_spec() == MergeOp::Intersection ==> (out.contains(k) <==> (entry_keys(
            st.inputs_view()[0],
        ).contains(k) && entry_keys(st.inputs_view()[1]).contains(k))),
        st.op_spec() == MergeOp::Difference ==> (out.contains(k) <==> (entry_keys(
            st.inputs_view()[0],
        ).contains(k) && !entry_keys(st.inputs_view()[1]).contains(k))),
{
    lemma_fresh_stream_owes_policy(st, k);
    if st.op_spec() == MergeOp::Intersection {
        if contains_key(st.inputs_view(), 0, k) && contains_key(st.inputs_view(), 1, k) {
            assert(forall|i: int|
                0 <= i < st.inputs_view().len() ==> contains_key(st.inputs_view(), i, k));
        }
    }
    if st.op_spec() == MergeOp::Difference {
        if contains_key(st.inputs_view(), 0, k) && !contains_key(st.inputs_view(), 1, k) {
            assert forall|i: int| 1 <= i < st.inputs_view().len() implies !contains_key(
                st.inputs_view(),
                i,
                k,
            ) by {
                assert(i == 1);
            }
        }
        if out.contains(k) {
            assert(!contains_key(st.inputs_view(), 1, k));
        }
    }
}

/// The pairwise comparison queries agree with the merge algebra: two
/// structures are disjoint exactly when their intersection's output is
/// empty, one is a subset of another exactly when their difference's
/// output is empty, and a superset exactly when the reversed difference's
/// output is empty.
pub proof fn lemma_comparisons_match_algebra(
    a: Seq<Seq<u8>>,
    b: Seq<Seq<u8>>,
    inter_out: Seq<Seq<u8>>,
    diff_ab: Seq<Seq<u8>>,
    diff_ba: Seq<Seq<u8>>,
)
    requires
        forall|k: Seq<u8>| #[trigger] inter_out.contains(k) <==> (a.contains(k) && b.contains(k)),
        forall|k: Seq<u8>| #[trigger] diff_ab.contains(k) <==> (a.contains(k) && !b.contains(k)),
        forall|k: Seq<u8>| #[trigger] diff_ba.contains(k) <==> (b.contains(k) && !a.contains(k)),
    ensures
        a.to_set().disjoint(b.to_set()) <==> inter_out.len() == 0,
        a.to_set().subset_of(b.to_set()) <==> diff_ab.len() == 0,
        b.to_set().subset_of(a.to_set()) <==> diff_ba.len() == 0,
{
    if inter_out.len() > 0 {
        assert(inter_out.contains(inter_out[0]));
        assert(a.to_set().contains(inter_out[0]) && b.to_set().contains(inter_out[0]));
    } else {
        assert forall|k: Seq<u8>| a.to_set().contains(k) implies !b.to_set().contains(k) by {
            assert(!inter_out.contains(k));
        }
    }
    if diff_ab.len() > 0 {
        assert(diff_ab.contains(diff_ab[0]));
        assert(a.to_set().contains(diff_ab[0]) && !b.to_set().contains(diff_ab[0]));
    } else {
        assert forall|k: Seq<u8>| a.to_set().contains(k) implies b.to_set().contains(k) by {
            assert(!diff_ab.contains(k));
        }
    }
    if diff_ba.len() > 0 {
        assert(diff_ba.contains(diff_ba[0]));
        assert(b.to_set().contains(diff_ba[0]) && !a.to_set().contains(diff_ba[0]));
    } else {
        assert forall|k: Seq<u8>| b.to_set().contains(k) implies a.to_set().contains(k) by {
            assert(!diff_ba.contains(k));
        }
    }
}

} // verus!
