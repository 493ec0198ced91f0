//! The order in which a map of rows hands out its keys.

use vstd::prelude::*;
use vstd::std_specs::btree::increasing_seq;
use vstd::std_specs::cmp::OrdSpec;

verus! {

/// Where a sequence of rows is increasing, as a map of rows walks its
/// keys, each row is less than every later one.
pub proof fn lemma_rows_increase(rows: Seq<u64>)
    requires
        increasing_seq(rows),
    ensures
        forall|i: int, j: int| 0 <= i < j < rows.len() ==> rows[i] < rows[j],
{
    broadcast use vstd::laws_cmp::group_laws_cmp;
    broadcast use vstd::std_specs::btree::axiom_increasing_seq_meaning;

    assert forall|i: int, j: int| 0 <= i < j < rows.len() implies rows[i] < rows[j] by {
        assert(rows[i].cmp_spec(&rows[j]) is Less);
    }
}

} // verus!
