//! Properties of every metadata document that `parse_formula` returns, stated
//! over what its contract guarantees.
use crate::meta_builder::{column_layout, flat};
use crate::metadata::{ids_consecutive, FormulaMetaData, VariableInfo, VariableRole};
use crate::text::texts;
use vstd::prelude::*;

verus! {

/// The number of generated columns over all variables of `cols`.
pub open spec fn total_generated(cols: Seq<(String, VariableInfo)>) -> int
    decreases cols.len(),
{
    if cols.len() == 0 {
        0
    } else {
        total_generated(cols.drop_last()) + cols.last().1.generated_columns@.len()
    }
}

proof fn lemma_flat_len(cols: Seq<(String, VariableInfo)>)
    ensures
        flat(cols).len() == total_generated(cols),
    decreases cols.len(),
{
    if cols.len() > 0 {
        lemma_flat_len(cols.drop_last());
    }
}

proof fn lemma_total_split(cols: Seq<(String, VariableInfo)>, k: int)
    requires
        0 <= k <= cols.len(),
    ensures
        total_generated(cols.subrange(0, k)) + total_generated(cols.subrange(k, cols.len() as int))
            == total_generated(cols),
    decreases cols.len(),
{
    if cols.len() == k {
        assert(cols.subrange(0, k) =~= cols);
        assert(cols.subrange(k, cols.len() as int) =~= Seq::<(String, VariableInfo)>::empty());
    } else {
        let d = cols.drop_last();
        lemma_total_split(d, k);
        assert(d.subrange(0, k) =~= cols.subrange(0, k));
        assert(cols.subrange(k, cols.len() as int).drop_last() =~= d.subrange(k, d.len() as int));
        assert(cols.subrange(k, cols.len() as int).last() == cols.last());
    }
}

/// The column list has one entry per generated column of every variable,
/// plus one for `intercept` exactly when the model keeps its intercept.
pub proof fn lemma_column_count(m: FormulaMetaData)
    requires
        m.metadata.response_variable_count <= m.columns@.len(),
        texts(m.all_generated_columns@) == column_layout(
            m.columns@,
            m.metadata.response_variable_count as int,
            m.metadata.has_intercept,
        ),
    ensures
        m.all_generated_columns@.len() == total_generated(m.columns@) + if m.metadata.has_intercept {
            1int
        } else {
            0int
        },
{
    let cols = m.columns@;
    let k = m.metadata.response_variable_count as int;
    lemma_flat_len(cols.subrange(0, k));
    lemma_flat_len(cols.subrange(k, cols.len() as int));
    lemma_total_split(cols, k);
    assert(texts(m.all_generated_columns@).len() == m.all_generated_columns@.len());
}

/// Some variable of `m` has id `v`.
pub open spec fn id_taken(m: FormulaMetaData, v: int) -> bool {
    exists|i: int| 0 <= i < m.columns@.len() && m.columns@[i].1.id == v
}

/// Exactly the response variables have id 1, and the ids of the other
/// variables are 2, 3, ..., N without gaps, rising in order of registration.
pub proof fn lemma_response_ids(m: FormulaMetaData)
    requires
        ids_consecutive(m),
    ensures
        forall|i: int|
            0 <= i < m.columns@.len() ==> ((#[trigger] m.columns@[i]).1.id == 1 <==> i
                < m.metadata.response_variable_count),
        forall|i: int|
            0 <= i < m.metadata.response_variable_count ==> (
            #[trigger] m.columns@[i]).1.roles@.contains(VariableRole::Response),
        forall|v: int|
            2 <= v < m.columns@.len() - m.metadata.response_variable_count + 2 ==> #[trigger] id_taken(
                m,
                v,
            ),
        forall|i: int, j: int|
            m.metadata.response_variable_count <= i < j < m.columns@.len() ==> (
            #[trigger] m.columns@[i]).1.id < (#[trigger] m.columns@[j]).1.id,
{
    let k = m.metadata.response_variable_count as int;
    assert forall|v: int| 2 <= v < m.columns@.len() - k + 2 implies #[trigger] id_taken(m, v) by {
        let i = v - 2 + k;
        assert(m.columns@[i].1.id as int == i - k + 2);
    }
}

} // verus!
