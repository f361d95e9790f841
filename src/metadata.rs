//! The metadata document that the semantic pass produces.
//!
//! Maps of the document (variables by name, the 1-indexed column order) are
//! held as vectors of pairs in a fixed order; names in them are unique.
use vstd::prelude::*;

verus! {

/// What a variable is used as in the model.
#[derive(Debug, Clone, Copy, PartialEq, Eq, Structural)]
pub enum VariableRole {
    Response,
    FixedEffect,
    RandomEffect,
    GroupingVariable,
    Identity,
    InteractionTerm,
    Categorical,
}

/// A value in a transformation's parameter map.
#[derive(Debug, Clone, PartialEq, Eq)]
pub enum ParamValue {
    Integer(u32),
    Text(String),
    Bool(bool),
}

/// A function applied to a variable, with the columns it generates.
#[derive(Debug, Clone, PartialEq, Eq)]
pub struct Transformation {
    pub function: String,
    /// Parameter name and value, in order.
    pub parameters: Vec<(String, ParamValue)>,
    pub generates_columns: Vec<String>,
}

/// One side of a pairwise interaction, recorded on the other variable.
#[derive(Debug, Clone, PartialEq, Eq)]
pub struct Interaction {
    pub with: Vec<String>,
    pub order: u32,
    /// `fixed_effects` or `random_effects`.
    pub context: String,
    /// Set for interactions inside a random-effects block.
    pub grouping_variable: Option<String>,
}

/// A random-effects fact about a variable: a `slope` on a term variable, or
/// the `grouping` summary on a grouping variable.
#[derive(Debug, Clone, PartialEq, Eq)]
pub struct RandomEffectInfo {
    pub kind: String,
    pub grouping_variable: String,
    pub has_intercept: bool,
    pub correlated: bool,
    pub includes_interactions: Vec<String>,
    /// The block's variables, on the `grouping` record only.
    pub variables: Option<Vec<String>>,
}

/// Everything recorded about one variable.
#[derive(Debug, Clone, PartialEq, Eq)]
pub struct VariableInfo {
    pub id: u32,
    /// A set: no role occurs twice.
    pub roles: Vec<VariableRole>,
    pub transformations: Vec<Transformation>,
    pub interactions: Vec<Interaction>,
    pub random_effects: Vec<RandomEffectInfo>,
    pub generated_columns: Vec<String>,
}

/// Model-wide facts.
#[derive(Debug, Clone, PartialEq, Eq)]
pub struct FormulaMetadataInfo {
    pub has_intercept: bool,
    pub is_random_effects_model: bool,
    pub has_uncorrelated_slopes_and_intercepts: bool,
    pub family: Option<String>,
    pub response_variable_count: u32,
}

/// The metadata document of one formula.
#[derive(Debug, Clone, PartialEq, Eq)]
pub struct FormulaMetaData {
    /// The input, verbatim.
    pub formula: String,
    pub metadata: FormulaMetadataInfo,
    /// Variables by name, in ascending id order.
    pub columns: Vec<(String, VariableInfo)>,
    pub all_generated_columns: Vec<String>,
    /// `("1", first column)`, `("2", second column)`, ...
    pub all_generated_columns_formula_order: Vec<(String, String)>,
}

/// A column name with its numeric id.
#[derive(Debug, Clone, PartialEq, Eq)]
pub struct ColumnNameStruct {
    pub id: u32,
    pub name: String,
}

/// A transformation name attached to a column id.
#[derive(Debug, Clone, PartialEq, Eq)]
pub struct TransformationStruct {
    pub column_name_struct_id: u32,
    pub name: String,
}

/// A suggested name for a generated column, attached to a column id.
#[derive(Debug, Clone, PartialEq, Eq)]
pub struct ColumnSuggestedNameStruct {
    pub column_name_struct_id: u32,
    pub name: String,
}

impl FormulaMetaData {
    /// The record of the variable called `name`, if there is one.
    pub fn column(&self, name: &str) -> (r: Option<&VariableInfo>)
        ensures
            match r {
                Some(v) => exists|i: int|
                    0 <= i < self.columns@.len() && self.columns@[i].0@ == name@ && *v
                        == self.columns@[i].1,
                None => forall|i: int|
                    0 <= i < self.columns@.len() ==> self.columns@[i].0@ != name@,
            },
    {
        let mut i: usize = 0;
        while i < self.columns.len()
            invariant
                i <= self.columns@.len(),
                forall|j: int| 0 <= j < i ==> self.columns@[j].0@ != name@,
            decreases self.columns@.len() - i,
        {
            if crate::text::same_text(self.columns[i].0.as_str(), name) {
                return Some(&self.columns[i].1);
            }
            i = i + 1;
        }
        None
    }
}

/// Ids as the document promises them: the first `response_variable_count`
/// variables are the responses, each with id 1 and the role `Response`;
/// every later variable has the next id, 2, 3, ... in order; names are
/// unique.
pub open spec fn ids_consecutive(m: FormulaMetaData) -> bool {
    let cols = m.columns@;
    let k = m.metadata.response_variable_count as int;
    &&& 1 <= k <= cols.len()
    &&& forall|i: int|
        0 <= i < k ==> (#[trigger] cols[i]).1.id == 1 && cols[i].1.roles@.contains(
            VariableRole::Response,
        )
    &&& forall|i: int| k <= i < cols.len() ==> (#[trigger] cols[i]).1.id as int == i - k + 2
    &&& forall|i: int, j: int| 0 <= i < j < cols.len() ==> cols[i].0@ != cols[j].0@
}

} // verus!
