//! The syntax tree that the grammar builds and the semantic pass consumes.
use vstd::prelude::*;

verus! {

/// Distribution family named after `family =`.
#[derive(Debug, Clone, Copy, PartialEq, Eq, Structural)]
pub enum Family {
    Gaussian,
    Binomial,
    Poisson,
}

/// Left-hand side: one outcome, or several bound with `bind(...)`.
#[derive(Debug, Clone, PartialEq, Eq)]
pub enum Response {
    Single(String),
    /// Holds at least two names.
    Multivariate(Vec<String>),
}

/// One term of the right-hand side.
#[derive(Debug)]
pub enum Term {
    Column(String),
    Function { name: String, args: Vec<Argument> },
    /// `left : right` or `left * right`, nested to the right.
    Interaction { left: Box<Term>, right: Box<Term> },
    RandomEffect(RandomEffect),
    /// The explicit intercept `1`.
    Intercept,
    /// The intercept-removing `0`.
    Zero,
}

/// An argument of a function call.
#[derive(Debug, Clone, PartialEq, Eq)]
pub enum Argument {
    Ident(String),
    Integer(u32),
    String(String),
    Boolean(bool),
}

/// A parenthesised random-effects block `(terms | grouping)`.
#[derive(Debug)]
pub struct RandomEffect {
    pub terms: Vec<RandomTerm>,
    pub grouping: Grouping,
    pub correlation: CorrelationType,
    pub correlation_id: Option<String>,
}

/// A term on the left of the bar in a random-effects block. The intercept
/// `1` stands as the column named `1`, a name no identifier can have.
#[derive(Debug)]
pub enum RandomTerm {
    Column(String),
    Function { name: String, args: Vec<Argument> },
    Interaction { left: Box<RandomTerm>, right: Box<RandomTerm> },
    SuppressIntercept,
}

/// The grouping factor on the right of the bar.
#[derive(Debug, Clone)]
pub enum Grouping {
    Simple(String),
    Gr { group: String, options: Vec<GrOption> },
    Mm { groups: Vec<String> },
    Interaction { left: String, right: String },
    Nested { outer: String, inner: String },
}

/// An option of `gr(group, ...)`.
#[derive(Debug, Clone, PartialEq, Eq)]
pub enum GrOption {
    Cor(bool),
    Id(String),
    By(Option<String>),
    Cov(bool),
    Dist(String),
}

/// How the effects of one block are correlated.
#[derive(Debug, Clone, PartialEq, Eq)]
pub enum CorrelationType {
    Correlated,
    Uncorrelated,
    CrossParameter(String),
}

} // verus!
