//! Parser for statistical model formulas in extended Wilkinson notation
//! (`y ~ x + poly(x, 2) + (x || group)`), producing a variable-centric
//! metadata document.
//!
//! The pipeline is: text, then [`lexer::tokenize`], then the recursive-descent
//! grammar of [`grammar`] and [`random_effect`], then [`analyze`], the
//! semantic pass built on [`meta_builder`]. [`parse_formula`] runs all of it;
//! [`lex_formula`] only the first step.

pub mod ast;
pub mod cursor;
pub mod errors;
pub mod grammar;
pub mod kinds;
pub mod laws;
pub mod lexer;
pub mod meta_builder;
pub mod parser;
pub mod metadata;
pub mod random_effect;
mod style;
pub mod text;
pub mod transform;

use crate::ast::{Argument, Family, Response, Term};
use crate::transform::{
    base_name, generated_names, is_first_ident, lemma_first_ident_unique, no_ident, poly_degree,
};
use crate::metadata::ParamValue;
use crate::random_effect::{simple_block, simple_block_result};
use crate::text::{all_digits, decimal_text, decimal_value};
use crate::errors::ParseError;
use crate::grammar::{
    arg_ok, args_then_close, bind_shape, name_and_block, call_ends, closes_args, denotes_argument, is_call,
    columns_from, family_after, family_of, family_tail, formula_end, kind_at, lexeme, plain_rhs,
    response_written, simple_head,
};
use crate::lexer::{lex_from, tokenize, tokens_agree, Token};
use crate::meta_builder::{
    column_layout, flat, lemma_term_roles_persist, transformed_by, numbers, response_names, role_in, term_roles_hold,
    term_roles_in, MetaBuilder,
};
use crate::metadata::{ids_consecutive, FormulaMetaData, Transformation, VariableInfo, VariableRole};
use crate::text::texts;
use vstd::prelude::*;

verus! {

/// The most variables a term can register.
fn term_width(term: &Term) -> (w: usize)
    ensures
        w as int == term_width_spec(*term) || (w == usize::MAX && term_width_spec(*term)
            > usize::MAX),
{
    match term {
        Term::Column(_) | Term::Function { .. } => 1,
        Term::Interaction { .. } => 2,
        Term::RandomEffect(re) => if re.terms.len() < usize::MAX {
            re.terms.len() + 1
        } else {
            usize::MAX
        },
        _ => 0,
    }
}

/// The most variables term `t` can register.
pub open spec fn term_width_spec(t: Term) -> int {
    match t {
        Term::Column(_) => 1,
        Term::Function { .. } => 1,
        Term::Interaction { .. } => 2,
        Term::RandomEffect(re) => re.terms@.len() as int + 1,
        _ => 0,
    }
}

/// The most variables the terms can register together.
pub open spec fn total_width(terms: Seq<Term>) -> int
    decreases terms.len(),
{
    if terms.len() == 0 {
        0
    } else {
        total_width(terms.drop_last()) + term_width_spec(terms.last())
    }
}

proof fn lemma_total_width_nonneg(terms: Seq<Term>)
    ensures
        total_width(terms) >= 0,
    decreases terms.len(),
{
    if terms.len() > 0 {
        lemma_total_width_nonneg(terms.drop_last());
    }
}

proof fn lemma_total_width_prefix(terms: Seq<Term>, i: int)
    requires
        0 <= i <= terms.len(),
    ensures
        total_width(terms.subrange(0, i)) <= total_width(terms),
        i < terms.len() ==> total_width(terms.subrange(0, i + 1)) == total_width(
            terms.subrange(0, i),
        ) + term_width_spec(terms[i]),
    decreases terms.len() - i,
{
    if i < terms.len() {
        assert(terms.subrange(0, i + 1).drop_last() =~= terms.subrange(0, i));
        lemma_total_width_prefix(terms, i + 1);
    } else {
        assert(terms.subrange(0, i) =~= terms);
    }
}

/// The name of a family, as the document writes it.
pub open spec fn family_text(f: Family) -> Seq<char> {
    match f {
        Family::Gaussian => "gaussian"@,
        Family::Binomial => "binomial"@,
        Family::Poisson => "poisson"@,
    }
}

fn family_name(f: Family) -> (r: String)
    ensures
        r@ == family_text(f),
{
    match f {
        Family::Gaussian => "gaussian".to_string(),
        Family::Binomial => "binomial".to_string(),
        Family::Poisson => "poisson".to_string(),
    }
}

/// The largest number of registered variables for which ids still fit.
pub const VARIABLE_LIMIT: usize = 4294967293;

/// Some term is a random-effects block.
pub open spec fn has_random_effect(terms: Seq<Term>) -> bool {
    exists|j: int| 0 <= j < terms.len() && (#[trigger] terms[j]) is RandomEffect
}

/// Some term is a random-effects block with uncorrelated effects (`||`).
pub open spec fn has_uncorrelated_block(terms: Seq<Term>) -> bool {
    exists|j: int| 0 <= j < terms.len() && uncorrelated_block(#[trigger] terms[j])
}

/// The term is a random-effects block with uncorrelated effects.
pub open spec fn uncorrelated_block(t: Term) -> bool {
    t matches Term::RandomEffect(re) && re.correlation is Uncorrelated
}

/// One of the first `k` variables of `cols` is called `name`.
pub open spec fn named_among(cols: Seq<(String, VariableInfo)>, k: int, name: Seq<char>) -> bool {
    exists|p: int| 0 <= p < k && cols[p].0@ == name
}

/// What the semantic pass promises of the document it builds from a parsed
/// formula.
pub open spec fn describes(
    m: FormulaMetaData,
    formula: Seq<char>,
    response: Response,
    terms: Seq<Term>,
    has_intercept: bool,
    family: Option<Family>,
) -> bool {
    let names = response_names(response);
    let k = m.metadata.response_variable_count as int;
    &&& m.formula@ == formula
    &&& m.metadata.has_intercept == has_intercept
    &&& match family {
        Some(f) => m.metadata.family matches Some(t) && t@ == family_text(f),
        None => m.metadata.family is None,
    }
    &&& m.metadata.is_random_effects_model == has_random_effect(terms)
    &&& m.metadata.has_uncorrelated_slopes_and_intercepts == has_uncorrelated_block(terms)
    &&& ids_consecutive(m)
    &&& forall|q: int| 0 <= q < names.len() ==> named_among(m.columns@, k, #[trigger] names[q])
    &&& forall|i: int| 0 <= i < k ==> names.contains(#[trigger] m.columns@[i].0@)
    &&& forall|j: int| 0 <= j < terms.len() ==> term_roles_in(m.columns@, #[trigger] terms[j])
    &&& texts(m.all_generated_columns@) == column_layout(m.columns@, k, m.metadata.has_intercept)
    &&& numbers(m.all_generated_columns_formula_order@, m.all_generated_columns@)
}

/// The name of a column term; empty for other terms.
pub open spec fn column_name(t: Term) -> Seq<char> {
    match t {
        Term::Column(c) => c@,
        _ => Seq::empty(),
    }
}

/// A single response and right-hand columns whose names are all different.
pub open spec fn fresh_columns(response: Response, terms: Seq<Term>) -> bool {
    &&& response is Single
    &&& forall|j: int| 0 <= j < terms.len() ==> (#[trigger] terms[j]) is Column
    &&& forall|j: int|
        0 <= j < terms.len() ==> column_name(#[trigger] terms[j]) != response_names(response)[0]
    &&& forall|j: int, k: int|
        0 <= j < k < terms.len() ==> column_name(#[trigger] terms[j]) != column_name(
            #[trigger] terms[k],
        )
}

/// A single response and one function term whose variable is another name.
pub open spec fn single_call(response: Response, terms: Seq<Term>) -> bool {
    &&& response is Single
    &&& terms.len() == 1
    &&& terms[0] matches Term::Function { name, args } && !no_ident(args@) && base_name(args@)
        != response_names(response)[0]
}

/// The document holds `name` with `f(args)` as its one transformation.
pub open spec fn transformed_once(m: FormulaMetaData, name: Seq<char>, f: Seq<char>, args: Seq<Argument>) -> bool {
    exists|i: int|
        0 <= i < m.columns@.len() && m.columns@[i].0@ == name && m.columns@[i].1.transformations@.len()
            == 1 && transformed_by(m.columns@[i].1, name, f, args)
}

/// A single response and no right-hand term but the intercept `1`.
pub open spec fn intercept_only(response: Response, terms: Seq<Term>) -> bool {
    &&& response is Single
    &&& terms.len() == 1
    &&& terms[0] is Intercept
}

/// The columns of a formula whose variables are its response and fresh
/// columns: the response, `intercept` if kept, then each column in order.
pub open spec fn fresh_layout(y: Seq<char>, terms: Seq<Term>, has_intercept: bool) -> Seq<Seq<char>> {
    seq![y] + (if has_intercept {
        seq!["intercept"@]
    } else {
        Seq::empty()
    }) + terms.map_values(|t: Term| column_name(t))
}

/// Entries whose one generated column is their own name flatten to their
/// names.
proof fn lemma_flat_own_names(cols: Seq<(String, VariableInfo)>)
    requires
        forall|j: int|
            0 <= j < cols.len() ==> texts((#[trigger] cols[j]).1.generated_columns@) == seq![
                cols[j].0@,
            ],
    ensures
        flat(cols) == cols.map_values(|p: (String, VariableInfo)| p.0@),
    decreases cols.len(),
{
    if cols.len() > 0 {
        let d = cols.drop_last();
        assert forall|j: int| 0 <= j < d.len() implies texts((#[trigger] d[j]).1.generated_columns@)
            == seq![d[j].0@] by {
            assert(d[j] == cols[j]);
        }
        lemma_flat_own_names(d);
        assert(texts(cols.last().1.generated_columns@) == seq![cols[cols.len() - 1].0@]);
        assert(flat(cols) =~= cols.map_values(|p: (String, VariableInfo)| p.0@));
    }
}

/// The semantic pass: registers the response, then each term in order, and
/// builds the document. It fails only when the variables could not be
/// numbered in `u32`, with `Syntax`.
pub fn analyze(
    formula: &str,
    response: &Response,
    terms: &Vec<Term>,
    has_intercept: bool,
    family: Option<Family>,
) -> (r: Result<FormulaMetaData, ParseError>)
    requires
        response_names(*response).len() >= 1,
    ensures
        r is Err ==> r matches Err(ParseError::Syntax(_)),
        response_names(*response).len() + total_width(terms@) <= VARIABLE_LIMIT ==> r is Ok,
        r matches Ok(m) ==> describes(m, formula@, *response, terms@, has_intercept, family),
        fresh_columns(*response, terms@) ==> (r matches Ok(m) ==> texts(m.all_generated_columns@)
            == fresh_layout(response_names(*response)[0], terms@, has_intercept) && m.columns@.len()
            == terms@.len() + 1 && forall|j: int|
            0 <= j < terms@.len() ==> m.columns@[j + 1].0@ == column_name(#[trigger] terms@[j])),
        single_call(*response, terms@) ==> (r matches Ok(m) ==> (terms@[0] matches Term::Function {
            name,
            args,
        } ==> transformed_once(m, base_name(args@), name@, args@))),
        intercept_only(*response, terms@) ==> (r matches Ok(m) ==> m.columns@.len() == 1 && texts(
            m.all_generated_columns@,
        ) == seq![response_names(*response)[0]] + (if has_intercept {
            seq!["intercept"@]
        } else {
            Seq::empty()
        })),
{
    let mut mb = MetaBuilder::new();
    let n_names: usize = match response {
        Response::Single(_) => 1,
        Response::Multivariate(names) => names.len(),
    };
    let ghost names = response_names(*response);
    proof {
        assert(names.len() == n_names) by {
            match *response {
                Response::Single(_) => {},
                Response::Multivariate(v) => {},
            }
        }
        lemma_total_width_nonneg(terms@);
    }
    if n_names > VARIABLE_LIMIT {
        return Err(ParseError::Syntax("formula has too many variables".to_string()));
    }
    mb.push_response(response);
    proof {
        assert(mb.has(names[0]));
        assert forall|q: int| 0 <= q < names.len() implies exists|i: int|
            0 <= i < mb.n_responses && mb.name_at(i) == #[trigger] names[q] by {
            assert(mb.has(names[q]));
        }
    }
    proof {
        if *response is Single {
            assert(mb.columns@.len() >= 1);
            assert(mb.columns@.len() == 1) by {
                if mb.columns@.len() > 1 {
                    assert(names.contains(mb.name_at(0)));
                    assert(names.contains(mb.name_at(1)));
                    assert(mb.name_at(0) != mb.name_at(1));
                }
            }
            assert(names.contains(mb.name_at(0)));
        }
    }
    let mut i: usize = 0;
    while i < terms.len()
        invariant
            i <= terms@.len(),
            single_call(*response, terms@) ==> (i == 0 ==> mb.columns@.len() == 1 && mb.name_at(0)
                == names[0]),
            single_call(*response, terms@) ==> (i == 1 ==> (terms@[0] matches Term::Function {
                name,
                args,
            } ==> exists|j: int|
                0 <= j < mb.columns@.len() && mb.name_at(j) == base_name(args@)
                    && mb.info_at(j).transformations@.len() == 1 && transformed_by(
                    mb.info_at(j),
                    base_name(args@),
                    name@,
                    args@,
                ))),
            intercept_only(*response, terms@) ==> {
                &&& mb.columns@.len() == 1
                &&& mb.name_at(0) == names[0]
                &&& texts(mb.info_at(0).generated_columns@) == seq![mb.name_at(0)]
            },
            fresh_columns(*response, terms@) ==> {
                &&& mb.columns@.len() == i + 1
                &&& mb.n_responses == 1
                &&& mb.name_at(0) == names[0]
                &&& forall|j: int|
                    0 <= j < i ==> mb.name_at(j + 1) == column_name(#[trigger] terms@[j])
                &&& forall|j: int|
                    0 <= j < mb.columns@.len() ==> texts(
                        (#[trigger] mb.info_at(j)).generated_columns@,
                    ) == seq![mb.name_at(j)]
            },
            mb.wf(),
            mb.n_responses >= 1,
            names == response_names(*response),
            forall|q: int|
                0 <= q < names.len() ==> named_among(mb.columns@, mb.n_responses as int, #[trigger] names[q]),
            forall|p: int| 0 <= p < mb.n_responses ==> names.contains(#[trigger] mb.name_at(p)),
            mb.is_random_effects_model == (exists|j: int|
                0 <= j < i && (#[trigger] terms@[j]) is RandomEffect),
            mb.has_uncorrelated_slopes_and_intercepts == (exists|j: int|
                0 <= j < i && uncorrelated_block(#[trigger] terms@[j])),
            forall|j: int| 0 <= j < i ==> term_roles_hold(mb, #[trigger] terms@[j]),
            mb.columns@.len() <= names.len() + total_width(terms@.subrange(0, i as int)),
        decreases terms@.len() - i,
    {
        let term = &terms[i];
        let width = term_width(term);
        proof {
            lemma_total_width_prefix(terms@, i as int);
            lemma_total_width_prefix(terms@, i as int + 1);
        }
        if width > VARIABLE_LIMIT || mb.columns.len() > VARIABLE_LIMIT - width {
            return Err(ParseError::Syntax("formula has too many variables".to_string()));
        }
        let ghost before = mb;
        match term {
            Term::Column(name) => mb.push_plain_term(name.as_str()),
            Term::Function { name, args } => mb.push_function_term(name.as_str(), args),
            Term::Interaction { left, right } => mb.push_interaction(left, right),
            Term::RandomEffect(re) => mb.push_random_effect(re),
            _ => {},
        }
        proof {
            if single_call(*response, terms@) && i == 0 {
                if let Term::Function { name, args } = terms@[0] {
                    let b = base_name(args@);
                    assert(!before.has(b)) by {
                        if before.has(b) {
                            let w = choose|w: int| 0 <= w < before.columns@.len() && before.name_at(w) == b;
                            assert(w == 0);
                        }
                    }
                    assert(before.base_transformations(b) =~= Seq::<Transformation>::empty());
                }
            }
            if fresh_columns(*response, terms@) {
                assert(terms@[i as int] is Column);
                let c = column_name(terms@[i as int]);
                assert(!before.has(c)) by {
                    if before.has(c) {
                        let w = choose|w: int| 0 <= w < before.columns@.len() && before.name_at(w) == c;
                        if w == 0 {
                            assert(c != names[0]);
                        } else {
                            assert(before.name_at((w - 1) + 1) == column_name(terms@[w - 1]));
                        }
                    }
                }
                assert forall|j: int| 0 <= j < mb.columns@.len() implies texts(
                    (#[trigger] mb.info_at(j)).generated_columns@,
                ) == seq![mb.name_at(j)] by {
                    if j < before.columns@.len() {
                        assert(before.name_at(j) != c) by {
                            if j > 0 {
                                assert(before.name_at((j - 1) + 1) == column_name(terms@[j - 1]));
                            }
                        }
                        assert(mb.columns@[j] == before.columns@[j]);
                        assert(mb.info_at(j) == before.info_at(j));
                    }
                }
                assert forall|j: int| 0 <= j < i + 1 implies mb.name_at(j + 1) == column_name(
                    #[trigger] terms@[j],
                ) by {
                    if j < i {
                        assert(before.name_at(j + 1) == column_name(terms@[j]));
                    }
                }
            }
            assert forall|j: int| 0 <= j < i + 1 implies term_roles_hold(mb, #[trigger] terms@[j]) by {
                if j < i {
                    lemma_term_roles_persist(before, mb, terms@[j]);
                }
            }
            assert forall|q: int| 0 <= q < names.len() implies named_among(mb.columns@, mb.n_responses as int, #[trigger] names[q]) by {
                assert(named_among(before.columns@, before.n_responses as int, names[q]));
                let p = choose|p: int| 0 <= p < before.n_responses && before.columns@[p].0@ == names[q];
                assert(mb.name_at(p) == before.name_at(p));
                assert(mb.columns@[p].0@ == names[q]);
            }
            assert forall|p: int| 0 <= p < mb.n_responses implies names.contains(
                #[trigger] mb.name_at(p),
            ) by {
                assert(mb.name_at(p) == before.name_at(p));
            }
            if terms@[i as int] is RandomEffect {
                assert(mb.is_random_effects_model);
            }
            assert(mb.is_random_effects_model == (exists|j: int|
                0 <= j < i + 1 && (#[trigger] terms@[j]) is RandomEffect)) by {
                if mb.is_random_effects_model && !(terms@[i as int] is RandomEffect) {
                    assert(before.is_random_effects_model);
                }
            }
            assert(mb.has_uncorrelated_slopes_and_intercepts == (exists|j: int|
                0 <= j < i + 1 && uncorrelated_block(#[trigger] terms@[j]))) by {
                if mb.has_uncorrelated_slopes_and_intercepts && !uncorrelated_block(terms@[i as int]) {
                    assert(before.has_uncorrelated_slopes_and_intercepts);
                }
            }
        }
        i = i + 1;
    }
    let family_text = match family {
        Some(f) => Some(family_name(f)),
        None => None,
    };
    let ghost fin = mb;
    let m = mb.build(formula, has_intercept, family_text);
    proof {
        let cols = m.columns@;
        assert forall|i: int| 0 <= i < fin.n_responses implies (#[trigger] cols[i]).1.id == 1
            && cols[i].1.roles@.contains(crate::metadata::VariableRole::Response) by {
            assert(fin.info_at(i) == cols[i].1);
        }
        assert forall|i: int| fin.n_responses <= i < cols.len() implies (
        #[trigger] cols[i]).1.id as int == i - fin.n_responses + 2 by {
            assert(fin.info_at(i) == cols[i].1);
        }
        assert forall|i: int, j: int| 0 <= i < j < cols.len() implies cols[i].0@ != cols[j].0@ by {
            assert(fin.name_at(i) != fin.name_at(j));
        }
        assert forall|j: int| 0 <= j < terms@.len() implies term_roles_in(
            m.columns@,
            #[trigger] terms@[j],
        ) by {
            assert(term_roles_hold(fin, terms@[j]));
        }
        assert forall|q: int| 0 <= q < names.len() implies named_among(m.columns@, m.metadata.response_variable_count as int, #[trigger] names[q]) by {
            assert(named_among(fin.columns@, fin.n_responses as int, names[q]));
        }
        assert forall|p: int| 0 <= p < m.metadata.response_variable_count implies names.contains(
            #[trigger] m.columns@[p].0@,
        ) by {
            assert(m.columns@[p].0@ == fin.name_at(p));
        }
        if !has_random_effect(terms@) {
            assert(!fin.is_random_effects_model);
        }
        if intercept_only(*response, terms@) {
            let cols = fin.columns@;
            assert(cols.subrange(0, 1) =~= cols);
            assert(cols.subrange(1, cols.len() as int) =~= Seq::<(String, VariableInfo)>::empty());
            assert(flat(cols.subrange(0, 1)) =~= seq![names[0]]) by {
                assert(cols.subrange(0, 1).drop_last() =~= Seq::<(String, VariableInfo)>::empty());
            }
        }
        if fresh_columns(*response, terms@) {
            let cols = fin.columns@;
            let head = cols.subrange(0, 1);
            let rest = cols.subrange(1, cols.len() as int);
            assert forall|j: int| 0 <= j < head.len() implies texts(
                (#[trigger] head[j]).1.generated_columns@,
            ) == seq![head[j].0@] by {
                assert(fin.info_at(j) == head[j].1);
            }
            assert forall|j: int| 0 <= j < rest.len() implies texts(
                (#[trigger] rest[j]).1.generated_columns@,
            ) == seq![rest[j].0@] by {
                assert(fin.info_at(j + 1) == rest[j].1);
            }
            lemma_flat_own_names(head);
            lemma_flat_own_names(rest);
            assert(rest.map_values(|p: (String, VariableInfo)| p.0@) =~= terms@.map_values(
                |t: Term| column_name(t),
            )) by {
                assert forall|j: int| 0 <= j < rest.len() implies rest[j].0@ == column_name(
                    terms@[j],
                ) by {
                    assert(fin.name_at(j + 1) == column_name(terms@[j]));
                }
            }
            assert(head.map_values(|p: (String, VariableInfo)| p.0@) =~= seq![names[0]]);
            assert forall|j: int| 0 <= j < terms@.len() implies m.columns@[j + 1].0@ == column_name(
                #[trigger] terms@[j],
            ) by {
                assert(fin.name_at(j + 1) == column_name(terms@[j]));
            }
        }
        if !has_uncorrelated_block(terms@) {
            assert(!fin.has_uncorrelated_slopes_and_intercepts);
        }
    }
    Ok(m)
}

/// The token at `i` of `s`'s token list has kind `k`.
pub open spec fn lex_kind(s: Seq<char>, i: int, k: Token) -> bool {
    &&& lex_from(s, 0) is Ok
    &&& 0 <= i < lex_from(s, 0)->Ok_0.len()
    &&& lex_from(s, 0)->Ok_0[i].0 == k
}

/// The lexeme of token `i` of `s`.
pub open spec fn lex_text(s: Seq<char>, i: int) -> Seq<char> {
    s.subrange(lex_from(s, 0)->Ok_0[i].1, lex_from(s, 0)->Ok_0[i].2)
}

/// The response is the one written in `s`: its first token, or the names
/// inside `bind(...)`.
pub open spec fn response_in_text(s: Seq<char>, resp: Response) -> bool {
    match resp {
        Response::Single(n) => lex_kind(s, 0, Token::ColumnName) && n@ == lex_text(s, 0),
        Response::Multivariate(names) => {
            &&& lex_kind(s, 0, Token::Bind)
            &&& names@.len() >= 2
            &&& forall|k: int|
                0 <= k < names@.len() ==> (#[trigger] names@[k])@ == lex_text(s, 2 + 2 * k)
        },
    }
}

/// `s` reads `y ~ a1 + ... + an`, then `- 1` exactly when `hi` is false,
/// the right-hand side ending before token `e`, then nothing or
/// `, family = name`.
pub open spec fn simple_formula(s: Seq<char>, n: int, e: int, hi: bool) -> bool {
    let toks = lex_from(s, 0)->Ok_0;
    &&& lex_from(s, 0) is Ok
    &&& n >= 1
    &&& lex_kind(s, 0, Token::ColumnName)
    &&& lex_kind(s, 1, Token::Tilde)
    &&& forall|q: int| 0 <= q < n ==> lex_kind(s, #[trigger] (2 + 2 * q), Token::ColumnName)
    &&& forall|q: int| 0 <= q < n - 1 ==> lex_kind(s, #[trigger] (3 + 2 * q), Token::Plus)
    &&& if hi {
        e == 2 * n + 1
    } else {
        lex_kind(s, 2 * n + 1, Token::Minus) && lex_kind(s, 2 * n + 2, Token::One) && e == 2 * n
            + 3
    }
    &&& (e == toks.len() || (toks.len() == e + 4 && lex_kind(s, e, Token::Comma) && lex_kind(
        s,
        e + 1,
        Token::Family,
    ) && lex_kind(s, e + 2, Token::Equal) && family_of(toks[e + 3].0) is Some))
}

/// The family a simple formula names after token `e`, as the document
/// writes it.
pub open spec fn simple_family(s: Seq<char>, e: int) -> Option<Seq<char>> {
    let toks = lex_from(s, 0)->Ok_0;
    if e < toks.len() {
        Some(family_text(family_of(toks[e + 3].0)->0))
    } else {
        None
    }
}

/// The document of a simple formula: the intercept as written, the family
/// as written, no random effects, one response variable (the first
/// token's name, with id 1), and every right-hand name as a plain variable.
pub open spec fn simple_document(m: FormulaMetaData, s: Seq<char>, n: int, e: int, hi: bool) -> bool {
    &&& m.formula@ == s
    &&& m.metadata.has_intercept == hi
    &&& match simple_family(s, e) {
        Some(t) => m.metadata.family matches Some(f) && f@ == t,
        None => m.metadata.family is None,
    }
    &&& !m.metadata.is_random_effects_model
    &&& !m.metadata.has_uncorrelated_slopes_and_intercepts
    &&& m.metadata.response_variable_count == 1
    &&& m.columns@[0].0@ == lex_text(s, 0)
    &&& m.columns@[0].1.id == 1
    &&& forall|q: int|
        0 <= q < n ==> role_in(m.columns@, #[trigger] lex_text(s, 2 + 2 * q), VariableRole::Identity)
    &&& distinct_names(s, n) ==> forall|q: int|
        0 <= q < n ==> m.columns@[q + 1].0@ == #[trigger] lex_text(s, 2 + 2 * q) && m.columns@[q
            + 1].1.id == q + 2
    &&& distinct_names(s, n) ==> texts(m.all_generated_columns@) == seq![lex_text(s, 0)] + (
    if hi {
        seq!["intercept"@]
    } else {
        Seq::empty()
    }) + Seq::new(n as nat, |q: int| lex_text(s, 2 + 2 * q))
}

/// The response name and the `n` right-hand names of a simple formula are
/// all different.
pub open spec fn distinct_names(s: Seq<char>, n: int) -> bool {
    &&& forall|q: int| 0 <= q < n ==> #[trigger] lex_text(s, 2 + 2 * q) != lex_text(s, 0)
    &&& forall|p: int, q: int|
        0 <= p < q < n ==> #[trigger] lex_text(s, 2 + 2 * p) != #[trigger] lex_text(s, 2 + 2 * q)
}

/// `s` reads `bind(y1, ..., ym) ~ a1 + ... + an`, then `- 1` exactly when
/// `hi` is false, the right-hand side ending before token `e`, then nothing
/// or `, family = name`.
pub open spec fn bind_formula(s: Seq<char>, m: int, n: int, e: int, hi: bool) -> bool {
    let toks = lex_from(s, 0)->Ok_0;
    let h = 2 * m + 3;
    &&& lex_from(s, 0) is Ok
    &&& m >= 2
    &&& n >= 1
    &&& lex_kind(s, 0, Token::Bind)
    &&& lex_kind(s, 1, Token::FunctionStart)
    &&& forall|q: int| 0 <= q < m ==> lex_kind(s, #[trigger] (2 + 2 * q), Token::ColumnName)
    &&& forall|q: int| 0 <= q < m - 1 ==> lex_kind(s, #[trigger] (3 + 2 * q), Token::Comma)
    &&& lex_kind(s, 2 * m + 1, Token::FunctionEnd)
    &&& lex_kind(s, 2 * m + 2, Token::Tilde)
    &&& forall|q: int| 0 <= q < n ==> lex_kind(s, #[trigger] (h + 2 * q), Token::ColumnName)
    &&& forall|q: int| 0 <= q < n - 1 ==> lex_kind(s, #[trigger] (h + 2 * q + 1), Token::Plus)
    &&& if hi {
        e == h + 2 * n - 1
    } else {
        lex_kind(s, h + 2 * n - 1, Token::Minus) && lex_kind(s, h + 2 * n, Token::One) && e == h
            + 2 * n + 1
    }
    &&& (e == toks.len() || (toks.len() == e + 4 && lex_kind(s, e, Token::Comma) && lex_kind(
        s,
        e + 1,
        Token::Family,
    ) && lex_kind(s, e + 2, Token::Equal) && family_of(toks[e + 3].0) is Some))
}

/// `s` reads `y ~ 1`, then nothing or `, family = name`.
pub open spec fn intercept_formula(s: Seq<char>) -> bool {
    let toks = lex_from(s, 0)->Ok_0;
    &&& lex_from(s, 0) is Ok
    &&& lex_kind(s, 0, Token::ColumnName)
    &&& lex_kind(s, 1, Token::Tilde)
    &&& lex_kind(s, 2, Token::One)
    &&& (toks.len() == 3 || (toks.len() == 7 && lex_kind(s, 3, Token::Comma) && lex_kind(
        s,
        4,
        Token::Family,
    ) && lex_kind(s, 5, Token::Equal) && family_of(toks[6].0) is Some))
}

/// `s` starts `y ~ 1 - 1`.
pub open spec fn contradictory_intercept(s: Seq<char>) -> bool {
    &&& lex_kind(s, 0, Token::ColumnName)
    &&& lex_kind(s, 1, Token::Tilde)
    &&& lex_kind(s, 2, Token::One)
    &&& lex_kind(s, 3, Token::Minus)
    &&& lex_kind(s, 4, Token::One)
}

/// `s` reads `y ~ poly(x, d)` with `x` another name than `y` and `d` a
/// decimal that fits in `u32`.
pub open spec fn poly_formula(s: Seq<char>) -> bool {
    &&& lex_from(s, 0) is Ok
    &&& lex_from(s, 0)->Ok_0.len() == 8
    &&& lex_kind(s, 0, Token::ColumnName)
    &&& lex_kind(s, 1, Token::Tilde)
    &&& lex_kind(s, 2, Token::Poly)
    &&& lex_kind(s, 3, Token::FunctionStart)
    &&& lex_kind(s, 4, Token::ColumnName)
    &&& lex_kind(s, 5, Token::Comma)
    &&& lex_kind(s, 6, Token::Integer)
    &&& lex_kind(s, 7, Token::FunctionEnd)
    &&& lex_text(s, 6).len() > 0
    &&& all_digits(lex_text(s, 6))
    &&& decimal_value(lex_text(s, 6)) <= u32::MAX
    &&& lex_text(s, 4) != lex_text(s, 0)
}

/// The document gives variable `x` the one transformation `poly(x, d)`:
/// parameters `degree = d` and `orthogonal = true`, columns `x_poly_1` to
/// `x_poly_d`.
pub open spec fn has_poly(m: FormulaMetaData, x: Seq<char>, d: nat) -> bool {
    exists|i: int|
        0 <= i < m.columns@.len() && m.columns@[i].0@ == x && {
            let ts = m.columns@[i].1.transformations@;
            &&& ts.len() == 1
            &&& ts[0].function@ == "poly"@
            &&& ts[0].parameters@.len() == 2
            &&& ts[0].parameters@[0].0@ == "degree"@
            &&& ts[0].parameters@[0].1 == ParamValue::Integer(d as u32)
            &&& ts[0].parameters@[1].0@ == "orthogonal"@
            &&& ts[0].parameters@[1].1 == ParamValue::Bool(true)
            &&& texts(ts[0].generates_columns@) == Seq::new(
                d,
                |k: int| x + "_poly_"@ + decimal_text((k + 1) as nat),
            )
        }
}

/// `s` reads `y ~ x + (t | g)` or `y ~ x + (t || g)`, with `t` a column
/// name or `1`.
pub open spec fn block_formula(s: Seq<char>) -> bool {
    &&& lex_from(s, 0) is Ok
    &&& lex_from(s, 0)->Ok_0.len() == 9
    &&& lex_kind(s, 0, Token::ColumnName)
    &&& lex_kind(s, 1, Token::Tilde)
    &&& lex_kind(s, 2, Token::ColumnName)
    &&& lex_kind(s, 3, Token::Plus)
    &&& lex_kind(s, 4, Token::FunctionStart)
    &&& (lex_kind(s, 5, Token::ColumnName) || lex_kind(s, 5, Token::One))
    &&& (lex_kind(s, 6, Token::Pipe) || lex_kind(s, 6, Token::DoublePipe))
    &&& lex_kind(s, 7, Token::ColumnName)
    &&& lex_kind(s, 8, Token::FunctionEnd)
}

/// The variable called `name` is a response: id 1 and the role `Response`.
pub open spec fn is_response_variable(m: FormulaMetaData, name: Seq<char>) -> bool {
    exists|p: int|
        0 <= p < m.columns@.len() && m.columns@[p].0@ == name && m.columns@[p].1.id == 1
            && m.columns@[p].1.roles@.contains(VariableRole::Response)
}

/// Token kinds and lexemes read the same from the parser's tokens and from
/// the lexing spec.
proof fn lemma_tokens_read_alike(tokens: Seq<(Token, &str)>, toks: Seq<(Token, int, int)>, s: Seq<char>)
    requires
        lex_from(s, 0) == Ok::<Seq<(Token, int, int)>, (int, int)>(toks),
        tokens_agree(tokens, toks, s),
    ensures
        forall|i: int, k: Token| #[trigger] kind_at(tokens, i, k) == lex_kind(s, i, k),
        forall|i: int| 0 <= i < tokens.len() ==> #[trigger] lexeme(tokens, i) == lex_text(s, i),
        tokens.len() == toks.len(),
{
    assert forall|i: int, k: Token| #[trigger] kind_at(tokens, i, k) == lex_kind(s, i, k) by {
        if 0 <= i < tokens.len() {
            assert(tokens[i].0 == toks[i].0);
        }
    }
    assert forall|i: int| 0 <= i < tokens.len() implies #[trigger] lexeme(tokens, i) == lex_text(
        s,
        i,
    ) by {
        assert(tokens[i].1@ == s.subrange(toks[i].1, toks[i].2));
    }
}

proof fn lemma_columns_width(terms: Seq<Term>, tokens: Seq<(Token, &str)>, i: int, n: int)
    requires
        columns_from(terms, tokens, i, n),
    ensures
        total_width(terms) == n,
    decreases n,
{
    if n > 0 {
        let d = terms.drop_last();
        assert(columns_from(d, tokens, i, n - 1)) by {
            assert forall|k: int| 0 <= k < n - 1 implies (#[trigger] d[k] matches Term::Column(c)
                && c@ == lexeme(tokens, i + 2 * k)) by {
                assert(d[k] == terms[k]);
            }
        }
        lemma_columns_width(d, tokens, i, n - 1);
        assert(terms.last() == terms[n - 1]);
    }
}

proof fn lemma_simple_document(
    m: FormulaMetaData,
    s: Seq<char>,
    response: Response,
    terms: Seq<Term>,
    tokens: Seq<(Token, &str)>,
    toks: Seq<(Token, int, int)>,
    n: int,
    e: int,
    hi: bool,
)
    requires
        simple_formula(s, n, e, hi),
        toks == lex_from(s, 0)->Ok_0,
        tokens_agree(tokens, toks, s),
        response matches Response::Single(y) && y@ == lexeme(tokens, 0),
        columns_from(terms, tokens, 2, n),
        describes(m, s, response, terms, hi, family_after(tokens, e)),
        e < toks.len() ==> family_tail(tokens, e),
        e == toks.len() ==> !family_tail(tokens, e),
        fresh_columns(response, terms) ==> texts(m.all_generated_columns@) == fresh_layout(
            response_names(response)[0],
            terms,
            hi,
        ) && m.columns@.len() == terms.len() + 1 && forall|j: int|
            0 <= j < terms.len() ==> m.columns@[j + 1].0@ == column_name(#[trigger] terms[j]),
    ensures
        simple_document(m, s, n, e, hi),
{
    if distinct_names(s, n) {
        assert forall|j: int| 0 <= j < terms.len() implies column_name(#[trigger] terms[j])
            == lex_text(s, 2 + 2 * j) by {
            assert(tokens[2 + 2 * j].1@ == lex_text(s, 2 + 2 * j));
        }
        assert(response_names(response)[0] == lex_text(s, 0)) by {
            assert(tokens[0].1@ == lex_text(s, 0));
        }
        assert forall|j: int| 0 <= j < terms.len() implies (#[trigger] terms[j]) is Column by {}
        assert forall|j: int| 0 <= j < terms.len() implies column_name(#[trigger] terms[j])
            != response_names(response)[0] by {
            assert(lex_text(s, 2 + 2 * j) != lex_text(s, 0));
        }
        assert forall|j: int, k: int| 0 <= j < k < terms.len() implies column_name(
            #[trigger] terms[j],
        ) != column_name(#[trigger] terms[k]) by {
            assert(lex_text(s, 2 + 2 * j) != lex_text(s, 2 + 2 * k));
        }
        assert(fresh_columns(response, terms));
        assert(terms.map_values(|t: Term| column_name(t)) =~= Seq::new(
            n as nat,
            |q: int| lex_text(s, 2 + 2 * q),
        ));
        assert(m.metadata.response_variable_count == 1) by {
            let k = m.metadata.response_variable_count as int;
            if k > 1 {
                assert(response_names(response).contains(m.columns@[0].0@));
                assert(response_names(response).contains(m.columns@[1].0@));
            }
        }
        assert forall|q: int| 0 <= q < n implies m.columns@[q + 1].0@ == #[trigger] lex_text(
            s,
            2 + 2 * q,
        ) && m.columns@[q + 1].1.id == q + 2 by {
            assert(column_name(terms[q]) == lex_text(s, 2 + 2 * q));
        }
    }
    let cols = m.columns@;
    let names = response_names(response);
    assert(names.len() == 1);
    assert(tokens[0].1@ == lex_text(s, 0));
    assert(named_among(cols, m.metadata.response_variable_count as int, names[0]));
    let k = m.metadata.response_variable_count as int;
    if k > 1 {
        assert(names.contains(cols[0].0@));
        assert(names.contains(cols[1].0@));
        assert(cols[0].0@ == names[0]);
    }
    assert(names.contains(cols[0].0@));
    assert forall|j: int| 0 <= j < terms.len() implies !((#[trigger] terms[j]) is RandomEffect) by {
        assert(terms[j] matches Term::Column(_));
    }
    assert(!has_uncorrelated_block(terms)) by {
        assert forall|j: int| 0 <= j < terms.len() implies !uncorrelated_block(#[trigger] terms[j]) by {
            assert(terms[j] matches Term::Column(_));
        }
    }
    assert forall|q: int| 0 <= q < n implies role_in(
        cols,
        #[trigger] lex_text(s, 2 + 2 * q),
        VariableRole::Identity,
    ) by {
        assert(term_roles_in(cols, terms[q]));
        assert(tokens[2 + 2 * q].1@ == lex_text(s, 2 + 2 * q));
    }
    if e < toks.len() {
        assert(tokens[e + 3].0 == toks[e + 3].0);
    }
}

/// Parses a formula into its metadata document.
///
/// Fails with the first error of tokenizing or parsing; a formula whose
/// variables could not be numbered in `u32` fails with `Syntax`. On success
/// the document echoes the input, gives id 1 to exactly the response names
/// written in the formula and 2, 3, ... to the other variables in order of
/// registration, and lists the generated columns of all variables in that
/// order with `intercept` after the responses' columns exactly when the
/// model keeps its intercept. A formula `y ~ a1 + ... + an`, optionally
/// with `- 1` and `, family = name`, is owed success, and when its names
/// differ its columns are `y`, `intercept` (unless `- 1`), `a1`, ..., `an`.
pub fn parse_formula(formula: &str) -> (r: Result<FormulaMetaData, ParseError>)
    ensures
        lex_from(formula@, 0) is Err ==> r matches Err(ParseError::Lex(_)),
        r matches Ok(m) ==> {
            &&& m.formula@ == formula@
            &&& ids_consecutive(m)
            &&& texts(m.all_generated_columns@) == column_layout(
                m.columns@,
                m.metadata.response_variable_count as int,
                m.metadata.has_intercept,
            )
            &&& numbers(m.all_generated_columns_formula_order@, m.all_generated_columns@)
            &&& m.metadata.family matches Some(f) ==> (f@ == "gaussian"@ || f@ == "binomial"@
                || f@ == "poisson"@)
            &&& exists|resp: Response, ts: Seq<Term>, hi: bool, fam: Option<Family>|
                #[trigger] describes(m, formula@, resp, ts, hi, fam) && response_in_text(
                    formula@,
                    resp,
                )
        },
        forall|n: int, e: int, hi: bool|
            #[trigger] simple_formula(formula@, n, e, hi) && n < VARIABLE_LIMIT ==> (r matches Ok(m)
                && simple_document(m, formula@, n, e, hi)),
        block_formula(formula@) ==> (r matches Ok(m) && m.metadata.is_random_effects_model
            && m.metadata.has_uncorrelated_slopes_and_intercepts == lex_kind(
            formula@,
            6,
            Token::DoublePipe,
        ) && m.metadata.has_intercept && role_in(
            m.columns@,
            lex_text(formula@, 7),
            VariableRole::GroupingVariable,
        )),
        poly_formula(formula@) ==> (r matches Ok(m) && has_poly(
            m,
            lex_text(formula@, 4),
            decimal_value(lex_text(formula@, 6)),
        )),
        intercept_formula(formula@) ==> (r matches Ok(m) && m.metadata.has_intercept
            && m.columns@.len() == 1 && m.columns@[0].0@ == lex_text(formula@, 0) && texts(
            m.all_generated_columns@,
        ) == seq![lex_text(formula@, 0), "intercept"@]),
        contradictory_intercept(formula@) ==> (r matches Err(ParseError::Syntax(msg)) && msg@
            == "cannot have both intercept term and intercept removal"@),
        forall|k: int, n: int, e: int, hi: bool|
            #[trigger] bind_formula(formula@, k, n, e, hi) && k + n <= VARIABLE_LIMIT ==> (r matches Ok(
                m,
            ) && m.metadata.has_intercept == hi && m.formula@ == formula@ && forall|q: int|
                0 <= q < k ==> is_response_variable(m, #[trigger] lex_text(formula@, 2 + 2 * q))),
{
    let tokens = tokenize(formula)?;
    let ghost toks = lex_from(formula@, 0)->Ok_0;
    proof {
        assert forall|n: int, e: int, hi: bool| #[trigger]
            simple_formula(formula@, n, e, hi) implies simple_head(tokens@, 0) && plain_rhs(
            tokens@,
            2,
            n,
            e,
            hi,
        ) && formula_end(tokens@, e) by {
            assert(tokens@[0].0 == toks[0].0);
            assert(tokens@[1].0 == toks[1].0);
            assert forall|q: int| 0 <= q < n implies kind_at(
                tokens@,
                #[trigger] (2 + 2 * q),
                Token::ColumnName,
            ) by {
                assert(lex_kind(formula@, 2 + 2 * q, Token::ColumnName));
                assert(tokens@[2 + 2 * q].0 == toks[2 + 2 * q].0);
            }
            assert forall|q: int| 0 <= q < n - 1 implies kind_at(
                tokens@,
                #[trigger] (2 + 2 * q + 1),
                Token::Plus,
            ) by {
                assert(lex_kind(formula@, 3 + 2 * q, Token::Plus));
                assert(tokens@[2 + 2 * q + 1].0 == toks[3 + 2 * q].0);
            }
            if 2 * n + 1 < toks.len() {
                assert(tokens@[2 * n + 1].0 == toks[2 * n + 1].0);
            }
            if !hi {
                assert(tokens@[2 * n + 2].0 == toks[2 * n + 2].0);
            }
            if e < toks.len() {
                assert(tokens@[e].0 == toks[e].0);
                assert(tokens@[e + 1].0 == toks[e + 1].0);
                assert(tokens@[e + 2].0 == toks[e + 2].0);
                assert(tokens@[e + 3].0 == toks[e + 3].0);
            }
        }
    }
    proof {
        lemma_tokens_read_alike(tokens@, toks, formula@);
        assert forall|k: int, n: int, e: int, hi: bool| #[trigger]
            bind_formula(formula@, k, n, e, hi) implies bind_shape(tokens@, 0, k) && kind_at(
            tokens@,
            2 * k + 2,
            Token::Tilde,
        ) && plain_rhs(tokens@, 2 * k + 3, n, e, hi) && formula_end(tokens@, e) by {
            assert forall|q: int| 0 <= q < k implies kind_at(
                tokens@,
                #[trigger] (0 + 2 + 2 * q),
                Token::ColumnName,
            ) by {
                assert(lex_kind(formula@, 2 + 2 * q, Token::ColumnName));
            }
            assert forall|q: int| 0 <= q < k - 1 implies kind_at(
                tokens@,
                #[trigger] (0 + 3 + 2 * q),
                Token::Comma,
            ) by {
                assert(lex_kind(formula@, 3 + 2 * q, Token::Comma));
            }
            assert forall|q: int| 0 <= q < n implies kind_at(
                tokens@,
                #[trigger] ((2 * k + 3) + 2 * q),
                Token::ColumnName,
            ) by {
                assert(lex_kind(formula@, (2 * k + 3) + 2 * q, Token::ColumnName));
            }
            assert forall|q: int| 0 <= q < n - 1 implies kind_at(
                tokens@,
                #[trigger] ((2 * k + 3) + 2 * q + 1),
                Token::Plus,
            ) by {
                assert(lex_kind(formula@, (2 * k + 3) + 2 * q + 1, Token::Plus));
            }
            if e < toks.len() {
                assert(tokens@[e + 3].0 == toks[e + 3].0);
            }
        }
    }
    proof {
        if block_formula(formula@) {
            assert(simple_block(tokens@, 4, 6));
            assert(name_and_block(tokens@, 2));
            assert(formula_end(tokens@, 9));
            assert(simple_head(tokens@, 0));
        }
    }
    proof {
        if poly_formula(formula@) {
            assert(lexeme(tokens@, 4) == lex_text(formula@, 4));
            assert(lexeme(tokens@, 6) == lex_text(formula@, 6));
            assert(arg_ok(tokens@, 4int + 2 * 0));
            assert(arg_ok(tokens@, 4int + 2 * 1));
            assert(kind_at(tokens@, 4int + 2 * 0 + 1, Token::Comma));
            assert(args_then_close(tokens@, 4, 2));
            assert(closes_args(tokens@, 4, 8));
            assert(call_ends(tokens@, 2, 8));
            assert(formula_end(tokens@, 8));
            assert(simple_head(tokens@, 0));
        }
    }
    let mut pos: usize = 0;
    let (response, terms, has_intercept, family) = grammar::parse_formula(
        tokens.as_slice(),
        &mut pos,
    )?;
    proof {
        if let Response::Multivariate(v) = &response {
            assert(response_names(response).len() == v@.len());
        }
        assert(response_in_text(formula@, response)) by {
            match response {
                Response::Single(y) => {
                    assert(tokens@[0].0 == toks[0].0);
                },
                Response::Multivariate(names) => {
                    assert(tokens@[0].0 == toks[0].0);
                    assert forall|k: int| 0 <= k < names@.len() implies (#[trigger] names@[k])@
                        == lex_text(formula@, 2 + 2 * k) by {
                        assert(response_written(tokens@, 0, response));
                        assert(names@[k]@ == lexeme(tokens@, 2 + 2 * k));
                        assert(kind_at(tokens@, 2 + 2 * k, Token::ColumnName));
                        assert(tokens@[2 + 2 * k].1@ == formula@.subrange(
                            toks[2 + 2 * k].1,
                            toks[2 + 2 * k].2,
                        ));
                    }
                },
            }
        }
        assert forall|n: int, e: int, hi: bool| #[trigger]
            simple_formula(formula@, n, e, hi) && n < VARIABLE_LIMIT implies total_width(terms@)
            == n && response_names(response).len() == 1 by {
            lemma_columns_width(terms@, tokens@, 2, n);
        }
    }
    proof {
        assert forall|k: int, n: int, e: int, hi: bool| #[trigger]
            bind_formula(formula@, k, n, e, hi) && k + n <= VARIABLE_LIMIT implies total_width(
            terms@,
        ) == n && response_names(response).len() == k && has_intercept == hi by {
            lemma_columns_width(terms@, tokens@, 2 * k + 3, n);
            if let Response::Multivariate(v) = &response {
                assert(response_names(response).len() == v@.len());
            }
        }
    }
    proof {
        if intercept_formula(formula@) {
            assert(kind_at(tokens@, 0, Token::ColumnName));
            assert(kind_at(tokens@, 2, Token::One));
            if toks.len() == 7 {
                assert(family_tail(tokens@, 3)) by {
                    assert(tokens@[6].0 == toks[6].0);
                }
            }
            assert(formula_end(tokens@, 3));
            assert(simple_head(tokens@, 0));
            assert(terms@.len() == 1 && terms@[0] is Intercept);
            assert(total_width(terms@) == 0) by {
                assert(terms@.drop_last() =~= Seq::<Term>::empty());
                assert(total_width(terms@.drop_last()) == 0);
                assert(terms@.last() is Intercept);
                assert(term_width_spec(terms@.last()) == 0);
            }
            assert(response_names(response)[0] == lex_text(formula@, 0)) by {
                assert(lexeme(tokens@, 0) == lex_text(formula@, 0));
            }
        }
    }
    proof {
        if poly_formula(formula@) {
            assert(is_call(terms@[0], tokens@, 2, 8));
            if let Term::Function { name, args } = terms@[0] {
                assert(args@.len() == 2);
                assert(denotes_argument(args@[0], tokens@[4].0, lexeme(tokens@, 4)));
                assert(is_first_ident(args@, 0));
                lemma_first_ident_unique(args@, 0);
                assert(base_name(args@) == lex_text(formula@, 4));
                assert(response_names(response)[0] == lex_text(formula@, 0)) by {
                    assert(lexeme(tokens@, 0) == lex_text(formula@, 0));
                }
                assert(single_call(response, terms@));
                assert(total_width(terms@) == 1) by {
                    assert(terms@.drop_last() =~= Seq::<Term>::empty());
                    assert(total_width(terms@.drop_last()) == 0);
                }
            }
        }
    }
    proof {
        if block_formula(formula@) {
            assert(terms@.len() == 2);
            if let Term::RandomEffect(re) = terms@[1] {
                assert(simple_block_result(re, tokens@, 4, 6));
                assert(re.terms@.len() == 1);
                assert(total_width(terms@) == 3) by {
                    let d = terms@.drop_last();
                    assert(d.drop_last() =~= Seq::<Term>::empty());
                    assert(total_width(d.drop_last()) == 0);
                    assert(d.last() == terms@[0]);
                    assert(total_width(d) == 1);
                    assert(terms@.last() == terms@[1]);
                }
            }
        }
    }
    let r = analyze(formula, &response, &terms, has_intercept, family);
    proof {
        if block_formula(formula@) {
            let m = r->Ok_0;
            if let Term::RandomEffect(re) = terms@[1] {
                assert(has_random_effect(terms@)) by {
                    assert(terms@[1] is RandomEffect);
                }
                if tokens@[6].0 == Token::DoublePipe {
                    assert(uncorrelated_block(terms@[1]));
                } else {
                    assert(!uncorrelated_block(terms@[0]));
                    assert(!uncorrelated_block(terms@[1]));
                    assert(!has_uncorrelated_block(terms@));
                }
                assert(term_roles_in(m.columns@, terms@[1]));
                assert(lexeme(tokens@, 7) == lex_text(formula@, 7));
            }
        }
    }
    proof {
        if poly_formula(formula@) {
            if let Term::Function { name, args } = terms@[0] {
                let m = r->Ok_0;
                let x = lex_text(formula@, 4);
                let d = decimal_value(lex_text(formula@, 6));
                assert(denotes_argument(args@[1], tokens@[6].0, lexeme(tokens@, 6)));
                assert(poly_degree(args@) == Some(d as u32));
                assert(name@ == "poly"@);
                assert(transformed_once(m, x, name@, args@));
                let i = choose|i: int|
                    0 <= i < m.columns@.len() && m.columns@[i].0@ == x
                        && m.columns@[i].1.transformations@.len() == 1 && transformed_by(
                        m.columns@[i].1,
                        x,
                        name@,
                        args@,
                    );
                let ts = m.columns@[i].1.transformations@;
                assert(ts.last() == ts[0]);
                assert(has_poly(m, x, d));
            }
        }
    }
    proof {
        assert forall|k: int, n: int, e: int, hi: bool| #[trigger]
            bind_formula(formula@, k, n, e, hi) && k + n <= VARIABLE_LIMIT implies (r matches Ok(m)
                && m.metadata.has_intercept == hi && m.formula@ == formula@ && forall|q: int|
                0 <= q < k ==> is_response_variable(m, #[trigger] lex_text(formula@, 2 + 2 * q))) by {
            let m = r->Ok_0;
            let names = response_names(response);
            assert forall|q: int| 0 <= q < k implies is_response_variable(
                m,
                #[trigger] lex_text(formula@, 2 + 2 * q),
            ) by {
                if let Response::Multivariate(v) = response {
                    assert(response_written(tokens@, 0, response));
                    assert(v@[q]@ == lexeme(tokens@, 2 + 2 * q));
                    assert(kind_at(tokens@, 2 + 2 * q, Token::ColumnName));
                    assert(names[q] == v@[q]@);
                }
                assert(named_among(m.columns@, m.metadata.response_variable_count as int, names[q]));
                let p = choose|p: int|
                    0 <= p < m.metadata.response_variable_count && m.columns@[p].0@ == names[q];
                assert(m.columns@[p].1.id == 1);
            }
        }
        assert forall|n: int, e: int, hi: bool| #[trigger]
            simple_formula(formula@, n, e, hi) && n < VARIABLE_LIMIT implies (r matches Ok(m)
                && simple_document(m, formula@, n, e, hi)) by {
            lemma_simple_document(r->Ok_0, formula@, response, terms@, tokens@, toks, n, e, hi);
        }
    }
    r
}

/// One token as `lex_formula` reports it: the kind's name and the lexeme.
#[derive(Debug, Clone, PartialEq, Eq)]
pub struct LexedToken {
    pub token: String,
    pub lexeme: String,
}

/// Tokenizes a formula and reports each token by kind name and lexeme; on
/// the first text that starts no token it fails with `ParseError::Lex`.
pub fn lex_formula(formula: &str) -> (r: Result<Vec<LexedToken>, ParseError>)
    ensures
        match lex_from(formula@, 0) {
            Ok(toks) => r matches Ok(v) && v@.len() == toks.len() && forall|k: int|
                0 <= k < v@.len() ==> (#[trigger] v@[k]).token@ == toks[k].0.spec_name()
                    && v@[k].lexeme@ == formula@.subrange(toks[k].1, toks[k].2),
            Err((a, b)) => match r {
                Err(ParseError::Lex(m)) => m@ == formula@.subrange(a, b),
                _ => false,
            },
        },
{
    let tokens = tokenize(formula)?;
    let mut out: Vec<LexedToken> = Vec::new();
    let mut i: usize = 0;
    while i < tokens.len()
        invariant
            i <= tokens@.len(),
            out@.len() == i,
            forall|k: int|
                0 <= k < i ==> (#[trigger] out@[k]).token@ == tokens@[k].0.spec_name()
                    && out@[k].lexeme@ == tokens@[k].1@,
        decreases tokens@.len() - i,
    {
        let (t, lexeme) = tokens[i];
        out.push(LexedToken { token: t.name().to_string(), lexeme: lexeme.to_string() });
        i = i + 1;
    }
    Ok(out)
}

} // verus!
