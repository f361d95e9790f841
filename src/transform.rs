//! What a function term contributes: the variable it applies to, the
//! columns it generates and its parameter map.
use crate::ast::Argument;
use crate::metadata::ParamValue;
use crate::text::{decimal_text, push_decimal, same_text, texts};
use vstd::prelude::*;

verus! {

/// The text of an identifier argument; empty for other arguments.
pub open spec fn ident_text(a: Argument) -> Seq<char> {
    match a {
        Argument::Ident(s) => s@,
        _ => Seq::empty(),
    }
}

/// `k` is the position of the first identifier among `args`.
pub open spec fn is_first_ident(args: Seq<Argument>, k: int) -> bool {
    &&& 0 <= k < args.len()
    &&& args[k] is Ident
    &&& forall|j: int| 0 <= j < k ==> !(args[j] is Ident)
}

/// No argument is an identifier.
pub open spec fn no_ident(args: Seq<Argument>) -> bool {
    forall|j: int| 0 <= j < args.len() ==> !(args[j] is Ident)
}

/// The variable a function applies to: its first identifier argument, or
/// `unknown` when there is none.
pub open spec fn base_name(args: Seq<Argument>) -> Seq<char> {
    if no_ident(args) {
        "unknown"@
    } else {
        ident_text(args[choose|k: int| is_first_ident(args, k)])
    }
}

/// The degree of `poly(x, k)`: the second argument, when it is an integer.
pub open spec fn poly_degree(args: Seq<Argument>) -> Option<u32> {
    if args.len() > 1 {
        match args[1] {
            Argument::Integer(d) => Some(d),
            _ => None,
        }
    } else {
        None
    }
}

/// The columns that function `f` generates from `args`: `x_poly_1` to
/// `x_poly_k` for `poly(x, k)` (`x_poly` without a degree), `x_log` for
/// `log(x)`, and `x_f` for any other `f(x, ...)`.
pub open spec fn generated_names(f: Seq<char>, args: Seq<Argument>) -> Seq<Seq<char>> {
    let base = base_name(args);
    if f == "poly"@ {
        match poly_degree(args) {
            Some(d) => Seq::new(
                d as nat,
                |i: int| base + "_poly_"@ + decimal_text((i + 1) as nat),
            ),
            None => seq![base + "_poly"@],
        }
    } else if f == "log"@ {
        seq![base + "_log"@]
    } else {
        seq![base + "_"@ + f]
    }
}

/// The parameter value that an argument becomes.
pub open spec fn param_of(v: ParamValue, a: Argument) -> bool {
    match a {
        Argument::Integer(n) => v == ParamValue::Integer(n),
        Argument::Boolean(b) => v == ParamValue::Bool(b),
        Argument::String(s) => v matches ParamValue::Text(t) && t@ == s@,
        Argument::Ident(s) => v matches ParamValue::Text(t) && t@ == s@,
    }
}

/// The parameter map of function `f` on `args`: `degree` and `orthogonal`
/// for `poly` with a degree, nothing for `log`, and `arg_0`, `arg_1`, ...
/// holding each argument for any other function.
pub open spec fn parameters_match(
    params: Seq<(String, ParamValue)>,
    f: Seq<char>,
    args: Seq<Argument>,
) -> bool {
    if f == "poly"@ {
        match poly_degree(args) {
            Some(d) => params.len() == 2 && params[0].0@ == "degree"@ && params[0].1
                == ParamValue::Integer(d) && params[1].0@ == "orthogonal"@ && params[1].1
                == ParamValue::Bool(true),
            None => params.len() == 0,
        }
    } else if f == "log"@ {
        params.len() == 0
    } else {
        &&& params.len() == args.len()
        &&& forall|i: int|
            0 <= i < params.len() ==> (#[trigger] params[i]).0@ == "arg_"@ + decimal_text(i as nat)
                && param_of(params[i].1, args[i])
    }
}

/// The position of the first identifier argument, if any.
pub fn first_ident(args: &Vec<Argument>) -> (r: Option<usize>)
    ensures
        match r {
            Some(k) => is_first_ident(args@, k as int),
            None => no_ident(args@),
        },
{
    let mut k: usize = 0;
    while k < args.len()
        invariant
            k <= args@.len(),
            forall|j: int| 0 <= j < k ==> !(args@[j] is Ident),
        decreases args@.len() - k,
    {
        if let Argument::Ident(_) = &args[k] {
            return Some(k);
        }
        k = k + 1;
    }
    None
}

/// The first identifier argument is the base name.
pub proof fn lemma_first_ident_unique(args: Seq<Argument>, k: int)
    requires
        is_first_ident(args, k),
    ensures
        base_name(args) == ident_text(args[k]),
        !no_ident(args),
{
    let c = choose|c: int| is_first_ident(args, c);
    assert(is_first_ident(args, c));
    if c < k {
        assert(!(args[c] is Ident));
    } else if k < c {
        assert(!(args[k] is Ident));
    }
}

/// The variable a function applies to, as `base_name` gives it.
pub fn base_name_of(args: &Vec<Argument>) -> (r: String)
    ensures
        r@ == base_name(args@),
{
    match first_ident(args) {
        Some(k) => {
            proof {
                lemma_first_ident_unique(args@, k as int);
            }
            match &args[k] {
                Argument::Ident(s) => s.clone(),
                _ => "unknown".to_string(),
            }
        },
        None => "unknown".to_string(),
    }
}

/// The degree argument of `poly`, as `poly_degree` gives it.
fn poly_degree_of(args: &Vec<Argument>) -> (r: Option<u32>)
    ensures
        r == poly_degree(args@),
{
    if args.len() > 1 {
        match &args[1] {
            Argument::Integer(d) => Some(*d),
            _ => None,
        }
    } else {
        None
    }
}

/// The columns that function `fname` generates from `args`.
pub fn generate_transformation_columns(fname: &str, args: &Vec<Argument>) -> (r: Vec<String>)
    ensures
        texts(r@) == generated_names(fname@, args@),
{
    let base = base_name_of(args);
    let mut out: Vec<String> = Vec::new();
    if same_text(fname, "poly") {
        match poly_degree_of(args) {
            Some(d) => {
                let n = d as usize;
                let mut i: usize = 0;
                let ghost g = generated_names(fname@, args@);
                while i < n
                    invariant
                        n == d as nat,
                        i <= n,
                        g.len() == n,
                        g == Seq::new(
                            d as nat,
                            |j: int| base@ + "_poly_"@ + decimal_text((j + 1) as nat),
                        ),
                        out@.len() == i,
                        forall|k: int| 0 <= k < i ==> (#[trigger] out@[k])@ == g[k],
                    decreases n - i,
                {
                    let mut col = base.clone();
                    col.append("_poly_");
                    push_decimal(&mut col, i + 1);
                    out.push(col);
                    i = i + 1;
                }
                assert(texts(out@) =~= g);
            },
            None => {
                let mut col = base.clone();
                col.append("_poly");
                out.push(col);
            },
        }
    } else if same_text(fname, "log") {
        let mut col = base.clone();
        col.append("_log");
        out.push(col);
    } else {
        let mut col = base.clone();
        col.append("_");
        col.append(fname);
        out.push(col);
    }
    assert(texts(out@) =~= generated_names(fname@, args@));
    out
}

/// The parameter map of function `fname` on `args`.
pub fn extract_function_parameters(fname: &str, args: &Vec<Argument>) -> (r: Vec<
    (String, ParamValue),
>)
    ensures
        parameters_match(r@, fname@, args@),
{
    let mut params: Vec<(String, ParamValue)> = Vec::new();
    if same_text(fname, "poly") {
        if let Some(d) = poly_degree_of(args) {
            params.push(("degree".to_string(), ParamValue::Integer(d)));
            params.push(("orthogonal".to_string(), ParamValue::Bool(true)));
        }
    } else if !same_text(fname, "log") {
        let mut i: usize = 0;
        while i < args.len()
            invariant
                i <= args@.len(),
                fname@ != "poly"@,
                fname@ != "log"@,
                params@.len() == i,
                forall|j: int|
                    0 <= j < i ==> (#[trigger] params@[j]).0@ == "arg_"@ + decimal_text(j as nat)
                        && param_of(params@[j].1, args@[j]),
            decreases args@.len() - i,
        {
            let mut key = "arg_".to_string();
            push_decimal(&mut key, i);
            let value = match &args[i] {
                Argument::Integer(n) => ParamValue::Integer(*n),
                Argument::Boolean(b) => ParamValue::Bool(*b),
                Argument::String(s) => ParamValue::Text(s.clone()),
                Argument::Ident(s) => ParamValue::Text(s.clone()),
            };
            params.push((key, value));
            i = i + 1;
        }
    }
    params
}

} // verus!
