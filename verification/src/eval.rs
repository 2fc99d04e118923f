//! The meaning of a module: evaluation of its functions on `i32` arguments.

use vstd::prelude::*;
use vstd::string::*;

use crate::ast::{
    exprs_view, lemma_exprs_view, lookup_export, lookup_func, texts, Expr, ExprV, Function, Module,
    ModuleV,
};
use crate::number::{decimal_text, usize_text};
use crate::text::{cat2, cat3, text_eq};

verus! {

/// What evaluation gives within a bound on its nesting: `None` where the
/// bound was too small, else the value or the error met first.
pub type Outcome = Option<Result<i32, Seq<char>>>;

/// The value of the local `name`: the last parameter of that name binds it.
pub open spec fn local_value(params: Seq<Seq<char>>, vals: Seq<i32>, name: Seq<char>) -> Option<i32>
    decreases params.len(),
{
    if params.len() == 0 {
        None
    } else if params.last() == name {
        Some(vals[params.len() - 1])
    } else {
        local_value(params.drop_last(), vals, name)
    }
}

/// The remainder of `a` divided by `b`, truncated toward zero: it has the
/// sign of `a`.
pub open spec fn trunc_rem(a: int, b: int) -> int {
    let m = if b < 0 {
        -b
    } else {
        b
    };
    if a >= 0 {
        a % m
    } else {
        -((-a) % m)
    }
}

/// `i32.rem_s`: an error for a zero divisor, 0 for `i32::MIN` by -1, else the
/// truncated remainder.
pub open spec fn rem_s(a: i32, b: i32) -> Result<i32, Seq<char>> {
    if b == 0 {
        Err("Division by zero in i32.rem_s"@)
    } else if a == i32::MIN && b == -1 {
        Ok(0)
    } else {
        Ok(trunc_rem(a as int, b as int) as i32)
    }
}

/// The two-operand instruction `e` applied to the values `a` and `b`:
/// wrapping 32-bit arithmetic, and 1 or 0 for the signed comparison.
pub open spec fn apply_binary(e: ExprV, a: i32, b: i32) -> Result<i32, Seq<char>> {
    match e {
        ExprV::Add(_, _) => Ok(vstd::wrapping::i32_specs::wrapping_add(a, b)),
        ExprV::Sub(_, _) => Ok(vstd::wrapping::i32_specs::wrapping_sub(a, b)),
        ExprV::Mul(_, _) => Ok(vstd::wrapping::i32_specs::wrapping_mul(a, b)),
        ExprV::RemS(_, _) => rem_s(a, b),
        _ => Ok(
            if a < b {
                1
            } else {
                0
            },
        ),
    }
}

/// The outcome of a two-operand instruction from the outcomes of its
/// operands, the left one evaluated first.
pub open spec fn binary_outcome(e: ExprV, lo: Outcome, ro: Outcome) -> Outcome {
    match lo {
        None => None,
        Some(Err(x)) => Some(Err(x)),
        Some(Ok(a)) => match ro {
            None => None,
            Some(Err(x)) => Some(Err(x)),
            Some(Ok(b)) => Some(apply_binary(e, a, b)),
        },
    }
}

pub open spec fn msg_unknown_local(name: Seq<char>) -> Seq<char> {
    "Unknown local variable: "@ + name
}

pub open spec fn msg_undefined_function(name: Seq<char>) -> Seq<char> {
    "Undefined function called: "@ + name
}

pub open spec fn msg_call_arity(name: Seq<char>, expected: nat, got: nat) -> Seq<char> {
    "Argument count mismatch in call to '"@ + name + "': expected "@ + decimal_text(expected)
        + ", got "@ + decimal_text(got)
}

/// The outcome of evaluating `e` with the locals `params` bound to `vals`,
/// with `fuel` bounding the nesting of evaluation.
pub open spec fn eval_expr(
    m: ModuleV,
    fuel: nat,
    e: ExprV,
    params: Seq<Seq<char>>,
    vals: Seq<i32>,
) -> Outcome
    decreases fuel, 0nat,
{
    if fuel == 0 {
        None
    } else {
        let f = (fuel - 1) as nat;
        match e {
            ExprV::Const(v) => Some(Ok(v)),
            ExprV::LocalGet(name) => match local_value(params, vals, name) {
                Some(v) => Some(Ok(v)),
                None => Some(Err(msg_unknown_local(name))),
            },
            ExprV::Add(l, r) => binary_outcome(
                e,
                eval_expr(m, f, *l, params, vals),
                eval_expr(m, f, *r, params, vals),
            ),
            ExprV::Sub(l, r) => binary_outcome(
                e,
                eval_expr(m, f, *l, params, vals),
                eval_expr(m, f, *r, params, vals),
            ),
            ExprV::Mul(l, r) => binary_outcome(
                e,
                eval_expr(m, f, *l, params, vals),
                eval_expr(m, f, *r, params, vals),
            ),
            ExprV::RemS(l, r) => binary_outcome(
                e,
                eval_expr(m, f, *l, params, vals),
                eval_expr(m, f, *r, params, vals),
            ),
            ExprV::LtS(l, r) => binary_outcome(
                e,
                eval_expr(m, f, *l, params, vals),
                eval_expr(m, f, *r, params, vals),
            ),
            ExprV::If { condition, then_branch, else_branch } => match eval_expr(
                m,
                f,
                *condition,
                params,
                vals,
            ) {
                None => None,
                Some(Err(x)) => Some(Err(x)),
                Some(Ok(c)) => eval_block(
                    m,
                    f,
                    if c != 0 {
                        then_branch
                    } else {
                        else_branch
                    },
                    params,
                    vals,
                    0,
                    0,
                ),
            },
            ExprV::Call { func_name, args } => match lookup_func(m.funcs, func_name) {
                None => Some(Err(msg_undefined_function(func_name))),
                Some(callee) => if callee.params.len() != args.len() {
                    Some(Err(msg_call_arity(func_name, callee.params.len(), args.len())))
                } else {
                    match eval_args(m, f, args, params, vals, 0, Seq::empty()) {
                        None => None,
                        Some(Err(x)) => Some(Err(x)),
                        Some(Ok(xs)) => eval_block(m, f, callee.body, callee.params, xs, 0, 0),
                    }
                },
            },
        }
    }
}

/// The outcome of evaluating `es[i..]` in order, the value being that of the
/// last one evaluated (`last` if none is left).
pub open spec fn eval_block(
    m: ModuleV,
    fuel: nat,
    es: Seq<ExprV>,
    params: Seq<Seq<char>>,
    vals: Seq<i32>,
    i: int,
    last: i32,
) -> Outcome
    decreases fuel, es.len() - i,
{
    if i < 0 || i >= es.len() {
        Some(Ok(last))
    } else {
        match eval_expr(m, fuel, es[i], params, vals) {
            None => None,
            Some(Err(x)) => Some(Err(x)),
            Some(Ok(v)) => eval_block(m, fuel, es, params, vals, i + 1, v),
        }
    }
}

/// The values of `es[i..]`, evaluated in order, after those in `acc`.
pub open spec fn eval_args(
    m: ModuleV,
    fuel: nat,
    es: Seq<ExprV>,
    params: Seq<Seq<char>>,
    vals: Seq<i32>,
    i: int,
    acc: Seq<i32>,
) -> Option<Result<Seq<i32>, Seq<char>>>
    decreases fuel, es.len() - i,
{
    if i < 0 || i >= es.len() {
        Some(Ok(acc))
    } else {
        match eval_expr(m, fuel, es[i], params, vals) {
            None => None,
            Some(Err(x)) => Some(Err(x)),
            Some(Ok(v)) => eval_args(m, fuel, es, params, vals, i + 1, acc.push(v)),
        }
    }
}

pub open spec fn value_result(r: Result<i32, String>) -> Result<i32, Seq<char>> {
    match r {
        Ok(v) => Ok(v),
        Err(e) => Err(e@),
    }
}

/// The truncated remainder, for the divisors where it is defined.
#[verifier::spinoff_prover]
fn truncated_rem(a: i32, b: i32) -> (r: i32)
    requires
        b != 0,
        !(a == i32::MIN && b == -1),
    ensures
        r as int == trunc_rem(a as int, b as int),
{
    let c = a.checked_rem(b);
    proof {
        let x = a as int;
        let d = b as int;
        assert(x * -1 == -x);
        assert(d * -1 == -d);
        if x > 0 && d > 0 {
            vstd::arithmetic::div_mod::lemma_mod_pos_bound(x, d);
            assert(c == Some((x % d) as i32));
            assert(trunc_rem(x, d) == x % d);
        } else if x < 0 && d < 0 {
            vstd::arithmetic::div_mod::lemma_mod_pos_bound(-x, -d);
            assert(c == Some((-((-x) % (-d))) as i32));
            assert(trunc_rem(x, d) == -((-x) % (-d)));
        } else if x < 0 {
            vstd::arithmetic::div_mod::lemma_mod_pos_bound(-x, d);
            assert(c == Some((-((-x) % d)) as i32));
            assert(trunc_rem(x, d) == -((-x) % d));
        } else if x > 0 {
            vstd::arithmetic::div_mod::lemma_mod_pos_bound(x, -d);
            assert(c == Some((x % (-d)) as i32));
            assert(trunc_rem(x, d) == x % (-d));
        } else {
            assert(c == Some(0i32));
            assert(trunc_rem(x, d) == 0);
        }
    }
    match c {
        Some(v) => v,
        None => 0,
    }
}

/// The value of the local `name`, bound by the last parameter of that name.
fn local_lookup(params: &Vec<String>, vals: &[i32], name: &str) -> (r: Option<i32>)
    requires
        params@.len() == vals@.len(),
    ensures
        r == local_value(texts(params@), vals@, name@),
{
    let ghost ps = texts(params@);
    let mut i = params.len();
    assert(ps.subrange(0, i as int) =~= ps);
    while i > 0
        invariant
            i <= params@.len(),
            params@.len() == vals@.len(),
            ps == texts(params@),
            local_value(ps, vals@, name@) == local_value(ps.subrange(0, i as int), vals@, name@),
        decreases i,
    {
        let ghost pre = ps.subrange(0, i as int);
        assert(pre.drop_last() =~= ps.subrange(0, i - 1));
        assert(pre.last() == params@[i - 1]@);
        if text_eq(params[i - 1].as_str(), name) {
            return Some(vals[i - 1]);
        }
        i = i - 1;
    }
    None
}

pub open spec fn outcome_view(r: Option<Result<i32, String>>) -> Outcome {
    match r {
        Some(Ok(v)) => Some(Ok(v)),
        Some(Err(e)) => Some(Err(e@)),
        None => None,
    }
}

impl Module {
    /// Evaluates `expr` with the locals `params` bound to `vals`, within a
    /// nesting of `fuel`.
    fn eval_expr(&self, expr: &Expr, params: &Vec<String>, vals: &[i32], fuel: u64) -> (r: Option<
        Result<i32, String>,
    >)
        requires
            params@.len() == vals@.len(),
        ensures
            outcome_view(r) == eval_expr(self@, fuel as nat, expr@, texts(params@), vals@),
        decreases fuel, 0nat,
    {
        if fuel == 0 {
            return None;
        }
        let f = fuel - 1;
        match expr {
            Expr::Const(v) => Some(Ok(*v)),
            Expr::LocalGet(name) => match local_lookup(params, vals, name.as_str()) {
                Some(v) => Some(Ok(v)),
                None => Some(Err(cat2("Unknown local variable: ", name.as_str()))),
            },
            Expr::Add(l, r) | Expr::Sub(l, r) | Expr::Mul(l, r) | Expr::RemS(l, r) | Expr::LtS(
                l,
                r,
            ) => {
                let left = match self.eval_expr(l, params, vals, f) {
                    Some(Ok(v)) => v,
                    Some(Err(e)) => return Some(Err(e)),
                    None => return None,
                };
                let right = match self.eval_expr(r, params, vals, f) {
                    Some(Ok(v)) => v,
                    Some(Err(e)) => return Some(Err(e)),
                    None => return None,
                };
                match expr {
                    Expr::Add(_, _) => Some(Ok(left.wrapping_add(right))),
                    Expr::Sub(_, _) => Some(Ok(left.wrapping_sub(right))),
                    Expr::Mul(_, _) => Some(Ok(left.wrapping_mul(right))),
                    Expr::RemS(_, _) => {
                        if right == 0 {
                            return Some(Err(String::from_str("Division by zero in i32.rem_s")));
                        }
                        if left == i32::MIN && right == -1 {
                            Some(Ok(0))
                        } else {
                            Some(Ok(truncated_rem(left, right)))
                        }
                    },
                    _ => Some(
                        Ok(
                            if left < right {
                                1
                            } else {
                                0
                            },
                        ),
                    ),
                }
            },
            Expr::If { condition, then_branch, else_branch } => {
                let c = match self.eval_expr(condition, params, vals, f) {
                    Some(Ok(v)) => v,
                    Some(Err(e)) => return Some(Err(e)),
                    None => return None,
                };
                let branch = if c != 0 {
                    then_branch
                } else {
                    else_branch
                };
                self.eval_block(branch, params, vals, f)
            },
            Expr::Call { func_name, args } => {
                let idx = match self.find_func(func_name.as_str()) {
                    Some(i) => i,
                    None => {
                        return Some(Err(cat2("Undefined function called: ", func_name.as_str())));
                    },
                };
                let callee = &self.funcs[idx];
                assert(self@.funcs[idx as int] == callee@);
                proof {
                    lemma_exprs_view(args@);
                }
                if callee.params.len() != args.len() {
                    let mut msg = cat3(
                        "Argument count mismatch in call to '",
                        func_name.as_str(),
                        "': expected ",
                    );
                    msg.append(usize_text(callee.params.len()).as_str());
                    msg.append(", got ");
                    msg.append(usize_text(args.len()).as_str());
                    return Some(Err(msg));
                }
                let evaluated = match self.eval_args(args, params, vals, f) {
                    Some(Ok(xs)) => xs,
                    Some(Err(e)) => return Some(Err(e)),
                    None => return None,
                };
                self.eval_function_body(callee, evaluated.as_slice(), f)
            },
        }
    }

    /// Evaluates `es` in order; the value is that of the last one, 0 if none.
    fn eval_block(&self, es: &Vec<Expr>, params: &Vec<String>, vals: &[i32], fuel: u64) -> (r:
        Option<Result<i32, String>>)
        requires
            params@.len() == vals@.len(),
        ensures
            outcome_view(r) == eval_block(
                self@,
                fuel as nat,
                exprs_view(es@),
                texts(params@),
                vals@,
                0,
                0,
            ),
        decreases fuel, 1nat,
    {
        proof {
            lemma_exprs_view(es@);
        }
        let ghost ev = exprs_view(es@);
        let ghost ps = texts(params@);
        let mut last: i32 = 0;
        let n = es.len();
        for i in 0..n
            invariant
                n == es@.len(),
                n == ev.len(),
                ev == exprs_view(es@),
                ps == texts(params@),
                params@.len() == vals@.len(),
                forall|k: int| 0 <= k < es@.len() ==> #[trigger] ev[k] == es@[k]@,
                eval_block(self@, fuel as nat, ev, ps, vals@, 0, 0) == eval_block(
                    self@,
                    fuel as nat,
                    ev,
                    ps,
                    vals@,
                    i as int,
                    last,
                ),
        {
            assert(ev[i as int] == es@[i as int]@);
            match self.eval_expr(&es[i], params, vals, fuel) {
                Some(Ok(v)) => {
                    last = v;
                },
                Some(Err(e)) => return Some(Err(e)),
                None => return None,
            }
        }
        Some(Ok(last))
    }

    /// Evaluates the arguments `es` in order.
    fn eval_args(&self, es: &Vec<Expr>, params: &Vec<String>, vals: &[i32], fuel: u64) -> (r:
        Option<Result<Vec<i32>, String>>)
        requires
            params@.len() == vals@.len(),
        ensures
            match r {
                Some(Ok(xs)) => eval_args(
                    self@,
                    fuel as nat,
                    exprs_view(es@),
                    texts(params@),
                    vals@,
                    0,
                    Seq::empty(),
                ) == Some(Ok::<Seq<i32>, Seq<char>>(xs@)) && xs@.len() == es@.len(),
                Some(Err(e)) => eval_args(
                    self@,
                    fuel as nat,
                    exprs_view(es@),
                    texts(params@),
                    vals@,
                    0,
                    Seq::empty(),
                ) == Some(Err::<Seq<i32>, Seq<char>>(e@)),
                None => eval_args(
                    self@,
                    fuel as nat,
                    exprs_view(es@),
                    texts(params@),
                    vals@,
                    0,
                    Seq::empty(),
                ) is None,
            },
        decreases fuel, 1nat,
    {
        proof {
            lemma_exprs_view(es@);
        }
        let ghost ev = exprs_view(es@);
        let ghost ps = texts(params@);
        let mut res: Vec<i32> = Vec::new();
        let n = es.len();
        for i in 0..n
            invariant
                n == es@.len(),
                n == ev.len(),
                ev == exprs_view(es@),
                ps == texts(params@),
                params@.len() == vals@.len(),
                res@.len() == i,
                forall|k: int| 0 <= k < es@.len() ==> #[trigger] ev[k] == es@[k]@,
                eval_args(self@, fuel as nat, ev, ps, vals@, 0, Seq::empty()) == eval_args(
                    self@,
                    fuel as nat,
                    ev,
                    ps,
                    vals@,
                    i as int,
                    res@,
                ),
        {
            assert(ev[i as int] == es@[i as int]@);
            match self.eval_expr(&es[i], params, vals, fuel) {
                Some(Ok(v)) => {
                    res.push(v);
                },
                Some(Err(e)) => return Some(Err(e)),
                None => return None,
            }
        }
        Some(Ok(res))
    }

    /// Evaluates the body of `func` with its parameters bound to `vals`.
    fn eval_function_body(&self, func: &Function, vals: &[i32], fuel: u64) -> (r: Option<
        Result<i32, String>,
    >)
        requires
            func.params@.len() == vals@.len(),
        ensures
            outcome_view(r) == eval_block(
                self@,
                fuel as nat,
                func@.body,
                func@.params,
                vals@,
                0,
                0,
            ),
        decreases fuel, 2nat,
    {
        if func.body.len() == 0 {
            return Some(Ok(0));
        }
        self.eval_block(&func.body, &func.params, vals, fuel)
    }
}

pub open spec fn msg_not_found(name: Seq<char>) -> Seq<char> {
    "Export or function '"@ + name + "' not found in module"@
}

pub open spec fn msg_function_missing(name: Seq<char>) -> Seq<char> {
    "Function '"@ + name + "' not found"@
}

pub open spec fn msg_arg_count(name: Seq<char>, expected: nat, got: nat) -> Seq<char> {
    "Argument count mismatch for '"@ + name + "': expected "@ + decimal_text(expected) + ", got "@
        + decimal_text(got)
}

/// The function that `name` designates: the target of the export of that
/// name, else the function of that name.
pub open spec fn invoke_target(m: ModuleV, name: Seq<char>) -> Option<Seq<char>> {
    match lookup_export(m.exports, name) {
        Some(t) => Some(t),
        None => match lookup_func(m.funcs, name) {
            Some(f) => Some(f.name),
            None => None,
        },
    }
}

/// The outcome of invoking `name` on `args` within `fuel`.
pub open spec fn invocation(m: ModuleV, fuel: nat, name: Seq<char>, args: Seq<i32>) -> Outcome {
    match invoke_target(m, name) {
        None => Some(Err(msg_not_found(name))),
        Some(t) => match lookup_func(m.funcs, t) {
            None => Some(Err(msg_function_missing(t))),
            Some(f) => if f.params.len() != args.len() {
                Some(Err(msg_arg_count(name, f.params.len(), args.len())))
            } else {
                eval_block(m, fuel, f.body, f.params, args, 0, 0)
            },
        },
    }
}

/// Whether invoking `name` on `args` comes to an end: some bound on the
/// nesting of evaluation suffices.
pub open spec fn terminates(m: ModuleV, name: Seq<char>, args: Seq<i32>) -> bool {
    exists|fuel: nat| #[trigger] invocation(m, fuel, name, args) is Some
}

/// The value or error that invoking `name` on `args` gives, where it comes to
/// an end; by [`lemma_invocation_result`] any sufficient bound gives it.
pub open spec fn invocation_result(m: ModuleV, name: Seq<char>, args: Seq<i32>) -> Result<
    i32,
    Seq<char>,
> {
    invocation(m, choose|fuel: nat| #[trigger] invocation(m, fuel, name, args) is Some, name, args)->0
}

/// More fuel does not change an outcome that less fuel already gives.
pub proof fn lemma_eval_expr_fuel(
    m: ModuleV,
    f1: nat,
    f2: nat,
    e: ExprV,
    params: Seq<Seq<char>>,
    vals: Seq<i32>,
)
    requires
        f1 <= f2,
        eval_expr(m, f1, e, params, vals) is Some,
    ensures
        eval_expr(m, f2, e, params, vals) == eval_expr(m, f1, e, params, vals),
    decreases f1, 0nat,
{
    if f1 > 0 {
        let g1 = (f1 - 1) as nat;
        let g2 = (f2 - 1) as nat;
        match e {
            ExprV::Add(l, r) | ExprV::Sub(l, r) | ExprV::Mul(l, r) | ExprV::RemS(l, r) | ExprV::LtS(
                l,
                r,
            ) => {
                if eval_expr(m, g1, *l, params, vals) is Some {
                    lemma_eval_expr_fuel(m, g1, g2, *l, params, vals);
                }
                if eval_expr(m, g1, *r, params, vals) is Some {
                    lemma_eval_expr_fuel(m, g1, g2, *r, params, vals);
                }
            },
            ExprV::If { condition, then_branch, else_branch } => {
                lemma_eval_expr_fuel(m, g1, g2, *condition, params, vals);
                if let Some(Ok(c)) = eval_expr(m, g1, *condition, params, vals) {
                    let b = if c != 0 {
                        then_branch
                    } else {
                        else_branch
                    };
                    lemma_eval_block_fuel(m, g1, g2, b, params, vals, 0, 0);
                }
            },
            ExprV::Call { func_name, args } => {
                if let Some(callee) = lookup_func(m.funcs, func_name) {
                    if callee.params.len() == args.len() {
                        lemma_eval_args_fuel(m, g1, g2, args, params, vals, 0, Seq::empty());
                        if let Some(Ok(xs)) = eval_args(m, g1, args, params, vals, 0, Seq::empty()) {
                            lemma_eval_block_fuel(m, g1, g2, callee.body, callee.params, xs, 0, 0);
                        }
                    }
                }
            },
            _ => {},
        }
    }
}

/// More fuel does not change the outcome of a block that less fuel gives.
pub proof fn lemma_eval_block_fuel(
    m: ModuleV,
    f1: nat,
    f2: nat,
    es: Seq<ExprV>,
    params: Seq<Seq<char>>,
    vals: Seq<i32>,
    i: int,
    last: i32,
)
    requires
        f1 <= f2,
        eval_block(m, f1, es, params, vals, i, last) is Some,
    ensures
        eval_block(m, f2, es, params, vals, i, last) == eval_block(m, f1, es, params, vals, i, last),
    decreases f1, es.len() - i,
{
    if 0 <= i < es.len() {
        lemma_eval_expr_fuel(m, f1, f2, es[i], params, vals);
        if let Some(Ok(v)) = eval_expr(m, f1, es[i], params, vals) {
            lemma_eval_block_fuel(m, f1, f2, es, params, vals, i + 1, v);
        }
    }
}

/// More fuel does not change the values of arguments that less fuel gives.
pub proof fn lemma_eval_args_fuel(
    m: ModuleV,
    f1: nat,
    f2: nat,
    es: Seq<ExprV>,
    params: Seq<Seq<char>>,
    vals: Seq<i32>,
    i: int,
    acc: Seq<i32>,
)
    requires
        f1 <= f2,
        eval_args(m, f1, es, params, vals, i, acc) is Some,
    ensures
        eval_args(m, f2, es, params, vals, i, acc) == eval_args(m, f1, es, params, vals, i, acc),
    decreases f1, es.len() - i,
{
    if 0 <= i < es.len() {
        lemma_eval_expr_fuel(m, f1, f2, es[i], params, vals);
        if let Some(Ok(v)) = eval_expr(m, f1, es[i], params, vals) {
            lemma_eval_args_fuel(m, f1, f2, es, params, vals, i + 1, acc.push(v));
        }
    }
}

/// The outcome of an invocation does not depend on the bound on nesting, once
/// the bound suffices: the semantics is deterministic.
pub proof fn lemma_invocation_fuel(m: ModuleV, f1: nat, f2: nat, name: Seq<char>, args: Seq<i32>)
    requires
        f1 <= f2,
        invocation(m, f1, name, args) is Some,
    ensures
        invocation(m, f2, name, args) == invocation(m, f1, name, args),
{
    if let Some(t) = invoke_target(m, name) {
        if let Some(f) = lookup_func(m.funcs, t) {
            if f.params.len() == args.len() {
                lemma_eval_block_fuel(m, f1, f2, f.body, f.params, args, 0, 0);
            }
        }
    }
}

/// Where some bound lets an invocation finish, the invocation terminates and
/// its result is the outcome within that bound.
pub proof fn lemma_invocation_result(m: ModuleV, fuel: nat, name: Seq<char>, args: Seq<i32>)
    requires
        invocation(m, fuel, name, args) is Some,
    ensures
        terminates(m, name, args),
        Some(invocation_result(m, name, args)) == invocation(m, fuel, name, args),
{
    let f0 = choose|f: nat| #[trigger] invocation(m, f, name, args) is Some;
    assert(invocation(m, f0, name, args) is Some);
    if f0 <= fuel {
        lemma_invocation_fuel(m, f0, fuel, name, args);
    } else {
        lemma_invocation_fuel(m, fuel, f0, name, args);
    }
}

/// Whether invoking `name` on `args` finishes within a nesting of
/// evaluation of `u64::MAX`, a depth that no machine stack reaches.
pub open spec fn finishes(m: ModuleV, name: Seq<char>, args: Seq<i32>) -> bool {
    invocation(m, u64::MAX as nat, name, args) is Some
}

/// An invocation that finishes terminates, and one that terminates within a
/// bound below `u64::MAX` finishes.
pub proof fn lemma_finishes(m: ModuleV, fuel: nat, name: Seq<char>, args: Seq<i32>)
    ensures
        finishes(m, name, args) ==> terminates(m, name, args),
        fuel <= u64::MAX && invocation(m, fuel, name, args) is Some ==> finishes(m, name, args),
{
    if finishes(m, name, args) {
        lemma_invocation_result(m, u64::MAX as nat, name, args);
    }
    if fuel <= u64::MAX && invocation(m, fuel, name, args) is Some {
        lemma_invocation_fuel(m, fuel, u64::MAX as nat, name, args);
    }
}

impl Module {
    /// Invokes `export_name` on `args`, nesting evaluation at most `fuel`
    /// deep; `None` where that bound does not suffice.
    pub fn invoke_bounded(&self, export_name: &str, args: &[i32], fuel: u64) -> (r: Option<
        Result<i32, String>,
    >)
        ensures
            outcome_view(r) == invocation(self@, fuel as nat, export_name@, args@),
    {
        let func_name: &str = match self.find_export(export_name) {
            Some(i) => {
                assert(self@.exports[i as int] == (
                    self.exports@[i as int].0@,
                    self.exports@[i as int].1@,
                ));
                self.exports[i].1.as_str()
            },
            None => match self.find_func(export_name) {
                Some(i) => {
                    assert(self@.funcs[i as int] == self.funcs@[i as int]@);
                    self.funcs[i].name.as_str()
                },
                None => {
                    return Some(
                        Err(cat3("Export or function '", export_name, "' not found in module")),
                    );
                },
            },
        };
        let idx = match self.find_func(func_name) {
            Some(i) => i,
            None => return Some(Err(cat3("Function '", func_name, "' not found"))),
        };
        let func = &self.funcs[idx];
        assert(self@.funcs[idx as int] == func@);
        if func.params.len() != args.len() {
            let mut msg = cat3("Argument count mismatch for '", export_name, "': expected ");
            msg.append(usize_text(func.params.len()).as_str());
            msg.append(", got ");
            msg.append(usize_text(args.len()).as_str());
            return Some(Err(msg));
        }
        self.eval_function_body(func, args, fuel)
    }

    /// Invokes an exported function by name with the given `i32` arguments.
    ///
    /// `name` designates the function that the export of that name designates,
    /// else the function of that name. The call's arguments must match the
    /// function's parameters in number.
    pub fn invoke(&self, export_name: &str, args: &[i32]) -> (r: Result<i32, String>)
        requires
            finishes(self@, export_name@, args@),
        ensures
            value_result(r) == invocation_result(self@, export_name@, args@),
    {
        proof {
            lemma_invocation_result(self@, u64::MAX as nat, export_name@, args@);
        }
        match self.invoke_bounded(export_name, args, u64::MAX) {
            Some(r) => r,
            None => Err(String::new()),
        }
    }
}

} // verus!
