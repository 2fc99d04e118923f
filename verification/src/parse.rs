//! From s-expressions to a [`Module`]: the grammar of the accepted WAT subset.

use vstd::prelude::*;
use vstd::string::*;

use crate::number::{decimal_i32, hex_error_text, decimal_error_text, hex_i32, radix_i32};
use crate::sexpr::{read_sexp, sexp_reading, shown, shown_str, SNode};
use crate::ast::{
    exprs_view, insert_export, insert_func, lemma_exprs_view_concat, opt_text, texts, Expr, ExprV,
    Function, FunctionV, Module, ModuleV,
};
use crate::sexpr::{atom_text, symbol_text};
use crate::text::{cat2, cat3, cat4, starts_with_char, text_eq, unquote, unquoted, strip_prefix, trim, trim_plus_signs, trimmed, without_plus_signs};

verus! {

/// The printed forms of `s`, separated by `", "`.
pub open spec fn joined_shown(s: Seq<SNode>) -> Seq<char>
    decreases s.len(),
{
    if s.len() == 0 {
        Seq::empty()
    } else if s.len() == 1 {
        shown(s[0])
    } else {
        joined_shown(s.drop_last()) + ", "@ + shown(s.last())
    }
}

/// A list of nodes as `Debug` prints a vector of them: `[a, b, c]`.
pub open spec fn list_debug(s: Seq<SNode>) -> Seq<char> {
    "["@ + joined_shown(s) + "]"@
}

/// Prints a list of nodes as `Debug` prints a vector of them.
pub fn list_debug_text(items: &Vec<SNode>) -> (r: String)
    ensures
        r@ == list_debug(items@),
{
    let mut res = String::from_str("[");
    let n = items.len();
    for i in 0..n
        invariant
            n == items@.len(),
            res@ == "["@ + joined_shown(items@.subrange(0, i as int)),
    {
        let ghost before = res@;
        if i > 0 {
            res.append(", ");
        }
        res.append(shown_str(&items[i]).as_str());
        proof {
            let t = items@.subrange(0, i + 1);
            assert(t.drop_last() =~= items@.subrange(0, i as int));
            if i == 0 {
                assert(joined_shown(items@.subrange(0, 0)) =~= Seq::<char>::empty());
                assert(res@ =~= "["@ + joined_shown(t));
            } else {
                assert(res@ =~= "["@ + joined_shown(t));
            }
        }
    }
    assert(items@.subrange(0, n as int) =~= items@);
    res.append("]");
    res
}

/// The rest of `s` after `p`, if `s` starts with `p`.
pub open spec fn after_prefix(s: Seq<char>, p: Seq<char>) -> Option<Seq<char>> {
    if p.len() <= s.len() && s.subrange(0, p.len() as int) == p {
        Some(s.subrange(p.len() as int, s.len() as int))
    } else {
        None
    }
}

/// The digits after a `0x` or `0X` prefix.
pub open spec fn hex_digits(s: Seq<char>) -> Option<Seq<char>> {
    match after_prefix(s, "0x"@) {
        Some(h) => Some(h),
        None => after_prefix(s, "0X"@),
    }
}

/// The digits after a `-0x` or `-0X` prefix.
pub open spec fn negative_hex_digits(s: Seq<char>) -> Option<Seq<char>> {
    match after_prefix(s, "-0x"@) {
        Some(h) => Some(h),
        None => after_prefix(s, "-0X"@),
    }
}

/// The value of an integer constant: an integer atom, truncated to 32 bits,
/// or a symbol that, trimmed, is a hexadecimal number after `0x` (leading `+`
/// signs allowed), a negated one after `-0x`, or a decimal number.
pub open spec fn const_value(n: SNode) -> Result<i32, Seq<char>> {
    match n {
        SNode::Int(v, _) => Ok(v as i32),
        SNode::Sym(t, _) => {
            let text = trimmed(t@);
            let clean = without_plus_signs(text);
            match hex_digits(clean) {
                Some(h) => match radix_i32(h, 16) {
                    Some(v) => Ok(v),
                    None => Err("Invalid hex integer '"@ + text + "': "@ + hex_error_text(h)),
                },
                None => match negative_hex_digits(text) {
                    Some(h) => match radix_i32(h, 16) {
                        Some(v) => Ok(vstd::wrapping::i32_specs::wrapping_sub(0, v)),
                        None => Err("Invalid hex integer '"@ + text + "': "@ + hex_error_text(h)),
                    },
                    None => match radix_i32(clean, 10) {
                        Some(v) => Ok(v),
                        None => Err("Invalid integer '"@ + text + "': "@ + decimal_error_text(clean)),
                    },
                },
            }
        },
        _ => Err("Expected integer constant, got "@ + shown(n)),
    }
}

fn strip_hex_prefix<'a>(s: &'a str) -> (r: Option<&'a str>)
    ensures
        r matches Some(t) ==> hex_digits(s@) == Some(t@),
        r is None ==> hex_digits(s@) is None,
{
    match strip_prefix(s, "0x") {
        Some(t) => Some(t),
        None => strip_prefix(s, "0X"),
    }
}

fn strip_negative_hex_prefix<'a>(s: &'a str) -> (r: Option<&'a str>)
    ensures
        r matches Some(t) ==> negative_hex_digits(s@) == Some(t@),
        r is None ==> negative_hex_digits(s@) is None,
{
    match strip_prefix(s, "-0x") {
        Some(t) => Some(t),
        None => strip_prefix(s, "-0X"),
    }
}

/// Reads an integer constant.
pub fn parse_i32(n: &SNode) -> (r: Result<i32, String>)
    ensures
        match r {
            Ok(v) => const_value(*n) == Ok::<i32, Seq<char>>(v),
            Err(e) => const_value(*n) == Err::<i32, Seq<char>>(e@),
        },
{
    match n {
        SNode::Int(v, _) => Ok(*v as i32),
        SNode::Sym(t, _) => {
            let text = trim(t.as_str());
            let clean = trim_plus_signs(text);
            match strip_hex_prefix(clean) {
                Some(h) => match hex_i32(h) {
                    Ok(v) => Ok(v),
                    Err(e) => Err(cat4("Invalid hex integer '", text, "': ", e.as_str())),
                },
                None => match strip_negative_hex_prefix(text) {
                    Some(h) => match hex_i32(h) {
                        Ok(v) => Ok(0i32.wrapping_sub(v)),
                        Err(e) => Err(cat4("Invalid hex integer '", text, "': ", e.as_str())),
                    },
                    None => match decimal_i32(clean) {
                        Ok(v) => Ok(v),
                        Err(e) => Err(cat4("Invalid integer '", text, "': ", e.as_str())),
                    },
                },
            }
        },
        _ => Err(cat2("Expected integer constant, got ", shown_str(n).as_str())),
    }
}

/// Whether `op` names one of the two-operand instructions.
pub open spec fn is_binary_op(op: Seq<char>) -> bool {
    ||| op == "i32.add"@
    ||| op == "i32.sub"@
    ||| op == "i32.mul"@
    ||| op == "i32.rem_s"@
    ||| op == "i32.lt_s"@
}

/// The two-operand instruction `op` applied to `l` and `r`.
pub open spec fn binary_view(op: Seq<char>, l: ExprV, r: ExprV) -> ExprV {
    if op == "i32.add"@ {
        ExprV::Add(Box::new(l), Box::new(r))
    } else if op == "i32.sub"@ {
        ExprV::Sub(Box::new(l), Box::new(r))
    } else if op == "i32.mul"@ {
        ExprV::Mul(Box::new(l), Box::new(r))
    } else if op == "i32.rem_s"@ {
        ExprV::RemS(Box::new(l), Box::new(r))
    } else {
        ExprV::LtS(Box::new(l), Box::new(r))
    }
}

/// The parts of an `if` read so far: its condition, if one was met, and the
/// instructions of its `then` and `else` clauses.
pub type IfParts = (Option<ExprV>, Seq<ExprV>, Seq<ExprV>);

/// The expression that a node denotes, or the error that reading it meets
/// first.
pub open spec fn expr_syntax(n: SNode) -> Result<ExprV, Seq<char>>
    decreases n,
{
    match n {
        SNode::List(items, _) => {
            let s = items@;
            if s.len() == 0 {
                Err("Expected expression list, got "@ + shown(n))
            } else {
                match symbol_text(s[0]) {
                    None => Err("Expected instruction operator, got "@ + shown(s[0])),
                    Some(op) => if op == "i32.const"@ {
                        if s.len() != 2 {
                            Err("i32.const requires 1 argument, got "@ + list_debug(s))
                        } else {
                            match const_value(s[1]) {
                                Ok(v) => Ok(ExprV::Const(v)),
                                Err(e) => Err(e),
                            }
                        }
                    } else if op == "local.get"@ {
                        if s.len() != 2 {
                            Err("local.get requires 1 argument, got "@ + list_debug(s))
                        } else {
                            match symbol_text(s[1]) {
                                Some(name) => Ok(ExprV::LocalGet(name)),
                                None => Err("Expected variable name in local.get, got "@ + shown(s[1])),
                            }
                        }
                    } else if is_binary_op(op) {
                        if s.len() != 3 {
                            Err(op + " requires 2 operands, got "@ + list_debug(s))
                        } else {
                            match expr_syntax(s[1]) {
                                Err(e) => Err(e),
                                Ok(l) => match expr_syntax(s[2]) {
                                    Err(e) => Err(e),
                                    Ok(r) => Ok(binary_view(op, l, r)),
                                },
                            }
                        }
                    } else if op == "call"@ {
                        if s.len() < 2 {
                            Err("call requires function name, got "@ + list_debug(s))
                        } else {
                            match symbol_text(s[1]) {
                                None => Err("Expected function name in call, got "@ + shown(s[1])),
                                Some(name) => match exprs_syntax(s.subrange(2, s.len() as int)) {
                                    Ok(args) => Ok(ExprV::Call { func_name: name, args }),
                                    Err(e) => Err(e),
                                },
                            }
                        }
                    } else if op == "if"@ {
                        if_expr(s)
                    } else {
                        Err("Unsupported instruction or keyword: "@ + op)
                    },
                }
            }
        },
        _ => Err("Expected expression list, got "@ + shown(n)),
    }
}

/// The `if` expression that the list `s`, headed by `if`, denotes.
pub open spec fn if_expr(s: Seq<SNode>) -> Result<ExprV, Seq<char>>
    decreases s,
{
    if s.len() == 0 {
        Err("Missing condition in if expression: "@ + list_debug(s))
    } else {
        match if_syntax(s.subrange(1, s.len() as int)) {
            Err(e) => Err(e),
            Ok(parts) => match parts.0 {
                None => Err("Missing condition in if expression: "@ + list_debug(s)),
                Some(c) => Ok(
                    ExprV::If { condition: Box::new(c), then_branch: parts.1, else_branch: parts.2 },
                ),
            },
        }
    }
}

/// The expressions that the nodes denote, in order, or the first error.
pub open spec fn exprs_syntax(s: Seq<SNode>) -> Result<Seq<ExprV>, Seq<char>>
    decreases s,
{
    if s.len() == 0 {
        Ok(Seq::empty())
    } else {
        match exprs_syntax(s.drop_last()) {
            Err(e) => Err(e),
            Ok(es) => match expr_syntax(s.last()) {
                Err(e) => Err(e),
                Ok(e) => Ok(es.push(e)),
            },
        }
    }
}

/// The parts of an `if` that the nodes after the keyword give, read in
/// order: `(result ..)` is skipped, each `(then ..)` and `(else ..)` adds its
/// instructions, and the first other list is the condition.
pub open spec fn if_syntax(t: Seq<SNode>) -> Result<IfParts, Seq<char>>
    decreases t,
{
    if t.len() == 0 {
        Ok((None, Seq::empty(), Seq::empty()))
    } else {
        match if_syntax(t.drop_last()) {
            Err(e) => Err(e),
            Ok(parts) => {
                let item = t.last();
                match item {
                    SNode::List(sub, _) => {
                        let u = sub@;
                        if u.len() == 0 {
                            Err("Unexpected token in if: "@ + shown(item))
                        } else if symbol_text(u[0]) == Some("result"@) {
                            Ok(parts)
                        } else if symbol_text(u[0]) == Some("then"@) {
                            match exprs_syntax(u.subrange(1, u.len() as int)) {
                                Ok(es) => Ok((parts.0, parts.1 + es, parts.2)),
                                Err(e) => Err(e),
                            }
                        } else if symbol_text(u[0]) == Some("else"@) {
                            match exprs_syntax(u.subrange(1, u.len() as int)) {
                                Ok(es) => Ok((parts.0, parts.1, parts.2 + es)),
                                Err(e) => Err(e),
                            }
                        } else if parts.0 is None {
                            match expr_syntax(item) {
                                Ok(c) => Ok((Some(c), parts.1, parts.2)),
                                Err(e) => Err(e),
                            }
                        } else {
                            Err("Unexpected expression in if: "@ + shown(item))
                        }
                    },
                    _ => Err("Unexpected token in if: "@ + shown(item)),
                }
            },
        }
    }
}

pub open spec fn expr_result(r: Result<Expr, String>) -> Result<ExprV, Seq<char>> {
    match r {
        Ok(e) => Ok(e@),
        Err(m) => Err(m@),
    }
}

pub open spec fn exprs_result(r: Result<Vec<Expr>, String>) -> Result<Seq<ExprV>, Seq<char>> {
    match r {
        Ok(es) => Ok(exprs_view(es@)),
        Err(m) => Err(m@),
    }
}

fn is_binary(op: &str) -> (b: bool)
    ensures
        b == is_binary_op(op@),
{
    text_eq(op, "i32.add") || text_eq(op, "i32.sub") || text_eq(op, "i32.mul") || text_eq(
        op,
        "i32.rem_s",
    ) || text_eq(op, "i32.lt_s")
}

fn binary_expr(op: &str, l: Expr, r: Expr) -> (e: Expr)
    ensures
        e@ == binary_view(op@, l@, r@),
{
    if text_eq(op, "i32.add") {
        Expr::Add(Box::new(l), Box::new(r))
    } else if text_eq(op, "i32.sub") {
        Expr::Sub(Box::new(l), Box::new(r))
    } else if text_eq(op, "i32.mul") {
        Expr::Mul(Box::new(l), Box::new(r))
    } else if text_eq(op, "i32.rem_s") {
        Expr::RemS(Box::new(l), Box::new(r))
    } else {
        Expr::LtS(Box::new(l), Box::new(r))
    }
}

/// Reads the expressions `items[from..]`, in order.
fn parse_expr_list(items: &Vec<SNode>, from: usize) -> (r: Result<Vec<Expr>, String>)
    requires
        from <= items@.len(),
    ensures
        exprs_result(r) == exprs_syntax(items@.subrange(from as int, items@.len() as int)),
    decreases items,
{
    let n = items.len();
    let mut res: Vec<Expr> = Vec::new();
    for i in from..n
        invariant
            n == items@.len(),
            from <= n,
            exprs_syntax(items@.subrange(from as int, i as int)) == Ok::<Seq<ExprV>, Seq<char>>(
                exprs_view(res@),
            ),
    {
        let ghost t = items@.subrange(from as int, i + 1);
        assert(t.drop_last() =~= items@.subrange(from as int, i as int));
        match parse_expr(&items[i]) {
            Ok(e) => {
                let ghost before = res@;
                res.push(e);
                assert(res@.drop_last() =~= before);
            },
            Err(e) => {
                proof {
                    lemma_exprs_syntax_error(items@.subrange(from as int, n as int), i - from);
                    assert(items@.subrange(from as int, n as int).subrange(0, i - from + 1) =~= t);
                }
                return Err(e);
            },
        }
    }
    assert(items@.subrange(from as int, n as int) =~= items@.subrange(from as int, n as int));
    Ok(res)
}

/// An error in a prefix is the error of the whole sequence.
proof fn lemma_exprs_syntax_error(s: Seq<SNode>, k: int)
    requires
        0 <= k < s.len(),
        exprs_syntax(s.subrange(0, k + 1)) is Err,
    ensures
        exprs_syntax(s) == exprs_syntax(s.subrange(0, k + 1)),
    decreases s.len(),
{
    if k + 1 < s.len() {
        assert(s.drop_last().subrange(0, k + 1) =~= s.subrange(0, k + 1));
        lemma_exprs_syntax_error(s.drop_last(), k);
    } else {
        assert(s.subrange(0, k + 1) =~= s);
    }
}

/// Reads one expression.
pub fn parse_expr(n: &SNode) -> (r: Result<Expr, String>)
    ensures
        expr_result(r) == expr_syntax(*n),
    decreases n,
{
    match n {
        SNode::List(list, _) => {
            let len = list.len();
            if len == 0 {
                return Err(cat2("Expected expression list, got ", shown_str(n).as_str()));
            }
            let op = match atom_text(&list[0]) {
                Some(op) => op.as_str(),
                None => {
                    return Err(
                        cat2("Expected instruction operator, got ", shown_str(&list[0]).as_str()),
                    );
                },
            };
            if text_eq(op, "i32.const") {
                if len != 2 {
                    return Err(
                        cat2("i32.const requires 1 argument, got ", list_debug_text(list).as_str()),
                    );
                }
                match parse_i32(&list[1]) {
                    Ok(v) => Ok(Expr::Const(v)),
                    Err(e) => Err(e),
                }
            } else if text_eq(op, "local.get") {
                if len != 2 {
                    return Err(
                        cat2("local.get requires 1 argument, got ", list_debug_text(list).as_str()),
                    );
                }
                match atom_text(&list[1]) {
                    Some(name) => Ok(Expr::LocalGet(name.clone())),
                    None => Err(
                        cat2(
                            "Expected variable name in local.get, got ",
                            shown_str(&list[1]).as_str(),
                        ),
                    ),
                }
            } else if is_binary(op) {
                if len != 3 {
                    return Err(
                        cat3(op, " requires 2 operands, got ", list_debug_text(list).as_str()),
                    );
                }
                let lhs = match parse_expr(&list[1]) {
                    Ok(e) => e,
                    Err(e) => return Err(e),
                };
                let rhs = match parse_expr(&list[2]) {
                    Ok(e) => e,
                    Err(e) => return Err(e),
                };
                Ok(binary_expr(op, lhs, rhs))
            } else if text_eq(op, "call") {
                if len < 2 {
                    return Err(
                        cat2("call requires function name, got ", list_debug_text(list).as_str()),
                    );
                }
                let target = match atom_text(&list[1]) {
                    Some(t) => t,
                    None => {
                        return Err(
                            cat2(
                                "Expected function name in call, got ",
                                shown_str(&list[1]).as_str(),
                            ),
                        );
                    },
                };
                match parse_expr_list(list, 2) {
                    Ok(args) => Ok(Expr::Call { func_name: target.clone(), args }),
                    Err(e) => Err(e),
                }
            } else if text_eq(op, "if") {
                parse_if(list)
            } else {
                Err(cat2("Unsupported instruction or keyword: ", op))
            }
        },
        _ => Err(cat2("Expected expression list, got ", shown_str(n).as_str())),
    }
}

pub open spec fn opt_expr_view(o: Option<Expr>) -> Option<ExprV> {
    match o {
        Some(e) => Some(e@),
        None => None,
    }
}

/// Whether `n` is the symbol `kw`.
fn is_keyword(n: &SNode, kw: &str) -> (b: bool)
    ensures
        b == (symbol_text(*n) == Some(kw@)),
{
    match atom_text(n) {
        Some(t) => text_eq(t.as_str(), kw),
        None => false,
    }
}

/// An error in a prefix is the error of the whole `if`.
proof fn lemma_if_syntax_error(t: Seq<SNode>, k: int)
    requires
        0 <= k < t.len(),
        if_syntax(t.subrange(0, k + 1)) is Err,
    ensures
        if_syntax(t) == if_syntax(t.subrange(0, k + 1)),
    decreases t.len(),
{
    if k + 1 < t.len() {
        assert(t.drop_last().subrange(0, k + 1) =~= t.subrange(0, k + 1));
        lemma_if_syntax_error(t.drop_last(), k);
    } else {
        assert(t.subrange(0, k + 1) =~= t);
    }
}

/// Reads an `if` expression from its list, headed by `if`.
fn parse_if(list: &Vec<SNode>) -> (r: Result<Expr, String>)
    requires
        list@.len() > 0,
    ensures
        expr_result(r) == if_expr(list@),
    decreases list,
{
    let len = list.len();
    let ghost whole = list@.subrange(1, len as int);
    let mut condition: Option<Expr> = None;
    let mut then_branch: Vec<Expr> = Vec::new();
    let mut else_branch: Vec<Expr> = Vec::new();
    assert(list@.subrange(1, 1) =~= Seq::<SNode>::empty());
    for i in 1..len
        invariant
            len == list@.len(),
            whole == list@.subrange(1, len as int),
            if_syntax(list@.subrange(1, i as int)) == Ok::<IfParts, Seq<char>>(
                (opt_expr_view(condition), exprs_view(then_branch@), exprs_view(else_branch@)),
            ),
    {
        let ghost t = list@.subrange(1, i + 1);
        assert(t.drop_last() =~= list@.subrange(1, i as int));
        assert(whole.subrange(0, i - 1 + 1) =~= t);
        let item = &list[i];
        match item {
            SNode::List(sub, _) => {
                if sub.len() == 0 {
                    proof {
                        lemma_if_syntax_error(whole, i - 1);
                    }
                    return Err(cat2("Unexpected token in if: ", shown_str(item).as_str()));
                }
                if is_keyword(&sub[0], "result") {
                } else if is_keyword(&sub[0], "then") {
                    match parse_expr_list(sub, 1) {
                        Ok(mut es) => {
                            proof {
                                lemma_exprs_view_concat(then_branch@, es@);
                            }
                            then_branch.append(&mut es);
                        },
                        Err(e) => {
                            proof {
                                lemma_if_syntax_error(whole, i - 1);
                            }
                            return Err(e);
                        },
                    }
                } else if is_keyword(&sub[0], "else") {
                    match parse_expr_list(sub, 1) {
                        Ok(mut es) => {
                            proof {
                                lemma_exprs_view_concat(else_branch@, es@);
                            }
                            else_branch.append(&mut es);
                        },
                        Err(e) => {
                            proof {
                                lemma_if_syntax_error(whole, i - 1);
                            }
                            return Err(e);
                        },
                    }
                } else if condition.is_none() {
                    match parse_expr(item) {
                        Ok(c) => {
                            condition = Some(c);
                        },
                        Err(e) => {
                            proof {
                                lemma_if_syntax_error(whole, i - 1);
                            }
                            return Err(e);
                        },
                    }
                } else {
                    proof {
                        lemma_if_syntax_error(whole, i - 1);
                    }
                    return Err(cat2("Unexpected expression in if: ", shown_str(item).as_str()));
                }
            },
            _ => {
                proof {
                    lemma_if_syntax_error(whole, i - 1);
                }
                return Err(cat2("Unexpected token in if: ", shown_str(item).as_str()));
            },
        }
    }
    assert(list@.subrange(1, len as int) =~= whole);
    match condition {
        Some(c) => Ok(Expr::If { condition: Box::new(c), then_branch, else_branch }),
        None => Err(cat2("Missing condition in if expression: ", list_debug_text(list).as_str())),
    }
}

/// The declarations of a function read so far.
pub struct FuncParts {
    pub export_name: Option<Seq<char>>,
    pub params: Seq<Seq<char>>,
    pub result: Option<Seq<char>>,
    pub body: Seq<ExprV>,
}

/// The declarations after one more item of a function: `(export "name")`,
/// `(param $name i32)`, `(result i32)`, or an instruction of the body.
pub open spec fn func_step(p: FuncParts, item: SNode) -> Result<FuncParts, Seq<char>> {
    match item {
        SNode::List(inner, _) => {
            let u = inner@;
            if u.len() == 0 {
                Err("Unexpected token in function definition: "@ + shown(item))
            } else if symbol_text(u[0]) == Some("export"@) {
                if u.len() != 2 {
                    Err("Malformed export declaration: "@ + shown(item))
                } else {
                    match symbol_text(u[1]) {
                        None => Err("Expected export name string, got "@ + shown(u[1])),
                        Some(x) => Ok(FuncParts { export_name: Some(unquoted(x)), ..p }),
                    }
                }
            } else if symbol_text(u[0]) == Some("param"@) {
                if u.len() != 3 {
                    Err("Malformed param declaration: "@ + shown(item))
                } else {
                    match symbol_text(u[1]) {
                        None => Err("Expected param name, got "@ + shown(u[1])),
                        Some(name) => match symbol_text(u[2]) {
                            None => Err("Expected param type, got "@ + shown(u[2])),
                            Some(ty) => if ty != "i32"@ {
                                Err("Unsupported param type: "@ + ty)
                            } else {
                                Ok(FuncParts { params: p.params.push(name), ..p })
                            },
                        },
                    }
                }
            } else if symbol_text(u[0]) == Some("result"@) {
                if u.len() != 2 {
                    Err("Malformed result declaration: "@ + shown(item))
                } else {
                    match symbol_text(u[1]) {
                        None => Err("Expected result type, got "@ + shown(u[1])),
                        Some(ty) => if ty != "i32"@ {
                            Err("Unsupported result type: "@ + ty)
                        } else {
                            Ok(FuncParts { result: Some(ty), ..p })
                        },
                    }
                }
            } else {
                match expr_syntax(item) {
                    Ok(e) => Ok(FuncParts { body: p.body.push(e), ..p }),
                    Err(e) => Err(e),
                }
            }
        },
        _ => Err("Unexpected token in function definition: "@ + shown(item)),
    }
}

/// The declarations that the items `t` of a function give, read in order.
pub open spec fn func_parts(t: Seq<SNode>) -> Result<FuncParts, Seq<char>>
    decreases t.len(),
{
    if t.len() == 0 {
        Ok(FuncParts { export_name: None, params: Seq::empty(), result: None, body: Seq::empty() })
    } else {
        match func_parts(t.drop_last()) {
            Err(e) => Err(e),
            Ok(p) => func_step(p, t.last()),
        }
    }
}

/// The `$name` that may follow `func`.
pub open spec fn func_name_token(s: Seq<SNode>) -> Option<Seq<char>> {
    if s.len() > 1 {
        match symbol_text(s[1]) {
            Some(t) => if t.len() > 0 && t[0] == '$' {
                Some(t)
            } else {
                None
            },
            None => None,
        }
    } else {
        None
    }
}

/// The function that the list `s`, headed by `func`, declares, with its
/// export name; a function without a `$name` is named `$` and its export
/// name.
pub open spec fn func_syntax(s: Seq<SNode>) -> Result<(FunctionV, Option<Seq<char>>), Seq<char>> {
    let start: int = if func_name_token(s) is Some {
        2
    } else {
        1
    };
    match func_parts(s.subrange(start, s.len() as int)) {
        Err(e) => Err(e),
        Ok(p) => {
            let name = match func_name_token(s) {
                Some(t) => Some(t),
                None => match p.export_name {
                    Some(x) => Some("$"@ + x),
                    None => None,
                },
            };
            match name {
                None => Err("Function must have a name or an export declaration"@),
                Some(nm) => Ok(
                    (
                        FunctionV {
                            name: nm,
                            export_name: p.export_name,
                            params: p.params,
                            result: p.result,
                            body: p.body,
                        },
                        p.export_name,
                    ),
                ),
            }
        },
    }
}

pub open spec fn func_result(r: Result<(Function, Option<String>), String>) -> Result<
    (FunctionV, Option<Seq<char>>),
    Seq<char>,
> {
    match r {
        Ok((f, x)) => Ok((f@, opt_text(x))),
        Err(m) => Err(m@),
    }
}

/// An error in a prefix is the error of all the items.
proof fn lemma_func_parts_error(t: Seq<SNode>, k: int)
    requires
        0 <= k < t.len(),
        func_parts(t.subrange(0, k + 1)) is Err,
    ensures
        func_parts(t) == func_parts(t.subrange(0, k + 1)),
    decreases t.len(),
{
    if k + 1 < t.len() {
        assert(t.drop_last().subrange(0, k + 1) =~= t.subrange(0, k + 1));
        lemma_func_parts_error(t.drop_last(), k);
    } else {
        assert(t.subrange(0, k + 1) =~= t);
    }
}

fn copy_opt(o: &Option<String>) -> (r: Option<String>)
    ensures
        r == *o,
{
    match o {
        Some(s) => Some(s.clone()),
        None => None,
    }
}

/// The declarations of a function read so far.
struct FuncDecls {
    export_name: Option<String>,
    params: Vec<String>,
    result: Option<String>,
    body: Vec<Expr>,
}

impl View for FuncDecls {
    type V = FuncParts;

    closed spec fn view(&self) -> FuncParts {
        FuncParts {
            export_name: opt_text(self.export_name),
            params: texts(self.params@),
            result: opt_text(self.result),
            body: exprs_view(self.body@),
        }
    }
}

/// Reads one item of a function declaration into `decls`.
fn read_func_item(decls: &mut FuncDecls, item: &SNode) -> (r: Result<(), String>)
    ensures
        match func_step(old(decls)@, *item) {
            Ok(p) => r is Ok && final(decls)@ == p,
            Err(e) => r matches Err(m) && m@ == e,
        },
{
    let inner = match item {
        SNode::List(inner, _) => inner,
        _ => {
            return Err(
                cat2("Unexpected token in function definition: ", shown_str(item).as_str()),
            );
        },
    };
    let n = inner.len();
    if n == 0 {
        return Err(cat2("Unexpected token in function definition: ", shown_str(item).as_str()));
    }
    if is_keyword(&inner[0], "export") {
        if n != 2 {
            return Err(cat2("Malformed export declaration: ", shown_str(item).as_str()));
        }
        match atom_text(&inner[1]) {
            Some(x) => {
                decls.export_name = Some(unquote(x.as_str()));
                Ok(())
            },
            None => Err(cat2("Expected export name string, got ", shown_str(&inner[1]).as_str())),
        }
    } else if is_keyword(&inner[0], "param") {
        if n != 3 {
            return Err(cat2("Malformed param declaration: ", shown_str(item).as_str()));
        }
        let name = match atom_text(&inner[1]) {
            Some(x) => x,
            None => {
                return Err(cat2("Expected param name, got ", shown_str(&inner[1]).as_str()));
            },
        };
        let ty = match atom_text(&inner[2]) {
            Some(x) => x,
            None => {
                return Err(cat2("Expected param type, got ", shown_str(&inner[2]).as_str()));
            },
        };
        if !text_eq(ty.as_str(), "i32") {
            return Err(cat2("Unsupported param type: ", ty.as_str()));
        }
        let ghost before = decls.params@;
        decls.params.push(name.clone());
        assert(texts(decls.params@) =~= texts(before).push(name@));
        Ok(())
    } else if is_keyword(&inner[0], "result") {
        if n != 2 {
            return Err(cat2("Malformed result declaration: ", shown_str(item).as_str()));
        }
        let ty = match atom_text(&inner[1]) {
            Some(x) => x,
            None => {
                return Err(cat2("Expected result type, got ", shown_str(&inner[1]).as_str()));
            },
        };
        if !text_eq(ty.as_str(), "i32") {
            return Err(cat2("Unsupported result type: ", ty.as_str()));
        }
        decls.result = Some(ty.clone());
        Ok(())
    } else {
        match parse_expr(item) {
            Ok(e) => {
                let ghost before = decls.body@;
                decls.body.push(e);
                assert(decls.body@.drop_last() =~= before);
                Ok(())
            },
            Err(e) => Err(e),
        }
    }
}

/// Reads a function declaration from its list, headed by `func`.
fn parse_func(list: &Vec<SNode>) -> (r: Result<(Function, Option<String>), String>)
    requires
        list@.len() > 0,
    ensures
        func_result(r) == func_syntax(list@),
{
    let len = list.len();
    let mut func_name: Option<String> = None;
    let mut start: usize = 1;
    if len > 1 {
        match atom_text(&list[1]) {
            Some(name) => {
                if starts_with_char(name.as_str(), '$') {
                    func_name = Some(name.clone());
                    start = 2;
                }
            },
            None => {},
        }
    }
    assert(opt_text(func_name) == func_name_token(list@));
    let ghost whole = list@.subrange(start as int, len as int);
    let mut decls = FuncDecls {
        export_name: None,
        params: Vec::new(),
        result: None,
        body: Vec::new(),
    };
    assert(list@.subrange(start as int, start as int) =~= Seq::<SNode>::empty());
    assert(texts(decls.params@) =~= Seq::<Seq<char>>::empty());
    for i in start..len
        invariant
            len == list@.len(),
            start <= len,
            start == (if func_name_token(list@) is Some {
                2int
            } else {
                1int
            }),
            opt_text(func_name) == func_name_token(list@),
            whole == list@.subrange(start as int, len as int),
            func_parts(list@.subrange(start as int, i as int)) == Ok::<FuncParts, Seq<char>>(
                decls@,
            ),
    {
        let ghost t = list@.subrange(start as int, i + 1);
        assert(t.drop_last() =~= list@.subrange(start as int, i as int));
        assert(whole.subrange(0, i - start + 1) =~= t);
        assert(t.last() == list@[i as int]);
        let ghost before = decls@;
        match read_func_item(&mut decls, &list[i]) {
            Ok(()) => {},
            Err(e) => {
                assert(func_parts(t) == func_step(before, list@[i as int]));
                proof {
                    lemma_func_parts_error(whole, i - start);
                }
                return Err(e);
            },
        }
    }
    assert(list@.subrange(start as int, len as int) =~= whole);
    let FuncDecls { export_name, params, result, body } = decls;
    let name = match func_name {
        Some(nm) => nm,
        None => match &export_name {
            Some(x) => cat2("$", x.as_str()),
            None => {
                return Err(String::from_str("Function must have a name or an export declaration"));
            },
        },
    };
    let exported = copy_opt(&export_name);
    Ok((Function { name, export_name, params, result, body }, exported))
}

/// The module after one more item: a `(func ..)` declaration, entered under
/// its name, with its export, if it has one, made to designate it.
pub open spec fn module_step(m: ModuleV, item: SNode) -> Result<ModuleV, Seq<char>> {
    match item {
        SNode::List(fl, _) => if fl@.len() > 0 && symbol_text(fl@[0]) == Some("func"@) {
            match func_syntax(fl@) {
                Err(e) => Err(e),
                Ok((f, x)) => Ok(
                    ModuleV {
                        funcs: insert_func(m.funcs, f),
                        exports: match x {
                            Some(name) => insert_export(m.exports, name, f.name),
                            None => m.exports,
                        },
                    },
                ),
            }
        } else {
            Err("Unexpected module element: "@ + shown(item))
        },
        _ => Err("Unexpected module element: "@ + shown(item)),
    }
}

/// The module that the items `t` declare, read in order.
pub open spec fn module_items(t: Seq<SNode>) -> Result<ModuleV, Seq<char>>
    decreases t.len(),
{
    if t.len() == 0 {
        Ok(ModuleV { funcs: Seq::empty(), exports: Seq::empty() })
    } else {
        match module_items(t.drop_last()) {
            Err(e) => Err(e),
            Ok(m) => module_step(m, t.last()),
        }
    }
}

/// The module that a `(module ..)` node declares.
pub open spec fn module_syntax(n: SNode) -> Result<ModuleV, Seq<char>> {
    match n {
        SNode::List(l, _) => if l@.len() > 0 && symbol_text(l@[0]) == Some("module"@) {
            module_items(l@.subrange(1, l@.len() as int))
        } else {
            Err("Top-level element must be (module ...)"@)
        },
        _ => Err("Top-level element must be (module ...)"@),
    }
}

/// The module that the WAT text declares, or the error met first.
pub open spec fn wat_syntax(text: Seq<char>) -> Result<ModuleV, Seq<char>> {
    match sexp_reading(text) {
        Err(e) => Err("WAT parse error: "@ + e),
        Ok(n) => module_syntax(n),
    }
}

pub open spec fn module_result(r: Result<Module, String>) -> Result<ModuleV, Seq<char>> {
    match r {
        Ok(m) => Ok(m@),
        Err(e) => Err(e@),
    }
}

/// An error in a prefix is the error of all the items.
proof fn lemma_module_items_error(t: Seq<SNode>, k: int)
    requires
        0 <= k < t.len(),
        module_items(t.subrange(0, k + 1)) is Err,
    ensures
        module_items(t) == module_items(t.subrange(0, k + 1)),
    decreases t.len(),
{
    if k + 1 < t.len() {
        assert(t.drop_last().subrange(0, k + 1) =~= t.subrange(0, k + 1));
        lemma_module_items_error(t.drop_last(), k);
    } else {
        assert(t.subrange(0, k + 1) =~= t);
    }
}

impl Module {
    /// Adds one item of a module: a function declaration.
    fn add_item(&mut self, item: &SNode) -> (r: Result<(), String>)
        ensures
            match module_step(old(self)@, *item) {
                Ok(m) => r is Ok && final(self)@ == m,
                Err(e) => r matches Err(x) && x@ == e,
            },
    {
        let fl = match item {
            SNode::List(fl, _) => fl,
            _ => return Err(cat2("Unexpected module element: ", shown_str(item).as_str())),
        };
        if fl.len() == 0 || !is_keyword(&fl[0], "func") {
            return Err(cat2("Unexpected module element: ", shown_str(item).as_str()));
        }
        match parse_func(fl) {
            Err(e) => Err(e),
            Ok((func, exported)) => {
                match exported {
                    Some(name) => {
                        let target = func.name.clone();
                        self.insert_export_entry(name, target);
                    },
                    None => {},
                }
                self.insert_function(func);
                Ok(())
            },
        }
    }

    /// Builds the module that a `(module ..)` s-expression declares.
    pub fn from_sexp(node: &SNode) -> (r: Result<Module, String>)
        ensures
            module_result(r) == module_syntax(*node),
    {
        let list = match node {
            SNode::List(l, _) => l,
            _ => return Err(String::from_str("Top-level element must be (module ...)")),
        };
        let len = list.len();
        if len == 0 || !is_keyword(&list[0], "module") {
            return Err(String::from_str("Top-level element must be (module ...)"));
        }
        let ghost whole = list@.subrange(1, len as int);
        assert(module_syntax(*node) == module_items(whole));
        let mut module = Module { funcs: Vec::new(), exports: Vec::new() };
        assert(list@.subrange(1, 1) =~= Seq::<SNode>::empty());
        assert(module@.funcs =~= Seq::<FunctionV>::empty());
        assert(module@.exports =~= Seq::<(Seq<char>, Seq<char>)>::empty());
        for i in 1..len
            invariant
                len == list@.len(),
                whole == list@.subrange(1, len as int),
                module_syntax(*node) == module_items(whole),
                module_items(list@.subrange(1, i as int)) == Ok::<ModuleV, Seq<char>>(module@),
        {
            let ghost t = list@.subrange(1, i + 1);
            assert(t.drop_last() =~= list@.subrange(1, i as int));
            assert(whole.subrange(0, i - 1 + 1) =~= t);
            assert(t.last() == list@[i as int]);
            let ghost before = module@;
            match module.add_item(&list[i]) {
                Ok(()) => {},
                Err(e) => {
                    assert(module_items(t) == module_step(before, list@[i as int]));
                    proof {
                        lemma_module_items_error(whole, i - 1);
                    }
                    return Err(e);
                },
            }
        }
        assert(list@.subrange(1, len as int) =~= whole);
        Ok(module)
    }

    /// Parses a WebAssembly Text (WAT) format module from an S-expression string.
    pub fn parse_wat(wat: &str) -> (r: Result<Module, String>)
        ensures
            module_result(r) == wat_syntax(wat@),
    {
        match read_sexp(wat) {
            Err(e) => Err(cat2("WAT parse error: ", e.as_str())),
            Ok(node) => Module::from_sexp(&node),
        }
    }
}

} // verus!
