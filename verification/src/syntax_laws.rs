//! What the grammar accepts, stated item by item: integer constants, the
//! instructions, the declarations of a function and the parts of an `if`.

use vstd::prelude::*;
use vstd::string::*;

use crate::ast::{ExprV, FunctionV};
use crate::number::{all_digits, digit_value, digits_number, radix_number};
use crate::parse::{
    after_prefix, const_value, expr_syntax, exprs_syntax, func_name_token, func_parts, func_step,
    func_syntax, if_expr, if_syntax, FuncParts, IfParts,
};
use crate::sexpr::{shown, symbol_text, SNode};
use crate::text::{trimmed, unquoted, without_plus_signs};

verus! {

/// `k` plus signs.
pub open spec fn plus_signs(k: nat) -> Seq<char> {
    Seq::new(k, |_i: int| '+')
}

proof fn lemma_without_plus_signs(k: nat, r: Seq<char>)
    requires
        r.len() == 0 || r[0] != '+',
    ensures
        without_plus_signs(plus_signs(k) + r) == r,
    decreases k,
{
    let x = plus_signs(k) + r;
    if k > 0 {
        assert(x[0] == '+');
        assert(x.drop_first() =~= plus_signs((k - 1) as nat) + r);
        lemma_without_plus_signs((k - 1) as nat, r);
    } else {
        assert(x =~= r);
    }
}

proof fn lemma_after_prefix(p: Seq<char>, h: Seq<char>)
    ensures
        after_prefix(p + h, p) == Some(h),
{
    assert((p + h).subrange(0, p.len() as int) =~= p);
    assert((p + h).subrange(p.len() as int, (p + h).len() as int) =~= h);
}

proof fn lemma_digits_nonneg(s: Seq<char>, radix: int)
    requires
        radix >= 0,
    ensures
        digits_number(s, radix) >= 0,
    decreases s.len(),
{
    if s.len() > 0 {
        lemma_digits_nonneg(s.drop_last(), radix);
        let a = digits_number(s.drop_last(), radix);
        assert(a * radix >= 0) by (nonlinear_arith)
            requires
                a >= 0,
                radix >= 0,
        ;
    }
}

proof fn lemma_unsigned_number(h: Seq<char>, radix: int)
    requires
        0 < radix <= 36,
        all_digits(h, radix),
    ensures
        radix_number(h, radix) == Some(digits_number(h, radix)),
        digits_number(h, radix) >= 0,
{
    assert(digit_value(h[0]) < radix);
    lemma_digits_nonneg(h, radix);
}

/// An integer atom denotes the integer it writes, truncated to 32 bits: the
/// constant has the same low 32 bits, and is that integer itself whenever it
/// fits in an `i32`.
pub proof fn lemma_int_constant_value(v: i64, p: String)
    ensures
        const_value(SNode::Int(v, p)) is Ok,
        const_value(SNode::Int(v, p))->Ok_0 as u32 == v as u32,
        i32::MIN <= v <= i32::MAX ==> const_value(SNode::Int(v, p)) == Ok::<i32, Seq<char>>(
            v as i32,
        ),
        i32::MIN <= v <= i32::MAX ==> const_value(SNode::Int(v, p))->Ok_0 == v,
{
    let c = v as i32;
    assert(c as u32 == v as u32) by (bit_vector)
        requires
            c == v as i32,
    ;
    if i32::MIN <= v <= i32::MAX {
        assert(c == v) by (bit_vector)
            requires
                c == v as i32,
                -0x8000_0000 <= v <= 0x7fff_ffff,
        ;
    }
}

/// A symbol whose trimmed text is a hexadecimal number after `0x` or `0X`,
/// itself after any number of `+` signs, denotes that number whenever it
/// fits in an `i32`.
pub proof fn lemma_hex_constant(t: String, p: String, k: nat, upper: bool, h: Seq<char>)
    requires
        trimmed(t@) == plus_signs(k) + (if upper {
            "0X"@
        } else {
            "0x"@
        }) + h,
        all_digits(h, 16),
        digits_number(h, 16) <= i32::MAX,
    ensures
        const_value(SNode::Sym(t, p)) == Ok::<i32, Seq<char>>(digits_number(h, 16) as i32),
{
    reveal_strlit("0x");
    reveal_strlit("0X");
    let pre = if upper {
        "0X"@
    } else {
        "0x"@
    };
    let r = pre + h;
    assert(plus_signs(k) + pre + h =~= plus_signs(k) + r);
    assert(r[0] == '0');
    lemma_without_plus_signs(k, r);
    lemma_after_prefix(pre, h);
    if upper {
        assert(r.subrange(0, 2)[1] == 'X');
        assert(r.subrange(0, 2) != "0x"@);
    }
    lemma_unsigned_number(h, 16);
}

/// A symbol whose trimmed text is a hexadecimal number after `-0x` or `-0X`
/// denotes the negated number whenever the number fits in an `i32`.
pub proof fn lemma_negative_hex_constant(t: String, p: String, upper: bool, h: Seq<char>)
    requires
        trimmed(t@) == (if upper {
            "-0X"@
        } else {
            "-0x"@
        }) + h,
        all_digits(h, 16),
        digits_number(h, 16) <= i32::MAX,
    ensures
        const_value(SNode::Sym(t, p)) == Ok::<i32, Seq<char>>((0 - digits_number(h, 16)) as i32),
{
    reveal_strlit("0x");
    reveal_strlit("0X");
    reveal_strlit("-0x");
    reveal_strlit("-0X");
    let pre = if upper {
        "-0X"@
    } else {
        "-0x"@
    };
    let x = pre + h;
    assert(x[0] == '-');
    lemma_without_plus_signs(0, x);
    assert(plus_signs(0) + x =~= x);
    assert(x.subrange(0, 2)[0] == '-');
    assert(x.subrange(0, 2) != "0x"@);
    assert(x.subrange(0, 2) != "0X"@);
    lemma_after_prefix(pre, h);
    if upper {
        assert(x.subrange(0, 3)[2] == 'X');
        assert(x.subrange(0, 3) != "-0x"@);
    }
    lemma_unsigned_number(h, 16);
}

/// A symbol whose trimmed text is a decimal number, after any number of `+`
/// signs, denotes that number whenever it fits in an `i32`.
pub proof fn lemma_decimal_constant(t: String, p: String, k: nat, d: Seq<char>)
    requires
        trimmed(t@) == plus_signs(k) + d,
        all_digits(d, 10),
        digits_number(d, 10) <= i32::MAX,
    ensures
        const_value(SNode::Sym(t, p)) == Ok::<i32, Seq<char>>(digits_number(d, 10) as i32),
{
    reveal_strlit("0x");
    reveal_strlit("0X");
    reveal_strlit("-0x");
    reveal_strlit("-0X");
    let x = plus_signs(k) + d;
    assert(digit_value(d[0]) < 10);
    lemma_without_plus_signs(k, d);
    if d.len() >= 2 {
        assert(digit_value(d[1]) < 10);
        assert(d.subrange(0, 2)[1] == d[1]);
        assert(d.subrange(0, 2) != "0x"@);
        assert(d.subrange(0, 2) != "0X"@);
    }
    if x.len() >= 3 {
        assert(x.subrange(0, 3)[0] == x[0]);
        if k > 0 {
            assert(x[0] == '+');
        } else {
            assert(x[0] == d[0]);
        }
        assert(x.subrange(0, 3) != "-0x"@);
        assert(x.subrange(0, 3) != "-0X"@);
    }
    lemma_unsigned_number(d, 10);
}

/// A symbol whose trimmed text is a decimal number after `-` denotes the
/// negated number whenever the result fits in an `i32`.
pub proof fn lemma_negative_decimal_constant(t: String, p: String, d: Seq<char>)
    requires
        trimmed(t@) == "-"@ + d,
        all_digits(d, 10),
        digits_number(d, 10) <= 0x8000_0000,
    ensures
        const_value(SNode::Sym(t, p)) == Ok::<i32, Seq<char>>((0 - digits_number(d, 10)) as i32),
{
    reveal_strlit("-");
    reveal_strlit("0x");
    reveal_strlit("0X");
    reveal_strlit("-0x");
    reveal_strlit("-0X");
    let x = "-"@ + d;
    assert(x[0] == '-');
    lemma_without_plus_signs(0, x);
    assert(plus_signs(0) + x =~= x);
    assert(x.subrange(0, 2)[0] == '-');
    assert(x.subrange(0, 2) != "0x"@);
    assert(x.subrange(0, 2) != "0X"@);
    if x.len() >= 3 {
        assert(digit_value(d[1]) < 10);
        assert(x.subrange(0, 3)[2] == d[1]);
        assert(x.subrange(0, 3) != "-0x"@);
        assert(x.subrange(0, 3) != "-0X"@);
    }
    assert(x.drop_first() =~= d);
    lemma_unsigned_number(d, 10);
}

/// Whether `item` is a non-empty list headed by the symbol `kw`.
pub open spec fn headed_by(item: SNode, kw: Seq<char>) -> bool {
    match item {
        SNode::List(inner, _) => inner@.len() > 0 && symbol_text(inner@[0]) == Some(kw),
        _ => false,
    }
}

/// The parts of a list node after its head.
pub open spec fn tail_items(item: SNode) -> Seq<SNode> {
    match item {
        SNode::List(inner, _) => if inner@.len() > 0 {
            inner@.subrange(1, inner@.len() as int)
        } else {
            Seq::empty()
        },
        _ => Seq::empty(),
    }
}

/// The parts of a list node.
pub open spec fn list_items(item: SNode) -> Seq<SNode> {
    match item {
        SNode::List(inner, _) => inner@,
        _ => Seq::empty(),
    }
}

/// The error that one item of a function declaration meets, whatever came
/// before it:
/// - an atom or `()`: unexpected token;
/// - `(export ..)` with other than one part, or whose part is not a symbol;
/// - `(param ..)` with other than two parts, a name or type that is not a
///   symbol, or a type other than `i32`;
/// - `(result ..)` with other than one part, whose part is not a symbol or
///   is a type other than `i32`;
/// - any other list: the error of reading it as an instruction.
pub open spec fn func_item_error(item: SNode) -> Option<Seq<char>> {
    let u = list_items(item);
    if !(item is List) || u.len() == 0 {
        Some("Unexpected token in function definition: "@ + shown(item))
    } else if headed_by(item, "export"@) {
        if u.len() != 2 {
            Some("Malformed export declaration: "@ + shown(item))
        } else if symbol_text(u[1]) is None {
            Some("Expected export name string, got "@ + shown(u[1]))
        } else {
            None
        }
    } else if headed_by(item, "param"@) {
        if u.len() != 3 {
            Some("Malformed param declaration: "@ + shown(item))
        } else if symbol_text(u[1]) is None {
            Some("Expected param name, got "@ + shown(u[1]))
        } else if symbol_text(u[2]) is None {
            Some("Expected param type, got "@ + shown(u[2]))
        } else if symbol_text(u[2])->Some_0 != "i32"@ {
            Some("Unsupported param type: "@ + symbol_text(u[2])->Some_0)
        } else {
            None
        }
    } else if headed_by(item, "result"@) {
        if u.len() != 2 {
            Some("Malformed result declaration: "@ + shown(item))
        } else if symbol_text(u[1]) is None {
            Some("Expected result type, got "@ + shown(u[1]))
        } else if symbol_text(u[1])->Some_0 != "i32"@ {
            Some("Unsupported result type: "@ + symbol_text(u[1])->Some_0)
        } else {
            None
        }
    } else {
        match expr_syntax(item) {
            Err(e) => Some(e),
            Ok(_) => None,
        }
    }
}

/// Whether `item` is an instruction of the body rather than a declaration.
pub open spec fn is_body_item(item: SNode) -> bool {
    !headed_by(item, "export"@) && !headed_by(item, "param"@) && !headed_by(item, "result"@)
}

/// The error of the first item of `t` that meets one.
pub open spec fn first_func_error(t: Seq<SNode>) -> Option<Seq<char>>
    decreases t.len(),
{
    if t.len() == 0 {
        None
    } else {
        match first_func_error(t.drop_last()) {
            Some(e) => Some(e),
            None => func_item_error(t.last()),
        }
    }
}

/// The export name of the last `(export ..)` item of `t`, unquoted.
pub open spec fn last_export(t: Seq<SNode>) -> Option<Seq<char>>
    decreases t.len(),
{
    if t.len() == 0 {
        None
    } else if headed_by(t.last(), "export"@) {
        Some(unquoted(symbol_text(list_items(t.last())[1])->Some_0))
    } else {
        last_export(t.drop_last())
    }
}

/// The names of the `(param ..)` items of `t`, in order.
pub open spec fn param_names(t: Seq<SNode>) -> Seq<Seq<char>>
    decreases t.len(),
{
    if t.len() == 0 {
        Seq::empty()
    } else if headed_by(t.last(), "param"@) {
        param_names(t.drop_last()).push(symbol_text(list_items(t.last())[1])->Some_0)
    } else {
        param_names(t.drop_last())
    }
}

/// Whether `t` has a `(result ..)` item.
pub open spec fn has_result_item(t: Seq<SNode>) -> bool {
    exists|i: int| 0 <= i < t.len() && headed_by(#[trigger] t[i], "result"@)
}

/// The instructions of the body items of `t`, in order.
pub open spec fn body_exprs(t: Seq<SNode>) -> Seq<ExprV>
    decreases t.len(),
{
    if t.len() == 0 {
        Seq::empty()
    } else if is_body_item(t.last()) {
        body_exprs(t.drop_last()).push(expr_syntax(t.last())->Ok_0)
    } else {
        body_exprs(t.drop_last())
    }
}

/// The declaration items of a `(func ..)` list: after `func` and its
/// `$name`, if it has one.
pub open spec fn func_items(s: Seq<SNode>) -> Seq<SNode> {
    let start: int = if func_name_token(s) is Some {
        2
    } else {
        1
    };
    s.subrange(start, s.len() as int)
}

proof fn lemma_func_step(p: FuncParts, item: SNode)
    ensures
        match func_item_error(item) {
            Some(e) => func_step(p, item) == Err::<FuncParts, Seq<char>>(e),
            None => func_step(p, item) == Ok::<FuncParts, Seq<char>>(
                FuncParts {
                    export_name: if headed_by(item, "export"@) {
                        Some(unquoted(symbol_text(list_items(item)[1])->Some_0))
                    } else {
                        p.export_name
                    },
                    params: if headed_by(item, "param"@) {
                        p.params.push(symbol_text(list_items(item)[1])->Some_0)
                    } else {
                        p.params
                    },
                    result: if headed_by(item, "result"@) {
                        Some("i32"@)
                    } else {
                        p.result
                    },
                    body: if is_body_item(item) {
                        p.body.push(expr_syntax(item)->Ok_0)
                    } else {
                        p.body
                    },
                },
            ),
        },
{
    reveal_strlit("export");
    reveal_strlit("param");
    reveal_strlit("result");
    assert("export"@[0] == 'e' && "param"@[0] == 'p' && "result"@[0] == 'r');
    assert("export"@ != "param"@ && "export"@ != "result"@ && "param"@ != "result"@);
    let u = list_items(item);
    if item is List && u.len() > 0 {
        assert(headed_by(item, "export"@) ==> !headed_by(item, "param"@) && !headed_by(
            item,
            "result"@,
        ));
        assert(headed_by(item, "param"@) ==> !headed_by(item, "result"@));
    }
}

proof fn lemma_func_parts(t: Seq<SNode>)
    ensures
        match first_func_error(t) {
            Some(e) => func_parts(t) == Err::<FuncParts, Seq<char>>(e),
            None => func_parts(t) == Ok::<FuncParts, Seq<char>>(
                FuncParts {
                    export_name: last_export(t),
                    params: param_names(t),
                    result: if has_result_item(t) {
                        Some("i32"@)
                    } else {
                        None
                    },
                    body: body_exprs(t),
                },
            ),
        },
    decreases t.len(),
{
    if t.len() > 0 {
        let d = t.drop_last();
        lemma_func_parts(d);
        if first_func_error(d) is None {
            lemma_func_step(func_parts(d)->Ok_0, t.last());
            if has_result_item(t) && !headed_by(t.last(), "result"@) {
                let i = choose|i: int| 0 <= i < t.len() && headed_by(#[trigger] t[i], "result"@);
                assert(d[i] == t[i]);
            }
            if has_result_item(d) {
                let i = choose|i: int| 0 <= i < d.len() && headed_by(#[trigger] d[i], "result"@);
                assert(t[i] == d[i]);
            }
            if headed_by(t.last(), "result"@) {
                assert(headed_by(t[t.len() - 1], "result"@));
            }
        }
    }
}

/// What a function declaration gives, item by item. The items after `func`
/// and its `$name` are read in order, and the first one in error gives the
/// error. Without one, a function with neither a `$name` nor an export has
/// no name. Otherwise the function's export name is that of its last
/// `(export ..)` item, unquoted; its parameters are the names of its
/// `(param ..)` items and its body the instructions of its other items, each
/// in order; it has the result `i32` exactly when it has a `(result ..)`
/// item; and it is named by its `$name`, else by `$` and its export name.
pub proof fn lemma_func_syntax_meaning(s: Seq<SNode>)
    requires
        s.len() > 0,
    ensures
        ({
            let t = func_items(s);
            match first_func_error(t) {
                Some(e) => func_syntax(s) == Err::<(FunctionV, Option<Seq<char>>), Seq<char>>(e),
                None => {
                    let name = match func_name_token(s) {
                        Some(n) => Some(n),
                        None => match last_export(t) {
                            Some(x) => Some("$"@ + x),
                            None => None,
                        },
                    };
                    match name {
                        None => func_syntax(s) == Err::<(FunctionV, Option<Seq<char>>), Seq<char>>(
                            "Function must have a name or an export declaration"@,
                        ),
                        Some(n) => func_syntax(s) == Ok::<
                            (FunctionV, Option<Seq<char>>),
                            Seq<char>,
                        >(
                            (
                                FunctionV {
                                    name: n,
                                    export_name: last_export(t),
                                    params: param_names(t),
                                    result: if has_result_item(t) {
                                        Some("i32"@)
                                    } else {
                                        None
                                    },
                                    body: body_exprs(t),
                                },
                                last_export(t),
                            ),
                        ),
                    }
                },
            }
        }),
{
    lemma_func_parts(func_items(s));
}

/// Whether an item of an `if` is an atom or `()`.
pub open spec fn if_item_bad(item: SNode) -> bool {
    !(item is List) || list_items(item).len() == 0
}

/// Whether an item of an `if` is its condition: a non-empty list headed by
/// none of `result`, `then` and `else`.
pub open spec fn is_cond_item(item: SNode) -> bool {
    !if_item_bad(item) && !headed_by(item, "result"@) && !headed_by(item, "then"@) && !headed_by(
        item,
        "else"@,
    )
}

/// The number of condition items of `t`.
pub open spec fn cond_count(t: Seq<SNode>) -> nat
    decreases t.len(),
{
    if t.len() == 0 {
        0
    } else if is_cond_item(t.last()) {
        cond_count(t.drop_last()) + 1
    } else {
        cond_count(t.drop_last())
    }
}

/// Whether the part of an `if` item reads: the instructions of a `(then ..)`
/// or `(else ..)` clause, or the condition.
pub open spec fn if_item_reads(item: SNode) -> bool {
    if headed_by(item, "then"@) || headed_by(item, "else"@) {
        exprs_syntax(tail_items(item)) is Ok
    } else if is_cond_item(item) {
        expr_syntax(item) is Ok
    } else {
        true
    }
}

/// Whether the items of an `if` read: none is an atom or `()`, there is at
/// most one condition, and every part reads.
pub open spec fn if_items_ok(t: Seq<SNode>) -> bool {
    &&& forall|i: int| 0 <= i < t.len() ==> !if_item_bad(#[trigger] t[i]) && if_item_reads(t[i])
    &&& cond_count(t) <= 1
}

/// The condition that the condition item of `t` denotes, if there is one.
pub open spec fn if_condition(t: Seq<SNode>) -> Option<ExprV>
    decreases t.len(),
{
    if t.len() == 0 {
        None
    } else if is_cond_item(t.last()) {
        Some(expr_syntax(t.last())->Ok_0)
    } else {
        if_condition(t.drop_last())
    }
}

/// The instructions of the clauses headed by `kw` among `t`, joined in
/// order.
pub open spec fn clause_exprs(t: Seq<SNode>, kw: Seq<char>) -> Seq<ExprV>
    decreases t.len(),
{
    if t.len() == 0 {
        Seq::empty()
    } else if headed_by(t.last(), kw) {
        clause_exprs(t.drop_last(), kw) + exprs_syntax(tail_items(t.last()))->Ok_0
    } else {
        clause_exprs(t.drop_last(), kw)
    }
}

proof fn lemma_keywords_differ()
    ensures
        "result"@ != "then"@,
        "result"@ != "else"@,
        "then"@ != "else"@,
{
    reveal_strlit("result");
    reveal_strlit("then");
    reveal_strlit("else");
    assert("result"@[0] == 'r' && "then"@[0] == 't' && "else"@[0] == 'e');
}

proof fn lemma_if_items_prefix(t: Seq<SNode>)
    requires
        t.len() > 0,
    ensures
        if_items_ok(t) <==> (if_items_ok(t.drop_last()) && !if_item_bad(t.last()) && if_item_reads(
            t.last(),
        ) && cond_count(t) <= 1),
{
    let d = t.drop_last();
    if if_items_ok(t) {
        assert forall|i: int| 0 <= i < d.len() implies !if_item_bad(#[trigger] d[i]) && if_item_reads(
            d[i],
        ) by {
            assert(d[i] == t[i]);
        }
        assert(t[t.len() - 1] == t.last());
    }
    if if_items_ok(d) && !if_item_bad(t.last()) && if_item_reads(t.last()) && cond_count(t) <= 1 {
        assert forall|i: int| 0 <= i < t.len() implies !if_item_bad(#[trigger] t[i]) && if_item_reads(
            t[i],
        ) by {
            if i < d.len() {
                assert(d[i] == t[i]);
            }
        }
    }
}

proof fn lemma_if_syntax(t: Seq<SNode>)
    ensures
        if_condition(t) is Some <==> cond_count(t) > 0,
        if_syntax(t) is Ok <==> if_items_ok(t),
        if_items_ok(t) ==> if_syntax(t) == Ok::<IfParts, Seq<char>>(
            (if_condition(t), clause_exprs(t, "then"@), clause_exprs(t, "else"@)),
        ),
    decreases t.len(),
{
    lemma_keywords_differ();
    if t.len() > 0 {
        let d = t.drop_last();
        lemma_if_syntax(d);
        lemma_if_items_prefix(t);
    } else {
        assert(if_items_ok(t));
    }
}

/// What an `if` gives, item by item. Its items after `if` read exactly when
/// none is an atom or `()`, there is at most one condition (a list headed
/// by none of `result`, `then` and `else`), and every part reads: the
/// instructions of each `(then ..)` and `(else ..)` clause, and the
/// condition. The `if` then denotes an expression exactly when it also has
/// a condition; its `then` and `else` branches are the instructions of its
/// `(then ..)` and `(else ..)` clauses, joined in order, and `(result ..)`
/// items are skipped.
pub proof fn lemma_if_syntax_meaning(s: Seq<SNode>)
    requires
        s.len() > 0,
    ensures
        ({
            let t = s.subrange(1, s.len() as int);
            &&& if_syntax(t) is Ok <==> if_items_ok(t)
            &&& if_items_ok(t) ==> if_syntax(t) == Ok::<IfParts, Seq<char>>(
                (if_condition(t), clause_exprs(t, "then"@), clause_exprs(t, "else"@)),
            )
            &&& if_expr(s) is Ok <==> (if_items_ok(t) && cond_count(t) == 1)
            &&& (if_items_ok(t) && cond_count(t) == 1) ==> if_expr(s) == Ok::<ExprV, Seq<char>>(
                ExprV::If {
                    condition: Box::new(if_condition(t)->Some_0),
                    then_branch: clause_exprs(t, "then"@),
                    else_branch: clause_exprs(t, "else"@),
                },
            )
        }),
{
    lemma_if_syntax(s.subrange(1, s.len() as int));
}

/// The names of the instructions differ from one another.
proof fn lemma_instruction_names_differ()
    ensures
        "i32.const"@ != "local.get"@,
        "i32.const"@ != "i32.add"@,
        "i32.const"@ != "i32.sub"@,
        "i32.const"@ != "i32.mul"@,
        "i32.const"@ != "i32.rem_s"@,
        "i32.const"@ != "i32.lt_s"@,
        "local.get"@ != "i32.add"@,
        "local.get"@ != "i32.sub"@,
        "local.get"@ != "i32.mul"@,
        "local.get"@ != "i32.rem_s"@,
        "local.get"@ != "i32.lt_s"@,
        "i32.add"@ != "i32.sub"@,
        "i32.add"@ != "i32.mul"@,
        "i32.add"@ != "i32.rem_s"@,
        "i32.add"@ != "i32.lt_s"@,
        "i32.sub"@ != "i32.mul"@,
        "i32.sub"@ != "i32.rem_s"@,
        "i32.sub"@ != "i32.lt_s"@,
        "i32.mul"@ != "i32.rem_s"@,
        "i32.mul"@ != "i32.lt_s"@,
        "i32.rem_s"@ != "i32.lt_s"@,
{
    reveal_strlit("i32.const");
    reveal_strlit("local.get");
    reveal_strlit("i32.add");
    reveal_strlit("i32.sub");
    reveal_strlit("i32.mul");
    reveal_strlit("i32.rem_s");
    reveal_strlit("i32.lt_s");
    assert("i32.const"@[4] == 'c');
    assert("local.get"@[0] == 'l');
    assert("i32.add"@[0] == 'i' && "i32.add"@[4] == 'a');
    assert("i32.sub"@[0] == 'i' && "i32.sub"@[4] == 's');
    assert("i32.mul"@[0] == 'i' && "i32.mul"@[4] == 'm');
    assert("i32.rem_s"@[0] == 'i' && "i32.rem_s"@[4] == 'r');
    assert("i32.lt_s"@[0] == 'i' && "i32.lt_s"@[4] == 'l');
}

/// An integer atom as the operand of `i32.const` denotes the integer it
/// writes, truncated to 32 bits: the constant has the same low 32 bits, and
/// is that integer itself whenever it fits in an `i32`.
pub proof fn lemma_int_constant(n: SNode, v: i64, p: String)
    requires
        n is List,
        list_items(n).len() == 2,
        symbol_text(list_items(n)[0]) == Some("i32.const"@),
        list_items(n)[1] == SNode::Int(v, p),
    ensures
        expr_syntax(n) is Ok,
        expr_syntax(n)->Ok_0 is Const,
        (expr_syntax(n)->Ok_0)->Const_0 as u32 == v as u32,
        i32::MIN <= v <= i32::MAX ==> (expr_syntax(n)->Ok_0)->Const_0 == v,
{
    lemma_int_constant_value(v, p);
}

/// A two-operand instruction `(op A B)` denotes the operation `op` applied
/// to what `A` and `B` denote, in that order; an error of `A`, else of `B`,
/// is its error.
pub proof fn lemma_binary_syntax(n: SNode, op: Seq<char>)
    requires
        n is List,
        list_items(n).len() == 3,
        symbol_text(list_items(n)[0]) == Some(op),
        op == "i32.add"@ || op == "i32.sub"@ || op == "i32.mul"@ || op == "i32.rem_s"@ || op
            == "i32.lt_s"@,
    ensures
        ({
            let a = expr_syntax(list_items(n)[1]);
            let b = expr_syntax(list_items(n)[2]);
            match (a, b) {
                (Err(e), _) => expr_syntax(n) == Err::<ExprV, Seq<char>>(e),
                (Ok(_), Err(e)) => expr_syntax(n) == Err::<ExprV, Seq<char>>(e),
                (Ok(x), Ok(y)) => {
                    &&& op == "i32.add"@ ==> expr_syntax(n) == Ok::<ExprV, Seq<char>>(
                        ExprV::Add(Box::new(x), Box::new(y)),
                    )
                    &&& op == "i32.sub"@ ==> expr_syntax(n) == Ok::<ExprV, Seq<char>>(
                        ExprV::Sub(Box::new(x), Box::new(y)),
                    )
                    &&& op == "i32.mul"@ ==> expr_syntax(n) == Ok::<ExprV, Seq<char>>(
                        ExprV::Mul(Box::new(x), Box::new(y)),
                    )
                    &&& op == "i32.rem_s"@ ==> expr_syntax(n) == Ok::<ExprV, Seq<char>>(
                        ExprV::RemS(Box::new(x), Box::new(y)),
                    )
                    &&& op == "i32.lt_s"@ ==> expr_syntax(n) == Ok::<ExprV, Seq<char>>(
                        ExprV::LtS(Box::new(x), Box::new(y)),
                    )
                },
            }
        }),
{
    lemma_instruction_names_differ();
}

/// Whether `s[k]` is the first of the nodes `s` that denotes no
/// expression.
pub open spec fn first_syntax_error(s: Seq<SNode>, k: int) -> bool {
    &&& 0 <= k < s.len()
    &&& expr_syntax(s[k]) is Err
    &&& forall|j: int| 0 <= j < k ==> #[trigger] expr_syntax(s[j]) is Ok
}

/// A sequence of nodes denotes expressions exactly when each node does, and
/// then one for each node, in order; otherwise the error of the first node
/// that denotes none is its error.
pub proof fn lemma_exprs_syntax_meaning(s: Seq<SNode>)
    ensures
        exprs_syntax(s) is Ok <==> forall|k: int| 0 <= k < s.len() ==> #[trigger] expr_syntax(s[k]) is Ok,
        exprs_syntax(s) matches Ok(es) ==> es.len() == s.len() && forall|k: int|
            0 <= k < s.len() ==> es[k] == (#[trigger] expr_syntax(s[k]))->Ok_0,
        forall|k: int|
            #[trigger] first_syntax_error(s, k) ==> exprs_syntax(s) == Err::<Seq<ExprV>, Seq<char>>(
                expr_syntax(s[k])->Err_0,
            ),
    decreases s.len(),
{
    if s.len() > 0 {
        let d = s.drop_last();
        let n = s.len() - 1;
        lemma_exprs_syntax_meaning(d);
        assert forall|k: int| 0 <= k < n implies d[k] == s[k] by {}
        assert(s.last() == s[n]);
        assert forall|k: int| #[trigger] first_syntax_error(s, k) implies exprs_syntax(s) == Err::<
            Seq<ExprV>,
            Seq<char>,
        >(expr_syntax(s[k])->Err_0) by {
            if k < n {
                assert(first_syntax_error(d, k));
            } else {
                assert forall|j: int| 0 <= j < d.len() implies #[trigger] expr_syntax(d[j]) is Ok by {
                    assert(expr_syntax(s[j]) is Ok);
                }
            }
        }
        if exprs_syntax(d) is Err {
            let k0 = choose|k: int| 0 <= k < d.len() && !(#[trigger] expr_syntax(d[k]) is Ok);
            assert(!(expr_syntax(s[k0]) is Ok));
        } else if expr_syntax(s[n]) is Err {
            assert(!(expr_syntax(s[n]) is Ok));
        } else {
            assert forall|k: int| 0 <= k < s.len() implies #[trigger] expr_syntax(s[k]) is Ok by {
                if k < n {
                    assert(expr_syntax(d[k]) is Ok);
                }
            }
        }
    }
}

/// The name of a call differs from those of the other instructions.
proof fn lemma_call_name_differs()
    ensures
        "call"@ != "i32.const"@,
        "call"@ != "local.get"@,
        "call"@ != "i32.add"@,
        "call"@ != "i32.sub"@,
        "call"@ != "i32.mul"@,
        "call"@ != "i32.rem_s"@,
        "call"@ != "i32.lt_s"@,
{
    reveal_strlit("call");
    reveal_strlit("i32.const");
    reveal_strlit("local.get");
    reveal_strlit("i32.add");
    reveal_strlit("i32.sub");
    reveal_strlit("i32.mul");
    reveal_strlit("i32.rem_s");
    reveal_strlit("i32.lt_s");
    assert("call"@.len() == 4);
    assert("i32.const"@.len() == 9 && "local.get"@.len() == 9 && "i32.rem_s"@.len() == 9);
    assert("i32.add"@.len() == 7 && "i32.sub"@.len() == 7 && "i32.mul"@.len() == 7);
    assert("i32.lt_s"@.len() == 8);
}

/// `(local.get X)` reads the local named exactly by the symbol `X`, and
/// `(call F A ..)` calls the function named exactly by the symbol `F` with
/// the arguments that `A ..` denote, in order, or meets their error.
pub proof fn lemma_local_call_syntax(n: SNode)
    requires
        n is List,
        list_items(n).len() >= 2,
        symbol_text(list_items(n)[1]) is Some,
    ensures
        ({
            let u = list_items(n);
            let name = symbol_text(u[1])->Some_0;
            &&& symbol_text(u[0]) == Some("local.get"@) && u.len() == 2 ==> expr_syntax(n) == Ok::<
                ExprV,
                Seq<char>,
            >(ExprV::LocalGet(name))
            &&& symbol_text(u[0]) == Some("call"@) ==> expr_syntax(n) == match exprs_syntax(
                u.subrange(2, u.len() as int),
            ) {
                Ok(args) => Ok::<ExprV, Seq<char>>(ExprV::Call { func_name: name, args }),
                Err(e) => Err(e),
            }
        }),
{
    lemma_instruction_names_differ();
    lemma_call_name_differs();
}

} // verus!
