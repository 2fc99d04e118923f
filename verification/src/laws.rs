//! Properties of the library as a whole: what the module tables keep, and
//! what every parsed module satisfies.

use vstd::prelude::*;

use crate::ast::{
    export_index, export_position, func_index, func_position, insert_export, insert_func,
    lemma_export_index, lemma_export_position, lemma_func_index, lemma_func_position,
    lookup_export, lookup_func, FunctionV, ModuleV,
};
use crate::eval::{
    apply_binary, binary_outcome, eval_args, eval_block, eval_expr, invocation, invoke_target,
    msg_arg_count, msg_call_arity, msg_function_missing, msg_not_found, msg_undefined_function,
    msg_unknown_local, rem_s, local_value, terminates, finishes, lemma_finishes,
};
use crate::ast::ExprV;
use crate::parse::{func_syntax, module_items, module_step, module_syntax, wat_syntax};
use crate::sexpr::{sexp_reading, SNode};
use crate::text::{lemma_text_lt_order, text_lt};

verus! {

/// Whether some function of `fs` is named `name`.
pub open spec fn has_func(fs: Seq<FunctionV>, name: Seq<char>) -> bool {
    exists|i: int| 0 <= i < fs.len() && #[trigger] fs[i].name == name
}

/// A function table finds a function exactly where one has that name.
proof fn lemma_func_index_some(fs: Seq<FunctionV>, name: Seq<char>)
    ensures
        func_index(fs, name) is Some <==> has_func(fs, name),
{
    lemma_func_index(fs, name);
    if let Some(i) = func_index(fs, name) {
        assert(fs[i].name == name);
    }
}

/// Reading a function table right after entering `f` gives `f` under its
/// name, and what it gave before under every other name.
pub proof fn lemma_insert_func_lookup(fs: Seq<FunctionV>, f: FunctionV, name: Seq<char>)
    ensures
        lookup_func(insert_func(fs, f), f.name) == Some(f),
        name != f.name ==> lookup_func(insert_func(fs, f), name) == lookup_func(fs, name),
{
    let t = insert_func(fs, f);
    lemma_func_index(fs, f.name);
    lemma_func_index(fs, name);
    lemma_func_index(t, f.name);
    lemma_func_index(t, name);
    match func_index(fs, f.name) {
        Some(k) => {
            assert(t[k].name == f.name);
            if name != f.name {
                match func_index(fs, name) {
                    Some(k2) => {
                        assert(t[k2].name == name);
                        if let Some(j) = func_index(t, name) {
                            assert(t[j].name == name);
                            if j < k2 {
                                assert(fs[j].name == name);
                            }
                        }
                    },
                    None => {
                        if let Some(j) = func_index(t, name) {
                            assert(t[j].name == name);
                            assert(fs[j].name == name);
                        }
                    },
                }
            }
        },
        None => {
            let p = func_position(fs, f.name);
            lemma_func_position(fs, f.name);
            fs.insert_ensures(p, f);
            assert(t[p].name == f.name);
            if let Some(j) = func_index(t, f.name) {
                if j < p {
                    assert(fs[j].name == f.name);
                } else if j > p {
                    assert(t[p].name == f.name);
                }
            }
            if name != f.name {
                match func_index(fs, name) {
                    Some(k) => {
                        let k2 = if k < p {
                            k
                        } else {
                            k + 1
                        };
                        assert(t[k2] == fs[k]);
                        if let Some(j) = func_index(t, name) {
                            assert(t[j].name == name);
                            if j < k2 {
                                if j < p {
                                    assert(fs[j].name == name);
                                } else if j > p {
                                    assert(fs[j - 1].name == name);
                                }
                            }
                        }
                    },
                    None => {
                        if let Some(j) = func_index(t, name) {
                            assert(t[j].name == name);
                            if j < p {
                                assert(fs[j].name == name);
                            } else if j > p {
                                assert(fs[j - 1].name == name);
                            }
                        }
                    },
                }
            }
        },
    }
}

/// Reading an export table right after `name` is made to designate `target`
/// gives `target` under `name`, and what it gave before under every other
/// name.
pub proof fn lemma_insert_export_lookup(
    es: Seq<(Seq<char>, Seq<char>)>,
    name: Seq<char>,
    target: Seq<char>,
    other: Seq<char>,
)
    ensures
        lookup_export(insert_export(es, name, target), name) == Some(target),
        other != name ==> lookup_export(insert_export(es, name, target), other) == lookup_export(
            es,
            other,
        ),
{
    let t = insert_export(es, name, target);
    lemma_export_index(es, name);
    lemma_export_index(es, other);
    lemma_export_index(t, name);
    lemma_export_index(t, other);
    match export_index(es, name) {
        Some(k) => {
            assert(t[k].0 == name);
            if other != name {
                match export_index(es, other) {
                    Some(k2) => {
                        assert(t[k2].0 == other);
                        if let Some(j) = export_index(t, other) {
                            assert(t[j].0 == other);
                            if j < k2 {
                                assert(es[j].0 == other);
                            }
                        }
                    },
                    None => {
                        if let Some(j) = export_index(t, other) {
                            assert(t[j].0 == other);
                            assert(es[j].0 == other);
                        }
                    },
                }
            }
        },
        None => {
            let p = export_position(es, name);
            lemma_export_position(es, name);
            es.insert_ensures(p, (name, target));
            assert(t[p].0 == name);
            if let Some(j) = export_index(t, name) {
                if j < p {
                    assert(es[j].0 == name);
                } else if j > p {
                    assert(t[p].0 == name);
                }
            }
            if other != name {
                match export_index(es, other) {
                    Some(k) => {
                        let k2 = if k < p {
                            k
                        } else {
                            k + 1
                        };
                        assert(t[k2] == es[k]);
                        if let Some(j) = export_index(t, other) {
                            assert(t[j].0 == other);
                            if j < k2 {
                                if j < p {
                                    assert(es[j].0 == other);
                                } else if j > p {
                                    assert(es[j - 1].0 == other);
                                }
                            }
                        }
                    },
                    None => {
                        if let Some(j) = export_index(t, other) {
                            assert(t[j].0 == other);
                            if j < p {
                                assert(es[j].0 == other);
                            } else if j > p {
                                assert(es[j - 1].0 == other);
                            }
                        }
                    },
                }
            }
        },
    }
}

/// Whether the functions are in strictly increasing [`text_lt`] order of
/// names.
pub open spec fn funcs_sorted(fs: Seq<FunctionV>) -> bool {
    forall|i: int, j: int| 0 <= i < j < fs.len() ==> text_lt(#[trigger] fs[i].name, #[trigger] fs[j].name)
}

/// Whether the exports are in strictly increasing order of names.
pub open spec fn exports_sorted(es: Seq<(Seq<char>, Seq<char>)>) -> bool {
    forall|i: int, j: int| 0 <= i < j < es.len() ==> text_lt(#[trigger] es[i].0, #[trigger] es[j].0)
}

proof fn lemma_insert_func_sorted(fs: Seq<FunctionV>, f: FunctionV)
    requires
        funcs_sorted(fs),
    ensures
        funcs_sorted(insert_func(fs, f)),
{
    let t = insert_func(fs, f);
    lemma_func_index(fs, f.name);
    match func_index(fs, f.name) {
        Some(k) => {
            assert forall|i: int, j: int| 0 <= i < j < t.len() implies text_lt(
                #[trigger] t[i].name,
                #[trigger] t[j].name,
            ) by {
                assert(t[i].name == fs[i].name);
                assert(t[j].name == fs[j].name);
            }
        },
        None => {
            let p = func_position(fs, f.name);
            lemma_func_position(fs, f.name);
            fs.insert_ensures(p, f);
            if p < fs.len() {
                lemma_text_lt_order(fs[p].name, f.name, f.name);
            }
            assert forall|i: int, j: int| 0 <= i < j < t.len() implies text_lt(
                #[trigger] t[i].name,
                #[trigger] t[j].name,
            ) by {
                if i < p && j < p {
                    assert(text_lt(fs[i].name, fs[j].name));
                } else if i < p && j == p {
                } else if i < p {
                    assert(t[j] == fs[j - 1]);
                    assert(text_lt(fs[i].name, fs[j - 1].name));
                } else if i == p {
                    assert(t[j] == fs[j - 1]);
                    if j - 1 > p {
                        assert(text_lt(fs[p].name, fs[j - 1].name));
                        lemma_text_lt_order(f.name, fs[p].name, fs[j - 1].name);
                    }
                } else {
                    assert(t[i] == fs[i - 1]);
                    assert(t[j] == fs[j - 1]);
                    assert(text_lt(fs[i - 1].name, fs[j - 1].name));
                }
            }
        },
    }
}

proof fn lemma_insert_export_sorted(es: Seq<(Seq<char>, Seq<char>)>, name: Seq<char>, target: Seq<char>)
    requires
        exports_sorted(es),
    ensures
        exports_sorted(insert_export(es, name, target)),
{
    let t = insert_export(es, name, target);
    lemma_export_index(es, name);
    match export_index(es, name) {
        Some(k) => {
            assert forall|i: int, j: int| 0 <= i < j < t.len() implies text_lt(
                #[trigger] t[i].0,
                #[trigger] t[j].0,
            ) by {
                assert(t[i].0 == es[i].0);
                assert(t[j].0 == es[j].0);
            }
        },
        None => {
            let p = export_position(es, name);
            lemma_export_position(es, name);
            es.insert_ensures(p, (name, target));
            if p < es.len() {
                lemma_text_lt_order(es[p].0, name, name);
            }
            assert forall|i: int, j: int| 0 <= i < j < t.len() implies text_lt(
                #[trigger] t[i].0,
                #[trigger] t[j].0,
            ) by {
                if i < p && j < p {
                    assert(text_lt(es[i].0, es[j].0));
                } else if i < p && j == p {
                } else if i < p {
                    assert(t[j] == es[j - 1]);
                    assert(text_lt(es[i].0, es[j - 1].0));
                } else if i == p {
                    assert(t[j] == es[j - 1]);
                    if j - 1 > p {
                        assert(text_lt(es[p].0, es[j - 1].0));
                        lemma_text_lt_order(name, es[p].0, es[j - 1].0);
                    }
                } else {
                    assert(t[i] == es[i - 1]);
                    assert(t[j] == es[j - 1]);
                    assert(text_lt(es[i - 1].0, es[j - 1].0));
                }
            }
        },
    }
}

/// The shape of every module the parser builds: its functions and its
/// exports are each in strictly increasing order of names, so no two share a
/// name, and every export designates a function of the module.
pub open spec fn module_wf(m: ModuleV) -> bool {
    &&& funcs_sorted(m.funcs)
    &&& exports_sorted(m.exports)
    &&& forall|i: int, j: int|
        0 <= i < j < m.funcs.len() ==> #[trigger] m.funcs[i].name != #[trigger] m.funcs[j].name
    &&& forall|i: int, j: int|
        0 <= i < j < m.exports.len() ==> #[trigger] m.exports[i].0 != #[trigger] m.exports[j].0
    &&& forall|i: int| 0 <= i < m.exports.len() ==> has_func(m.funcs, #[trigger] m.exports[i].1)
}

proof fn lemma_insert_func_names(fs: Seq<FunctionV>, f: FunctionV)
    ensures
        forall|n: Seq<char>| has_func(fs, n) ==> has_func(insert_func(fs, f), n),
        has_func(insert_func(fs, f), f.name),
        (forall|i: int, j: int| 0 <= i < j < fs.len() ==> #[trigger] fs[i].name != #[trigger] fs[j].name)
            ==> (forall|i: int, j: int|
            0 <= i < j < insert_func(fs, f).len() ==> #[trigger] insert_func(fs, f)[i].name
                != #[trigger] insert_func(fs, f)[j].name),
{
    let t = insert_func(fs, f);
    lemma_func_index(fs, f.name);
    match func_index(fs, f.name) {
        Some(k) => {
            assert(t[k].name == f.name);
            assert forall|n: Seq<char>| has_func(fs, n) implies has_func(t, n) by {
                let i = choose|i: int| 0 <= i < fs.len() && #[trigger] fs[i].name == n;
                assert(t[i].name == n);
            }
        },
        None => {
            let p = func_position(fs, f.name);
            lemma_func_position(fs, f.name);
            fs.insert_ensures(p, f);
            assert(t[p].name == f.name);
            assert forall|n: Seq<char>| has_func(fs, n) implies has_func(t, n) by {
                let i = choose|i: int| 0 <= i < fs.len() && #[trigger] fs[i].name == n;
                if i < p {
                    assert(t[i].name == n);
                } else {
                    assert(t[i + 1].name == n);
                }
            }
            if forall|i: int, j: int| 0 <= i < j < fs.len() ==> #[trigger] fs[i].name != #[trigger] fs[j].name {
                assert forall|i: int, j: int| 0 <= i < j < t.len() implies #[trigger] t[i].name
                    != #[trigger] t[j].name by {
                    if i < p && j < p {
                        assert(fs[i].name != fs[j].name);
                    } else if i < p && j == p {
                        assert(fs[i].name != f.name);
                    } else if i < p {
                        assert(t[j] == fs[j - 1]);
                        assert(fs[i].name != fs[j - 1].name);
                    } else if i == p {
                        assert(t[j] == fs[j - 1]);
                        assert(fs[j - 1].name != f.name);
                    } else {
                        assert(t[i] == fs[i - 1]);
                        assert(t[j] == fs[j - 1]);
                        assert(fs[i - 1].name != fs[j - 1].name);
                    }
                }
            }
        },
    }
}

/// One more module item keeps the shape.
proof fn lemma_module_step_wf(m: ModuleV, item: SNode)
    requires
        module_wf(m),
        module_step(m, item) is Ok,
    ensures
        module_wf(module_step(m, item)->Ok_0),
{
    let m2 = module_step(m, item)->Ok_0;
    if let SNode::List(fl, _) = item {
        let (f, x) = crate::parse::func_syntax(fl@)->Ok_0;
        lemma_insert_func_names(m.funcs, f);
        lemma_insert_func_sorted(m.funcs, f);
        if let Some(xn) = x {
            lemma_insert_export_sorted(m.exports, xn, f.name);
        }
        assert(m2.funcs == insert_func(m.funcs, f));
        match x {
            Some(name) => {
                let es = m.exports;
                let t = insert_export(es, name, f.name);
                assert(m2.exports == t);
                lemma_export_index(es, name);
                match export_index(es, name) {
                    Some(k) => {
                        assert forall|i: int, j: int| 0 <= i < j < t.len() implies #[trigger] t[i].0
                            != #[trigger] t[j].0 by {
                            assert(t[k].0 == es[k].0);
                        }
                        assert forall|i: int| 0 <= i < t.len() implies has_func(
                            m2.funcs,
                            #[trigger] t[i].1,
                        ) by {
                            if i != k {
                                assert(has_func(m.funcs, es[i].1));
                            }
                        }
                    },
                    None => {
                        let p = export_position(es, name);
                        lemma_export_position(es, name);
                        es.insert_ensures(p, (name, f.name));
                        assert forall|i: int, j: int| 0 <= i < j < t.len() implies #[trigger] t[i].0
                            != #[trigger] t[j].0 by {
                            if i < p && j < p {
                                assert(es[i].0 != es[j].0);
                            } else if i < p && j == p {
                                assert(es[i].0 != name);
                            } else if i < p {
                                assert(t[j] == es[j - 1]);
                                assert(es[i].0 != es[j - 1].0);
                            } else if i == p {
                                assert(t[j] == es[j - 1]);
                                assert(es[j - 1].0 != name);
                            } else {
                                assert(t[i] == es[i - 1]);
                                assert(t[j] == es[j - 1]);
                                assert(es[i - 1].0 != es[j - 1].0);
                            }
                        }
                        assert forall|i: int| 0 <= i < t.len() implies has_func(
                            m2.funcs,
                            #[trigger] t[i].1,
                        ) by {
                            if i < p {
                                assert(has_func(m.funcs, es[i].1));
                            } else if i > p {
                                assert(t[i] == es[i - 1]);
                                assert(has_func(m.funcs, es[i - 1].1));
                            }
                        }
                    },
                }
            },
            None => {
                assert(m2.exports == m.exports);
                assert forall|i: int| 0 <= i < m2.exports.len() implies has_func(
                    m2.funcs,
                    #[trigger] m2.exports[i].1,
                ) by {
                    assert(has_func(m.funcs, m.exports[i].1));
                }
            },
        }
    }
}

proof fn lemma_module_items_wf(t: Seq<SNode>)
    requires
        module_items(t) is Ok,
    ensures
        module_wf(module_items(t)->Ok_0),
    decreases t.len(),
{
    if t.len() > 0 {
        lemma_module_items_wf(t.drop_last());
        lemma_module_step_wf(module_items(t.drop_last())->Ok_0, t.last());
    }
}

/// Every module that a `(module ..)` node declares has the shape
/// [`module_wf`]: its functions and exports have distinct names, and its
/// exports designate its functions.
pub proof fn lemma_parsed_module_wf(n: SNode)
    requires
        module_syntax(n) is Ok,
    ensures
        module_wf(module_syntax(n)->Ok_0),
{
    if let SNode::List(l, _) = n {
        lemma_module_items_wf(l@.subrange(1, l@.len() as int));
    }
}

/// In a module read from WAT text, each function is found under its own
/// name, and every name that designates a function (an export, or a
/// function's own name) designates one that the module has: invoking it
/// never meets a missing function.
pub proof fn lemma_parsed_names_resolve(text: Seq<char>, name: Seq<char>)
    requires
        wat_syntax(text) is Ok,
    ensures
        forall|i: int|
            0 <= i < wat_syntax(text)->Ok_0.funcs.len() ==> lookup_func(
                wat_syntax(text)->Ok_0.funcs,
                #[trigger] wat_syntax(text)->Ok_0.funcs[i].name,
            ) == Some(wat_syntax(text)->Ok_0.funcs[i]),
        invoke_target(wat_syntax(text)->Ok_0, name) matches Some(t) ==> lookup_func(
            wat_syntax(text)->Ok_0.funcs,
            t,
        ) is Some,
{
    let n = sexp_reading(text)->Ok_0;
    lemma_parsed_module_wf(n);
    let m = wat_syntax(text)->Ok_0;
    assert forall|i: int| 0 <= i < m.funcs.len() implies lookup_func(
        m.funcs,
        #[trigger] m.funcs[i].name,
    ) == Some(m.funcs[i]) by {
        lemma_func_index(m.funcs, m.funcs[i].name);
        let k = func_index(m.funcs, m.funcs[i].name)->Some_0;
        if k != i {
            if k < i {
                assert(m.funcs[k].name != m.funcs[i].name);
            } else {
                assert(m.funcs[i].name != m.funcs[k].name);
            }
        }
    }
    lemma_export_index(m.exports, name);
    lemma_func_index(m.funcs, name);
    if let Some(t) = invoke_target(m, name) {
        match export_index(m.exports, name) {
            Some(k) => {
                assert(has_func(m.funcs, m.exports[k].1));
                lemma_func_index_some(m.funcs, t);
            },
            None => {
                let k = func_index(m.funcs, name)->Some_0;
                assert(m.funcs[k].name == t);
                lemma_func_index_some(m.funcs, t);
            },
        }
    }
}

/// The function that the last declaration named `name` among the module
/// items `t` declares.
pub open spec fn declared_func(t: Seq<SNode>, name: Seq<char>) -> Option<FunctionV>
    decreases t.len(),
{
    if t.len() == 0 {
        None
    } else {
        match t.last() {
            SNode::List(fl, _) => match func_syntax(fl@) {
                Ok((f, _)) => if f.name == name {
                    Some(f)
                } else {
                    declared_func(t.drop_last(), name)
                },
                Err(_) => declared_func(t.drop_last(), name),
            },
            _ => declared_func(t.drop_last(), name),
        }
    }
}

/// The name of the function that the last declaration exporting `name`
/// among the module items `t` declares.
pub open spec fn declared_export(t: Seq<SNode>, name: Seq<char>) -> Option<Seq<char>>
    decreases t.len(),
{
    if t.len() == 0 {
        None
    } else {
        match t.last() {
            SNode::List(fl, _) => match func_syntax(fl@) {
                Ok((f, Some(x))) => if x == name {
                    Some(f.name)
                } else {
                    declared_export(t.drop_last(), name)
                },
                _ => declared_export(t.drop_last(), name),
            },
            _ => declared_export(t.drop_last(), name),
        }
    }
}

proof fn lemma_module_items_tables(t: Seq<SNode>, name: Seq<char>)
    requires
        module_items(t) is Ok,
    ensures
        lookup_func(module_items(t)->Ok_0.funcs, name) == declared_func(t, name),
        lookup_export(module_items(t)->Ok_0.exports, name) == declared_export(t, name),
    decreases t.len(),
{
    if t.len() > 0 {
        let m = module_items(t.drop_last())->Ok_0;
        lemma_module_items_tables(t.drop_last(), name);
        if let SNode::List(fl, _) = t.last() {
            let (f, x) = func_syntax(fl@)->Ok_0;
            lemma_insert_func_lookup(m.funcs, f, name);
            if let Some(xn) = x {
                lemma_insert_export_lookup(m.exports, xn, f.name, name);
            }
        }
    }
}

/// The items of a `(module ..)` node, after the keyword.
pub open spec fn module_body(n: SNode) -> Seq<SNode> {
    match n {
        SNode::List(l, _) => l@.subrange(1, l@.len() as int),
        _ => Seq::empty(),
    }
}

/// The tables of a parsed module hold exactly what its declarations give,
/// the last declaration of a name winning: under each name, the function
/// that the last declaration of that name declares, and under each export
/// name, the function that the last declaration exporting it declares.
pub proof fn lemma_parsed_tables(n: SNode, name: Seq<char>)
    requires
        module_syntax(n) is Ok,
    ensures
        lookup_func(module_syntax(n)->Ok_0.funcs, name) == declared_func(module_body(n), name),
        lookup_export(module_syntax(n)->Ok_0.exports, name) == declared_export(module_body(n), name),
        has_func(module_syntax(n)->Ok_0.funcs, name) <==> declared_func(module_body(n), name) is Some,
{
    lemma_module_items_tables(module_body(n), name);
    lemma_func_index_some(module_syntax(n)->Ok_0.funcs, name);
}

proof fn lemma_funcs_drop_first(fs: Seq<FunctionV>, n: Seq<char>)
    requires
        funcs_sorted(fs),
        fs.len() > 0,
    ensures
        funcs_sorted(fs.drop_first()),
        lookup_func(fs.drop_first(), n) == (if n == fs[0].name {
            None
        } else {
            lookup_func(fs, n)
        }),
{
    let d = fs.drop_first();
    assert forall|i: int, j: int| 0 <= i < j < d.len() implies text_lt(
        #[trigger] d[i].name,
        #[trigger] d[j].name,
    ) by {
        assert(text_lt(fs[i + 1].name, fs[j + 1].name));
    }
    lemma_func_index(d, n);
    if n == fs[0].name {
        if let Some(k) = func_index(d, n) {
            assert(text_lt(fs[0].name, fs[k + 1].name));
            lemma_text_lt_order(n, n, n);
        }
    }
}

proof fn lemma_exports_drop_first(es: Seq<(Seq<char>, Seq<char>)>, n: Seq<char>)
    requires
        exports_sorted(es),
        es.len() > 0,
    ensures
        exports_sorted(es.drop_first()),
        lookup_export(es.drop_first(), n) == (if n == es[0].0 {
            None
        } else {
            lookup_export(es, n)
        }),
{
    let d = es.drop_first();
    assert forall|i: int, j: int| 0 <= i < j < d.len() implies text_lt(
        #[trigger] d[i].0,
        #[trigger] d[j].0,
    ) by {
        assert(text_lt(es[i + 1].0, es[j + 1].0));
    }
    lemma_export_index(d, n);
    if n == es[0].0 {
        if let Some(k) = export_index(d, n) {
            assert(text_lt(es[0].0, es[k + 1].0));
            lemma_text_lt_order(n, n, n);
        }
    }
}

/// Two function tables in name order that give the same function under every
/// name are the same table.
pub proof fn lemma_sorted_funcs_determined(f1: Seq<FunctionV>, f2: Seq<FunctionV>)
    requires
        funcs_sorted(f1),
        funcs_sorted(f2),
        forall|n: Seq<char>| #[trigger] lookup_func(f1, n) == lookup_func(f2, n),
    ensures
        f1 == f2,
    decreases f1.len() + f2.len(),
{
    if f1.len() == 0 && f2.len() == 0 {
        assert(f1 =~= f2);
    } else if f1.len() == 0 {
        lemma_func_index(f2, f2[0].name);
        assert(lookup_func(f1, f2[0].name) == lookup_func(f2, f2[0].name));
    } else if f2.len() == 0 {
        lemma_func_index(f1, f1[0].name);
        assert(lookup_func(f1, f1[0].name) == lookup_func(f2, f1[0].name));
    } else {
        let a = f1[0].name;
        let b = f2[0].name;
        lemma_func_index(f1, a);
        lemma_func_index(f2, a);
        lemma_func_index(f1, b);
        lemma_func_index(f2, b);
        assert(lookup_func(f1, a) == lookup_func(f2, a));
        assert(lookup_func(f1, b) == lookup_func(f2, b));
        let k = func_index(f2, a)->Some_0;
        let j = func_index(f1, b)->Some_0;
        if k > 0 {
            assert(text_lt(f2[0].name, f2[k].name));
            if j > 0 {
                assert(text_lt(f1[0].name, f1[j].name));
            }
            lemma_text_lt_order(a, b, a);
        }
        assert(f1[0] == f2[0]);
        assert forall|n: Seq<char>| #[trigger] lookup_func(f1.drop_first(), n) == lookup_func(
            f2.drop_first(),
            n,
        ) by {
            lemma_funcs_drop_first(f1, n);
            lemma_funcs_drop_first(f2, n);
            assert(lookup_func(f1, n) == lookup_func(f2, n));
        }
        lemma_funcs_drop_first(f1, a);
        lemma_funcs_drop_first(f2, a);
        lemma_sorted_funcs_determined(f1.drop_first(), f2.drop_first());
        assert(f1 =~= seq![f1[0]] + f1.drop_first());
        assert(f2 =~= seq![f2[0]] + f2.drop_first());
    }
}

/// Two export tables in name order that give the same target under every
/// name are the same table.
pub proof fn lemma_sorted_exports_determined(
    e1: Seq<(Seq<char>, Seq<char>)>,
    e2: Seq<(Seq<char>, Seq<char>)>,
)
    requires
        exports_sorted(e1),
        exports_sorted(e2),
        forall|n: Seq<char>| #[trigger] lookup_export(e1, n) == lookup_export(e2, n),
    ensures
        e1 == e2,
    decreases e1.len() + e2.len(),
{
    if e1.len() == 0 && e2.len() == 0 {
        assert(e1 =~= e2);
    } else if e1.len() == 0 {
        lemma_export_index(e2, e2[0].0);
        assert(lookup_export(e1, e2[0].0) == lookup_export(e2, e2[0].0));
    } else if e2.len() == 0 {
        lemma_export_index(e1, e1[0].0);
        assert(lookup_export(e1, e1[0].0) == lookup_export(e2, e1[0].0));
    } else {
        let a = e1[0].0;
        let b = e2[0].0;
        lemma_export_index(e1, a);
        lemma_export_index(e2, a);
        lemma_export_index(e1, b);
        lemma_export_index(e2, b);
        assert(lookup_export(e1, a) == lookup_export(e2, a));
        assert(lookup_export(e1, b) == lookup_export(e2, b));
        let k = export_index(e2, a)->Some_0;
        let j = export_index(e1, b)->Some_0;
        if k > 0 {
            assert(text_lt(e2[0].0, e2[k].0));
            if j > 0 {
                assert(text_lt(e1[0].0, e1[j].0));
            }
            lemma_text_lt_order(a, b, a);
        }
        assert(e1[0] == e2[0]);
        assert forall|n: Seq<char>| #[trigger] lookup_export(e1.drop_first(), n) == lookup_export(
            e2.drop_first(),
            n,
        ) by {
            lemma_exports_drop_first(e1, n);
            lemma_exports_drop_first(e2, n);
            assert(lookup_export(e1, n) == lookup_export(e2, n));
        }
        lemma_sorted_exports_determined(e1.drop_first(), e2.drop_first());
        assert(e1 =~= seq![e1[0]] + e1.drop_first());
        assert(e2 =~= seq![e2[0]] + e2.drop_first());
    }
}

/// Parsed modules are equal exactly when they hold the same functions and
/// exports under each name: their tables are in name order, so the order in
/// which the declarations came does not show.
pub proof fn lemma_parsed_modules_equal(n1: SNode, n2: SNode)
    requires
        module_syntax(n1) is Ok,
        module_syntax(n2) is Ok,
        forall|name: Seq<char>|
            #[trigger] declared_func(module_body(n1), name) == declared_func(module_body(n2), name)
                && declared_export(module_body(n1), name) == declared_export(module_body(n2), name),
    ensures
        module_syntax(n1) == module_syntax(n2),
{
    let m1 = module_syntax(n1)->Ok_0;
    let m2 = module_syntax(n2)->Ok_0;
    lemma_parsed_module_wf(n1);
    lemma_parsed_module_wf(n2);
    assert forall|name: Seq<char>| #[trigger] lookup_func(m1.funcs, name) == lookup_func(
        m2.funcs,
        name,
    ) by {
        lemma_parsed_tables(n1, name);
        lemma_parsed_tables(n2, name);
        assert(declared_func(module_body(n1), name) == declared_func(module_body(n2), name));
    }
    assert forall|name: Seq<char>| #[trigger] lookup_export(m1.exports, name) == lookup_export(
        m2.exports,
        name,
    ) by {
        lemma_parsed_tables(n1, name);
        lemma_parsed_tables(n2, name);
        assert(declared_func(module_body(n1), name) == declared_func(module_body(n2), name));
    }
    lemma_sorted_funcs_determined(m1.funcs, m2.funcs);
    lemma_sorted_exports_determined(m1.exports, m2.exports);
}

/// Whether `x` cannot be the not-found error: it does not start with `E`.
pub open spec fn not_export_error(x: Seq<char>) -> bool {
    x.len() > 0 && x[0] != 'E'
}

proof fn lemma_message_heads(name: Seq<char>, a: nat, b: nat)
    ensures
        not_export_error(msg_unknown_local(name)),
        not_export_error(msg_undefined_function(name)),
        not_export_error(msg_call_arity(name, a, b)),
        not_export_error("Division by zero in i32.rem_s"@),
        not_export_error(msg_function_missing(name)),
        not_export_error(msg_arg_count(name, a, b)),
        msg_not_found(name).len() > 0 && msg_not_found(name)[0] == 'E',
{
    reveal_strlit("Unknown local variable: ");
    reveal_strlit("Undefined function called: ");
    reveal_strlit("Argument count mismatch in call to '");
    reveal_strlit("Division by zero in i32.rem_s");
    reveal_strlit("Function '");
    reveal_strlit("Argument count mismatch for '");
    reveal_strlit("Export or function '");
}

/// No error of evaluation reads as the not-found error.
proof fn lemma_eval_errors(m: ModuleV, fuel: nat, e: ExprV, params: Seq<Seq<char>>, vals: Seq<i32>)
    ensures
        eval_expr(m, fuel, e, params, vals) matches Some(Err(x)) ==> not_export_error(x),
    decreases fuel, 0nat,
{
    if fuel > 0 {
        let g = (fuel - 1) as nat;
        match e {
            ExprV::LocalGet(name) => {
                lemma_message_heads(name, 0, 0);
            },
            ExprV::Add(l, r) | ExprV::Sub(l, r) | ExprV::Mul(l, r) | ExprV::RemS(l, r) | ExprV::LtS(
                l,
                r,
            ) => {
                lemma_eval_errors(m, g, *l, params, vals);
                lemma_eval_errors(m, g, *r, params, vals);
                lemma_message_heads(Seq::empty(), 0, 0);
            },
            ExprV::If { condition, then_branch, else_branch } => {
                lemma_eval_errors(m, g, *condition, params, vals);
                lemma_block_errors(m, g, then_branch, params, vals, 0, 0);
                lemma_block_errors(m, g, else_branch, params, vals, 0, 0);
            },
            ExprV::Call { func_name, args } => {
                lemma_message_heads(func_name, 0, 0);
                if let Some(callee) = lookup_func(m.funcs, func_name) {
                    lemma_message_heads(func_name, callee.params.len(), args.len());
                    lemma_args_errors(m, g, args, params, vals, 0, Seq::empty());
                    if let Some(Ok(xs)) = eval_args(m, g, args, params, vals, 0, Seq::empty()) {
                        lemma_block_errors(m, g, callee.body, callee.params, xs, 0, 0);
                    }
                }
            },
            _ => {},
        }
    }
}

proof fn lemma_block_errors(
    m: ModuleV,
    fuel: nat,
    es: Seq<ExprV>,
    params: Seq<Seq<char>>,
    vals: Seq<i32>,
    i: int,
    last: i32,
)
    ensures
        eval_block(m, fuel, es, params, vals, i, last) matches Some(Err(x)) ==> not_export_error(x),
    decreases fuel, es.len() - i,
{
    if 0 <= i < es.len() {
        lemma_eval_errors(m, fuel, es[i], params, vals);
        if let Some(Ok(v)) = eval_expr(m, fuel, es[i], params, vals) {
            lemma_block_errors(m, fuel, es, params, vals, i + 1, v);
        }
    }
}

proof fn lemma_args_errors(
    m: ModuleV,
    fuel: nat,
    es: Seq<ExprV>,
    params: Seq<Seq<char>>,
    vals: Seq<i32>,
    i: int,
    acc: Seq<i32>,
)
    ensures
        eval_args(m, fuel, es, params, vals, i, acc) matches Some(Err(x)) ==> not_export_error(x),
    decreases fuel, es.len() - i,
{
    if 0 <= i < es.len() {
        lemma_eval_errors(m, fuel, es[i], params, vals);
        if let Some(Ok(v)) = eval_expr(m, fuel, es[i], params, vals) {
            lemma_args_errors(m, fuel, es, params, vals, i + 1, acc.push(v));
        }
    }
}

/// Invoking `name` gives the not-found error exactly when neither an export
/// nor a function has that name, and gives the missing-function error when
/// the export of that name designates a function the module lacks; in both
/// cases no body is evaluated, whatever the bound.
pub proof fn lemma_invocation_not_found(m: ModuleV, fuel: nat, name: Seq<char>, args: Seq<i32>)
    ensures
        invocation(m, fuel, name, args) == Some(Err::<i32, Seq<char>>(msg_not_found(name))) <==> (
        lookup_export(m.exports, name) is None && lookup_func(m.funcs, name) is None),
        lookup_export(m.exports, name) is Some && lookup_func(
            m.funcs,
            lookup_export(m.exports, name)->Some_0,
        ) is None ==> invocation(m, fuel, name, args) == Some(
            Err::<i32, Seq<char>>(msg_function_missing(lookup_export(m.exports, name)->Some_0)),
        ),
{
    lemma_message_heads(name, 0, 0);
    if let Some(t) = invoke_target(m, name) {
        lemma_message_heads(t, 0, 0);
        if let Some(f) = lookup_func(m.funcs, t) {
            lemma_message_heads(name, f.params.len(), args.len());
            lemma_block_errors(m, fuel, f.body, f.params, args, 0, 0);
        }
    }
}

/// The two-operand instructions: each operand is evaluated one level down,
/// the left first; an error of the left one is the result whatever the right
/// one gives, else an error of the right one; else the value is wrapping
/// 32-bit addition, subtraction or multiplication, the signed comparison as
/// 1 or 0, or `rem_s`.
pub proof fn lemma_eval_binary(
    m: ModuleV,
    fuel: nat,
    l: ExprV,
    r: ExprV,
    params: Seq<Seq<char>>,
    vals: Seq<i32>,
)
    requires
        fuel > 0,
    ensures
        ({
            let lo = eval_expr(m, (fuel - 1) as nat, l, params, vals);
            let ro = eval_expr(m, (fuel - 1) as nat, r, params, vals);
            let add = eval_expr(m, fuel, ExprV::Add(Box::new(l), Box::new(r)), params, vals);
            let sub = eval_expr(m, fuel, ExprV::Sub(Box::new(l), Box::new(r)), params, vals);
            let mul = eval_expr(m, fuel, ExprV::Mul(Box::new(l), Box::new(r)), params, vals);
            let rem = eval_expr(m, fuel, ExprV::RemS(Box::new(l), Box::new(r)), params, vals);
            let lt = eval_expr(m, fuel, ExprV::LtS(Box::new(l), Box::new(r)), params, vals);
            &&& lo matches Some(Err(x)) ==> add == lo && sub == lo && mul == lo && rem == lo && lt == lo
            &&& (lo matches Some(Ok(_)) && ro matches Some(Err(_))) ==> add == ro && sub == ro && mul
                == ro && rem == ro && lt == ro
            &&& match (lo, ro) {
                (Some(Ok(a)), Some(Ok(b))) => {
                &&& add == Some(Ok::<i32, Seq<char>>(vstd::wrapping::i32_specs::wrapping_add(a, b)))
                &&& sub == Some(Ok::<i32, Seq<char>>(vstd::wrapping::i32_specs::wrapping_sub(a, b)))
                &&& mul == Some(Ok::<i32, Seq<char>>(vstd::wrapping::i32_specs::wrapping_mul(a, b)))
                &&& rem == Some(rem_s(a, b))
                &&& lt == Some(
                    Ok::<i32, Seq<char>>(
                        if a < b {
                            1
                        } else {
                            0
                        },
                    ),
                )
                },
                _ => true,
            }
        }),
{
}

/// The product `q * b`.
pub open spec fn times(q: int, b: int) -> int {
    q * b
}

/// `rem_s` is an error for a zero divisor; otherwise its value `x` differs
/// from `a` by a multiple of `b`, is smaller than `b` in magnitude, and is
/// zero or has the sign of `a` (so `i32::MIN` rem -1 is 0).
pub proof fn lemma_rem_s_meaning(a: i32, b: i32)
    ensures
        b == 0 ==> rem_s(a, b) == Err::<i32, Seq<char>>("Division by zero in i32.rem_s"@),
        b != 0 ==> rem_s(a, b) is Ok,
        match rem_s(a, b) {
            Ok(x) => {
                &&& exists|q: int| #[trigger] times(q, b as int) == a - x
                &&& -(b as int) < x < b || (b as int) < x < -b
                &&& x == 0 || ((x < 0) == (a < 0))
            },
            Err(_) => true,
        },
{
    if b != 0 {
        let x = rem_s(a, b)->Ok_0;
        if a == i32::MIN && b == -1 {
            assert(times(-(a as int), b as int) == a - x);
        } else {
            let ai = a as int;
            let bi = b as int;
            let mm: int = if bi < 0 {
                -bi
            } else {
                bi
            };
            if ai >= 0 {
                vstd::arithmetic::div_mod::lemma_fundamental_div_mod(ai, mm);
                vstd::arithmetic::div_mod::lemma_mod_pos_bound(ai, mm);
                let q0 = ai / mm;
                let q = if bi < 0 {
                    -q0
                } else {
                    q0
                };
                assert(ai - (ai % mm) == q * bi) by (nonlinear_arith)
                    requires
                        ai == mm * q0 + (ai % mm),
                        mm == (if bi < 0 {
                            -bi
                        } else {
                            bi
                        }),
                        q == (if bi < 0 {
                            -q0
                        } else {
                            q0
                        }),
                ;
                assert(times(q, b as int) == a - x);
            } else {
                vstd::arithmetic::div_mod::lemma_fundamental_div_mod(-ai, mm);
                vstd::arithmetic::div_mod::lemma_mod_pos_bound(-ai, mm);
                let q0 = (-ai) / mm;
                let q = if bi < 0 {
                    q0
                } else {
                    -q0
                };
                assert(ai + ((-ai) % mm) == q * bi) by (nonlinear_arith)
                    requires
                        -ai == mm * q0 + ((-ai) % mm),
                        mm == (if bi < 0 {
                            -bi
                        } else {
                            bi
                        }),
                        q == (if bi < 0 {
                            q0
                        } else {
                            -q0
                        }),
                ;
                assert(times(q, b as int) == a - x);
            }
        }
    }
}

/// Constants and locals: a constant is its value; a local is the value that
/// the last parameter of its name binds, else an unknown-local error.
pub proof fn lemma_eval_leaves(
    m: ModuleV,
    fuel: nat,
    c: i32,
    name: Seq<char>,
    params: Seq<Seq<char>>,
    vals: Seq<i32>,
)
    requires
        fuel > 0,
    ensures
        eval_expr(m, fuel, ExprV::Const(c), params, vals) == Some(Ok::<i32, Seq<char>>(c)),
        eval_expr(m, fuel, ExprV::LocalGet(name), params, vals) == Some(
            match crate::eval::local_value(params, vals, name) {
                Some(v) => Ok::<i32, Seq<char>>(v),
                None => Err(msg_unknown_local(name)),
            },
        ),
{
}

/// `if`: the condition is evaluated first, and its error is the result;
/// else the `then` branch for a non-zero condition and the `else` branch for
/// zero is evaluated as a block (0 for an empty one), the other never.
pub proof fn lemma_eval_if(
    m: ModuleV,
    fuel: nat,
    c: ExprV,
    tb: Seq<ExprV>,
    eb: Seq<ExprV>,
    params: Seq<Seq<char>>,
    vals: Seq<i32>,
)
    requires
        fuel > 0,
    ensures
        eval_expr(
            m,
            fuel,
            ExprV::If { condition: Box::new(c), then_branch: tb, else_branch: eb },
            params,
            vals,
        ) == match eval_expr(m, (fuel - 1) as nat, c, params, vals) {
            None => None,
            Some(Err(x)) => Some(Err(x)),
            Some(Ok(k)) => eval_block(
                m,
                (fuel - 1) as nat,
                if k != 0 {
                    tb
                } else {
                    eb
                },
                params,
                vals,
                0,
                0,
            ),
        },
        eval_block(m, fuel, Seq::empty(), params, vals, 0, 0) == Some(Ok::<i32, Seq<char>>(0)),
{
}

/// A call: an undefined callee (looked up among the functions only, never
/// the exports) or a wrong number of arguments is an error before any
/// argument is evaluated; else the arguments are evaluated left to right,
/// the first error being the result, and the callee's body is evaluated
/// with only its own parameters bound, to the argument values.
pub proof fn lemma_eval_call(
    m: ModuleV,
    fuel: nat,
    f: Seq<char>,
    args: Seq<ExprV>,
    params: Seq<Seq<char>>,
    vals: Seq<i32>,
)
    requires
        fuel > 0,
    ensures
        ({
            let res = eval_expr(m, fuel, ExprV::Call { func_name: f, args }, params, vals);
            let g = (fuel - 1) as nat;
            match lookup_func(m.funcs, f) {
                None => res == Some(Err::<i32, Seq<char>>(msg_undefined_function(f))),
                Some(callee) => if callee.params.len() != args.len() {
                    res == Some(
                        Err::<i32, Seq<char>>(
                            msg_call_arity(f, callee.params.len(), args.len()),
                        ),
                    )
                } else {
                    match eval_args(m, g, args, params, vals, 0, Seq::empty()) {
                        None => res is None,
                        Some(Err(x)) => res == Some(Err::<i32, Seq<char>>(x)),
                        Some(Ok(xs)) => res == eval_block(m, g, callee.body, callee.params, xs, 0, 0),
                    }
                },
            }
        }),
{
}

/// The nesting depth of an expression: one more than that of its deepest
/// part.
pub open spec fn expr_depth(e: ExprV) -> nat
    decreases e,
{
    match e {
        ExprV::Const(_) => 1,
        ExprV::LocalGet(_) => 1,
        ExprV::Add(l, r) | ExprV::Sub(l, r) | ExprV::Mul(l, r) | ExprV::RemS(l, r) | ExprV::LtS(
            l,
            r,
        ) => 1 + vstd::math::max(expr_depth(*l) as int, expr_depth(*r) as int) as nat,
        ExprV::If { condition, then_branch, else_branch } => 1 + vstd::math::max(
            expr_depth(*condition) as int,
            vstd::math::max(exprs_depth(then_branch) as int, exprs_depth(else_branch) as int),
        ) as nat,
        ExprV::Call { func_name: _, args } => 1 + exprs_depth(args),
    }
}

/// The greatest depth of the expressions of `s`, 0 for none.
pub open spec fn exprs_depth(s: Seq<ExprV>) -> nat
    decreases s,
{
    if s.len() == 0 {
        0
    } else {
        vstd::math::max(exprs_depth(s.drop_last()) as int, expr_depth(s.last()) as int) as nat
    }
}

/// Whether every call in `e` names a function of rank below `k`, or one
/// that the module lacks.
pub open spec fn calls_below(m: ModuleV, rank: spec_fn(Seq<char>) -> nat, k: nat, e: ExprV) -> bool
    decreases e,
{
    match e {
        ExprV::Const(_) => true,
        ExprV::LocalGet(_) => true,
        ExprV::Add(l, r) | ExprV::Sub(l, r) | ExprV::Mul(l, r) | ExprV::RemS(l, r) | ExprV::LtS(
            l,
            r,
        ) => calls_below(m, rank, k, *l) && calls_below(m, rank, k, *r),
        ExprV::If { condition, then_branch, else_branch } => calls_below(m, rank, k, *condition)
            && all_calls_below(m, rank, k, then_branch) && all_calls_below(m, rank, k, else_branch),
        ExprV::Call { func_name, args } => (lookup_func(m.funcs, func_name) is None || rank(
            func_name,
        ) < k) && all_calls_below(m, rank, k, args),
    }
}

/// Whether every call in the expressions `s` names a function of rank
/// below `k`, or one that the module lacks.
pub open spec fn all_calls_below(
    m: ModuleV,
    rank: spec_fn(Seq<char>) -> nat,
    k: nat,
    s: Seq<ExprV>,
) -> bool
    decreases s,
{
    if s.len() == 0 {
        true
    } else {
        all_calls_below(m, rank, k, s.drop_last()) && calls_below(m, rank, k, s.last())
    }
}

/// Whether `rank` orders the call graph of `m`, which is then acyclic: each
/// function calls only functions of lower rank (or missing ones), and no
/// body is deeper than `d`.
pub open spec fn ranked(m: ModuleV, rank: spec_fn(Seq<char>) -> nat, d: nat) -> bool {
    forall|i: int|
        0 <= i < m.funcs.len() ==> all_calls_below(m, rank, rank(m.funcs[i].name), #[trigger] m.funcs[i].body)
            && exprs_depth(m.funcs[i].body) <= d
}

proof fn lemma_exprs_parts(m: ModuleV, rank: spec_fn(Seq<char>) -> nat, k: nat, s: Seq<ExprV>)
    ensures
        forall|i: int| 0 <= i < s.len() ==> expr_depth(#[trigger] s[i]) <= exprs_depth(s),
        all_calls_below(m, rank, k, s) ==> forall|i: int|
            0 <= i < s.len() ==> calls_below(m, rank, k, #[trigger] s[i]),
    decreases s.len(),
{
    if s.len() > 0 {
        lemma_exprs_parts(m, rank, k, s.drop_last());
        assert forall|i: int| 0 <= i < s.len() - 1 implies #[trigger] s[i] == s.drop_last()[i] by {}
    }
}

proof fn lemma_rank_step(k: nat, j: nat, d: nat)
    requires
        j < k,
    ensures
        k * (d + 1) >= j * (d + 1) + d + 1,
{
    assert(k * (d + 1) >= (j + 1) * (d + 1)) by (nonlinear_arith)
        requires
            j + 1 <= k,
    ;
    assert((j + 1) * (d + 1) == j * (d + 1) + d + 1) by (nonlinear_arith);
}

proof fn lemma_eval_terminates(
    m: ModuleV,
    rank: spec_fn(Seq<char>) -> nat,
    d: nat,
    k: nat,
    fuel: nat,
    e: ExprV,
    params: Seq<Seq<char>>,
    vals: Seq<i32>,
)
    requires
        ranked(m, rank, d),
        calls_below(m, rank, k, e),
        fuel >= expr_depth(e) + k * (d + 1),
    ensures
        eval_expr(m, fuel, e, params, vals) is Some,
    decreases fuel, 0nat,
{
    let g = (fuel - 1) as nat;
    match e {
        ExprV::Add(l, r) | ExprV::Sub(l, r) | ExprV::Mul(l, r) | ExprV::RemS(l, r) | ExprV::LtS(
            l,
            r,
        ) => {
            lemma_eval_terminates(m, rank, d, k, g, *l, params, vals);
            lemma_eval_terminates(m, rank, d, k, g, *r, params, vals);
        },
        ExprV::If { condition, then_branch, else_branch } => {
            lemma_eval_terminates(m, rank, d, k, g, *condition, params, vals);
            lemma_block_terminates(m, rank, d, k, g, then_branch, params, vals, 0, 0);
            lemma_block_terminates(m, rank, d, k, g, else_branch, params, vals, 0, 0);
        },
        ExprV::Call { func_name, args } => {
            if let Some(callee) = lookup_func(m.funcs, func_name) {
                if callee.params.len() == args.len() {
                    lemma_args_terminates(m, rank, d, k, g, args, params, vals, 0, Seq::empty());
                    if let Some(Ok(xs)) = eval_args(m, g, args, params, vals, 0, Seq::empty()) {
                        lemma_func_index(m.funcs, func_name);
                        let idx = func_index(m.funcs, func_name)->Some_0;
                        assert(m.funcs[idx] == callee);
                        let j = rank(func_name);
                        lemma_rank_step(k, j, d);
                        lemma_block_terminates(m, rank, d, j, g, callee.body, callee.params, xs, 0, 0);
                    }
                }
            }
        },
        _ => {},
    }
}

proof fn lemma_block_terminates(
    m: ModuleV,
    rank: spec_fn(Seq<char>) -> nat,
    d: nat,
    k: nat,
    fuel: nat,
    es: Seq<ExprV>,
    params: Seq<Seq<char>>,
    vals: Seq<i32>,
    i: int,
    last: i32,
)
    requires
        ranked(m, rank, d),
        all_calls_below(m, rank, k, es),
        fuel >= exprs_depth(es) + k * (d + 1),
    ensures
        eval_block(m, fuel, es, params, vals, i, last) is Some,
    decreases fuel, es.len() - i,
{
    if 0 <= i < es.len() {
        lemma_exprs_parts(m, rank, k, es);
        lemma_eval_terminates(m, rank, d, k, fuel, es[i], params, vals);
        if let Some(Ok(v)) = eval_expr(m, fuel, es[i], params, vals) {
            lemma_block_terminates(m, rank, d, k, fuel, es, params, vals, i + 1, v);
        }
    }
}

proof fn lemma_args_terminates(
    m: ModuleV,
    rank: spec_fn(Seq<char>) -> nat,
    d: nat,
    k: nat,
    fuel: nat,
    es: Seq<ExprV>,
    params: Seq<Seq<char>>,
    vals: Seq<i32>,
    i: int,
    acc: Seq<i32>,
)
    requires
        ranked(m, rank, d),
        all_calls_below(m, rank, k, es),
        fuel >= exprs_depth(es) + k * (d + 1),
    ensures
        eval_args(m, fuel, es, params, vals, i, acc) is Some,
    decreases fuel, es.len() - i,
{
    if 0 <= i < es.len() {
        lemma_exprs_parts(m, rank, k, es);
        lemma_eval_terminates(m, rank, d, k, fuel, es[i], params, vals);
        if let Some(Ok(v)) = eval_expr(m, fuel, es[i], params, vals) {
            lemma_args_terminates(m, rank, d, k, fuel, es, params, vals, i + 1, acc.push(v));
        }
    }
}

/// In a module whose call graph is acyclic, as a ranking of its functions
/// witnesses, every invocation terminates, within a nesting of
/// `(rank + 1) * (d + 1)` for the invoked function; where that is at most
/// `u64::MAX`, `invoke` may be called.
pub proof fn lemma_ranked_terminates(
    m: ModuleV,
    rank: spec_fn(Seq<char>) -> nat,
    d: nat,
    name: Seq<char>,
    args: Seq<i32>,
)
    requires
        ranked(m, rank, d),
    ensures
        terminates(m, name, args),
        invoke_target(m, name) matches Some(t) ==> ((rank(t) + 1) * (d + 1) <= u64::MAX ==> finishes(
            m,
            name,
            args,
        )),
{
    let k: nat = match invoke_target(m, name) {
        Some(t) => rank(t),
        None => 0,
    };
    let fuel: nat = (k + 1) * (d + 1);
    assert(fuel == k * (d + 1) + d + 1) by (nonlinear_arith)
        requires
            fuel == (k + 1) * (d + 1),
    ;
    if let Some(t) = invoke_target(m, name) {
        if let Some(f) = lookup_func(m.funcs, t) {
            if f.params.len() == args.len() {
                lemma_func_index(m.funcs, t);
                let idx = func_index(m.funcs, t)->Some_0;
                assert(m.funcs[idx] == f);
                lemma_block_terminates(m, rank, d, k, fuel, f.body, f.params, args, 0, 0);
            }
        }
    }
    assert(invocation(m, fuel, name, args) is Some);
    lemma_finishes(m, fuel, name, args);
}


proof fn lemma_local_value_prefix(params: Seq<Seq<char>>, vals: Seq<i32>, name: Seq<char>)
    requires
        params.len() <= vals.len(),
    ensures
        forall|i: int|
            0 <= i < params.len() && #[trigger] params[i] == name && (forall|j: int|
                i < j < params.len() ==> params[j] != name) ==> local_value(params, vals, name)
                == Some(vals[i]),
        (forall|i: int| 0 <= i < params.len() ==> params[i] != name) ==> local_value(
            params,
            vals,
            name,
        ) is None,
        match local_value(params, vals, name) {
            Some(v) => exists|i: int|
                0 <= i < params.len() && #[trigger] params[i] == name && vals[i] == v && (forall|
                    j: int,
                | i < j < params.len() ==> params[j] != name),
            None => forall|i: int| 0 <= i < params.len() ==> params[i] != name,
        },
    decreases params.len(),
{
    if params.len() > 0 {
        let n = params.len() - 1;
        let d = params.drop_last();
        lemma_local_value_prefix(d, vals, name);
        assert forall|i: int| 0 <= i < n implies d[i] == params[i] by {}
        if params[n] == name {
            assert(params.last() == name);
        } else {
            assert(params.last() != name);
            if let Some(v) = local_value(d, vals, name) {
                let i = choose|i: int|
                    0 <= i < d.len() && #[trigger] d[i] == name && vals[i] == v && (forall|j: int|
                        i < j < d.len() ==> d[j] != name);
                assert(params[i] == name);
            }
        }
    }
}

/// A local is bound by the last parameter whose name equals it exactly, to
/// the argument at that parameter's position, and a local that no parameter
/// names has no value: a parameter whose name only begins or ends like the
/// local's never binds it.
pub proof fn lemma_local_value_meaning(params: Seq<Seq<char>>, vals: Seq<i32>, name: Seq<char>)
    requires
        params.len() == vals.len(),
    ensures
        forall|i: int|
            0 <= i < params.len() && #[trigger] params[i] == name && (forall|j: int|
                i < j < params.len() ==> params[j] != name) ==> local_value(params, vals, name)
                == Some(vals[i]),
        (forall|i: int| 0 <= i < params.len() ==> params[i] != name) ==> local_value(
            params,
            vals,
            name,
        ) is None,
        match local_value(params, vals, name) {
            Some(v) => exists|i: int|
                0 <= i < params.len() && #[trigger] params[i] == name && vals[i] == v && (forall|
                    j: int,
                | i < j < params.len() ==> params[j] != name),
            None => forall|i: int| 0 <= i < params.len() ==> params[i] != name,
        },
{
    lemma_local_value_prefix(params, vals, name);
}

/// Whether an outcome is a value.
pub open spec fn yields_value(o: Option<Result<i32, Seq<char>>>) -> bool {
    o is Some && o->Some_0 is Ok
}

/// Whether `es[k]` is the first of `es[i..]` whose evaluation fails, all
/// before it having values.
pub open spec fn first_failure(
    m: ModuleV,
    fuel: nat,
    es: Seq<ExprV>,
    params: Seq<Seq<char>>,
    vals: Seq<i32>,
    i: int,
    k: int,
) -> bool {
    &&& i <= k < es.len()
    &&& eval_expr(m, fuel, es[k], params, vals) is Some
    &&& eval_expr(m, fuel, es[k], params, vals)->Some_0 is Err
    &&& forall|j: int| i <= j < k ==> yields_value(#[trigger] eval_expr(m, fuel, es[j], params, vals))
}

proof fn lemma_args_from(
    m: ModuleV,
    fuel: nat,
    es: Seq<ExprV>,
    params: Seq<Seq<char>>,
    vals: Seq<i32>,
    i: int,
    acc: Seq<i32>,
)
    requires
        0 <= i <= es.len(),
    ensures
        ({
            let r = eval_args(m, fuel, es, params, vals, i, acc);
            &&& (r is Some && r->Some_0 is Ok) <==> (forall|k: int|
                i <= k < es.len() ==> yields_value(#[trigger] eval_expr(m, fuel, es[k], params, vals)))
            &&& r matches Some(Ok(xs)) ==> {
                &&& xs.len() == acc.len() + es.len() - i
                &&& xs.subrange(0, acc.len() as int) == acc
                &&& forall|k: int|
                    i <= k < es.len() ==> #[trigger] eval_expr(m, fuel, es[k], params, vals) == Some(
                        Ok::<i32, Seq<char>>(xs[acc.len() + k - i]),
                    )
            }
            &&& forall|k: int|
                #[trigger] first_failure(m, fuel, es, params, vals, i, k) ==> r == Some(
                    Err::<Seq<i32>, Seq<char>>(eval_expr(m, fuel, es[k], params, vals)->Some_0->Err_0),
                )
        }),
    decreases es.len() - i,
{
    let r = eval_args(m, fuel, es, params, vals, i, acc);
    if i == es.len() {
        assert(acc.subrange(0, acc.len() as int) =~= acc);
    } else {
        let o = eval_expr(m, fuel, es[i], params, vals);
        match o {
            None => {
                assert(!yields_value(eval_expr(m, fuel, es[i], params, vals)));
                assert forall|k: int| #[trigger] first_failure(m, fuel, es, params, vals, i, k) implies r
                    == Some(Err::<Seq<i32>, Seq<char>>(eval_expr(m, fuel, es[k], params, vals)->Some_0->Err_0)) by {
                    if k > i {
                        assert(yields_value(eval_expr(m, fuel, es[i], params, vals)));
                    }
                }
            },
            Some(Err(x)) => {
                assert(!yields_value(eval_expr(m, fuel, es[i], params, vals)));
                assert forall|k: int| #[trigger] first_failure(m, fuel, es, params, vals, i, k) implies r
                    == Some(Err::<Seq<i32>, Seq<char>>(eval_expr(m, fuel, es[k], params, vals)->Some_0->Err_0)) by {
                    if k > i {
                        assert(yields_value(eval_expr(m, fuel, es[i], params, vals)));
                    }
                }
            },
            Some(Ok(v)) => {
                let acc2 = acc.push(v);
                lemma_args_from(m, fuel, es, params, vals, i + 1, acc2);
                if let Some(Ok(xs)) = r {
                    assert(xs.subrange(0, acc2.len() as int) == acc2);
                    assert(xs.subrange(0, acc.len() as int) =~= acc2.subrange(0, acc.len() as int));
                    assert(acc2.subrange(0, acc.len() as int) =~= acc);
                    assert(xs[acc.len() as int] == xs.subrange(0, acc2.len() as int)[acc.len() as int]);
                }
                assert forall|k: int| #[trigger] first_failure(m, fuel, es, params, vals, i, k) implies r
                    == Some(Err::<Seq<i32>, Seq<char>>(eval_expr(m, fuel, es[k], params, vals)->Some_0->Err_0)) by {
                    assert(k != i);
                    assert(first_failure(m, fuel, es, params, vals, i + 1, k));
                }
            },
        }
    }
}

/// Arguments are evaluated left to right: they give values exactly when
/// every argument evaluates to a value, and then the values are those of
/// the arguments, one for each and in order; where an argument's evaluation
/// fails after all before it gave values, its error is the result.
pub proof fn lemma_eval_args_meaning(
    m: ModuleV,
    fuel: nat,
    es: Seq<ExprV>,
    params: Seq<Seq<char>>,
    vals: Seq<i32>,
)
    ensures
        ({
            let r = eval_args(m, fuel, es, params, vals, 0, Seq::empty());
            &&& (r is Some && r->Some_0 is Ok) <==> (forall|k: int|
                0 <= k < es.len() ==> yields_value(#[trigger] eval_expr(m, fuel, es[k], params, vals)))
            &&& r matches Some(Ok(xs)) ==> {
                &&& xs.len() == es.len()
                &&& forall|k: int|
                    0 <= k < es.len() ==> #[trigger] eval_expr(m, fuel, es[k], params, vals) == Some(
                        Ok::<i32, Seq<char>>(xs[k]),
                    )
            }
            &&& forall|k: int|
                #[trigger] first_failure(m, fuel, es, params, vals, 0, k) ==> r == Some(
                    Err::<Seq<i32>, Seq<char>>(eval_expr(m, fuel, es[k], params, vals)->Some_0->Err_0),
                )
        }),
{
    lemma_args_from(m, fuel, es, params, vals, 0, Seq::empty());
}

proof fn lemma_block_from(
    m: ModuleV,
    fuel: nat,
    es: Seq<ExprV>,
    params: Seq<Seq<char>>,
    vals: Seq<i32>,
    i: int,
    last: i32,
)
    requires
        0 <= i <= es.len(),
    ensures
        ({
            let r = eval_block(m, fuel, es, params, vals, i, last);
            &&& (r is Some && r->Some_0 is Ok) <==> (forall|k: int|
                i <= k < es.len() ==> yields_value(#[trigger] eval_expr(m, fuel, es[k], params, vals)))
            &&& r matches Some(Ok(v)) ==> if i < es.len() {
                eval_expr(m, fuel, es[es.len() - 1], params, vals) == Some(Ok::<i32, Seq<char>>(v))
            } else {
                v == last
            }
            &&& forall|k: int|
                #[trigger] first_failure(m, fuel, es, params, vals, i, k) ==> r == Some(
                    Err::<i32, Seq<char>>(eval_expr(m, fuel, es[k], params, vals)->Some_0->Err_0),
                )
        }),
    decreases es.len() - i,
{
    let r = eval_block(m, fuel, es, params, vals, i, last);
    if i < es.len() {
        let o = eval_expr(m, fuel, es[i], params, vals);
        match o {
            Some(Ok(v)) => {
                lemma_block_from(m, fuel, es, params, vals, i + 1, v);
                assert forall|k: int| #[trigger] first_failure(m, fuel, es, params, vals, i, k) implies r
                    == Some(Err::<i32, Seq<char>>(eval_expr(m, fuel, es[k], params, vals)->Some_0->Err_0)) by {
                    assert(k != i);
                    assert(first_failure(m, fuel, es, params, vals, i + 1, k));
                }
            },
            _ => {
                assert(!yields_value(eval_expr(m, fuel, es[i], params, vals)));
                assert forall|k: int| #[trigger] first_failure(m, fuel, es, params, vals, i, k) implies r
                    == Some(Err::<i32, Seq<char>>(eval_expr(m, fuel, es[k], params, vals)->Some_0->Err_0)) by {
                    if k > i {
                        assert(yields_value(eval_expr(m, fuel, es[i], params, vals)));
                    }
                }
            },
        }
    }
}

/// A block is evaluated in order: it gives a value exactly when each of its
/// instructions does, and then its value is that of the last one, 0 for an
/// empty block; where an instruction's evaluation fails after all before it
/// gave values, its error is the result.
pub proof fn lemma_eval_block_meaning(
    m: ModuleV,
    fuel: nat,
    es: Seq<ExprV>,
    params: Seq<Seq<char>>,
    vals: Seq<i32>,
)
    ensures
        ({
            let r = eval_block(m, fuel, es, params, vals, 0, 0);
            &&& (r is Some && r->Some_0 is Ok) <==> (forall|k: int|
                0 <= k < es.len() ==> yields_value(#[trigger] eval_expr(m, fuel, es[k], params, vals)))
            &&& r matches Some(Ok(v)) ==> if es.len() > 0 {
                eval_expr(m, fuel, es.last(), params, vals) == Some(Ok::<i32, Seq<char>>(v))
            } else {
                v == 0
            }
            &&& forall|k: int|
                #[trigger] first_failure(m, fuel, es, params, vals, 0, k) ==> r == Some(
                    Err::<i32, Seq<char>>(eval_expr(m, fuel, es[k], params, vals)->Some_0->Err_0),
                )
        }),
{
    lemma_block_from(m, fuel, es, params, vals, 0, 0);
}

/// Invoking `name` runs the function that the export of that name
/// designates, else the function of that name itself: a wrong number of
/// arguments is an error naming `name` with the expected and the given
/// count; otherwise the function's body is evaluated as a block with its
/// parameters bound to the arguments, in order.
pub proof fn lemma_invocation_meaning(
    m: ModuleV,
    fuel: nat,
    name: Seq<char>,
    args: Seq<i32>,
    f: FunctionV,
)
    requires
        lookup_export(m.exports, name) is Some ==> lookup_func(
            m.funcs,
            lookup_export(m.exports, name)->Some_0,
        ) == Some(f),
        lookup_export(m.exports, name) is None ==> lookup_func(m.funcs, name) == Some(f),
    ensures
        f.params.len() != args.len() ==> invocation(m, fuel, name, args) == Some(
            Err::<i32, Seq<char>>(msg_arg_count(name, f.params.len(), args.len())),
        ),
        f.params.len() == args.len() ==> invocation(m, fuel, name, args) == eval_block(
            m,
            fuel,
            f.body,
            f.params,
            args,
            0,
            0,
        ),
{
    lemma_func_index(m.funcs, name);
}

} // verus!
