use tiny_wat_interpreter::text::unquote;
use tiny_wat_interpreter::{Expr, Function, Module, SNode};

fn err_of_parse(wat: &str) -> String {
    match Module::parse_wat(wat) {
        Ok(_) => panic!("expected a parse error"),
        Err(e) => e,
    }
}

fn single(body: &str) -> Module {
    let wat = format!("(module (func $f (export \"f\") (param $a i32) (param $b i32) (result i32) {}))", body);
    Module::parse_wat(&wat).unwrap()
}

#[test]
fn later_function_of_same_name_replaces_earlier() {
    let m = Module::parse_wat(
        r#"(module
             (func $f (export "f") (result i32) (i32.const 1))
             (func $f (result i32) (i32.const 2)))"#,
    )
    .unwrap();
    assert_eq!(m.funcs.len(), 1);
    assert_eq!(m.invoke("f", &[]).unwrap(), 2);
    assert_eq!(m.invoke("$f", &[]).unwrap(), 2);
}

#[test]
fn later_export_of_same_name_replaces_earlier() {
    let m = Module::parse_wat(
        r#"(module
             (func $a (export "x") (result i32) (i32.const 1))
             (func $b (export "x") (result i32) (i32.const 2)))"#,
    )
    .unwrap();
    assert_eq!(m.exports.len(), 1);
    assert_eq!(m.exports[0].1, "$b");
    assert_eq!(m.invoke("x", &[]).unwrap(), 2);
    assert_eq!(m.invoke("$a", &[]).unwrap(), 1);
}

#[test]
fn parsed_exports_designate_functions() {
    let m = Module::parse_wat(
        r#"(module
             (func (export "anon") (result i32) (i32.const 9))
             (func $named (export "n") (result i32) (call $named2))
             (func $named2 (result i32) (i32.const 4)))"#,
    )
    .unwrap();
    for (_, target) in &m.exports {
        assert!(m.funcs.iter().any(|f| &f.name == target));
    }
    assert_eq!(m.invoke("anon", &[]).unwrap(), 9);
    assert_eq!(m.invoke("$anon", &[]).unwrap(), 9);
    assert_eq!(m.invoke("n", &[]).unwrap(), 4);
    assert_eq!(m.funcs[0].export_name, Some("anon".to_string()));
}

#[test]
fn repeated_invocations_agree() {
    let m = single("(i32.mul (local.get $a) (local.get $b))");
    let first = m.invoke("f", &[7, -6]);
    let second = m.invoke("f", &[7, -6]);
    assert_eq!(first, second);
    assert_eq!(first.unwrap(), -42);
}

#[test]
fn last_parameter_of_a_name_binds_it() {
    let m = Module::parse_wat(
        r#"(module (func $f (export "f") (param $a i32) (param $a i32) (result i32) (local.get $a)))"#,
    )
    .unwrap();
    assert_eq!(m.invoke("f", &[1, 2]).unwrap(), 2);
}

#[test]
fn wrapping_arithmetic_and_remainder() {
    let m = single("(i32.sub (local.get $a) (local.get $b))");
    assert_eq!(m.invoke("f", &[i32::MIN, 1]).unwrap(), i32::MAX);
    let m = single("(i32.mul (local.get $a) (local.get $b))");
    assert_eq!(m.invoke("f", &[i32::MAX, 2]).unwrap(), -2);
    let m = single("(i32.rem_s (local.get $a) (local.get $b))");
    assert_eq!(m.invoke("f", &[10, -3]).unwrap(), 1);
    assert_eq!(m.invoke("f", &[-10, -3]).unwrap(), -1);
    assert_eq!(m.invoke("f", &[0, 5]).unwrap(), 0);
    assert_eq!(m.invoke("f", &[i32::MIN, 2]).unwrap(), 0);
    let m = single("(i32.lt_s (local.get $a) (local.get $b))");
    assert_eq!(m.invoke("f", &[3, 3]).unwrap(), 0);
}

#[test]
fn body_and_branches_give_their_last_value() {
    let m = Module::parse_wat(
        r#"(module
             (func $empty (export "empty") (result i32))
             (func $seq (export "seq") (result i32) (i32.const 1) (i32.const 2) (i32.const 3))
             (func $br (export "br") (param $c i32) (result i32)
               (if (result i32) (local.get $c)
                 (then (i32.const 10)) (then (i32.const 11))
                 (else)))
           )"#,
    )
    .unwrap();
    assert_eq!(m.invoke("empty", &[]).unwrap(), 0);
    assert_eq!(m.invoke("seq", &[]).unwrap(), 3);
    assert_eq!(m.invoke("br", &[1]).unwrap(), 11);
    assert_eq!(m.invoke("br", &[0]).unwrap(), 0);
}

#[test]
fn integer_constants() {
    let m = Module::parse_wat(
        r#"(module
             (func $a (export "hex") (result i32) (i32.const 0XfF))
             (func $b (export "neghex") (result i32) (i32.const -0x10))
             (func $c (export "plushex") (result i32) (i32.const ++0x10))
             (func $d (export "quoted") (result i32) (i32.const " 12 "))
             (func $e (export "wide") (result i32) (i32.const 4294967297))
             (func $g (export "plus") (result i32) (i32.const "+7")))"#,
    )
    .unwrap();
    assert_eq!(m.invoke("hex", &[]).unwrap(), 255);
    assert_eq!(m.invoke("neghex", &[]).unwrap(), -16);
    assert_eq!(m.invoke("plushex", &[]).unwrap(), 16);
    assert_eq!(m.invoke("quoted", &[]).unwrap(), 12);
    assert_eq!(m.invoke("wide", &[]).unwrap(), 1);
    assert_eq!(m.invoke("plus", &[]).unwrap(), 7);
}

#[test]
fn export_names_are_unquoted() {
    let m = Module::parse_wat(
        r#"(module (func (export "'q'") (result i32) (i32.const 5)) (func (export " sp ") (result i32) (i32.const 6)))"#,
    )
    .unwrap();
    assert_eq!(m.invoke("q", &[]).unwrap(), 5);
    assert_eq!(m.invoke("sp", &[]).unwrap(), 6);
    assert_eq!(m.funcs[0].name, "$q");
}

#[test]
fn runtime_error_messages() {
    let m = Module::parse_wat(
        r#"(module
             (func $f (export "f") (param $a i32) (result i32) (local.get $a))
             (func $g (export "g") (result i32) (call $f (i32.const 1) (i32.const 2)))
             (func $h (export "h") (result i32) (local.get $nope))
             (func $k (export "k") (result i32) (call $nope))
             (func $z (export "z") (result i32) (i32.rem_s (i32.const 1) (i32.const 0))))"#,
    )
    .unwrap();
    assert_eq!(
        m.invoke("g", &[]).unwrap_err(),
        "Argument count mismatch in call to '$f': expected 1, got 2"
    );
    assert_eq!(m.invoke("h", &[]).unwrap_err(), "Unknown local variable: $nope");
    assert_eq!(m.invoke("k", &[]).unwrap_err(), "Undefined function called: $nope");
    assert_eq!(m.invoke("z", &[]).unwrap_err(), "Division by zero in i32.rem_s");
    assert_eq!(
        m.invoke("missing", &[]).unwrap_err(),
        "Export or function 'missing' not found in module"
    );
    assert_eq!(
        m.invoke("f", &[]).unwrap_err(),
        "Argument count mismatch for 'f': expected 1, got 0"
    );
}

#[test]
fn export_of_a_missing_function() {
    let m = Module {
        funcs: vec![Function {
            name: "$f".to_string(),
            export_name: None,
            params: vec![],
            result: None,
            body: vec![Expr::Const(3)],
        }],
        exports: vec![("x".to_string(), "$gone".to_string())],
    };
    assert_eq!(m.invoke("x", &[]).unwrap_err(), "Function '$gone' not found");
    assert_eq!(m.invoke("$f", &[]).unwrap(), 3);
}

#[test]
fn module_error_messages() {
    assert_eq!(err_of_parse("(aaaa"), "WAT parse error: 1:4: unexpected eof");
    assert_eq!(err_of_parse("(func $foo)"), "Top-level element must be (module ...)");
    assert_eq!(err_of_parse("module"), "Top-level element must be (module ...)");
    assert_eq!(
        err_of_parse("(module (unsupported_form))"),
        "Unexpected module element: (unsupported_form)"
    );
    assert_eq!(
        err_of_parse("(module (func (result i32)))"),
        "Function must have a name or an export declaration"
    );
    assert_eq!(err_of_parse("(module (func $f (export)))"), "Malformed export declaration: (export)");
    assert_eq!(
        err_of_parse("(module (func $f (export (x))))"),
        "Expected export name string, got (x)"
    );
    assert_eq!(err_of_parse("(module (func $f (param $a i64)))"), "Unsupported param type: i64");
    assert_eq!(err_of_parse("(module (func $f (param (x) i32)))"), "Expected param name, got (x)");
    assert_eq!(err_of_parse("(module (func $f (param $a)))"), "Malformed param declaration: (param $a)");
    assert_eq!(err_of_parse("(module (func $f (result f32)))"), "Unsupported result type: f32");
    assert_eq!(err_of_parse("(module (func $f ()))"), "Unexpected token in function definition: ()");
    assert_eq!(err_of_parse("(module (func $f 5))"), "Unexpected token in function definition: 5");
}

#[test]
fn expression_error_messages() {
    let body = |b: &str| err_of_parse(&format!("(module (func $f {}))", b));
    assert_eq!(body("(i32.const 1 2)"), "i32.const requires 1 argument, got [i32.const, 1, 2]");
    assert_eq!(body("(i32.add (i32.const 1))"), "i32.add requires 2 operands, got [i32.add, (i32.const 1)]");
    assert_eq!(body("(i32.div_s (i32.const 1) (i32.const 1))"), "Unsupported instruction or keyword: i32.div_s");
    assert_eq!(body("((i32.const 1))"), "Expected instruction operator, got (i32.const 1)");
    assert_eq!(body("(call $g 5)"), "Expected expression list, got 5");
    assert_eq!(body("(call)"), "call requires function name, got [call]");
    assert_eq!(body("(local.get (x))"), "Expected variable name in local.get, got (x)");
    assert_eq!(body("(if (then (i32.const 1)))"), "Missing condition in if expression: [if, (then (i32.const 1))]");
    assert_eq!(body("(if (i32.const 1) (i32.const 2))"), "Unexpected expression in if: (i32.const 2)");
    assert_eq!(body("(if x)"), "Unexpected token in if: x");
    assert_eq!(body("(i32.const 1.5)"), "Expected integer constant, got 1.5");
    assert_eq!(body("(i32.const abc)"), "Invalid integer 'abc': invalid digit found in string");
    assert_eq!(body("(i32.const 0xZZ)"), "Invalid hex integer '0xZZ': invalid digit found in string");
}

#[test]
fn reading_a_prepared_tree() {
    let sym = |s: &str| SNode::Sym(s.to_string(), s.to_string());
    let node = SNode::List(
        vec![
            sym("module"),
            SNode::List(
                vec![
                    sym("func"),
                    sym("$seven"),
                    SNode::List(vec![sym("i32.const"), SNode::Int(7, "7".to_string())], "(i32.const 7)".to_string()),
                ],
                "(func $seven (i32.const 7))".to_string(),
            ),
        ],
        "(module (func $seven (i32.const 7)))".to_string(),
    );
    let m = Module::from_sexp(&node).unwrap();
    assert_eq!(m.invoke("$seven", &[]).unwrap(), 7);
    assert_eq!(m.funcs[0].body, vec![Expr::Const(7)]);
}

#[test]
fn unquoting_text() {
    assert_eq!(unquote("  \"abc\"  "), "abc");
    assert_eq!(unquote("'x'"), "x");
    assert_eq!(unquote("'a\""), "'a\"");
    assert_eq!(unquote("\""), "\"");
    assert_eq!(unquote("\"\""), "");
    assert_eq!(unquote("\tplain\n"), "plain");
}

#[test]
fn declaration_order_does_not_show_in_the_module() {
    let m1 = Module::parse_wat(
        r#"(module
             (func $b (export "y") (result i32) (i32.const 2))
             (func $a (export "x") (result i32) (i32.const 1)))"#,
    )
    .unwrap();
    let m2 = Module::parse_wat(
        r#"(module
             (func $a (export "x") (result i32) (i32.const 1))
             (func $b (export "y") (result i32) (i32.const 2)))"#,
    )
    .unwrap();
    assert_eq!(m1, m2);
    assert_eq!(m1.funcs[0].name, "$a");
    assert_eq!(m1.exports[1].0, "y");
}

#[test]
fn cloned_module_is_equal() {
    let m = single("(if (local.get $a) (then (call $f (i32.const 0) (local.get $b))) (else (i32.rem_s (local.get $b) (i32.const 3))))");
    let c = m.clone();
    assert_eq!(c, m);
    assert_eq!(c.invoke("f", &[1, 7]).unwrap(), m.invoke("f", &[1, 7]).unwrap());
    let e = Expr::Call { func_name: "$g".to_string(), args: vec![Expr::Const(1)] };
    assert_eq!(e.clone(), e);
}

#[test]
fn bounded_invocation() {
    let m = Module::parse_wat(
        r#"(module
             (func $loop (export "loop") (result i32) (call $loop))
             (func $two (export "two") (result i32) (i32.add (i32.const 1) (i32.const 1))))"#,
    )
    .unwrap();
    assert_eq!(m.invoke_bounded("two", &[], 0), None);
    assert_eq!(m.invoke_bounded("two", &[], 1), None);
    assert_eq!(m.invoke_bounded("two", &[], 2), Some(Ok(2)));
    assert_eq!(m.invoke_bounded("loop", &[], 50), None);
    assert_eq!(
        m.invoke_bounded("none", &[], 0),
        Some(Err("Export or function 'none' not found in module".to_string()))
    );
}

#[test]
fn function_declarations_item_by_item() {
    let m = Module::parse_wat(
        r#"(module (func (export "a") (param $x i32) (export "b") (param $y i32)
                     (i32.const 1) (result i32) (i32.sub (local.get $x) (local.get $y))))"#,
    )
    .unwrap();
    let f = &m.funcs[0];
    assert_eq!(f.name, "$b");
    assert_eq!(f.export_name, Some("b".to_string()));
    assert_eq!(f.params, vec!["$x".to_string(), "$y".to_string()]);
    assert_eq!(f.result, Some("i32".to_string()));
    assert_eq!(f.body.len(), 2);
    assert_eq!(m.invoke("b", &[5, 2]).unwrap(), 3);
    let none = Module::parse_wat("(module (func $n (i32.const 1)))").unwrap();
    assert_eq!(none.funcs[0].result, None);
}

#[test]
fn if_parts_item_by_item() {
    let m = Module::parse_wat(
        r#"(module (func $f (export "f") (param $c i32) (result i32)
             (if (then (i32.const 1)) (result i32) (local.get $c) (else (i32.const 2)) (then (i32.const 3)))))"#,
    )
    .unwrap();
    match &m.funcs[0].body[0] {
        Expr::If { then_branch, else_branch, .. } => {
            assert_eq!(then_branch, &vec![Expr::Const(1), Expr::Const(3)]);
            assert_eq!(else_branch, &vec![Expr::Const(2)]);
        }
        _ => panic!("expected an if"),
    }
    assert_eq!(m.invoke("f", &[1]).unwrap(), 3);
    assert_eq!(m.invoke("f", &[0]).unwrap(), 2);
    assert!(Module::parse_wat("(module (func $f (if (i32.const 1) ())))").is_err());
}
