use tiny_wat_interpreter::Module;

#[test]
fn test_parse_invalid_module() {
    assert!(Module::parse_wat("not a module").is_err());
    assert!(Module::parse_wat("(func $foo)").is_err());
    assert!(Module::parse_wat("(module (unsupported_form))").is_err());
}

#[test]
fn test_arithmetic_and_overflow() {
    let wat = r#"
    (module
        (func $math (export "math") (param $a i32) (param $b i32) (result i32)
            (i32.add (local.get $a) (local.get $b))
        )
        (func $mul (export "mul") (param $a i32) (param $b i32) (result i32)
            (i32.mul (local.get $a) (local.get $b))
        )
        (func $rem (export "rem") (param $a i32) (param $b i32) (result i32)
            (i32.rem_s (local.get $a) (local.get $b))
        )
        (func $lt (export "lt") (param $a i32) (param $b i32) (result i32)
            (i32.lt_s (local.get $a) (local.get $b))
        )
    )
    "#;
    let module = Module::parse_wat(wat).unwrap();

    // 32-bit wrapping addition
    assert_eq!(module.invoke("math", &[i32::MAX, 1]).unwrap(), i32::MIN);
    // Multiplication wrapping
    assert_eq!(
        module.invoke("mul", &[100_000, 100_000]).unwrap(),
        (100_000i64 * 100_000i64) as i32
    );
    // Signed comparison
    assert_eq!(module.invoke("lt", &[-5, 5]).unwrap(), 1);
    assert_eq!(module.invoke("lt", &[5, -5]).unwrap(), 0);
    // Remainder and overflow edge cases
    assert_eq!(module.invoke("rem", &[10, 3]).unwrap(), 1);
    assert_eq!(module.invoke("rem", &[-10, 3]).unwrap(), -1);
    assert_eq!(module.invoke("rem", &[i32::MIN, -1]).unwrap(), 0);
}

#[test]
fn test_division_by_zero_error() {
    let wat = r#"
    (module
        (func $rem (export "rem") (param $a i32) (param $b i32) (result i32)
            (i32.rem_s (local.get $a) (local.get $b))
        )
    )
    "#;
    let module = Module::parse_wat(wat).unwrap();
    let res = module.invoke("rem", &[10, 0]);
    assert!(res.is_err());
    assert!(res.unwrap_err().contains("Division by zero"));
}

#[test]
fn test_unknown_export_and_arity_mismatch() {
    let wat = r#"
    (module
        (func $foo (export "foo") (param $a i32) (result i32)
            (local.get $a)
        )
    )
    "#;
    let module = Module::parse_wat(wat).unwrap();
    assert!(module.invoke("nonexistent", &[1]).is_err());
    assert!(module.invoke("foo", &[]).is_err());
    assert!(module.invoke("foo", &[1, 2]).is_err());
}

#[test]
fn test_undefined_local_and_function_call() {
    let wat_local = r#"
    (module
        (func $foo (export "foo") (result i32)
            (local.get $missing)
        )
    )
    "#;
    let module_local = Module::parse_wat(wat_local).unwrap();
    assert!(module_local.invoke("foo", &[]).is_err());

    let wat_call = r#"
    (module
        (func $foo (export "foo") (result i32)
            (call $missing (i32.const 1))
        )
    )
    "#;
    let module_call = Module::parse_wat(wat_call).unwrap();
    assert!(module_call.invoke("foo", &[]).is_err());
}
