use nonparallel::errors::TransformError;
use nonparallel::func_model::parse_function;
use nonparallel::lock_expr::parse_lock_expr;

#[test]
fn lock_expression_is_captured_verbatim() {
    let e = parse_lock_expr(&b"MUT_A".to_vec()).unwrap();
    assert_eq!(e.text, b"MUT_A".to_vec());
    assert!(!e.suspending);

    let e = parse_lock_expr(&b"MUT_A.lock().await".to_vec()).unwrap();
    assert_eq!(e.text, b"MUT_A.lock().await".to_vec());
    assert!(e.suspending);

    let e = parse_lock_expr(&b"MUT_A.blocking_lock()".to_vec()).unwrap();
    assert_eq!(e.text, b"MUT_A.blocking_lock()".to_vec());
    assert!(!e.suspending);

    let e = parse_lock_expr(&b"locks.table(0).guard".to_vec()).unwrap();
    assert_eq!(e.text, b"locks.table(0).guard".to_vec());
    assert!(!e.suspending);
}

#[test]
fn lock_expression_errors() {
    for raw in [&b""[..], b" ", b".lock()", b"9A", b"A.()", b"A.lock)", b"A+B"] {
        assert!(matches!(parse_lock_expr(&raw.to_vec()), Err(TransformError::ArgumentParse)));
    }
}

#[test]
fn function_model_splits_the_declaration_losslessly() {
    let item = b"#[inline]\npub(crate) async fn go<T>(x: T) -> T {\n    step();\n    x\n}\n";
    let m = parse_function(&item.to_vec()).unwrap();
    assert_eq!(m.attrs, b"#[inline]\n".to_vec());
    assert_eq!(m.vis, b"pub(crate) ".to_vec());
    assert_eq!(m.asyncness, b"async ".to_vec());
    assert_eq!(m.fn_kw, b"fn ".to_vec());
    assert_eq!(m.name, b"go".to_vec());
    assert_eq!(m.generics, b"<T>".to_vec());
    assert_eq!(m.params, b"(x: T)".to_vec());
    assert_eq!(m.tail, b" -> T ".to_vec());
    assert_eq!(m.trailing, b"\n".to_vec());
    let body: Vec<u8> = m.stmts.iter().flatten().copied().collect();
    assert_eq!(body, b"\n    step();\n    x\n".to_vec());
}

#[test]
fn function_model_statement_fragments_cover_blocks() {
    let item = b"fn f() { a(); if c { b(); } tail() }";
    let m = parse_function(&item.to_vec()).unwrap();
    let body: Vec<u8> = m.stmts.iter().flatten().copied().collect();
    assert_eq!(body, b" a(); if c { b(); } tail() ".to_vec());
    assert!(m.stmts.len() >= 3);
}

#[test]
fn function_parser_rejects_other_declarations() {
    for item in [
        &b"struct S;"[..],
        b"mod m {}",
        b"trait T { fn f(); }",
        b"fn broken( {}",
        b"fn trailing() {} junk",
        b"fn noname() {}x",
    ] {
        assert!(parse_function(&item.to_vec()).is_err());
    }
}

#[test]
fn async_qualifier_is_recognized() {
    let m = parse_function(&b"async fn f() {}".to_vec()).unwrap();
    assert!(m.is_async());
    let m = parse_function(&b"fn f() {}".to_vec()).unwrap();
    assert!(!m.is_async());
}
