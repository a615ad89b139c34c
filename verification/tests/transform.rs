use nonparallel::errors::TransformError;
use nonparallel::func_model::parse_function;
use nonparallel::nonparallel;

fn transform(attr: &[u8], item: &[u8]) -> Result<Vec<u8>, TransformError> {
    nonparallel(&attr.to_vec(), &item.to_vec())
}

/// The guard statement spliced into `out`: the bytes after the first `{`
/// up to and including the first `;`.
fn inserted_guard(out: &[u8]) -> Vec<u8> {
    let open = out.iter().position(|&c| c == b'{').unwrap();
    let semi = out.iter().position(|&c| c == b';').unwrap();
    out[open + 1..=semi].to_vec()
}

#[test]
fn bare_identifier_gets_default_acquisition() {
    let out = transform(b"MUT_A", b"fn function_a1() { do_work(); }").unwrap();
    assert_eq!(out, b"fn function_a1() { let guard = MUT_A.lock(); do_work(); }".to_vec());
}

#[test]
fn method_chain_is_replayed_verbatim() {
    let out = transform(b"MUT_A.blocking_lock()", b"async fn around_rt() {}").unwrap();
    assert_eq!(out, b"async fn around_rt() { let guard = MUT_A.blocking_lock();}".to_vec());
}

#[test]
fn member_access_is_replayed_verbatim() {
    let out = transform(b"LOCKS.inner", b"fn f() {}").unwrap();
    assert_eq!(out, b"fn f() { let guard = LOCKS.inner;}".to_vec());
}

#[test]
fn suspending_expression_in_async_function() {
    let out = transform(b"MUT_A.lock().await", b"async fn inside_rt() {}").unwrap();
    assert_eq!(out, b"async fn inside_rt() { let guard = MUT_A.lock().await;}".to_vec());
}

#[test]
fn suspending_expression_in_sync_function_fails_at_transform_time() {
    let r = transform(b"MUT_A.lock().await", b"fn f() {}");
    assert_eq!(r, Err(TransformError::ReinjectionParse));
}

#[test]
fn non_function_items_are_rejected() {
    assert_eq!(transform(b"MUT_A", b"struct Foo {}"), Err(TransformError::NotAFunction));
    assert_eq!(transform(b"MUT_A", b"const X: u32 = 1;"), Err(TransformError::NotAFunction));
    assert_eq!(
        transform(b"MUT_A", b"impl Foo { fn f(&self) {} }"),
        Err(TransformError::NotAFunction)
    );
    assert_eq!(transform(b"MUT_A", b""), Err(TransformError::NotAFunction));
}

#[test]
fn malformed_arguments_are_rejected() {
    for attr in [
        &b""[..],
        b"   ",
        b"1abc",
        b"A..b",
        b"A.",
        b"A.lock(",
        b"A.lock().await.lock()",
        b"A.await.b",
        b"A B",
    ] {
        assert_eq!(transform(attr, b"fn f() {}"), Err(TransformError::ArgumentParse));
    }
}

#[test]
fn surrounding_whitespace_in_argument_is_trimmed() {
    let a = transform(b"  MUT_A \n", b"fn f() { work(); }").unwrap();
    let b = transform(b"MUT_A", b"fn f() { work(); }").unwrap();
    assert_eq!(a, b);
}

#[test]
fn signature_attributes_and_formatting_are_preserved() {
    let item = b"#[test]\npub async fn get<T: Clone>(x: T) -> T where T: Send {\n    x\n}\n";
    let out = transform(b"GUARD_LOCK.lock().await", item).unwrap();
    let mut expected = b"#[test]\npub async fn get<T: Clone>(x: T) -> T where T: Send {".to_vec();
    expected.extend_from_slice(b" let guard = GUARD_LOCK.lock().await;");
    expected.extend_from_slice(b"\n    x\n}\n");
    assert_eq!(out, expected);
}

#[test]
fn statements_keep_their_order_after_the_guard() {
    let item = b"fn steps() { first(); if cond { second(); } third() }";
    let out = transform(b"STEP_LOCK", item).unwrap();
    assert_eq!(
        out,
        b"fn steps() { let guard = STEP_LOCK.lock(); first(); if cond { second(); } third() }"
            .to_vec()
    );
}

#[test]
fn emitted_output_reparses_as_a_function() {
    let out = transform(b"MUT_A", b"pub(crate) fn f(a: u8, b: u8) -> u8 { a + b }").unwrap();
    assert!(parse_function(&out).is_ok());
    // and the output can itself be annotated again
    assert!(transform(b"MUT_B", &out).is_ok());
}

#[test]
fn same_lock_expression_yields_the_same_guard_statement() {
    let out1 = transform(b"MUT_A", b"fn append1(vec: V) { push(1); }").unwrap();
    let out2 = transform(b"MUT_A", b"fn append2(vec: V) { push(2); }").unwrap();
    let out3 = transform(b"MUT_A", b"fn append3(vec: V) { push(3); }").unwrap();
    let g1 = inserted_guard(&out1);
    let g2 = inserted_guard(&out2);
    let g3 = inserted_guard(&out3);
    assert_eq!(g1, g2);
    assert_eq!(g2, g3);
    assert_eq!(g1, b" let guard = MUT_A.lock();".to_vec());
}

#[test]
fn different_lock_expressions_yield_different_guard_statements() {
    let out_a = transform(b"MUT_A", b"fn fa() { work_a(); }").unwrap();
    let out_b = transform(b"MUT_B", b"fn fb() { work_b(); }").unwrap();
    assert_eq!(inserted_guard(&out_a), b" let guard = MUT_A.lock();".to_vec());
    assert_eq!(inserted_guard(&out_b), b" let guard = MUT_B.lock();".to_vec());
    assert_ne!(inserted_guard(&out_a), inserted_guard(&out_b));
}

#[test]
fn reinjection_check_catches_a_brace_smuggled_in_the_argument() {
    // `A.f({)` is a well-formed lock expression (the parenthesized argument
    // text is opaque), but the brace it carries breaks the braces of the
    // assembled body, so the defensive re-parse refuses the result.
    let r = transform(b"A.f({)", b"fn f() {}");
    assert_eq!(r, Err(TransformError::ReinjectionParse));
}

#[test]
fn failure_reports_no_output() {
    // every failing case hands back only the error, never text
    let r = transform(b"MUT_A", b"enum E { A }");
    assert!(matches!(r, Err(TransformError::NotAFunction)));
    let r = transform(b"", b"fn f() {}");
    assert!(matches!(r, Err(TransformError::ArgumentParse)));
}
