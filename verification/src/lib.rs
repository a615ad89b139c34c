//! A source-transformation engine that lets a function declaration be
//! annotated so that, before any of its original logic runs, it first
//! acquires a named mutual-exclusion lock and holds it for the duration of
//! the call. Functions annotated with the same lock expression never execute
//! concurrently; functions annotated with different locks are independent.
//!
//! The engine is purely syntactic and runs once, at build time, per
//! annotated item; it holds no state across invocations. It parses the
//! annotation's argument as an opaque lock-acquisition expression, parses
//! the annotated item as a function, prepends exactly one guard-binding
//! statement to the body, and emits the declaration again, byte-identical to
//! the input but for that one inserted statement. It does not implement
//! locking, does not analyze whether the expression is safe to evaluate
//! across suspension points, and supports no timeouts or retries of its own.
//!
//! The exclusion key of the generated program is the identity of the object
//! the lock expression names — by the name the author wrote, not by
//! structural value. Two textually different expressions that reference the
//! same underlying lock are not recognized as the same key, and two equal
//! texts naming different objects are not told apart: exclusion rests on the
//! author's naming discipline, a deliberate, documented limitation.

pub mod emit;
pub mod errors;
pub mod func_model;
pub mod inject;
pub mod lock_expr;
pub mod roundtrip;
pub mod scan;

use vstd::prelude::*;

use crate::emit::emit;
use crate::errors::TransformError;
use crate::func_model::FnModelView;
use crate::func_model::lemma_parse_fn_text;
use crate::func_model::parse_function;
use crate::func_model::prefix_text;
use crate::func_model::spec_is_async;
use crate::func_model::spec_parse_fn;
use crate::func_model::suffix_text;
use crate::func_model::text_of;
use crate::inject::inject_prologue;
use crate::inject::spec_guard_stmt;
use crate::lock_expr::parse_lock_expr;
use crate::roundtrip::brace_free;
use crate::roundtrip::lemma_guard_stmt_brace_free;
use crate::roundtrip::lemma_splice_reparses;
use crate::lock_expr::spec_lock_expr;
use crate::lock_expr::spec_trim;

verus! {

/// What the transformation returns, input by input.
///
/// A malformed argument fails with `ArgumentParse`; any item that is not a
/// function declaration fails with `NotAFunction`; a suspending expression
/// on a non-asynchronous function, or an assembled result that fails the
/// defensive re-parse, fails with `ReinjectionParse`. Otherwise the output
/// is the item with the guard-binding statement spliced in just after the
/// brace that opens the body, and nothing else changed.
pub open spec fn spec_transform(attr: Seq<u8>, item: Seq<u8>) -> Result<Seq<u8>, TransformError> {
    match spec_lock_expr(spec_trim(attr)) {
        None => Err(TransformError::ArgumentParse),
        Some(susp) => match spec_parse_fn(item) {
            None => Err(TransformError::NotAFunction),
            Some(m) => if susp && !spec_is_async(m) {
                Err(TransformError::ReinjectionParse)
            } else {
                let out = prefix_text(m) + spec_guard_stmt(spec_trim(attr)) + suffix_text(m);
                if spec_parse_fn(out) is Some {
                    Ok(out)
                } else {
                    Err(TransformError::ReinjectionParse)
                }
            },
        },
    }
}

/// Transforms one annotated function declaration: `attr` is the token text
/// inside the annotation's argument position, `item` the token text of the
/// annotated item. On success the output is `item` with one new leading
/// statement in its body, which evaluates the lock expression and binds the
/// resulting guard for the remainder of the body; all other structure is
/// unchanged. On failure nothing is emitted.
pub fn nonparallel(attr: &Vec<u8>, item: &Vec<u8>) -> (r: Result<Vec<u8>, TransformError>)
    ensures
        r is Ok <==> spec_transform(attr@, item@) is Ok,
        r matches Ok(out) ==> spec_transform(attr@, item@) == Ok::<Seq<u8>, TransformError>(out@),
        r matches Err(er) ==> spec_transform(attr@, item@) == Err::<Seq<u8>, TransformError>(er),
{
    let e = match parse_lock_expr(attr) {
        Ok(e) => e,
        Err(er) => {
            return Err(er);
        },
    };
    let m = match parse_function(item) {
        Ok(m) => m,
        Err(er) => {
            return Err(er);
        },
    };
    let ghost mv = m@;
    let injected = match inject_prologue(&e, m) {
        Ok(x) => x,
        Err(er) => {
            return Err(er);
        },
    };
    proof {
        assert(text_of(injected@) =~= prefix_text(mv) + spec_guard_stmt(spec_trim(attr@))
            + suffix_text(mv));
    }
    match emit(&injected) {
        Ok(out) => Ok(out),
        Err(er) => Err(er),
    }
}

/// Single-insertion law: on success the output's body is the guard-binding
/// statement followed by the input's statements, in order and unmodified —
/// the output text is the input split at the brace that opens the body, with
/// exactly the guard statement spliced in between and every other byte kept.
pub proof fn lemma_single_insertion(attr: Seq<u8>, item: Seq<u8>)
    requires
        spec_transform(attr, item) is Ok,
    ensures
        spec_parse_fn(item) matches Some(m) && item == prefix_text(m) + suffix_text(m)
            && spec_transform(attr, item) == Ok::<Seq<u8>, TransformError>(
            prefix_text(m) + spec_guard_stmt(spec_trim(attr)) + suffix_text(m),
        ),
{
    lemma_parse_fn_text(item);
}

/// Round-trip law: re-parsing the emitted output as the same kind of
/// declaration always succeeds.
pub proof fn lemma_output_reparses(attr: Seq<u8>, item: Seq<u8>)
    requires
        spec_transform(attr, item) is Ok,
    ensures
        spec_transform(attr, item) matches Ok(out) ==> spec_parse_fn(out) is Some,
{
}

/// Signature-preservation law: the emitted output prints a model whose name,
/// parameters, generics, return type, async qualifier, visibility and
/// attached attributes are the input's, byte for byte; only the body gained
/// the one leading statement.
pub proof fn lemma_signature_preserved(attr: Seq<u8>, item: Seq<u8>)
    requires
        spec_transform(attr, item) is Ok,
    ensures
        spec_parse_fn(item) matches Some(m) && spec_transform(attr, item) == Ok::<
            Seq<u8>,
            TransformError,
        >(
            text_of(
                FnModelView {
                    body: spec_guard_stmt(spec_trim(attr)) + m.body,
                    ..m
                },
            ),
        ),
{
    let m = spec_parse_fn(item)->Some_0;
    let m2 = FnModelView { body: spec_guard_stmt(spec_trim(attr)) + m.body, ..m };
    assert(text_of(m2) =~= prefix_text(m) + spec_guard_stmt(spec_trim(attr)) + suffix_text(m));
}

/// Rejection law: applied to anything that is not a function declaration,
/// the transformation always fails with `NotAFunction` and emits nothing.
pub proof fn lemma_rejects_non_function(attr: Seq<u8>, item: Seq<u8>)
    requires
        spec_lock_expr(spec_trim(attr)) is Some,
        spec_parse_fn(item) is None,
    ensures
        spec_transform(attr, item) == Err::<Seq<u8>, TransformError>(TransformError::NotAFunction),
{
}

/// Suspending-variant law: a lock expression that ends in the suspension
/// marker demands an asynchronous function; on a non-asynchronous one the
/// transformation fails at transform time, never at execution time.
pub proof fn lemma_suspending_requires_async(attr: Seq<u8>, item: Seq<u8>)
    requires
        spec_lock_expr(spec_trim(attr)) == Some(true),
        spec_parse_fn(item) matches Some(m) && !spec_is_async(m),
    ensures
        spec_transform(attr, item) == Err::<Seq<u8>, TransformError>(
            TransformError::ReinjectionParse,
        ),
{
}

/// Shared-key law: the inserted guard statement is a function of the lock
/// expression alone, so two functions annotated with the same expression
/// receive the identical statement — the syntactic footing of their mutual
/// exclusion, which at run time is exclusion on the one object that
/// expression names.
pub proof fn lemma_same_expression_same_guard(attr: Seq<u8>, item1: Seq<u8>, item2: Seq<u8>)
    requires
        spec_transform(attr, item1) is Ok,
        spec_transform(attr, item2) is Ok,
    ensures
        spec_parse_fn(item1) matches Some(m1) && spec_parse_fn(item2) matches Some(m2)
            && spec_transform(attr, item1) == Ok::<Seq<u8>, TransformError>(
            prefix_text(m1) + spec_guard_stmt(spec_trim(attr)) + suffix_text(m1),
        ) && spec_transform(attr, item2) == Ok::<Seq<u8>, TransformError>(
            prefix_text(m2) + spec_guard_stmt(spec_trim(attr)) + suffix_text(m2),
        ),
{
    lemma_single_insertion(attr, item1);
    lemma_single_insertion(attr, item2);
}

/// Success law: whenever the trimmed argument is a well-formed lock
/// expression free of brace bytes, the item parses as a function
/// declaration, and a suspending expression meets an asynchronous function,
/// the transformation succeeds: the defensive re-parse of the emitted text
/// provably never fails on such inputs.
pub proof fn lemma_transform_succeeds(attr: Seq<u8>, item: Seq<u8>)
    requires
        spec_parse_fn(item) is Some,
        spec_lock_expr(spec_trim(attr)) is Some,
        spec_lock_expr(spec_trim(attr)) == Some(true) ==> spec_is_async(
            spec_parse_fn(item)->Some_0,
        ),
        brace_free(spec_trim(attr)),
    ensures
        crate::spec_transform(attr, item) is Ok,
{
    lemma_guard_stmt_brace_free(spec_trim(attr));
    lemma_splice_reparses(item, spec_guard_stmt(spec_trim(attr)));
}

} // verus!
