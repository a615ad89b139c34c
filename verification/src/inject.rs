//! The prologue injector: builds the one guard-binding statement and
//! prepends it to the function's body, ahead of every original statement.
//!
//! The guard binding's scope is the entire remainder of the body, so under
//! ordinary blocking acquisition the mutual-exclusion window spans exactly
//! one call of the function, covering every exit path (normal return, early
//! return, propagated failure) through the guard's own release on scope
//! exit; nothing further is added for release.
//!
//! Soundness caveat, preserved deliberately: when the lock expression ends
//! in the suspension marker, the generated statement is itself a suspension
//! point, and if the body contains further suspension points after the guard
//! is acquired, the guard may still be held while the surrounding scheduler
//! interleaves unrelated work on the same execution resource. Exclusivity
//! with respect to other functions guarded by the same lock still holds;
//! exclusivity with respect to unrelated work sharing the scheduler is not
//! implied. The injector never analyzes or rejects this situation — choosing
//! between a scope-spanning guard and a manually scoped critical section is
//! the caller's responsibility, since this engine only ever prepends one
//! statement.

use vstd::prelude::*;

use crate::errors::TransformError;
use crate::func_model::FunctionModel;
use crate::func_model::lemma_cat_prepend;
use crate::func_model::spec_is_async;
use crate::lock_expr::LockExpression;
use crate::lock_expr::is_bare_ident;
use crate::lock_expr::spec_is_bare_ident;

verus! {

/// The statement prefix " let guard = " as bytes.
pub open spec fn guard_prefix() -> Seq<u8> {
    seq![32u8, 108u8, 101u8, 116u8, 32u8, 103u8, 117u8, 97u8, 114u8, 100u8, 32u8, 61u8, 32u8]
}

/// The default blocking acquisition ".lock()" as bytes.
pub open spec fn default_acquire() -> Seq<u8> {
    seq![46u8, 108u8, 111u8, 99u8, 107u8, 40u8, 41u8]
}

/// The acquisition expression evaluated by the guard statement: a bare
/// identifier names the lock object and receives the default blocking
/// acquisition; any fuller expression is replayed verbatim.
pub open spec fn spec_acquire_text(t: Seq<u8>) -> Seq<u8> {
    if spec_is_bare_ident(t) {
        t + default_acquire()
    } else {
        t
    }
}

/// The guard-binding statement built for lock-expression text `t`:
/// ` let guard = ` + acquisition expression + `;`.
pub open spec fn spec_guard_stmt(t: Seq<u8>) -> Seq<u8> {
    guard_prefix() + spec_acquire_text(t) + seq![59u8]
}

/// Builds the guard-binding statement fragment for a lock expression.
pub fn build_guard_stmt(e: &LockExpression) -> (r: Vec<u8>)
    ensures
        r@ == spec_guard_stmt(e.text@),
{
    let mut r: Vec<u8> = Vec::new();
    r.push(32);
    r.push(108);
    r.push(101);
    r.push(116);
    r.push(32);
    r.push(103);
    r.push(117);
    r.push(97);
    r.push(114);
    r.push(100);
    r.push(32);
    r.push(61);
    r.push(32);
    proof {
        assert(r@ =~= guard_prefix());
    }
    let mut j: usize = 0;
    while j < e.text.len()
        invariant
            j <= e.text.len(),
            r@ == guard_prefix() + e.text@.subrange(0, j as int),
        decreases e.text.len() - j,
    {
        r.push(e.text[j]);
        j = j + 1;
        proof {
            assert(guard_prefix() + e.text@.subrange(0, j as int) =~= (guard_prefix()
                + e.text@.subrange(0, j - 1)).push(e.text@[j - 1]));
        }
    }
    proof {
        assert(e.text@.subrange(0, e.text@.len() as int) =~= e.text@);
    }
    if is_bare_ident(&e.text) {
        r.push(46);
        r.push(108);
        r.push(111);
        r.push(99);
        r.push(107);
        r.push(40);
        r.push(41);
        proof {
            assert(r@ =~= guard_prefix() + (e.text@ + default_acquire()));
        }
    }
    r.push(59);
    proof {
        assert(r@ =~= spec_guard_stmt(e.text@));
    }
    r
}

/// Prepends the guard-binding statement to the body, ahead of position zero
/// — ahead of all original statements, including any that declare locals the
/// original author wrote first. Every signature fragment and every original
/// statement is returned unchanged and in order. Fails, statically, when the
/// lock expression ends in the suspension marker but the function is not
/// asynchronous: the generated statement would not be valid syntax in the
/// function's context.
pub fn inject_prologue(e: &LockExpression, m: FunctionModel) -> (r: Result<
    FunctionModel,
    TransformError,
>)
    ensures
        r is Ok <==> !(e.suspending && !spec_is_async(m@)),
        r matches Ok(out) ==> ({
            &&& out@.attrs == m@.attrs
            &&& out@.vis == m@.vis
            &&& out@.asyncness == m@.asyncness
            &&& out@.fn_kw == m@.fn_kw
            &&& out@.name == m@.name
            &&& out@.generics == m@.generics
            &&& out@.params == m@.params
            &&& out@.tail == m@.tail
            &&& out@.trailing == m@.trailing
            &&& out.stmts@.len() == m.stmts@.len() + 1
            &&& out.stmts@[0]@ == spec_guard_stmt(e.text@)
            &&& (forall|i: int| 0 <= i < m.stmts@.len() ==> out.stmts@[i + 1] == m.stmts@[i])
            &&& out@.body == spec_guard_stmt(e.text@) + m@.body
        }),
        r matches Err(er) ==> er == TransformError::ReinjectionParse,
{
    if e.suspending && !m.is_async() {
        return Err(TransformError::ReinjectionParse);
    }
    let g = build_guard_stmt(e);
    let ghost gv = g@;
    let ghost olddv = m.stmts.deep_view();
    let mut out = m;
    out.stmts.insert(0, g);
    proof {
        assert(out.stmts.deep_view() =~~= seq![gv] + olddv);
        lemma_cat_prepend(gv, olddv);
    }
    Ok(out)
}

} // verus!
