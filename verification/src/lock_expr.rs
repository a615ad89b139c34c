//! The attribute-argument parser: captures the annotation's argument as an
//! opaque lock-acquisition expression.
//!
//! The accepted grammar, after surrounding whitespace is removed and with no
//! whitespace inside, is an identifier optionally followed by member or
//! method-call segments, optionally ending in the suspension marker `.await`:
//! `LOCK`, `LOCK.lock()`, `LOCK.blocking_lock()`, `LOCK.lock().await`.
//! The text is captured verbatim; the engine never inspects its semantics.

use vstd::prelude::*;

use crate::errors::TransformError;
use crate::scan::is_ident_start;
use crate::scan::is_ident_start_byte;
use crate::scan::lemma_match_delim_bounds;
use crate::scan::lemma_scan_ident_bounds;
use crate::scan::match_delim;
use crate::scan::copy_range;
use crate::scan::rtrim;
use crate::scan::scan_ident;
use crate::scan::skip_ws;
use crate::scan::spec_match_delim;
use crate::scan::spec_rtrim;
use crate::scan::spec_scan_ident;
use crate::scan::spec_skip_ws;

verus! {

/// The suspension-marker keyword, "await", as bytes.
pub open spec fn kw_await() -> Seq<u8> {
    seq![97u8, 119u8, 97u8, 105u8, 116u8]
}

/// True when `s` is one bare identifier and nothing more.
pub open spec fn spec_is_bare_ident(s: Seq<u8>) -> bool {
    s.len() > 0 && is_ident_start(s[0]) && spec_scan_ident(s, 0) == s.len()
}

/// Parses the member/method chain that may follow the base identifier, from
/// position `i` to the end of `s`. Yields `Some(susp)` when the remainder is
/// a well-formed chain, where `susp` says whether it ends in the suspension
/// marker `.await`; `None` otherwise. The marker may only stand last.
pub open spec fn spec_chain(s: Seq<u8>, i: int) -> Option<bool>
    decreases s.len() - i when 0 <= i <= s.len()
{
    if i == s.len() {
        Some(false)
    } else if s[i] != 46 {
        None
    } else {
        let k = spec_scan_ident(s, i + 1);
        if k == i + 1 {
            None
        } else if s.subrange(i + 1, k) == kw_await() {
            if k == s.len() {
                Some(true)
            } else {
                None
            }
        } else if k < s.len() && s[k] == 40 {
            match spec_match_delim(s, k + 1, 1, 40, 41) {
                Some(m) => {
                    proof {
                        lemma_scan_ident_bounds(s, i + 1);
                        lemma_match_delim_bounds(s, k + 1, 1, 40, 41);
                    }
                    spec_chain(s, m)
                },
                None => None,
            }
        } else {
            proof {
                lemma_scan_ident_bounds(s, i + 1);
            }
            spec_chain(s, k)
        }
    }
}

/// The whole-argument grammar: `Some(susp)` when `s` is a well-formed lock
/// expression, with `susp` true exactly when it ends in the suspension
/// marker; `None` otherwise.
pub open spec fn spec_lock_expr(s: Seq<u8>) -> Option<bool> {
    if s.len() == 0 || !is_ident_start(s[0]) {
        None
    } else {
        spec_chain(s, spec_scan_ident(s, 0))
    }
}

/// `s` with surrounding ASCII whitespace removed.
pub open spec fn spec_trim(s: Seq<u8>) -> Seq<u8> {
    let a = spec_skip_ws(s, 0);
    let b = spec_rtrim(s, s.len() as int);
    if a <= b {
        s.subrange(a, b)
    } else {
        Seq::empty()
    }
}

/// An opaque, unevaluated lock-acquisition expression, captured exactly as
/// written (up to the whitespace around it). Created once per annotation,
/// consumed by the prologue injector, never evaluated by the engine.
pub struct LockExpression {
    /// The expression text, verbatim.
    pub text: Vec<u8>,
    /// Whether the expression ends in the suspension marker `.await`.
    pub suspending: bool,
}

impl LockExpression {
    /// The captured text is a well-formed lock expression whose trailing
    /// suspension marker matches the flag.
    pub open spec fn wf(&self) -> bool {
        spec_lock_expr(self.text@) == Some(self.suspending)
    }
}

/// True exactly when `s[a..b]` spells the suspension-marker keyword.
fn range_is_await(s: &Vec<u8>, a: usize, b: usize) -> (r: bool)
    requires
        a <= b <= s.len(),
    ensures
        r == (s@.subrange(a as int, b as int) == kw_await()),
{
    if b - a != 5 {
        proof {
            assert(kw_await().len() == 5);
            assert(s@.subrange(a as int, b as int).len() == b - a);
        }
        return false;
    }
    if s[a] != 97 || s[a + 1] != 119 || s[a + 2] != 97 || s[a + 3] != 105 || s[a + 4] != 116 {
        proof {
            if s@.subrange(a as int, b as int) == kw_await() {
                assert(s@.subrange(a as int, b as int)[0] == 97);
                assert(s@.subrange(a as int, b as int)[1] == 119);
                assert(s@.subrange(a as int, b as int)[2] == 97);
                assert(s@.subrange(a as int, b as int)[3] == 105);
                assert(s@.subrange(a as int, b as int)[4] == 116);
            }
        }
        return false;
    }
    proof {
        assert(s@.subrange(a as int, b as int) =~= kw_await());
    }
    true
}

/// True when `s` is one bare identifier; such an expression names the lock
/// object itself, and the default blocking acquisition is applied to it.
pub fn is_bare_ident(s: &Vec<u8>) -> (r: bool)
    ensures
        r == spec_is_bare_ident(s@),
{
    s.len() > 0 && is_ident_start_byte(s[0]) && scan_ident(s, 0) == s.len()
}

/// Parses the raw token text following the annotation name into a
/// `LockExpression`. Succeeds exactly on the inputs whose trimmed text is a
/// well-formed lock expression, and captures that text verbatim; every other
/// input fails the whole transformation with `ArgumentParse`.
pub fn parse_lock_expr(raw: &Vec<u8>) -> (r: Result<LockExpression, TransformError>)
    ensures
        r is Ok <==> spec_lock_expr(spec_trim(raw@)) is Some,
        r matches Ok(e) ==> e.text@ == spec_trim(raw@) && Some(e.suspending) == spec_lock_expr(
            spec_trim(raw@),
        ) && e.wf(),
        r matches Err(er) ==> er == TransformError::ArgumentParse,
{
    let a = skip_ws(raw, 0);
    let b = rtrim(raw, raw.len());
    let t: Vec<u8> = if a <= b {
        copy_range(raw, a, b)
    } else {
        Vec::new()
    };
    proof {
        assert(t@ == spec_trim(raw@));
    }
    if t.len() == 0 || !is_ident_start_byte(t[0]) {
        return Err(TransformError::ArgumentParse);
    }
    let base_end = scan_ident(&t, 0);
    let mut i: usize = base_end;
    loop
        invariant
            i <= t.len(),
            t@ == spec_trim(raw@),
            t@.len() > 0 && is_ident_start(t@[0]),
            spec_lock_expr(t@) == spec_chain(t@, i as int),
        decreases t.len() - i,
    {
        if i == t.len() {
            return Ok(LockExpression { text: t, suspending: false });
        }
        if t[i] != 46 {
            return Err(TransformError::ArgumentParse);
        }
        let k = scan_ident(&t, i + 1);
        if k == i + 1 {
            return Err(TransformError::ArgumentParse);
        }
        if range_is_await(&t, i + 1, k) {
            if k == t.len() {
                return Ok(LockExpression { text: t, suspending: true });
            }
            return Err(TransformError::ArgumentParse);
        }
        if k < t.len() && t[k] == 40 {
            match match_delim(&t, k + 1, 40, 41) {
                Some(m) => {
                    i = m;
                },
                None => {
                    return Err(TransformError::ArgumentParse);
                },
            }
        } else {
            i = k;
        }
    }
}

} // verus!
