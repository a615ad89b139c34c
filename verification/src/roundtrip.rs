//! The success law and what carries it: splicing a brace-free fragment —
//! the guard statement in particular — into a parsed declaration right
//! after the brace that opens its body yields text that parses again, so
//! the emitter's defensive re-parse never fails on such inputs. The
//! groundwork is a set of agreement lemmas: scanning is local, so two
//! inputs that agree on a prefix (or share a suffix) are scanned alike
//! there.

use vstd::prelude::*;

use crate::func_model::prefix_text;
use crate::func_model::spec_after_async;
use crate::func_model::spec_after_vis;
use crate::func_model::spec_skip_attrs;
use crate::func_model::kw_pub;
use crate::func_model::kw_async;
use crate::func_model::kw_fn;
use crate::func_model::lemma_parse_fn_text;
use crate::func_model::spec_is_async;
use crate::func_model::spec_parse_fn;
use crate::func_model::suffix_text;
use crate::inject::default_acquire;
use crate::inject::guard_prefix;
use crate::inject::spec_acquire_text;
use crate::inject::spec_guard_stmt;
use crate::lock_expr::spec_lock_expr;
use crate::lock_expr::spec_trim;
use crate::scan::is_ws;
use crate::scan::lemma_match_delim_bounds;
use crate::scan::lemma_scan_ident_bounds;
use crate::scan::lemma_skip_ws_bounds;
use crate::scan::spec_find_body_open;
use crate::scan::spec_match_delim;
use crate::scan::spec_scan_ident;
use crate::scan::spec_skip_ws;

verus! {

/// Two sequences that agree on the bytes before `c`.
pub open spec fn agree_upto(s1: Seq<u8>, s2: Seq<u8>, c: int) -> bool {
    0 <= c <= s1.len() && c <= s2.len() && s1.subrange(0, c) == s2.subrange(0, c)
}

proof fn lemma_agree_byte(s1: Seq<u8>, s2: Seq<u8>, c: int, j: int)
    requires
        agree_upto(s1, s2, c),
        0 <= j < c,
    ensures
        s1[j] == s2[j],
{
    assert(s1.subrange(0, c)[j] == s2.subrange(0, c)[j]);
}

pub proof fn lemma_skip_ws_agree(s1: Seq<u8>, s2: Seq<u8>, c: int, i: int)
    requires
        agree_upto(s1, s2, c),
        0 <= i <= c,
        spec_skip_ws(s1, i) < c,
    ensures
        spec_skip_ws(s2, i) == spec_skip_ws(s1, i),
    decreases c - i,
{
    lemma_skip_ws_bounds(s1, i);
    lemma_agree_byte(s1, s2, c, i);
    if is_ws(s1[i]) {
        lemma_skip_ws_agree(s1, s2, c, i + 1);
    }
}

pub proof fn lemma_scan_ident_agree(s1: Seq<u8>, s2: Seq<u8>, c: int, i: int)
    requires
        agree_upto(s1, s2, c),
        0 <= i <= c,
        spec_scan_ident(s1, i) < c,
    ensures
        spec_scan_ident(s2, i) == spec_scan_ident(s1, i),
    decreases c - i,
{
    lemma_scan_ident_bounds(s1, i);
    lemma_agree_byte(s1, s2, c, i);
    if crate::scan::is_ident_cont(s1[i]) {
        lemma_scan_ident_agree(s1, s2, c, i + 1);
    }
}

pub proof fn lemma_match_delim_agree(
    s1: Seq<u8>,
    s2: Seq<u8>,
    c: int,
    i: int,
    depth: int,
    open: u8,
    close: u8,
)
    requires
        agree_upto(s1, s2, c),
        0 <= i <= c,
        depth >= 1,
        spec_match_delim(s1, i, depth, open, close) matches Some(m) && m <= c,
    ensures
        spec_match_delim(s2, i, depth, open, close) == spec_match_delim(s1, i, depth, open, close),
    decreases c - i,
{
    lemma_match_delim_bounds(s1, i, depth, open, close);
    lemma_agree_byte(s1, s2, c, i);
    if s1[i] == open {
        lemma_match_delim_agree(s1, s2, c, i + 1, depth + 1, open, close);
    } else if s1[i] == close {
        if depth != 1 {
            lemma_match_delim_agree(s1, s2, c, i + 1, depth - 1, open, close);
        }
    } else {
        lemma_match_delim_agree(s1, s2, c, i + 1, depth, open, close);
    }
}

pub proof fn lemma_find_body_open_agree(s1: Seq<u8>, s2: Seq<u8>, c: int, i: int, depth: int)
    requires
        agree_upto(s1, s2, c),
        0 <= i <= c,
        depth >= 0,
        spec_find_body_open(s1, i, depth) matches Some(t) && t < c,
    ensures
        spec_find_body_open(s2, i, depth) == spec_find_body_open(s1, i, depth),
    decreases c - i,
{
    crate::scan::lemma_find_body_open_bounds(s1, i, depth);
    lemma_agree_byte(s1, s2, c, i);
    if !(depth == 0 && s1[i] == 123) {
        if s1[i] == 40 || s1[i] == 91 {
            lemma_find_body_open_agree(s1, s2, c, i + 1, depth + 1);
        } else if s1[i] == 41 || s1[i] == 93 {
            lemma_find_body_open_agree(s1, s2, c, i + 1, depth - 1);
        } else {
            lemma_find_body_open_agree(s1, s2, c, i + 1, depth);
        }
    }
}

/// Matching a delimiter is unmoved by a run of bytes that are neither the
/// opener nor the closer.
pub proof fn lemma_match_delim_skip_free(
    s: Seq<u8>,
    i: int,
    k: int,
    depth: int,
    open: u8,
    close: u8,
)
    requires
        0 <= i,
        i + k <= s.len(),
        0 <= k,
        depth >= 1,
        forall|j: int| i <= j < i + k ==> s[j] != open && s[j] != close,
    ensures
        spec_match_delim(s, i, depth, open, close) == spec_match_delim(s, i + k, depth, open, close),
    decreases k,
{
    if k > 0 {
        lemma_match_delim_skip_free(s, i + 1, k - 1, depth, open, close);
    }
}

/// Two sequences with the same suffix are matched alike along it, up to the
/// shift between the two starting positions.
pub proof fn lemma_match_delim_shift(
    s1: Seq<u8>,
    s2: Seq<u8>,
    i1: int,
    i2: int,
    depth: int,
    open: u8,
    close: u8,
)
    requires
        0 <= i1 <= s1.len(),
        0 <= i2 <= s2.len(),
        depth >= 1,
        s1.subrange(i1, s1.len() as int) == s2.subrange(i2, s2.len() as int),
    ensures
        spec_match_delim(s2, i2, depth, open, close) == (match spec_match_delim(
            s1,
            i1,
            depth,
            open,
            close,
        ) {
            Some(m) => Some(m - i1 + i2),
            None => None,
        }),
    decreases s1.len() - i1,
{
    assert(s1.subrange(i1, s1.len() as int).len() == s1.len() - i1);
    assert(s2.subrange(i2, s2.len() as int).len() == s2.len() - i2);
    assert(s1.len() - i1 == s2.len() - i2);
    if i1 < s1.len() {
        assert(s1[i1] == s2[i2]) by {
            assert(s1.subrange(i1, s1.len() as int)[0] == s1[i1]);
            assert(s2.subrange(i2, s2.len() as int)[0] == s2[i2]);
            assert(s1.subrange(i1, s1.len() as int)[0] == s2.subrange(i2, s2.len() as int)[0]);
        }
        assert(s1.subrange(i1 + 1, s1.len() as int) =~= s2.subrange(i2 + 1, s2.len() as int)) by {
            assert forall|j: int| 0 <= j < s1.len() - i1 - 1 implies #[trigger] s1.subrange(
                i1 + 1,
                s1.len() as int,
            )[j] == s2.subrange(i2 + 1, s2.len() as int)[j] by {
                assert(s1.subrange(i1 + 1, s1.len() as int)[j] == s1[i1 + 1 + j]);
                assert(s2.subrange(i2 + 1, s2.len() as int)[j] == s2[i2 + 1 + j]);
                assert(s1.subrange(i1, s1.len() as int)[j + 1] == s1[i1 + j + 1]);
                assert(s2.subrange(i2, s2.len() as int)[j + 1] == s2[i2 + j + 1]);
                assert(s1.subrange(i1, s1.len() as int)[j + 1] == s2.subrange(
                    i2,
                    s2.len() as int,
                )[j + 1]);
            }
        }
        if s1[i1] == open {
            lemma_match_delim_shift(s1, s2, i1 + 1, i2 + 1, depth + 1, open, close);
        } else if s1[i1] == close {
            if depth != 1 {
                lemma_match_delim_shift(s1, s2, i1 + 1, i2 + 1, depth - 1, open, close);
            }
        } else {
            lemma_match_delim_shift(s1, s2, i1 + 1, i2 + 1, depth, open, close);
        }
    }
}

/// Two sequences with the same suffix skip whitespace alike along it.
pub proof fn lemma_skip_ws_shift(s1: Seq<u8>, s2: Seq<u8>, i1: int, i2: int)
    requires
        0 <= i1 <= s1.len(),
        0 <= i2 <= s2.len(),
        s1.subrange(i1, s1.len() as int) == s2.subrange(i2, s2.len() as int),
    ensures
        spec_skip_ws(s2, i2) == spec_skip_ws(s1, i1) - i1 + i2,
    decreases s1.len() - i1,
{
    assert(s1.subrange(i1, s1.len() as int).len() == s1.len() - i1);
    assert(s2.subrange(i2, s2.len() as int).len() == s2.len() - i2);
    assert(s1.len() - i1 == s2.len() - i2);
    if i1 < s1.len() {
        assert(s1[i1] == s2[i2]) by {
            assert(s1.subrange(i1, s1.len() as int)[0] == s1[i1]);
            assert(s2.subrange(i2, s2.len() as int)[0] == s2[i2]);
            assert(s1.subrange(i1, s1.len() as int)[0] == s2.subrange(i2, s2.len() as int)[0]);
        }
        if is_ws(s1[i1]) {
            assert(s1.subrange(i1 + 1, s1.len() as int) =~= s2.subrange(i2 + 1, s2.len() as int))
                by {
                assert forall|j: int| 0 <= j < s1.len() - i1 - 1 implies #[trigger] s1.subrange(
                    i1 + 1,
                    s1.len() as int,
                )[j] == s2.subrange(i2 + 1, s2.len() as int)[j] by {
                    assert(s1.subrange(i1 + 1, s1.len() as int)[j] == s1[i1 + 1 + j]);
                    assert(s2.subrange(i2 + 1, s2.len() as int)[j] == s2[i2 + 1 + j]);
                    assert(s1.subrange(i1, s1.len() as int)[j + 1] == s1[i1 + j + 1]);
                    assert(s2.subrange(i2, s2.len() as int)[j + 1] == s2[i2 + j + 1]);
                    assert(s1.subrange(i1, s1.len() as int)[j + 1] == s2.subrange(
                        i2,
                        s2.len() as int,
                    )[j + 1]);
                }
            }
            lemma_skip_ws_shift(s1, s2, i1 + 1, i2 + 1);
        }
    }
}

/// Pointwise agreement of two sequences on a common range.
pub proof fn lemma_agree_subrange(s1: Seq<u8>, s2: Seq<u8>, c: int, x: int, y: int)
    requires
        agree_upto(s1, s2, c),
        0 <= x <= y <= c,
    ensures
        s1.subrange(x, y) == s2.subrange(x, y),
{
    assert(s1.subrange(x, y) =~= s2.subrange(x, y)) by {
        assert forall|j: int| 0 <= j < y - x implies #[trigger] s1.subrange(x, y)[j]
            == s2.subrange(x, y)[j] by {
            lemma_agree_byte(s1, s2, c, x + j);
        }
    }
}

pub proof fn lemma_skip_attrs_agree(s1: Seq<u8>, s2: Seq<u8>, c: int, i: int)
    requires
        agree_upto(s1, s2, c),
        c < s1.len(),
        c < s2.len(),
        0 <= i <= c,
        spec_skip_attrs(s1, i) matches Some(a) && a < c && s1[a] != 35,
    ensures
        spec_skip_attrs(s2, i) == spec_skip_attrs(s1, i),
    decreases s1.len() - i,
{
    crate::func_model::lemma_skip_attrs_bounds(s1, i);
    let a = spec_skip_attrs(s1, i)->Some_0;
    lemma_agree_byte(s1, s2, c, i);
    if i + 1 < s1.len() && s1[i] == 35 && s1[i + 1] == 91 {
        assert(i < a);
        lemma_agree_byte(s1, s2, c, i + 1);
        lemma_match_delim_bounds(s1, i + 2, 1, 91, 93);
        let m = spec_match_delim(s1, i + 2, 1, 91, 93)->Some_0;
        lemma_skip_ws_bounds(s1, m);
        let j = spec_skip_ws(s1, m);
        crate::func_model::lemma_skip_attrs_bounds(s1, j);
        assert(j <= a);
        lemma_match_delim_agree(s1, s2, c, i + 2, 1, 91, 93);
        lemma_skip_ws_agree(s1, s2, c, m);
        lemma_skip_attrs_agree(s1, s2, c, j);
    }
}

pub proof fn lemma_after_vis_agree(s1: Seq<u8>, s2: Seq<u8>, c: int, a: int)
    requires
        agree_upto(s1, s2, c),
        c < s1.len(),
        c < s2.len(),
        0 <= a <= c,
        spec_after_vis(s1, a) matches Some(v) && v < c,
        spec_scan_ident(s1, a) < c,
    ensures
        spec_after_vis(s2, a) == spec_after_vis(s1, a),
{
    lemma_scan_ident_bounds(s1, a);
    let k = spec_scan_ident(s1, a);
    lemma_scan_ident_agree(s1, s2, c, a);
    lemma_agree_subrange(s1, s2, c, a, k);
    let v = spec_after_vis(s1, a)->Some_0;
    if k > a && s1.subrange(a, k) == kw_pub() {
        if k < s1.len() && s1[k] == 40 {
            lemma_agree_byte(s1, s2, c, k);
            lemma_match_delim_bounds(s1, k + 1, 1, 40, 41);
            let pe = spec_match_delim(s1, k + 1, 1, 40, 41)->Some_0;
            lemma_skip_ws_bounds(s1, pe);
            assert(pe <= v);
            lemma_match_delim_agree(s1, s2, c, k + 1, 1, 40, 41);
            lemma_skip_ws_agree(s1, s2, c, pe);
        } else {
            lemma_agree_byte(s1, s2, c, k);
            lemma_skip_ws_agree(s1, s2, c, k);
        }
    } else {
        if k > a {
            lemma_agree_byte(s1, s2, c, k);
        }
    }
}

pub proof fn lemma_after_async_agree(s1: Seq<u8>, s2: Seq<u8>, c: int, v: int)
    requires
        agree_upto(s1, s2, c),
        c < s1.len(),
        c < s2.len(),
        0 <= v <= c,
        spec_after_async(s1, v) < c,
        spec_scan_ident(s1, v) < c,
    ensures
        spec_after_async(s2, v) == spec_after_async(s1, v),
{
    lemma_scan_ident_bounds(s1, v);
    let k = spec_scan_ident(s1, v);
    lemma_scan_ident_agree(s1, s2, c, v);
    lemma_agree_subrange(s1, s2, c, v, k);
    if k > v && s1.subrange(v, k) == kw_async() {
        lemma_skip_ws_bounds(s1, k);
        lemma_skip_ws_agree(s1, s2, c, k);
    } else {
        if k > v {
            lemma_agree_byte(s1, s2, c, k);
        }
    }
}

/// No byte of `s` is a brace.
pub open spec fn brace_free(s: Seq<u8>) -> bool {
    forall|j: int| 0 <= j < s.len() ==> s[j] != 123 && s[j] != 125
}

/// The guard statement built from a brace-free lock expression is itself
/// brace-free: what it adds around the expression is fixed text without
/// braces.
pub proof fn lemma_guard_stmt_brace_free(t: Seq<u8>)
    requires
        brace_free(t),
    ensures
        brace_free(spec_guard_stmt(t)),
{
    assert(brace_free(guard_prefix()));
    assert(brace_free(default_acquire()));
    assert(brace_free(seq![59u8]));
    assert(brace_free(spec_acquire_text(t)));
    assert(brace_free(spec_guard_stmt(t)));
}

/// The scanner positions of a declaration's parse, by name. Each is
/// meaningful where the previous steps succeeded.
pub open spec fn idx_w(s: Seq<u8>) -> int {
    spec_skip_ws(s, 0)
}

pub open spec fn idx_a(s: Seq<u8>) -> int {
    spec_skip_attrs(s, idx_w(s))->Some_0
}

pub open spec fn idx_v(s: Seq<u8>) -> int {
    spec_after_vis(s, idx_a(s))->Some_0
}

pub open spec fn idx_y(s: Seq<u8>) -> int {
    spec_after_async(s, idx_v(s))
}

pub open spec fn idx_k3(s: Seq<u8>) -> int {
    spec_scan_ident(s, idx_y(s))
}

pub open spec fn idx_f(s: Seq<u8>) -> int {
    spec_skip_ws(s, idx_k3(s))
}

pub open spec fn idx_n(s: Seq<u8>) -> int {
    spec_scan_ident(s, idx_f(s))
}

pub open spec fn idx_g0(s: Seq<u8>) -> int {
    spec_skip_ws(s, idx_n(s))
}

pub open spec fn idx_ge(s: Seq<u8>) -> int {
    if idx_g0(s) < s.len() && s[idx_g0(s)] == 60 {
        spec_match_delim(s, idx_g0(s) + 1, 1, 60, 62)->Some_0
    } else {
        idx_n(s)
    }
}

pub open spec fn idx_p0(s: Seq<u8>) -> int {
    spec_skip_ws(s, idx_ge(s))
}

pub open spec fn idx_pe(s: Seq<u8>) -> int {
    spec_match_delim(s, idx_p0(s) + 1, 1, 40, 41)->Some_0
}

pub open spec fn idx_t(s: Seq<u8>) -> int {
    spec_find_body_open(s, idx_pe(s), 0)->Some_0
}

pub open spec fn idx_ce(s: Seq<u8>) -> int {
    spec_match_delim(s, idx_t(s) + 1, 1, 123, 125)->Some_0
}

/// The skeleton of a successful parse: every step succeeded, the positions
/// stand in order, and the bytes before the body's opening brace are exactly
/// `prefix_text` of the parsed model.
pub proof fn lemma_parse_skeleton(s: Seq<u8>)
    requires
        spec_parse_fn(s) is Some,
    ensures
        ({
            let m = spec_parse_fn(s)->Some_0;
            &&& 0 <= idx_w(s) <= idx_a(s) <= idx_v(s) <= idx_y(s) < idx_k3(s) <= idx_f(s) < idx_n(
                s,
            ) <= idx_g0(s)
            &&& idx_n(s) <= idx_ge(s) <= idx_p0(s) < idx_pe(s) <= idx_t(s)
            &&& idx_g0(s) <= idx_p0(s)
            &&& idx_t(s) + 1 < idx_ce(s) <= s.len()
            &&& spec_skip_attrs(s, idx_w(s)) == Some(idx_a(s))
            &&& spec_after_vis(s, idx_a(s)) == Some(idx_v(s))
            &&& s.subrange(idx_y(s), idx_k3(s)) == kw_fn()
            &&& idx_f(s) < s.len() && crate::scan::is_ident_start(s[idx_f(s)])
            &&& (idx_g0(s) < s.len() && s[idx_g0(s)] == 60 ==> spec_match_delim(
                s,
                idx_g0(s) + 1,
                1,
                60,
                62,
            ) == Some(idx_ge(s)))
            &&& idx_p0(s) < s.len() && s[idx_p0(s)] == 40
            &&& spec_match_delim(s, idx_p0(s) + 1, 1, 40, 41) == Some(idx_pe(s))
            &&& spec_find_body_open(s, idx_pe(s), 0) == Some(idx_t(s))
            &&& spec_match_delim(s, idx_t(s) + 1, 1, 123, 125) == Some(idx_ce(s))
            &&& spec_skip_ws(s, idx_ce(s)) == s.len()
            &&& s[idx_t(s)] == 123
            &&& prefix_text(m) == s.subrange(0, idx_t(s) + 1)
            &&& m.attrs == s.subrange(0, idx_a(s))
            &&& m.vis == s.subrange(idx_a(s), idx_v(s))
            &&& m.asyncness == s.subrange(idx_v(s), idx_y(s))
            &&& m.fn_kw == s.subrange(idx_y(s), idx_f(s))
            &&& m.name == s.subrange(idx_f(s), idx_n(s))
            &&& m.generics == s.subrange(idx_n(s), idx_ge(s))
            &&& m.params == s.subrange(idx_ge(s), idx_pe(s))
            &&& m.tail == s.subrange(idx_pe(s), idx_t(s))
            &&& m.body == s.subrange(idx_t(s) + 1, idx_ce(s) - 1)
            &&& m.trailing == s.subrange(idx_ce(s), s.len() as int)
        }),
{
    lemma_skip_ws_bounds(s, 0);
    crate::func_model::lemma_skip_attrs_bounds(s, idx_w(s));
    crate::func_model::lemma_after_vis_bounds(s, idx_a(s));
    crate::func_model::lemma_after_async_bounds(s, idx_v(s));
    lemma_scan_ident_bounds(s, idx_y(s));
    lemma_skip_ws_bounds(s, idx_k3(s));
    lemma_scan_ident_bounds(s, idx_f(s));
    lemma_skip_ws_bounds(s, idx_n(s));
    if idx_g0(s) < s.len() && s[idx_g0(s)] == 60 {
        lemma_match_delim_bounds(s, idx_g0(s) + 1, 1, 60, 62);
    }
    lemma_skip_ws_bounds(s, idx_ge(s));
    lemma_match_delim_bounds(s, idx_p0(s) + 1, 1, 40, 41);
    crate::scan::lemma_find_body_open_bounds(s, idx_pe(s), 0);
    lemma_match_delim_bounds(s, idx_t(s) + 1, 1, 123, 125);
    lemma_skip_ws_bounds(s, idx_ce(s));
    let m = spec_parse_fn(s)->Some_0;
    let v = idx_v(s);
    let y = idx_y(s);
    let f = idx_f(s);
    let n = idx_n(s);
    let ge = idx_ge(s);
    let pe = idx_pe(s);
    let t0 = idx_t(s);
    assert(m.attrs + m.vis =~= s.subrange(0, v));
    assert(s.subrange(0, v) + m.asyncness =~= s.subrange(0, y));
    assert(s.subrange(0, y) + m.fn_kw =~= s.subrange(0, f));
    assert(s.subrange(0, f) + m.name =~= s.subrange(0, n));
    assert(s.subrange(0, n) + m.generics =~= s.subrange(0, ge));
    assert(s.subrange(0, ge) + m.params =~= s.subrange(0, pe));
    assert(s.subrange(0, pe) + m.tail =~= s.subrange(0, t0));
    assert(s.subrange(0, t0) + seq![123u8] =~= s.subrange(0, t0 + 1));
    assert(prefix_text(m) =~= s.subrange(0, t0 + 1));
}

/// After the attributes of a parsed declaration comes `pub`, `async` or
/// `fn`: never another attribute, and its identifier ends before the body.
proof fn lemma_first_token(s: Seq<u8>)
    requires
        spec_parse_fn(s) is Some,
    ensures
        s[idx_a(s)] != 35,
        spec_scan_ident(s, idx_a(s)) < idx_t(s) + 1,
        spec_scan_ident(s, idx_v(s)) < idx_t(s) + 1,
{
    lemma_parse_skeleton(s);
    let a = idx_a(s);
    let v = idx_v(s);
    let y = idx_y(s);
    let k3 = idx_k3(s);
    let ka = spec_scan_ident(s, a);
    let kb = spec_scan_ident(s, v);
    lemma_scan_ident_bounds(s, a);
    lemma_scan_ident_bounds(s, v);
    if v > a {
        assert(ka > a && s.subrange(a, ka) == kw_pub());
        assert(s[a] == 112) by {
            assert(s.subrange(a, ka)[0] == s[a]);
        }
        if ka < s.len() && s[ka] == 40 {
            lemma_match_delim_bounds(s, ka + 1, 1, 40, 41);
            let pp = spec_match_delim(s, ka + 1, 1, 40, 41)->Some_0;
            lemma_skip_ws_bounds(s, pp);
        } else {
            lemma_skip_ws_bounds(s, ka);
        }
        assert(ka <= v);
    } else {
        assert(ka == kb);
        if y > v {
            assert(kb > v && s.subrange(v, kb) == kw_async());
            assert(s[a] == 97) by {
                assert(s.subrange(v, kb)[0] == s[v]);
            }
            lemma_skip_ws_bounds(s, kb);
            assert(kb <= y);
        } else {
            assert(kb == k3);
            assert(s[a] == 102) by {
                assert(s.subrange(y, k3)[0] == s[y]);
            }
        }
    }
    if y > v {
        assert(kb > v && s.subrange(v, kb) == kw_async());
        lemma_skip_ws_bounds(s, kb);
        assert(kb <= y);
    } else {
        assert(kb == k3);
    }
}

/// A text that agrees with a parsed declaration up to and including the
/// body's opening brace is scanned to the very same positions there.
proof fn lemma_head_agree(s: Seq<u8>, out: Seq<u8>)
    requires
        spec_parse_fn(s) is Some,
        agree_upto(s, out, idx_t(s) + 1),
        idx_t(s) + 1 < out.len(),
    ensures
        idx_w(out) == idx_w(s),
        spec_skip_attrs(out, idx_w(s)) == Some(idx_a(s)),
        spec_after_vis(out, idx_a(s)) == Some(idx_v(s)),
        spec_after_async(out, idx_v(s)) == idx_y(s),
        spec_scan_ident(out, idx_y(s)) == idx_k3(s),
        out.subrange(idx_y(s), idx_k3(s)) == kw_fn(),
        spec_skip_ws(out, idx_k3(s)) == idx_f(s),
        spec_scan_ident(out, idx_f(s)) == idx_n(s),
        out[idx_f(s)] == s[idx_f(s)],
        spec_skip_ws(out, idx_n(s)) == idx_g0(s),
        out[idx_g0(s)] == s[idx_g0(s)],
        idx_g0(s) < s.len() && s[idx_g0(s)] == 60 ==> spec_match_delim(
            out,
            idx_g0(s) + 1,
            1,
            60,
            62,
        ) == Some(idx_ge(s)),
        spec_skip_ws(out, idx_ge(s)) == idx_p0(s),
        out[idx_p0(s)] == 40,
        spec_match_delim(out, idx_p0(s) + 1, 1, 40, 41) == Some(idx_pe(s)),
        spec_find_body_open(out, idx_pe(s), 0) == Some(idx_t(s)),
{
    lemma_parse_skeleton(s);
    lemma_first_token(s);
    let c = idx_t(s) + 1;
    lemma_skip_ws_agree(s, out, c, 0);
    lemma_skip_attrs_agree(s, out, c, idx_w(s));
    lemma_after_vis_agree(s, out, c, idx_a(s));
    lemma_after_async_agree(s, out, c, idx_v(s));
    lemma_scan_ident_agree(s, out, c, idx_y(s));
    lemma_agree_subrange(s, out, c, idx_y(s), idx_k3(s));
    lemma_skip_ws_agree(s, out, c, idx_k3(s));
    lemma_scan_ident_agree(s, out, c, idx_f(s));
    lemma_agree_byte(s, out, c, idx_f(s));
    lemma_skip_ws_agree(s, out, c, idx_n(s));
    lemma_agree_byte(s, out, c, idx_g0(s));
    if idx_g0(s) < s.len() && s[idx_g0(s)] == 60 {
        lemma_match_delim_agree(s, out, c, idx_g0(s) + 1, 1, 60, 62);
    }
    lemma_skip_ws_agree(s, out, c, idx_ge(s));
    lemma_agree_byte(s, out, c, idx_p0(s));
    lemma_match_delim_agree(s, out, c, idx_p0(s) + 1, 1, 40, 41);
    lemma_find_body_open_agree(s, out, c, idx_pe(s), 0);
}

/// The shape of the spliced text: it agrees with the declaration up to and
/// including the body's opening brace, carries the fragment just after it,
/// and repeats the rest of the declaration beyond.
#[verifier::rlimit(100)]
proof fn lemma_splice_structure(s: Seq<u8>, g: Seq<u8>)
    requires
        spec_parse_fn(s) is Some,
    ensures
        ({
            let m = spec_parse_fn(s)->Some_0;
            let out = prefix_text(m) + g + suffix_text(m);
            let c = idx_t(s) + 1;
            let gl = g.len() as int;
            &&& out.len() == s.len() + gl
            &&& agree_upto(s, out, c)
            &&& (forall|j: int| 0 <= j < gl ==> out[c + j] == g[j])
            &&& s.subrange(c, s.len() as int) == out.subrange(c + gl, out.len() as int)
            &&& s.subrange(idx_ce(s), s.len() as int) == out.subrange(
                idx_ce(s) + gl,
                out.len() as int,
            )
        }),
{
    let m = spec_parse_fn(s)->Some_0;
    let gl = g.len() as int;
    lemma_parse_fn_text(s);
    lemma_parse_skeleton(s);
    let pre = prefix_text(m);
    let suf = suffix_text(m);
    let out = pre + g + suf;
    let c = idx_t(s) + 1;
    assert(pre.len() == c);
    assert(suf =~= s.subrange(c, s.len() as int)) by {
        assert forall|j: int| 0 <= j < suf.len() implies #[trigger] suf[j] == s.subrange(
            c,
            s.len() as int,
        )[j] by {
            assert((pre + suf)[c + j] == suf[j]);
        }
    }
    assert(out.len() == s.len() + gl);
    assert(out.subrange(0, c) =~= s.subrange(0, c));
    assert(forall|j: int| 0 <= j < gl ==> out[c + j] == g[j]);
    assert(s.subrange(c, s.len() as int) =~= out.subrange(c + gl, out.len() as int));
    assert(s.subrange(idx_ce(s), s.len() as int) =~= out.subrange(
        idx_ce(s) + gl,
        out.len() as int,
    ));
}

/// Assembles a successful re-parse from the scanner facts on the spliced
/// text: when every head step of `out` lands where it landed on `s`, the
/// body's braces match `gl` bytes later, and only whitespace follows, `out`
/// parses as a function declaration.
proof fn lemma_reparse_assemble(s: Seq<u8>, out: Seq<u8>, gl: int)
    requires
        spec_parse_fn(s) is Some,
        gl >= 0,
        out.len() == s.len() + gl,
        idx_w(out) == idx_w(s),
        spec_skip_attrs(out, idx_w(s)) == Some(idx_a(s)),
        spec_after_vis(out, idx_a(s)) == Some(idx_v(s)),
        spec_after_async(out, idx_v(s)) == idx_y(s),
        spec_scan_ident(out, idx_y(s)) == idx_k3(s),
        out.subrange(idx_y(s), idx_k3(s)) == kw_fn(),
        spec_skip_ws(out, idx_k3(s)) == idx_f(s),
        spec_scan_ident(out, idx_f(s)) == idx_n(s),
        out[idx_f(s)] == s[idx_f(s)],
        spec_skip_ws(out, idx_n(s)) == idx_g0(s),
        out[idx_g0(s)] == s[idx_g0(s)],
        idx_g0(s) < s.len() && s[idx_g0(s)] == 60 ==> spec_match_delim(
            out,
            idx_g0(s) + 1,
            1,
            60,
            62,
        ) == Some(idx_ge(s)),
        spec_skip_ws(out, idx_ge(s)) == idx_p0(s),
        out[idx_p0(s)] == 40,
        spec_match_delim(out, idx_p0(s) + 1, 1, 40, 41) == Some(idx_pe(s)),
        spec_find_body_open(out, idx_pe(s), 0) == Some(idx_t(s)),
        spec_match_delim(out, idx_t(s) + 1, 1, 123, 125) == Some(idx_ce(s) + gl),
        spec_skip_ws(out, idx_ce(s) + gl) == out.len(),
    ensures
        spec_parse_fn(out) is Some,
        idx_a(out) == idx_a(s),
        idx_v(out) == idx_v(s),
        idx_y(out) == idx_y(s),
        idx_k3(out) == idx_k3(s),
        idx_f(out) == idx_f(s),
        idx_n(out) == idx_n(s),
        idx_g0(out) == idx_g0(s),
        idx_ge(out) == idx_ge(s),
        idx_p0(out) == idx_p0(s),
        idx_pe(out) == idx_pe(s),
        idx_t(out) == idx_t(s),
        idx_ce(out) == idx_ce(s) + gl,
{
    lemma_parse_skeleton(s);
    assert(idx_g0(s) < s.len());
    if idx_g0(s) < s.len() && s[idx_g0(s)] == 60 {
        assert(idx_ge(out) == idx_ge(s));
    } else {
        assert(idx_ge(out) == idx_n(s));
    }
    assert(spec_parse_fn(out) is Some);
}

/// Splicing a brace-free fragment into a parsed declaration right after the
/// brace that opens its body yields text that parses again.
#[verifier::rlimit(100)]
pub proof fn lemma_splice_reparses(s: Seq<u8>, g: Seq<u8>)
    requires
        spec_parse_fn(s) is Some,
        brace_free(g),
    ensures
        ({
            let m = spec_parse_fn(s)->Some_0;
            spec_parse_fn(prefix_text(m) + g + suffix_text(m)) is Some
        }),
{
    let m = spec_parse_fn(s)->Some_0;
    let gl = g.len() as int;
    lemma_parse_skeleton(s);
    lemma_splice_structure(s, g);
    let out = prefix_text(m) + g + suffix_text(m);
    let c = idx_t(s) + 1;
    lemma_head_agree(s, out);
    lemma_match_delim_skip_free(out, c, gl, 1, 123, 125);
    lemma_match_delim_shift(s, out, c, c + gl, 1, 123, 125);
    assert(spec_match_delim(out, c, 1, 123, 125) == Some(idx_ce(s) + gl));
    lemma_skip_ws_shift(s, out, idx_ce(s), idx_ce(s) + gl);
    assert(spec_skip_ws(out, idx_ce(s) + gl) == out.len());
    lemma_reparse_assemble(s, out, gl);
}

/// Re-parsing the spliced text gives back the very same model but for the
/// body, which gained exactly the spliced fragment at its front: signature
/// preservation holds through the re-parse, not only on the emitted bytes.
#[verifier::rlimit(100)]
pub proof fn lemma_splice_preserves_model(s: Seq<u8>, g: Seq<u8>)
    requires
        spec_parse_fn(s) is Some,
        brace_free(g),
    ensures
        ({
            let m = spec_parse_fn(s)->Some_0;
            let out = prefix_text(m) + g + suffix_text(m);
            &&& spec_parse_fn(out) is Some
            &&& ({
                let m2 = spec_parse_fn(out)->Some_0;
                &&& m2.attrs == m.attrs
                &&& m2.vis == m.vis
                &&& m2.asyncness == m.asyncness
                &&& m2.fn_kw == m.fn_kw
                &&& m2.name == m.name
                &&& m2.generics == m.generics
                &&& m2.params == m.params
                &&& m2.tail == m.tail
                &&& m2.body == g + m.body
                &&& m2.trailing == m.trailing
            })
        }),
{
    let m = spec_parse_fn(s)->Some_0;
    let gl = g.len() as int;
    let out = prefix_text(m) + g + suffix_text(m);
    let c = idx_t(s) + 1;
    lemma_parse_skeleton(s);
    lemma_splice_structure(s, g);
    lemma_head_agree(s, out);
    lemma_splice_reparses(s, g);
    lemma_match_delim_skip_free(out, c, gl, 1, 123, 125);
    lemma_match_delim_shift(s, out, c, c + gl, 1, 123, 125);
    lemma_skip_ws_shift(s, out, idx_ce(s), idx_ce(s) + gl);
    lemma_parse_skeleton(out);
    assert(idx_w(out) == idx_w(s));
    assert(idx_a(out) == idx_a(s));
    assert(idx_v(out) == idx_v(s));
    assert(idx_y(out) == idx_y(s));
    assert(idx_k3(out) == idx_k3(s));
    assert(idx_f(out) == idx_f(s));
    assert(idx_n(out) == idx_n(s));
    assert(idx_g0(out) == idx_g0(s));
    assert(idx_ge(out) == idx_ge(s));
    assert(idx_p0(out) == idx_p0(s));
    assert(idx_pe(out) == idx_pe(s));
    assert(idx_t(out) == idx_t(s));
    assert(idx_ce(out) == idx_ce(s) + gl);
    let m2 = spec_parse_fn(out)->Some_0;
    lemma_agree_subrange(s, out, c, 0, idx_a(s));
    lemma_agree_subrange(s, out, c, idx_a(s), idx_v(s));
    lemma_agree_subrange(s, out, c, idx_v(s), idx_y(s));
    lemma_agree_subrange(s, out, c, idx_y(s), idx_f(s));
    lemma_agree_subrange(s, out, c, idx_f(s), idx_n(s));
    lemma_agree_subrange(s, out, c, idx_n(s), idx_ge(s));
    lemma_agree_subrange(s, out, c, idx_ge(s), idx_pe(s));
    lemma_agree_subrange(s, out, c, idx_pe(s), idx_t(s));
    assert(m2.body =~= g + m.body) by {
        let ce = idx_ce(s);
        assert forall|j: int| 0 <= j < ce + gl - 1 - c implies #[trigger] out.subrange(
            c,
            ce + gl - 1,
        )[j] == (g + s.subrange(c, ce - 1))[j] by {
            if j < gl {
                assert(out[c + j] == g[j]);
            } else {
                assert(out.subrange(c + gl, out.len() as int)[j - gl] == s.subrange(
                    c,
                    s.len() as int,
                )[j - gl]);
            }
        }
    }
    assert(m2.trailing =~= m.trailing) by {
        let ce = idx_ce(s);
        assert forall|j: int| 0 <= j < s.len() - ce implies #[trigger] out.subrange(
            ce + gl,
            out.len() as int,
        )[j] == s.subrange(ce, s.len() as int)[j] by {
        }
    }
}

} // verus!
