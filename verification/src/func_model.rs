//! The function-model parser: parses the annotated item's text into a
//! `FunctionModel` and proves that the decomposition is lossless.
//!
//! The accepted item grammar is a function declaration in the usual order:
//! leading `#[...]` attributes, optional visibility (`pub`, optionally with a
//! `(...)` restriction), an optional `async` qualifier, the keyword `fn`, the
//! name, optional `<...>` generics, the `(...)` parameter list, anything up
//! to the brace that opens the body (return type and where clause), the body,
//! and nothing but whitespace after the closing brace. Every fragment is
//! captured verbatim, and each fragment carries the whitespace that precedes
//! its own tokens, so that concatenating the fragments in order reproduces
//! the input byte for byte.

use vstd::prelude::*;

use crate::errors::TransformError;
use crate::scan::copy_range;
use crate::scan::find_body_open;
use crate::scan::is_ident_start;
use crate::scan::is_ident_start_byte;
use crate::scan::lemma_find_body_open_bounds;
use crate::scan::lemma_match_delim_bounds;
use crate::scan::lemma_scan_ident_bounds;
use crate::scan::lemma_skip_ws_bounds;
use crate::scan::match_delim;
use crate::scan::scan_ident;
use crate::scan::skip_ws;
use crate::scan::spec_find_body_open;
use crate::scan::spec_match_delim;
use crate::scan::spec_scan_ident;
use crate::scan::spec_skip_ws;

verus! {

/// The keyword "pub" as bytes.
pub open spec fn kw_pub() -> Seq<u8> {
    seq![112u8, 117u8, 98u8]
}

/// The keyword "async" as bytes.
pub open spec fn kw_async() -> Seq<u8> {
    seq![97u8, 115u8, 121u8, 110u8, 99u8]
}

/// The keyword "fn" as bytes.
pub open spec fn kw_fn() -> Seq<u8> {
    seq![102u8, 110u8]
}

/// Concatenation of a sequence of fragments.
pub open spec fn cat(fs: Seq<Seq<u8>>) -> Seq<u8>
    decreases fs.len(),
{
    if fs.len() == 0 {
        Seq::empty()
    } else {
        cat(fs.drop_last()) + fs.last()
    }
}

pub proof fn lemma_cat_push(fs: Seq<Seq<u8>>, x: Seq<u8>)
    ensures
        cat(fs.push(x)) == cat(fs) + x,
{
    assert(fs.push(x).drop_last() =~= fs);
}

pub proof fn lemma_cat_prepend(g: Seq<u8>, fs: Seq<Seq<u8>>)
    ensures
        cat(seq![g] + fs) == g + cat(fs),
    decreases fs.len(),
{
    if fs.len() == 0 {
        assert(seq![g] + fs =~= seq![g]);
        assert(seq![g].drop_last() =~= Seq::<Seq<u8>>::empty());
        assert(cat(Seq::<Seq<u8>>::empty()) == Seq::<u8>::empty());
        assert(seq![g].last() == g);
        assert(cat(seq![g]) == cat(seq![g].drop_last()) + seq![g].last());
        assert(cat(seq![g]) == Seq::<u8>::empty() + g);
        assert(Seq::<u8>::empty() + g =~= g);
        assert(g + cat(fs) =~= g);
    } else {
        let fs0 = fs.drop_last();
        assert((seq![g] + fs).drop_last() =~= seq![g] + fs0);
        lemma_cat_prepend(g, fs0);
        assert((seq![g] + fs).last() == fs.last());
        assert((g + cat(fs0)) + fs.last() =~= g + (cat(fs0) + fs.last()));
    }
}

/// The mathematical decomposition of a function declaration's text.
/// Consecutive fields are contiguous fragments of the source; each carries
/// the whitespace that precedes its own tokens, so the concatenation in
/// `text_of` reproduces the declaration exactly.
pub struct FnModelView {
    /// Leading whitespace and the `#[...]` attributes attached to the item,
    /// with the whitespace that follows them.
    pub attrs: Seq<u8>,
    /// The visibility (`pub`, optionally with a `(...)` restriction) and the
    /// whitespace after it; empty for a private function.
    pub vis: Seq<u8>,
    /// The `async` qualifier and the whitespace after it; empty when absent.
    pub asyncness: Seq<u8>,
    /// The keyword `fn` and the whitespace after it.
    pub fn_kw: Seq<u8>,
    /// The function's name, exactly.
    pub name: Seq<u8>,
    /// The `<...>` generics with any whitespace before them; empty when absent.
    pub generics: Seq<u8>,
    /// The `(...)` parameter list with any whitespace before it.
    pub params: Seq<u8>,
    /// Everything between the parameter list and the brace that opens the
    /// body: return type, where clause, whitespace.
    pub tail: Seq<u8>,
    /// The body between its braces, exclusive.
    pub body: Seq<u8>,
    /// Whitespace after the closing brace.
    pub trailing: Seq<u8>,
}

/// Whether the declaration carries the `async` qualifier.
pub open spec fn spec_is_async(m: FnModelView) -> bool {
    m.asyncness.len() > 0
}

/// Everything up to and including the brace that opens the body.
pub open spec fn prefix_text(m: FnModelView) -> Seq<u8> {
    m.attrs + m.vis + m.asyncness + m.fn_kw + m.name + m.generics + m.params + m.tail + seq![123u8]
}

/// The body interior, the closing brace, and the trailing whitespace.
pub open spec fn suffix_text(m: FnModelView) -> Seq<u8> {
    m.body + seq![125u8] + m.trailing
}

/// The full source text of the declaration.
pub open spec fn text_of(m: FnModelView) -> Seq<u8> {
    prefix_text(m) + suffix_text(m)
}

/// Position after any leading `#[...]` attributes and the whitespace that
/// follows them, starting from `i` (already past leading whitespace).
/// `None` when an attribute bracket is unclosed.
pub open spec fn spec_skip_attrs(s: Seq<u8>, i: int) -> Option<int>
    decreases s.len() - i when 0 <= i <= s.len()
{
    if i + 1 < s.len() && s[i] == 35 && s[i + 1] == 91 {
        match spec_match_delim(s, i + 2, 1, 91, 93) {
            Some(m) => {
                proof {
                    lemma_match_delim_bounds(s, i + 2, 1, 91, 93);
                    lemma_skip_ws_bounds(s, m);
                }
                let j = spec_skip_ws(s, m);
                spec_skip_attrs(s, j)
            },
            None => None,
        }
    } else {
        Some(i)
    }
}

pub proof fn lemma_skip_attrs_bounds(s: Seq<u8>, i: int)
    requires
        0 <= i <= s.len(),
    ensures
        spec_skip_attrs(s, i) matches Some(a) ==> i <= a <= s.len(),
    decreases s.len() - i,
{
    if i + 1 < s.len() && s[i] == 35 && s[i + 1] == 91 {
        lemma_match_delim_bounds(s, i + 2, 1, 91, 93);
        if spec_match_delim(s, i + 2, 1, 91, 93) is Some {
            let m = spec_match_delim(s, i + 2, 1, 91, 93)->Some_0;
            lemma_skip_ws_bounds(s, m);
            lemma_skip_attrs_bounds(s, spec_skip_ws(s, m));
        }
    }
}

/// End of the visibility fragment beginning at `a`, including the
/// whitespace after it; `a` itself when there is no visibility. `None` when
/// a `pub(...)` restriction is unclosed.
pub open spec fn spec_after_vis(s: Seq<u8>, a: int) -> Option<int> {
    let k = spec_scan_ident(s, a);
    if k > a && s.subrange(a, k) == kw_pub() {
        if k < s.len() && s[k] == 40 {
            match spec_match_delim(s, k + 1, 1, 40, 41) {
                Some(pe) => Some(spec_skip_ws(s, pe)),
                None => None,
            }
        } else {
            Some(spec_skip_ws(s, k))
        }
    } else {
        Some(a)
    }
}

pub proof fn lemma_after_vis_bounds(s: Seq<u8>, a: int)
    requires
        0 <= a <= s.len(),
    ensures
        spec_after_vis(s, a) matches Some(v) ==> a <= v <= s.len(),
{
    lemma_scan_ident_bounds(s, a);
    let k = spec_scan_ident(s, a);
    if k > a && s.subrange(a, k) == kw_pub() {
        if k < s.len() && s[k] == 40 {
            lemma_match_delim_bounds(s, k + 1, 1, 40, 41);
            if spec_match_delim(s, k + 1, 1, 40, 41) is Some {
                lemma_skip_ws_bounds(s, spec_match_delim(s, k + 1, 1, 40, 41)->Some_0);
            }
        } else {
            lemma_skip_ws_bounds(s, k);
        }
    }
}

/// End of the `async` fragment beginning at `v`, including the whitespace
/// after it; `v` itself when the qualifier is absent.
pub open spec fn spec_after_async(s: Seq<u8>, v: int) -> int {
    let k = spec_scan_ident(s, v);
    if k > v && s.subrange(v, k) == kw_async() {
        spec_skip_ws(s, k)
    } else {
        v
    }
}

pub proof fn lemma_after_async_bounds(s: Seq<u8>, v: int)
    requires
        0 <= v <= s.len(),
    ensures
        v <= spec_after_async(s, v) <= s.len(),
{
    lemma_scan_ident_bounds(s, v);
    let k = spec_scan_ident(s, v);
    if k > v && s.subrange(v, k) == kw_async() {
        lemma_skip_ws_bounds(s, k);
    }
}

/// The whole-item grammar: the decomposition of `s` as a function
/// declaration, or `None` when `s` is not one.
pub open spec fn spec_parse_fn(s: Seq<u8>) -> Option<FnModelView> {
    let w = spec_skip_ws(s, 0);
    match spec_skip_attrs(s, w) {
        None => None,
        Some(a) => match spec_after_vis(s, a) {
            None => None,
            Some(v) => {
                let y = spec_after_async(s, v);
                let k = spec_scan_ident(s, y);
                if !(k > y && s.subrange(y, k) == kw_fn()) {
                    None
                } else {
                    let f = spec_skip_ws(s, k);
                    let n = spec_scan_ident(s, f);
                    if !(f < s.len() && is_ident_start(s[f]) && n > f) {
                        None
                    } else {
                        let g0 = spec_skip_ws(s, n);
                        let ge_opt: Option<int> = if g0 < s.len() && s[g0] == 60 {
                            spec_match_delim(s, g0 + 1, 1, 60, 62)
                        } else {
                            Some(n)
                        };
                        match ge_opt {
                            None => None,
                            Some(ge) => {
                                let p0 = spec_skip_ws(s, ge);
                                if !(p0 < s.len() && s[p0] == 40) {
                                    None
                                } else {
                                    match spec_match_delim(s, p0 + 1, 1, 40, 41) {
                                        None => None,
                                        Some(pe) => match spec_find_body_open(s, pe, 0) {
                                            None => None,
                                            Some(t) => match spec_match_delim(s, t + 1, 1, 123, 125) {
                                                None => None,
                                                Some(ce) => if spec_skip_ws(s, ce) == s.len() {
                                                    Some(
                                                        FnModelView {
                                                            attrs: s.subrange(0, a),
                                                            vis: s.subrange(a, v),
                                                            asyncness: s.subrange(v, y),
                                                            fn_kw: s.subrange(y, f),
                                                            name: s.subrange(f, n),
                                                            generics: s.subrange(n, ge),
                                                            params: s.subrange(ge, pe),
                                                            tail: s.subrange(pe, t),
                                                            body: s.subrange(t + 1, ce - 1),
                                                            trailing: s.subrange(ce, s.len() as int),
                                                        },
                                                    )
                                                } else {
                                                    None
                                                },
                                            },
                                        },
                                    }
                                }
                            },
                        }
                    }
                }
            },
        },
    }
}

/// The decomposition is lossless: reassembling the fragments of a parsed
/// declaration gives back the input, byte for byte.
pub proof fn lemma_parse_fn_text(s: Seq<u8>)
    requires
        spec_parse_fn(s) is Some,
    ensures
        spec_parse_fn(s) matches Some(m) ==> text_of(m) == s && prefix_text(m) + suffix_text(m)
            == s,
{
    let w = spec_skip_ws(s, 0);
    lemma_skip_ws_bounds(s, 0);
    lemma_skip_attrs_bounds(s, w);
    let a = spec_skip_attrs(s, w)->Some_0;
    lemma_after_vis_bounds(s, a);
    let v = spec_after_vis(s, a)->Some_0;
    lemma_after_async_bounds(s, v);
    let y = spec_after_async(s, v);
    let k = spec_scan_ident(s, y);
    lemma_scan_ident_bounds(s, y);
    let f = spec_skip_ws(s, k);
    lemma_skip_ws_bounds(s, k);
    let n = spec_scan_ident(s, f);
    lemma_scan_ident_bounds(s, f);
    let g0 = spec_skip_ws(s, n);
    lemma_skip_ws_bounds(s, n);
    let ge: int = if g0 < s.len() && s[g0] == 60 {
        lemma_match_delim_bounds(s, g0 + 1, 1, 60, 62);
        spec_match_delim(s, g0 + 1, 1, 60, 62)->Some_0
    } else {
        n
    };
    let p0 = spec_skip_ws(s, ge);
    lemma_skip_ws_bounds(s, ge);
    lemma_match_delim_bounds(s, p0 + 1, 1, 40, 41);
    let pe = spec_match_delim(s, p0 + 1, 1, 40, 41)->Some_0;
    lemma_find_body_open_bounds(s, pe, 0);
    let t = spec_find_body_open(s, pe, 0)->Some_0;
    lemma_match_delim_bounds(s, t + 1, 1, 123, 125);
    let ce = spec_match_delim(s, t + 1, 1, 123, 125)->Some_0;
    lemma_skip_ws_bounds(s, ce);
    let m = spec_parse_fn(s)->Some_0;
    assert(n <= ge <= s.len());
    assert(m.attrs + m.vis =~= s.subrange(0, v));
    assert(s.subrange(0, v) + m.asyncness =~= s.subrange(0, y));
    assert(s.subrange(0, y) + m.fn_kw =~= s.subrange(0, f));
    assert(s.subrange(0, f) + m.name =~= s.subrange(0, n));
    assert(s.subrange(0, n) + m.generics =~= s.subrange(0, ge));
    assert(s.subrange(0, ge) + m.params =~= s.subrange(0, pe));
    assert(s.subrange(0, pe) + m.tail =~= s.subrange(0, t));
    assert(s[t] == 123);
    assert(s.subrange(0, t) + seq![123u8] =~= s.subrange(0, t + 1));
    assert(prefix_text(m) =~= s.subrange(0, t + 1));
    assert(s[ce - 1] == 125);
    assert(m.body + seq![125u8] =~= s.subrange(t + 1, ce));
    assert(s.subrange(t + 1, ce) + m.trailing =~= s.subrange(t + 1, s.len() as int));
    assert(suffix_text(m) =~= s.subrange(t + 1, s.len() as int));
    assert(prefix_text(m) + suffix_text(m) =~= s);
}

/// A parsed function declaration: the full signature and an ordered body of
/// opaque statement fragments. Reconstructed fresh for each annotated item;
/// statement order is significant and is preserved except for the one
/// prepended guard binding.
pub struct FunctionModel {
    /// Leading whitespace and the attributes attached to the item.
    pub attrs: Vec<u8>,
    /// The visibility, with the whitespace after it; empty when private.
    pub vis: Vec<u8>,
    /// The `async` qualifier with the whitespace after it; empty when absent.
    pub asyncness: Vec<u8>,
    /// The keyword `fn` and the whitespace after it.
    pub fn_kw: Vec<u8>,
    /// The function's name, exactly.
    pub name: Vec<u8>,
    /// The `<...>` generics with any whitespace before them; empty when absent.
    pub generics: Vec<u8>,
    /// The `(...)` parameter list with any whitespace before it.
    pub params: Vec<u8>,
    /// Return type, where clause and whitespace before the body's brace.
    pub tail: Vec<u8>,
    /// The body as an ordered list of opaque statement fragments; their
    /// concatenation is the body interior, byte for byte.
    pub stmts: Vec<Vec<u8>>,
    /// Whitespace after the closing brace.
    pub trailing: Vec<u8>,
}

impl View for FunctionModel {
    type V = FnModelView;

    open spec fn view(&self) -> FnModelView {
        FnModelView {
            attrs: self.attrs@,
            vis: self.vis@,
            asyncness: self.asyncness@,
            fn_kw: self.fn_kw@,
            name: self.name@,
            generics: self.generics@,
            params: self.params@,
            tail: self.tail@,
            body: cat(self.stmts.deep_view()),
            trailing: self.trailing@,
        }
    }
}

impl FunctionModel {
    /// Whether the declaration carries the `async` qualifier.
    pub fn is_async(&self) -> (r: bool)
        ensures
            r == spec_is_async(self@),
    {
        self.asyncness.len() > 0
    }
}

/// Splits the body interior `s[lo..hi]` into statement fragments: after each
/// `;` and after each block-closing `}` at nesting depth zero. The split is
/// lossless: the fragments concatenate to the interior, byte for byte. The
/// fragments stay opaque; the engine never reorders or rewrites them.
fn split_stmts(s: &Vec<u8>, lo: usize, hi: usize) -> (r: Vec<Vec<u8>>)
    requires
        lo <= hi <= s.len(),
    ensures
        cat(r.deep_view()) == s@.subrange(lo as int, hi as int),
{
    let mut out: Vec<Vec<u8>> = Vec::new();
    let mut cur: Vec<u8> = Vec::new();
    let mut opens: usize = 0;
    let mut closes: usize = 0;
    let mut j: usize = lo;
    proof {
        assert(out.deep_view() =~= Seq::<Seq<u8>>::empty());
        assert(cat(out.deep_view()) + cur@ =~= s@.subrange(lo as int, lo as int));
    }
    while j < hi
        invariant
            lo <= j <= hi <= s.len(),
            opens <= j - lo,
            closes <= j - lo,
            cat(out.deep_view()) + cur@ == s@.subrange(lo as int, j as int),
        decreases hi - j,
    {
        let c = s[j];
        cur.push(c);
        j = j + 1;
        proof {
            assert(s@.subrange(lo as int, j as int) =~= s@.subrange(lo as int, j - 1).push(
                s@[j - 1],
            ));
            assert(cat(out.deep_view()) + cur@ =~= s@.subrange(lo as int, j as int));
        }
        let mut boundary = false;
        if c == 123 || c == 40 || c == 91 {
            opens = opens + 1;
        } else if c == 125 || c == 41 || c == 93 {
            if c == 125 && opens == closes + 1 {
                boundary = true;
            }
            closes = closes + 1;
        } else if c == 59 && opens == closes {
            boundary = true;
        }
        if boundary {
            let ghost prev = out.deep_view();
            let ghost dv = cur@;
            let done = cur;
            cur = Vec::new();
            out.push(done);
            proof {
                assert(out.deep_view() =~~= prev.push(dv));
                lemma_cat_push(prev, dv);
                assert(cat(out.deep_view()) + cur@ =~= s@.subrange(lo as int, j as int));
            }
        }
    }
    if cur.len() > 0 {
        let ghost prev = out.deep_view();
        let ghost dv = cur@;
        let last = cur;
        out.push(last);
        proof {
            assert(out.deep_view() =~~= prev.push(dv));
            lemma_cat_push(prev, dv);
        }
    }
    proof {
        assert(cat(out.deep_view()) =~= s@.subrange(lo as int, hi as int));
    }
    out
}

/// True exactly when `s[a..b]` spells the keyword `pub`.
fn range_is_pub(s: &Vec<u8>, a: usize, b: usize) -> (r: bool)
    requires
        a <= b <= s.len(),
    ensures
        r == (s@.subrange(a as int, b as int) == kw_pub()),
{
    if b - a != 3 {
        proof {
            assert(kw_pub().len() == 3);
        }
        return false;
    }
    if s[a] != 112 || s[a + 1] != 117 || s[a + 2] != 98 {
        proof {
            if s@.subrange(a as int, b as int) == kw_pub() {
                assert(s@.subrange(a as int, b as int)[0] == 112);
                assert(s@.subrange(a as int, b as int)[1] == 117);
                assert(s@.subrange(a as int, b as int)[2] == 98);
            }
        }
        return false;
    }
    proof {
        assert(s@.subrange(a as int, b as int) =~= kw_pub());
    }
    true
}

/// True exactly when `s[a..b]` spells the keyword `async`.
fn range_is_async(s: &Vec<u8>, a: usize, b: usize) -> (r: bool)
    requires
        a <= b <= s.len(),
    ensures
        r == (s@.subrange(a as int, b as int) == kw_async()),
{
    if b - a != 5 {
        proof {
            assert(kw_async().len() == 5);
        }
        return false;
    }
    if s[a] != 97 || s[a + 1] != 115 || s[a + 2] != 121 || s[a + 3] != 110 || s[a + 4] != 99 {
        proof {
            if s@.subrange(a as int, b as int) == kw_async() {
                assert(s@.subrange(a as int, b as int)[0] == 97);
                assert(s@.subrange(a as int, b as int)[1] == 115);
                assert(s@.subrange(a as int, b as int)[2] == 121);
                assert(s@.subrange(a as int, b as int)[3] == 110);
                assert(s@.subrange(a as int, b as int)[4] == 99);
            }
        }
        return false;
    }
    proof {
        assert(s@.subrange(a as int, b as int) =~= kw_async());
    }
    true
}

/// True exactly when `s[a..b]` spells the keyword `fn`.
fn range_is_fn(s: &Vec<u8>, a: usize, b: usize) -> (r: bool)
    requires
        a <= b <= s.len(),
    ensures
        r == (s@.subrange(a as int, b as int) == kw_fn()),
{
    if b - a != 2 {
        proof {
            assert(kw_fn().len() == 2);
        }
        return false;
    }
    if s[a] != 102 || s[a + 1] != 110 {
        proof {
            if s@.subrange(a as int, b as int) == kw_fn() {
                assert(s@.subrange(a as int, b as int)[0] == 102);
                assert(s@.subrange(a as int, b as int)[1] == 110);
            }
        }
        return false;
    }
    proof {
        assert(s@.subrange(a as int, b as int) =~= kw_fn());
    }
    true
}

/// Consumes the leading `#[...]` attributes and the whitespace after them.
fn skip_attrs(s: &Vec<u8>, w: usize) -> (r: Option<usize>)
    requires
        w <= s.len(),
    ensures
        crate::scan::opt_as_int(r) == spec_skip_attrs(s@, w as int),
        r matches Some(a) ==> w <= a <= s.len(),
{
    let mut i: usize = w;
    loop
        invariant
            w <= i <= s.len(),
            spec_skip_attrs(s@, w as int) == spec_skip_attrs(s@, i as int),
        decreases s.len() - i,
    {
        if i < s.len() && s[i] == 35 && i + 1 < s.len() && s[i + 1] == 91 {
            match match_delim(s, i + 2, 91, 93) {
                Some(m) => {
                    proof {
                        lemma_skip_ws_bounds(s@, m as int);
                    }
                    let j = skip_ws(s, m);
                    proof {
                        assert(spec_skip_attrs(s@, i as int) == spec_skip_attrs(s@, j as int));
                    }
                    i = j;
                },
                None => {
                    proof {
                        assert(spec_skip_attrs(s@, i as int) is None);
                    }
                    return None;
                },
            }
        } else {
            proof {
                assert(spec_skip_attrs(s@, i as int) == Some(i as int));
            }
            return Some(i);
        }
    }
}

/// Consumes the visibility, if any, and the whitespace after it.
fn after_vis(s: &Vec<u8>, a: usize) -> (r: Option<usize>)
    requires
        a <= s.len(),
    ensures
        crate::scan::opt_as_int(r) == spec_after_vis(s@, a as int),
        r matches Some(v) ==> a <= v <= s.len(),
{
    let k = scan_ident(s, a);
    if k > a && range_is_pub(s, a, k) {
        if k < s.len() && s[k] == 40 {
            match match_delim(s, k + 1, 40, 41) {
                Some(pe) => Some(skip_ws(s, pe)),
                None => None,
            }
        } else {
            Some(skip_ws(s, k))
        }
    } else {
        Some(a)
    }
}

/// Consumes the `async` qualifier, if any, and the whitespace after it.
fn after_async(s: &Vec<u8>, v: usize) -> (r: usize)
    requires
        v <= s.len(),
    ensures
        r as int == spec_after_async(s@, v as int),
        v <= r <= s.len(),
{
    let k = scan_ident(s, v);
    if k > v && range_is_async(s, v, k) {
        skip_ws(s, k)
    } else {
        v
    }
}

/// Parses the annotated item's text as a function declaration. Succeeds
/// exactly on the inputs the item grammar accepts, capturing every fragment
/// verbatim and in original order; any other kind of declaration fails the
/// whole transformation with `NotAFunction`.
#[verifier::rlimit(50)]
pub fn parse_function(item: &Vec<u8>) -> (r: Result<FunctionModel, TransformError>)
    ensures
        r is Ok <==> spec_parse_fn(item@) is Some,
        r matches Ok(m) ==> Some(m@) == spec_parse_fn(item@),
        r matches Err(er) ==> er == TransformError::NotAFunction,
{
    let w = skip_ws(item, 0);
    let a = match skip_attrs(item, w) {
        Some(a) => a,
        None => {
            return Err(TransformError::NotAFunction);
        },
    };
    let v = match after_vis(item, a) {
        Some(v) => v,
        None => {
            return Err(TransformError::NotAFunction);
        },
    };
    let y = after_async(item, v);
    let k3 = scan_ident(item, y);
    if !(k3 > y && range_is_fn(item, y, k3)) {
        return Err(TransformError::NotAFunction);
    }
    let f = skip_ws(item, k3);
    let n = scan_ident(item, f);
    if !(f < item.len() && is_ident_start_byte(item[f]) && n > f) {
        return Err(TransformError::NotAFunction);
    }
    let g0 = skip_ws(item, n);
    let mut ge: usize = n;
    if g0 < item.len() && item[g0] == 60 {
        match match_delim(item, g0 + 1, 60, 62) {
            Some(m) => {
                ge = m;
            },
            None => {
                return Err(TransformError::NotAFunction);
            },
        }
    }
    proof {
        assert(Some(ge as int) == (if spec_skip_ws(item@, n as int) < item@.len() && item@[spec_skip_ws(item@, n as int)] == 60 {
            spec_match_delim(item@, spec_skip_ws(item@, n as int) + 1, 1, 60, 62)
        } else {
            Some(n as int)
        }));
    }
    let p0 = skip_ws(item, ge);
    if !(p0 < item.len() && item[p0] == 40) {
        return Err(TransformError::NotAFunction);
    }
    let pe = match match_delim(item, p0 + 1, 40, 41) {
        Some(m) => m,
        None => {
            return Err(TransformError::NotAFunction);
        },
    };
    let t = match find_body_open(item, pe) {
        Some(m) => m,
        None => {
            return Err(TransformError::NotAFunction);
        },
    };
    let ce = match match_delim(item, t + 1, 123, 125) {
        Some(m) => m,
        None => {
            return Err(TransformError::NotAFunction);
        },
    };
    if skip_ws(item, ce) != item.len() {
        return Err(TransformError::NotAFunction);
    }
    let model = FunctionModel {
        attrs: copy_range(item, 0, a),
        vis: copy_range(item, a, v),
        asyncness: copy_range(item, v, y),
        fn_kw: copy_range(item, y, f),
        name: copy_range(item, f, n),
        generics: copy_range(item, n, ge),
        params: copy_range(item, ge, pe),
        tail: copy_range(item, pe, t),
        stmts: split_stmts(item, t + 1, ce - 1),
        trailing: copy_range(item, ce, item.len()),
    };
    proof {
        assert(Some(model@) == spec_parse_fn(item@));
    }
    Ok(model)
}

} // verus!
