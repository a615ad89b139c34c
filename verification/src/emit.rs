//! The code emitter: serializes a `FunctionModel` back into the concrete
//! syntax the input was supplied in. The output is the concatenation of the
//! verbatim fragments, so it is byte-identical to the parsed input except
//! for whatever the injector prepended; as a defensive check, the assembled
//! result is parsed again, and emission fails if it is no longer a function
//! declaration.

use vstd::prelude::*;

use crate::errors::TransformError;
use crate::func_model::FunctionModel;
use crate::func_model::cat;
use crate::func_model::lemma_cat_push;
use crate::func_model::parse_function;
use crate::func_model::spec_parse_fn;
use crate::func_model::text_of;

verus! {

/// Appends all of `src` to `dst`.
fn append_bytes(dst: &mut Vec<u8>, src: &Vec<u8>)
    ensures
        final(dst)@ == old(dst)@ + src@,
{
    let mut j: usize = 0;
    while j < src.len()
        invariant
            j <= src.len(),
            dst@ == old(dst)@ + src@.subrange(0, j as int),
        decreases src.len() - j,
    {
        dst.push(src[j]);
        j = j + 1;
        proof {
            assert(old(dst)@ + src@.subrange(0, j as int) =~= (old(dst)@ + src@.subrange(
                0,
                j - 1,
            )).push(src@[j - 1]));
        }
    }
    proof {
        assert(src@.subrange(0, src@.len() as int) =~= src@);
    }
}

/// Serializes the model back to source text. The output equals the
/// concatenation of the model's fragments exactly; if that text no longer
/// parses as a function declaration — an assembled statement that is not
/// valid syntax in its context — emission fails with `ReinjectionParse`.
pub fn emit(m: &FunctionModel) -> (r: Result<Vec<u8>, TransformError>)
    ensures
        r is Ok <==> spec_parse_fn(text_of(m@)) is Some,
        r matches Ok(out) ==> out@ == text_of(m@),
        r matches Err(er) ==> er == TransformError::ReinjectionParse,
{
    let mut out: Vec<u8> = Vec::new();
    append_bytes(&mut out, &m.attrs);
    append_bytes(&mut out, &m.vis);
    append_bytes(&mut out, &m.asyncness);
    append_bytes(&mut out, &m.fn_kw);
    append_bytes(&mut out, &m.name);
    append_bytes(&mut out, &m.generics);
    append_bytes(&mut out, &m.params);
    append_bytes(&mut out, &m.tail);
    out.push(123);
    let ghost head = out@;
    let mut si: usize = 0;
    while si < m.stmts.len()
        invariant
            si <= m.stmts.len(),
            out@ == head + cat(m.stmts.deep_view().subrange(0, si as int)),
        decreases m.stmts.len() - si,
    {
        proof {
            assert(cat(m.stmts.deep_view().subrange(0, 0int)) =~= Seq::<u8>::empty());
            assert(m.stmts.deep_view().subrange(0, si as int + 1) =~= m.stmts.deep_view().subrange(
                0,
                si as int,
            ).push(m.stmts.deep_view()[si as int]));
            lemma_cat_push(
                m.stmts.deep_view().subrange(0, si as int),
                m.stmts.deep_view()[si as int],
            );
        }
        append_bytes(&mut out, &m.stmts[si]);
        si = si + 1;
    }
    proof {
        assert(m.stmts.deep_view().subrange(0, m.stmts@.len() as int) =~= m.stmts.deep_view());
    }
    out.push(125);
    append_bytes(&mut out, &m.trailing);
    proof {
        assert(out@ =~= text_of(m@));
    }
    match parse_function(&out) {
        Ok(_) => Ok(out),
        Err(_) => Err(TransformError::ReinjectionParse),
    }
}

} // verus!
