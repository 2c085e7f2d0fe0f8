//! The driver: runs lexing, parsing, binding and generation over a
//! whole input, in its two forms.  The batch form is a run of
//! declarations; the impl form wraps generated and hand-written items
//! in one impl block.  Both return the generated source text.

use vstd::prelude::*;

use crate::codegen::{gen_fn_toks, generate, push_gen_fn, spec_generate};
use crate::errors::Error;
use crate::grammar::{DeclV, ImplItem, ImplItemV};
use crate::parse::{append_toks, parse_defs_from, parse_defs_x, parse_impl, parse_impl_x};
use crate::tokens::{lex, render_into, render_toks, spec_lex, Kw, Tok, TokV, toks_view};

verus! {

/// The generated text of a run of declarations, as tokens: each
/// declaration's function, concatenated in order.  The first
/// declaration that cannot be generated fails the whole run.
pub open spec fn gen_toks_all(ds: Seq<DeclV>) -> Result<Seq<TokV>, Error>
    decreases ds.len(),
{
    if ds.len() == 0 {
        Ok(Seq::empty())
    } else {
        match spec_generate(ds[0]) {
            Err(e) => Err(e),
            Ok(g) => match gen_toks_all(ds.drop_first()) {
                Ok(ts) => Ok(gen_fn_toks(g) + ts),
                Err(e) => Err(e),
            },
        }
    }
}

/// The output tokens of an impl block's items: generated functions for
/// declarations, the hand-written items verbatim.
pub open spec fn items_toks(items: Seq<ImplItemV>) -> Result<Seq<TokV>, Error>
    decreases items.len(),
{
    if items.len() == 0 {
        Ok(Seq::empty())
    } else {
        let rest = items_toks(items.drop_first());
        match items[0] {
            ImplItemV::Gen(d) => match spec_generate(d) {
                Err(e) => Err(e),
                Ok(g) => match rest {
                    Ok(ts) => Ok(gen_fn_toks(g) + ts),
                    Err(e) => Err(e),
                },
            },
            ImplItemV::Pass(ts0) => match rest {
                Ok(ts) => Ok(ts0 + ts),
                Err(e) => Err(e),
            },
        }
    }
}

/// The output tokens of the batch form: every generated function, in
/// order.
pub open spec fn spec_defs_toks(toks: Seq<TokV>) -> Result<Seq<TokV>, Error> {
    match parse_defs_from(toks, 0) {
        Err(e) => Err(e),
        Ok(decls) => gen_toks_all(decls),
    }
}

/// What the batch form produces from raw input bytes: the rendered text
/// of every generated function, or the first error of the run.
pub open spec fn spec_expand_defs(input: Seq<u8>) -> Result<Seq<u8>, Error> {
    match spec_lex(input) {
        Err(e) => Err(e),
        Ok(toks) => match spec_defs_toks(toks) {
            Err(e) => Err(e),
            Ok(ts) => Ok(render_toks(ts)),
        },
    }
}

/// The output tokens of the impl form: one impl block holding the
/// generated and passthrough items in their original order.
pub open spec fn spec_impl_toks(toks: Seq<TokV>) -> Result<Seq<TokV>, Error> {
    match parse_impl(toks) {
        Err(e) => Err(e),
        Ok((target, items)) => match items_toks(items) {
            Err(e) => Err(e),
            Ok(its) => Ok(
                seq![TokV::Kw(Kw::Impl)] + target + seq![TokV::Punct(123u8)] + its + seq![
                    TokV::Punct(125u8),
                ],
            ),
        },
    }
}

/// What the impl form produces from raw input bytes: one impl block
/// holding the generated and passthrough items in their original
/// order, or the first error of the run.
pub open spec fn spec_expand_impl(input: Seq<u8>) -> Result<Seq<u8>, Error> {
    match spec_lex(input) {
        Err(e) => Err(e),
        Ok(toks) => match spec_impl_toks(toks) {
            Err(e) => Err(e),
            Ok(ts) => Ok(render_toks(ts)),
        },
    }
}

fn render_all(toks: &Vec<Tok>) -> (r: Vec<u8>)
    ensures
        r@ == render_toks(toks_view(toks@)),
{
    let mut out: Vec<u8> = Vec::new();
    render_into(&mut out, toks, false);
    proof {
        if toks@.len() == 0 {
            assert(toks_view(toks@).len() == 0);
            assert(out@ =~= render_toks(toks_view(toks@)));
        } else {
            assert(Seq::<u8>::empty() + render_toks(toks_view(toks@)) =~= render_toks(
                toks_view(toks@),
            ));
        }
    }
    out
}

/// The executable counterpart of `spec_defs_toks`.
pub fn defs_toks_x(toks: &Vec<Tok>) -> (r: Result<Vec<Tok>, Error>)
    ensures
        match r {
            Ok(v) => spec_defs_toks(toks_view(toks@)) == Ok::<Seq<TokV>, Error>(toks_view(v@)),
            Err(e) => spec_defs_toks(toks_view(toks@)) == Err::<Seq<TokV>, Error>(e),
        },
{
    let decls = match parse_defs_x(toks) {
        Ok(d) => d,
        Err(e) => {
            return Err(e);
        },
    };
    let ghost dv = crate::grammar::decls_view(decls@);
    let mut out_toks: Vec<Tok> = Vec::new();
    let mut k: usize = 0;
    proof {
        assert(dv.skip(0) =~= dv);
        assert(toks_view(out_toks@) =~= Seq::<TokV>::empty());
        if gen_toks_all(dv) is Ok {
            let q = gen_toks_all(dv)->Ok_0;
            assert(Seq::<TokV>::empty() + q =~= q);
        }
    }
    while k < decls.len()
        invariant
            0 <= k <= decls@.len(),
            dv == crate::grammar::decls_view(decls@),
            gen_toks_all(dv) == (match gen_toks_all(dv.skip(k as int)) {
                Ok(ts) => Ok::<Seq<TokV>, Error>(toks_view(out_toks@) + ts),
                Err(e) => Err(e),
            }),
        decreases decls@.len() - k,
    {
        let ghost out0 = toks_view(out_toks@);
        proof {
            assert(dv[k as int] == decls@[k as int]@);
            assert(dv.skip(k as int).len() > 0);
            assert(dv.skip(k as int)[0] == dv[k as int]);
            assert(dv.skip(k as int).drop_first() =~= dv.skip(k + 1));
        }
        let g = match generate(&decls[k]) {
            Ok(g) => g,
            Err(e) => {
                return Err(e);
            },
        };
        push_gen_fn(&mut out_toks, &g);
        proof {
            if gen_toks_all(dv.skip(k + 1)) is Ok {
                let q = gen_toks_all(dv.skip(k + 1))->Ok_0;
                assert(out0 + (gen_fn_toks(g@) + q) =~= (out0 + gen_fn_toks(g@)) + q);
            }
        }
        k += 1;
    }
    proof {
        assert(dv.skip(decls@.len() as int) =~= Seq::<DeclV>::empty());
        assert(toks_view(out_toks@) + Seq::<TokV>::empty() =~= toks_view(out_toks@));
    }
    Ok(out_toks)
}

/// Expands a batch of declarations: the library-call entry of the
/// generator's first form.  Succeeds exactly when the input lexes,
/// parses as a batch, and every declaration generates.
pub fn expand_defs(input: &[u8]) -> (r: Result<Vec<u8>, Error>)
    ensures
        match r {
            Ok(v) => spec_expand_defs(input@) == Ok::<Seq<u8>, Error>(v@),
            Err(e) => spec_expand_defs(input@) == Err::<Seq<u8>, Error>(e),
        },
{
    let toks = match lex(input) {
        Ok(t) => t,
        Err(e) => {
            return Err(e);
        },
    };
    match defs_toks_x(&toks) {
        Ok(out_toks) => Ok(render_all(&out_toks)),
        Err(e) => Err(e),
    }
}

fn impl_kw_tok() -> (t: Tok)
    ensures
        t@ == TokV::Kw(Kw::Impl),
{
    Tok::Kw(Kw::Impl)
}

/// The executable counterpart of `spec_impl_toks`.
pub fn impl_toks_x(toks: &Vec<Tok>) -> (r: Result<Vec<Tok>, Error>)
    ensures
        match r {
            Ok(v) => spec_impl_toks(toks_view(toks@)) == Ok::<Seq<TokV>, Error>(toks_view(v@)),
            Err(e) => spec_impl_toks(toks_view(toks@)) == Err::<Seq<TokV>, Error>(e),
        },
{
    let (target, items) = match parse_impl_x(toks) {
        Ok(q) => q,
        Err(e) => {
            return Err(e);
        },
    };
    let ghost iv = crate::grammar::items_view(items@);
    let ghost tgt = toks_view(target@);
    let mut out_toks: Vec<Tok> = Vec::new();
    out_toks.push(impl_kw_tok());
    proof {
        assert(toks_view(out_toks@) =~= seq![TokV::Kw(Kw::Impl)]);
    }
    let ghost h1 = toks_view(out_toks@);
    append_toks(&mut out_toks, &target);
    let ghost h2 = toks_view(out_toks@);
    proof {
        assert(h2 == h1 + tgt);
    }
    out_toks.push(Tok::Punct(123));
    let ghost head = toks_view(out_toks@);
    proof {
        assert(head =~= h2 + seq![TokV::Punct(123u8)]);
        assert(head =~= seq![TokV::Kw(Kw::Impl)] + tgt + seq![TokV::Punct(123u8)]);
    }
    let mut k: usize = 0;
    proof {
        assert(iv.skip(0) =~= iv);
        if items_toks(iv) is Ok {
            let q = items_toks(iv)->Ok_0;
            assert(head + (Seq::<TokV>::empty() + q) =~= head + q);
        }
        assert(toks_view(out_toks@) =~= head + Seq::<TokV>::empty());
    }
    while k < items.len()
        invariant
            0 <= k <= items@.len(),
            iv == crate::grammar::items_view(items@),
            items_toks(iv) is Ok ==> toks_view(out_toks@) + items_toks(
                iv.skip(k as int),
            )->Ok_0 == head + items_toks(iv)->Ok_0,
            items_toks(iv) is Ok ==> items_toks(iv.skip(k as int)) is Ok,
            items_toks(iv.skip(k as int)) is Err ==> items_toks(iv) == items_toks(
                iv.skip(k as int),
            ),
            items_toks(iv) is Err ==> items_toks(iv.skip(k as int)) is Err,
        decreases items@.len() - k,
    {
        let ghost out0 = toks_view(out_toks@);
        proof {
            assert(iv[k as int] == items@[k as int]@);
            assert(iv.skip(k as int).len() > 0);
            assert(iv.skip(k as int)[0] == iv[k as int]);
            assert(iv.skip(k as int).drop_first() =~= iv.skip(k + 1));
        }
        match &items[k] {
            ImplItem::Gen(d) => {
                let g = match generate(d) {
                    Ok(g) => g,
                    Err(e) => {
                        proof {
                            assert(items_toks(iv.skip(k as int)) is Err);
                        }
                        return Err(e);
                    },
                };
                push_gen_fn(&mut out_toks, &g);
                proof {
                    if items_toks(iv.skip(k + 1)) is Ok {
                        let q = items_toks(iv.skip(k + 1))->Ok_0;
                        assert(out0 + (gen_fn_toks(g@) + q) =~= (out0 + gen_fn_toks(g@)) + q);
                    }
                }
            },
            ImplItem::Pass(ts) => {
                append_toks(&mut out_toks, ts);
                proof {
                    if items_toks(iv.skip(k + 1)) is Ok {
                        let q = items_toks(iv.skip(k + 1))->Ok_0;
                        assert(out0 + (toks_view(ts@) + q) =~= (out0 + toks_view(ts@)) + q);
                    }
                }
            },
        }
        k += 1;
    }
    proof {
        assert(iv.skip(items@.len() as int) =~= Seq::<ImplItemV>::empty());
    }
    let ghost mid = toks_view(out_toks@);
    out_toks.push(Tok::Punct(125));
    proof {
        assert(toks_view(out_toks@) =~= mid + seq![TokV::Punct(125u8)]);
        if items_toks(iv) is Ok {
            assert(mid + Seq::<TokV>::empty() =~= mid);
            assert(toks_view(out_toks@) =~= (seq![TokV::Kw(Kw::Impl)] + tgt + seq![
                TokV::Punct(123u8),
            ] + items_toks(iv)->Ok_0 + seq![TokV::Punct(125u8)]));
        }
    }
    Ok(out_toks)
}

/// Expands one impl block: the library-call entry of the generator's
/// second form.  Succeeds exactly when the input lexes, parses as an
/// impl block, and every declaration in it generates; hand-written
/// items are kept unchanged in their place.
pub fn expand_impl(input: &[u8]) -> (r: Result<Vec<u8>, Error>)
    ensures
        match r {
            Ok(v) => spec_expand_impl(input@) == Ok::<Seq<u8>, Error>(v@),
            Err(e) => spec_expand_impl(input@) == Err::<Seq<u8>, Error>(e),
        },
{
    let toks = match lex(input) {
        Ok(t) => t,
        Err(e) => {
            return Err(e);
        },
    };
    match impl_toks_x(&toks) {
        Ok(out_toks) => Ok(render_all(&out_toks)),
        Err(e) => Err(e),
    }
}


// ---------------------------------------------------------------------------
// Rewriting a whole source file
// ---------------------------------------------------------------------------

/// The spelling of the impl-form invocation.
pub open spec fn impl_invocation_bytes() -> Seq<u8> {
    seq![103u8, 117u8, 105u8, 108u8, 101u8, 95u8, 105u8, 109u8, 112u8, 108u8]
}

/// The spelling of the batch-form invocation.
pub open spec fn defs_invocation_bytes() -> Seq<u8> {
    seq![103u8, 117u8, 105u8, 108u8, 101u8, 95u8, 100u8, 101u8, 102u8, 115u8]
}

/// Rewrites a token stream from position `i` on: each generator
/// invocation keeps its name, bang and delimiters, and its body is
/// replaced by the generated items; everything else passes through.
/// Invocations inside an invocation's body are not expanded again.
pub open spec fn spec_rewrite_from(ts: Seq<TokV>, i: int) -> Result<Seq<TokV>, Error>
    decreases ts.len() - i,
    when 0 <= i <= ts.len()
{
    if i >= ts.len() {
        Ok(Seq::empty())
    } else {
        let is_inv = i + 2 < ts.len() && (ts[i] == TokV::Ident(impl_invocation_bytes()) || ts[i]
            == TokV::Ident(defs_invocation_bytes())) && ts[i + 1] == TokV::Punct(33u8)
            && crate::parse::is_open_punct(ts[i + 2]);
        if is_inv {
            match crate::parse::scan_group(ts, i + 3, 0) {
                None => Err(Error::Parse),
                Some(c) => if i + 3 <= c && c < ts.len() {
                    let inner = ts.subrange(i + 3, c);
                    let expanded = if ts[i] == TokV::Ident(impl_invocation_bytes()) {
                        spec_impl_toks(inner)
                    } else {
                        spec_defs_toks(inner)
                    };
                    match expanded {
                        Err(e) => Err(e),
                        Ok(body) => match spec_rewrite_from(ts, c + 1) {
                            Err(e) => Err(e),
                            Ok(rest) => Ok(ts.subrange(i, i + 3) + body + seq![ts[c]] + rest),
                        },
                    }
                } else {
                    Err(Error::Parse)
                },
            }
        } else {
            match spec_rewrite_from(ts, i + 1) {
                Err(e) => Err(e),
                Ok(rest) => Ok(seq![ts[i]] + rest),
            }
        }
    }
}

/// What the file driver produces: the whole source text with every
/// invocation's body replaced by the generated items.
pub open spec fn spec_rewrite_source(input: Seq<u8>) -> Result<Seq<u8>, Error> {
    match spec_lex(input) {
        Err(e) => Err(e),
        Ok(toks) => match spec_rewrite_from(toks, 0) {
            Err(e) => Err(e),
            Ok(ts) => Ok(render_toks(ts)),
        },
    }
}

proof fn lemma_rewrite_chain(tv: Seq<TokV>, i: int, j: int, out0: Seq<TokV>, delta: Seq<TokV>)
    requires
        0 <= j <= tv.len(),
        spec_rewrite_from(tv, 0) == (match spec_rewrite_from(tv, i) {
            Ok(r) => Ok::<Seq<TokV>, Error>(out0 + r),
            Err(e) => Err(e),
        }),
        spec_rewrite_from(tv, i) == (match spec_rewrite_from(tv, j) {
            Ok(r) => Ok::<Seq<TokV>, Error>(delta + r),
            Err(e) => Err(e),
        }),
    ensures
        spec_rewrite_from(tv, 0) == (match spec_rewrite_from(tv, j) {
            Ok(r) => Ok::<Seq<TokV>, Error>((out0 + delta) + r),
            Err(e) => Err(e),
        }),
{
    if spec_rewrite_from(tv, j) is Ok {
        let r = spec_rewrite_from(tv, j)->Ok_0;
        assert(out0 + (delta + r) =~= (out0 + delta) + r);
    }
}

fn tok_ident_eq(t: &Tok, bytes: &[u8], target: Ghost<Seq<u8>>) -> (r: bool)
    requires
        bytes@ == target@,
    ensures
        r == (t@ == TokV::Ident(target@)),
{
    match t {
        Tok::Ident(v) => {
            if v.len() != bytes.len() {
                proof {
                    assert(v@ != target@);
                }
                return false;
            }
            let mut k: usize = 0;
            while k < v.len()
                invariant
                    0 <= k <= v@.len(),
                    v@.len() == target@.len(),
                    bytes@ == target@,
                    forall|m: int| 0 <= m < k ==> v@[m] == target@[m],
                decreases v@.len() - k,
            {
                if v[k] != bytes[k] {
                    proof {
                        assert(v@ != target@);
                    }
                    return false;
                }
                k += 1;
            }
            proof {
                assert(v@ =~= target@);
            }
            true
        },
        _ => false,
    }
}

fn is_impl_invocation_tok(t: &Tok) -> (r: bool)
    ensures
        r == (t@ == TokV::Ident(impl_invocation_bytes())),
{
    let b: [u8; 10] = [103, 117, 105, 108, 101, 95, 105, 109, 112, 108];
    proof {
        assert(b@ =~= impl_invocation_bytes());
    }
    tok_ident_eq(t, b.as_slice(), Ghost(impl_invocation_bytes()))
}

fn is_defs_invocation_tok(t: &Tok) -> (r: bool)
    ensures
        r == (t@ == TokV::Ident(defs_invocation_bytes())),
{
    let b: [u8; 10] = [103, 117, 105, 108, 101, 95, 100, 101, 102, 115];
    proof {
        assert(b@ =~= defs_invocation_bytes());
    }
    tok_ident_eq(t, b.as_slice(), Ghost(defs_invocation_bytes()))
}

/// Rewrites a whole source text: the file-driver entry.  Each
/// invocation's body is replaced by the generated items in place;
/// everything around them is kept, token for token.
#[verifier::rlimit(100)]
pub fn rewrite_source(input: &[u8]) -> (r: Result<Vec<u8>, Error>)
    ensures
        match r {
            Ok(v) => spec_rewrite_source(input@) == Ok::<Seq<u8>, Error>(v@),
            Err(e) => spec_rewrite_source(input@) == Err::<Seq<u8>, Error>(e),
        },
{
    let toks = match lex(input) {
        Ok(t) => t,
        Err(e) => {
            return Err(e);
        },
    };
    let ghost tv = toks_view(toks@);
    let n = toks.len();
    let mut out: Vec<Tok> = Vec::new();
    let mut i: usize = 0;
    proof {
        assert(toks_view(out@) =~= Seq::<TokV>::empty());
        if spec_rewrite_from(tv, 0) is Ok {
            let q = spec_rewrite_from(tv, 0)->Ok_0;
            assert(Seq::<TokV>::empty() + q =~= q);
        }
    }
    while i < n
        invariant
            0 <= i <= n == toks@.len(),
            tv == toks_view(toks@),
            spec_rewrite_from(tv, 0) == (match spec_rewrite_from(tv, i as int) {
                Ok(r) => Ok::<Seq<TokV>, Error>(toks_view(out@) + r),
                Err(e) => Err(e),
            }),
        decreases n - i,
    {
        let ghost ii = i as int;
        let ghost out0 = toks_view(out@);
        proof {
            assert(tv[ii] == toks@[ii]@);
            if i + 1 < n {
                assert(tv[ii + 1] == toks@[ii + 1]@);
            }
            if i + 2 < n {
                assert(tv[ii + 2] == toks@[ii + 2]@);
            }
        }
        let head_impl = is_impl_invocation_tok(&toks[i]);
        let head_defs = is_defs_invocation_tok(&toks[i]);
        let is_inv = n - i > 2 && (head_impl || head_defs) && crate::parse::tok_is_punct(
            &toks[i + 1],
            33,
        ) && (crate::parse::tok_is_punct(&toks[i + 2], 40) || crate::parse::tok_is_punct(
            &toks[i + 2],
            91,
        ) || crate::parse::tok_is_punct(&toks[i + 2], 123));
        if is_inv {
            let c = match crate::parse::scan_group_x(&toks, i + 3, 0) {
                Some(c) => c,
                None => {
                    return Err(Error::Parse);
                },
            };
            let inner = crate::parse::clone_range(&toks, i + 3, c);
            let body = if head_impl {
                impl_toks_x(&inner)
            } else {
                defs_toks_x(&inner)
            };
            let body = match body {
                Ok(b) => b,
                Err(e) => {
                    return Err(e);
                },
            };
            let ghost bodyv = toks_view(body@);
            let ghost delta = tv.subrange(ii, ii + 3) + bodyv + seq![tv[c as int]];
            out.push(crate::parse::clone_tok(&toks[i]));
            out.push(crate::parse::clone_tok(&toks[i + 1]));
            out.push(crate::parse::clone_tok(&toks[i + 2]));
            let ghost s1 = toks_view(out@);
            proof {
                assert(s1 =~= out0 + seq![tv[ii], tv[ii + 1], tv[ii + 2]]);
            }
            crate::parse::append_toks(&mut out, &body);
            let ghost s2 = toks_view(out@);
            proof {
                assert(s2 == s1 + bodyv);
            }
            out.push(crate::parse::clone_tok(&toks[c]));
            proof {
                assert(tv[c as int] == toks@[c as int]@);
                assert(tv.subrange(ii, ii + 3) =~= seq![tv[ii], tv[ii + 1], tv[ii + 2]]);
                assert(toks_view(out@) =~= s2 + seq![tv[c as int]]);
                assert(toks_view(out@) =~= out0 + delta);
                assert(spec_rewrite_from(tv, ii) == (match spec_rewrite_from(tv, c + 1) {
                    Ok(r) => Ok::<Seq<TokV>, Error>(delta + r),
                    Err(e) => Err(e),
                })) by {
                    if spec_rewrite_from(tv, c + 1) is Ok {
                        let r = spec_rewrite_from(tv, c + 1)->Ok_0;
                        assert((tv.subrange(ii, ii + 3) + bodyv + seq![tv[c as int]]) + r
                            =~= tv.subrange(ii, ii + 3) + bodyv + seq![tv[c as int]] + r);
                    }
                }
                lemma_rewrite_chain(tv, ii, c + 1, out0, delta);
            }
            i = c + 1;
        } else {
            out.push(crate::parse::clone_tok(&toks[i]));
            proof {
                let delta = seq![tv[ii]];
                assert(toks_view(out@) =~= out0 + delta);
                lemma_rewrite_chain(tv, ii, ii + 1, out0, delta);
            }
            i = i + 1;
        }
    }
    proof {
        if spec_rewrite_from(tv, i as int) is Ok {
            let q = spec_rewrite_from(tv, i as int)->Ok_0;
            assert(toks_view(out@) + q =~= toks_view(out@));
        }
    }
    Ok(render_all(&out))
}

/// Round trip: generating twice from identical input text yields
/// byte-identical output, in either form.  Every stage is a function
/// of the input bytes alone.
pub proof fn lemma_generation_deterministic(a: Seq<u8>, b: Seq<u8>)
    requires
        a == b,
    ensures
        spec_expand_defs(a) == spec_expand_defs(b),
        spec_expand_impl(a) == spec_expand_impl(b),
        spec_rewrite_source(a) == spec_rewrite_source(b),
{
}

} // verus!
