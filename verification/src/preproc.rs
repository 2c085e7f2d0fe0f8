//! The argument-marker preprocessor.  `@` markers in a call-argument
//! list are rewritten structurally, token by token: `@s` becomes the
//! receiver's raw-handle field, `@N#` becomes parameter `N`'s raw-handle
//! field, `@N` the bare parameter, and `@*` / `@*#` stand for the rest
//! placeholder.  The parameter positions a marker names are collected
//! alongside, so rest expansion never has to recover them from text.

use vstd::prelude::*;

use crate::errors::Error;
use crate::grammar::{CallArg, CallArgV, cargs_view};
use crate::parse::{clone_tok, pieces_view, tok_is_int, tok_is_punct};
use crate::tokens::{dec_bytes, dec_digits, dec_parse, dec_val, Kw, Tok, TokV, toks_view};

verus! {

/// Appends the values of `v` to `out`.
pub fn append_u64s(out: &mut Vec<u64>, v: &Vec<u64>)
    ensures
        final(out)@ == old(out)@ + v@,
{
    let mut k: usize = 0;
    while k < v.len()
        invariant
            0 <= k <= v@.len(),
            out@ == old(out)@ + v@.subrange(0, k as int),
        decreases v@.len() - k,
    {
        out.push(v[k]);
        proof {
            assert(out@ =~= old(out)@ + v@.subrange(0, k + 1 as int));
        }
        k += 1;
    }
    proof {
        assert(v@.subrange(0, v@.len() as int) =~= v@);
    }
}

/// The spelling of the raw-handle field.
pub open spec fn data_bytes() -> Seq<u8> {
    seq![100u8, 97u8, 116u8, 97u8]
}

/// The positional name of parameter `n`.
pub open spec fn param_name(n: nat) -> Seq<u8> {
    seq![97u8] + dec_digits(n)
}

/// The token for the raw-handle field name.
pub fn data_tok() -> (t: Tok)
    ensures
        t@ == TokV::Ident(data_bytes()),
{
    let mut v: Vec<u8> = Vec::new();
    v.push(100);
    v.push(97);
    v.push(116);
    v.push(97);
    proof {
        assert(v@ =~= data_bytes());
    }
    Tok::Ident(v)
}

/// The token for parameter `n`'s positional name.
pub fn param_name_tok(n: u64) -> (t: Tok)
    ensures
        t@ == TokV::Ident(param_name(n as nat)),
{
    let mut v: Vec<u8> = Vec::new();
    v.push(97);
    let d = dec_bytes(n);
    let mut k: usize = 0;
    while k < d.len()
        invariant
            0 <= k <= d@.len(),
            v@ == seq![97u8] + d@.subrange(0, k as int),
        decreases d@.len() - k,
    {
        v.push(d[k]);
        proof {
            assert(v@ =~= seq![97u8] + d@.subrange(0, k + 1 as int));
        }
        k += 1;
    }
    proof {
        assert(d@.subrange(0, d@.len() as int) =~= d@);
        assert(v@ =~= param_name(n as nat));
    }
    Tok::Ident(v)
}

/// Rewrites the markers of one immediate expression, from position `i`
/// on: the rewritten tokens and the parameter positions the markers
/// reference.  A marker naming a position beyond the machine's word is
/// refused; an unrecognized marker stays as literal text.
pub open spec fn preproc_from(p: Seq<TokV>, i: int) -> Result<(Seq<TokV>, Seq<u64>), Error>
    decreases p.len() - i,
    when 0 <= i <= p.len()
{
    if i >= p.len() {
        Ok((seq![], seq![]))
    } else if p[i] == TokV::Punct(64u8) && i + 1 < p.len() && p[i + 1] == TokV::Ident(
        seq![115u8],
    ) {
        match preproc_from(p, i + 2) {
            Ok(q) => Ok(
                (
                    seq![TokV::Kw(Kw::SelfLower), TokV::Punct(46u8), TokV::Ident(data_bytes())]
                        + q.0,
                    q.1,
                ),
            ),
            Err(e) => Err(e),
        }
    } else if p[i] == TokV::Punct(64u8) && i + 1 < p.len() && p[i + 1] is Int {
        let n = dec_val(p[i + 1]->Int_0);
        if n > u64::MAX {
            Err(Error::ParamRef)
        } else if i + 2 < p.len() && p[i + 2] == TokV::Punct(35u8) {
            match preproc_from(p, i + 3) {
                Ok(q) => Ok(
                    (
                        seq![
                            TokV::Ident(param_name(n)),
                            TokV::Punct(46u8),
                            TokV::Ident(data_bytes()),
                        ] + q.0,
                        seq![n as u64] + q.1,
                    ),
                ),
                Err(e) => Err(e),
            }
        } else {
            match preproc_from(p, i + 2) {
                Ok(q) => Ok((seq![TokV::Ident(param_name(n))] + q.0, seq![n as u64] + q.1)),
                Err(e) => Err(e),
            }
        }
    } else {
        match preproc_from(p, i + 1) {
            Ok(q) => Ok((seq![p[i]] + q.0, q.1)),
            Err(e) => Err(e),
        }
    }
}

/// Chains one rewriting step into the loop's accumulated equation.
proof fn lemma_preproc_chain(
    pv: Seq<TokV>,
    i: int,
    j: int,
    out0: Seq<TokV>,
    refs0: Seq<u64>,
    delta: Seq<TokV>,
    dr: Seq<u64>,
)
    requires
        0 <= j <= pv.len(),
        preproc_from(pv, 0) == (match preproc_from(pv, i) {
            Ok(p) => Ok::<(Seq<TokV>, Seq<u64>), Error>((out0 + p.0, refs0 + p.1)),
            Err(e) => Err(e),
        }),
        preproc_from(pv, i) == (match preproc_from(pv, j) {
            Ok(p) => Ok::<(Seq<TokV>, Seq<u64>), Error>((delta + p.0, dr + p.1)),
            Err(e) => Err(e),
        }),
    ensures
        preproc_from(pv, 0) == (match preproc_from(pv, j) {
            Ok(p) => Ok::<(Seq<TokV>, Seq<u64>), Error>(((out0 + delta) + p.0, (refs0 + dr) + p.1)),
            Err(e) => Err(e),
        }),
{
    if preproc_from(pv, j) is Ok {
        let p = preproc_from(pv, j)->Ok_0;
        assert(out0 + (delta + p.0) =~= (out0 + delta) + p.0);
        assert(refs0 + (dr + p.1) =~= (refs0 + dr) + p.1);
    }
}

fn tok_ident_is_s(t: &Tok) -> (r: bool)
    ensures
        r == (t@ == TokV::Ident(seq![115u8])),
{
    match t {
        Tok::Ident(v) => {
            if v.len() == 1 && v[0] == 115 {
                proof {
                    assert(v@ =~= seq![115u8]);
                }
                true
            } else {
                proof {
                    assert(v@ != seq![115u8]);
                }
                false
            }
        },
        _ => false,
    }
}

/// The executable marker rewriter for one immediate expression.
pub fn preproc_item(p: &Vec<Tok>) -> (r: Result<(Vec<Tok>, Vec<u64>), Error>)
    ensures
        match r {
            Ok(q) => preproc_from(toks_view(p@), 0) == Ok::<_, Error>(
                (toks_view(q.0@), q.1@),
            ),
            Err(e) => preproc_from(toks_view(p@), 0) == Err::<(Seq<TokV>, Seq<u64>), _>(e),
        },
{
    let ghost pv = toks_view(p@);
    let mut out: Vec<Tok> = Vec::new();
    let mut refs: Vec<u64> = Vec::new();
    let mut i: usize = 0;
    let n = p.len();
    proof {
        assert(toks_view(out@) =~= Seq::<TokV>::empty());
        if preproc_from(pv, 0) is Ok {
            let q = preproc_from(pv, 0)->Ok_0;
            assert(Seq::<TokV>::empty() + q.0 =~= q.0);
            assert(Seq::<u64>::empty() + q.1 =~= q.1);
        }
    }
    while i < n
        invariant
            0 <= i <= n == p@.len(),
            pv == toks_view(p@),
            preproc_from(pv, 0) == (match preproc_from(pv, i as int) {
                Ok(q) => Ok::<(Seq<TokV>, Seq<u64>), Error>((toks_view(out@) + q.0, refs@ + q.1)),
                Err(e) => Err(e),
            }),
        decreases n - i,
    {
        proof {
            assert(pv[i as int] == p@[i as int]@);
            if i + 1 < n {
                assert(pv[i + 1 as int] == p@[i + 1 as int]@);
            }
            if i + 2 < n {
                assert(pv[i + 2 as int] == p@[i + 2 as int]@);
            }
        }
        let ghost ii = i as int;
        let ghost out0 = toks_view(out@);
        let ghost refs0 = refs@;
        if tok_is_punct(&p[i], 64) && i + 1 < n && tok_ident_is_s(&p[i + 1]) {
            let ghost delta = seq![
                TokV::Kw(Kw::SelfLower),
                TokV::Punct(46u8),
                TokV::Ident(data_bytes()),
            ];
            out.push(Tok::Kw(Kw::SelfLower));
            out.push(Tok::Punct(46));
            out.push(data_tok());
            proof {
                assert(toks_view(out@) =~= out0 + delta);
                assert(preproc_from(pv, ii) == (match preproc_from(pv, ii + 2) {
                    Ok(q) => Ok::<(Seq<TokV>, Seq<u64>), Error>(
                        (delta + q.0, Seq::<u64>::empty() + q.1),
                    ),
                    Err(e) => Err(e),
                })) by {
                    if preproc_from(pv, ii + 2) is Ok {
                        let q = preproc_from(pv, ii + 2)->Ok_0;
                        assert(Seq::<u64>::empty() + q.1 =~= q.1);
                    }
                }
                lemma_preproc_chain(pv, ii, ii + 2, out0, refs0, delta, Seq::<u64>::empty());
                assert(refs0 + Seq::<u64>::empty() =~= refs0);
            }
            i = i + 2;
        } else if tok_is_punct(&p[i], 64) && i + 1 < n && tok_is_int(&p[i + 1]) {
            let digits = match &p[i + 1] {
                Tok::Int(d) => d,
                _ => {
                    proof {
                        assert(false);
                    }
                    return Err(Error::Parse);
                },
            };
            let val = match dec_parse(digits) {
                Some(v) => v,
                None => {
                    return Err(Error::ParamRef);
                },
            };
            if i + 2 < n && tok_is_punct(&p[i + 2], 35) {
                let ghost delta = seq![
                    TokV::Ident(param_name(val as nat)),
                    TokV::Punct(46u8),
                    TokV::Ident(data_bytes()),
                ];
                out.push(param_name_tok(val));
                out.push(Tok::Punct(46));
                out.push(data_tok());
                refs.push(val);
                proof {
                    assert(toks_view(out@) =~= out0 + delta);
                    assert(refs@ =~= refs0 + seq![val]);
                    lemma_preproc_chain(pv, ii, ii + 3, out0, refs0, delta, seq![val]);
                }
                i = i + 3;
            } else {
                let ghost delta = seq![TokV::Ident(param_name(val as nat))];
                out.push(param_name_tok(val));
                refs.push(val);
                proof {
                    assert(toks_view(out@) =~= out0 + delta);
                    assert(refs@ =~= refs0 + seq![val]);
                    lemma_preproc_chain(pv, ii, ii + 2, out0, refs0, delta, seq![val]);
                }
                i = i + 2;
            }
        } else {
            let t = clone_tok(&p[i]);
            out.push(t);
            proof {
                let delta = seq![pv[ii]];
                assert(toks_view(out@) =~= out0 + delta);
                assert(preproc_from(pv, ii) == (match preproc_from(pv, ii + 1) {
                    Ok(q) => Ok::<(Seq<TokV>, Seq<u64>), Error>(
                        (delta + q.0, Seq::<u64>::empty() + q.1),
                    ),
                    Err(e) => Err(e),
                })) by {
                    if preproc_from(pv, ii + 1) is Ok {
                        let q = preproc_from(pv, ii + 1)->Ok_0;
                        assert(Seq::<u64>::empty() + q.1 =~= q.1);
                    }
                }
                lemma_preproc_chain(pv, ii, ii + 1, out0, refs0, delta, Seq::<u64>::empty());
                assert(refs0 + Seq::<u64>::empty() =~= refs0);
            }
            i = i + 1;
        }
    }
    proof {
        if preproc_from(pv, i as int) is Ok {
            let q = preproc_from(pv, i as int)->Ok_0;
            assert(toks_view(out@) + q.0 =~= toks_view(out@));
            assert(refs@ + q.1 =~= refs@);
        }
    }
    Ok((out, refs))
}

// ---------------------------------------------------------------------------
// Call-argument classification
// ---------------------------------------------------------------------------

/// The rest markers, recognized only when they make up a whole item.
pub open spec fn rest_raw_marker() -> Seq<TokV> {
    seq![TokV::Punct(64u8), TokV::Punct(42u8)]
}

pub open spec fn rest_proj_marker() -> Seq<TokV> {
    seq![TokV::Punct(64u8), TokV::Punct(42u8), TokV::Punct(35u8)]
}

/// One call-argument item: a rest placeholder, or an immediate
/// expression run through the marker rewriter.
pub open spec fn classify_carg(p: Seq<TokV>) -> Result<(CallArgV, Seq<u64>), Error> {
    if p == rest_raw_marker() {
        Ok((CallArgV::Rest { raw: true }, seq![]))
    } else if p == rest_proj_marker() {
        Ok((CallArgV::Rest { raw: false }, seq![]))
    } else {
        match preproc_from(p, 0) {
            Ok(q) => Ok((CallArgV::Immediate { toks: q.0 }, q.1)),
            Err(e) => Err(e),
        }
    }
}

/// All call-argument items, with every referenced position collected in
/// order.
pub open spec fn classify_cargs(ps: Seq<Seq<TokV>>) -> Result<(Seq<CallArgV>, Seq<u64>), Error>
    decreases ps.len(),
{
    if ps.len() == 0 {
        Ok((seq![], seq![]))
    } else {
        match classify_carg(ps[0]) {
            Err(e) => Err(e),
            Ok(q) => match classify_cargs(ps.drop_first()) {
                Ok(rest) => Ok((seq![q.0] + rest.0, q.1 + rest.1)),
                Err(e) => Err(e),
            },
        }
    }
}

fn classify_carg_x(p: &Vec<Tok>) -> (r: Result<(CallArg, Vec<u64>), Error>)
    ensures
        match r {
            Ok(q) => classify_carg(toks_view(p@)) == Ok::<_, Error>((q.0@, q.1@)),
            Err(e) => classify_carg(toks_view(p@)) == Err::<(CallArgV, Seq<u64>), _>(e),
        },
{
    let ghost pv = toks_view(p@);
    proof {
        assert(pv.len() == p@.len());
        if p@.len() >= 1 {
            assert(pv[0] == p@[0]@);
        }
        if p@.len() >= 2 {
            assert(pv[1] == p@[1]@);
        }
        if p@.len() >= 3 {
            assert(pv[2] == p@[2]@);
        }
    }
    if p.len() == 2 && tok_is_punct(&p[0], 64) && tok_is_punct(&p[1], 42) {
        proof {
            assert(pv =~= rest_raw_marker());
        }
        return Ok((CallArg::Rest { raw: true }, Vec::new()));
    }
    if p.len() == 3 && tok_is_punct(&p[0], 64) && tok_is_punct(&p[1], 42) && tok_is_punct(
        &p[2],
        35,
    ) {
        proof {
            assert(pv =~= rest_proj_marker());
        }
        return Ok((CallArg::Rest { raw: false }, Vec::new()));
    }
    proof {
        assert(pv != rest_raw_marker());
        assert(pv != rest_proj_marker());
    }
    match preproc_item(p) {
        Ok((ts, rs)) => Ok((CallArg::Immediate { toks: ts }, rs)),
        Err(e) => Err(e),
    }
}

/// The executable counterpart of `classify_cargs`.
pub fn classify_cargs_x(ps: &Vec<Vec<Tok>>) -> (r: Result<(Vec<CallArg>, Vec<u64>), Error>)
    ensures
        match r {
            Ok(q) => classify_cargs(pieces_view(ps@)) == Ok::<_, Error>(
                (cargs_view(q.0@), q.1@),
            ),
            Err(e) => classify_cargs(pieces_view(ps@)) == Err::<(Seq<CallArgV>, Seq<u64>), _>(e),
        },
{
    let ghost pv = pieces_view(ps@);
    let mut out: Vec<CallArg> = Vec::new();
    let mut refs: Vec<u64> = Vec::new();
    let mut k: usize = 0;
    proof {
        assert(cargs_view(out@) =~= Seq::<CallArgV>::empty());
        assert(pv.skip(0) =~= pv);
        if classify_cargs(pv) is Ok {
            let q = classify_cargs(pv)->Ok_0;
            assert(Seq::<CallArgV>::empty() + q.0 =~= q.0);
            assert(Seq::<u64>::empty() + q.1 =~= q.1);
        }
    }
    while k < ps.len()
        invariant
            0 <= k <= ps@.len(),
            pv == pieces_view(ps@),
            classify_cargs(pv) == (match classify_cargs(pv.skip(k as int)) {
                Ok(q) => Ok::<(Seq<CallArgV>, Seq<u64>), Error>(
                    (cargs_view(out@) + q.0, refs@ + q.1),
                ),
                Err(e) => Err(e),
            }),
        decreases ps@.len() - k,
    {
        let ghost kk = k as int;
        let ghost out0 = cargs_view(out@);
        let ghost refs0 = refs@;
        proof {
            assert(pv[kk] == toks_view(ps@[kk]@));
            assert(pv.skip(kk).len() > 0);
            assert(pv.skip(kk)[0] == pv[kk]);
            assert(pv.skip(kk).drop_first() =~= pv.skip(kk + 1));
        }
        match classify_carg_x(&ps[k]) {
            Ok((c, rs)) => {
                let ghost cv = c@;
                let ghost rsv = rs@;
                out.push(c);
                append_u64s(&mut refs, &rs);
                proof {
                    assert(cargs_view(out@) =~= out0.push(cv));
                    assert(out0 + seq![cv] =~= out0.push(cv));
                    if classify_cargs(pv.skip(kk + 1)) is Ok {
                        let q = classify_cargs(pv.skip(kk + 1))->Ok_0;
                        assert(out0 + (seq![cv] + q.0) =~= (out0 + seq![cv]) + q.0);
                        assert(refs0 + (rsv + q.1) =~= (refs0 + rsv) + q.1);
                    }
                }
            },
            Err(e) => {
                return Err(e);
            },
        }
        k += 1;
    }
    proof {
        assert(pv.skip(ps@.len() as int) =~= Seq::<Seq<TokV>>::empty());
        assert(cargs_view(out@) + Seq::<CallArgV>::empty() =~= cargs_view(out@));
        assert(refs@ + Seq::<u64>::empty() =~= refs@);
    }
    Ok((out, refs))
}

} // verus!
