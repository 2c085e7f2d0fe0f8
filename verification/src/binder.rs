//! The binder: resolves, for one declaration, the concrete ordered list
//! of call-site expressions, expanding the rest placeholder into every
//! declared parameter not referenced by a marker.

use vstd::prelude::*;

use crate::errors::Error;
use crate::grammar::{cargs_view, is_receiver, rest_count, CallArg, CallArgV, Declaration,
    ParamSpec, ParamV, params_view};
use crate::parse::{clone_range, pieces_view};
use crate::preproc::{data_bytes, data_tok, param_name, param_name_tok};
use crate::tokens::{Tok, TokV, toks_view};

verus! {

/// Whether some expanded marker references parameter position `i`.
pub open spec fn ref_listed(refs: Seq<u64>, i: int) -> bool {
    exists|k: int| 0 <= k < refs.len() && refs[k] == i
}

/// Whether every referenced position names a declared parameter.
pub open spec fn refs_in_range(refs: Seq<u64>, n: int) -> bool {
    forall|k: int| 0 <= k < refs.len() ==> (#[trigger] refs[k]) < n
}

/// The positions the rest placeholder expands: every non-receiver
/// parameter not referenced by a marker, in declaration order.
pub open spec fn rest_idxs(params: Seq<ParamV>, refs: Seq<u64>) -> Seq<int>
    decreases params.len(),
{
    if params.len() == 0 {
        seq![]
    } else {
        let prev = rest_idxs(params.drop_last(), refs);
        let i = params.len() - 1;
        if !is_receiver(params[i]) && !ref_listed(refs, i) {
            prev.push(i)
        } else {
            prev
        }
    }
}

/// The tokens passed for parameter `i` under rest expansion: the bare
/// positional name when `raw`, its raw-handle field otherwise.
pub open spec fn rest_arg_toks(i: int, raw: bool) -> Seq<TokV> {
    if raw {
        seq![TokV::Ident(param_name(i as nat))]
    } else {
        seq![
            TokV::Ident(param_name(i as nat)),
            TokV::Punct(46u8),
            TokV::Ident(data_bytes()),
        ]
    }
}

/// The expressions one call argument contributes.
pub open spec fn expand_carg(c: CallArgV, params: Seq<ParamV>, refs: Seq<u64>) -> Seq<Seq<TokV>> {
    match c {
        CallArgV::Immediate { toks } => seq![toks],
        CallArgV::Rest { raw } => rest_idxs(params, refs).map_values(|i: int| rest_arg_toks(i, raw)),
    }
}

/// The full resolved call-site argument list: immediate expressions and
/// expanded rest sequences, in their original order.
pub open spec fn bound_args(cargs: Seq<CallArgV>, params: Seq<ParamV>, refs: Seq<u64>) -> Seq<
    Seq<TokV>,
>
    decreases cargs.len(),
{
    if cargs.len() == 0 {
        seq![]
    } else {
        expand_carg(cargs[0], params, refs) + bound_args(cargs.drop_first(), params, refs)
    }
}

fn ref_listed_x(refs: &Vec<u64>, i: u64) -> (r: bool)
    ensures
        r == ref_listed(refs@, i as int),
{
    let mut k: usize = 0;
    while k < refs.len()
        invariant
            0 <= k <= refs@.len(),
            forall|m: int| 0 <= m < k ==> refs@[m] != i,
        decreases refs@.len() - k,
    {
        if refs[k] == i {
            return true;
        }
        k += 1;
    }
    false
}

/// Appends the rest expansion for `params` under `refs` to `out`.
fn expand_rest(params: &Vec<ParamSpec>, refs: &Vec<u64>, raw: bool, out: &mut Vec<Vec<Tok>>)
    requires
        params@.len() <= u64::MAX,
    ensures
        pieces_view(final(out)@) == pieces_view(old(out)@) + rest_idxs(
            params_view(params@),
            refs@,
        ).map_values(|i: int| rest_arg_toks(i, raw)),
{
    let ghost pv = params_view(params@);
    let ghost target = rest_idxs(pv, refs@).map_values(|i: int| rest_arg_toks(i, raw));
    let mut k: usize = 0;
    proof {
        assert(pv.take(0) =~= Seq::<ParamV>::empty());
        assert(rest_idxs(pv.take(0), refs@).map_values(|i: int| rest_arg_toks(i, raw))
            =~= Seq::<Seq<TokV>>::empty());
        assert(pieces_view(out@) + Seq::<Seq<TokV>>::empty() =~= pieces_view(out@));
    }
    while k < params.len()
        invariant
            0 <= k <= params@.len() <= u64::MAX,
            pv == params_view(params@),
            pieces_view(out@) == pieces_view(old(out)@) + rest_idxs(
                pv.take(k as int),
                refs@,
            ).map_values(|i: int| rest_arg_toks(i, raw)),
        decreases params@.len() - k,
    {
        proof {
            assert(pv[k as int] == params@[k as int]@);
            assert(pv.take(k + 1 as int).drop_last() =~= pv.take(k as int));
            assert(pv.take(k + 1 as int).last() == pv[k as int]);
        }
        let is_self = params[k].is_self();
        let listed = ref_listed_x(refs, k as u64);
        if !is_self && !listed {
            let ghost prev = pieces_view(out@);
            let mut piece: Vec<Tok> = Vec::new();
            piece.push(param_name_tok(k as u64));
            if !raw {
                piece.push(Tok::Punct(46));
                piece.push(data_tok());
            }
            proof {
                assert(toks_view(piece@) =~= rest_arg_toks(k as int, raw));
            }
            out.push(piece);
            proof {
                assert(pieces_view(out@) =~= prev.push(rest_arg_toks(k as int, raw)));
                assert(rest_idxs(pv.take(k + 1 as int), refs@) == rest_idxs(
                    pv.take(k as int),
                    refs@,
                ).push(k as int));
                assert(rest_idxs(pv.take(k + 1 as int), refs@).map_values(
                    |i: int| rest_arg_toks(i, raw),
                ) =~= rest_idxs(pv.take(k as int), refs@).map_values(
                    |i: int| rest_arg_toks(i, raw),
                ).push(rest_arg_toks(k as int, raw)));
            }
        } else {
            proof {
                assert(rest_idxs(pv.take(k + 1 as int), refs@) == rest_idxs(
                    pv.take(k as int),
                    refs@,
                ));
            }
        }
        k += 1;
    }
    proof {
        assert(pv.take(params@.len() as int) =~= pv);
    }
}

/// Resolves the call-site argument list of one declaration.  Succeeds
/// exactly when every marker references a declared parameter position;
/// the result is then the bound argument list, expression by
/// expression.
pub fn bind(d: &Declaration) -> (r: Result<Vec<Vec<Tok>>, Error>)
    ensures
        match r {
            Ok(args) => refs_in_range(d@.refs, d@.params.len() as int) && pieces_view(args@)
                == bound_args(d@.cargs, d@.params, d@.refs),
            Err(e) => e == Error::ParamRef && !refs_in_range(d@.refs, d@.params.len() as int),
        },
{
    let ghost pv = params_view(d.params@);
    let ghost cv = cargs_view(d.cargs@);
    proof {
        assert(pv.len() == d.params@.len());
        assert(cv.len() == d.cargs@.len());
    }
    let nparams = d.params.len();
    let mut k: usize = 0;
    while k < d.refs.len()
        invariant
            0 <= k <= d.refs@.len(),
            forall|m: int| 0 <= m < k ==> (#[trigger] d.refs@[m]) < d.params@.len(),
        decreases d.refs@.len() - k,
    {
        if d.refs[k] >= nparams as u64 {
            proof {
                assert(d.refs@[k as int] >= d.params@.len());
                assert(!refs_in_range(d@.refs, d@.params.len() as int));
            }
            return Err(Error::ParamRef);
        }
        k += 1;
    }
    proof {
        assert(refs_in_range(d@.refs, d@.params.len() as int));
    }
    let mut out: Vec<Vec<Tok>> = Vec::new();
    let mut k: usize = 0;
    proof {
        assert(pieces_view(out@) =~= Seq::<Seq<TokV>>::empty());
        assert(cv.skip(0) =~= cv);
        assert(Seq::<Seq<TokV>>::empty() + bound_args(cv, pv, d.refs@) =~= bound_args(
            cv,
            pv,
            d.refs@,
        ));
    }
    while k < d.cargs.len()
        invariant
            0 <= k <= d.cargs@.len(),
            pv == params_view(d.params@),
            cv == cargs_view(d.cargs@),
            d.params@.len() <= u64::MAX,
            bound_args(cv, pv, d.refs@) == pieces_view(out@) + bound_args(
                cv.skip(k as int),
                pv,
                d.refs@,
            ),
        decreases d.cargs@.len() - k,
    {
        let ghost out0 = pieces_view(out@);
        proof {
            assert(cv[k as int] == d.cargs@[k as int]@);
            assert(cv.skip(k as int).len() > 0);
            assert(cv.skip(k as int)[0] == cv[k as int]);
            assert(cv.skip(k as int).drop_first() =~= cv.skip(k + 1));
        }
        match &d.cargs[k] {
            CallArg::Immediate { toks } => {
                let piece = clone_range(toks, 0, toks.len());
                proof {
                    assert(toks_view(piece@) =~= toks_view(toks@));
                }
                out.push(piece);
                proof {
                    assert(pieces_view(out@) =~= out0.push(toks_view(toks@)));
                    assert(out0 + expand_carg(cv[k as int], pv, d.refs@) =~= pieces_view(out@));
                    assert((out0 + expand_carg(cv[k as int], pv, d.refs@)) + bound_args(
                        cv.skip(k + 1),
                        pv,
                        d.refs@,
                    ) =~= out0 + (expand_carg(cv[k as int], pv, d.refs@) + bound_args(
                        cv.skip(k + 1),
                        pv,
                        d.refs@,
                    )));
                }
            },
            CallArg::Rest { raw } => {
                let raw = *raw;
                expand_rest(&d.params, &d.refs, raw, &mut out);
                proof {
                    assert(pieces_view(out@) == out0 + expand_carg(cv[k as int], pv, d.refs@));
                    assert((out0 + expand_carg(cv[k as int], pv, d.refs@)) + bound_args(
                        cv.skip(k + 1),
                        pv,
                        d.refs@,
                    ) =~= out0 + (expand_carg(cv[k as int], pv, d.refs@) + bound_args(
                        cv.skip(k + 1),
                        pv,
                        d.refs@,
                    )));
                }
            },
        }
        k += 1;
    }
    proof {
        assert(cv.skip(d.cargs@.len() as int) =~= Seq::<CallArgV>::empty());
        assert(pieces_view(out@) + Seq::<Seq<TokV>>::empty() =~= pieces_view(out@));
    }
    Ok(out)
}

// ---------------------------------------------------------------------------
// What binding guarantees
// ---------------------------------------------------------------------------

/// The expression of an immediate argument.
pub open spec fn immediate_toks(c: CallArgV) -> Seq<TokV> {
    c->Immediate_toks
}

/// With no rest placeholder, the generated call's argument list is
/// exactly the immediate expressions in order: no declared parameter
/// enters unless an expression references it.
pub proof fn lemma_no_rest_args(cargs: Seq<CallArgV>, params: Seq<ParamV>, refs: Seq<u64>)
    requires
        forall|k: int| 0 <= k < cargs.len() ==> !((#[trigger] cargs[k]) is Rest),
    ensures
        bound_args(cargs, params, refs) == cargs.map_values(|c: CallArgV| immediate_toks(c)),
    decreases cargs.len(),
{
    if cargs.len() == 0 {
        assert(bound_args(cargs, params, refs) =~= cargs.map_values(
            |c: CallArgV| immediate_toks(c),
        ));
    } else {
        lemma_no_rest_args(cargs.drop_first(), params, refs);
        assert(cargs[0] is Immediate);
        assert(expand_carg(cargs[0], params, refs) == seq![immediate_toks(cargs[0])]);
        assert(bound_args(cargs, params, refs) =~= cargs.map_values(
            |c: CallArgV| immediate_toks(c),
        ));
    }
}

/// With exactly one rest placeholder, the bound list is the immediate
/// expressions before it, then one expression for each unreferenced
/// non-receiver parameter in declaration order, then the immediate
/// expressions after it.  When the placeholder is raw those expressions
/// are the bare positional names; otherwise each projects the
/// parameter's raw-handle field.
pub proof fn lemma_single_rest_args(
    cargs: Seq<CallArgV>,
    params: Seq<ParamV>,
    refs: Seq<u64>,
    p: int,
)
    requires
        0 <= p < cargs.len(),
        cargs[p] is Rest,
        forall|k: int| 0 <= k < cargs.len() && k != p ==> !((#[trigger] cargs[k]) is Rest),
    ensures
        bound_args(cargs, params, refs) == cargs.take(p).map_values(
            |c: CallArgV| immediate_toks(c),
        ) + rest_idxs(params, refs).map_values(|i: int| rest_arg_toks(i, cargs[p]->Rest_raw))
            + cargs.skip(p + 1).map_values(|c: CallArgV| immediate_toks(c)),
    decreases p,
{
    if p == 0 {
        lemma_no_rest_args(cargs.drop_first(), params, refs);
        assert(cargs.take(0).map_values(|c: CallArgV| immediate_toks(c))
            =~= Seq::<Seq<TokV>>::empty());
        assert(cargs.drop_first() =~= cargs.skip(1));
        assert(bound_args(cargs, params, refs) =~= cargs.take(0).map_values(
            |c: CallArgV| immediate_toks(c),
        ) + rest_idxs(params, refs).map_values(|i: int| rest_arg_toks(i, cargs[0]->Rest_raw))
            + cargs.skip(1).map_values(|c: CallArgV| immediate_toks(c)));
    } else {
        assert(cargs.drop_first()[p - 1] == cargs[p]);
        assert(forall|k: int|
            0 <= k < cargs.drop_first().len() && k != p - 1 ==> !((
            #[trigger] cargs.drop_first()[k]) is Rest));
        lemma_single_rest_args(cargs.drop_first(), params, refs, p - 1);
        assert(cargs[0] is Immediate);
        assert(expand_carg(cargs[0], params, refs) == seq![immediate_toks(cargs[0])]);
        assert(cargs.drop_first().take(p - 1) =~= cargs.take(p).drop_first());
        assert(cargs.drop_first().skip(p) =~= cargs.skip(p + 1));
        assert(cargs.take(p).map_values(|c: CallArgV| immediate_toks(c)) =~= seq![
            immediate_toks(cargs[0]),
        ] + cargs.drop_first().take(p - 1).map_values(|c: CallArgV| immediate_toks(c)));
        assert(bound_args(cargs, params, refs) =~= cargs.take(p).map_values(
            |c: CallArgV| immediate_toks(c),
        ) + rest_idxs(params, refs).map_values(|i: int| rest_arg_toks(i, cargs[p]->Rest_raw))
            + cargs.skip(p + 1).map_values(|c: CallArgV| immediate_toks(c)));
    }
}

proof fn lemma_rest_count_at_least_one(cs: Seq<CallArgV>, a: int)
    requires
        0 <= a < cs.len(),
        cs[a] is Rest,
    ensures
        rest_count(cs) >= 1,
    decreases cs.len(),
{
    if a == cs.len() - 1 {
        lemma_rest_count_nonneg(cs.drop_last());
    } else {
        lemma_rest_count_at_least_one(cs.drop_last(), a);
    }
}

proof fn lemma_rest_count_nonneg(cs: Seq<CallArgV>)
    ensures
        rest_count(cs) >= 0,
    decreases cs.len(),
{
    if cs.len() > 0 {
        lemma_rest_count_nonneg(cs.drop_last());
    }
}

/// With at most one rest placeholder — as every parsed declaration
/// guarantees — a placeholder's position determines that every other
/// argument is an immediate expression.
pub proof fn lemma_single_rest_position(cs: Seq<CallArgV>, p: int)
    requires
        rest_count(cs) <= 1,
        0 <= p < cs.len(),
        cs[p] is Rest,
    ensures
        forall|k: int| 0 <= k < cs.len() && k != p ==> !((#[trigger] cs[k]) is Rest),
    decreases cs.len(),
{
    assert forall|k: int| 0 <= k < cs.len() && k != p implies !((#[trigger] cs[k]) is Rest) by {
        if cs[k] is Rest {
            let lo = if k < p {
                k
            } else {
                p
            };
            let hi = if k < p {
                p
            } else {
                k
            };
            lemma_two_rests_count(cs, lo, hi);
        }
    }
}

proof fn lemma_two_rests_count(cs: Seq<CallArgV>, a: int, b: int)
    requires
        0 <= a < b < cs.len(),
        cs[a] is Rest,
        cs[b] is Rest,
    ensures
        rest_count(cs) >= 2,
    decreases cs.len(),
{
    if b == cs.len() - 1 {
        lemma_rest_count_at_least_one(cs.drop_last(), a);
    } else {
        lemma_two_rests_count(cs.drop_last(), a, b);
    }
}

/// Rest expansion selects exactly the unreferenced non-receiver
/// positions, in strictly increasing declaration order.
pub proof fn lemma_rest_idxs_members(params: Seq<ParamV>, refs: Seq<u64>)
    ensures
        forall|i: int|
            #[trigger] rest_idxs(params, refs).contains(i) <==> (0 <= i < params.len()
                && !is_receiver(params[i]) && !ref_listed(refs, i)),
        forall|a: int, b: int|
            0 <= a < b < rest_idxs(params, refs).len() ==> #[trigger] rest_idxs(params, refs)[a]
                < #[trigger] rest_idxs(params, refs)[b],
    decreases params.len(),
{
    if params.len() > 0 {
        lemma_rest_idxs_members(params.drop_last(), refs);
        let prev = rest_idxs(params.drop_last(), refs);
        let i = params.len() - 1;
        assert(forall|m: int| 0 <= m < params.len() - 1 ==> params.drop_last()[m] == params[m]);
        assert forall|m: int| 0 <= m < prev.len() implies 0 <= #[trigger] prev[m] < params.len()
            - 1 by {
            assert(prev.contains(prev[m]));
        }
        if !is_receiver(params[i]) && !ref_listed(refs, i) {
            let cur = prev.push(i);
            assert forall|j: int| #[trigger] cur.contains(j) implies (0 <= j < params.len()
                && !is_receiver(params[j]) && !ref_listed(refs, j)) by {
                let w = choose|w: int| 0 <= w < cur.len() && cur[w] == j;
                if w < prev.len() {
                    assert(prev.contains(j));
                } else {
                    assert(j == i);
                }
            }
            assert forall|j: int|
                (0 <= j < params.len() && !is_receiver(params[j]) && !ref_listed(
                    refs,
                    j,
                )) implies #[trigger] cur.contains(j) by {
                if j < params.len() - 1 {
                    assert(prev.contains(j));
                    let w = choose|w: int| 0 <= w < prev.len() && prev[w] == j;
                    assert(cur[w] == j);
                } else {
                    assert(cur[cur.len() - 1] == i);
                }
            }
        } else {
            let cur = prev;
            assert forall|j: int| #[trigger] cur.contains(j) implies (0 <= j < params.len()
                && !is_receiver(params[j]) && !ref_listed(refs, j)) by {}
            assert forall|j: int|
                (0 <= j < params.len() && !is_receiver(params[j]) && !ref_listed(
                    refs,
                    j,
                )) implies #[trigger] cur.contains(j) by {
                if j < params.len() - 1 {
                    assert(prev.contains(j));
                }
            }
        }
    }
}

} // verus!
