//! The code generator: turns one bound declaration into a generated
//! function, and renders generated functions back into tokens.

use vstd::prelude::*;

use crate::binder::{bind, bound_args, refs_in_range};
use crate::errors::Error;
use crate::grammar::{Declaration, DeclV, ParamSpec, ParamV, params_view};
use crate::parse::{clone_bytes, clone_range, pieces_view};
use crate::preproc::param_name;
use crate::tokens::{Kw, Tok, TokV, toks_view};

verus! {

/// One generated wrapper function, ready to render.
pub struct GeneratedFn {
    /// Attribute tokens copied from the declaration.
    pub attrs: Vec<Tok>,
    /// Whether the function is `pub`.
    pub public: bool,
    /// The function's name.
    pub name: Vec<u8>,
    /// The introduced type parameters with their bounds, in order.
    pub generics: Vec<Vec<Tok>>,
    /// The formal parameters, the receiver included.
    pub formals: Vec<Vec<Tok>>,
    /// The return type; the unit type when none was declared.
    pub ret_ty: Vec<Tok>,
    /// Whether the raw result is rewrapped into the tagged handle type.
    pub wrap_return: bool,
    /// The foreign function called.
    pub cfunc: Vec<u8>,
    /// The resolved call-site arguments.
    pub args: Vec<Vec<Tok>>,
    /// Whether the call is emitted as a discarded statement.
    pub unit_return: bool,
}

/// The mathematical value of a generated function.
pub struct GenFnV {
    pub attrs: Seq<TokV>,
    pub public: bool,
    pub name: Seq<u8>,
    pub generics: Seq<Seq<TokV>>,
    pub formals: Seq<Seq<TokV>>,
    pub ret_ty: Seq<TokV>,
    pub wrap_return: bool,
    pub cfunc: Seq<u8>,
    pub args: Seq<Seq<TokV>>,
    pub unit_return: bool,
}

impl View for GeneratedFn {
    type V = GenFnV;

    open spec fn view(&self) -> GenFnV {
        GenFnV {
            attrs: toks_view(self.attrs@),
            public: self.public,
            name: self.name@,
            generics: pieces_view(self.generics@),
            formals: pieces_view(self.formals@),
            ret_ty: toks_view(self.ret_ty@),
            wrap_return: self.wrap_return,
            cfunc: self.cfunc@,
            args: pieces_view(self.args@),
            unit_return: self.unit_return,
        }
    }
}

/// Whether a declared return type is the unit type.
pub open spec fn is_unit_ret(rt: Option<Seq<TokV>>) -> bool {
    match rt {
        None => true,
        Some(t) => t == seq![TokV::Punct(40u8), TokV::Punct(41u8)],
    }
}

/// The rendered return type: the declared one, or the unit type.
pub open spec fn ret_of(rt: Option<Seq<TokV>>) -> Seq<TokV> {
    match rt {
        None => seq![TokV::Punct(40u8), TokV::Punct(41u8)],
        Some(t) => t,
    }
}

/// The type parameters the declaration introduces: the bound of every
/// generic parameter, in declaration order.
pub open spec fn generics_of(params: Seq<ParamV>) -> Seq<Seq<TokV>>
    decreases params.len(),
{
    if params.len() == 0 {
        seq![]
    } else {
        let prev = generics_of(params.drop_last());
        match params.last() {
            ParamV::TypeBound { bound, .. } => prev.push(bound),
            _ => prev,
        }
    }
}

/// The formal parameter at position `i`: receivers keep their syntax,
/// typed parameters take their positional name.
pub open spec fn formal_of(i: int, p: ParamV) -> Seq<TokV> {
    match p {
        ParamV::Typed { ty } => seq![TokV::Ident(param_name(i as nat)), TokV::Punct(58u8)] + ty,
        ParamV::TypeBound { ty, .. } => seq![
            TokV::Ident(param_name(i as nat)),
            TokV::Punct(58u8),
        ] + ty,
        ParamV::SelfRef => seq![TokV::Punct(38u8), TokV::Kw(Kw::SelfLower)],
        ParamV::SelfRefMut => seq![
            TokV::Punct(38u8),
            TokV::Kw(Kw::Mut),
            TokV::Kw(Kw::SelfLower),
        ],
        ParamV::SelfMove => seq![TokV::Kw(Kw::SelfLower)],
    }
}

/// The full formal parameter list.  Unless the receiver is suppressed
/// or declared, an implicit by-reference receiver is prepended.
pub open spec fn formals_of(params: Seq<ParamV>, self_disabled: bool) -> Seq<Seq<TokV>> {
    let base = params.map(|i: int, p: ParamV| formal_of(i, p));
    if self_disabled {
        base
    } else {
        seq![seq![TokV::Punct(38u8), TokV::Kw(Kw::SelfLower)]] + base
    }
}

/// The name of the type parameter a generic parameter introduces, when
/// it has one: the identifier its bound starts with.
pub open spec fn bound_name_opt(p: ParamV) -> Option<Seq<u8>> {
    match p {
        ParamV::TypeBound { bound, .. } => if bound.len() >= 1 && bound[0] is Ident {
            Some(bound[0]->Ident_0)
        } else {
            None
        },
        _ => None,
    }
}

/// Whether two generic parameters introduce the same type-parameter
/// name.
pub open spec fn has_bound_clash(params: Seq<ParamV>) -> bool {
    exists|a: int, b: int|
        0 <= a < b < params.len() && bound_name_opt(#[trigger] params[a]) is Some
            && bound_name_opt(params[a]) == bound_name_opt(#[trigger] params[b])
}

/// What generation produces for one declaration.  It fails exactly on a
/// marker referencing no declared parameter, or on two generic
/// parameters under one name.
pub open spec fn spec_generate(d: DeclV) -> Result<GenFnV, Error> {
    if !refs_in_range(d.refs, d.params.len() as int) {
        Err(Error::ParamRef)
    } else if has_bound_clash(d.params) {
        Err(Error::BoundClash)
    } else {
        Ok(
            GenFnV {
                attrs: d.attrs,
                public: d.public,
                name: d.name,
                generics: generics_of(d.params),
                formals: formals_of(d.params, d.self_disabled),
                ret_ty: ret_of(d.ret_ty),
                wrap_return: d.wrap_return,
                cfunc: d.cfunc,
                args: bound_args(d.cargs, d.params, d.refs),
                unit_return: is_unit_ret(d.ret_ty),
            },
        )
    }
}

/// Compares two byte strings.
pub fn bytes_eq(a: &Vec<u8>, b: &Vec<u8>) -> (r: bool)
    ensures
        r == (a@ == b@),
{
    if a.len() != b.len() {
        proof {
            assert(a@ != b@);
        }
        return false;
    }
    let mut k: usize = 0;
    while k < a.len()
        invariant
            0 <= k <= a@.len() == b@.len(),
            forall|m: int| 0 <= m < k ==> a@[m] == b@[m],
        decreases a@.len() - k,
    {
        if a[k] != b[k] {
            return false;
        }
        k += 1;
    }
    proof {
        assert(a@ =~= b@);
    }
    true
}

fn bound_name_of(p: &ParamSpec) -> (r: Option<Vec<u8>>)
    ensures
        match r {
            Some(v) => bound_name_opt(p@) == Some(v@),
            None => bound_name_opt(p@) is None,
        },
{
    match p {
        ParamSpec::TypeBound { bound, .. } => {
            if bound.len() >= 1 {
                proof {
                    assert(toks_view(bound@)[0] == bound@[0]@);
                    assert(toks_view(bound@).len() == bound@.len());
                }
                match &bound[0] {
                    Tok::Ident(v) => Some(clone_bytes(v)),
                    _ => None,
                }
            } else {
                proof {
                    assert(toks_view(bound@).len() == bound@.len());
                }
                None
            }
        },
        _ => None,
    }
}

/// Finds two generic parameters that introduce the same type-parameter
/// name.
fn has_bound_clash_x(params: &Vec<ParamSpec>) -> (r: bool)
    ensures
        r == has_bound_clash(params_view(params@)),
{
    let ghost pv = params_view(params@);
    proof {
        assert(pv.len() == params@.len());
    }
    let mut a: usize = 0;
    while a < params.len()
        invariant
            0 <= a <= params@.len(),
            pv == params_view(params@),
            forall|x: int, y: int|
                0 <= x < y < pv.len() && x < a ==> !(bound_name_opt(#[trigger] pv[x]) is Some
                    && bound_name_opt(pv[x]) == bound_name_opt(#[trigger] pv[y])),
        decreases params@.len() - a,
    {
        proof {
            assert(pv[a as int] == params@[a as int]@);
        }
        let na = bound_name_of(&params[a]);
        match na {
            Some(na) => {
                let mut b: usize = a + 1;
                while b < params.len()
                    invariant
                        a < b <= params@.len(),
                        a < params@.len(),
                        pv == params_view(params@),
                        bound_name_opt(pv[a as int]) == Some(na@),
                        forall|y: int|
                            a < y < b ==> !(bound_name_opt(pv[a as int]) == bound_name_opt(
                                #[trigger] pv[y],
                            )),
                    decreases params@.len() - b,
                {
                    proof {
                        assert(pv[b as int] == params@[b as int]@);
                    }
                    match bound_name_of(&params[b]) {
                        Some(nb) => {
                            if bytes_eq(&na, &nb) {
                                proof {
                                    assert(has_bound_clash(pv));
                                }
                                return true;
                            }
                        },
                        None => {},
                    }
                    b += 1;
                }
            },
            None => {
                proof {
                    assert(bound_name_opt(pv[a as int]) is None);
                }
            },
        }
        a += 1;
    }
    proof {
        assert(!has_bound_clash(pv));
    }
    false
}

/// Generates one function from a declaration.  Succeeds exactly when
/// every marker is in range and the introduced type parameters are
/// distinct; each field of the result is fixed by the declaration.
pub fn generate(d: &Declaration) -> (r: Result<GeneratedFn, Error>)
    ensures
        match r {
            Ok(g) => spec_generate(d@) == Ok::<GenFnV, Error>(g@),
            Err(e) => spec_generate(d@) == Err::<GenFnV, Error>(e),
        },
{
    let ghost pv = params_view(d.params@);
    let nparams = d.params.len();
    proof {
        assert(d.params@.len() <= u64::MAX);
    }
    let args = match bind(d) {
        Ok(a) => a,
        Err(e) => {
            return Err(e);
        },
    };
    if has_bound_clash_x(&d.params) {
        return Err(Error::BoundClash);
    }
    let generics = collect_generics(&d.params);
    let formals = collect_formals(&d.params, d.self_disabled);
    let (ret_ty, unit_return) = match &d.ret_ty {
        None => {
            let mut t: Vec<Tok> = Vec::new();
            t.push(Tok::Punct(40));
            t.push(Tok::Punct(41));
            proof {
                assert(toks_view(t@) =~= seq![TokV::Punct(40u8), TokV::Punct(41u8)]);
            }
            (t, true)
        },
        Some(rt) => {
            let t = clone_range(rt, 0, rt.len());
            proof {
                assert(toks_view(t@) =~= toks_view(rt@));
            }
            let is_unit = rt.len() == 2 && crate::parse::tok_is_punct(&rt[0], 40)
                && crate::parse::tok_is_punct(&rt[1], 41);
            proof {
                assert(toks_view(rt@).len() == rt@.len());
                if rt@.len() >= 1 {
                    assert(toks_view(rt@)[0] == rt@[0]@);
                }
                if rt@.len() >= 2 {
                    assert(toks_view(rt@)[1] == rt@[1]@);
                }
                if is_unit {
                    assert(toks_view(rt@) =~= seq![TokV::Punct(40u8), TokV::Punct(41u8)]);
                }
            }
            (t, is_unit)
        },
    };
    let attrs = clone_range(&d.attrs, 0, d.attrs.len());
    proof {
        assert(toks_view(attrs@) =~= toks_view(d.attrs@));
    }
    let g = GeneratedFn {
        attrs,
        public: d.public,
        name: clone_bytes(&d.name),
        generics,
        formals,
        ret_ty,
        wrap_return: d.wrap_return,
        cfunc: clone_bytes(&d.cfunc),
        args,
        unit_return,
    };
    proof {
        let gv = g@;
        let sv = spec_generate(d@)->Ok_0;
        assert(gv.attrs == sv.attrs);
        assert(gv.generics == sv.generics);
        assert(gv.formals == sv.formals);
        assert(gv.ret_ty == sv.ret_ty);
        assert(gv.args == sv.args);
        assert(gv.unit_return == sv.unit_return);
    }
    Ok(g)
}

fn collect_generics(params: &Vec<ParamSpec>) -> (r: Vec<Vec<Tok>>)
    ensures
        pieces_view(r@) == generics_of(params_view(params@)),
{
    let ghost pv = params_view(params@);
    let mut out: Vec<Vec<Tok>> = Vec::new();
    let mut k: usize = 0;
    proof {
        assert(pv.take(0) =~= Seq::<ParamV>::empty());
        assert(pieces_view(out@) =~= generics_of(pv.take(0)));
    }
    while k < params.len()
        invariant
            0 <= k <= params@.len(),
            pv == params_view(params@),
            pieces_view(out@) == generics_of(pv.take(k as int)),
        decreases params@.len() - k,
    {
        proof {
            assert(pv[k as int] == params@[k as int]@);
            assert(pv.take(k + 1 as int).drop_last() =~= pv.take(k as int));
            assert(pv.take(k + 1 as int).last() == pv[k as int]);
        }
        match &params[k] {
            ParamSpec::TypeBound { bound, .. } => {
                let ghost prev = pieces_view(out@);
                let b = clone_range(bound, 0, bound.len());
                proof {
                    assert(toks_view(b@) =~= toks_view(bound@));
                }
                out.push(b);
                proof {
                    assert(pieces_view(out@) =~= prev.push(toks_view(bound@)));
                }
            },
            _ => {},
        }
        k += 1;
    }
    proof {
        assert(pv.take(params@.len() as int) =~= pv);
    }
    out
}

fn collect_formals(params: &Vec<ParamSpec>, self_disabled: bool) -> (r: Vec<Vec<Tok>>)
    requires
        params@.len() <= u64::MAX,
    ensures
        pieces_view(r@) == formals_of(params_view(params@), self_disabled),
{
    let ghost pv = params_view(params@);
    let ghost base = pv.map(|i: int, p: ParamV| formal_of(i, p));
    let mut out: Vec<Vec<Tok>> = Vec::new();
    if !self_disabled {
        let mut recv: Vec<Tok> = Vec::new();
        recv.push(Tok::Punct(38));
        recv.push(Tok::Kw(Kw::SelfLower));
        proof {
            assert(toks_view(recv@) =~= seq![TokV::Punct(38u8), TokV::Kw(Kw::SelfLower)]);
        }
        out.push(recv);
    }
    let ghost head = pieces_view(out@);
    let mut k: usize = 0;
    proof {
        assert(base.take(0) =~= Seq::<Seq<TokV>>::empty());
        assert(head + base.take(0) =~= head);
    }
    while k < params.len()
        invariant
            0 <= k <= params@.len() <= u64::MAX,
            pv == params_view(params@),
            base == pv.map(|i: int, p: ParamV| formal_of(i, p)),
            pieces_view(out@) == head + base.take(k as int),
        decreases params@.len() - k,
    {
        proof {
            assert(pv[k as int] == params@[k as int]@);
            assert(base[k as int] == formal_of(k as int, pv[k as int]));
        }
        let ghost prev = pieces_view(out@);
        let mut piece: Vec<Tok> = Vec::new();
        match &params[k] {
            ParamSpec::Typed { ty } => {
                piece.push(crate::preproc::param_name_tok(k as u64));
                piece.push(Tok::Punct(58));
                crate::parse::append_toks(&mut piece, ty);
                proof {
                    assert(toks_view(piece@) =~= formal_of(k as int, pv[k as int]));
                }
            },
            ParamSpec::TypeBound { ty, .. } => {
                piece.push(crate::preproc::param_name_tok(k as u64));
                piece.push(Tok::Punct(58));
                crate::parse::append_toks(&mut piece, ty);
                proof {
                    assert(toks_view(piece@) =~= formal_of(k as int, pv[k as int]));
                }
            },
            ParamSpec::SelfRef => {
                piece.push(Tok::Punct(38));
                piece.push(Tok::Kw(Kw::SelfLower));
                proof {
                    assert(toks_view(piece@) =~= formal_of(k as int, pv[k as int]));
                }
            },
            ParamSpec::SelfRefMut => {
                piece.push(Tok::Punct(38));
                piece.push(Tok::Kw(Kw::Mut));
                piece.push(Tok::Kw(Kw::SelfLower));
                proof {
                    assert(toks_view(piece@) =~= formal_of(k as int, pv[k as int]));
                }
            },
            ParamSpec::SelfMove => {
                piece.push(Tok::Kw(Kw::SelfLower));
                proof {
                    assert(toks_view(piece@) =~= formal_of(k as int, pv[k as int]));
                }
            },
        }
        out.push(piece);
        proof {
            assert(pieces_view(out@) =~= prev.push(base[k as int]));
            assert(base.take(k + 1 as int) =~= base.take(k as int).push(base[k as int]));
            assert(head + base.take(k + 1 as int) =~= (head + base.take(k as int)).push(
                base[k as int],
            ));
        }
        k += 1;
    }
    proof {
        assert(base.take(params@.len() as int) =~= base);
        if self_disabled {
            assert(head =~= Seq::<Seq<TokV>>::empty());
            assert(head + base =~= base);
            assert(pieces_view(out@) == formals_of(pv, self_disabled));
        } else {
            assert(head =~= seq![seq![TokV::Punct(38u8), TokV::Kw(Kw::SelfLower)]]);
            assert(pieces_view(out@) == formals_of(pv, self_disabled));
        }
    }
    out
}

// ---------------------------------------------------------------------------
// Rendering a generated function to tokens
// ---------------------------------------------------------------------------

/// The spelling of the tagged handle type that wrap-return constructs.
pub open spec fn scm_bytes() -> Seq<u8> {
    seq![83u8, 99u8, 109u8]
}

/// The spelling of the raw-to-tagged constructor.
pub open spec fn from_raw_bytes() -> Seq<u8> {
    seq![95u8, 102u8, 114u8, 111u8, 109u8, 95u8, 114u8, 97u8, 119u8]
}

/// Token pieces joined by a separator token.
pub open spec fn joined(pieces: Seq<Seq<TokV>>, sep: TokV) -> Seq<TokV>
    decreases pieces.len(),
{
    if pieces.len() == 0 {
        Seq::empty()
    } else if pieces.len() == 1 {
        pieces[0]
    } else {
        pieces[0] + seq![sep] + joined(pieces.drop_first(), sep)
    }
}

pub proof fn lemma_joined_push(pieces: Seq<Seq<TokV>>, p: Seq<TokV>, sep: TokV)
    ensures
        joined(pieces.push(p), sep) == if pieces.len() == 0 {
            p
        } else {
            joined(pieces, sep) + seq![sep] + p
        },
    decreases pieces.len(),
{
    if pieces.len() == 0 {
        assert(pieces.push(p).len() == 1);
        assert(pieces.push(p)[0] == p);
    } else {
        assert(pieces.push(p).drop_first() =~= pieces.drop_first().push(p));
        lemma_joined_push(pieces.drop_first(), p, sep);
        if pieces.len() == 1 {
            assert(pieces.push(p)[0] == pieces[0]);
        } else {
            assert(pieces.push(p)[0] == pieces[0]);
            assert(joined(pieces.drop_first(), sep) + seq![sep] + p =~= joined(
                pieces.drop_first().push(p),
                sep,
            ));
            assert(pieces[0] + seq![sep] + (joined(pieces.drop_first(), sep) + seq![sep] + p)
                =~= (pieces[0] + seq![sep] + joined(pieces.drop_first(), sep)) + seq![sep] + p);
        }
    }
}

/// The call expression's tokens: the foreign function applied to the
/// bound arguments.
pub open spec fn gen_call_toks(g: GenFnV) -> Seq<TokV> {
    seq![TokV::Ident(g.cfunc), TokV::Punct(40u8)] + joined(g.args, TokV::Punct(44u8)) + seq![
        TokV::Punct(41u8),
    ]
}

/// The body's tokens: the call inside an unsafe block, wrapped into the
/// tagged handle type when the declaration asks for it, and closed as a
/// statement when the return type is unit.
pub open spec fn gen_body_toks(g: GenFnV) -> Seq<TokV> {
    let call = gen_call_toks(g);
    let blk = if g.wrap_return {
        seq![
            TokV::Kw(Kw::Unsafe),
            TokV::Punct(123u8),
            TokV::Ident(scm_bytes()),
            TokV::Op2(58u8, 58u8),
            TokV::Ident(from_raw_bytes()),
            TokV::Punct(40u8),
        ] + call + seq![TokV::Punct(41u8), TokV::Punct(125u8)]
    } else {
        seq![TokV::Kw(Kw::Unsafe), TokV::Punct(123u8)] + call + seq![TokV::Punct(125u8)]
    };
    if g.unit_return {
        blk + seq![TokV::Punct(59u8)]
    } else {
        blk
    }
}

/// The generated function's header tokens: everything up to and
/// including the brace that opens the body.
pub open spec fn gen_header_toks(g: GenFnV) -> Seq<TokV> {
    g.attrs + (if g.public {
        seq![TokV::Kw(Kw::Pub)]
    } else {
        Seq::empty()
    }) + seq![TokV::Kw(Kw::Fn), TokV::Ident(g.name)] + (if g.generics.len() > 0 {
        seq![TokV::Punct(60u8)] + joined(g.generics, TokV::Punct(44u8)) + seq![TokV::Punct(62u8)]
    } else {
        Seq::empty()
    }) + seq![TokV::Punct(40u8)] + joined(g.formals, TokV::Punct(44u8)) + seq![TokV::Punct(41u8)]
        + seq![TokV::Op2(45u8, 62u8)] + g.ret_ty + seq![TokV::Punct(123u8)]
}

/// The whole generated function's tokens.
pub open spec fn gen_fn_toks(g: GenFnV) -> Seq<TokV> {
    gen_header_toks(g) + gen_body_toks(g) + seq![TokV::Punct(125u8)]
}

/// Appends the pieces joined by the one-byte punctuation `sep`.
fn push_joined(out: &mut Vec<Tok>, pieces: &Vec<Vec<Tok>>, sep: u8)
    ensures
        toks_view(final(out)@) == toks_view(old(out)@) + joined(
            pieces_view(pieces@),
            TokV::Punct(sep),
        ),
{
    let ghost pv = pieces_view(pieces@);
    let mut k: usize = 0;
    proof {
        assert(pv.take(0) =~= Seq::<Seq<TokV>>::empty());
        assert(toks_view(out@) + Seq::<TokV>::empty() =~= toks_view(out@));
    }
    while k < pieces.len()
        invariant
            0 <= k <= pieces@.len(),
            pv == pieces_view(pieces@),
            toks_view(out@) == toks_view(old(out)@) + joined(pv.take(k as int), TokV::Punct(sep)),
        decreases pieces@.len() - k,
    {
        proof {
            assert(pv[k as int] == toks_view(pieces@[k as int]@));
        }
        let ghost prev = toks_view(out@);
        if k > 0 {
            out.push(Tok::Punct(sep));
        }
        crate::parse::append_toks(out, &pieces[k]);
        proof {
            assert(pv.take(k + 1 as int) =~= pv.take(k as int).push(pv[k as int]));
            lemma_joined_push(pv.take(k as int), pv[k as int], TokV::Punct(sep));
            if k == 0 {
                assert(toks_view(out@) =~= prev + pv[0]);
                assert(toks_view(out@) =~= toks_view(old(out)@) + joined(
                    pv.take(1),
                    TokV::Punct(sep),
                ));
            } else {
                assert(toks_view(out@) =~= prev + (seq![TokV::Punct(sep)] + pv[k as int]));
                assert(toks_view(out@) =~= toks_view(old(out)@) + joined(
                    pv.take(k + 1 as int),
                    TokV::Punct(sep),
                ));
            }
        }
        k += 1;
    }
    proof {
        assert(pv.take(pieces@.len() as int) =~= pv);
    }
}

fn scm_tok() -> (t: Tok)
    ensures
        t@ == TokV::Ident(scm_bytes()),
{
    let mut v: Vec<u8> = Vec::new();
    v.push(83);
    v.push(99);
    v.push(109);
    proof {
        assert(v@ =~= scm_bytes());
    }
    Tok::Ident(v)
}

fn from_raw_tok() -> (t: Tok)
    ensures
        t@ == TokV::Ident(from_raw_bytes()),
{
    let mut v: Vec<u8> = Vec::new();
    v.push(95);
    v.push(102);
    v.push(114);
    v.push(111);
    v.push(109);
    v.push(95);
    v.push(114);
    v.push(97);
    v.push(119);
    proof {
        assert(v@ =~= from_raw_bytes());
    }
    Tok::Ident(v)
}

fn push_gen_header(out: &mut Vec<Tok>, g: &GeneratedFn)
    ensures
        toks_view(final(out)@) == toks_view(old(out)@) + gen_header_toks(g@),
{
    let ghost gv = g@;
    crate::parse::append_toks(out, &g.attrs);
    if g.public {
        let ghost s = toks_view(out@);
        out.push(Tok::Kw(Kw::Pub));
        proof {
            assert(toks_view(out@) =~= s + seq![TokV::Kw(Kw::Pub)]);
        }
    }
    let ghost s = toks_view(out@);
    out.push(Tok::Kw(Kw::Fn));
    out.push(Tok::Ident(clone_bytes(&g.name)));
    proof {
        assert(toks_view(out@) =~= s + seq![TokV::Kw(Kw::Fn), TokV::Ident(gv.name)]);
    }
    let ghost after_name = toks_view(out@);
    proof {
        assert(after_name =~= toks_view(old(out)@) + gv.attrs + (if gv.public {
            seq![TokV::Kw(Kw::Pub)]
        } else {
            Seq::<TokV>::empty()
        }) + seq![TokV::Kw(Kw::Fn), TokV::Ident(gv.name)]);
    }
    if g.generics.len() > 0 {
        let ghost s0 = toks_view(out@);
        out.push(Tok::Punct(60));
        proof {
            assert(toks_view(out@) =~= s0 + seq![TokV::Punct(60u8)]);
        }
        let ghost s1 = toks_view(out@);
        push_joined(out, &g.generics, 44);
        let ghost s2 = toks_view(out@);
        proof {
            assert(s2 == s1 + joined(gv.generics, TokV::Punct(44u8)));
        }
        out.push(Tok::Punct(62));
        proof {
            assert(toks_view(out@) =~= s2 + seq![TokV::Punct(62u8)]);
            assert(gv.generics.len() == g.generics@.len());
            assert(toks_view(out@) =~= after_name + (seq![TokV::Punct(60u8)] + joined(
                gv.generics,
                TokV::Punct(44u8),
            ) + seq![TokV::Punct(62u8)]));
        }
    } else {
        proof {
            assert(gv.generics.len() == g.generics@.len());
            assert(toks_view(out@) =~= after_name + Seq::<TokV>::empty());
        }
    }
    let ghost after_generics = toks_view(out@);
    let ghost s3 = toks_view(out@);
    out.push(Tok::Punct(40));
    proof {
        assert(toks_view(out@) =~= s3 + seq![TokV::Punct(40u8)]);
    }
    let ghost s4 = toks_view(out@);
    push_joined(out, &g.formals, 44);
    let ghost s5 = toks_view(out@);
    proof {
        assert(s5 == s4 + joined(gv.formals, TokV::Punct(44u8)));
    }
    out.push(Tok::Punct(41));
    out.push(Tok::Op2(45, 62));
    proof {
        assert(toks_view(out@) =~= s5 + seq![TokV::Punct(41u8), TokV::Op2(45u8, 62u8)]);
    }
    let ghost s6 = toks_view(out@);
    crate::parse::append_toks(out, &g.ret_ty);
    let ghost s7 = toks_view(out@);
    proof {
        assert(s7 == s6 + gv.ret_ty);
    }
    out.push(Tok::Punct(123));
    proof {
        assert(toks_view(out@) =~= s7 + seq![TokV::Punct(123u8)]);
        assert(toks_view(out@) =~= after_generics + seq![TokV::Punct(40u8)] + joined(
            gv.formals,
            TokV::Punct(44u8),
        ) + seq![TokV::Punct(41u8)] + seq![TokV::Op2(45u8, 62u8)] + gv.ret_ty + seq![
            TokV::Punct(123u8),
        ]);
        assert(toks_view(out@) =~= toks_view(old(out)@) + gen_header_toks(gv));
    }
}

fn push_gen_body(out: &mut Vec<Tok>, g: &GeneratedFn)
    ensures
        toks_view(final(out)@) == toks_view(old(out)@) + gen_body_toks(g@),
{
    let ghost gv = g@;
    let ghost s8 = toks_view(out@);
    if g.wrap_return {
        out.push(Tok::Kw(Kw::Unsafe));
        out.push(Tok::Punct(123));
        out.push(scm_tok());
        out.push(Tok::Op2(58, 58));
        out.push(from_raw_tok());
        out.push(Tok::Punct(40));
        proof {
            assert(toks_view(out@) =~= s8 + seq![
                TokV::Kw(Kw::Unsafe),
                TokV::Punct(123u8),
                TokV::Ident(scm_bytes()),
                TokV::Op2(58u8, 58u8),
                TokV::Ident(from_raw_bytes()),
                TokV::Punct(40u8),
            ]);
        }
    } else {
        out.push(Tok::Kw(Kw::Unsafe));
        out.push(Tok::Punct(123));
        proof {
            assert(toks_view(out@) =~= s8 + seq![TokV::Kw(Kw::Unsafe), TokV::Punct(123u8)]);
        }
    }
    let ghost before_call = toks_view(out@);
    let ghost s9 = toks_view(out@);
    out.push(Tok::Ident(clone_bytes(&g.cfunc)));
    out.push(Tok::Punct(40));
    proof {
        assert(toks_view(out@) =~= s9 + seq![TokV::Ident(gv.cfunc), TokV::Punct(40u8)]);
    }
    let ghost s10 = toks_view(out@);
    push_joined(out, &g.args, 44);
    let ghost s11 = toks_view(out@);
    proof {
        assert(s11 == s10 + joined(gv.args, TokV::Punct(44u8)));
    }
    out.push(Tok::Punct(41));
    proof {
        assert(toks_view(out@) =~= s11 + seq![TokV::Punct(41u8)]);
        assert(toks_view(out@) =~= before_call + gen_call_toks(gv));
    }
    let ghost s12 = toks_view(out@);
    if g.wrap_return {
        out.push(Tok::Punct(41));
        out.push(Tok::Punct(125));
        proof {
            assert(toks_view(out@) =~= s12 + seq![TokV::Punct(41u8), TokV::Punct(125u8)]);
        }
    } else {
        out.push(Tok::Punct(125));
        proof {
            assert(toks_view(out@) =~= s12 + seq![TokV::Punct(125u8)]);
        }
    }
    let ghost s13 = toks_view(out@);
    if g.unit_return {
        out.push(Tok::Punct(59));
        proof {
            assert(toks_view(out@) =~= s13 + seq![TokV::Punct(59u8)]);
        }
    }
    proof {
        assert(toks_view(out@) =~= s8 + gen_body_toks(gv));
    }
}

/// Appends the tokens of one generated function.
pub fn push_gen_fn(out: &mut Vec<Tok>, g: &GeneratedFn)
    ensures
        toks_view(final(out)@) == toks_view(old(out)@) + gen_fn_toks(g@),
{
    push_gen_header(out, g);
    push_gen_body(out, g);
    let ghost s = toks_view(out@);
    out.push(Tok::Punct(125));
    proof {
        assert(toks_view(out@) =~= s + seq![TokV::Punct(125u8)]);
        assert(toks_view(out@) =~= toks_view(old(out)@) + gen_fn_toks(g@));
    }
}

// ---------------------------------------------------------------------------
// What generation guarantees
// ---------------------------------------------------------------------------

/// A declaration whose return type is the unit type emits its foreign
/// call as a discarded statement, closed by a statement terminator;
/// any other return type emits the call as the returned expression,
/// with the body ending at the block's close.
pub proof fn lemma_unit_return_statement(d: DeclV)
    requires
        spec_generate(d) is Ok,
    ensures
        is_unit_ret(d.ret_ty) ==> gen_body_toks(spec_generate(d)->Ok_0).last() == TokV::Punct(
            59u8,
        ),
        !is_unit_ret(d.ret_ty) ==> gen_body_toks(spec_generate(d)->Ok_0).last() == TokV::Punct(
            125u8,
        ),
{
    let g = spec_generate(d)->Ok_0;
    assert(g.unit_return == is_unit_ret(d.ret_ty));
    if g.unit_return {
    } else {
        if g.wrap_return {
            assert(gen_body_toks(g).last() == TokV::Punct(125u8));
        } else {
            assert(gen_body_toks(g).last() == TokV::Punct(125u8));
        }
    }
}

/// With wrap-return set, the emitted body constructs the tagged handle
/// type around the raw foreign result; without it, the raw result is
/// returned directly from the unsafe block.
pub proof fn lemma_wrap_return_construction(d: DeclV)
    requires
        spec_generate(d) is Ok,
    ensures
        spec_generate(d)->Ok_0.wrap_return == d.wrap_return,
        d.wrap_return ==> gen_body_toks(spec_generate(d)->Ok_0) == seq![
            TokV::Kw(Kw::Unsafe),
            TokV::Punct(123u8),
            TokV::Ident(scm_bytes()),
            TokV::Op2(58u8, 58u8),
            TokV::Ident(from_raw_bytes()),
            TokV::Punct(40u8),
        ] + gen_call_toks(spec_generate(d)->Ok_0) + seq![TokV::Punct(41u8), TokV::Punct(125u8)]
            + (if is_unit_ret(d.ret_ty) {
            seq![TokV::Punct(59u8)]
        } else {
            Seq::<TokV>::empty()
        }),
        !d.wrap_return ==> gen_body_toks(spec_generate(d)->Ok_0) == seq![
            TokV::Kw(Kw::Unsafe),
            TokV::Punct(123u8),
        ] + gen_call_toks(spec_generate(d)->Ok_0) + seq![TokV::Punct(125u8)] + (if is_unit_ret(
            d.ret_ty,
        ) {
            seq![TokV::Punct(59u8)]
        } else {
            Seq::<TokV>::empty()
        }),
{
    let g = spec_generate(d)->Ok_0;
    if g.unit_return {
    } else {
        if g.wrap_return {
            assert(gen_body_toks(g) =~= seq![
                TokV::Kw(Kw::Unsafe),
                TokV::Punct(123u8),
                TokV::Ident(scm_bytes()),
                TokV::Op2(58u8, 58u8),
                TokV::Ident(from_raw_bytes()),
                TokV::Punct(40u8),
            ] + gen_call_toks(g) + seq![TokV::Punct(41u8), TokV::Punct(125u8)]
                + Seq::<TokV>::empty());
        } else {
            assert(gen_body_toks(g) =~= seq![TokV::Kw(Kw::Unsafe), TokV::Punct(123u8)]
                + gen_call_toks(g) + seq![TokV::Punct(125u8)] + Seq::<TokV>::empty());
        }
    }
}

} // verus!
