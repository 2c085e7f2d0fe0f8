//! The structured forms of the binding language: declared parameters,
//! call arguments, and whole declarations.

use vstd::prelude::*;

use crate::tokens::{Tok, TokV, toks_view};

verus! {

/// One declared parameter of the wrapper function being generated.
pub enum ParamSpec {
    /// A plain typed parameter.
    Typed { ty: Vec<Tok> },
    /// A generic parameter: its type, and the type parameter with its
    /// bound that the generated function must introduce.
    TypeBound { ty: Vec<Tok>, bound: Vec<Tok> },
    /// The `&self` receiver.
    SelfRef,
    /// The `&mut self` receiver.
    SelfRefMut,
    /// The by-value `self` receiver.
    SelfMove,
}

/// The mathematical value of a declared parameter.
pub enum ParamV {
    Typed { ty: Seq<TokV> },
    TypeBound { ty: Seq<TokV>, bound: Seq<TokV> },
    SelfRef,
    SelfRefMut,
    SelfMove,
}

impl View for ParamSpec {
    type V = ParamV;

    open spec fn view(&self) -> ParamV {
        match self {
            ParamSpec::Typed { ty } => ParamV::Typed { ty: toks_view(ty@) },
            ParamSpec::TypeBound { ty, bound } => ParamV::TypeBound {
                ty: toks_view(ty@),
                bound: toks_view(bound@),
            },
            ParamSpec::SelfRef => ParamV::SelfRef,
            ParamSpec::SelfRefMut => ParamV::SelfRefMut,
            ParamSpec::SelfMove => ParamV::SelfMove,
        }
    }
}

/// Whether a parameter is one of the three receiver modes.
pub open spec fn is_receiver(p: ParamV) -> bool {
    p is SelfRef || p is SelfRefMut || p is SelfMove
}

impl ParamSpec {
    /// Whether this parameter is one of the three receiver modes.
    pub fn is_self(&self) -> (r: bool)
        ensures
            r == is_receiver(self@),
    {
        match self {
            ParamSpec::SelfRef | ParamSpec::SelfRefMut | ParamSpec::SelfMove => true,
            _ => false,
        }
    }

    /// Whether this parameter introduces a bound type parameter.
    pub fn is_type_bound(&self) -> (r: bool)
        ensures
            r == (self@ is TypeBound),
    {
        match self {
            ParamSpec::TypeBound { .. } => true,
            _ => false,
        }
    }
}

/// The value of a parameter list.
pub open spec fn params_view(ps: Seq<ParamSpec>) -> Seq<ParamV> {
    ps.map_values(|p: ParamSpec| p@)
}

/// One item of the call-argument list handed to the foreign function.
pub enum CallArg {
    /// An expression passed verbatim, after marker expansion.
    Immediate { toks: Vec<Tok> },
    /// The rest-argument placeholder: every declared parameter not
    /// otherwise referenced, in declared order.  `raw` passes the bare
    /// parameter name; otherwise its raw-handle field is projected.
    Rest { raw: bool },
}

/// The mathematical value of a call argument.
pub enum CallArgV {
    Immediate { toks: Seq<TokV> },
    Rest { raw: bool },
}

impl View for CallArg {
    type V = CallArgV;

    open spec fn view(&self) -> CallArgV {
        match self {
            CallArg::Immediate { toks } => CallArgV::Immediate { toks: toks_view(toks@) },
            CallArg::Rest { raw } => CallArgV::Rest { raw: *raw },
        }
    }
}

/// The value of a call-argument list.
pub open spec fn cargs_view(cs: Seq<CallArg>) -> Seq<CallArgV> {
    cs.map_values(|c: CallArg| c@)
}

/// One parsed binding declaration.
pub struct Declaration {
    /// Attribute tokens, copied verbatim onto the generated function.
    pub attrs: Vec<Tok>,
    /// Whether the generated function is `pub`.
    pub public: bool,
    /// The generated function's name.
    pub name: Vec<u8>,
    /// Whether the implicit by-reference receiver is suppressed, either
    /// by an explicit receiver parameter or by the suppression marker.
    pub self_disabled: bool,
    /// The declared parameters, with the suppression marker dropped.
    pub params: Vec<ParamSpec>,
    /// The foreign function to call.
    pub cfunc: Vec<u8>,
    /// The call arguments, after marker expansion.
    pub cargs: Vec<CallArg>,
    /// The parameter positions referenced by expanded markers.
    pub refs: Vec<u64>,
    /// Whether the raw foreign result is rewrapped into the tagged
    /// handle type.
    pub wrap_return: bool,
    /// The declared return type; `None` means the unit type.
    pub ret_ty: Option<Vec<Tok>>,
}

/// The mathematical value of a declaration.
pub struct DeclV {
    pub attrs: Seq<TokV>,
    pub public: bool,
    pub name: Seq<u8>,
    pub self_disabled: bool,
    pub params: Seq<ParamV>,
    pub cfunc: Seq<u8>,
    pub cargs: Seq<CallArgV>,
    pub refs: Seq<u64>,
    pub wrap_return: bool,
    pub ret_ty: Option<Seq<TokV>>,
}

impl View for Declaration {
    type V = DeclV;

    open spec fn view(&self) -> DeclV {
        DeclV {
            attrs: toks_view(self.attrs@),
            public: self.public,
            name: self.name@,
            self_disabled: self.self_disabled,
            params: params_view(self.params@),
            cfunc: self.cfunc@,
            cargs: cargs_view(self.cargs@),
            refs: self.refs@,
            wrap_return: self.wrap_return,
            ret_ty: match &self.ret_ty {
                Some(t) => Some(toks_view(t@)),
                None => None,
            },
        }
    }
}

/// How many rest placeholders a call-argument list holds.
pub open spec fn rest_count(cs: Seq<CallArgV>) -> int
    decreases cs.len(),
{
    if cs.len() == 0 {
        0
    } else {
        (if cs.last() is Rest {
            1int
        } else {
            0int
        }) + rest_count(cs.drop_last())
    }
}

impl DeclV {
    /// The invariants every parsed declaration satisfies: receivers only
    /// in first position and consistent with the suppression flag, at
    /// most one rest placeholder, and a named type parameter in every
    /// bound.
    pub open spec fn wf(self) -> bool {
        &&& forall|k: int| 1 <= k < self.params.len() ==> !is_receiver(#[trigger] self.params[k])
        &&& (self.params.len() > 0 && is_receiver(self.params[0]) ==> self.self_disabled)
        &&& rest_count(self.cargs) <= 1
        &&& forall|k: int|
            0 <= k < self.params.len() ==> (#[trigger] self.params[k] matches ParamV::TypeBound {
                bound,
                ..
            } ==> bound.len() >= 1 && bound[0] is Ident)
    }
}

/// The value of a declaration list.
pub open spec fn decls_view(ds: Seq<Declaration>) -> Seq<DeclV> {
    ds.map_values(|d: Declaration| d@)
}

/// One element of an impl block: a binding declaration to generate, or
/// a hand-written item passed through unchanged.
pub enum ImplItem {
    Gen(Declaration),
    Pass(Vec<Tok>),
}

pub enum ImplItemV {
    Gen(DeclV),
    Pass(Seq<TokV>),
}

impl View for ImplItem {
    type V = ImplItemV;

    open spec fn view(&self) -> ImplItemV {
        match self {
            ImplItem::Gen(d) => ImplItemV::Gen(d@),
            ImplItem::Pass(ts) => ImplItemV::Pass(toks_view(ts@)),
        }
    }
}

/// The value of an impl-block item list.
pub open spec fn items_view(items: Seq<ImplItem>) -> Seq<ImplItemV> {
    items.map_values(|it: ImplItem| it@)
}

} // verus!
