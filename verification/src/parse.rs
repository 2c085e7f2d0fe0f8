//! The recursive-descent parser of the binding language.  Every parsing
//! function dispatches on bounded lookahead; there is no backtracking.

use vstd::prelude::*;

use crate::errors::Error;
use crate::tokens::{Kw, Tok, TokV, toks_view};
use crate::grammar::{
    cargs_view, decls_view, is_receiver, items_view, rest_count, CallArg, CallArgV, Declaration,
    DeclV, ImplItem, ImplItemV, ParamSpec, ParamV, params_view,
};
use crate::preproc::classify_cargs;

verus! {

// ---------------------------------------------------------------------------
// Token tests
// ---------------------------------------------------------------------------

pub fn tok_is_punct(t: &Tok, b: u8) -> (r: bool)
    ensures
        r == (t@ == TokV::Punct(b)),
{
    match t {
        Tok::Punct(c) => *c == b,
        _ => false,
    }
}

pub fn tok_is_op2(t: &Tok, a: u8, b: u8) -> (r: bool)
    ensures
        r == (t@ == TokV::Op2(a, b)),
{
    match t {
        Tok::Op2(c, d) => *c == a && *d == b,
        _ => false,
    }
}

pub fn tok_is_kw(t: &Tok, k: Kw) -> (r: bool)
    ensures
        r == (t@ == TokV::Kw(k)),
{
    match t {
        Tok::Kw(c) => *c == k,
        _ => false,
    }
}

pub fn tok_is_ident(t: &Tok) -> (r: bool)
    ensures
        r == (t@ is Ident),
{
    match t {
        Tok::Ident(_) => true,
        _ => false,
    }
}

pub fn tok_is_int(t: &Tok) -> (r: bool)
    ensures
        r == (t@ is Int),
{
    match t {
        Tok::Int(_) => true,
        _ => false,
    }
}

/// Copies the bytes of one token.
pub fn clone_bytes(v: &Vec<u8>) -> (r: Vec<u8>)
    ensures
        r@ == v@,
{
    let mut r: Vec<u8> = Vec::new();
    let mut k: usize = 0;
    while k < v.len()
        invariant
            0 <= k <= v@.len(),
            r@ == v@.subrange(0, k as int),
        decreases v@.len() - k,
    {
        r.push(v[k]);
        proof {
            assert(r@ =~= v@.subrange(0, k + 1 as int));
        }
        k += 1;
    }
    proof {
        assert(v@.subrange(0, v@.len() as int) =~= v@);
    }
    r
}

/// Copies one token.
pub fn clone_tok(t: &Tok) -> (r: Tok)
    ensures
        r@ == t@,
{
    match t {
        Tok::Ident(v) => Tok::Ident(clone_bytes(v)),
        Tok::Kw(k) => Tok::Kw(*k),
        Tok::Int(v) => Tok::Int(clone_bytes(v)),
        Tok::Str(v) => Tok::Str(clone_bytes(v)),
        Tok::Punct(b) => Tok::Punct(*b),
        Tok::Op2(a, b) => Tok::Op2(*a, *b),
    }
}

/// Copies the tokens of `ts` from `lo` up to `hi`.
pub fn clone_range(ts: &Vec<Tok>, lo: usize, hi: usize) -> (r: Vec<Tok>)
    requires
        0 <= lo <= hi <= ts@.len(),
    ensures
        toks_view(r@) == toks_view(ts@).subrange(lo as int, hi as int),
        r@.len() == hi - lo,
{
    let mut r: Vec<Tok> = Vec::new();
    let mut k: usize = lo;
    while k < hi
        invariant
            lo <= k <= hi <= ts@.len(),
            r@.len() == k - lo,
            toks_view(r@) == toks_view(ts@).subrange(lo as int, k as int),
        decreases hi - k,
    {
        r.push(clone_tok(&ts[k]));
        proof {
            assert(toks_view(r@) =~= toks_view(ts@).subrange(lo as int, k + 1 as int));
        }
        k += 1;
    }
    r
}

/// Appends copies of the tokens of `v` to `out`.
pub fn append_toks(out: &mut Vec<Tok>, v: &Vec<Tok>)
    ensures
        toks_view(final(out)@) == toks_view(old(out)@) + toks_view(v@),
        final(out)@.len() == old(out)@.len() + v@.len(),
{
    let mut k: usize = 0;
    while k < v.len()
        invariant
            0 <= k <= v@.len(),
            out@.len() == old(out)@.len() + k,
            toks_view(out@) == toks_view(old(out)@) + toks_view(v@).subrange(0, k as int),
        decreases v@.len() - k,
    {
        let ghost prev = out@;
        let c = clone_tok(&v[k]);
        let ghost cv = c@;
        out.push(c);
        proof {
            assert(out@ == prev.push(out@.last()));
            assert(toks_view(out@) =~= toks_view(prev).push(cv));
            assert(toks_view(out@) =~= toks_view(old(out)@) + toks_view(v@).subrange(
                0,
                k + 1 as int,
            ));
        }
        k += 1;
    }
    proof {
        assert(toks_view(v@).subrange(0, v@.len() as int) =~= toks_view(v@));
    }
}

// ---------------------------------------------------------------------------
// Balanced groups
// ---------------------------------------------------------------------------

pub open spec fn is_open_punct(t: TokV) -> bool {
    t == TokV::Punct(40u8) || t == TokV::Punct(91u8) || t == TokV::Punct(123u8)
}

pub open spec fn is_close_punct(t: TokV) -> bool {
    t == TokV::Punct(41u8) || t == TokV::Punct(93u8) || t == TokV::Punct(125u8)
}

fn tok_is_open(t: &Tok) -> (r: bool)
    ensures
        r == is_open_punct(t@),
{
    tok_is_punct(t, 40) || tok_is_punct(t, 91) || tok_is_punct(t, 123)
}

fn tok_is_close(t: &Tok) -> (r: bool)
    ensures
        r == is_close_punct(t@),
{
    tok_is_punct(t, 41) || tok_is_punct(t, 93) || tok_is_punct(t, 125)
}

/// The position of the token that closes the group whose opening
/// delimiter stood just before `i`, given `depth` groups already open
/// inside it.  Delimiter kinds are counted together.
pub open spec fn scan_group(ts: Seq<TokV>, i: int, depth: int) -> Option<int>
    decreases ts.len() - i,
    when 0 <= i <= ts.len()
{
    if i >= ts.len() {
        None
    } else if is_close_punct(ts[i]) {
        if depth == 0 {
            Some(i)
        } else {
            scan_group(ts, i + 1, depth - 1)
        }
    } else if is_open_punct(ts[i]) {
        scan_group(ts, i + 1, depth + 1)
    } else {
        scan_group(ts, i + 1, depth)
    }
}

/// Finds the close of the innermost group, walking from `i`.
pub fn scan_group_x(ts: &Vec<Tok>, i: usize, depth: usize) -> (r: Option<usize>)
    requires
        0 <= i <= ts@.len(),
        depth + ts@.len() <= usize::MAX,
    ensures
        match r {
            Some(c) => scan_group(toks_view(ts@), i as int, depth as int) == Some(c as int) && i
                <= c < ts@.len(),
            None => scan_group(toks_view(ts@), i as int, depth as int) is None,
        },
{
    let ghost tv = toks_view(ts@);
    let mut j: usize = i;
    let mut d: usize = depth;
    while j < ts.len()
        invariant
            i <= j <= ts@.len(),
            tv == toks_view(ts@),
            depth + ts@.len() <= usize::MAX,
            d <= depth + (j - i),
            scan_group(tv, i as int, depth as int) == scan_group(tv, j as int, d as int),
        decreases ts@.len() - j,
    {
        proof {
            assert(tv[j as int] == ts@[j as int]@);
        }
        if tok_is_close(&ts[j]) {
            if d == 0 {
                return Some(j);
            } else {
                d -= 1;
                j += 1;
            }
        } else if tok_is_open(&ts[j]) {
            d += 1;
            j += 1;
        } else {
            j += 1;
        }
    }
    None
}

// ---------------------------------------------------------------------------
// Comma splitting
// ---------------------------------------------------------------------------

/// The position of the first comma at nesting depth zero.  Bracket
/// groups always nest; angle brackets nest only when `angles` is set,
/// as they do in type positions.
pub open spec fn first_comma(ts: Seq<TokV>, i: int, depth: int, angles: bool) -> Option<int>
    decreases ts.len() - i,
    when 0 <= i <= ts.len()
{
    if i >= ts.len() {
        None
    } else if ts[i] == TokV::Punct(44u8) && depth == 0 {
        Some(i)
    } else if is_open_punct(ts[i]) || (angles && ts[i] == TokV::Punct(60u8)) {
        first_comma(ts, i + 1, depth + 1, angles)
    } else if is_close_punct(ts[i]) || (angles && ts[i] == TokV::Punct(62u8)) {
        first_comma(ts, i + 1, if depth > 0 {
            depth - 1
        } else {
            0
        }, angles)
    } else {
        first_comma(ts, i + 1, depth, angles)
    }
}

/// The pieces of `ts` between its commas at depth zero.  A sequence
/// without such a comma is one piece; every comma separates two pieces,
/// so empty pieces can arise.
pub open spec fn comma_splits(ts: Seq<TokV>, angles: bool) -> Seq<Seq<TokV>>
    decreases ts.len(),
{
    match first_comma(ts, 0, 0, angles) {
        None => seq![ts],
        Some(c) => if 0 <= c < ts.len() {
            seq![ts.subrange(0, c)] + comma_splits(ts.subrange(c + 1, ts.len() as int), angles)
        } else {
            seq![ts]
        },
    }
}

/// Splits `ts` on its depth-zero commas: the executable counterpart of
/// `comma_splits`.
pub fn comma_splits_x(ts: Vec<Tok>, angles: bool) -> (r: Vec<Vec<Tok>>)
    ensures
        pieces_view(r@) == comma_splits(toks_view(ts@), angles),
{
    let ghost whole = toks_view(ts@);
    let mut rest = ts;
    let mut out: Vec<Vec<Tok>> = Vec::new();
    proof {
        assert(pieces_view(out@) =~= Seq::<Seq<TokV>>::empty());
        assert(pieces_view(out@) + comma_splits(toks_view(rest@), angles) =~= comma_splits(
            toks_view(rest@),
            angles,
        ));
    }
    loop
        invariant
            comma_splits(whole, angles) == pieces_view(out@) + comma_splits(
                toks_view(rest@),
                angles,
            ),
        decreases toks_view(rest@).len(),
    {
        let ghost rv = toks_view(rest@);
        let found = first_comma_x(&rest, angles);
        match found {
            None => {
                let ghost prev = out@;
                out.push(rest);
                proof {
                    assert(comma_splits(rv, angles) == seq![rv]);
                    assert(pieces_view(out@) =~= pieces_view(prev).push(rv));
                    assert(pieces_view(prev) + seq![rv] =~= pieces_view(prev).push(rv));
                    assert(pieces_view(out@) == comma_splits(whole, angles));
                }
                return out;
            },
            Some(c) => {
                let n = rest.len();
                let piece = clone_range(&rest, 0, c);
                let tail = clone_range(&rest, c + 1, n);
                let ghost prev = out@;
                out.push(piece);
                proof {
                    assert(comma_splits(rv, angles) == seq![rv.subrange(0, c as int)]
                        + comma_splits(rv.subrange(c + 1 as int, rv.len() as int), angles));
                    assert(pieces_view(out@) =~= pieces_view(prev).push(rv.subrange(0, c as int)));
                    assert(pieces_view(prev) + (seq![rv.subrange(0, c as int)] + comma_splits(
                        rv.subrange(c + 1 as int, rv.len() as int),
                        angles,
                    )) =~= pieces_view(out@) + comma_splits(
                        rv.subrange(c + 1 as int, rv.len() as int),
                        angles,
                    ));
                }
                rest = tail;
            },
        }
    }
}

/// The value of a piece list.
pub open spec fn pieces_view(ps: Seq<Vec<Tok>>) -> Seq<Seq<TokV>> {
    ps.map_values(|p: Vec<Tok>| toks_view(p@))
}

fn first_comma_x(ts: &Vec<Tok>, angles: bool) -> (r: Option<usize>)
    ensures
        match r {
            Some(c) => first_comma(toks_view(ts@), 0, 0, angles) == Some(c as int) && 0 <= c
                < ts@.len(),
            None => first_comma(toks_view(ts@), 0, 0, angles) is None,
        },
{
    let ghost tv = toks_view(ts@);
    let mut j: usize = 0;
    let mut d: usize = 0;
    while j < ts.len()
        invariant
            0 <= j <= ts@.len(),
            tv == toks_view(ts@),
            d <= j,
            first_comma(tv, 0, 0, angles) == first_comma(tv, j as int, d as int, angles),
        decreases ts@.len() - j,
    {
        proof {
            assert(tv[j as int] == ts@[j as int]@);
        }
        let t = &ts[j];
        if tok_is_punct(t, 44) && d == 0 {
            return Some(j);
        } else if tok_is_open(t) || (angles && tok_is_punct(t, 60)) {
            d += 1;
            j += 1;
        } else if tok_is_close(t) || (angles && tok_is_punct(t, 62)) {
            if d > 0 {
                d -= 1;
            }
            j += 1;
        } else {
            j += 1;
        }
    }
    None
}

/// Whether every piece holds at least one token.
pub open spec fn all_nonempty(ps: Seq<Seq<TokV>>) -> bool {
    forall|k: int| 0 <= k < ps.len() ==> (#[trigger] ps[k]).len() > 0
}

/// Drops an allowed trailing empty piece, refuses any other empty piece,
/// and turns a lone empty piece into an empty list.
pub open spec fn normalize_pieces(ps: Seq<Seq<TokV>>) -> Result<Seq<Seq<TokV>>, Error>
    recommends
        ps.len() >= 1,
{
    if ps.len() == 1 && ps[0].len() == 0 {
        Ok(seq![])
    } else {
        let qs = if ps.last().len() == 0 {
            ps.drop_last()
        } else {
            ps
        };
        if all_nonempty(qs) {
            Ok(qs)
        } else {
            Err(Error::Parse)
        }
    }
}

/// The executable counterpart of `normalize_pieces`.
pub fn normalize_pieces_x(ps: Vec<Vec<Tok>>) -> (r: Result<Vec<Vec<Tok>>, Error>)
    requires
        ps@.len() >= 1,
    ensures
        match r {
            Ok(qs) => normalize_pieces(pieces_view(ps@)) == Ok::<_, Error>(pieces_view(qs@)),
            Err(e) => normalize_pieces(pieces_view(ps@)) == Err::<Seq<Seq<TokV>>, _>(e),
        },
{
    let ghost pv = pieces_view(ps@);
    proof {
        assert(pv.len() == ps@.len());
        assert forall|m: int| 0 <= m < ps@.len() implies (#[trigger] pv[m]).len()
            == ps@[m]@.len() by {
            assert(pv[m] == toks_view(ps@[m]@));
            assert(toks_view(ps@[m]@).len() == ps@[m]@.len());
        }
    }
    if ps.len() == 1 && ps[0].len() == 0 {
        proof {
            assert(pv.len() == 1);
            assert(pv[0] == toks_view(ps@[0]@));
            assert(pv[0].len() == 0);
        }
        let r: Vec<Vec<Tok>> = Vec::new();
        proof {
            assert(pieces_view(r@) =~= Seq::<Seq<TokV>>::empty());
            assert(normalize_pieces(pv) == Ok::<_, Error>(Seq::<Seq<TokV>>::empty()));
        }
        return Ok(r);
    }
    let mut qs = ps;
    if qs[qs.len() - 1].len() == 0 {
        proof {
            assert(pv.last() == toks_view(qs@.last()@));
            assert(pv.last().len() == 0);
        }
        qs.pop();
        proof {
            assert(pieces_view(qs@) =~= pv.drop_last());
        }
    } else {
        proof {
            assert(pv.last() == toks_view(qs@.last()@));
            assert(pv.last().len() != 0);
        }
    }
    let ghost qv = pieces_view(qs@);
    proof {
        assert(qv.len() == qs@.len());
        assert(normalize_pieces(pv) == if all_nonempty(qv) {
            Ok::<_, Error>(qv)
        } else {
            Err::<Seq<Seq<TokV>>, Error>(Error::Parse)
        });
    }
    let mut k: usize = 0;
    while k < qs.len()
        invariant
            0 <= k <= qs@.len(),
            forall|m: int| 0 <= m < k ==> (#[trigger] qv[m]).len() > 0,
        decreases qs@.len() - k,
    {
        proof {
            assert(qv[k as int] == toks_view(qs@[k as int]@));
        }
        if qs[k].len() == 0 {
            proof {
                assert(qv[k as int].len() == 0);
                assert(!all_nonempty(qv));
            }
            return Err(Error::Parse);
        }
        k += 1;
    }
    proof {
        assert(all_nonempty(qv));
    }
    Ok(qs)
}

// ---------------------------------------------------------------------------
// Types
// ---------------------------------------------------------------------------

/// The position just after the `>` that closes an angle-bracket group,
/// walking from `i` with `depth` groups already open inside it.
pub open spec fn scan_angles(ts: Seq<TokV>, i: int, depth: int) -> Option<int>
    decreases ts.len() - i,
    when 0 <= i <= ts.len()
{
    if i >= ts.len() {
        None
    } else if ts[i] == TokV::Punct(62u8) {
        if depth == 0 {
            Some(i + 1)
        } else {
            scan_angles(ts, i + 1, depth - 1)
        }
    } else if ts[i] == TokV::Punct(60u8) {
        scan_angles(ts, i + 1, depth + 1)
    } else {
        scan_angles(ts, i + 1, depth)
    }
}

fn scan_angles_x(ts: &Vec<Tok>, i: usize, depth: usize) -> (r: Option<usize>)
    requires
        0 <= i <= ts@.len(),
        depth + ts@.len() <= usize::MAX,
    ensures
        match r {
            Some(c) => scan_angles(toks_view(ts@), i as int, depth as int) == Some(c as int) && i
                < c <= ts@.len(),
            None => scan_angles(toks_view(ts@), i as int, depth as int) is None,
        },
{
    let ghost tv = toks_view(ts@);
    let mut j: usize = i;
    let mut d: usize = depth;
    while j < ts.len()
        invariant
            i <= j <= ts@.len(),
            d <= depth + (j - i),
            scan_angles(tv, i as int, depth as int) == scan_angles(tv, j as int, d as int),
        decreases ts@.len() - j,
    {
        proof {
            assert(tv[j as int] == ts@[j as int]@);
        }
        if tok_is_punct(&ts[j], 62) {
            if d == 0 {
                return Some(j + 1);
            } else {
                d -= 1;
                j += 1;
            }
        } else if tok_is_punct(&ts[j], 60) {
            d += 1;
            j += 1;
        } else {
            j += 1;
        }
    }
    None
}

/// The position just after one type path starting at the identifier at
/// `i`: segments joined by `::`, the last one optionally carrying an
/// angle-bracket argument group.
pub open spec fn parse_path(ts: Seq<TokV>, i: int) -> Result<int, Error>
    decreases ts.len() - i,
    when 0 <= i <= ts.len()
{
    if i >= ts.len() || !(ts[i] is Ident) {
        Err(Error::Parse)
    } else {
        let after = if i + 1 < ts.len() && ts[i + 1] == TokV::Punct(60u8) {
            match scan_angles(ts, i + 2, 0) {
                Some(j) => j,
                None => -1,
            }
        } else {
            i + 1
        };
        if after < i + 1 || after > ts.len() {
            Err(Error::Parse)
        } else if after + 1 < ts.len() && ts[after] == TokV::Op2(58u8, 58u8) && ts[after + 1]
            is Ident {
            parse_path(ts, after + 1)
        } else {
            Ok(after)
        }
    }
}

/// The position just after one type starting at `i`: any number of
/// reference markers, then a parenthesized tuple or a path.
pub open spec fn parse_type(ts: Seq<TokV>, i: int) -> Result<int, Error>
    decreases ts.len() - i,
    when 0 <= i <= ts.len()
{
    if i >= ts.len() {
        Err(Error::Parse)
    } else if ts[i] == TokV::Punct(38u8) {
        if i + 1 < ts.len() && ts[i + 1] == TokV::Kw(Kw::Mut) {
            parse_type(ts, i + 2)
        } else {
            parse_type(ts, i + 1)
        }
    } else if ts[i] == TokV::Punct(40u8) {
        match scan_group(ts, i + 1, 0) {
            Some(c) => if ts[c] == TokV::Punct(41u8) {
                Ok(c + 1)
            } else {
                Err(Error::Parse)
            },
            None => Err(Error::Parse),
        }
    } else if ts[i] is Ident {
        parse_path(ts, i)
    } else {
        Err(Error::Parse)
    }
}

fn parse_path_x(ts: &Vec<Tok>, i: usize) -> (r: Result<usize, Error>)
    requires
        0 <= i <= ts@.len(),
    ensures
        match r {
            Ok(e) => parse_path(toks_view(ts@), i as int) == Ok::<int, Error>(e as int) && i < e
                <= ts@.len(),
            Err(e) => parse_path(toks_view(ts@), i as int) == Err::<int, Error>(e),
        },
    decreases ts@.len() - i,
{
    let ghost tv = toks_view(ts@);
    let n = ts.len();
    if i >= n || !tok_is_ident(&ts[i]) {
        proof {
            if i < n {
                assert(tv[i as int] == ts@[i as int]@);
            }
        }
        return Err(Error::Parse);
    }
    proof {
        assert(tv[i as int] == ts@[i as int]@);
    }
    let after: usize = if i + 1 < n && tok_is_punct(&ts[i + 1], 60) {
        proof {
            assert(tv[i + 1 as int] == ts@[i + 1 as int]@);
        }
        match scan_angles_x(ts, i + 2, 0) {
            Some(j) => j,
            None => {
                return Err(Error::Parse);
            },
        }
    } else {
        proof {
            if i + 1 < n {
                assert(tv[i + 1 as int] == ts@[i + 1 as int]@);
            }
        }
        i + 1
    };
    if n - after > 1 && tok_is_op2(&ts[after], 58, 58) && tok_is_ident(&ts[after + 1]) {
        proof {
            assert(tv[after as int] == ts@[after as int]@);
            assert(tv[after + 1 as int] == ts@[after + 1 as int]@);
        }
        parse_path_x(ts, after + 1)
    } else {
        proof {
            if after < n {
                assert(tv[after as int] == ts@[after as int]@);
            }
            if after + 1 < n {
                assert(tv[after + 1 as int] == ts@[after + 1 as int]@);
            }
        }
        Ok(after)
    }
}

fn parse_type_x(ts: &Vec<Tok>, i: usize) -> (r: Result<usize, Error>)
    requires
        0 <= i <= ts@.len(),
    ensures
        match r {
            Ok(e) => parse_type(toks_view(ts@), i as int) == Ok::<int, Error>(e as int) && i < e
                <= ts@.len(),
            Err(e) => parse_type(toks_view(ts@), i as int) == Err::<int, Error>(e),
        },
    decreases ts@.len() - i,
{
    let ghost tv = toks_view(ts@);
    let n = ts.len();
    if i >= n {
        return Err(Error::Parse);
    }
    proof {
        assert(tv[i as int] == ts@[i as int]@);
    }
    if tok_is_punct(&ts[i], 38) {
        if i + 1 < n && tok_is_kw(&ts[i + 1], Kw::Mut) {
            proof {
                assert(tv[i + 1 as int] == ts@[i + 1 as int]@);
            }
            parse_type_x(ts, i + 2)
        } else {
            proof {
                if i + 1 < n {
                    assert(tv[i + 1 as int] == ts@[i + 1 as int]@);
                }
            }
            parse_type_x(ts, i + 1)
        }
    } else if tok_is_punct(&ts[i], 40) {
        match scan_group_x(ts, i + 1, 0) {
            Some(c) => {
                proof {
                    assert(tv[c as int] == ts@[c as int]@);
                }
                if tok_is_punct(&ts[c], 41) {
                    Ok(c + 1)
                } else {
                    Err(Error::Parse)
                }
            },
            None => Err(Error::Parse),
        }
    } else if tok_is_ident(&ts[i]) {
        parse_path_x(ts, i)
    } else {
        Err(Error::Parse)
    }
}

// ---------------------------------------------------------------------------
// Parameters
// ---------------------------------------------------------------------------

/// One parsed parameter item: the suppression marker, or a kept
/// parameter.
pub enum ParsedParam {
    Disable,
    Keep(ParamSpec),
}

pub enum ParsedParamV {
    Disable,
    Keep(ParamV),
}

impl View for ParsedParam {
    type V = ParsedParamV;

    open spec fn view(&self) -> ParsedParamV {
        match self {
            ParsedParam::Disable => ParsedParamV::Disable,
            ParsedParam::Keep(p) => ParsedParamV::Keep(p@),
        }
    }
}

pub open spec fn parsed_params_view(ps: Seq<ParsedParam>) -> Seq<ParsedParamV> {
    ps.map_values(|p: ParsedParam| p@)
}

/// One parameter item, by leading-token dispatch: the suppression
/// marker, one of the receiver forms, or a type with an optional
/// `|`-introduced type-parameter bound.
pub open spec fn parse_param(p: Seq<TokV>) -> Result<ParsedParamV, Error> {
    if p.len() == 2 && p[0] == TokV::Punct(64u8) && p[1] == TokV::Ident(seq![95u8]) {
        Ok(ParsedParamV::Disable)
    } else if p.len() == 3 && p[0] == TokV::Punct(38u8) && p[1] == TokV::Kw(Kw::Mut) && p[2]
        == TokV::Kw(Kw::SelfLower) {
        Ok(ParsedParamV::Keep(ParamV::SelfRefMut))
    } else if p.len() == 2 && p[0] == TokV::Punct(38u8) && p[1] == TokV::Kw(Kw::SelfLower) {
        Ok(ParsedParamV::Keep(ParamV::SelfRef))
    } else if p.len() == 1 && p[0] == TokV::Kw(Kw::SelfLower) {
        Ok(ParsedParamV::Keep(ParamV::SelfMove))
    } else {
        match parse_type(p, 0) {
            Err(e) => Err(e),
            Ok(e) => if e == p.len() {
                Ok(ParsedParamV::Keep(ParamV::Typed { ty: p }))
            } else if 0 <= e < p.len() && p[e] == TokV::Punct(124u8) {
                let bound = p.subrange(e + 1, p.len() as int);
                if bound.len() >= 1 && bound[0] is Ident && (bound.len() == 1 || bound[1]
                    == TokV::Punct(58u8)) {
                    Ok(ParsedParamV::Keep(ParamV::TypeBound { ty: p.subrange(0, e), bound }))
                } else {
                    Err(Error::Parse)
                }
            } else {
                Err(Error::Parse)
            },
        }
    }
}

fn tok_ident_is1(t: &Tok, b: u8) -> (r: bool)
    ensures
        r == (t@ == TokV::Ident(seq![b])),
{
    match t {
        Tok::Ident(v) => {
            if v.len() == 1 && v[0] == b {
                proof {
                    assert(v@ =~= seq![b]);
                }
                true
            } else {
                proof {
                    assert(v@ != seq![b]);
                }
                false
            }
        },
        _ => false,
    }
}

/// The executable counterpart of `parse_param`.
pub fn parse_param_x(p: &Vec<Tok>) -> (r: Result<ParsedParam, Error>)
    ensures
        match r {
            Ok(q) => parse_param(toks_view(p@)) == Ok::<ParsedParamV, Error>(q@),
            Err(e) => parse_param(toks_view(p@)) == Err::<ParsedParamV, Error>(e),
        },
{
    let ghost pv = toks_view(p@);
    proof {
        assert(pv.len() == p@.len());
        if p@.len() >= 1 {
            assert(pv[0] == p@[0]@);
        }
        if p@.len() >= 2 {
            assert(pv[1] == p@[1]@);
        }
        if p@.len() >= 3 {
            assert(pv[2] == p@[2]@);
        }
    }
    if p.len() == 2 && tok_is_punct(&p[0], 64) && tok_ident_is1(&p[1], 95) {
        return Ok(ParsedParam::Disable);
    }
    if p.len() == 3 && tok_is_punct(&p[0], 38) && tok_is_kw(&p[1], Kw::Mut) && tok_is_kw(
        &p[2],
        Kw::SelfLower,
    ) {
        return Ok(ParsedParam::Keep(ParamSpec::SelfRefMut));
    }
    if p.len() == 2 && tok_is_punct(&p[0], 38) && tok_is_kw(&p[1], Kw::SelfLower) {
        return Ok(ParsedParam::Keep(ParamSpec::SelfRef));
    }
    if p.len() == 1 && tok_is_kw(&p[0], Kw::SelfLower) {
        return Ok(ParsedParam::Keep(ParamSpec::SelfMove));
    }
    match parse_type_x(p, 0) {
        Err(e) => Err(e),
        Ok(e) => {
            if e == p.len() {
                let ty = clone_range(p, 0, p.len());
                proof {
                    assert(toks_view(ty@) =~= pv);
                }
                Ok(ParsedParam::Keep(ParamSpec::Typed { ty }))
            } else {
                proof {
                    assert(pv[e as int] == p@[e as int]@);
                }
                if tok_is_punct(&p[e], 124) {
                    let bound = clone_range(p, e + 1, p.len());
                    let ghost bv = pv.subrange(e + 1 as int, pv.len() as int);
                    proof {
                        assert(toks_view(bound@) == bv);
                        assert(toks_view(bound@).len() == bound@.len());
                        if bound@.len() >= 1 {
                            assert(toks_view(bound@)[0] == bound@[0]@);
                        }
                        if bound@.len() >= 2 {
                            assert(toks_view(bound@)[1] == bound@[1]@);
                        }
                    }
                    if bound.len() >= 1 && tok_is_ident(&bound[0]) && (bound.len() == 1
                        || tok_is_punct(&bound[1], 58)) {
                        let ty = clone_range(p, 0, e);
                        Ok(ParsedParam::Keep(ParamSpec::TypeBound { ty, bound }))
                    } else {
                        Err(Error::Parse)
                    }
                } else {
                    Err(Error::Parse)
                }
            }
        },
    }
}

/// All parameter items of a declaration.
pub open spec fn parse_params(ps: Seq<Seq<TokV>>) -> Result<Seq<ParsedParamV>, Error>
    decreases ps.len(),
{
    if ps.len() == 0 {
        Ok(seq![])
    } else {
        match parse_param(ps[0]) {
            Err(e) => Err(e),
            Ok(r) => match parse_params(ps.drop_first()) {
                Ok(rs) => Ok(seq![r] + rs),
                Err(e) => Err(e),
            },
        }
    }
}

/// The executable counterpart of `parse_params`.
pub fn parse_params_x(ps: &Vec<Vec<Tok>>) -> (r: Result<Vec<ParsedParam>, Error>)
    ensures
        match r {
            Ok(q) => parse_params(pieces_view(ps@)) == Ok::<Seq<ParsedParamV>, Error>(
                parsed_params_view(q@),
            ),
            Err(e) => parse_params(pieces_view(ps@)) == Err::<Seq<ParsedParamV>, Error>(e),
        },
{
    let ghost pv = pieces_view(ps@);
    let mut out: Vec<ParsedParam> = Vec::new();
    let mut k: usize = 0;
    proof {
        assert(parsed_params_view(out@) =~= Seq::<ParsedParamV>::empty());
        assert(pv.skip(0) =~= pv);
        if parse_params(pv) is Ok {
            let q = parse_params(pv)->Ok_0;
            assert(Seq::<ParsedParamV>::empty() + q =~= q);
        }
    }
    while k < ps.len()
        invariant
            0 <= k <= ps@.len(),
            pv == pieces_view(ps@),
            parse_params(pv) == (match parse_params(pv.skip(k as int)) {
                Ok(q) => Ok::<Seq<ParsedParamV>, Error>(parsed_params_view(out@) + q),
                Err(e) => Err(e),
            }),
        decreases ps@.len() - k,
    {
        let ghost kk = k as int;
        let ghost out0 = parsed_params_view(out@);
        proof {
            assert(pv[kk] == toks_view(ps@[kk]@));
            assert(pv.skip(kk).len() > 0);
            assert(pv.skip(kk)[0] == pv[kk]);
            assert(pv.skip(kk).drop_first() =~= pv.skip(kk + 1));
        }
        match parse_param_x(&ps[k]) {
            Ok(c) => {
                let ghost cv = c@;
                out.push(c);
                proof {
                    assert(parsed_params_view(out@) =~= out0.push(cv));
                    assert(out0 + seq![cv] =~= out0.push(cv));
                    if parse_params(pv.skip(kk + 1)) is Ok {
                        let q = parse_params(pv.skip(kk + 1))->Ok_0;
                        assert(out0 + (seq![cv] + q) =~= (out0 + seq![cv]) + q);
                    }
                }
            },
            Err(e) => {
                return Err(e);
            },
        }
        k += 1;
    }
    proof {
        assert(pv.skip(ps@.len() as int) =~= Seq::<Seq<TokV>>::empty());
        assert(parsed_params_view(out@) + Seq::<ParsedParamV>::empty() =~= parsed_params_view(
            out@,
        ));
    }
    Ok(out)
}

/// Whether every item after the first is a kept, non-receiver
/// parameter: receivers and the suppression marker stand first or not
/// at all.
pub open spec fn all_plain_after_head(rs: Seq<ParsedParamV>) -> bool {
    forall|k: int|
        1 <= k < rs.len() ==> ((#[trigger] rs[k]) matches ParsedParamV::Keep(p)
            && !is_receiver(p))
}

/// The kept parameters of a run of `Keep` items.
pub open spec fn keeps(rs: Seq<ParsedParamV>) -> Seq<ParamV> {
    rs.map_values(|r: ParsedParamV| r->Keep_0)
}

/// Turns the parsed items into the declaration's parameter list and its
/// suppression flag, refusing a receiver or marker anywhere but first.
pub open spec fn assemble_params(rs: Seq<ParsedParamV>) -> Result<(Seq<ParamV>, bool), Error> {
    if !all_plain_after_head(rs) {
        Err(Error::Parse)
    } else if rs.len() == 0 {
        Ok((seq![], false))
    } else {
        match rs[0] {
            ParsedParamV::Disable => Ok((keeps(rs.drop_first()), true)),
            ParsedParamV::Keep(p) => Ok((keeps(rs), is_receiver(p))),
        }
    }
}

fn clone_param(p: &ParamSpec) -> (r: ParamSpec)
    ensures
        r@ == p@,
{
    match p {
        ParamSpec::Typed { ty } => {
            let c = clone_range(ty, 0, ty.len());
            proof {
                assert(toks_view(c@) =~= toks_view(ty@));
            }
            ParamSpec::Typed { ty: c }
        },
        ParamSpec::TypeBound { ty, bound } => {
            let c = clone_range(ty, 0, ty.len());
            let b = clone_range(bound, 0, bound.len());
            proof {
                assert(toks_view(c@) =~= toks_view(ty@));
                assert(toks_view(b@) =~= toks_view(bound@));
            }
            ParamSpec::TypeBound { ty: c, bound: b }
        },
        ParamSpec::SelfRef => ParamSpec::SelfRef,
        ParamSpec::SelfRefMut => ParamSpec::SelfRefMut,
        ParamSpec::SelfMove => ParamSpec::SelfMove,
    }
}

/// The executable counterpart of `assemble_params`.
pub fn assemble_params_x(rs: &Vec<ParsedParam>) -> (r: Result<(Vec<ParamSpec>, bool), Error>)
    ensures
        match r {
            Ok(q) => assemble_params(parsed_params_view(rs@)) == Ok::<(Seq<ParamV>, bool), Error>(
                (params_view(q.0@), q.1),
            ),
            Err(e) => assemble_params(parsed_params_view(rs@)) == Err::<(Seq<ParamV>, bool), Error>(
                e,
            ),
        },
{
    let ghost rv = parsed_params_view(rs@);
    proof {
        assert(rv.len() == rs@.len());
    }
    let mut k: usize = 1;
    while k < rs.len()
        invariant
            1 <= k <= rs@.len() || rs@.len() == 0,
            rv == parsed_params_view(rs@),
            forall|m: int|
                1 <= m < k ==> ((#[trigger] rv[m]) matches ParsedParamV::Keep(p) && !is_receiver(
                    p,
                )),
        decreases rs@.len() - k,
    {
        proof {
            assert(rv[k as int] == rs@[k as int]@);
        }
        let plain = match &rs[k] {
            ParsedParam::Keep(p) => !p.is_self(),
            ParsedParam::Disable => false,
        };
        if !plain {
            proof {
                assert(!all_plain_after_head(rv));
            }
            return Err(Error::Parse);
        }
        k += 1;
    }
    proof {
        assert(all_plain_after_head(rv));
    }
    if rs.len() == 0 {
        let empty: Vec<ParamSpec> = Vec::new();
        proof {
            assert(params_view(empty@) =~= Seq::<ParamV>::empty());
        }
        return Ok((empty, false));
    }
    proof {
        assert(rv[0] == rs@[0]@);
    }
    let start: usize = match &rs[0] {
        ParsedParam::Disable => 1,
        ParsedParam::Keep(_) => 0,
    };
    let self_disabled = match &rs[0] {
        ParsedParam::Disable => true,
        ParsedParam::Keep(p) => p.is_self(),
    };
    let ghost target = if start == 1 {
        keeps(rv.drop_first())
    } else {
        keeps(rv)
    };
    let mut out: Vec<ParamSpec> = Vec::new();
    let mut k: usize = start;
    proof {
        assert(keeps(rv.drop_first()).len() == rv.len() - 1);
        assert(keeps(rv).len() == rv.len());
        assert(params_view(out@) =~= Seq::<ParamV>::empty());
        assert(target.len() == rv.len() - start);
    }
    while k < rs.len()
        invariant
            start <= k <= rs@.len(),
            start <= 1,
            rv == parsed_params_view(rs@),
            target.len() == rv.len() - start,
            target == if start == 1 {
                keeps(rv.drop_first())
            } else {
                keeps(rv)
            },
            params_view(out@) =~= target.take(k - start),
            out@.len() == k - start,
        decreases rs@.len() - k,
    {
        proof {
            assert(rv[k as int] == rs@[k as int]@);
            if start == 1 {
                assert(target[k - 1 as int] == rv.drop_first()[k - 1 as int]->Keep_0);
                assert(rv.drop_first()[k - 1 as int] == rv[k as int]);
            } else {
                assert(target[k as int] == rv[k as int]->Keep_0);
            }
        }
        match &rs[k] {
            ParsedParam::Keep(p) => {
                let c = clone_param(p);
                let ghost prev = params_view(out@);
                out.push(c);
                proof {
                    assert(params_view(out@) =~= prev.push(rv[k as int]->Keep_0));
                    assert(params_view(out@) =~= target.take(k + 1 - start as int));
                }
            },
            ParsedParam::Disable => {
                proof {
                    if k >= 1 {
                        assert((rv[k as int] matches ParsedParamV::Keep(p) && !is_receiver(p)));
                    }
                    assert(false);
                }
            },
        }
        k += 1;
    }
    proof {
        assert(target.take(rs@.len() - start) =~= target);
        assert(params_view(out@) == target);
    }
    Ok((out, self_disabled))
}

// ---------------------------------------------------------------------------
// Attributes
// ---------------------------------------------------------------------------

/// Zero or more `#[...]` attribute groups from position `i` on: their
/// tokens, flattened in order, and the position after them.
pub open spec fn parse_attrs(ts: Seq<TokV>, i: int) -> Result<(Seq<TokV>, int), Error>
    decreases ts.len() - i,
    when 0 <= i <= ts.len()
{
    if i + 1 < ts.len() && ts[i] == TokV::Punct(35u8) && ts[i + 1] == TokV::Punct(91u8) {
        match scan_group(ts, i + 2, 0) {
            Some(c) => if i + 2 <= c && c < ts.len() && ts[c] == TokV::Punct(93u8) {
                match parse_attrs(ts, c + 1) {
                    Ok(q) => Ok((ts.subrange(i, c + 1) + q.0, q.1)),
                    Err(e) => Err(e),
                }
            } else {
                Err(Error::Parse)
            },
            None => Err(Error::Parse),
        }
    } else {
        Ok((seq![], i))
    }
}

/// The executable counterpart of `parse_attrs`.
pub fn parse_attrs_x(ts: &Vec<Tok>, i: usize) -> (r: Result<(Vec<Tok>, usize), Error>)
    requires
        i <= ts@.len(),
    ensures
        match r {
            Ok(q) => parse_attrs(toks_view(ts@), i as int) == Ok::<(Seq<TokV>, int), Error>(
                (toks_view(q.0@), q.1 as int),
            ) && i <= q.1 <= ts@.len(),
            Err(e) => parse_attrs(toks_view(ts@), i as int) == Err::<(Seq<TokV>, int), Error>(e),
        },
    decreases ts@.len() - i,
{
    let ghost tv = toks_view(ts@);
    let n = ts.len();
    proof {
        if i < n {
            assert(tv[i as int] == ts@[i as int]@);
        }
        if i + 1 < n {
            assert(tv[i + 1 as int] == ts@[i + 1 as int]@);
        }
    }
    if n - i > 1 && tok_is_punct(&ts[i], 35) && tok_is_punct(&ts[i + 1], 91) {
        match scan_group_x(ts, i + 2, 0) {
            Some(c) => {
                proof {
                    assert(tv[c as int] == ts@[c as int]@);
                }
                if tok_is_punct(&ts[c], 93) {
                    match parse_attrs_x(ts, c + 1) {
                        Ok((rest, j)) => {
                            let mut head = clone_range(ts, i, c + 1);
                            let ghost headv = toks_view(head@);
                            append_toks(&mut head, &rest);
                            proof {
                                assert(toks_view(head@) == tv.subrange(i as int, c + 1 as int)
                                    + toks_view(rest@));
                            }
                            Ok((head, j))
                        },
                        Err(e) => Err(e),
                    }
                } else {
                    Err(Error::Parse)
                }
            },
            None => Err(Error::Parse),
        }
    } else {
        let empty: Vec<Tok> = Vec::new();
        proof {
            assert(toks_view(empty@) =~= Seq::<TokV>::empty());
        }
        Ok((empty, i))
    }
}

// ---------------------------------------------------------------------------
// Declarations
// ---------------------------------------------------------------------------

/// The parameter list between the declaration's parentheses: split on
/// commas (angle brackets nest), parsed, and assembled.
pub open spec fn parse_params_list(raw: Seq<TokV>) -> Result<(Seq<ParamV>, bool), Error> {
    match normalize_pieces(comma_splits(raw, true)) {
        Err(e) => Err(e),
        Ok(ps) => match parse_params(ps) {
            Err(e) => Err(e),
            Ok(rs) => assemble_params(rs),
        },
    }
}

/// The executable counterpart of `parse_params_list`.
pub fn parse_params_list_x(raw: Vec<Tok>) -> (r: Result<(Vec<ParamSpec>, bool), Error>)
    ensures
        match r {
            Ok(q) => parse_params_list(toks_view(raw@)) == Ok::<(Seq<ParamV>, bool), Error>(
                (params_view(q.0@), q.1),
            ),
            Err(e) => parse_params_list(toks_view(raw@)) == Err::<(Seq<ParamV>, bool), Error>(e),
        },
{
    let ghost rawv = toks_view(raw@);
    let pieces = comma_splits_x(raw, true);
    proof {
        assert(pieces_view(pieces@).len() == comma_splits(rawv, true).len());
        lemma_comma_splits_nonempty(rawv, true);
    }
    let pieces = match normalize_pieces_x(pieces) {
        Ok(p) => p,
        Err(e) => {
            return Err(e);
        },
    };
    let parsed = match parse_params_x(&pieces) {
        Ok(p) => p,
        Err(e) => {
            return Err(e);
        },
    };
    assemble_params_x(&parsed)
}

/// A comma split always yields at least one piece.
pub proof fn lemma_comma_splits_nonempty(ts: Seq<TokV>, angles: bool)
    ensures
        comma_splits(ts, angles).len() >= 1,
    decreases ts.len(),
{
    match first_comma(ts, 0, 0, angles) {
        None => {},
        Some(c) => {},
    }
}

/// The call-argument list between the call's parentheses: split on
/// commas, classified, with at most one rest placeholder admitted.
pub open spec fn parse_cargs_list(raw: Seq<TokV>) -> Result<(Seq<CallArgV>, Seq<u64>), Error> {
    match normalize_pieces(comma_splits(raw, false)) {
        Err(e) => Err(e),
        Ok(ps) => match classify_cargs(ps) {
            Err(e) => Err(e),
            Ok(q) => if rest_count(q.0) <= 1 {
                Ok(q)
            } else {
                Err(Error::Parse)
            },
        },
    }
}

fn rest_count_x(cs: &Vec<CallArg>) -> (r: usize)
    ensures
        r as int == rest_count(cargs_view(cs@)),
        r <= cs@.len(),
{
    let ghost cv = cargs_view(cs@);
    let mut count: usize = 0;
    let mut k: usize = 0;
    proof {
        assert(cv.take(0) =~= Seq::<CallArgV>::empty());
    }
    while k < cs.len()
        invariant
            0 <= k <= cs@.len(),
            cv == cargs_view(cs@),
            count as int == rest_count(cv.take(k as int)),
            count <= k,
        decreases cs@.len() - k,
    {
        proof {
            assert(cv[k as int] == cs@[k as int]@);
            assert(cv.take(k + 1 as int).drop_last() =~= cv.take(k as int));
            assert(cv.take(k + 1 as int).last() == cv[k as int]);
        }
        let is_rest = match &cs[k] {
            CallArg::Rest { .. } => true,
            _ => false,
        };
        if is_rest {
            count += 1;
        }
        k += 1;
    }
    proof {
        assert(cv.take(cs@.len() as int) =~= cv);
    }
    count
}

/// The executable counterpart of `parse_cargs_list`.
pub fn parse_cargs_list_x(raw: Vec<Tok>) -> (r: Result<(Vec<CallArg>, Vec<u64>), Error>)
    ensures
        match r {
            Ok(q) => parse_cargs_list(toks_view(raw@)) == Ok::<(Seq<CallArgV>, Seq<u64>), Error>(
                (cargs_view(q.0@), q.1@),
            ),
            Err(e) => parse_cargs_list(toks_view(raw@)) == Err::<
                (Seq<CallArgV>, Seq<u64>),
                Error,
            >(e),
        },
{
    let ghost rawv = toks_view(raw@);
    let pieces = comma_splits_x(raw, false);
    proof {
        lemma_comma_splits_nonempty(rawv, false);
    }
    let pieces = match normalize_pieces_x(pieces) {
        Ok(p) => p,
        Err(e) => {
            return Err(e);
        },
    };
    let (cargs, refs) = match crate::preproc::classify_cargs_x(&pieces) {
        Ok(q) => q,
        Err(e) => {
            return Err(e);
        },
    };
    if rest_count_x(&cargs) <= 1 {
        Ok((cargs, refs))
    } else {
        Err(Error::Parse)
    }
}

/// One whole declaration from position `i` on: attributes, optional
/// `pub`, `fn`, the name, the parameter list, the call arrow, the
/// foreign function and its argument list, and an optional return
/// clause; and the position just after it.
pub open spec fn parse_decl(ts: Seq<TokV>, i: int) -> Result<(DeclV, int), Error>
    recommends
        0 <= i <= ts.len(),
{
    match parse_attrs(ts, i) {
        Err(e) => Err(e),
        Ok((attrs, i1)) => {
            let public = i1 < ts.len() && ts[i1] == TokV::Kw(Kw::Pub);
            let i2 = if public {
                i1 + 1
            } else {
                i1
            };
            if !(i2 < ts.len() && ts[i2] == TokV::Kw(Kw::Fn)) {
                Err(Error::Parse)
            } else if !(i2 + 1 < ts.len() && ts[i2 + 1] is Ident) {
                Err(Error::Parse)
            } else if !(i2 + 2 < ts.len() && ts[i2 + 2] == TokV::Punct(40u8)) {
                Err(Error::Parse)
            } else {
                match scan_group(ts, i2 + 3, 0) {
                    None => Err(Error::Parse),
                    Some(c1) => if !(i2 + 3 <= c1 < ts.len() && ts[c1] == TokV::Punct(41u8)) {
                        Err(Error::Parse)
                    } else {
                        match parse_params_list(ts.subrange(i2 + 3, c1)) {
                            Err(e) => Err(e),
                            Ok((params, self_disabled)) => {
                                let i3 = c1 + 1;
                                if !(i3 < ts.len() && ts[i3] == TokV::Op2(61u8, 62u8)) {
                                    Err(Error::Parse)
                                } else if !(i3 + 1 < ts.len() && ts[i3 + 1] is Ident) {
                                    Err(Error::Parse)
                                } else if !(i3 + 2 < ts.len() && ts[i3 + 2] == TokV::Punct(
                                    40u8,
                                )) {
                                    Err(Error::Parse)
                                } else {
                                    match scan_group(ts, i3 + 3, 0) {
                                        None => Err(Error::Parse),
                                        Some(c2) => if !(i3 + 3 <= c2 < ts.len() && ts[c2]
                                            == TokV::Punct(41u8)) {
                                            Err(Error::Parse)
                                        } else {
                                            match parse_cargs_list(ts.subrange(i3 + 3, c2)) {
                                                Err(e) => Err(e),
                                                Ok((cargs, refs)) => parse_ret_clause(
                                                    ts,
                                                    c2 + 1,
                                                    DeclV {
                                                        attrs,
                                                        public,
                                                        name: ts[i2 + 1]->Ident_0,
                                                        self_disabled,
                                                        params,
                                                        cfunc: ts[i3 + 1]->Ident_0,
                                                        cargs,
                                                        refs,
                                                        wrap_return: false,
                                                        ret_ty: None,
                                                    },
                                                ),
                                            }
                                        },
                                    }
                                }
                            },
                        }
                    },
                }
            }
        },
    }
}

/// The optional return clause at position `i`: `->`, an optional
/// wrap-return marker, and one type.  Without the arrow the declaration
/// returns the unit type.
pub open spec fn parse_ret_clause(ts: Seq<TokV>, i: int, d: DeclV) -> Result<(DeclV, int), Error>
    recommends
        0 <= i <= ts.len(),
{
    if i < ts.len() && ts[i] == TokV::Op2(45u8, 62u8) {
        let has_marker = i + 2 < ts.len() && ts[i + 1] == TokV::Punct(64u8) && ts[i + 2]
            is Ident;
        let wrap = has_marker && ts[i + 2]->Ident_0 == seq![114u8];
        let i5 = if has_marker {
            i + 3
        } else {
            i + 1
        };
        match parse_type(ts, i5) {
            Err(e) => Err(e),
            Ok(e) => Ok(
                (
                    DeclV {
                        wrap_return: wrap,
                        ret_ty: Some(ts.subrange(i5, e)),
                        ..d
                    },
                    e,
                ),
            ),
        }
    } else {
        Ok((d, i))
    }
}

fn ident_bytes(t: &Tok) -> (r: Vec<u8>)
    requires
        t@ is Ident,
    ensures
        r@ == t@->Ident_0,
{
    match t {
        Tok::Ident(v) => clone_bytes(v),
        _ => {
            proof {
                assert(false);
            }
            Vec::new()
        },
    }
}

/// The executable counterpart of `parse_decl`.
#[verifier::rlimit(100)]
pub fn parse_decl_x(ts: &Vec<Tok>, i: usize) -> (r: Result<(Declaration, usize), Error>)
    requires
        i <= ts@.len(),
    ensures
        match r {
            Ok(q) => parse_decl(toks_view(ts@), i as int) == Ok::<(DeclV, int), Error>(
                (q.0@, q.1 as int),
            ) && i <= q.1 <= ts@.len(),
            Err(e) => parse_decl(toks_view(ts@), i as int) == Err::<(DeclV, int), Error>(e),
        },
{
    let ghost tv = toks_view(ts@);
    let n = ts.len();
    let (attrs, i1) = match parse_attrs_x(ts, i) {
        Ok(q) => q,
        Err(e) => {
            return Err(e);
        },
    };
    proof {
        if i1 < n {
            assert(tv[i1 as int] == ts@[i1 as int]@);
        }
    }
    let public = i1 < n && tok_is_kw(&ts[i1], Kw::Pub);
    let i2 = if public {
        i1 + 1
    } else {
        i1
    };
    proof {
        if i2 < n {
            assert(tv[i2 as int] == ts@[i2 as int]@);
        }
        if i2 + 1 < n {
            assert(tv[i2 + 1 as int] == ts@[i2 + 1 as int]@);
        }
        if i2 + 2 < n {
            assert(tv[i2 + 2 as int] == ts@[i2 + 2 as int]@);
        }
    }
    if !(i2 < n && tok_is_kw(&ts[i2], Kw::Fn)) {
        return Err(Error::Parse);
    }
    if !(i2 + 1 < n && tok_is_ident(&ts[i2 + 1])) {
        return Err(Error::Parse);
    }
    if !(i2 + 2 < n && tok_is_punct(&ts[i2 + 2], 40)) {
        return Err(Error::Parse);
    }
    let name = ident_bytes(&ts[i2 + 1]);
    let c1 = match scan_group_x(ts, i2 + 3, 0) {
        Some(c) => c,
        None => {
            return Err(Error::Parse);
        },
    };
    proof {
        assert(tv[c1 as int] == ts@[c1 as int]@);
    }
    if !tok_is_punct(&ts[c1], 41) {
        return Err(Error::Parse);
    }
    let praw = clone_range(ts, i2 + 3, c1);
    let (params, self_disabled) = match parse_params_list_x(praw) {
        Ok(q) => q,
        Err(e) => {
            return Err(e);
        },
    };
    let i3 = c1 + 1;
    proof {
        if i3 < n {
            assert(tv[i3 as int] == ts@[i3 as int]@);
        }
        if i3 + 1 < n {
            assert(tv[i3 + 1 as int] == ts@[i3 + 1 as int]@);
        }
        if i3 + 2 < n {
            assert(tv[i3 + 2 as int] == ts@[i3 + 2 as int]@);
        }
    }
    if !(i3 < n && tok_is_op2(&ts[i3], 61, 62)) {
        return Err(Error::Parse);
    }
    if !(i3 + 1 < n && tok_is_ident(&ts[i3 + 1])) {
        return Err(Error::Parse);
    }
    if !(i3 + 2 < n && tok_is_punct(&ts[i3 + 2], 40)) {
        return Err(Error::Parse);
    }
    let cfunc = ident_bytes(&ts[i3 + 1]);
    let c2 = match scan_group_x(ts, i3 + 3, 0) {
        Some(c) => c,
        None => {
            return Err(Error::Parse);
        },
    };
    proof {
        assert(tv[c2 as int] == ts@[c2 as int]@);
    }
    if !tok_is_punct(&ts[c2], 41) {
        return Err(Error::Parse);
    }
    let craw = clone_range(ts, i3 + 3, c2);
    let (cargs, refs) = match parse_cargs_list_x(craw) {
        Ok(q) => q,
        Err(e) => {
            return Err(e);
        },
    };
    let d = Declaration {
        attrs,
        public,
        name,
        self_disabled,
        params,
        cfunc,
        cargs,
        refs,
        wrap_return: false,
        ret_ty: None,
    };
    let i4 = c2 + 1;
    proof {
        if i4 < n {
            assert(tv[i4 as int] == ts@[i4 as int]@);
        }
        if i4 + 1 < n {
            assert(tv[i4 + 1 as int] == ts@[i4 + 1 as int]@);
        }
        if i4 + 2 < n {
            assert(tv[i4 + 2 as int] == ts@[i4 + 2 as int]@);
        }
    }
    if i4 < n && tok_is_op2(&ts[i4], 45, 62) {
        let has_marker = n - i4 > 2 && tok_is_punct(&ts[i4 + 1], 64) && tok_is_ident(
            &ts[i4 + 2],
        );
        let wrap = has_marker && tok_ident_is1(&ts[i4 + 2], 114);
        let i5 = if has_marker {
            i4 + 3
        } else {
            i4 + 1
        };
        match parse_type_x(ts, i5) {
            Err(e) => Err(e),
            Ok(e) => {
                let rt = clone_range(ts, i5, e);
                let d2 = Declaration { wrap_return: wrap, ret_ty: Some(rt), ..d };
                Ok((d2, e))
            },
        }
    } else {
        Ok((d, i4))
    }
}

// ---------------------------------------------------------------------------
// Batches
// ---------------------------------------------------------------------------

/// A whole batch: declarations separated by `;`, with an optional
/// trailing separator, until the input is exhausted.
pub open spec fn parse_defs_from(ts: Seq<TokV>, i: int) -> Result<Seq<DeclV>, Error>
    decreases ts.len() - i,
    when 0 <= i <= ts.len()
{
    if i >= ts.len() {
        Ok(seq![])
    } else {
        match parse_decl(ts, i) {
            Err(e) => Err(e),
            Ok((d, j)) => if i < j <= ts.len() {
                let j2 = if j < ts.len() && ts[j] == TokV::Punct(59u8) {
                    j + 1
                } else {
                    j
                };
                if j2 == j && j < ts.len() {
                    Err(Error::Parse)
                } else {
                    match parse_defs_from(ts, j2) {
                        Ok(ds) => Ok(seq![d] + ds),
                        Err(e) => Err(e),
                    }
                }
            } else {
                Err(Error::Parse)
            },
        }
    }
}

/// The executable counterpart of `parse_defs_from`, over a whole input.
pub fn parse_defs_x(ts: &Vec<Tok>) -> (r: Result<Vec<Declaration>, Error>)
    ensures
        match r {
            Ok(ds) => parse_defs_from(toks_view(ts@), 0) == Ok::<Seq<DeclV>, Error>(
                decls_view(ds@),
            ),
            Err(e) => parse_defs_from(toks_view(ts@), 0) == Err::<Seq<DeclV>, Error>(e),
        },
{
    let ghost tv = toks_view(ts@);
    let mut out: Vec<Declaration> = Vec::new();
    let mut i: usize = 0;
    let n = ts.len();
    proof {
        assert(decls_view(out@) =~= Seq::<DeclV>::empty());
        if parse_defs_from(tv, 0) is Ok {
            let q = parse_defs_from(tv, 0)->Ok_0;
            assert(Seq::<DeclV>::empty() + q =~= q);
        }
    }
    while i < n
        invariant
            0 <= i <= n == ts@.len(),
            tv == toks_view(ts@),
            parse_defs_from(tv, 0) == (match parse_defs_from(tv, i as int) {
                Ok(ds) => Ok::<Seq<DeclV>, Error>(decls_view(out@) + ds),
                Err(e) => Err(e),
            }),
        decreases n - i,
    {
        let ghost out0 = decls_view(out@);
        let (d, j) = match parse_decl_x(ts, i) {
            Ok(q) => q,
            Err(e) => {
                return Err(e);
            },
        };
        if j <= i {
            return Err(Error::Parse);
        }
        proof {
            if j < n {
                assert(tv[j as int] == ts@[j as int]@);
            }
        }
        let j2 = if j < n && tok_is_punct(&ts[j], 59) {
            j + 1
        } else {
            j
        };
        if j2 == j && j < n {
            return Err(Error::Parse);
        }
        let ghost dv = d@;
        out.push(d);
        proof {
            assert(decls_view(out@) =~= out0.push(dv));
            assert(out0 + seq![dv] =~= out0.push(dv));
            if parse_defs_from(tv, j2 as int) is Ok {
                let q = parse_defs_from(tv, j2 as int)->Ok_0;
                assert(out0 + (seq![dv] + q) =~= (out0 + seq![dv]) + q);
            }
        }
        i = j2;
    }
    proof {
        assert(decls_view(out@) + Seq::<DeclV>::empty() =~= decls_view(out@));
    }
    Ok(out)
}

// ---------------------------------------------------------------------------
// Impl blocks
// ---------------------------------------------------------------------------

/// Whether a declaration begins at `i`: after any attributes and an
/// optional `pub`, the tokens `fn`, a name, a parenthesized group and
/// the call arrow follow, all before `end`.
pub open spec fn lookahead_decl(ts: Seq<TokV>, i: int, end: int) -> bool
    decreases ts.len() - i,
    when 0 <= i <= ts.len()
{
    if i + 1 < end && i + 1 < ts.len() && ts[i] == TokV::Punct(35u8) && ts[i + 1] == TokV::Punct(
        91u8,
    ) {
        match scan_group(ts, i + 2, 0) {
            Some(c) => if i + 2 <= c && c < ts.len() && ts[c] == TokV::Punct(93u8) {
                lookahead_decl(ts, c + 1, end)
            } else {
                false
            },
            None => false,
        }
    } else {
        let i2 = if i < end && i < ts.len() && ts[i] == TokV::Kw(Kw::Pub) {
            i + 1
        } else {
            i
        };
        &&& i2 + 2 < end
        &&& i2 + 2 < ts.len()
        &&& ts[i2] == TokV::Kw(Kw::Fn)
        &&& ts[i2 + 1] is Ident
        &&& ts[i2 + 2] == TokV::Punct(40u8)
        &&& match scan_group(ts, i2 + 3, 0) {
            Some(c) => c + 1 < end && c + 1 < ts.len() && ts[c + 1] == TokV::Op2(61u8, 62u8),
            None => false,
        }
    }
}

fn lookahead_decl_x(ts: &Vec<Tok>, i: usize, end: usize) -> (r: bool)
    requires
        i <= ts@.len(),
        end <= ts@.len(),
    ensures
        r == lookahead_decl(toks_view(ts@), i as int, end as int),
    decreases ts@.len() - i,
{
    let ghost tv = toks_view(ts@);
    let n = ts.len();
    proof {
        if i < n {
            assert(tv[i as int] == ts@[i as int]@);
        }
        if i + 1 < n {
            assert(tv[i + 1 as int] == ts@[i + 1 as int]@);
        }
    }
    if n - i > 1 && i + 1 < end && tok_is_punct(&ts[i], 35) && tok_is_punct(&ts[i + 1], 91) {
        match scan_group_x(ts, i + 2, 0) {
            Some(c) => {
                proof {
                    assert(tv[c as int] == ts@[c as int]@);
                }
                if tok_is_punct(&ts[c], 93) {
                    lookahead_decl_x(ts, c + 1, end)
                } else {
                    false
                }
            },
            None => false,
        }
    } else {
        let i2 = if i < end && i < n && tok_is_kw(&ts[i], Kw::Pub) {
            i + 1
        } else {
            i
        };
        proof {
            if i2 < n {
                assert(tv[i2 as int] == ts@[i2 as int]@);
            }
            if i2 + 1 < n {
                assert(tv[i2 + 1 as int] == ts@[i2 + 1 as int]@);
            }
            if i2 + 2 < n {
                assert(tv[i2 + 2 as int] == ts@[i2 + 2 as int]@);
            }
        }
        if !(n - i2 > 2 && i2 + 2 < end && tok_is_kw(&ts[i2], Kw::Fn) && tok_is_ident(&ts[i2 + 1])
            && tok_is_punct(&ts[i2 + 2], 40)) {
            return false;
        }
        match scan_group_x(ts, i2 + 3, 0) {
            Some(c) => {
                proof {
                    if c + 1 < n {
                        assert(tv[c + 1 as int] == ts@[c + 1 as int]@);
                    }
                }
                c + 1 < end && tok_is_op2(&ts[c + 1], 61, 62)
            },
            None => false,
        }
    }
}

/// The position just after one passthrough item starting at `i`: the
/// item runs to a `;` at nesting depth zero, or through its closing
/// brace group.
pub open spec fn item_end(ts: Seq<TokV>, i: int, end: int) -> Option<int>
    decreases end - i,
    when 0 <= i <= end <= ts.len()
{
    if i >= end {
        None
    } else if ts[i] == TokV::Punct(59u8) {
        Some(i + 1)
    } else if ts[i] == TokV::Punct(123u8) {
        match scan_group(ts, i + 1, 0) {
            Some(c) => if c < end && ts[c] == TokV::Punct(125u8) {
                Some(c + 1)
            } else {
                None
            },
            None => None,
        }
    } else if ts[i] == TokV::Punct(40u8) || ts[i] == TokV::Punct(91u8) {
        match scan_group(ts, i + 1, 0) {
            Some(c) => if i < c + 1 && c + 1 <= end {
                item_end(ts, c + 1, end)
            } else {
                None
            },
            None => None,
        }
    } else {
        item_end(ts, i + 1, end)
    }
}

fn item_end_x(ts: &Vec<Tok>, i: usize, end: usize) -> (r: Option<usize>)
    requires
        i <= end <= ts@.len(),
    ensures
        match r {
            Some(j) => item_end(toks_view(ts@), i as int, end as int) == Some(j as int) && i < j
                <= end + 1,
            None => item_end(toks_view(ts@), i as int, end as int) is None,
        },
    decreases end - i,
{
    let ghost tv = toks_view(ts@);
    let n = ts.len();
    if i >= end {
        return None;
    }
    proof {
        assert(tv[i as int] == ts@[i as int]@);
    }
    if tok_is_punct(&ts[i], 59) {
        Some(i + 1)
    } else if tok_is_punct(&ts[i], 123) {
        match scan_group_x(ts, i + 1, 0) {
            Some(c) => {
                proof {
                    assert(tv[c as int] == ts@[c as int]@);
                }
                if c < end && tok_is_punct(&ts[c], 125) {
                    Some(c + 1)
                } else {
                    None
                }
            },
            None => None,
        }
    } else if tok_is_punct(&ts[i], 40) || tok_is_punct(&ts[i], 91) {
        match scan_group_x(ts, i + 1, 0) {
            Some(c) => {
                if c + 1 <= end {
                    item_end_x(ts, c + 1, end)
                } else {
                    None
                }
            },
            None => None,
        }
    } else {
        item_end_x(ts, i + 1, end)
    }
}

/// The elements of an impl block between its braces, in order: parsed
/// declarations and passthrough items.
pub open spec fn parse_impl_items(ts: Seq<TokV>, i: int, end: int) -> Result<Seq<ImplItemV>, Error>
    decreases end - i,
    when 0 <= i <= end <= ts.len()
{
    if i >= end {
        Ok(seq![])
    } else if lookahead_decl(ts, i, end) {
        match parse_decl(ts, i) {
            Err(e) => Err(e),
            Ok((d, j)) => if i < j <= end {
                let j2 = if j < end && ts[j] == TokV::Punct(59u8) {
                    j + 1
                } else {
                    j
                };
                match parse_impl_items(ts, j2, end) {
                    Ok(items) => Ok(seq![ImplItemV::Gen(d)] + items),
                    Err(e) => Err(e),
                }
            } else {
                Err(Error::Parse)
            },
        }
    } else {
        match item_end(ts, i, end) {
            None => Err(Error::Parse),
            Some(j) => if i < j <= end {
                match parse_impl_items(ts, j, end) {
                    Ok(items) => Ok(seq![ImplItemV::Pass(ts.subrange(i, j))] + items),
                    Err(e) => Err(e),
                }
            } else {
                Err(Error::Parse)
            },
        }
    }
}

/// The executable counterpart of `parse_impl_items`.
pub fn parse_impl_items_x(ts: &Vec<Tok>, start: usize, end: usize) -> (r: Result<
    Vec<ImplItem>,
    Error,
>)
    requires
        start <= end <= ts@.len(),
    ensures
        match r {
            Ok(items) => parse_impl_items(toks_view(ts@), start as int, end as int) == Ok::<
                Seq<ImplItemV>,
                Error,
            >(items_view(items@)),
            Err(e) => parse_impl_items(toks_view(ts@), start as int, end as int) == Err::<
                Seq<ImplItemV>,
                Error,
            >(e),
        },
{
    let ghost tv = toks_view(ts@);
    let mut out: Vec<ImplItem> = Vec::new();
    let mut i: usize = start;
    proof {
        assert(items_view(out@) =~= Seq::<ImplItemV>::empty());
        if parse_impl_items(tv, start as int, end as int) is Ok {
            let q = parse_impl_items(tv, start as int, end as int)->Ok_0;
            assert(Seq::<ImplItemV>::empty() + q =~= q);
        }
    }
    while i < end
        invariant
            start <= i <= end <= ts@.len(),
            tv == toks_view(ts@),
            parse_impl_items(tv, start as int, end as int) == (match parse_impl_items(
                tv,
                i as int,
                end as int,
            ) {
                Ok(items) => Ok::<Seq<ImplItemV>, Error>(items_view(out@) + items),
                Err(e) => Err(e),
            }),
        decreases end - i,
    {
        let ghost out0 = items_view(out@);
        if lookahead_decl_x(ts, i, end) {
            let (d, j) = match parse_decl_x(ts, i) {
                Ok(q) => q,
                Err(e) => {
                    return Err(e);
                },
            };
            if j <= i || j > end {
                return Err(Error::Parse);
            }
            proof {
                if j < end {
                    assert(tv[j as int] == ts@[j as int]@);
                }
            }
            let j2 = if j < end && tok_is_punct(&ts[j], 59) {
                j + 1
            } else {
                j
            };
            let ghost dv = d@;
            out.push(ImplItem::Gen(d));
            proof {
                assert(items_view(out@) =~= out0.push(ImplItemV::Gen(dv)));
                assert(out0 + seq![ImplItemV::Gen(dv)] =~= out0.push(ImplItemV::Gen(dv)));
                if parse_impl_items(tv, j2 as int, end as int) is Ok {
                    let q = parse_impl_items(tv, j2 as int, end as int)->Ok_0;
                    assert(out0 + (seq![ImplItemV::Gen(dv)] + q) =~= (out0 + seq![
                        ImplItemV::Gen(dv),
                    ]) + q);
                }
            }
            i = j2;
        } else {
            let j = match item_end_x(ts, i, end) {
                Some(j) => j,
                None => {
                    return Err(Error::Parse);
                },
            };
            if j > end {
                return Err(Error::Parse);
            }
            let pass = clone_range(ts, i, j);
            let ghost passv = toks_view(pass@);
            out.push(ImplItem::Pass(pass));
            proof {
                assert(items_view(out@) =~= out0.push(ImplItemV::Pass(passv)));
                assert(out0 + seq![ImplItemV::Pass(passv)] =~= out0.push(ImplItemV::Pass(passv)));
                if parse_impl_items(tv, j as int, end as int) is Ok {
                    let q = parse_impl_items(tv, j as int, end as int)->Ok_0;
                    assert(out0 + (seq![ImplItemV::Pass(passv)] + q) =~= (out0 + seq![
                        ImplItemV::Pass(passv),
                    ]) + q);
                }
            }
            i = j;
        }
    }
    proof {
        assert(items_view(out@) + Seq::<ImplItemV>::empty() =~= items_view(out@));
    }
    Ok(out)
}

/// A whole impl block: the target type, then declarations and
/// passthrough items between braces that close the input.
pub open spec fn parse_impl(ts: Seq<TokV>) -> Result<(Seq<TokV>, Seq<ImplItemV>), Error> {
    match parse_type(ts, 0) {
        Err(e) => Err(e),
        Ok(e) => if 0 < e && e < ts.len() && ts[e] == TokV::Punct(123u8) {
            match scan_group(ts, e + 1, 0) {
                Some(c) => if e + 1 <= c && c == ts.len() - 1 && ts[c] == TokV::Punct(125u8) {
                    match parse_impl_items(ts, e + 1, c) {
                        Ok(items) => Ok((ts.subrange(0, e), items)),
                        Err(er) => Err(er),
                    }
                } else {
                    Err(Error::Parse)
                },
                None => Err(Error::Parse),
            }
        } else {
            Err(Error::Parse)
        },
    }
}

/// The executable counterpart of `parse_impl`.
pub fn parse_impl_x(ts: &Vec<Tok>) -> (r: Result<(Vec<Tok>, Vec<ImplItem>), Error>)
    ensures
        match r {
            Ok(q) => parse_impl(toks_view(ts@)) == Ok::<(Seq<TokV>, Seq<ImplItemV>), Error>(
                (toks_view(q.0@), items_view(q.1@)),
            ),
            Err(e) => parse_impl(toks_view(ts@)) == Err::<(Seq<TokV>, Seq<ImplItemV>), Error>(e),
        },
{
    let ghost tv = toks_view(ts@);
    let e = match parse_type_x(ts, 0) {
        Ok(e) => e,
        Err(er) => {
            return Err(er);
        },
    };
    proof {
        if e < ts@.len() {
            assert(tv[e as int] == ts@[e as int]@);
        }
    }
    if !(e < ts.len() && tok_is_punct(&ts[e], 123)) {
        return Err(Error::Parse);
    }
    let c = match scan_group_x(ts, e + 1, 0) {
        Some(c) => c,
        None => {
            return Err(Error::Parse);
        },
    };
    proof {
        assert(tv[c as int] == ts@[c as int]@);
    }
    if !(c == ts.len() - 1 && tok_is_punct(&ts[c], 125)) {
        return Err(Error::Parse);
    }
    match parse_impl_items_x(ts, e + 1, c) {
        Ok(items) => {
            let target = clone_range(ts, 0, e);
            Ok((target, items))
        },
        Err(er) => Err(er),
    }
}

// ---------------------------------------------------------------------------
// What parsing guarantees
// ---------------------------------------------------------------------------

proof fn lemma_parse_params_shape(ps: Seq<Seq<TokV>>)
    requires
        parse_params(ps) is Ok,
    ensures
        forall|k: int|
            0 <= k < parse_params(ps)->Ok_0.len() ==> ((#[trigger] parse_params(ps)->Ok_0[k])
                matches ParsedParamV::Keep(p) ==> (p matches ParamV::TypeBound { bound, .. }
                ==> bound.len() >= 1 && bound[0] is Ident)),
    decreases ps.len(),
{
    if ps.len() > 0 {
        lemma_parse_params_shape(ps.drop_first());
        let rs = parse_params(ps)->Ok_0;
        let r0 = parse_param(ps[0])->Ok_0;
        let rest = parse_params(ps.drop_first())->Ok_0;
        assert(rs == seq![r0] + rest);
        assert forall|k: int|
            0 <= k < rs.len() implies ((#[trigger] rs[k]) matches ParsedParamV::Keep(p) ==> (p
            matches ParamV::TypeBound { bound, .. } ==> bound.len() >= 1
            && bound[0] is Ident)) by {
            if k == 0 {
                assert(rs[0] == r0);
            } else {
                assert(rs[k] == rest[k - 1]);
            }
        }
    }
}

proof fn lemma_keeps_index(rs: Seq<ParsedParamV>, k: int)
    requires
        0 <= k < rs.len(),
    ensures
        keeps(rs)[k] == rs[k]->Keep_0,
{
}

/// The parameter list the parser accepts keeps the declared
/// invariants: receivers stand first or not at all and set the
/// suppression flag, and every introduced type parameter is named.
pub proof fn lemma_parse_params_list_wf(raw: Seq<TokV>)
    requires
        parse_params_list(raw) is Ok,
    ensures
        ({
            let q = parse_params_list(raw)->Ok_0;
            &&& forall|k: int| 1 <= k < q.0.len() ==> !is_receiver(#[trigger] q.0[k])
            &&& (q.0.len() > 0 && is_receiver(q.0[0]) ==> q.1)
            &&& forall|k: int|
                0 <= k < q.0.len() ==> ((#[trigger] q.0[k]) matches ParamV::TypeBound {
                    bound,
                    ..
                } ==> bound.len() >= 1 && bound[0] is Ident)
        }),
{
    let ps = normalize_pieces(comma_splits(raw, true))->Ok_0;
    let rs = parse_params(ps)->Ok_0;
    lemma_parse_params_shape(ps);
    let q = parse_params_list(raw)->Ok_0;
    if rs.len() == 0 {
    } else {
        match rs[0] {
            ParsedParamV::Disable => {
                let tail = rs.drop_first();
                assert(q.0 == keeps(tail));
                assert forall|k: int| 0 <= k < q.0.len() implies !is_receiver(#[trigger] q.0[k])
                    && ((q.0[k]) matches ParamV::TypeBound { bound, .. } ==> bound.len() >= 1
                    && bound[0] is Ident) by {
                    lemma_keeps_index(tail, k);
                    assert(tail[k] == rs[k + 1]);
                    assert((rs[k + 1] matches ParsedParamV::Keep(p) && !is_receiver(p)));
                }
            },
            ParsedParamV::Keep(p0) => {
                assert(q.0 == keeps(rs));
                assert forall|k: int| 0 <= k < q.0.len() implies ((#[trigger] q.0[k])
                    matches ParamV::TypeBound { bound, .. } ==> bound.len() >= 1
                    && bound[0] is Ident) by {
                    lemma_keeps_index(rs, k);
                }
                assert forall|k: int| 1 <= k < q.0.len() implies !is_receiver(
                    #[trigger] q.0[k],
                ) by {
                    lemma_keeps_index(rs, k);
                    assert((rs[k] matches ParsedParamV::Keep(p) && !is_receiver(p)));
                }
                lemma_keeps_index(rs, 0);
                assert(q.0[0] == p0);
            },
        }
    }
}

/// Every declaration the parser accepts satisfies the declared
/// invariants: a receiver only in first position and consistent with
/// the suppression flag, at most one rest placeholder, and a named
/// type parameter in every bound.
pub proof fn lemma_parse_decl_wf(ts: Seq<TokV>, i: int)
    requires
        0 <= i <= ts.len(),
        parse_decl(ts, i) is Ok,
    ensures
        parse_decl(ts, i)->Ok_0.0.wf(),
{
    let d = parse_decl(ts, i)->Ok_0.0;
    let i1 = parse_attrs(ts, i)->Ok_0.1;
    let public = i1 < ts.len() && ts[i1] == TokV::Kw(Kw::Pub);
    let i2 = if public {
        i1 + 1
    } else {
        i1
    };
    let c1 = scan_group(ts, i2 + 3, 0)->0;
    let praw = ts.subrange(i2 + 3, c1);
    lemma_parse_params_list_wf(praw);
    let i3 = c1 + 1;
    let c2 = scan_group(ts, i3 + 3, 0)->0;
    let craw = ts.subrange(i3 + 3, c2);
    let pq = parse_params_list(praw)->Ok_0;
    let cq = parse_cargs_list(craw)->Ok_0;
    assert(d.params == pq.0);
    assert(d.self_disabled == pq.1);
    assert(d.cargs == cq.0);
    assert(rest_count(cq.0) <= 1);
}

} // verus!
